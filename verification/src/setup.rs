//! Setting up a new game: shuffled decks, four face-up cards per level,
//! three nobles, and the starting bank.
use vstd::prelude::*;
use rand::Rng;
use rand::rngs::ThreadRng;
use crate::cost::{Tokens, zero_tokens};
use crate::card::Card;
use crate::records::{CardRecord, color_named, level_cards, cards_of_level};
use crate::player::Player;
use crate::state::State;

verus! {

/// The generator of the current thread.
#[verifier::external_type_specification]
#[verifier::external_body]
pub struct ExThreadRng(ThreadRng);

/// Calls `rand::thread_rng`, a handle to the current thread's random number
/// generator; nothing is claimed of it.
#[verifier::external_body]
fn new_rng() -> ThreadRng {
    rand::thread_rng()
}

/// Calls `Rng::shuffle`, which permutes the slice by swaps: claimed is only
/// that the same cards, each as often, come out; their order is chance.
#[verifier::external_body]
fn shuffle_cards(rng: &mut ThreadRng, cards: &mut Vec<Card>)
    ensures
        final(cards)@.to_multiset() == old(cards)@.to_multiset(),
        final(cards)@.len() == old(cards)@.len(),
{
    rng.shuffle(cards)
}

/// The starting face-down part of a deck: all but its last four cards.
pub open spec fn dealt_deck(deck: Seq<Card>) -> Seq<Card> {
    deck.take(deck.len() - 4)
}

/// The starting face-up part of a deck: its last four cards.
pub open spec fn dealt_row(deck: Seq<Card>) -> Seq<Card> {
    deck.skip(deck.len() - 4)
}

impl State {
    /// Deals a game from decks in the order given: the last four cards of each
    /// level are laid face up, the first three nobles are kept, and the bank
    /// gets the tokens for `players` players.
    pub fn deal(players: u8, level_decks: Vec<Vec<Card>>, nobles: Vec<Card>) -> (s: State)
        requires
            players == 2,
            level_decks@.len() == 3,
            forall|d: int| 0 <= d < 3 ==> (#[trigger] level_decks@[d])@.len() >= 4,
        ensures
            s@.decks.len() == 3,
            s@.available_cards.len() == 3,
            forall|d: int| 0 <= d < 3 ==> #[trigger] s@.decks[d] == dealt_deck(level_decks@[d]@),
            forall|d: int|
                0 <= d < 3 ==> #[trigger] s@.available_cards[d] == dealt_row(level_decks@[d]@),
            s@.nobles == nobles@.take(if nobles@.len() < 3 { nobles@.len() as int } else { 3 }),
            s@.bank == Tokens::start_spec(players),
            s@.player.tokens == zero_tokens(),
            s@.player.cards.len() == 0,
            s@.player.reserved.len() == 0,
            s@.player.nobles.len() == 0,
            s@.adversary.tokens == zero_tokens(),
            s@.adversary.cards.len() == 0,
            s@.adversary.reserved.len() == 0,
            s@.adversary.nobles.len() == 0,
            s@.players_turn,
            s@.cards_available_per_deck == 4,
    {
        let ghost given = level_decks@;
        let mut remaining = level_decks;
        let mut decks: Vec<Vec<Card>> = Vec::new();
        let mut acs: Vec<Vec<Card>> = Vec::new();
        let mut i: usize = 0;
        while i < 3
            invariant
                i <= 3,
                remaining@.len() == 3,
                given.len() == 3,
                forall|d: int| 0 <= d < 3 ==> (#[trigger] given[d])@.len() >= 4,
                forall|d: int| i <= d < 3 ==> #[trigger] remaining@[d] == given[d],
                decks@.len() == i,
                acs@.len() == i,
                forall|d: int| 0 <= d < i ==> #[trigger] decks@[d]@ == dealt_deck(given[d]@),
                forall|d: int| 0 <= d < i ==> #[trigger] acs@[d]@ == dealt_row(given[d]@),
            decreases 3 - i,
        {
            let mut new_deck: Vec<Card> = Vec::new();
            std::mem::swap(&mut new_deck, &mut remaining[i]);
            assert(new_deck@ == given[i as int]@);
            let new_deck_len = new_deck.len() - 4;
            let new_available_cards = new_deck.split_off(new_deck_len);
            assert(new_deck@ =~= dealt_deck(given[i as int]@));
            assert(new_available_cards@ =~= dealt_row(given[i as int]@));
            decks.push(new_deck);
            acs.push(new_available_cards);
            i = i + 1;
        }
        let mut nobles = nobles;
        nobles.truncate(3);
        let s = State {
            decks: decks,
            available_cards: acs,
            bank: Tokens::start(players),
            nobles: nobles,
            player: Player::new(),
            adversary: Player::new(),
            players_turn: true,
            cards_available_per_deck: 4,
        };
        assert forall|d: int| 0 <= d < 3 implies #[trigger] s@.decks[d] == dealt_deck(given[d]@) by {
            assert(s@.decks[d] == s.decks@[d]@);
        }
        assert forall|d: int| 0 <= d < 3 implies #[trigger] s@.available_cards[d] == dealt_row(
            given[d]@,
        ) by {
            assert(s@.available_cards[d] == s.available_cards@[d]@);
        }
        assert(given == level_decks@);
        s
    }

    /// A new game for `players` players from the card list: each level's cards
    /// shuffled, four of them laid face up, and three nobles drawn at random
    /// from the level-0 records.
    pub fn new(players: u8, records: &Vec<CardRecord>) -> (s: State)
        requires
            players == 2,
            forall|i: int|
                0 <= i < records@.len() && (#[trigger] records@[i]).level <= 3 ==> color_named(
                    records@[i].color@,
                ) is Some,
            forall|l: u8| 1 <= l <= 3 ==> #[trigger] level_cards(records@, l).len() >= 4,
        ensures
            s@.decks.len() == 3,
            s@.available_cards.len() == 3,
            forall|d: int|
                0 <= d < 3 ==> (#[trigger] s@.available_cards[d]).len() == 4 && (s@.decks[d]
                    + s@.available_cards[d]).to_multiset() == level_cards(records@, (d + 1) as u8).to_multiset(),
            s@.nobles.len() == if level_cards(records@, 0).len() < 3 {
                level_cards(records@, 0).len() as int
            } else {
                3
            },
            s@.nobles.to_multiset().subset_of(level_cards(records@, 0).to_multiset()),
            s@.bank == Tokens::start_spec(players),
            s@.player.tokens == zero_tokens(),
            s@.player.cards.len() == 0,
            s@.player.reserved.len() == 0,
            s@.player.nobles.len() == 0,
            s@.adversary.tokens == zero_tokens(),
            s@.adversary.cards.len() == 0,
            s@.adversary.reserved.len() == 0,
            s@.adversary.nobles.len() == 0,
            s@.players_turn,
            s@.cards_available_per_deck == 4,
    {
        let mut rng = new_rng();
        let mut level_decks: Vec<Vec<Card>> = Vec::new();
        let mut i: u8 = 0;
        while i < 3
            invariant
                i <= 3,
                level_decks@.len() == i,
                forall|j: int|
                    0 <= j < records@.len() && (#[trigger] records@[j]).level <= 3 ==> color_named(
                        records@[j].color@,
                    ) is Some,
                forall|l: u8| 1 <= l <= 3 ==> #[trigger] level_cards(records@, l).len() >= 4,
                forall|d: int|
                    0 <= d < i ==> (#[trigger] level_decks@[d])@.to_multiset() == level_cards(
                        records@,
                        (d + 1) as u8,
                    ).to_multiset() && level_decks@[d]@.len() == level_cards(
                        records@,
                        (d + 1) as u8,
                    ).len(),
            decreases 3 - i,
        {
            let mut new_deck = cards_of_level(records, i + 1);
            shuffle_cards(&mut rng, &mut new_deck);
            level_decks.push(new_deck);
            i = i + 1;
        }
        let mut nobles = cards_of_level(records, 0);
        let ghost listed = nobles@;
        shuffle_cards(&mut rng, &mut nobles);
        let ghost shuffled = nobles@;
        let ghost decks_given = level_decks@;
        assert(forall|d: int| 0 <= d < 3 ==> (#[trigger] level_decks@[d])@.len() >= 4) by {
            assert forall|d: int| 0 <= d < 3 implies (#[trigger] level_decks@[d])@.len() >= 4 by {
                assert(level_cards(records@, (d + 1) as u8).len() >= 4);
            }
        }
        let s = State::deal(players, level_decks, nobles);
        proof {
            broadcast use vstd::seq_lib::lemma_multiset_commutative;
            assert forall|d: int| 0 <= d < 3 implies (#[trigger] s@.available_cards[d]).len() == 4
                && (s@.decks[d] + s@.available_cards[d]).to_multiset() == level_cards(
                records@,
                (d + 1) as u8,
            ).to_multiset() by {
                let deck = decks_given[d]@;
                assert(deck.to_multiset() == level_cards(records@, (d + 1) as u8).to_multiset());
                assert(deck.len() >= 4);
                assert(s@.decks[d] == dealt_deck(deck));
                assert(s@.available_cards[d] == dealt_row(deck));
                assert(dealt_row(deck).len() == 4);
                assert(dealt_deck(deck) + dealt_row(deck) =~= deck);
            }
            let k = if shuffled.len() < 3 { shuffled.len() as int } else { 3 };
            assert(shuffled.take(k) + shuffled.skip(k) =~= shuffled);
            assert(shuffled.to_multiset() =~= shuffled.take(k).to_multiset().add(
                shuffled.skip(k).to_multiset(),
            ));
            shuffled.to_multiset_ensures();
            listed.to_multiset_ensures();
        }
        s
    }
}

} // verus!
