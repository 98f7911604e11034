//! What pricing, evaluation and refilling do, stated directly in terms of
//! their inputs.
use vstd::prelude::*;
use crate::color::{color_at, lemma_color_at_ord};
use crate::card::Card;
use crate::player::{
    PlayerView, bonus, color_count, counts_fit, card_score_of, token_score_of, wanted, paid,
    shortfall_prefix,
};
use crate::state::{StateView, SCORE_TO_WIN, refreshed};
use crate::evaluation::{score_spec, noble_demand};
use crate::cost::{Tokens, zero_tokens};
use crate::moves::Move;
use crate::command::{Command, command_spec, command_fits, letter_count};

verus! {

/// How many tokens of gem color `i` the price of `card` asks for beyond the
/// cards of that color the player has bought.
pub open spec fn beyond_bonus(p: PlayerView, card: Card, i: int) -> int {
    let owned = color_count(p.cards, color_at(i)) as int;
    if card.cost.at(i) > owned {
        card.cost.at(i) - owned
    } else {
        0
    }
}

/// How much of `beyond_bonus` for gem color `i` the player's tokens of that color leave open.
pub open spec fn left_open(p: PlayerView, card: Card, i: int) -> int {
    if beyond_bonus(p, card, i) > p.tokens.at(i) {
        beyond_bonus(p, card, i) - p.tokens.at(i)
    } else {
        0
    }
}

/// Jokers needed to buy `card`: what the bought cards and the tokens held
/// leave open, over the five gem colors.
pub open spec fn jokers_needed(p: PlayerView, card: Card) -> int {
    left_open(p, card, 0) + left_open(p, card, 1) + left_open(p, card, 2) + left_open(p, card, 3)
        + left_open(p, card, 4)
}

/// Pricing a card: the player can buy it exactly when the jokers held cover
/// what the bought cards and the gem tokens held leave open; the price then
/// takes, of each gem color, the tokens held up to what the card asks beyond
/// the bought cards of that color, and the jokers needed.
pub proof fn lemma_cost_for_prices(p: PlayerView, card: Card)
    requires
        counts_fit(p.cards),
    ensures
        (p.cost_for(card) is Some) == (jokers_needed(p, card) <= p.tokens.joker),
        p.cost_for(card) is Some ==> {
            let cost = p.cost_for(card)->Some_0;
            &&& forall|i: int|
                0 <= i < 5 ==> #[trigger] cost.at(i) == if p.tokens.at(i) < beyond_bonus(p, card, i) {
                    p.tokens.at(i) as int
                } else {
                    beyond_bonus(p, card, i)
                }
            &&& cost.joker == jokers_needed(p, card)
        },
{
    let t = p.tokens;
    let b = bonus(p.cards);
    assert forall|i: int| 0 <= i < 5 implies #[trigger] b.at(i) == color_count(p.cards, color_at(i))
        && wanted(b, card, i) == beyond_bonus(p, card, i) by {
        assert(color_count(p.cards, color_at(i)) <= u8::MAX);
    }
    assert(b.at(0) == color_count(p.cards, color_at(0)));
    assert(b.at(1) == color_count(p.cards, color_at(1)));
    assert(b.at(2) == color_count(p.cards, color_at(2)));
    assert(b.at(3) == color_count(p.cards, color_at(3)));
    assert(b.at(4) == color_count(p.cards, color_at(4)));
    assert(wanted(b, card, 0) == beyond_bonus(p, card, 0));
    assert(wanted(b, card, 1) == beyond_bonus(p, card, 1));
    assert(wanted(b, card, 2) == beyond_bonus(p, card, 2));
    assert(wanted(b, card, 3) == beyond_bonus(p, card, 3));
    assert(wanted(b, card, 4) == beyond_bonus(p, card, 4));
    assert(shortfall_prefix(t, b, card, 0) == 0);
    assert(shortfall_prefix(t, b, card, 1) == left_open(p, card, 0));
    assert(shortfall_prefix(t, b, card, 2) == left_open(p, card, 0) + left_open(p, card, 1));
    assert(shortfall_prefix(t, b, card, 3) == left_open(p, card, 0) + left_open(p, card, 1)
        + left_open(p, card, 2));
    assert(shortfall_prefix(t, b, card, 4) == left_open(p, card, 0) + left_open(p, card, 1)
        + left_open(p, card, 2) + left_open(p, card, 3));
    assert(shortfall_prefix(t, b, card, 5) == jokers_needed(p, card));
    if p.cost_for(card) is Some {
        let cost = p.cost_for(card)->Some_0;
        assert(cost.at(0) == paid(t, b, card, 0));
        assert(cost.at(1) == paid(t, b, card, 1));
        assert(cost.at(2) == paid(t, b, card, 2));
        assert(cost.at(3) == paid(t, b, card, 3));
        assert(cost.at(4) == paid(t, b, card, 4));
    }
}

/// The evaluation of a position before the outcome of the game is counted:
/// 3000 per point of prestige lead, the difference of card scores and of
/// token scores, and 20 per card the adversary holds in reserve beyond the player.
pub open spec fn position_value(s: StateView) -> int {
    let mult = noble_demand(s.nobles);
    (s.player.points() - s.adversary.points()) * 3000 + card_score_of(s.player.cards, mult)
        - card_score_of(s.adversary.cards, mult) + token_score_of(s.player.tokens) - token_score_of(
        s.adversary.tokens,
    ) - s.player.reserved.len() * 20 + s.adversary.reserved.len() * 20
}

/// The outcome of the game counts a million: added when the player has reached
/// the winning score and leads or ties, subtracted when the player has reached
/// it but trails, subtracted when only the adversary has reached it, and
/// nothing while neither has.
pub proof fn lemma_score_counts_the_outcome(s: StateView)
    ensures
        s.player.points() >= SCORE_TO_WIN && s.player.points() >= s.adversary.points() ==> score_spec(s)
            == position_value(s) + 1000000,
        s.player.points() >= SCORE_TO_WIN && s.player.points() < s.adversary.points() ==> score_spec(s)
            == position_value(s) - 1000000,
        s.player.points() < SCORE_TO_WIN && s.adversary.points() >= SCORE_TO_WIN ==> score_spec(s)
            == position_value(s) - 1000000,
        s.player.points() < SCORE_TO_WIN && s.adversary.points() < SCORE_TO_WIN ==> score_spec(s)
            == position_value(s),
{
}

/// Refilling the face-up rows: the first row and every row already holding
/// `cards_available_per_deck` cards stay as they are with their decks; every
/// other row short of that number takes the top card of its deck when the
/// deck has one; so no row gains more than one card, a row gains one exactly
/// when its deck loses one, and no row ends above the quota unless it started
/// above it. Everything else stays.
pub proof fn lemma_refresh_fills_short_rows(s: StateView)
    requires
        s.available_cards.len() <= 1 || s.available_cards.len() <= s.decks.len(),
    ensures
        refreshed(s).available_cards.len() == s.available_cards.len(),
        refreshed(s).decks.len() == s.decks.len(),
        refreshed(s).bank == s.bank,
        refreshed(s).player == s.player,
        refreshed(s).adversary == s.adversary,
        refreshed(s).nobles == s.nobles,
        refreshed(s).players_turn == s.players_turn,
        refreshed(s).cards_available_per_deck == s.cards_available_per_deck,
        forall|i: int|
            0 <= i < s.available_cards.len() && (i == 0 || s.available_cards[i].len()
                >= s.cards_available_per_deck || s.decks[i].len() == 0) ==> {
                &&& #[trigger] refreshed(s).available_cards[i] == s.available_cards[i]
                &&& i < s.decks.len() ==> refreshed(s).decks[i] == s.decks[i]
            },
        forall|i: int|
            1 <= i < s.available_cards.len() && s.available_cards[i].len()
                < s.cards_available_per_deck && s.decks[i].len() > 0 ==> {
                &&& #[trigger] refreshed(s).available_cards[i] == s.available_cards[i].push(
                    s.decks[i].last(),
                )
                &&& refreshed(s).decks[i] == s.decks[i].drop_last()
            },
        forall|i: int|
            0 <= i < s.available_cards.len() ==> {
                &&& (#[trigger] refreshed(s).available_cards[i]).len() <= s.available_cards[i].len() + 1
                &&& i < s.decks.len() ==> refreshed(s).available_cards[i].len()
                    - s.available_cards[i].len() == s.decks[i].len() - refreshed(s).decks[i].len()
                &&& s.available_cards[i].len() <= s.cards_available_per_deck
                    ==> refreshed(s).available_cards[i].len() <= s.cards_available_per_deck
            },
        forall|i: int|
            s.available_cards.len() <= i < s.decks.len() ==> #[trigger] refreshed(s).decks[i]
                == s.decks[i],
{
}


/// How many times the letter `c` occurs in `line` after its first character.
pub open spec fn occurrences(line: Seq<char>, c: char) -> nat {
    occurrences_before(line, line.len() as int, c)
}

/// How many times the letter `c` occurs in `line` between position 1 and `n`.
pub open spec fn occurrences_before(line: Seq<char>, n: int, c: char) -> nat {
    line.subrange(1, n).filter(|x: char| x == c).len()
}

proof fn lemma_letter_count_filter(line: Seq<char>, n: int, c: char)
    requires
        1 <= n <= line.len(),
    ensures
        letter_count(line, 1, n, c) == occurrences_before(line, n, c),
    decreases n,
{
    reveal_with_fuel(Seq::<char>::filter, 1);
    let sub = line.subrange(1, n);
    if n == 1 {
        assert(sub.len() == 0);
    } else {
        lemma_letter_count_filter(line, n - 1, c);
        assert(sub.drop_last() =~= line.subrange(1, n - 1));
        assert(sub.last() == line[n - 1]);
    }
}

/// A line starting with `t` takes, of each gem color, as many tokens as the
/// rest of the line has occurrences of that color's letter (`k` black, `b`
/// blue, `g` green, `r` red, `w` white), no joker, and gives nothing back.
pub proof fn lemma_take_command_counts_letters(s: StateView, line: Seq<char>)
    requires
        command_fits(s, line),
        line.len() > 0,
        line[0] == 't',
    ensures
        occurrences(line, 'k') <= u8::MAX,
        occurrences(line, 'b') <= u8::MAX,
        occurrences(line, 'g') <= u8::MAX,
        occurrences(line, 'r') <= u8::MAX,
        occurrences(line, 'w') <= u8::MAX,
        command_spec(s, line) == Command::Play(
            Move::Take {
                tokens: Tokens {
                    black: occurrences(line, 'k') as u8,
                    blue: occurrences(line, 'b') as u8,
                    green: occurrences(line, 'g') as u8,
                    red: occurrences(line, 'r') as u8,
                    white: occurrences(line, 'w') as u8,
                    joker: 0,
                },
                drop: zero_tokens(),
            },
        ),
{
    let n = line.len() as int;
    lemma_letter_count_filter(line, n, 'k');
    lemma_letter_count_filter(line, n, 'b');
    lemma_letter_count_filter(line, n, 'g');
    lemma_letter_count_filter(line, n, 'r');
    lemma_letter_count_filter(line, n, 'w');
}

} // verus!
