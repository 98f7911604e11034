//! The game state: decks, face-up cards, bank, nobles and the two players.
use vstd::prelude::*;
use crate::cost::Tokens;
use crate::card::Card;
use crate::player::{Player, PlayerView};

verus! {

/// A bank must hold at least this many tokens of a color for a player to take two of it.
pub const MINIMUM_TO_TAKE_2_TOKENS: u8 = 4;

/// Prestige points that end the game.
pub const SCORE_TO_WIN: u8 = 15;

/// The evaluation of a position, from the first player's side.
pub type Score = i64;

/// The contents of each row, as sequences.
pub open spec fn rows_view(rows: Seq<Vec<Card>>) -> Seq<Seq<Card>> {
    Seq::new(rows.len(), |i: int| rows[i]@)
}

/// The abstract content of a game state.
#[verifier::ext_equal]
pub struct StateView {
    pub decks: Seq<Seq<Card>>,
    pub available_cards: Seq<Seq<Card>>,
    pub bank: Tokens,
    pub player: PlayerView,
    pub adversary: PlayerView,
    pub nobles: Seq<Card>,
    pub players_turn: bool,
    pub cards_available_per_deck: usize,
}

impl StateView {
    /// The player whose turn it is.
    pub open spec fn current(self) -> PlayerView {
        if self.players_turn {
            self.player
        } else {
            self.adversary
        }
    }

    /// The state with the player whose turn it is replaced by `p`.
    pub open spec fn with_current(self, p: PlayerView) -> StateView {
        if self.players_turn {
            StateView { player: p, ..self }
        } else {
            StateView { adversary: p, ..self }
        }
    }
}

/// A game in progress.
#[derive(Debug, PartialEq)]
pub struct State {
    /// Face-down cards of each level, drawn from the end.
    pub decks: Vec<Vec<Card>>,
    /// Face-up cards of each level.
    pub available_cards: Vec<Vec<Card>>,
    pub bank: Tokens,
    pub player: Player,
    pub adversary: Player,
    pub nobles: Vec<Card>,
    /// true if player's turn, false if adversary's turn
    pub players_turn: bool,
    pub cards_available_per_deck: usize,
}

impl View for State {
    type V = StateView;

    open spec fn view(&self) -> StateView {
        StateView {
            decks: rows_view(self.decks@),
            available_cards: rows_view(self.available_cards@),
            bank: self.bank,
            player: self.player@,
            adversary: self.adversary@,
            nobles: self.nobles@,
            players_turn: self.players_turn,
            cards_available_per_deck: self.cards_available_per_deck,
        }
    }
}

/// Each face-up row below its quota, except the first, takes the top card of
/// its deck when that deck is not empty.
pub open spec fn refreshed(s: StateView) -> StateView {
    let n = s.available_cards.len();
    let fill = |i: int|
        1 <= i < n && s.available_cards[i].len() < s.cards_available_per_deck && s.decks[i].len() > 0;
    StateView {
        decks: Seq::new(
            s.decks.len(),
            |i: int|
                if fill(i) {
                    s.decks[i].drop_last()
                } else {
                    s.decks[i]
                },
        ),
        available_cards: Seq::new(
            n,
            |i: int|
                if fill(i) {
                    s.available_cards[i].push(s.decks[i].last())
                } else {
                    s.available_cards[i]
                },
        ),
        ..s
    }
}

impl State {
    /// Refills the face-up rows, except the first, from their decks: a row
    /// holding fewer than `cards_available_per_deck` cards takes the top card
    /// of its deck, if there is one.
    pub fn refresh_available_cards(&mut self)
        requires
            old(self).available_cards@.len() <= 1 || old(self).available_cards@.len()
                <= old(self).decks@.len(),
        ensures
            final(self)@ == refreshed(old(self)@),
    {
        let n = self.available_cards.len();
        let mut i: usize = 1;
        while i < n
            invariant
                1 <= i,
                n == self.available_cards@.len(),
                n == old(self).available_cards@.len(),
                n <= 1 || n <= self.decks@.len(),
                self.decks@.len() == old(self).decks@.len(),
                self.bank == old(self).bank,
                self.player == old(self).player,
                self.adversary == old(self).adversary,
                self.nobles == old(self).nobles,
                self.players_turn == old(self).players_turn,
                self.cards_available_per_deck == old(self).cards_available_per_deck,
                forall|j: int|
                    0 <= j < self.decks@.len() ==> #[trigger] self.decks@[j]@ == (if j < i {
                        refreshed(old(self)@).decks[j]
                    } else {
                        old(self).decks@[j]@
                    }),
                forall|j: int|
                    0 <= j < n ==> #[trigger] self.available_cards@[j]@ == (if j < i {
                        refreshed(old(self)@).available_cards[j]
                    } else {
                        old(self).available_cards@[j]@
                    }),
            decreases n - i,
        {
            if self.available_cards[i].len() < self.cards_available_per_deck {
                if let Some(card) = self.decks[i].pop() {
                    self.available_cards[i].push(card);
                }
            }
            i = i + 1;
        }
        assert(self@.decks =~= refreshed(old(self)@).decks);
        assert(self@.available_cards =~= refreshed(old(self)@).available_cards);
    }

    /// The game is over once a player has reached the winning score.
    pub fn is_terminal(&self) -> (b: bool)
        requires
            self.player@.points() <= u8::MAX,
            self.adversary@.points() <= u8::MAX,
        ensures
            b == (self.player@.points() >= SCORE_TO_WIN || self.adversary@.points() >= SCORE_TO_WIN),
    {
        self.player.score() >= SCORE_TO_WIN || self.adversary.score() >= SCORE_TO_WIN
    }
}

} // verus!
