//! The moves a player may make on a turn.
use vstd::prelude::*;
use crate::cost::Tokens;

verus! {

/// One turn's move. Card indices count from zero within a row; `deck` counts
/// rows from one.
#[derive(Debug, Clone, Copy, PartialEq)]
pub enum Move {
    /// Take `tokens` from the bank and give back `drop`.
    Take { tokens: Tokens, drop: Tokens },
    /// Reserve a face-up card, taking a joker if `joker`, and give back `drop`.
    Reserve { index: u8, deck: usize, drop: Tokens, joker: bool },
    /// Buy a face-up card paying `cost`, attracting the given noble if any.
    Buy { index: u8, deck: usize, cost: Tokens, noble: Option<u8> },
    /// Buy one of the player's reserved cards paying `cost`, attracting the
    /// given noble if any.
    BuyReserved { index: u8, cost: Tokens, noble: Option<u8> },
    /// Do nothing.
    Pass,
}

} // verus!
