//! Development cards and nobles: a color (the bonus the card gives), a price
//! and prestige points.
use vstd::prelude::*;
use crate::color::Color;
use crate::cost::Tokens;

verus! {

/// A development card, or a noble tile (whose `cost` is the bonus it asks for).
#[derive(Debug, Clone, Copy, PartialEq, Eq, Structural)]
pub struct Card {
    pub color: Color,
    pub cost: Tokens,
    pub points: u8,
}

/// A card of the given color and points whose price is the given gem amounts
/// (never any joker).
pub fn create_card(
    color: Color,
    points: u8,
    black: u8,
    blue: u8,
    green: u8,
    red: u8,
    white: u8,
) -> (c: Card)
    ensures
        c.color == color,
        c.points == points,
        c.cost == (Tokens { black, blue, green, red, white, joker: 0 }),
{
    Card {
        color: color,
        cost: Tokens { black: black, blue: blue, green: green, red: red, white: white, joker: 0 },
        points: points,
    }
}

} // verus!
