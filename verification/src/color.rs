//! The six token colors of the game; the joker is the wildcard gold token.
use vstd::prelude::*;

verus! {

/// A token (or card bonus) color.
#[derive(Debug, Clone, Copy, PartialEq, Eq, Structural)]
pub enum Color {
    Black,
    Blue,
    Green,
    Red,
    White,
    Joker,
}

/// The position of a color in the fixed order Black, Blue, Green, Red, White, Joker.
pub open spec fn color_at(i: int) -> Color {
    if i == 0 {
        Color::Black
    } else if i == 1 {
        Color::Blue
    } else if i == 2 {
        Color::Green
    } else if i == 3 {
        Color::Red
    } else if i == 4 {
        Color::White
    } else {
        Color::Joker
    }
}

/// The one-letter code of a color, used when drawing the board.
pub open spec fn code_of(c: Color) -> Seq<char> {
    match c {
        Color::Black => seq!['k'],
        Color::Blue => seq!['b'],
        Color::Green => seq!['g'],
        Color::Red => seq!['r'],
        Color::White => seq!['w'],
        Color::Joker => seq!['j'],
    }
}

impl Color {
    /// Index of the color in the order Black, Blue, Green, Red, White, Joker.
    pub open spec fn ord(self) -> int {
        match self {
            Color::Black => 0,
            Color::Blue => 1,
            Color::Green => 2,
            Color::Red => 3,
            Color::White => 4,
            Color::Joker => 5,
        }
    }

    /// The color at position `i` of the fixed order.
    pub fn from_index(i: usize) -> (c: Color)
        requires
            i < 6,
        ensures
            c == color_at(i as int),
            c.ord() == i,
    {
        if i == 0 {
            Color::Black
        } else if i == 1 {
            Color::Blue
        } else if i == 2 {
            Color::Green
        } else if i == 3 {
            Color::Red
        } else if i == 4 {
            Color::White
        } else {
            Color::Joker
        }
    }

    /// All six colors, joker last.
    pub fn all() -> (v: Vec<Color>)
        ensures
            v@.len() == 6,
            forall|i: int| 0 <= i < 6 ==> #[trigger] v@[i] == color_at(i),
    {
        vec![Color::Black, Color::Blue, Color::Green, Color::Red, Color::White, Color::Joker]
    }

    /// The five gem colors, without the joker.
    pub fn all_except_joker() -> (v: Vec<Color>)
        ensures
            v@.len() == 5,
            forall|i: int| 0 <= i < 5 ==> #[trigger] v@[i] == color_at(i),
    {
        vec![Color::Black, Color::Blue, Color::Green, Color::Red, Color::White]
    }

    /// The one-letter code of the color.
    pub fn code(&self) -> (s: &'static str)
        ensures
            s@ == code_of(*self),
    {
        match self {
            Color::Black => {
                proof { reveal_strlit("k"); }
                "k"
            },
            Color::Blue => {
                proof { reveal_strlit("b"); }
                "b"
            },
            Color::Green => {
                proof { reveal_strlit("g"); }
                "g"
            },
            Color::Red => {
                proof { reveal_strlit("r"); }
                "r"
            },
            Color::White => {
                proof { reveal_strlit("w"); }
                "w"
            },
            Color::Joker => {
                proof { reveal_strlit("j"); }
                "j"
            },
        }
    }
}

/// Every color sits at its own index of the fixed order.
pub proof fn lemma_color_at_ord(c: Color)
    ensures
        color_at(c.ord()) == c,
        0 <= c.ord() < 6,
{
}

} // verus!
