//! Token amounts: the bank, a player's purse, a card's price and a move's payment.
use vstd::prelude::*;
use crate::color::{Color, lemma_color_at_ord};

verus! {

/// An amount of tokens of each of the six colors.
#[derive(Debug, Clone, Copy, PartialEq, Eq, Structural)]
pub struct Tokens {
    pub black: u8,
    pub blue: u8,
    pub green: u8,
    pub red: u8,
    pub white: u8,
    pub joker: u8,
}

/// The token amounts with every color at zero.
pub open spec fn zero_tokens() -> Tokens {
    Tokens { black: 0, blue: 0, green: 0, red: 0, white: 0, joker: 0 }
}

impl Tokens {
    /// The amount of the color at index `i` (Black, Blue, Green, Red, White, Joker).
    pub open spec fn at(self, i: int) -> u8 {
        if i == 0 {
            self.black
        } else if i == 1 {
            self.blue
        } else if i == 2 {
            self.green
        } else if i == 3 {
            self.red
        } else if i == 4 {
            self.white
        } else {
            self.joker
        }
    }

    /// The amount of color `c`.
    pub open spec fn of(self, c: Color) -> u8 {
        self.at(c.ord())
    }

    /// The same amounts with the color at index `i` set to `v`.
    pub open spec fn with_at(self, i: int, v: u8) -> Tokens {
        Tokens {
            black: if i == 0 { v } else { self.black },
            blue: if i == 1 { v } else { self.blue },
            green: if i == 2 { v } else { self.green },
            red: if i == 3 { v } else { self.red },
            white: if i == 4 { v } else { self.white },
            joker: if i == 5 { v } else { self.joker },
        }
    }

    /// Sum of all six amounts, jokers included.
    pub open spec fn sum(self) -> int {
        self.black + self.blue + self.green + self.red + self.white + self.joker
    }

    /// Every amount of `self` is at least the corresponding amount of `other`.
    pub open spec fn covers(self, other: Tokens) -> bool {
        &&& self.black >= other.black
        &&& self.blue >= other.blue
        &&& self.green >= other.green
        &&& self.red >= other.red
        &&& self.white >= other.white
        &&& self.joker >= other.joker
    }

    /// The amounts of `self` and `other` added color by color fit in a `u8`.
    pub open spec fn can_add(self, other: Tokens) -> bool {
        forall|i: int| 0 <= i < 6 ==> #[trigger] self.at(i) + other.at(i) <= u8::MAX
    }

    /// Color-by-color sum (only meaningful when `can_add` holds).
    pub open spec fn plus_spec(self, other: Tokens) -> Tokens {
        Tokens {
            black: (self.black + other.black) as u8,
            blue: (self.blue + other.blue) as u8,
            green: (self.green + other.green) as u8,
            red: (self.red + other.red) as u8,
            white: (self.white + other.white) as u8,
            joker: (self.joker + other.joker) as u8,
        }
    }

    /// Color-by-color difference (only meaningful when `self` covers `other`).
    pub open spec fn minus_spec(self, other: Tokens) -> Tokens {
        Tokens {
            black: (self.black - other.black) as u8,
            blue: (self.blue - other.blue) as u8,
            green: (self.green - other.green) as u8,
            red: (self.red - other.red) as u8,
            white: (self.white - other.white) as u8,
            joker: (self.joker - other.joker) as u8,
        }
    }

    /// Color-by-color maximum.
    pub open spec fn max_spec(self, other: Tokens) -> Tokens {
        Tokens {
            black: if self.black >= other.black { self.black } else { other.black },
            blue: if self.blue >= other.blue { self.blue } else { other.blue },
            green: if self.green >= other.green { self.green } else { other.green },
            red: if self.red >= other.red { self.red } else { other.red },
            white: if self.white >= other.white { self.white } else { other.white },
            joker: if self.joker >= other.joker { self.joker } else { other.joker },
        }
    }

    /// No tokens at all.
    pub fn empty() -> (t: Tokens)
        ensures
            t == zero_tokens(),
    {
        Tokens { black: 0, blue: 0, green: 0, red: 0, white: 0, joker: 0 }
    }

    /// A single token of color `c`.
    pub fn one(c: Color) -> (t: Tokens)
        ensures
            t == zero_tokens().with_at(c.ord(), 1),
    {
        let mut t = Tokens::empty();
        t.set(c, 1);
        t
    }

    /// The bank at the start of a game: five jokers and, per gem color,
    /// four tokens for two players, five for three and seven for four.
    pub open spec fn start_spec(players: u8) -> Tokens {
        let gems: u8 = if players == 2 {
            4
        } else if players == 3 {
            5
        } else {
            7
        };
        Tokens { black: gems, blue: gems, green: gems, red: gems, white: gems, joker: 5 }
    }

    /// The bank at the start of a game: five jokers and, per gem color,
    /// four tokens for two players, five for three and seven for four.
    pub fn start(players: u8) -> (t: Tokens)
        requires
            2 <= players <= 4,
        ensures
            t == Tokens::start_spec(players),
    {
        let gems: u8 = if players == 2 {
            4
        } else if players == 3 {
            5
        } else {
            7
        };
        Tokens { black: gems, blue: gems, green: gems, red: gems, white: gems, joker: 5 }
    }

    /// The amount of color `c`.
    pub fn get(&self, c: Color) -> (v: u8)
        ensures
            v == self.of(c),
    {
        match c {
            Color::Black => self.black,
            Color::Blue => self.blue,
            Color::Green => self.green,
            Color::Red => self.red,
            Color::White => self.white,
            Color::Joker => self.joker,
        }
    }

    /// Sets the amount of color `c` to `v`.
    pub fn set(&mut self, c: Color, v: u8)
        ensures
            *final(self) == old(self).with_at(c.ord(), v),
    {
        match c {
            Color::Black => self.black = v,
            Color::Blue => self.blue = v,
            Color::Green => self.green = v,
            Color::Red => self.red = v,
            Color::White => self.white = v,
            Color::Joker => self.joker = v,
        }
    }

    /// Number of tokens, jokers included.
    pub fn total(&self) -> (n: u8)
        requires
            self.sum() <= u8::MAX,
        ensures
            n == self.sum(),
    {
        self.black + self.blue + self.green + self.red + self.white + self.joker
    }

    /// Whether `self` holds at least `cost` of every color.
    pub fn can_buy(&self, cost: &Tokens) -> (b: bool)
        ensures
            b == self.covers(*cost),
    {
        self.black >= cost.black && self.blue >= cost.blue && self.green >= cost.green
            && self.red >= cost.red && self.white >= cost.white && self.joker >= cost.joker
    }

    /// Color-by-color maximum of the two amounts.
    pub fn max(&self, other: &Tokens) -> (t: Tokens)
        ensures
            t == self.max_spec(*other),
    {
        Tokens {
            black: if self.black >= other.black { self.black } else { other.black },
            blue: if self.blue >= other.blue { self.blue } else { other.blue },
            green: if self.green >= other.green { self.green } else { other.green },
            red: if self.red >= other.red { self.red } else { other.red },
            white: if self.white >= other.white { self.white } else { other.white },
            joker: if self.joker >= other.joker { self.joker } else { other.joker },
        }
    }

    /// Color-by-color sum of the two amounts.
    pub fn plus(&self, other: &Tokens) -> (t: Tokens)
        requires
            self.can_add(*other),
        ensures
            t == self.plus_spec(*other),
    {
        assert(self.at(0) + other.at(0) <= u8::MAX);
        assert(self.at(1) + other.at(1) <= u8::MAX);
        assert(self.at(2) + other.at(2) <= u8::MAX);
        assert(self.at(3) + other.at(3) <= u8::MAX);
        assert(self.at(4) + other.at(4) <= u8::MAX);
        assert(self.at(5) + other.at(5) <= u8::MAX);
        Tokens {
            black: self.black + other.black,
            blue: self.blue + other.blue,
            green: self.green + other.green,
            red: self.red + other.red,
            white: self.white + other.white,
            joker: self.joker + other.joker,
        }
    }

    /// Adds `other` to `self`, color by color.
    pub fn add_assign(&mut self, other: &Tokens)
        requires
            old(self).can_add(*other),
        ensures
            *final(self) == old(self).plus_spec(*other),
    {
        *self = self.plus(other);
    }

    /// Takes `other` away from `self`, color by color.
    pub fn sub_assign(&mut self, other: &Tokens)
        requires
            old(self).covers(*other),
        ensures
            *final(self) == old(self).minus_spec(*other),
    {
        self.black = self.black - other.black;
        self.blue = self.blue - other.blue;
        self.green = self.green - other.green;
        self.red = self.red - other.red;
        self.white = self.white - other.white;
        self.joker = self.joker - other.joker;
    }
}

/// The ways of choosing `k` tokens out of `t` for the colors at index `ci` and
/// above, the colors below `ci` being those of `acc`; each color's amount runs
/// upward from zero, colors in the order Black, Blue, Green, Red, White, Joker.
pub open spec fn drops(t: Tokens, k: int, ci: int, acc: Tokens) -> Seq<Tokens>
    decreases 5 - ci, 300int,
{
    if ci >= 5 {
        if 0 <= k <= t.joker {
            seq![acc.with_at(5, k as u8)]
        } else {
            seq![]
        }
    } else if ci < 0 {
        seq![]
    } else {
        drops_from_amount(t, k, ci, acc, 0)
    }
}

/// The choices of `drops(t, k, ci, acc)` that take at least `a` tokens of the color at `ci`.
pub open spec fn drops_from_amount(t: Tokens, k: int, ci: int, acc: Tokens, a: int) -> Seq<Tokens>
    decreases 5 - ci, 257 - a,
{
    if ci < 0 || ci >= 5 || a < 0 || a > k || a > t.at(ci) {
        seq![]
    } else {
        drops(t, k - a, ci + 1, acc.with_at(ci, a as u8)) + drops_from_amount(t, k, ci, acc, a + 1)
    }
}

/// The ways of discarding exactly `k` tokens from the purse `t`.
pub open spec fn discard_options(t: Tokens, k: int) -> Seq<Tokens> {
    drops(t, k, 0, zero_tokens())
}

/// Appends to `out` every way of choosing `k` tokens out of `t` for the colors
/// from index `ci` on, completing `acc`.
fn push_drops(t: &Tokens, k: u8, ci: usize, acc: Tokens, out: &mut Vec<Tokens>)
    requires
        ci <= 5,
    ensures
        final(out)@ == old(out)@ + drops(*t, k as int, ci as int, acc),
    decreases 5 - ci,
{
    if ci == 5 {
        if k <= t.joker {
            let mut d = acc;
            d.joker = k;
            out.push(d);
        } else {
            assert(drops(*t, k as int, ci as int, acc) =~= seq![]);
        }
        assert(out@ =~= old(out)@ + drops(*t, k as int, ci as int, acc));
    } else {
        let c = Color::from_index(ci);
        let limit = t.get(c);
        let ghost start = old(out)@;
        let mut a: u16 = 0;
        while a <= k as u16 && a <= limit as u16
            invariant
                ci < 5,
                c.ord() == ci,
                limit == t.at(ci as int),
                a <= 256,
                start + drops_from_amount(*t, k as int, ci as int, acc, 0) == out@
                    + drops_from_amount(*t, k as int, ci as int, acc, a as int),
            decreases 256 - a,
        {
            let ghost before = out@;
            let mut d = acc;
            d.set(c, a as u8);
            push_drops(t, k - a as u8, ci + 1, d, out);
            assert(drops_from_amount(*t, k as int, ci as int, acc, a as int) == drops(
                *t,
                k - a,
                ci + 1,
                acc.with_at(ci as int, a as u8),
            ) + drops_from_amount(*t, k as int, ci as int, acc, a + 1));
            assert(before + (drops(*t, k - a, ci + 1, acc.with_at(ci as int, a as u8))
                + drops_from_amount(*t, k as int, ci as int, acc, a + 1)) =~= out@
                + drops_from_amount(*t, k as int, ci as int, acc, a + 1));
            a = a + 1;
        }
        assert(drops_from_amount(*t, k as int, ci as int, acc, a as int) =~= seq![]);
        assert(out@ + drops_from_amount(*t, k as int, ci as int, acc, a as int) =~= out@);
    }
}

impl Tokens {
    /// For each number of tokens to discard from zero to three, the ways of
    /// discarding that many tokens from this purse.
    pub fn discard_permutations(&self) -> (v: Vec<Vec<Tokens>>)
        ensures
            v@.len() == 4,
            forall|k: int| 0 <= k < 4 ==> #[trigger] v@[k]@ == discard_options(*self, k),
    {
        let mut v: Vec<Vec<Tokens>> = Vec::new();
        let mut k: u8 = 0;
        while k < 4
            invariant
                k <= 4,
                v@.len() == k,
                forall|j: int| 0 <= j < k ==> #[trigger] v@[j]@ == discard_options(*self, j),
            decreases 4 - k,
        {
            let mut options: Vec<Tokens> = Vec::new();
            push_drops(self, k, 0, Tokens::empty(), &mut options);
            assert(options@ =~= discard_options(*self, k as int));
            v.push(options);
            k = k + 1;
        }
        v
    }
}

/// `of` reads the amount stored at the color's index.
pub proof fn lemma_of_with_at(t: Tokens, i: int, v: u8, c: Color)
    ensures
        t.with_at(i, v).of(c) == if c.ord() == i { v } else { t.of(c) },
{
    lemma_color_at_ord(c);
}

} // verus!
