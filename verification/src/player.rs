//! A player: tokens in hand, bought cards (whose colors are permanent
//! bonuses), reserved cards and visiting nobles.
use vstd::prelude::*;
use crate::color::{Color, lemma_color_at_ord};
use crate::cost::{Tokens, zero_tokens};
use crate::card::Card;

verus! {

/// Most cards a player may hold in reserve.
pub const MAXIMUM_RESERVED: usize = 3;

/// Most tokens a player may hold at the end of a turn.
pub const MAXIMUM_COINS: u8 = 10;

/// Number of cards of color `c` in `cards`.
pub open spec fn color_count(cards: Seq<Card>, c: Color) -> nat
    decreases cards.len(),
{
    if cards.len() == 0 {
        0
    } else {
        color_count(cards.drop_last(), c) + if cards.last().color == c { 1nat } else { 0nat }
    }
}

/// Every color occurs at most 255 times among `cards`.
pub open spec fn counts_fit(cards: Seq<Card>) -> bool {
    forall|c: Color| #[trigger] color_count(cards, c) <= u8::MAX
}

/// The bonus the cards give: for each color, how many of the cards have it.
pub open spec fn bonus(cards: Seq<Card>) -> Tokens {
    Tokens {
        black: color_count(cards, Color::Black) as u8,
        blue: color_count(cards, Color::Blue) as u8,
        green: color_count(cards, Color::Green) as u8,
        red: color_count(cards, Color::Red) as u8,
        white: color_count(cards, Color::White) as u8,
        joker: color_count(cards, Color::Joker) as u8,
    }
}

/// Sum of the prestige points of `cards`.
pub open spec fn points_sum(cards: Seq<Card>) -> nat
    decreases cards.len(),
{
    if cards.len() == 0 {
        0
    } else {
        points_sum(cards.drop_last()) + cards.last().points as nat
    }
}

/// Evaluation of a player's cards: each card is worth 250, plus 100 per unit of
/// the nobles' demand for its color, plus 100 per earlier card of the same color
/// (counting at most five earlier cards).
pub open spec fn card_score_of(cards: Seq<Card>, noble_card_bonus: Tokens) -> int
    decreases cards.len(),
{
    if cards.len() == 0 {
        0
    } else {
        let c = cards.last().color;
        let earlier = color_count(cards.drop_last(), c);
        card_score_of(cards.drop_last(), noble_card_bonus) + noble_card_bonus.of(c) * 100 + (if earlier
            < 5 { earlier } else { 5 }) * 100 + 250
    }
}

/// How many tokens of gem color `i` a card asks for beyond the bonus `b`.
pub open spec fn wanted(b: Tokens, card: Card, i: int) -> int {
    if card.cost.at(i) > b.at(i) {
        card.cost.at(i) - b.at(i)
    } else {
        0
    }
}

/// The tokens of color `i` paid from the purse `t`: what is wanted, up to what is held.
pub open spec fn paid(t: Tokens, b: Tokens, card: Card, i: int) -> int {
    if t.at(i) < wanted(b, card, i) {
        t.at(i) as int
    } else {
        wanted(b, card, i)
    }
}

/// The part of color `i`'s price that jokers must cover.
pub open spec fn shortfall(t: Tokens, b: Tokens, card: Card, i: int) -> int {
    wanted(b, card, i) - paid(t, b, card, i)
}

/// Jokers needed for the first `k` gem colors.
pub open spec fn shortfall_prefix(t: Tokens, b: Tokens, card: Card, k: int) -> int
    decreases k,
{
    if k <= 0 {
        0
    } else {
        shortfall_prefix(t, b, card, k - 1) + shortfall(t, b, card, k - 1)
    }
}

/// What buying `card` costs a player holding purse `t` with card bonus `b`:
/// each gem color is paid with the player's own tokens as far as they go,
/// jokers cover the rest, and `None` when there are not jokers enough.
pub open spec fn payment(t: Tokens, b: Tokens, card: Card) -> Option<Tokens> {
    if shortfall_prefix(t, b, card, 5) > t.joker {
        None
    } else {
        Some(
            Tokens {
                black: paid(t, b, card, 0) as u8,
                blue: paid(t, b, card, 1) as u8,
                green: paid(t, b, card, 2) as u8,
                red: paid(t, b, card, 3) as u8,
                white: paid(t, b, card, 4) as u8,
                joker: shortfall_prefix(t, b, card, 5) as u8,
            },
        )
    }
}

/// The joker count computed while pricing a card stays within a `u8` for as
/// long as it has not yet exceeded the jokers held.
pub open spec fn payment_fits(t: Tokens, b: Tokens, card: Card) -> bool {
    &&& t.can_add(b)
    &&& forall|k: int|
        0 <= k < 5 && #[trigger] shortfall_prefix(t, b, card, k) <= t.joker ==> shortfall_prefix(
            t,
            b,
            card,
            k + 1,
        ) <= u8::MAX
}

/// Evaluation of a purse: two per token counted up to the limit of ten, one
/// more per joker, all times four.
pub open spec fn token_score_of(t: Tokens) -> int {
    ((if t.sum() < MAXIMUM_COINS { t.sum() } else { MAXIMUM_COINS as int }) * 2 + t.joker) * 4
}

/// Computing the evaluation of a purse stays within a `u8`.
pub open spec fn token_score_fits(t: Tokens) -> bool {
    &&& t.sum() <= u8::MAX
    &&& (if t.sum() < MAXIMUM_COINS { t.sum() } else { MAXIMUM_COINS as int }) * 2 + t.joker <= u8::MAX
}

/// The abstract content of a player.
#[verifier::ext_equal]
pub struct PlayerView {
    pub tokens: Tokens,
    pub cards: Seq<Card>,
    pub reserved: Seq<Card>,
    pub nobles: Seq<Card>,
}

impl PlayerView {
    /// The price of `card` for this player, if the player can afford it.
    pub open spec fn cost_for(self, card: Card) -> Option<Tokens> {
        payment(self.tokens, bonus(self.cards), card)
    }

    /// Pricing `card` stays within the machine integers.
    pub open spec fn cost_fits(self, card: Card) -> bool {
        counts_fit(self.cards) && payment_fits(self.tokens, bonus(self.cards), card)
    }

    /// Prestige points of the cards and nobles.
    pub open spec fn points(self) -> nat {
        points_sum(self.cards) + points_sum(self.nobles)
    }
}

/// A player's tokens and cards.
#[derive(Debug, PartialEq)]
pub struct Player {
    pub tokens: Tokens,
    pub cards: Vec<Card>,
    pub reserved: Vec<Card>,
    pub nobles: Vec<Card>,
}

impl View for Player {
    type V = PlayerView;

    open spec fn view(&self) -> PlayerView {
        PlayerView {
            tokens: self.tokens,
            cards: self.cards@,
            reserved: self.reserved@,
            nobles: self.nobles@,
        }
    }
}

/// Counting the colors of a prefix gives no more than counting the whole.
pub proof fn lemma_color_count_prefix(cards: Seq<Card>, i: int, c: Color)
    requires
        0 <= i <= cards.len(),
    ensures
        color_count(cards.take(i), c) <= color_count(cards, c),
    decreases cards.len(),
{
    if i < cards.len() {
        assert(cards.drop_last().take(i) =~= cards.take(i));
        lemma_color_count_prefix(cards.drop_last(), i, c);
    } else {
        assert(cards.take(i) =~= cards);
    }
}

/// The points of a prefix are at most the points of the whole.
pub proof fn lemma_points_prefix(cards: Seq<Card>, i: int)
    requires
        0 <= i <= cards.len(),
    ensures
        points_sum(cards.take(i)) <= points_sum(cards),
    decreases cards.len(),
{
    if i < cards.len() {
        assert(cards.drop_last().take(i) =~= cards.take(i));
        lemma_points_prefix(cards.drop_last(), i);
    } else {
        assert(cards.take(i) =~= cards);
    }
}

/// The card score of a prefix is at most the card score of the whole.
pub proof fn lemma_card_score_prefix(cards: Seq<Card>, nb: Tokens, i: int)
    requires
        0 <= i <= cards.len(),
    ensures
        0 <= card_score_of(cards.take(i), nb) <= card_score_of(cards, nb),
    decreases cards.len(),
{
    if i < cards.len() {
        assert(cards.drop_last().take(i) =~= cards.take(i));
        lemma_card_score_prefix(cards.drop_last(), nb, i);
    } else {
        assert(cards.take(i) =~= cards);
        lemma_card_score_nonneg(cards, nb);
    }
}

/// Card scores are never negative.
pub proof fn lemma_card_score_nonneg(cards: Seq<Card>, nb: Tokens)
    ensures
        card_score_of(cards, nb) >= 0,
    decreases cards.len(),
{
    if cards.len() > 0 {
        lemma_card_score_nonneg(cards.drop_last(), nb);
    }
}

/// The shortfall prefixes never decrease.
pub proof fn lemma_shortfall_monotone(t: Tokens, b: Tokens, card: Card, j: int, k: int)
    requires
        0 <= j <= k,
    ensures
        shortfall_prefix(t, b, card, j) <= shortfall_prefix(t, b, card, k),
        shortfall_prefix(t, b, card, j) >= 0,
    decreases k,
{
    if j < k {
        lemma_shortfall_monotone(t, b, card, j, k - 1);
    } else if k > 0 {
        lemma_shortfall_monotone(t, b, card, 0, k - 1);
    }
}

impl Player {
    /// A player with no tokens and no cards.
    pub fn new() -> (p: Player)
        ensures
            p@.tokens == zero_tokens(),
            p@.cards == Seq::<Card>::empty(),
            p@.reserved == Seq::<Card>::empty(),
            p@.nobles == Seq::<Card>::empty(),
    {
        Player {
            tokens: Tokens::empty(),
            cards: Vec::with_capacity(16),
            reserved: Vec::with_capacity(MAXIMUM_RESERVED),
            nobles: Vec::new(),
        }
    }

    /// The permanent bonus of the bought cards: for each color, how many
    /// bought cards have it.
    pub fn tokens_from_cards(&self) -> (t: Tokens)
        requires
            counts_fit(self.cards@),
        ensures
            t == bonus(self.cards@),
            forall|c: Color| #[trigger] t.of(c) == color_count(self.cards@, c),
    {
        let mut tokens = Tokens::empty();
        let mut i: usize = 0;
        while i < self.cards.len()
            invariant
                i <= self.cards@.len(),
                counts_fit(self.cards@),
                tokens == bonus(self.cards@.take(i as int)),
            decreases self.cards@.len() - i,
        {
            let c = self.cards[i].color;
            let ghost pre = self.cards@.take(i as int);
            let ghost next = self.cards@.take(i + 1);
            assert(next.drop_last() =~= pre);
            proof {
                lemma_color_count_prefix(self.cards@, i + 1, c);
                lemma_color_at_ord(c);
                assert(color_count(self.cards@, c) <= u8::MAX);
            }
            let v = tokens.get(c);
            tokens.set(c, v + 1);
            i = i + 1;
        }
        assert(self.cards@.take(i as int) =~= self.cards@);
        proof {
            assert forall|c: Color| #[trigger] tokens.of(c) == color_count(self.cards@, c) by {
                assert(color_count(self.cards@, c) <= u8::MAX);
            }
        }
        tokens
    }

    /// Evaluation of the bought cards given the nobles' demand per color.
    pub fn card_score(&self, noble_card_bonus: &Tokens) -> (s: i64)
        requires
            card_score_of(self.cards@, *noble_card_bonus) <= i64::MAX,
        ensures
            s == card_score_of(self.cards@, *noble_card_bonus),
    {
        let mut points: i64 = 0;
        let mut multiple_card_bonus = Tokens::empty();
        let mut i: usize = 0;
        while i < self.cards.len()
            invariant
                i <= self.cards@.len(),
                card_score_of(self.cards@, *noble_card_bonus) <= i64::MAX,
                points == card_score_of(self.cards@.take(i as int), *noble_card_bonus),
                forall|c: Color|
                    #[trigger] multiple_card_bonus.of(c) == (if color_count(
                        self.cards@.take(i as int),
                        c,
                    ) < 5 {
                        color_count(self.cards@.take(i as int), c)
                    } else {
                        5
                    }),
            decreases self.cards@.len() - i,
        {
            let c = self.cards[i].color;
            let ghost pre = self.cards@.take(i as int);
            let ghost next = self.cards@.take(i + 1);
            assert(next.drop_last() =~= pre);
            proof {
                lemma_card_score_prefix(self.cards@, *noble_card_bonus, i + 1);
                lemma_color_at_ord(c);
            }
            let ghost mb = multiple_card_bonus;
            assert(next.last() == self.cards@[i as int]);
            let multi_bonus = multiple_card_bonus.get(c) as i64;
            points = points + (noble_card_bonus.get(c) as i64) * 100 + multi_bonus * 100 + 250;
            if multiple_card_bonus.get(c) < 5 {
                let m = multiple_card_bonus.get(c);
                multiple_card_bonus.set(c, m + 1);
            }
            proof {
                assert forall|d: Color| #[trigger] multiple_card_bonus.of(d) == (if color_count(
                    next,
                    d,
                ) < 5 {
                    color_count(next, d)
                } else {
                    5
                }) by {
                    lemma_color_at_ord(d);
                    assert(mb.of(d) == (if color_count(pre, d) < 5 {
                        color_count(pre, d)
                    } else {
                        5
                    }));
                    assert(color_count(next, d) == color_count(pre, d) + if c == d {
                        1nat
                    } else {
                        0nat
                    });
                }
            }
            i = i + 1;
        }
        assert(self.cards@.take(i as int) =~= self.cards@);
        points
    }

    /// Evaluation of the tokens held: two per token counted up to the limit of
    /// ten, one more per joker, all times four.
    pub fn token_score(&self) -> (s: i64)
        requires
            token_score_fits(self.tokens),
        ensures
            s == token_score_of(self.tokens),
    {
        let total = self.tokens.total();
        let capped: u8 = if MAXIMUM_COINS < total { MAXIMUM_COINS } else { total };
        ((capped * 2 + self.tokens.joker) as i64) * 4
    }

    /// Prestige points of the bought cards and the nobles.
    pub fn score(&self) -> (s: u8)
        requires
            self@.points() <= u8::MAX,
        ensures
            s == self@.points(),
    {
        let mut a: u8 = 0;
        let mut i: usize = 0;
        while i < self.cards.len()
            invariant
                i <= self.cards@.len(),
                self@.points() <= u8::MAX,
                a == points_sum(self.cards@.take(i as int)),
            decreases self.cards@.len() - i,
        {
            assert(self.cards@.take(i + 1).drop_last() =~= self.cards@.take(i as int));
            proof {
                lemma_points_prefix(self.cards@, i + 1);
            }
            a = a + self.cards[i].points;
            i = i + 1;
        }
        assert(self.cards@.take(i as int) =~= self.cards@);
        let mut b: u8 = 0;
        let mut j: usize = 0;
        while j < self.nobles.len()
            invariant
                j <= self.nobles@.len(),
                self@.points() <= u8::MAX,
                a == points_sum(self.cards@),
                b == points_sum(self.nobles@.take(j as int)),
            decreases self.nobles@.len() - j,
        {
            assert(self.nobles@.take(j + 1).drop_last() =~= self.nobles@.take(j as int));
            proof {
                lemma_points_prefix(self.nobles@, j + 1);
            }
            b = b + self.nobles[j].points;
            j = j + 1;
        }
        assert(self.nobles@.take(j as int) =~= self.nobles@);
        a + b
    }

    /// Whether the player can afford `card`, jokers included.
    pub fn can_buy(&self, card: &Card) -> (b: bool)
        requires
            self@.cost_fits(*card),
        ensures
            b == (self@.cost_for(*card) is Some),
    {
        self.cost_for(card).is_some()
    }

    /// What the player pays for `card`: own tokens of each gem color as far as
    /// they go beyond the card bonus, jokers for the rest; `None` when the
    /// jokers do not suffice.
    pub fn cost_for(&self, card: &Card) -> (r: Option<Tokens>)
        requires
            self@.cost_fits(*card),
        ensures
            r == self@.cost_for(*card),
    {
        let tokens_from_cards = self.tokens_from_cards();
        let total_tokens = self.tokens.plus(&tokens_from_cards);
        let mut cost = Tokens::empty();
        let ghost t = self.tokens;
        let ghost b = tokens_from_cards;
        let mut i: usize = 0;
        while i < 5
            invariant
                i <= 5,
                t == self.tokens,
                b == tokens_from_cards,
                b == bonus(self.cards@),
                total_tokens == t.plus_spec(b),
                t.can_add(b),
                payment_fits(t, b, *card),
                shortfall_prefix(t, b, *card, i as int) <= t.joker,
                cost.joker == shortfall_prefix(t, b, *card, i as int),
                forall|j: int| 0 <= j < i ==> #[trigger] cost.at(j) == paid(t, b, *card, j),
                forall|j: int| i <= j < 5 ==> #[trigger] cost.at(j) == 0,
            decreases 5 - i,
        {
            let color = Color::from_index(i);
            proof {
                lemma_shortfall_monotone(t, b, *card, 0, i as int);
                assert(t.at(i as int) + b.at(i as int) <= u8::MAX);
            }
            let ghost before = cost;
            assert(total_tokens.at(i as int) == t.at(i as int) + b.at(i as int));
            assert(color.ord() == i);
            if total_tokens.get(color) < card.cost.get(color) {
                let difference = card.cost.get(color) - total_tokens.get(color);
                assert(shortfall_prefix(t, b, *card, i + 1) <= u8::MAX);
                cost.joker = cost.joker + difference;
                if cost.joker > self.tokens.joker {
                    proof {
                        lemma_shortfall_monotone(t, b, *card, i + 1, 5);
                    }
                    return None;
                }
                let v = card.cost.get(color) - tokens_from_cards.get(color) - difference;
                assert(v == paid(t, b, *card, i as int));
                cost.set(color, v);
            } else {
                let need = card.cost.get(color);
                let have = tokens_from_cards.get(color);
                let v = if need > have { need - have } else { 0 };
                assert(v == paid(t, b, *card, i as int));
                assert(shortfall(t, b, *card, i as int) == 0);
                cost.set(color, v);
            }
            assert forall|j: int| 0 <= j < i + 1 implies #[trigger] cost.at(j) == paid(t, b, *card, j) by {
                if j < i {
                    assert(before.at(j) == paid(t, b, *card, j));
                }
            }
            assert forall|j: int| i + 1 <= j < 5 implies #[trigger] cost.at(j) == 0 by {
                assert(before.at(j) == 0);
            }
            i = i + 1;
        }
        assert(cost.at(0) == paid(t, b, *card, 0));
        assert(cost.at(1) == paid(t, b, *card, 1));
        assert(cost.at(2) == paid(t, b, *card, 2));
        assert(cost.at(3) == paid(t, b, *card, 3));
        assert(cost.at(4) == paid(t, b, *card, 4));
        assert(cost == payment(t, b, *card)->Some_0);
        Some(cost)
    }
}

} // verus!
