//! What the generated moves promise: there is always a move, and every
//! token-taking move follows the rules on taking and giving back tokens.
use vstd::prelude::*;
use crate::cost::{Tokens, zero_tokens, discard_options};
use crate::card::Card;
use crate::player::{PlayerView, MAXIMUM_COINS};
use crate::moves::Move;
use crate::state::{StateView, MINIMUM_TO_TAKE_2_TOKENS};
use crate::movegen::{
    moves_spec, all_takes, color_takes, pair_takes, pair_block, triple_takes, double_takes, takes,
    take_moves, discards_after, discard_index, disjoint, rows_buys, row_buys, card_buy,
    reserved_buys, reserved_buy, card_moves, reserve_moves, rows_reserves,
    row_reserves, reserve_card,
};
use crate::laws::lemma_discard_options_members;

verus! {

/// The generator always offers at least one move (passing when nothing else is possible).
pub proof fn lemma_moves_nonempty(s: StateView)
    ensures
        moves_spec(s).len() > 0,
{
}

/// The tokens taken are gems only: one each of up to three colors, or two of
/// a single color of which the bank holds at least four.
pub open spec fn take_shape(bank: Tokens, tokens: Tokens) -> bool {
    &&& tokens.joker == 0
    &&& forall|i: int|
        0 <= i < 5 ==> #[trigger] tokens.at(i) <= 1 || (tokens.at(i) == 2 && tokens.sum() == 2
            && bank.at(i) >= MINIMUM_TO_TAKE_2_TOKENS)
}

/// A token-taking move that takes from the bank only what it holds (gems
/// only, one each of up to three colors or two of a color the bank holds at
/// least four of), gives back only tokens the player holds and none of the
/// colors taken, and leaves the player with as many tokens as before plus
/// those taken, capped at ten.
pub open spec fn take_legal(bank: Tokens, t: Tokens, m: Move) -> bool {
    match m {
        Move::Take { tokens, drop } => {
            &&& bank.covers(tokens)
            &&& take_shape(bank, tokens)
            &&& t.covers(drop)
            &&& disjoint(tokens, drop)
            &&& 1 <= tokens.sum() <= 3
            &&& t.sum() + tokens.sum() - drop.sum() == if t.sum() + tokens.sum() > MAXIMUM_COINS {
                MAXIMUM_COINS as int
            } else {
                t.sum() + tokens.sum()
            }
        },
        _ => false,
    }
}

/// Every move of `ms` is a legal token-taking move.
pub open spec fn all_take_legal(bank: Tokens, t: Tokens, ms: Seq<Move>) -> bool {
    forall|i: int| 0 <= i < ms.len() ==> take_legal(bank, t, #[trigger] ms[i])
}

/// No move of `ms` takes tokens.
pub open spec fn no_takes(ms: Seq<Move>) -> bool {
    forall|i: int| 0 <= i < ms.len() ==> !(#[trigger] ms[i] is Take)
}

proof fn lemma_concat_legal(bank: Tokens, t: Tokens, x: Seq<Move>, y: Seq<Move>)
    requires
        all_take_legal(bank, t, x),
        all_take_legal(bank, t, y),
    ensures
        all_take_legal(bank, t, x + y),
{
    assert forall|i: int| 0 <= i < (x + y).len() implies take_legal(bank, t, #[trigger] (x + y)[i]) by {
        if i < x.len() {
            assert((x + y)[i] == x[i]);
        } else {
            assert((x + y)[i] == y[i - x.len()]);
        }
    }
}

proof fn lemma_concat_no_takes(x: Seq<Move>, y: Seq<Move>)
    requires
        no_takes(x),
        no_takes(y),
    ensures
        no_takes(x + y),
{
    assert forall|i: int| 0 <= i < (x + y).len() implies !(#[trigger] (x + y)[i] is Take) by {
        if i < x.len() {
            assert((x + y)[i] == x[i]);
        } else {
            assert((x + y)[i] == y[i - x.len()]);
        }
    }
}

proof fn lemma_take_moves_legal(bank: Tokens, t: Tokens, tokens: Tokens, opts: Seq<Tokens>, n: int)
    requires
        0 <= n <= opts.len(),
        bank.covers(tokens),
        take_shape(bank, tokens),
        1 <= tokens.sum() <= 3,
        opts == discards_after(t, tokens.sum()),
    ensures
        all_take_legal(bank, t, take_moves(tokens, opts, n)),
    decreases n,
{
    if n > 0 {
        lemma_take_moves_legal(bank, t, tokens, opts, n - 1);
        let d = opts[n - 1];
        assert(opts.contains(d));
        lemma_discard_options_members(t, discard_index(t.sum() + tokens.sum()), d);
        let last = if disjoint(tokens, d) {
            seq![Move::Take { tokens, drop: d }]
        } else {
            seq![]
        };
        assert(all_take_legal(bank, t, last));
        lemma_concat_legal(bank, t, take_moves(tokens, opts, n - 1), last);
    }
}

proof fn lemma_takes_legal(bank: Tokens, t: Tokens, tokens: Tokens, k: int)
    requires
        bank.covers(tokens),
        take_shape(bank, tokens),
        tokens.sum() == k,
        1 <= k <= 3,
    ensures
        all_take_legal(bank, t, takes(tokens, discards_after(t, k))),
{
    let opts = discards_after(t, k);
    lemma_take_moves_legal(bank, t, tokens, opts, opts.len() as int);
}

proof fn lemma_triples_legal(bank: Tokens, t: Tokens, a: int, b: int, n: int)
    requires
        0 <= a < b,
        n <= 5,
        bank.at(a) >= 1,
        bank.at(b) >= 1,
    ensures
        all_take_legal(bank, t, triple_takes(bank, t, a, b, n)),
    decreases n - b,
{
    if n > b + 1 {
        lemma_triples_legal(bank, t, a, b, n - 1);
        let c = n - 1;
        if bank.at(c) >= 1 {
            let tokens = zero_tokens().with_at(a, 1).with_at(b, 1).with_at(c, 1);
            assert(tokens.sum() == 3);
            lemma_takes_legal(bank, t, tokens, 3);
            lemma_concat_legal(bank, t, triple_takes(bank, t, a, b, n - 1), takes(tokens, discards_after(t, 3)));
        } else {
            assert(triple_takes(bank, t, a, b, n) =~= triple_takes(bank, t, a, b, n - 1));
        }
    }
}

proof fn lemma_pairs_legal(bank: Tokens, t: Tokens, a: int, n: int)
    requires
        0 <= a < 5,
        n <= 5,
        bank.at(a) >= 1,
    ensures
        all_take_legal(bank, t, pair_takes(bank, t, a, n)),
    decreases n - a,
{
    if n > a + 1 {
        lemma_pairs_legal(bank, t, a, n - 1);
        let b = n - 1;
        if bank.at(b) >= 1 {
            lemma_triples_legal(bank, t, a, b, 5);
            let tokens = zero_tokens().with_at(a, 1).with_at(b, 1);
            assert(tokens.sum() == 2);
            lemma_takes_legal(bank, t, tokens, 2);
            let tr = triple_takes(bank, t, a, b, 5);
            let rest = if tr.len() == 0 {
                takes(tokens, discards_after(t, 2))
            } else {
                seq![]
            };
            assert(all_take_legal(bank, t, rest));
            lemma_concat_legal(bank, t, tr, rest);
        } else {
            assert(all_take_legal(bank, t, pair_block(bank, t, a, b)));
        }
        lemma_concat_legal(bank, t, pair_takes(bank, t, a, n - 1), pair_block(bank, t, a, b));
    }
}

proof fn lemma_color_takes_legal(bank: Tokens, t: Tokens, a: int)
    requires
        0 <= a < 5,
    ensures
        all_take_legal(bank, t, color_takes(bank, t, a)),
{
    if bank.at(a) >= 1 {
        if bank.at(a) >= MINIMUM_TO_TAKE_2_TOKENS {
            let tokens = zero_tokens().with_at(a, 2);
            assert(tokens.sum() == 2);
            lemma_takes_legal(bank, t, tokens, 2);
        }
        assert(all_take_legal(bank, t, double_takes(bank, t, a)));
        lemma_pairs_legal(bank, t, a, 5);
        let body = double_takes(bank, t, a) + pair_takes(bank, t, a, 5);
        lemma_concat_legal(bank, t, double_takes(bank, t, a), pair_takes(bank, t, a, 5));
        let single = zero_tokens().with_at(a, 1);
        assert(single.sum() == 1);
        lemma_takes_legal(bank, t, single, 1);
        let rest = if body.len() == 0 {
            takes(single, discards_after(t, 1))
        } else {
            seq![]
        };
        assert(all_take_legal(bank, t, rest));
        lemma_concat_legal(bank, t, body, rest);
    }
}

proof fn lemma_all_takes_legal(bank: Tokens, t: Tokens, n: int)
    requires
        n <= 5,
    ensures
        all_take_legal(bank, t, all_takes(bank, t, n)),
    decreases n,
{
    if n > 0 {
        lemma_all_takes_legal(bank, t, n - 1);
        lemma_color_takes_legal(bank, t, n - 1);
        lemma_concat_legal(bank, t, all_takes(bank, t, n - 1), color_takes(bank, t, n - 1));
    }
}

proof fn lemma_card_moves_no_takes(b: Tokens, nobles: Seq<Card>, color: crate::color::Color, template: Move)
    requires
        template is Buy || template is BuyReserved,
    ensures
        no_takes(card_moves(b, nobles, color, template)),
{
}

proof fn lemma_row_buys_no_takes(p: PlayerView, nobles: Seq<Card>, row: Seq<Card>, n: int)
    ensures
        no_takes(row_buys(p, nobles, row, n)),
    decreases n,
{
    if n > 0 {
        lemma_row_buys_no_takes(p, nobles, row, n - 1);
        let card = row[n - 1];
        if let Some(cost) = p.cost_for(card) {
            lemma_card_moves_no_takes(
                crate::player::bonus(p.cards),
                nobles,
                card.color,
                Move::Buy { index: (n - 1) as u8, deck: 3, cost, noble: None },
            );
        }
        lemma_concat_no_takes(row_buys(p, nobles, row, n - 1), card_buy(p, nobles, card, n - 1));
    }
}

proof fn lemma_rows_buys_no_takes(p: PlayerView, nobles: Seq<Card>, rows: Seq<Seq<Card>>, n: int)
    ensures
        no_takes(rows_buys(p, nobles, rows, n)),
    decreases n,
{
    if n > 0 {
        lemma_rows_buys_no_takes(p, nobles, rows, n - 1);
        lemma_row_buys_no_takes(p, nobles, rows[n - 1], rows[n - 1].len() as int);
        lemma_concat_no_takes(
            row_buys(p, nobles, rows[n - 1], rows[n - 1].len() as int),
            rows_buys(p, nobles, rows, n - 1),
        );
    }
}

proof fn lemma_reserved_buys_no_takes(p: PlayerView, nobles: Seq<Card>, n: int)
    ensures
        no_takes(reserved_buys(p, nobles, n)),
    decreases n,
{
    if n > 0 {
        lemma_reserved_buys_no_takes(p, nobles, n - 1);
        if let Some(cost) = p.cost_for(p.reserved[n - 1]) {
            lemma_card_moves_no_takes(
                crate::player::bonus(p.cards),
                nobles,
                p.reserved[n - 1].color,
                Move::BuyReserved { index: (n - 1) as u8, cost, noble: None },
            );
        }
        lemma_concat_no_takes(reserved_buys(p, nobles, n - 1), reserved_buy(p, nobles, n - 1));
    }
}

proof fn lemma_row_reserves_no_takes(drops: Seq<Tokens>, joker: bool, n: int)
    ensures
        no_takes(row_reserves(drops, joker, n)),
    decreases n,
{
    if n > 0 {
        lemma_row_reserves_no_takes(drops, joker, n - 1);
        lemma_concat_no_takes(row_reserves(drops, joker, n - 1), reserve_card(drops, joker, n - 1));
    }
}

proof fn lemma_rows_reserves_no_takes(drops: Seq<Tokens>, joker: bool, rows: Seq<Seq<Card>>, n: int)
    ensures
        no_takes(rows_reserves(drops, joker, rows, n)),
    decreases n,
{
    if n > 0 {
        lemma_rows_reserves_no_takes(drops, joker, rows, n - 1);
        lemma_row_reserves_no_takes(drops, joker, rows[n - 1].len() as int);
        lemma_concat_no_takes(
            rows_reserves(drops, joker, rows, n - 1),
            row_reserves(drops, joker, rows[n - 1].len() as int),
        );
    }
}

/// Every token-taking move the generator offers is legal: the bank holds the
/// tokens taken (at least four of a color taken twice), the player holds the
/// tokens given back, no color is both taken and given back, between one and
/// three tokens are taken, and the player ends with at most ten tokens (exactly
/// as many as before plus those taken when that is at most ten).
pub proof fn lemma_generated_takes_legal(s: StateView, i: int)
    requires
        0 <= i < moves_spec(s).len(),
        moves_spec(s)[i] is Take,
    ensures
        take_legal(s.bank, s.current().tokens, moves_spec(s)[i]),
{
    let p = s.current();
    let b1 = rows_buys(p, s.nobles, s.available_cards, s.available_cards.len() as int);
    let b2 = reserved_buys(p, s.nobles, p.reserved.len() as int);
    let tk = all_takes(s.bank, p.tokens, 5);
    let rs = reserve_moves(s);
    lemma_rows_buys_no_takes(p, s.nobles, s.available_cards, s.available_cards.len() as int);
    lemma_reserved_buys_no_takes(p, s.nobles, p.reserved.len() as int);
    lemma_all_takes_legal(s.bank, p.tokens, 5);
    if p.reserved.len() < crate::player::MAXIMUM_RESERVED {
        let joker = s.bank.joker > 0;
        let drops = if joker && p.tokens.sum() == MAXIMUM_COINS {
            discard_options(p.tokens, 1)
        } else {
            discard_options(p.tokens, 0)
        };
        lemma_rows_reserves_no_takes(drops, joker, s.available_cards, s.available_cards.len() as int);
    }
    assert(no_takes(rs));
    let m = b1 + b2 + tk + rs;
    assert(m.len() > 0);
    assert(moves_spec(s) == m);
    if i < b1.len() {
        assert(m[i] == b1[i]);
    } else if i < b1.len() + b2.len() {
        assert(m[i] == b2[i - b1.len()]);
    } else if i < b1.len() + b2.len() + tk.len() {
        assert(m[i] == tk[i - b1.len() - b2.len()]);
    } else {
        assert(m[i] == rs[i - b1.len() - b2.len() - tk.len()]);
    }
}

} // verus!
