//! Completeness of move generation for purchases: every card the player can
//! afford is offered, at the price `cost_for` gives.
use vstd::prelude::*;
use crate::cost::{Tokens, zero_tokens, discard_options};
use crate::card::Card;
use crate::player::PlayerView;
use crate::moves::Move;
use crate::state::StateView;
use crate::player::{MAXIMUM_COINS, MAXIMUM_RESERVED};
use crate::state::MINIMUM_TO_TAKE_2_TOKENS;
use crate::movegen::{
    moves_spec, all_takes, rows_buys, row_buys, card_buy, reserved_buys, reserved_buy,
    reserve_moves, rows_reserves, row_reserves, reserve_card, color_takes, pair_takes, pair_block,
    triple_takes, double_takes, takes, take_moves, discards_after, discard_index, disjoint,
};
use crate::laws::lemma_discard_options_members;

verus! {

/// `m` buys the reserved card at position `i` for `cost`.
pub open spec fn is_reserved_buy(m: Move, i: int, cost: Tokens) -> bool {
    match m {
        Move::BuyReserved { index, cost: c, .. } => index == i as u8 && c == cost,
        _ => false,
    }
}

/// `m` buys face-up card `i` for `cost`, naming deck `deck`.
pub open spec fn is_buy(m: Move, i: int, deck: usize, cost: Tokens) -> bool {
    match m {
        Move::Buy { index, deck: d, cost: c, .. } => index == i as u8 && d == deck && c == cost,
        _ => false,
    }
}

/// `ms` holds a move buying the reserved card at position `i` for `cost`.
pub open spec fn has_reserved_buy(ms: Seq<Move>, i: int, cost: Tokens) -> bool {
    exists|k: int|
        0 <= k < ms.len() && is_reserved_buy(#[trigger] ms[k], i, cost)
}

/// `ms` holds a move buying face-up card `i` for `cost`, naming deck `deck`.
pub open spec fn has_buy(ms: Seq<Move>, i: int, deck: usize, cost: Tokens) -> bool {
    exists|k: int|
        0 <= k < ms.len() && is_buy(#[trigger] ms[k], i, deck, cost)
}

proof fn lemma_prefix_keeps_reserved_buy(x: Seq<Move>, y: Seq<Move>, i: int, cost: Tokens)
    ensures
        has_reserved_buy(x, i, cost) ==> has_reserved_buy(x + y, i, cost),
        has_reserved_buy(y, i, cost) ==> has_reserved_buy(x + y, i, cost),
{
    if has_reserved_buy(x, i, cost) {
        let k = choose|k: int|
            0 <= k < x.len() && is_reserved_buy(#[trigger] x[k], i, cost);
        assert((x + y)[k] == x[k]);
    }
    if has_reserved_buy(y, i, cost) {
        let k = choose|k: int|
            0 <= k < y.len() && is_reserved_buy(#[trigger] y[k], i, cost);
        assert((x + y)[x.len() + k] == y[k]);
    }
}

proof fn lemma_prefix_keeps_buy(x: Seq<Move>, y: Seq<Move>, i: int, deck: usize, cost: Tokens)
    ensures
        has_buy(x, i, deck, cost) ==> has_buy(x + y, i, deck, cost),
        has_buy(y, i, deck, cost) ==> has_buy(x + y, i, deck, cost),
{
    if has_buy(x, i, deck, cost) {
        let k = choose|k: int|
            0 <= k < x.len() && is_buy(#[trigger] x[k], i, deck, cost);
        assert((x + y)[k] == x[k]);
    }
    if has_buy(y, i, deck, cost) {
        let k = choose|k: int|
            0 <= k < y.len() && is_buy(#[trigger] y[k], i, deck, cost);
        assert((x + y)[x.len() + k] == y[k]);
    }
}

proof fn lemma_reserved_buys_offer(p: PlayerView, nobles: Seq<Card>, n: int, i: int)
    requires
        0 <= i < n <= p.reserved.len(),
        p.cost_for(p.reserved[i]) is Some,
    ensures
        has_reserved_buy(reserved_buys(p, nobles, n), i, p.cost_for(p.reserved[i])->Some_0),
    decreases n,
{
    let cost = p.cost_for(p.reserved[i])->Some_0;
    let prev = reserved_buys(p, nobles, n - 1);
    let last = reserved_buy(p, nobles, n - 1);
    if i == n - 1 {
        assert(last.len() > 0);
        assert(is_reserved_buy(last[0], i, cost));
        assert(has_reserved_buy(last, i, cost));
    } else {
        lemma_reserved_buys_offer(p, nobles, n - 1, i);
    }
    lemma_prefix_keeps_reserved_buy(prev, last, i, cost);
}

proof fn lemma_row_buys_offer(p: PlayerView, nobles: Seq<Card>, row: Seq<Card>, n: int, i: int)
    requires
        0 <= i < n <= row.len(),
        p.cost_for(row[i]) is Some,
    ensures
        has_buy(row_buys(p, nobles, row, n), i, 3, p.cost_for(row[i])->Some_0),
    decreases n,
{
    let cost = p.cost_for(row[i])->Some_0;
    let prev = row_buys(p, nobles, row, n - 1);
    let last = card_buy(p, nobles, row[n - 1], n - 1);
    if i == n - 1 {
        assert(last.len() > 0);
        assert(is_buy(last[0], i, 3, cost));
        assert(has_buy(last, i, 3, cost));
    } else {
        lemma_row_buys_offer(p, nobles, row, n - 1, i);
    }
    lemma_prefix_keeps_buy(prev, last, i, 3, cost);
}

proof fn lemma_rows_buys_offer(
    p: PlayerView,
    nobles: Seq<Card>,
    rows: Seq<Seq<Card>>,
    n: int,
    r: int,
    i: int,
)
    requires
        0 <= r < n <= rows.len(),
        0 <= i < rows[r].len(),
        p.cost_for(rows[r][i]) is Some,
    ensures
        has_buy(rows_buys(p, nobles, rows, n), i, 3, p.cost_for(rows[r][i])->Some_0),
    decreases n,
{
    let cost = p.cost_for(rows[r][i])->Some_0;
    let first = row_buys(p, nobles, rows[n - 1], rows[n - 1].len() as int);
    let rest = rows_buys(p, nobles, rows, n - 1);
    if r == n - 1 {
        lemma_row_buys_offer(p, nobles, rows[r], rows[r].len() as int, i);
    } else {
        lemma_rows_buys_offer(p, nobles, rows, n - 1, r, i);
    }
    lemma_prefix_keeps_buy(first, rest, i, 3, cost);
}

/// Every reserved card the player whose turn it is can afford is offered for
/// purchase, at the price `cost_for` gives.
pub proof fn lemma_affordable_reserved_offered(s: StateView, i: int)
    requires
        0 <= i < s.current().reserved.len(),
        s.current().cost_for(s.current().reserved[i]) is Some,
    ensures
        has_reserved_buy(moves_spec(s), i, s.current().cost_for(s.current().reserved[i])->Some_0),
{
    let p = s.current();
    let cost = p.cost_for(p.reserved[i])->Some_0;
    let b1 = rows_buys(p, s.nobles, s.available_cards, s.available_cards.len() as int);
    let b2 = reserved_buys(p, s.nobles, p.reserved.len() as int);
    let tk = all_takes(s.bank, p.tokens, 5);
    let rs = reserve_moves(s);
    lemma_reserved_buys_offer(p, s.nobles, p.reserved.len() as int, i);
    lemma_prefix_keeps_reserved_buy(b1, b2, i, cost);
    lemma_prefix_keeps_reserved_buy(b1 + b2, tk, i, cost);
    lemma_prefix_keeps_reserved_buy(b1 + b2 + tk, rs, i, cost);
    assert((b1 + b2 + tk + rs).len() > 0);
}

/// Every face-up card the player whose turn it is can afford is offered for
/// purchase, at the price `cost_for` gives (the offer always names deck 3).
pub proof fn lemma_affordable_face_up_offered(s: StateView, r: int, i: int)
    requires
        0 <= r < s.available_cards.len(),
        0 <= i < s.available_cards[r].len(),
        s.current().cost_for(s.available_cards[r][i]) is Some,
    ensures
        has_buy(moves_spec(s), i, 3, s.current().cost_for(s.available_cards[r][i])->Some_0),
{
    let p = s.current();
    let cost = p.cost_for(s.available_cards[r][i])->Some_0;
    let b1 = rows_buys(p, s.nobles, s.available_cards, s.available_cards.len() as int);
    let b2 = reserved_buys(p, s.nobles, p.reserved.len() as int);
    let tk = all_takes(s.bank, p.tokens, 5);
    let rs = reserve_moves(s);
    lemma_rows_buys_offer(p, s.nobles, s.available_cards, s.available_cards.len() as int, r, i);
    lemma_prefix_keeps_buy(b1, b2, i, 3, cost);
    lemma_prefix_keeps_buy(b1 + b2, tk, i, 3, cost);
    lemma_prefix_keeps_buy(b1 + b2 + tk, rs, i, 3, cost);
    assert((b1 + b2 + tk + rs).len() > 0);
}


/// `ms` holds the move taking `tokens` and giving back `drop`.
pub open spec fn has_take(ms: Seq<Move>, tokens: Tokens, drop: Tokens) -> bool {
    exists|k: int| 0 <= k < ms.len() && #[trigger] ms[k] == (Move::Take { tokens, drop })
}

/// `m` reserves face-up card `i`, naming deck 1, taking a joker when `joker`,
/// and giving back a sub-purse of `t` of `size` tokens.
pub open spec fn is_reserve(m: Move, i: int, joker: bool, t: Tokens, size: int) -> bool {
    match m {
        Move::Reserve { index, deck, drop, joker: j } => index == i as u8 && deck == 1 && j == joker
            && t.covers(drop) && drop.sum() == size,
        _ => false,
    }
}

/// `ms` holds a move reserving face-up card `i` as `is_reserve` says.
pub open spec fn has_reserve(ms: Seq<Move>, i: int, joker: bool, t: Tokens, size: int) -> bool {
    exists|k: int| 0 <= k < ms.len() && is_reserve(#[trigger] ms[k], i, joker, t, size)
}

proof fn lemma_concat_keeps_take(x: Seq<Move>, y: Seq<Move>, tokens: Tokens, drop: Tokens)
    ensures
        has_take(x, tokens, drop) ==> has_take(x + y, tokens, drop),
        has_take(y, tokens, drop) ==> has_take(x + y, tokens, drop),
{
    if has_take(x, tokens, drop) {
        let k = choose|k: int| 0 <= k < x.len() && #[trigger] x[k] == (Move::Take { tokens, drop });
        assert((x + y)[k] == x[k]);
    }
    if has_take(y, tokens, drop) {
        let k = choose|k: int| 0 <= k < y.len() && #[trigger] y[k] == (Move::Take { tokens, drop });
        assert((x + y)[x.len() + k] == y[k]);
    }
}

proof fn lemma_concat_keeps_reserve(x: Seq<Move>, y: Seq<Move>, i: int, joker: bool, t: Tokens, size: int)
    ensures
        has_reserve(x, i, joker, t, size) ==> has_reserve(x + y, i, joker, t, size),
        has_reserve(y, i, joker, t, size) ==> has_reserve(x + y, i, joker, t, size),
{
    if has_reserve(x, i, joker, t, size) {
        let k = choose|k: int| 0 <= k < x.len() && is_reserve(#[trigger] x[k], i, joker, t, size);
        assert((x + y)[k] == x[k]);
    }
    if has_reserve(y, i, joker, t, size) {
        let k = choose|k: int| 0 <= k < y.len() && is_reserve(#[trigger] y[k], i, joker, t, size);
        assert((x + y)[x.len() + k] == y[k]);
    }
}

/// Giving back nothing is the only way of giving back zero tokens.
proof fn lemma_no_discard(t: Tokens)
    ensures
        discard_options(t, 0).contains(zero_tokens()),
{
    lemma_discard_options_members(t, 0, zero_tokens());
}

proof fn lemma_take_moves_offer(tokens: Tokens, opts: Seq<Tokens>, n: int, j: int)
    requires
        0 <= j < n <= opts.len(),
        disjoint(tokens, opts[j]),
    ensures
        has_take(take_moves(tokens, opts, n), tokens, opts[j]),
    decreases n,
{
    let prev = take_moves(tokens, opts, n - 1);
    let last = if disjoint(tokens, opts[n - 1]) {
        seq![Move::Take { tokens, drop: opts[n - 1] }]
    } else {
        seq![]
    };
    if j == n - 1 {
        assert(last[0] == (Move::Take { tokens, drop: opts[j] }));
    } else {
        lemma_take_moves_offer(tokens, opts, n - 1, j);
    }
    lemma_concat_keeps_take(prev, last, tokens, opts[j]);
}

/// Taking `tokens` with nothing given back is offered when the purse stays
/// within ten tokens.
proof fn lemma_takes_offer(t: Tokens, tokens: Tokens, k: int)
    requires
        t.sum() + k <= MAXIMUM_COINS,
    ensures
        has_take(takes(tokens, discards_after(t, k)), tokens, zero_tokens()),
{
    let opts = discards_after(t, k);
    assert(discard_index(t.sum() + k) == 0);
    lemma_no_discard(t);
    let j = choose|j: int| 0 <= j < opts.len() && opts[j] == zero_tokens();
    assert(disjoint(tokens, opts[j]));
    lemma_take_moves_offer(tokens, opts, opts.len() as int, j);
}

proof fn lemma_triple_takes_offer(bank: Tokens, t: Tokens, a: int, b: int, c: int, n: int)
    requires
        0 <= a < b < c < n <= 5,
        bank.at(c) >= 1,
        t.sum() + 3 <= MAXIMUM_COINS,
    ensures
        has_take(
            triple_takes(bank, t, a, b, n),
            zero_tokens().with_at(a, 1).with_at(b, 1).with_at(c, 1),
            zero_tokens(),
        ),
    decreases n - b,
{
    let tokens = zero_tokens().with_at(a, 1).with_at(b, 1).with_at(c, 1);
    let prev = triple_takes(bank, t, a, b, n - 1);
    let last = if bank.at(n - 1) >= 1 {
        takes(zero_tokens().with_at(a, 1).with_at(b, 1).with_at(n - 1, 1), discards_after(t, 3))
    } else {
        seq![]
    };
    if c == n - 1 {
        lemma_takes_offer(t, tokens, 3);
    } else {
        lemma_triple_takes_offer(bank, t, a, b, c, n - 1);
    }
    lemma_concat_keeps_take(prev, last, tokens, zero_tokens());
}

proof fn lemma_pair_takes_offer(bank: Tokens, t: Tokens, a: int, b: int, n: int, tokens: Tokens)
    requires
        0 <= a < b < n <= 5,
        bank.at(b) >= 1,
        has_take(pair_block(bank, t, a, b), tokens, zero_tokens()),
    ensures
        has_take(pair_takes(bank, t, a, n), tokens, zero_tokens()),
    decreases n - a,
{
    let prev = pair_takes(bank, t, a, n - 1);
    let last = pair_block(bank, t, a, n - 1);
    if b < n - 1 {
        lemma_pair_takes_offer(bank, t, a, b, n - 1, tokens);
    }
    lemma_concat_keeps_take(prev, last, tokens, zero_tokens());
}

proof fn lemma_all_takes_offer(bank: Tokens, t: Tokens, a: int, n: int, tokens: Tokens)
    requires
        0 <= a < n <= 5,
        has_take(color_takes(bank, t, a), tokens, zero_tokens()),
    ensures
        has_take(all_takes(bank, t, n), tokens, zero_tokens()),
    decreases n,
{
    if a < n - 1 {
        lemma_all_takes_offer(bank, t, a, n - 1, tokens);
    }
    lemma_concat_keeps_take(all_takes(bank, t, n - 1), color_takes(bank, t, n - 1), tokens, zero_tokens());
}

proof fn lemma_in_takes_segment(s: StateView, tokens: Tokens)
    requires
        has_take(all_takes(s.bank, s.current().tokens, 5), tokens, zero_tokens()),
    ensures
        has_take(moves_spec(s), tokens, zero_tokens()),
{
    let p = s.current();
    let b1 = rows_buys(p, s.nobles, s.available_cards, s.available_cards.len() as int);
    let b2 = reserved_buys(p, s.nobles, p.reserved.len() as int);
    let tk = all_takes(s.bank, p.tokens, 5);
    let rs = reserve_moves(s);
    lemma_concat_keeps_take(b1 + b2, tk, tokens, zero_tokens());
    lemma_concat_keeps_take(b1 + b2 + tk, rs, tokens, zero_tokens());
    assert((b1 + b2 + tk + rs).len() > 0);
}

/// Whenever the bank holds three gem colors and the player would stay within
/// ten tokens, taking one of each of them, giving nothing back, is offered.
pub proof fn lemma_three_gems_offered(s: StateView, a: int, b: int, c: int)
    requires
        0 <= a < b < c < 5,
        s.bank.at(a) >= 1,
        s.bank.at(b) >= 1,
        s.bank.at(c) >= 1,
        s.current().tokens.sum() + 3 <= MAXIMUM_COINS,
    ensures
        has_take(moves_spec(s), zero_tokens().with_at(a, 1).with_at(b, 1).with_at(c, 1), zero_tokens()),
{
    let t = s.current().tokens;
    let bank = s.bank;
    let tokens = zero_tokens().with_at(a, 1).with_at(b, 1).with_at(c, 1);
    lemma_triple_takes_offer(bank, t, a, b, c, 5);
    let tr = triple_takes(bank, t, a, b, 5);
    let rest = if tr.len() == 0 {
        takes(zero_tokens().with_at(a, 1).with_at(b, 1), discards_after(t, 2))
    } else {
        seq![]
    };
    lemma_concat_keeps_take(tr, rest, tokens, zero_tokens());
    assert(pair_block(bank, t, a, b) == tr + rest);
    lemma_pair_takes_offer(bank, t, a, b, 5, tokens);
    let body = double_takes(bank, t, a) + pair_takes(bank, t, a, 5);
    lemma_concat_keeps_take(double_takes(bank, t, a), pair_takes(bank, t, a, 5), tokens, zero_tokens());
    let single = if body.len() == 0 {
        takes(zero_tokens().with_at(a, 1), discards_after(t, 1))
    } else {
        seq![]
    };
    lemma_concat_keeps_take(body, single, tokens, zero_tokens());
    assert(color_takes(bank, t, a) == body + single);
    lemma_all_takes_offer(bank, t, a, 5, tokens);
    lemma_in_takes_segment(s, tokens);
}

/// Whenever the bank holds at least four tokens of a gem color and the player
/// would stay within ten tokens, taking two of that color, giving nothing
/// back, is offered.
pub proof fn lemma_two_gems_offered(s: StateView, a: int)
    requires
        0 <= a < 5,
        s.bank.at(a) >= MINIMUM_TO_TAKE_2_TOKENS,
        s.current().tokens.sum() + 2 <= MAXIMUM_COINS,
    ensures
        has_take(moves_spec(s), zero_tokens().with_at(a, 2), zero_tokens()),
{
    let t = s.current().tokens;
    let bank = s.bank;
    let tokens = zero_tokens().with_at(a, 2);
    lemma_takes_offer(t, tokens, 2);
    assert(double_takes(bank, t, a) == takes(tokens, discards_after(t, 2)));
    let body = double_takes(bank, t, a) + pair_takes(bank, t, a, 5);
    lemma_concat_keeps_take(double_takes(bank, t, a), pair_takes(bank, t, a, 5), tokens, zero_tokens());
    let single = if body.len() == 0 {
        takes(zero_tokens().with_at(a, 1), discards_after(t, 1))
    } else {
        seq![]
    };
    lemma_concat_keeps_take(body, single, tokens, zero_tokens());
    assert(color_takes(bank, t, a) == body + single);
    lemma_all_takes_offer(bank, t, a, 5, tokens);
    lemma_in_takes_segment(s, tokens);
}

proof fn lemma_row_reserves_offer(drops: Seq<Tokens>, joker: bool, n: int, i: int, t: Tokens, size: int)
    requires
        0 <= i < n,
        drops.len() > 0,
        t.covers(drops[0]),
        drops[0].sum() == size,
    ensures
        has_reserve(row_reserves(drops, joker, n), i, joker, t, size),
    decreases n,
{
    let prev = row_reserves(drops, joker, n - 1);
    let last = reserve_card(drops, joker, n - 1);
    if i == n - 1 {
        assert(is_reserve(last[0], i, joker, t, size));
    } else {
        lemma_row_reserves_offer(drops, joker, n - 1, i, t, size);
    }
    lemma_concat_keeps_reserve(prev, last, i, joker, t, size);
}

proof fn lemma_rows_reserves_offer(
    drops: Seq<Tokens>,
    joker: bool,
    rows: Seq<Seq<Card>>,
    n: int,
    r: int,
    i: int,
    t: Tokens,
    size: int,
)
    requires
        0 <= r < n <= rows.len(),
        0 <= i < rows[r].len(),
        drops.len() > 0,
        t.covers(drops[0]),
        drops[0].sum() == size,
    ensures
        has_reserve(rows_reserves(drops, joker, rows, n), i, joker, t, size),
    decreases n,
{
    let prev = rows_reserves(drops, joker, rows, n - 1);
    let last = row_reserves(drops, joker, rows[n - 1].len() as int);
    if r == n - 1 {
        lemma_row_reserves_offer(drops, joker, rows[r].len() as int, i, t, size);
    } else {
        lemma_rows_reserves_offer(drops, joker, rows, n - 1, r, i, t, size);
    }
    lemma_concat_keeps_reserve(prev, last, i, joker, t, size);
}

/// While the player holds fewer than three reserved cards, every face-up card
/// is offered for reservation (the offer names deck 1), taking a joker exactly
/// when the bank has one, and giving back one token of the player's exactly
/// when that joker would bring a full purse of ten above the limit.
pub proof fn lemma_reserve_offered(s: StateView, r: int, i: int)
    requires
        s.current().reserved.len() < MAXIMUM_RESERVED,
        0 <= r < s.available_cards.len(),
        0 <= i < s.available_cards[r].len(),
    ensures
        has_reserve(
            moves_spec(s),
            i,
            s.bank.joker > 0,
            s.current().tokens,
            if s.bank.joker > 0 && s.current().tokens.sum() == MAXIMUM_COINS { 1int } else { 0int },
        ),
{
    let p = s.current();
    let t = p.tokens;
    let joker = s.bank.joker > 0;
    let size: int = if joker && t.sum() == MAXIMUM_COINS { 1 } else { 0 };
    let drops = discard_options(t, size);
    if size == 0 {
        lemma_no_discard(t);
    } else {
        let d = if t.black >= 1 {
            zero_tokens().with_at(0, 1)
        } else if t.blue >= 1 {
            zero_tokens().with_at(1, 1)
        } else if t.green >= 1 {
            zero_tokens().with_at(2, 1)
        } else if t.red >= 1 {
            zero_tokens().with_at(3, 1)
        } else if t.white >= 1 {
            zero_tokens().with_at(4, 1)
        } else {
            zero_tokens().with_at(5, 1)
        };
        lemma_discard_options_members(t, 1, d);
    }
    assert(drops.len() > 0);
    lemma_discard_options_members(t, size, drops[0]);
    assert(drops.contains(drops[0]));
    lemma_rows_reserves_offer(drops, joker, s.available_cards, s.available_cards.len() as int, r, i, t, size);
    assert(reserve_moves(s) == rows_reserves(drops, joker, s.available_cards, s.available_cards.len() as int));
    let b1 = rows_buys(p, s.nobles, s.available_cards, s.available_cards.len() as int);
    let b2 = reserved_buys(p, s.nobles, p.reserved.len() as int);
    let tk = all_takes(s.bank, p.tokens, 5);
    let rs = reserve_moves(s);
    lemma_concat_keeps_reserve(b1 + b2 + tk, rs, i, joker, t, size);
    assert((b1 + b2 + tk + rs).len() > 0);
}

} // verus!
