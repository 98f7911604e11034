//! Properties that relate several operations of the library.
use vstd::prelude::*;
use vstd::multiset::Multiset;
use crate::cost::{Tokens, drops, drops_from_amount, discard_options, zero_tokens};
use crate::card::Card;
use crate::player::{PlayerView, bonus, paid, wanted, shortfall_prefix, lemma_shortfall_monotone};
use crate::moves::Move;
use crate::state::{StateView, refreshed};
use crate::transition::{can_apply, apply_spec, can_undo, undo_spec, with_joker, without_joker};

verus! {

proof fn lemma_plus_minus_cancel(t: Tokens, a: Tokens, d: Tokens)
    requires
        t.can_add(a),
        t.plus_spec(a).covers(d),
    ensures
        t.plus_spec(a).minus_spec(d).can_add(d),
        t.plus_spec(a).minus_spec(d).plus_spec(d).covers(a),
        t.plus_spec(a).minus_spec(d).plus_spec(d).minus_spec(a) == t,
{
    assert(t.at(0) + a.at(0) <= u8::MAX);
    assert(t.at(1) + a.at(1) <= u8::MAX);
    assert(t.at(2) + a.at(2) <= u8::MAX);
    assert(t.at(3) + a.at(3) <= u8::MAX);
    assert(t.at(4) + a.at(4) <= u8::MAX);
    assert(t.at(5) + a.at(5) <= u8::MAX);
    let r = t.plus_spec(a).minus_spec(d);
    assert forall|i: int| 0 <= i < 6 implies #[trigger] r.at(i) + d.at(i) <= u8::MAX by {
        assert(t.at(i) + a.at(i) <= u8::MAX);
    }
}

proof fn lemma_minus_plus_cancel(t: Tokens, c: Tokens, b: Tokens)
    requires
        t.covers(c),
        b.can_add(c),
    ensures
        t.minus_spec(c).can_add(c),
        t.minus_spec(c).plus_spec(c) == t,
        b.plus_spec(c).covers(c),
        b.plus_spec(c).minus_spec(c) == b,
{
    assert(b.at(0) + c.at(0) <= u8::MAX);
    assert(b.at(1) + c.at(1) <= u8::MAX);
    assert(b.at(2) + c.at(2) <= u8::MAX);
    assert(b.at(3) + c.at(3) <= u8::MAX);
    assert(b.at(4) + c.at(4) <= u8::MAX);
    assert(b.at(5) + c.at(5) <= u8::MAX);
}

proof fn lemma_joker_minus_cancel(t: Tokens, joker: bool, d: Tokens)
    requires
        joker ==> t.joker < u8::MAX,
        with_joker(t, joker).covers(d),
    ensures
        with_joker(t, joker).minus_spec(d).can_add(d),
        joker ==> with_joker(t, joker).minus_spec(d).plus_spec(d).joker >= 1,
        without_joker(with_joker(t, joker).minus_spec(d).plus_spec(d), joker) == t,
{
}

proof fn lemma_undo_reserve(s: StateView, m: Move)
    requires
        can_apply(s, m),
        m is Reserve,
    ensures
        can_undo(apply_spec(s, m), m),
        undo_spec(apply_spec(s, m), m) == s,
{
    let p = s.current();
    let a = apply_spec(s, m);
    if let Move::Reserve { index, deck, drop, joker } = m {
        lemma_joker_minus_cancel(p.tokens, joker, drop);
        let row = s.available_cards[deck - 1];
        assert(row.remove(index as int).insert(index as int, row[index as int]) =~= row);
        assert(p.reserved.push(row[index as int]).drop_last() =~= p.reserved);
        assert(s.available_cards.update(deck - 1, row.remove(index as int)).update(deck - 1, row)
            =~= s.available_cards);
        let u = undo_spec(a, m);
        assert(u.current().reserved =~= p.reserved);
        assert(u.current() =~= p);
        assert(u =~= s);
    }
}

proof fn lemma_undo_buy(s: StateView, m: Move)
    requires
        can_apply(s, m),
        m is Buy,
    ensures
        can_undo(apply_spec(s, m), m),
        undo_spec(apply_spec(s, m), m) == s,
{
    let p = s.current();
    let a = apply_spec(s, m);
    if let Move::Buy { index, deck, cost, noble } = m {
        lemma_minus_plus_cancel(p.tokens, cost, s.bank);
        let row = s.available_cards[deck - 1];
        assert(row.remove(index as int).insert(index as int, row[index as int]) =~= row);
        assert(p.cards.push(row[index as int]).drop_last() =~= p.cards);
        assert(s.available_cards.update(deck - 1, row.remove(index as int)).update(deck - 1, row)
            =~= s.available_cards);
        if let Some(ni) = noble {
            assert(s.nobles.remove(ni as int).insert(ni as int, s.nobles[ni as int]) =~= s.nobles);
            assert(p.nobles.push(s.nobles[ni as int]).drop_last() =~= p.nobles);
        }
        let u = undo_spec(a, m);
        assert(u.current() =~= p);
        assert(u =~= s);
    }
}

proof fn lemma_undo_buy_reserved(s: StateView, m: Move)
    requires
        can_apply(s, m),
        m is BuyReserved,
    ensures
        can_undo(apply_spec(s, m), m),
        undo_spec(apply_spec(s, m), m) == s,
{
    let p = s.current();
    let a = apply_spec(s, m);
    if let Move::BuyReserved { index, cost, noble } = m {
        lemma_minus_plus_cancel(p.tokens, cost, s.bank);
        assert(p.reserved.remove(index as int).insert(index as int, p.reserved[index as int])
            =~= p.reserved);
        assert(p.cards.push(p.reserved[index as int]).drop_last() =~= p.cards);
        if let Some(ni) = noble {
            assert(s.nobles.remove(ni as int).insert(ni as int, s.nobles[ni as int]) =~= s.nobles);
            assert(p.nobles.push(s.nobles[ni as int]).drop_last() =~= p.nobles);
        }
        let u = undo_spec(a, m);
        assert(u.current() =~= p);
        assert(u =~= s);
    }
}

/// Taking back a move right after playing it restores the state exactly:
/// whenever `m` can be played in `s`, it can then be taken back, and taking it
/// back gives `s` again.
pub proof fn lemma_undo_inverts_apply(s: StateView, m: Move)
    requires
        can_apply(s, m),
    ensures
        can_undo(apply_spec(s, m), m),
        undo_spec(apply_spec(s, m), m) == s,
{
    let p = s.current();
    let a = apply_spec(s, m);
    match m {
        Move::Take { tokens, drop } => {
            lemma_plus_minus_cancel(p.tokens, tokens, drop);
            lemma_plus_minus_cancel(s.bank, drop, tokens);
            assert(undo_spec(a, m) =~= s);
        },
        Move::Reserve { .. } => lemma_undo_reserve(s, m),
        Move::Buy { .. } => lemma_undo_buy(s, m),
        Move::BuyReserved { .. } => lemma_undo_buy_reserved(s, m),
        Move::Pass => {
            assert(undo_spec(a, m) =~= s);
        },
    }
}

/// Tokens of color `i` in the game: in the bank and in both purses.
pub open spec fn tokens_in_play(s: StateView, i: int) -> int {
    s.bank.at(i) + s.player.tokens.at(i) + s.adversary.tokens.at(i)
}

/// The tokens a move gives back without returning them to the bank: those a
/// `Reserve` drops.
pub open spec fn tokens_dropped(m: Move, i: int) -> int {
    match m {
        Move::Reserve { drop, .. } => drop.at(i) as int,
        _ => 0,
    }
}

/// Playing a move never creates or destroys tokens, except that the tokens a
/// `Reserve` move gives back leave the game: for every color, the bank and the
/// two purses together hold as many tokens after the move as before, less
/// those dropped by a reservation.
pub proof fn lemma_apply_conserves_tokens(s: StateView, m: Move, i: int)
    requires
        can_apply(s, m),
        0 <= i < 6,
    ensures
        tokens_in_play(apply_spec(s, m), i) == tokens_in_play(s, i) - tokens_dropped(m, i),
{
    let p = s.current();
    match m {
        Move::Take { tokens, drop } => {
            assert(p.tokens.at(i) + tokens.at(i) <= u8::MAX);
            assert(s.bank.at(i) + drop.at(i) <= u8::MAX);
        },
        Move::Buy { cost, .. } => {
            assert(s.bank.at(i) + cost.at(i) <= u8::MAX);
        },
        Move::BuyReserved { cost, .. } => {
            assert(s.bank.at(i) + cost.at(i) <= u8::MAX);
        },
        _ => {},
    }
}

/// All the cards of a list of rows.
pub open spec fn rows_multiset(rows: Seq<Seq<Card>>) -> Multiset<Card>
    decreases rows.len(),
{
    if rows.len() == 0 {
        Multiset::empty()
    } else {
        rows_multiset(rows.drop_last()).add(rows.last().to_multiset())
    }
}

/// All the development cards of a game: in the decks, face up, bought and reserved.
pub open spec fn cards_in_play(s: StateView) -> Multiset<Card> {
    rows_multiset(s.decks).add(rows_multiset(s.available_cards)).add(s.player.cards.to_multiset()).add(
        s.player.reserved.to_multiset(),
    ).add(s.adversary.cards.to_multiset()).add(s.adversary.reserved.to_multiset())
}

/// All the nobles of a game: on the board and with the players.
pub open spec fn nobles_in_play(s: StateView) -> Multiset<Card> {
    s.nobles.to_multiset().add(s.player.nobles.to_multiset()).add(s.adversary.nobles.to_multiset())
}

proof fn lemma_rows_update(rows: Seq<Seq<Card>>, k: int, r: Seq<Card>)
    requires
        0 <= k < rows.len(),
    ensures
        rows_multiset(rows.update(k, r)).add(rows[k].to_multiset()) == rows_multiset(rows).add(
            r.to_multiset(),
        ),
    decreases rows.len(),
{
    broadcast use vstd::multiset::group_multiset_axioms;

    let u = rows.update(k, r);
    if k == rows.len() - 1 {
        assert(u.drop_last() =~= rows.drop_last());
        assert(rows_multiset(u).add(rows[k].to_multiset()) =~= rows_multiset(rows).add(
            r.to_multiset(),
        ));
    } else {
        assert(u.drop_last() =~= rows.drop_last().update(k, r));
        lemma_rows_update(rows.drop_last(), k, r);
        assert(u.last() == rows.last());
        assert(rows.drop_last()[k] == rows[k]);
        let d1 = rows_multiset(u.drop_last());
        let d0 = rows_multiset(rows.drop_last());
        let l = rows.last().to_multiset();
        let rk = rows[k].to_multiset();
        let rm = r.to_multiset();
        assert(rows_multiset(u) == d1.add(l));
        assert(rows_multiset(rows) == d0.add(l));
        assert(d1.add(rk) == d0.add(rm));
        assert forall|v: Card| #[trigger] d1.add(l).add(rk).count(v) == d0.add(l).add(rm).count(v) by {
            assert(d1.add(rk).count(v) == d0.add(rm).count(v));
        }
        assert(d1.add(l).add(rk) =~= d0.add(l).add(rm));
    }
}

proof fn lemma_remove_insert(s: Seq<Card>, i: int)
    requires
        0 <= i < s.len(),
    ensures
        s.remove(i).to_multiset().insert(s[i]) == s.to_multiset(),
{
    broadcast use vstd::multiset::group_multiset_axioms;

    vstd::seq_lib::to_multiset_remove(s, i);
    vstd::seq_lib::to_multiset_contains(s, s[i]);
    assert(s.contains(s[i]));
    assert(s.remove(i).to_multiset().insert(s[i]) =~= s.to_multiset());
}

proof fn lemma_row_remove(rows: Seq<Seq<Card>>, k: int, i: int)
    requires
        0 <= k < rows.len(),
        0 <= i < rows[k].len(),
    ensures
        rows_multiset(rows.update(k, rows[k].remove(i))).insert(rows[k][i]) == rows_multiset(rows),
{
    broadcast use vstd::multiset::group_multiset_axioms;
    broadcast use vstd::seq_lib::to_multiset_remove;
    broadcast use vstd::seq_lib::to_multiset_build;

    let row = rows[k];
    lemma_rows_update(rows, k, row.remove(i));
    lemma_remove_insert(row, i);
    let lhs = rows_multiset(rows.update(k, row.remove(i)));
    let rr = row.remove(i).to_multiset();
    assert forall|v: Card| #[trigger] lhs.insert(row[i]).count(v) == rows_multiset(rows).count(v) by {
        assert(lhs.add(row.to_multiset()).count(v) == rows_multiset(rows).add(rr).count(v));
        assert(row.to_multiset().count(v) == rr.insert(row[i]).count(v));
    }
    assert(lhs.insert(row[i]) =~= rows_multiset(rows));
}

/// Playing a move only moves cards around: the development cards in the
/// decks, face up, bought and reserved, and the nobles on the board and with
/// the players, are the same before and after.
pub proof fn lemma_apply_conserves_cards(s: StateView, m: Move)
    requires
        can_apply(s, m),
    ensures
        cards_in_play(apply_spec(s, m)) == cards_in_play(s),
        nobles_in_play(apply_spec(s, m)) == nobles_in_play(s),
{
    broadcast use vstd::multiset::group_multiset_axioms;
    broadcast use vstd::seq_lib::to_multiset_remove;
    broadcast use vstd::seq_lib::to_multiset_build;

    let p = s.current();
    let a = apply_spec(s, m);
    match m {
        Move::Reserve { index, deck, .. } => {
            let k = deck - 1;
            let i = index as int;
            lemma_row_remove(s.available_cards, k, i);
            let c = s.available_cards[k][i];
            assert(p.reserved.push(c).to_multiset() =~= p.reserved.to_multiset().insert(c));
            assert(cards_in_play(a) =~= cards_in_play(s));
            assert(nobles_in_play(a) =~= nobles_in_play(s));
        },
        Move::Buy { index, deck, noble, .. } => {
            let k = deck - 1;
            let i = index as int;
            lemma_row_remove(s.available_cards, k, i);
            let c = s.available_cards[k][i];
            assert(p.cards.push(c).to_multiset() =~= p.cards.to_multiset().insert(c));
            assert(cards_in_play(a) =~= cards_in_play(s));
            if let Some(ni) = noble {
                let n = s.nobles[ni as int];
                lemma_remove_insert(s.nobles, ni as int);
                assert(p.nobles.push(n).to_multiset() =~= p.nobles.to_multiset().insert(n));
            }
            assert(nobles_in_play(a) =~= nobles_in_play(s));
        },
        Move::BuyReserved { index, noble, .. } => {
            let i = index as int;
            let c = p.reserved[i];
            lemma_remove_insert(p.reserved, i);
            assert(p.cards.push(c).to_multiset() =~= p.cards.to_multiset().insert(c));
            assert(cards_in_play(a) =~= cards_in_play(s));
            if let Some(ni) = noble {
                let n = s.nobles[ni as int];
                lemma_remove_insert(s.nobles, ni as int);
                assert(p.nobles.push(n).to_multiset() =~= p.nobles.to_multiset().insert(n));
            }
            assert(nobles_in_play(a) =~= nobles_in_play(s));
        },
        _ => {
            assert(cards_in_play(a) =~= cards_in_play(s));
            assert(nobles_in_play(a) =~= nobles_in_play(s));
        },
    }
}


/// Sum of the amounts of the colors from index `ci` on.
pub open spec fn tail_sum(d: Tokens, ci: int) -> int
    decreases 6 - ci,
{
    if ci >= 6 || ci < 0 {
        0
    } else {
        d.at(ci) + tail_sum(d, ci + 1)
    }
}

/// `d` agrees with `acc` below index `ci`, takes no more than `t` from `ci` on,
/// and takes `k` tokens in all from `ci` on.
pub open spec fn completes(t: Tokens, k: int, ci: int, acc: Tokens, d: Tokens) -> bool {
    &&& forall|j: int| 0 <= j < ci ==> #[trigger] d.at(j) == acc.at(j)
    &&& forall|j: int| ci <= j < 6 ==> #[trigger] d.at(j) <= t.at(j)
    &&& tail_sum(d, ci) == k
}

proof fn lemma_tokens_ext(a: Tokens, b: Tokens)
    requires
        forall|j: int| 0 <= j < 6 ==> #[trigger] a.at(j) == b.at(j),
    ensures
        a == b,
{
    assert(a.at(0) == b.at(0));
    assert(a.at(1) == b.at(1));
    assert(a.at(2) == b.at(2));
    assert(a.at(3) == b.at(3));
    assert(a.at(4) == b.at(4));
    assert(a.at(5) == b.at(5));
}

proof fn lemma_concat_contains(x: Seq<Tokens>, y: Seq<Tokens>, d: Tokens)
    ensures
        (x + y).contains(d) <==> x.contains(d) || y.contains(d),
{
    if x.contains(d) {
        let i = choose|i: int| 0 <= i < x.len() && x[i] == d;
        assert((x + y)[i] == d);
    }
    if y.contains(d) {
        let i = choose|i: int| 0 <= i < y.len() && y[i] == d;
        assert((x + y)[x.len() + i] == d);
    }
    if (x + y).contains(d) {
        let i = choose|i: int| 0 <= i < (x + y).len() && (x + y)[i] == d;
        if i < x.len() {
            assert(x[i] == d);
        } else {
            assert(y[i - x.len()] == d);
        }
    }
}

proof fn lemma_drops_members(t: Tokens, k: int, ci: int, acc: Tokens, d: Tokens)
    requires
        0 <= ci <= 5,
    ensures
        drops(t, k, ci, acc).contains(d) <==> completes(t, k, ci, acc, d),
    decreases 5 - ci, 300int,
{
    if ci == 5 {
        let e = acc.with_at(5, k as u8);
        assert(tail_sum(d, 6) == 0);
        if completes(t, k, ci, acc, d) {
            assert(tail_sum(d, 5) == d.at(5));
            assert(0 <= k <= t.joker);
            assert forall|j: int| 0 <= j < 6 implies #[trigger] d.at(j) == e.at(j) by {}
            lemma_tokens_ext(d, e);
            assert(drops(t, k, ci, acc)[0] == d);
        }
        if drops(t, k, ci, acc).contains(d) {
            assert(d == e);
            assert(tail_sum(d, 5) == d.at(5));
        }
    } else {
        lemma_amount_members(t, k, ci, acc, 0, d);
    }
}

proof fn lemma_amount_members(t: Tokens, k: int, ci: int, acc: Tokens, a: int, d: Tokens)
    requires
        0 <= ci < 5,
        0 <= a <= 256,
    ensures
        drops_from_amount(t, k, ci, acc, a).contains(d) <==> (completes(t, k, ci, acc, d) && d.at(
            ci,
        ) >= a),
    decreases 5 - ci, 257 - a,
{
    if a > k || a > t.at(ci) {
        assert(drops_from_amount(t, k, ci, acc, a) =~= seq![]);
        if completes(t, k, ci, acc, d) && d.at(ci) >= a {
            assert(d.at(ci) <= t.at(ci));
            lemma_tail_sum_nonneg(d, ci + 1);
            assert(tail_sum(d, ci) == d.at(ci) + tail_sum(d, ci + 1));
        }
    } else {
        let acc2 = acc.with_at(ci, a as u8);
        let first = drops(t, k - a, ci + 1, acc2);
        let rest = drops_from_amount(t, k, ci, acc, a + 1);
        assert(drops_from_amount(t, k, ci, acc, a) == first + rest);
        lemma_concat_contains(first, rest, d);
        lemma_drops_members(t, k - a, ci + 1, acc2, d);
        lemma_amount_members(t, k, ci, acc, a + 1, d);
        assert(tail_sum(d, ci) == d.at(ci) + tail_sum(d, ci + 1));
        if completes(t, k - a, ci + 1, acc2, d) {
            assert(d.at(ci) == acc2.at(ci));
            assert forall|j: int| 0 <= j < ci implies #[trigger] d.at(j) == acc.at(j) by {
                assert(d.at(j) == acc2.at(j));
            }
        }
        if completes(t, k, ci, acc, d) && d.at(ci) == a {
            assert forall|j: int| 0 <= j < ci + 1 implies #[trigger] d.at(j) == acc2.at(j) by {}
        }
    }
}

proof fn lemma_tail_sum_nonneg(d: Tokens, ci: int)
    ensures
        tail_sum(d, ci) >= 0,
    decreases 6 - ci,
{
    if 0 <= ci < 6 {
        lemma_tail_sum_nonneg(d, ci + 1);
    }
}

/// The ways of discarding `k` tokens from a purse are exactly the amounts the
/// purse covers that add up to `k`.
pub proof fn lemma_discard_options_members(t: Tokens, k: int, d: Tokens)
    ensures
        discard_options(t, k).contains(d) <==> (t.covers(d) && d.sum() == k),
{
    lemma_drops_members(t, k, 0, zero_tokens(), d);
    assert(tail_sum(d, 0) == d.sum()) by {
        assert(tail_sum(d, 6) == 0);
        assert(tail_sum(d, 5) == d.joker);
        assert(tail_sum(d, 4) == d.white + d.joker);
        assert(tail_sum(d, 3) == d.red + d.white + d.joker);
        assert(tail_sum(d, 2) == d.green + d.red + d.white + d.joker);
        assert(tail_sum(d, 1) == d.blue + d.green + d.red + d.white + d.joker);
    }
    if t.covers(d) {
        assert forall|j: int| 0 <= j < 6 implies #[trigger] d.at(j) <= t.at(j) by {}
    }
    if completes(t, k, 0, zero_tokens(), d) {
        assert(d.at(0) <= t.at(0));
        assert(d.at(1) <= t.at(1));
        assert(d.at(2) <= t.at(2));
        assert(d.at(3) <= t.at(3));
        assert(d.at(4) <= t.at(4));
        assert(d.at(5) <= t.at(5));
    }
}


/// The part of the price of the first `n` gem colors of `card` left uncovered
/// by the bonus `b` and the tokens `cost` paid.
pub open spec fn gap(card: Card, b: Tokens, cost: Tokens, n: int) -> int
    decreases n,
{
    if n <= 0 {
        0
    } else {
        gap(card, b, cost, n - 1) + if card.cost.at(n - 1) > b.at(n - 1) + cost.at(n - 1) {
            card.cost.at(n - 1) - b.at(n - 1) - cost.at(n - 1)
        } else {
            0
        }
    }
}

proof fn lemma_gap_prefix(t: Tokens, b: Tokens, card: Card, cost: Tokens, n: int)
    requires
        0 <= n <= 5,
        forall|i: int| 0 <= i < 5 ==> #[trigger] cost.at(i) == paid(t, b, card, i),
    ensures
        gap(card, b, cost, n) == shortfall_prefix(t, b, card, n),
    decreases n,
{
    if n > 0 {
        lemma_gap_prefix(t, b, card, cost, n - 1);
        assert(cost.at(n - 1) == paid(t, b, card, n - 1));
    }
}

/// What a player pays for a card they can afford comes out of their purse,
/// never exceeds what the price asks beyond the card bonus in any gem color,
/// and includes exactly the jokers needed to cover what the bonus and the gem
/// tokens paid leave uncovered.
pub proof fn lemma_cost_for_pays(p: PlayerView, card: Card)
    requires
        p.cost_for(card) is Some,
    ensures
        p.tokens.covers(p.cost_for(card)->Some_0),
        p.cost_for(card)->Some_0.joker == gap(card, bonus(p.cards), p.cost_for(card)->Some_0, 5),
        forall|i: int|
            0 <= i < 5 ==> #[trigger] p.cost_for(card)->Some_0.at(i) <= wanted(bonus(p.cards), card, i),
{
    let t = p.tokens;
    let b = bonus(p.cards);
    let cost = p.cost_for(card)->Some_0;
    assert(cost.at(0) == paid(t, b, card, 0));
    assert(cost.at(1) == paid(t, b, card, 1));
    assert(cost.at(2) == paid(t, b, card, 2));
    assert(cost.at(3) == paid(t, b, card, 3));
    assert(cost.at(4) == paid(t, b, card, 4));
    lemma_gap_prefix(t, b, card, cost, 5);
    lemma_shortfall_monotone(t, b, card, 0, 5);
}


/// `refreshed`, applied to the rows below `k` only.
pub open spec fn refreshed_below(s: StateView, k: int) -> StateView {
    let n = s.available_cards.len();
    let fill = |i: int|
        1 <= i < n && i < k && s.available_cards[i].len() < s.cards_available_per_deck
            && s.decks[i].len() > 0;
    StateView {
        decks: Seq::new(
            s.decks.len(),
            |i: int|
                if fill(i) {
                    s.decks[i].drop_last()
                } else {
                    s.decks[i]
                },
        ),
        available_cards: Seq::new(
            n,
            |i: int|
                if fill(i) {
                    s.available_cards[i].push(s.decks[i].last())
                } else {
                    s.available_cards[i]
                },
        ),
        ..s
    }
}

proof fn lemma_move_top_card(decks: Seq<Seq<Card>>, rows: Seq<Seq<Card>>, k: int)
    requires
        0 <= k < decks.len(),
        0 <= k < rows.len(),
        decks[k].len() > 0,
    ensures
        rows_multiset(decks.update(k, decks[k].drop_last())).add(
            rows_multiset(rows.update(k, rows[k].push(decks[k].last()))),
        ) == rows_multiset(decks).add(rows_multiset(rows)),
{
    broadcast use vstd::multiset::group_multiset_axioms;
    broadcast use vstd::seq_lib::to_multiset_build;

    let d = decks[k];
    let x = d.last();
    let r = rows[k];
    lemma_rows_update(decks, k, d.drop_last());
    lemma_rows_update(rows, k, r.push(x));
    assert(d.drop_last().push(x) =~= d);
    assert(d.to_multiset() == d.drop_last().to_multiset().insert(x));
    assert(r.push(x).to_multiset() == r.to_multiset().insert(x));
    let d1 = rows_multiset(decks.update(k, d.drop_last()));
    let r1 = rows_multiset(rows.update(k, r.push(x)));
    assert forall|v: Card| #[trigger] d1.add(r1).count(v) == rows_multiset(decks).add(
        rows_multiset(rows),
    ).count(v) by {
        assert(d1.add(d.to_multiset()).count(v) == rows_multiset(decks).add(
            d.drop_last().to_multiset(),
        ).count(v));
        assert(r1.add(r.to_multiset()).count(v) == rows_multiset(rows).add(
            r.push(x).to_multiset(),
        ).count(v));
    }
    assert(d1.add(r1) =~= rows_multiset(decks).add(rows_multiset(rows)));
}

proof fn lemma_refreshed_below(s: StateView, k: int)
    requires
        0 <= k <= s.available_cards.len(),
        s.available_cards.len() <= 1 || s.available_cards.len() <= s.decks.len(),
    ensures
        rows_multiset(refreshed_below(s, k).decks).add(
            rows_multiset(refreshed_below(s, k).available_cards),
        ) == rows_multiset(s.decks).add(rows_multiset(s.available_cards)),
    decreases k,
{
    let n = s.available_cards.len();
    if k == 0 {
        assert(refreshed_below(s, k).decks =~= s.decks);
        assert(refreshed_below(s, k).available_cards =~= s.available_cards);
    } else {
        lemma_refreshed_below(s, k - 1);
        let prev = refreshed_below(s, k - 1);
        let cur = refreshed_below(s, k);
        let i = k - 1;
        if 1 <= i && s.available_cards[i].len() < s.cards_available_per_deck && s.decks[i].len() > 0 {
            assert(prev.decks[i] == s.decks[i]);
            assert(prev.available_cards[i] == s.available_cards[i]);
            assert(cur.decks =~= prev.decks.update(i, prev.decks[i].drop_last()));
            assert(cur.available_cards =~= prev.available_cards.update(
                i,
                prev.available_cards[i].push(prev.decks[i].last()),
            ));
            lemma_move_top_card(prev.decks, prev.available_cards, i);
        } else {
            assert(cur.decks =~= prev.decks);
            assert(cur.available_cards =~= prev.available_cards);
        }
    }
}

/// Refilling the face-up rows only moves cards from the decks to the rows:
/// the development cards in play are the same before and after.
pub proof fn lemma_refresh_conserves_cards(s: StateView)
    requires
        s.available_cards.len() <= 1 || s.available_cards.len() <= s.decks.len(),
    ensures
        cards_in_play(refreshed(s)) == cards_in_play(s),
        nobles_in_play(refreshed(s)) == nobles_in_play(s),
{
    broadcast use vstd::multiset::group_multiset_axioms;

    let n = s.available_cards.len() as int;
    lemma_refreshed_below(s, n);
    assert(refreshed_below(s, n).decks =~= refreshed(s).decks);
    assert(refreshed_below(s, n).available_cards =~= refreshed(s).available_cards);
    let r = refreshed(s);
    assert(rows_multiset(r.decks).add(rows_multiset(r.available_cards)) == rows_multiset(s.decks).add(
        rows_multiset(s.available_cards),
    ));
    assert(cards_in_play(r) =~= cards_in_play(s));
}

} // verus!
