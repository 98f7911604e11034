//! Generation of the moves available to the player whose turn it is, the most
//! promising first so that alpha-beta pruning cuts early.
use vstd::prelude::*;
use crate::color::{Color, lemma_color_at_ord};
use crate::cost::{Tokens, zero_tokens, discard_options};
use crate::card::Card;
use crate::player::{Player, PlayerView, bonus, color_count, counts_fit, MAXIMUM_COINS, MAXIMUM_RESERVED};
use crate::moves::Move;
use crate::state::{State, StateView, MINIMUM_TO_TAKE_2_TOKENS};

verus! {

/// Indices, among the first `n` nobles, of those whose demand the bonus `b` meets.
pub open spec fn noble_indices(b: Tokens, nobles: Seq<Card>, n: int) -> Seq<u8>
    decreases n,
{
    if n <= 0 {
        seq![]
    } else {
        noble_indices(b, nobles, n - 1) + if b.covers(nobles[n - 1].cost) {
            seq![(n - 1) as u8]
        } else {
            seq![]
        }
    }
}

/// A buying move with its noble set to `noble`.
pub open spec fn with_noble(m: Move, noble: Option<u8>) -> Move {
    match m {
        Move::Buy { index, deck, cost, .. } => Move::Buy { index, deck, cost, noble },
        Move::BuyReserved { index, cost, .. } => Move::BuyReserved { index, cost, noble },
        _ => m,
    }
}

/// The variants of a buying move: one per noble the purchase would attract,
/// or a single one attracting no noble when there is none.
pub open spec fn card_moves(b: Tokens, nobles: Seq<Card>, color: Color, template: Move) -> Seq<Move> {
    let after = b.with_at(color.ord(), (b.of(color) + 1) as u8);
    let idx = noble_indices(after, nobles, nobles.len() as int);
    if idx.len() == 0 {
        seq![with_noble(template, None)]
    } else {
        Seq::new(idx.len(), |k: int| with_noble(template, Some(idx[k])))
    }
}

/// Buying the face-up card `card` at position `i` of its row, if affordable.
pub open spec fn card_buy(p: PlayerView, nobles: Seq<Card>, card: Card, i: int) -> Seq<Move> {
    match p.cost_for(card) {
        Some(cost) => card_moves(
            bonus(p.cards),
            nobles,
            card.color,
            Move::Buy { index: i as u8, deck: 3, cost, noble: None },
        ),
        None => seq![],
    }
}

/// Buying moves for the first `n` cards of a face-up row.
pub open spec fn row_buys(p: PlayerView, nobles: Seq<Card>, row: Seq<Card>, n: int) -> Seq<Move>
    decreases n,
{
    if n <= 0 {
        seq![]
    } else {
        row_buys(p, nobles, row, n - 1) + card_buy(p, nobles, row[n - 1], n - 1)
    }
}

/// Buying moves for the face-up rows `n - 1` down to `0`.
pub open spec fn rows_buys(p: PlayerView, nobles: Seq<Card>, rows: Seq<Seq<Card>>, n: int) -> Seq<Move>
    decreases n,
{
    if n <= 0 {
        seq![]
    } else {
        row_buys(p, nobles, rows[n - 1], rows[n - 1].len() as int) + rows_buys(p, nobles, rows, n - 1)
    }
}

/// Buying the reserved card at position `i`, if affordable.
pub open spec fn reserved_buy(p: PlayerView, nobles: Seq<Card>, i: int) -> Seq<Move> {
    match p.cost_for(p.reserved[i]) {
        Some(cost) => card_moves(
            bonus(p.cards),
            nobles,
            p.reserved[i].color,
            Move::BuyReserved { index: i as u8, cost, noble: None },
        ),
        None => seq![],
    }
}

/// Buying moves for the first `n` reserved cards.
pub open spec fn reserved_buys(p: PlayerView, nobles: Seq<Card>, n: int) -> Seq<Move>
    decreases n,
{
    if n <= 0 {
        seq![]
    } else {
        reserved_buys(p, nobles, n - 1) + reserved_buy(p, nobles, n - 1)
    }
}

/// How many tokens must be given back when holding `n` tokens.
pub open spec fn discard_index(n: int) -> int {
    if n > MAXIMUM_COINS {
        n - MAXIMUM_COINS
    } else {
        0
    }
}

/// The ways of giving back tokens after taking `k` more into the purse `t`.
pub open spec fn discards_after(t: Tokens, k: int) -> Seq<Tokens> {
    discard_options(t, discard_index(t.sum() + k))
}

/// No token color is both taken and given back.
pub open spec fn disjoint(tokens: Tokens, drop: Tokens) -> bool {
    forall|i: int| 0 <= i < 6 ==> #[trigger] tokens.at(i) == 0 || drop.at(i) == 0
}

/// Taking `tokens` with each of the first `n` ways of giving back, skipping
/// those that give back a color being taken.
pub open spec fn take_moves(tokens: Tokens, opts: Seq<Tokens>, n: int) -> Seq<Move>
    decreases n,
{
    if n <= 0 {
        seq![]
    } else {
        take_moves(tokens, opts, n - 1) + if disjoint(tokens, opts[n - 1]) {
            seq![Move::Take { tokens, drop: opts[n - 1] }]
        } else {
            seq![]
        }
    }
}

/// The moves taking `tokens`, for every useful way of giving back.
pub open spec fn takes(tokens: Tokens, opts: Seq<Tokens>) -> Seq<Move> {
    take_moves(tokens, opts, opts.len() as int)
}

/// Taking two tokens of gem `a`, allowed when the bank holds at least four.
pub open spec fn double_takes(bank: Tokens, t: Tokens, a: int) -> Seq<Move> {
    if bank.at(a) >= MINIMUM_TO_TAKE_2_TOKENS {
        takes(zero_tokens().with_at(a, 2), discards_after(t, 2))
    } else {
        seq![]
    }
}

/// Taking one token each of gems `a`, `b` and `c`, for `b < c < n`.
pub open spec fn triple_takes(bank: Tokens, t: Tokens, a: int, b: int, n: int) -> Seq<Move>
    decreases n - b,
{
    if n <= b + 1 {
        seq![]
    } else {
        triple_takes(bank, t, a, b, n - 1) + if bank.at(n - 1) >= 1 {
            takes(zero_tokens().with_at(a, 1).with_at(b, 1).with_at(n - 1, 1), discards_after(t, 3))
        } else {
            seq![]
        }
    }
}

/// Taking gems `a` and `b` together with a third gem, or just the two of them
/// when no third gem can be taken.
pub open spec fn pair_block(bank: Tokens, t: Tokens, a: int, b: int) -> Seq<Move> {
    if bank.at(b) < 1 {
        seq![]
    } else {
        let tr = triple_takes(bank, t, a, b, 5);
        tr + if tr.len() == 0 {
            takes(zero_tokens().with_at(a, 1).with_at(b, 1), discards_after(t, 2))
        } else {
            seq![]
        }
    }
}

/// `pair_block` for each second gem `b` with `a < b < n`.
pub open spec fn pair_takes(bank: Tokens, t: Tokens, a: int, n: int) -> Seq<Move>
    decreases n - a,
{
    if n <= a + 1 {
        seq![]
    } else {
        pair_takes(bank, t, a, n - 1) + pair_block(bank, t, a, n - 1)
    }
}

/// All taking moves whose first gem is `a`: two of it, it with other gems, or,
/// when none of these is possible, it alone.
pub open spec fn color_takes(bank: Tokens, t: Tokens, a: int) -> Seq<Move> {
    if bank.at(a) < 1 {
        seq![]
    } else {
        let body = double_takes(bank, t, a) + pair_takes(bank, t, a, 5);
        body + if body.len() == 0 {
            takes(zero_tokens().with_at(a, 1), discards_after(t, 1))
        } else {
            seq![]
        }
    }
}

/// Taking moves whose first gem is one of the first `n` gems.
pub open spec fn all_takes(bank: Tokens, t: Tokens, n: int) -> Seq<Move>
    decreases n,
{
    if n <= 0 {
        seq![]
    } else {
        all_takes(bank, t, n - 1) + color_takes(bank, t, n - 1)
    }
}

/// Reserving the card at position `i` of a row, for each way of giving back.
pub open spec fn reserve_card(drops: Seq<Tokens>, joker: bool, i: int) -> Seq<Move> {
    Seq::new(
        drops.len(),
        |k: int| Move::Reserve { index: i as u8, deck: 1, drop: drops[k], joker },
    )
}

/// Reserving moves for the first `n` cards of a row.
pub open spec fn row_reserves(drops: Seq<Tokens>, joker: bool, n: int) -> Seq<Move>
    decreases n,
{
    if n <= 0 {
        seq![]
    } else {
        row_reserves(drops, joker, n - 1) + reserve_card(drops, joker, n - 1)
    }
}

/// Reserving moves for the first `n` face-up rows.
pub open spec fn rows_reserves(drops: Seq<Tokens>, joker: bool, rows: Seq<Seq<Card>>, n: int) -> Seq<
    Move,
>
    decreases n,
{
    if n <= 0 {
        seq![]
    } else {
        rows_reserves(drops, joker, rows, n - 1) + row_reserves(drops, joker, rows[n - 1].len() as int)
    }
}

/// Reserving moves, possible while fewer than three cards are reserved; a
/// joker comes along when the bank has one, and a token must then be given
/// back by a player already holding ten.
pub open spec fn reserve_moves(s: StateView) -> Seq<Move> {
    let p = s.current();
    if p.reserved.len() < MAXIMUM_RESERVED {
        let joker = s.bank.joker > 0;
        let drops = if joker && p.tokens.sum() == MAXIMUM_COINS {
            discard_options(p.tokens, 1)
        } else {
            discard_options(p.tokens, 0)
        };
        rows_reserves(drops, joker, s.available_cards, s.available_cards.len() as int)
    } else {
        seq![]
    }
}

/// Every move available to the player whose turn it is: buying face-up cards
/// (higher rows first), buying reserved cards, taking tokens, reserving, and
/// passing when nothing else is possible.
pub open spec fn moves_spec(s: StateView) -> Seq<Move> {
    let p = s.current();
    let m = rows_buys(p, s.nobles, s.available_cards, s.available_cards.len() as int)
        + reserved_buys(p, s.nobles, p.reserved.len() as int) + all_takes(s.bank, p.tokens, 5)
        + reserve_moves(s);
    if m.len() == 0 {
        seq![Move::Pass]
    } else {
        m
    }
}

/// 1 when the bank holds gem `i`, else 0.
pub open spec fn has_gem(bank: Tokens, i: int) -> int {
    if bank.at(i) >= 1 {
        1
    } else {
        0
    }
}

/// How many gem colors the bank holds.
pub open spec fn gems_in_bank(bank: Tokens) -> int {
    has_gem(bank, 0) + has_gem(bank, 1) + has_gem(bank, 2) + has_gem(bank, 3) + has_gem(bank, 4)
}

/// The numbers of tokens to give back that move generation looks up stay
/// within the three that are prepared: it looks up `total + 3` when the bank
/// offers three gem colors, `total + 2` when it offers two or offers four of
/// one, and `total + 1` otherwise.
pub open spec fn discard_fits(bank: Tokens, total: int) -> bool {
    let g = gems_in_bank(bank);
    &&& g >= 3 ==> total <= 10
    &&& g == 2 ==> total <= 11
    &&& g == 1 ==> total <= 12
    &&& (g == 1 && exists|i: int| 0 <= i < 5 && #[trigger] bank.at(i) >= MINIMUM_TO_TAKE_2_TOKENS)
        ==> total <= 11
}

/// Pricing `card` stays within the machine integers, and so does the bonus
/// it would add when affordable.
pub open spec fn buy_fits(p: PlayerView, card: Card) -> bool {
    &&& p.cost_fits(card)
    &&& p.cost_for(card) is Some ==> color_count(p.cards, card.color) < u8::MAX
}

/// Move generation stays within the machine integers and the prepared discard lists.
pub open spec fn moves_fit(s: StateView) -> bool {
    let p = s.current();
    &&& counts_fit(p.cards)
    &&& p.tokens.sum() <= u8::MAX
    &&& discard_fits(s.bank, p.tokens.sum())
    &&& forall|r: int, i: int|
        0 <= r < s.available_cards.len() && 0 <= i < s.available_cards[r].len() ==> buy_fits(
            p,
            #[trigger] s.available_cards[r][i],
        )
    &&& forall|i: int| 0 <= i < p.reserved.len() ==> buy_fits(p, #[trigger] p.reserved[i])
}

fn push_card_with_nobles(
    tokens_from_cards: &Tokens,
    nobles: &Vec<Card>,
    moves: &mut Vec<Move>,
    color: Color,
    template: Move,
)
    requires
        tokens_from_cards.of(color) < u8::MAX,
    ensures
        final(moves)@ == old(moves)@ + card_moves(*tokens_from_cards, nobles@, color, template),
{
    let mut after = *tokens_from_cards;
    let v = after.get(color);
    after.set(color, v + 1);
    let ghost idx = noble_indices(after, nobles@, nobles@.len() as int);
    let ghost start = old(moves)@;
    let mut any = false;
    let mut j: usize = 0;
    while j < nobles.len()
        invariant
            j <= nobles@.len(),
            after == tokens_from_cards.with_at(color.ord(), (tokens_from_cards.of(color) + 1) as u8),
            any == (noble_indices(after, nobles@, j as int).len() > 0),
            moves@ == start + Seq::new(
                noble_indices(after, nobles@, j as int).len(),
                |k: int| with_noble(template, Some(noble_indices(after, nobles@, j as int)[k])),
            ),
        decreases nobles@.len() - j,
    {
        let ghost before = moves@;
        if after.can_buy(&nobles[j].cost) {
            let m = match template {
                Move::Buy { index, deck, cost, .. } => Move::Buy {
                    index,
                    deck,
                    cost,
                    noble: Some(j as u8),
                },
                Move::BuyReserved { index, cost, .. } => Move::BuyReserved {
                    index,
                    cost,
                    noble: Some(j as u8),
                },
                _ => template,
            };
            moves.push(m);
            any = true;
        }
        let ghost prev = noble_indices(after, nobles@, j as int);
        let ghost next = noble_indices(after, nobles@, j + 1);
        assert(moves@ =~= start + Seq::new(
            next.len(),
            |k: int| with_noble(template, Some(next[k])),
        ));
        j = j + 1;
    }
    if !any {
        let m = match template {
            Move::Buy { index, deck, cost, .. } => Move::Buy { index, deck, cost, noble: None },
            Move::BuyReserved { index, cost, .. } => Move::BuyReserved { index, cost, noble: None },
            _ => template,
        };
        moves.push(m);
        assert(moves@ =~= start + card_moves(*tokens_from_cards, nobles@, color, template));
    } else {
        assert(moves@ =~= start + card_moves(*tokens_from_cards, nobles@, color, template));
    }
}


fn push_row_buys(
    player: &Player,
    tokens_from_cards: &Tokens,
    nobles: &Vec<Card>,
    row: &Vec<Card>,
    moves: &mut Vec<Move>,
)
    requires
        *tokens_from_cards == bonus(player@.cards),
        forall|i: int| 0 <= i < row@.len() ==> buy_fits(player@, #[trigger] row@[i]),
    ensures
        final(moves)@ == old(moves)@ + row_buys(player@, nobles@, row@, row@.len() as int),
{
    let ghost start = old(moves)@;
    let ghost p = player@;
    let mut i: usize = 0;
    while i < row.len()
        invariant
            p == player@,
            i <= row@.len(),
            *tokens_from_cards == bonus(p.cards),
            forall|k: int| 0 <= k < row@.len() ==> buy_fits(p, #[trigger] row@[k]),
            moves@ == start + row_buys(p, nobles@, row@, i as int),
        decreases row@.len() - i,
    {
        let card = &row[i];
        assert(*card == row@[i as int]);
        assert(buy_fits(p, row@[i as int]));
        let ghost before = moves@;
        if let Some(cost) = player.cost_for(card) {
            proof {
                lemma_color_at_ord(card.color);
            }
            push_card_with_nobles(
                tokens_from_cards,
                nobles,
                moves,
                card.color,
                Move::Buy { index: i as u8, deck: 3, cost: cost, noble: None },
            );
        }
        assert(moves@ == before + card_buy(p, nobles@, row@[i as int], i as int));
        assert(row_buys(p, nobles@, row@, i + 1) == row_buys(p, nobles@, row@, i as int)
            + card_buy(p, nobles@, row@[i as int], i as int));
        assert(moves@ =~= start + row_buys(p, nobles@, row@, i + 1));
        i = i + 1;
    }
}

fn push_buys(
    player: &Player,
    tokens_from_cards: &Tokens,
    nobles: &Vec<Card>,
    rows: &Vec<Vec<Card>>,
    moves: &mut Vec<Move>,
)
    requires
        *tokens_from_cards == bonus(player@.cards),
        forall|r: int, i: int|
            0 <= r < rows@.len() && 0 <= i < rows@[r]@.len() ==> buy_fits(
                player@,
                #[trigger] rows@[r]@[i],
            ),
    ensures
        final(moves)@ == old(moves)@ + rows_buys(
            player@,
            nobles@,
            crate::state::rows_view(rows@),
            rows@.len() as int,
        ),
{
    let ghost rv = crate::state::rows_view(rows@);
    let ghost start = old(moves)@;
    let mut r: usize = rows.len();
    while r > 0
        invariant
            r <= rows@.len(),
            rv == crate::state::rows_view(rows@),
            *tokens_from_cards == bonus(player@.cards),
            forall|r: int, i: int|
                0 <= r < rows@.len() && 0 <= i < rows@[r]@.len() ==> buy_fits(
                    player@,
                    #[trigger] rows@[r]@[i],
                ),
            start + rows_buys(player@, nobles@, rv, rows@.len() as int) == moves@ + rows_buys(
                player@,
                nobles@,
                rv,
                r as int,
            ),
        decreases r,
    {
        let ghost before = moves@;
        let row = &rows[r - 1];
        assert(forall|i: int| 0 <= i < row@.len() ==> buy_fits(player@, #[trigger] row@[i])) by {
            assert forall|i: int| 0 <= i < row@.len() implies buy_fits(player@, #[trigger] row@[i]) by {
                assert(buy_fits(player@, rows@[r - 1]@[i]));
            }
        }
        push_row_buys(player, tokens_from_cards, nobles, row, moves);
        assert(rv[r - 1] == row@);
        assert(before + rows_buys(player@, nobles@, rv, r as int) =~= moves@ + rows_buys(
            player@,
            nobles@,
            rv,
            r - 1,
        ));
        r = r - 1;
    }
    assert(moves@ + rows_buys(player@, nobles@, rv, 0) =~= moves@);
}

fn push_reserved_buys(
    player: &Player,
    tokens_from_cards: &Tokens,
    nobles: &Vec<Card>,
    moves: &mut Vec<Move>,
)
    requires
        *tokens_from_cards == bonus(player@.cards),
        forall|i: int| 0 <= i < player@.reserved.len() ==> buy_fits(player@, #[trigger] player@.reserved[i]),
    ensures
        final(moves)@ == old(moves)@ + reserved_buys(player@, nobles@, player@.reserved.len() as int),
{
    let ghost start = old(moves)@;
    let ghost p = player@;
    let mut i: usize = 0;
    while i < player.reserved.len()
        invariant
            p == player@,
            i <= p.reserved.len(),
            *tokens_from_cards == bonus(p.cards),
            forall|k: int| 0 <= k < p.reserved.len() ==> buy_fits(p, #[trigger] p.reserved[k]),
            moves@ == start + reserved_buys(p, nobles@, i as int),
        decreases p.reserved.len() - i,
    {
        let card = &player.reserved[i];
        assert(*card == p.reserved[i as int]);
        assert(buy_fits(p, p.reserved[i as int]));
        let ghost before = moves@;
        if let Some(cost) = player.cost_for(card) {
            proof {
                lemma_color_at_ord(card.color);
            }
            push_card_with_nobles(
                tokens_from_cards,
                nobles,
                moves,
                card.color,
                Move::BuyReserved { index: i as u8, cost: cost, noble: None },
            );
        }
        assert(moves@ == before + reserved_buy(p, nobles@, i as int));
        assert(reserved_buys(p, nobles@, i + 1) == reserved_buys(p, nobles@, i as int)
            + reserved_buy(p, nobles@, i as int));
        assert(moves@ =~= start + reserved_buys(p, nobles@, i + 1));
        i = i + 1;
    }
}

/// Pushes a `Take` of `tokens` for each option that gives back none of the
/// colors taken; tells whether any was pushed.
fn push_take_options(tokens: Tokens, options: &Vec<Tokens>, moves: &mut Vec<Move>) -> (any: bool)
    ensures
        final(moves)@ == old(moves)@ + takes(tokens, options@),
        any == (takes(tokens, options@).len() > 0),
{
    let ghost start = old(moves)@;
    let mut any = false;
    let mut j: usize = 0;
    while j < options.len()
        invariant
            j <= options@.len(),
            moves@ == start + take_moves(tokens, options@, j as int),
            any == (take_moves(tokens, options@, j as int).len() > 0),
        decreases options@.len() - j,
    {
        let drop = options[j];
        let clash = (tokens.black > 0 && drop.black > 0) || (tokens.blue > 0 && drop.blue > 0)
            || (tokens.green > 0 && drop.green > 0) || (tokens.red > 0 && drop.red > 0)
            || (tokens.white > 0 && drop.white > 0) || (tokens.joker > 0 && drop.joker > 0);
        if !clash {
            assert(disjoint(tokens, drop));
            moves.push(Move::Take { tokens: tokens, drop: drop });
            any = true;
        } else {
            assert(!disjoint(tokens, drop)) by {
                if tokens.black > 0 && drop.black > 0 {
                    assert(!(tokens.at(0) == 0 || drop.at(0) == 0));
                } else if tokens.blue > 0 && drop.blue > 0 {
                    assert(!(tokens.at(1) == 0 || drop.at(1) == 0));
                } else if tokens.green > 0 && drop.green > 0 {
                    assert(!(tokens.at(2) == 0 || drop.at(2) == 0));
                } else if tokens.red > 0 && drop.red > 0 {
                    assert(!(tokens.at(3) == 0 || drop.at(3) == 0));
                } else if tokens.white > 0 && drop.white > 0 {
                    assert(!(tokens.at(4) == 0 || drop.at(4) == 0));
                } else {
                    assert(!(tokens.at(5) == 0 || drop.at(5) == 0));
                }
            }
        }
        assert(moves@ =~= start + take_moves(tokens, options@, j + 1));
        j = j + 1;
    }
    any
}


proof fn lemma_one_gem(bank: Tokens, a: int)
    requires
        0 <= a < 5,
        bank.at(a) >= 1,
    ensures
        gems_in_bank(bank) >= 1,
{
}

proof fn lemma_two_gems(bank: Tokens, a: int, b: int)
    requires
        0 <= a < b < 5,
        bank.at(a) >= 1,
        bank.at(b) >= 1,
    ensures
        gems_in_bank(bank) >= 2,
{
}

proof fn lemma_three_gems(bank: Tokens, a: int, b: int, c: int)
    requires
        0 <= a < b < c < 5,
        bank.at(a) >= 1,
        bank.at(b) >= 1,
        bank.at(c) >= 1,
    ensures
        gems_in_bank(bank) >= 3,
{
}

/// The prepared discard lists: entry `k` holds the ways of giving back `k` tokens.
pub open spec fn prepared(options: Seq<Vec<Tokens>>, purse: Tokens) -> bool {
    &&& options.len() == 4
    &&& forall|k: int| 0 <= k < 4 ==> #[trigger] options[k]@ == discard_options(purse, k)
}

fn push_pair_block(
    bank: &Tokens,
    purse: &Tokens,
    options: &Vec<Vec<Tokens>>,
    total: u8,
    a: usize,
    b: usize,
    moves: &mut Vec<Move>,
) -> (any: bool)
    requires
        a < b < 5,
        bank.at(a as int) >= 1,
        total == purse.sum(),
        prepared(options@, *purse),
        discard_fits(*bank, total as int),
    ensures
        final(moves)@ == old(moves)@ + pair_block(*bank, *purse, a as int, b as int),
        any == (pair_block(*bank, *purse, a as int, b as int).len() > 0),
{
    let color1 = Color::from_index(a);
    let color2 = Color::from_index(b);
    if bank.get(color2) < 1 {
        assert(old(moves)@ + pair_block(*bank, *purse, a as int, b as int) =~= moves@);
        return false;
    }
    let ghost start = old(moves)@;
    let mut any2 = false;
    let mut c: usize = b + 1;
    while c < 5
        invariant
            a < b < c <= 5,
            color1.ord() == a,
            color2.ord() == b,
            bank.at(a as int) >= 1,
            bank.at(b as int) >= 1,
            total == purse.sum(),
            prepared(options@, *purse),
            discard_fits(*bank, total as int),
            moves@ == start + triple_takes(*bank, *purse, a as int, b as int, c as int),
            any2 == (triple_takes(*bank, *purse, a as int, b as int, c as int).len() > 0),
        decreases 5 - c,
    {
        let color3 = Color::from_index(c);
        if bank.get(color3) >= 1 {
            let mut tokens = Tokens::empty();
            tokens.set(color1, 1);
            tokens.set(color2, 1);
            tokens.set(color3, 1);
            proof {
                lemma_three_gems(*bank, a as int, b as int, c as int);
            }
            let discard = (total + 3).saturating_sub(MAXIMUM_COINS);
            let pushed = push_take_options(tokens, &options[discard as usize], moves);
            any2 = any2 || pushed;
        }
        assert(moves@ =~= start + triple_takes(*bank, *purse, a as int, b as int, c + 1));
        c = c + 1;
    }
    let ghost tr = triple_takes(*bank, *purse, a as int, b as int, 5);
    let mut any = any2;
    if !any2 {
        let mut tokens = Tokens::empty();
        tokens.set(color1, 1);
        tokens.set(color2, 1);
        proof {
            lemma_two_gems(*bank, a as int, b as int);
        }
        let discard = (total + 2).saturating_sub(MAXIMUM_COINS);
        let pushed = push_take_options(tokens, &options[discard as usize], moves);
        any = pushed;
    }
    assert(moves@ =~= start + pair_block(*bank, *purse, a as int, b as int));
    any
}

fn push_color_takes(
    bank: &Tokens,
    purse: &Tokens,
    options: &Vec<Vec<Tokens>>,
    total: u8,
    a: usize,
    moves: &mut Vec<Move>,
)
    requires
        a < 5,
        bank.at(a as int) >= 1,
        total == purse.sum(),
        prepared(options@, *purse),
        discard_fits(*bank, total as int),
    ensures
        final(moves)@ == old(moves)@ + color_takes(*bank, *purse, a as int),
{
    let ghost start = old(moves)@;
    let color1 = Color::from_index(a);
    proof {
        lemma_one_gem(*bank, a as int);
    }
    let mut any = false;
    if bank.get(color1) >= MINIMUM_TO_TAKE_2_TOKENS {
        let mut tokens = Tokens::empty();
        tokens.set(color1, 2);
        assert(bank.at(a as int) >= MINIMUM_TO_TAKE_2_TOKENS);
        let discard = (total + 2).saturating_sub(MAXIMUM_COINS);
        any = push_take_options(tokens, &options[discard as usize], moves);
    }
    assert(moves@ =~= start + double_takes(*bank, *purse, a as int));
    let ghost mid = moves@;
    let mut b: usize = a + 1;
    while b < 5
        invariant
            a < b <= 5,
            color1.ord() == a,
            bank.at(a as int) >= 1,
            total == purse.sum(),
            prepared(options@, *purse),
            discard_fits(*bank, total as int),
            mid == start + double_takes(*bank, *purse, a as int),
            moves@ == mid + pair_takes(*bank, *purse, a as int, b as int),
            any == (double_takes(*bank, *purse, a as int).len() > 0 || pair_takes(
                *bank,
                *purse,
                a as int,
                b as int,
            ).len() > 0),
        decreases 5 - b,
    {
        let pushed = push_pair_block(bank, purse, options, total, a, b, moves);
        any = any || pushed;
        assert(moves@ =~= mid + pair_takes(*bank, *purse, a as int, b + 1));
        b = b + 1;
    }
    let ghost body = double_takes(*bank, *purse, a as int) + pair_takes(*bank, *purse, a as int, 5);
    assert(moves@ =~= start + body);
    if !any {
        let tokens = Tokens::one(color1);
        let discard = (total + 1).saturating_sub(MAXIMUM_COINS);
        push_take_options(tokens, &options[discard as usize], moves);
    }
    assert(moves@ =~= start + color_takes(*bank, *purse, a as int));
}

fn push_takes(
    bank: &Tokens,
    purse: &Tokens,
    options: &Vec<Vec<Tokens>>,
    total: u8,
    moves: &mut Vec<Move>,
)
    requires
        total == purse.sum(),
        prepared(options@, *purse),
        discard_fits(*bank, total as int),
    ensures
        final(moves)@ == old(moves)@ + all_takes(*bank, *purse, 5),
{
    let ghost start = old(moves)@;
    let mut a: usize = 0;
    while a < 5
        invariant
            a <= 5,
            total == purse.sum(),
            prepared(options@, *purse),
            discard_fits(*bank, total as int),
            moves@ == start + all_takes(*bank, *purse, a as int),
        decreases 5 - a,
    {
        let color1 = Color::from_index(a);
        if bank.get(color1) >= 1 {
            push_color_takes(bank, purse, options, total, a, moves);
        }
        assert(moves@ =~= start + all_takes(*bank, *purse, a + 1));
        a = a + 1;
    }
}

fn push_reserves(rows: &Vec<Vec<Card>>, drops: &Vec<Tokens>, joker: bool, moves: &mut Vec<Move>)
    ensures
        final(moves)@ == old(moves)@ + rows_reserves(
            drops@,
            joker,
            crate::state::rows_view(rows@),
            rows@.len() as int,
        ),
{
    let ghost rv = crate::state::rows_view(rows@);
    let ghost start = old(moves)@;
    let mut r: usize = 0;
    while r < rows.len()
        invariant
            r <= rows@.len(),
            rv == crate::state::rows_view(rows@),
            moves@ == start + rows_reserves(drops@, joker, rv, r as int),
        decreases rows@.len() - r,
    {
        let n = rows[r].len();
        let ghost row_start = moves@;
        let mut i: usize = 0;
        while i < n
            invariant
                i <= n,
                moves@ == row_start + row_reserves(drops@, joker, i as int),
            decreases n - i,
        {
            let ghost card_start = moves@;
            let mut k: usize = 0;
            while k < drops.len()
                invariant
                    k <= drops@.len(),
                    moves@ == card_start + reserve_card(drops@, joker, i as int).take(k as int),
                decreases drops@.len() - k,
            {
                moves.push(Move::Reserve { index: i as u8, deck: 1, joker: joker, drop: drops[k] });
                assert(moves@ =~= card_start + reserve_card(drops@, joker, i as int).take(k + 1));
                k = k + 1;
            }
            assert(reserve_card(drops@, joker, i as int).take(k as int) =~= reserve_card(
                drops@,
                joker,
                i as int,
            ));
            assert(moves@ =~= row_start + row_reserves(drops@, joker, i + 1));
            i = i + 1;
        }
        assert(rv[r as int].len() == n);
        assert(moves@ =~= start + rows_reserves(drops@, joker, rv, r + 1));
        r = r + 1;
    }
}

impl State {
    /// Every move available to the player whose turn it is: buying face-up
    /// cards from the highest row down, buying reserved cards, taking tokens,
    /// reserving face-up cards, or passing when nothing else is possible.
    pub fn generate_moves(&self) -> (moves: Vec<Move>)
        requires
            moves_fit(self@),
        ensures
            moves@ == moves_spec(self@),
    {
        let mut moves: Vec<Move> = Vec::new();
        let player: &Player = if self.players_turn {
            &self.player
        } else {
            &self.adversary
        };
        assert(player@ == self@.current());
        let tokens_from_cards = player.tokens_from_cards();
        assert forall|r: int, i: int|
            0 <= r < self.available_cards@.len() && 0 <= i < self.available_cards@[r]@.len()
            implies buy_fits(player@, #[trigger] self.available_cards@[r]@[i]) by {
            assert(self@.available_cards[r] == self.available_cards@[r]@);
            assert(buy_fits(self@.current(), self@.available_cards[r][i]));
        }
        push_buys(player, &tokens_from_cards, &self.nobles, &self.available_cards, &mut moves);
        push_reserved_buys(player, &tokens_from_cards, &self.nobles, &mut moves);
        let discard_options = player.tokens.discard_permutations();
        let total = player.tokens.total();
        push_takes(&self.bank, &player.tokens, &discard_options, total, &mut moves);
        if player.reserved.len() < MAXIMUM_RESERVED {
            let joker = self.bank.joker > 0;
            let drop_possibilities: &Vec<Tokens> = if joker && total == MAXIMUM_COINS {
                &discard_options[1]
            } else {
                &discard_options[0]
            };
            push_reserves(&self.available_cards, drop_possibilities, joker, &mut moves);
        }
        if moves.len() == 0 {
            moves.push(Move::Pass);
        }
        moves
    }
}

} // verus!
