//! Drawing the board as text: both players, the bank, the nobles and the
//! face-down decks, each card as a small box.
use vstd::prelude::*;
use crate::color::{Color, color_at, code_of};
use crate::cost::Tokens;
use crate::card::Card;
use crate::player::{Player, PlayerView, color_count};
use crate::state::{State, StateView};

verus! {

/// The decimal digit `d` as text.
pub open spec fn digit(d: int) -> Seq<char> {
    if d == 0 {
        "0"@
    } else if d == 1 {
        "1"@
    } else if d == 2 {
        "2"@
    } else if d == 3 {
        "3"@
    } else if d == 4 {
        "4"@
    } else if d == 5 {
        "5"@
    } else if d == 6 {
        "6"@
    } else if d == 7 {
        "7"@
    } else if d == 8 {
        "8"@
    } else {
        "9"@
    }
}

/// `n` written in decimal.
pub open spec fn decimal(n: nat) -> Seq<char>
    decreases n,
{
    if n < 10 {
        digit(n as int)
    } else {
        decimal(n / 10) + digit((n % 10) as int)
    }
}

/// `s` written `n` times.
pub open spec fn repeat(s: Seq<char>, n: int) -> Seq<char>
    decreases n,
{
    if n <= 0 {
        seq![]
    } else {
        repeat(s, n - 1) + s
    }
}

/// How many of the gem colors from index `i` on have a positive amount.
pub open spec fn listed_count(cost: Tokens, i: int) -> int
    decreases 5 - i,
{
    if i >= 5 {
        0
    } else {
        listed_count(cost, i + 1) + if cost.at(i) > 0 { 1int } else { 0int }
    }
}

/// The gem colors from index `i` on with a positive amount, each as its code
/// (or its amount when `numbers`), each of the first `width - 1` of the whole
/// list followed by a space; `k` of the list come before index `i`.
pub open spec fn items(cost: Tokens, numbers: bool, width: int, i: int, k: int) -> Seq<char>
    decreases 5 - i,
{
    if i >= 5 {
        seq![]
    } else if cost.at(i) > 0 {
        (if numbers {
            decimal(cost.at(i) as nat)
        } else {
            code_of(color_at(i))
        }) + (if k + 1 < width {
            " "@
        } else {
            seq![]
        }) + items(cost, numbers, width, i + 1, k + 1)
    } else {
        items(cost, numbers, width, i + 1, k)
    }
}

/// Spaces that complete a card cell listing `k` colors.
pub open spec fn card_padding(k: int) -> Seq<char> {
    if k < 4 {
        " "@ + if k < 3 {
            "  "@ + if k < 2 {
                "  "@
            } else {
                seq![]
            }
        } else {
            seq![]
        }
    } else {
        seq![]
    }
}

/// Spaces that complete a noble cell listing `k` colors.
pub open spec fn noble_padding(k: int) -> Seq<char> {
    if k < 3 {
        " "@
    } else {
        seq![]
    }
}

/// The cell showing a card's price: codes, or amounts when `numbers`.
pub open spec fn card_cell(cost: Tokens, numbers: bool) -> Seq<char> {
    "┃"@ + items(cost, numbers, 4, 0, 0) + card_padding(listed_count(cost, 0)) + "┃ "@
}

/// The cell showing a noble's demand: codes, or amounts when `numbers`.
pub open spec fn noble_cell(cost: Tokens, numbers: bool) -> Seq<char> {
    "┃"@ + items(cost, numbers, 3, 0, 0) + noble_padding(listed_count(cost, 0)) + "┃ "@
}

/// The title cells (color and points) of the first `n` cards.
pub open spec fn title_cells(cards: Seq<Card>, n: int) -> Seq<char>
    decreases n,
{
    if n <= 0 {
        seq![]
    } else {
        title_cells(cards, n - 1) + "┃"@ + code_of(cards[n - 1].color) + "     "@ + decimal(
            cards[n - 1].points as nat,
        ) + "┃ "@
    }
}

/// The price cells of the first `n` cards.
pub open spec fn price_cells(cards: Seq<Card>, numbers: bool, n: int) -> Seq<char>
    decreases n,
{
    if n <= 0 {
        seq![]
    } else {
        price_cells(cards, numbers, n - 1) + card_cell(cards[n - 1].cost, numbers)
    }
}

/// A row of cards drawn as boxes, six lines; nothing for no cards.
pub open spec fn cards_block(cards: Seq<Card>) -> Seq<char> {
    let n = cards.len() as int;
    if n == 0 {
        seq![]
    } else {
        repeat("┏━━━━━━━┓ "@, n) + "\n"@ + title_cells(cards, n) + "\n"@ + repeat("┃       ┃ "@, n)
            + "\n"@ + price_cells(cards, false, n) + "\n"@ + price_cells(cards, true, n) + "\n"@
            + repeat("┗━━━━━━━┛ "@, n) + "\n"@
    }
}

/// The points cells of the first `n` nobles.
pub open spec fn noble_titles(nobles: Seq<Card>, n: int) -> Seq<char>
    decreases n,
{
    if n <= 0 {
        seq![]
    } else {
        noble_titles(nobles, n - 1) + "┃  "@ + decimal(nobles[n - 1].points as nat) + "  ┃ "@
    }
}

/// The demand cells of the first `n` nobles.
pub open spec fn demand_cells(nobles: Seq<Card>, numbers: bool, n: int) -> Seq<char>
    decreases n,
{
    if n <= 0 {
        seq![]
    } else {
        demand_cells(nobles, numbers, n - 1) + noble_cell(nobles[n - 1].cost, numbers)
    }
}

/// The nobles drawn as boxes under a heading; nothing for no nobles.
pub open spec fn nobles_block(nobles: Seq<Card>) -> Seq<char> {
    let n = nobles.len() as int;
    if n == 0 {
        seq![]
    } else {
        "\nNobles\n"@ + repeat("┏━━━━━┓ "@, n) + "\n"@ + noble_titles(nobles, n) + "\n"@
            + demand_cells(nobles, false, n) + "\n"@ + demand_cells(nobles, true, n) + "\n"@
            + repeat("┗━━━━━┛ "@, n) + "\n"@
    }
}

/// The line for color `i` of a player: tokens held, and cards of that color if any.
pub open spec fn color_line(p: PlayerView, i: int) -> Seq<char> {
    let count = color_count(p.cards, color_at(i));
    code_of(color_at(i)) + ": "@ + decimal(p.tokens.at(i) as nat) + (if count > 0 {
        " + "@ + decimal(count)
    } else {
        seq![]
    }) + "\n"@
}

/// The lines of the first `n` colors of a player.
pub open spec fn color_lines(p: PlayerView, n: int) -> Seq<char>
    decreases n,
{
    if n <= 0 {
        seq![]
    } else {
        color_lines(p, n - 1) + color_line(p, n - 1)
    }
}

/// A player: the reserved cards, if any, then a line per color.
pub open spec fn player_block(p: PlayerView) -> Seq<char> {
    (if p.reserved.len() > 0 {
        "Reserved\n"@ + cards_block(p.reserved)
    } else {
        seq![]
    }) + color_lines(p, 6)
}

/// The codes of the first `n` colors, each followed by a space.
pub open spec fn bank_codes(n: int) -> Seq<char>
    decreases n,
{
    if n <= 0 {
        seq![]
    } else {
        bank_codes(n - 1) + code_of(color_at(n - 1)) + " "@
    }
}

/// The bank amounts of the first `n` colors, each followed by a space.
pub open spec fn bank_amounts(bank: Tokens, n: int) -> Seq<char>
    decreases n,
{
    if n <= 0 {
        seq![]
    } else {
        bank_amounts(bank, n - 1) + decimal(bank.at(n - 1) as nat) + " "@
    }
}

/// The face-down decks `n - 1` down to `0`, each as a row of boxes.
pub open spec fn decks_block(decks: Seq<Seq<Card>>, n: int) -> Seq<char>
    decreases n,
{
    if n <= 0 {
        seq![]
    } else {
        cards_block(decks[n - 1]) + decks_block(decks, n - 1)
    }
}

/// The whole board: the second player (labelled "Player") with their score,
/// the first player (labelled "Adversary"), the bank, the nobles and the decks.
pub open spec fn board(s: StateView) -> Seq<char> {
    "Player: "@ + decimal(s.adversary.points()) + "\n"@ + player_block(s.adversary) + "\n"@
        + "Adversary: "@ + decimal(s.player.points()) + "\n"@ + player_block(s.player)
        + "\nBank\n"@ + bank_codes(6) + "\n"@ + bank_amounts(s.bank, 6) + "\n\n"@ + nobles_block(
        s.nobles,
    ) + "\n"@ + decks_block(s.decks, s.decks.len() as int)
}

fn digit_str(d: usize) -> (s: &'static str)
    requires
        d < 10,
    ensures
        s@ == digit(d as int),
{
    if d == 0 {
        "0"
    } else if d == 1 {
        "1"
    } else if d == 2 {
        "2"
    } else if d == 3 {
        "3"
    } else if d == 4 {
        "4"
    } else if d == 5 {
        "5"
    } else if d == 6 {
        "6"
    } else if d == 7 {
        "7"
    } else if d == 8 {
        "8"
    } else {
        "9"
    }
}

fn push_decimal(out: &mut String, n: usize)
    ensures
        final(out)@ == old(out)@ + decimal(n as nat),
    decreases n,
{
    if n < 10 {
        out.append(digit_str(n));
    } else {
        push_decimal(out, n / 10);
        out.append(digit_str(n % 10));
    }
    assert(out@ =~= old(out)@ + decimal(n as nat));
}


fn push_repeat(out: &mut String, piece: &str, n: usize)
    ensures
        final(out)@ == old(out)@ + repeat(piece@, n as int),
{
    let ghost start = old(out)@;
    let mut i: usize = 0;
    while i < n
        invariant
            i <= n,
            out@ == start + repeat(piece@, i as int),
        decreases n - i,
    {
        out.append(piece);
        assert(out@ =~= start + repeat(piece@, i + 1));
        i = i + 1;
    }
}

/// Writes the gem colors of a price that have a positive amount (codes, or
/// amounts when `numbers`); returns how many it wrote.
#[verifier::rlimit(30)]
fn push_items(out: &mut String, cost: &Tokens, numbers: bool, width: usize) -> (k: usize)
    requires
        width <= 4,
    ensures
        final(out)@ == old(out)@ + items(*cost, numbers, width as int, 0, 0),
        k == listed_count(*cost, 0),
{
    let ghost start = old(out)@;
    let mut count: usize = 0;
    let mut i: usize = 0;
    while i < 5
        invariant
            i <= 5,
            count <= i,
            count + listed_count(*cost, i as int) == listed_count(*cost, 0),
            start + items(*cost, numbers, width as int, 0, 0) == out@ + items(
                *cost,
                numbers,
                width as int,
                i as int,
                count as int,
            ),
        decreases 5 - i,
    {
        let color = Color::from_index(i);
        let ghost before = out@;
        if cost.get(color) > 0 {
            if numbers {
                push_decimal(out, cost.get(color) as usize);
            } else {
                out.append(color.code());
            }
            count = count + 1;
            if count < width {
                out.append(" ");
            }
            assert(before + items(*cost, numbers, width as int, i as int, count - 1) =~= out@
                + items(*cost, numbers, width as int, i + 1, count as int));
        }
        i = i + 1;
    }
    assert(out@ + items(*cost, numbers, width as int, 5, count as int) =~= out@);
    count
}

fn push_card_cell(out: &mut String, cost: &Tokens, numbers: bool)
    ensures
        final(out)@ == old(out)@ + card_cell(*cost, numbers),
{
    out.append("┃");
    let count = push_items(out, cost, numbers, 4);
    if count < 4 {
        out.append(" ");
        if count < 3 {
            out.append("  ");
            if count < 2 {
                out.append("  ");
            }
        }
    }
    out.append("┃ ");
    assert(out@ =~= old(out)@ + card_cell(*cost, numbers));
}

fn push_noble_cell(out: &mut String, cost: &Tokens, numbers: bool)
    ensures
        final(out)@ == old(out)@ + noble_cell(*cost, numbers),
{
    out.append("┃");
    let count = push_items(out, cost, numbers, 3);
    if count < 3 {
        out.append(" ");
    }
    out.append("┃ ");
    assert(out@ =~= old(out)@ + noble_cell(*cost, numbers));
}

fn push_cards_block(out: &mut String, cards: &Vec<Card>)
    ensures
        final(out)@ == old(out)@ + cards_block(cards@),
{
    let n = cards.len();
    if n == 0 {
        assert(out@ =~= old(out)@ + cards_block(cards@));
        return;
    }
    let ghost start = old(out)@;
    push_repeat(out, "┏━━━━━━━┓ ", n);
    out.append("\n");
    let ghost l1 = out@;
    let mut i: usize = 0;
    while i < n
        invariant
            i <= n,
            n == cards@.len(),
            out@ == l1 + title_cells(cards@, i as int),
        decreases n - i,
    {
        out.append("┃");
        out.append(cards[i].color.code());
        out.append("     ");
        push_decimal(out, cards[i].points as usize);
        out.append("┃ ");
        assert(out@ =~= l1 + title_cells(cards@, i + 1));
        i = i + 1;
    }
    out.append("\n");
    push_repeat(out, "┃       ┃ ", n);
    out.append("\n");
    let ghost l3 = out@;
    let mut i: usize = 0;
    while i < n
        invariant
            i <= n,
            n == cards@.len(),
            out@ == l3 + price_cells(cards@, false, i as int),
        decreases n - i,
    {
        push_card_cell(out, &cards[i].cost, false);
        assert(out@ =~= l3 + price_cells(cards@, false, i + 1));
        i = i + 1;
    }
    out.append("\n");
    let ghost l4 = out@;
    let mut i: usize = 0;
    while i < n
        invariant
            i <= n,
            n == cards@.len(),
            out@ == l4 + price_cells(cards@, true, i as int),
        decreases n - i,
    {
        push_card_cell(out, &cards[i].cost, true);
        assert(out@ =~= l4 + price_cells(cards@, true, i + 1));
        i = i + 1;
    }
    out.append("\n");
    push_repeat(out, "┗━━━━━━━┛ ", n);
    out.append("\n");
    assert(out@ =~= start + cards_block(cards@));
}

fn push_nobles_block(out: &mut String, nobles: &Vec<Card>)
    ensures
        final(out)@ == old(out)@ + nobles_block(nobles@),
{
    let n = nobles.len();
    if n == 0 {
        assert(out@ =~= old(out)@ + nobles_block(nobles@));
        return;
    }
    let ghost start = old(out)@;
    out.append("\nNobles\n");
    push_repeat(out, "┏━━━━━┓ ", n);
    out.append("\n");
    let ghost l1 = out@;
    let mut i: usize = 0;
    while i < n
        invariant
            i <= n,
            n == nobles@.len(),
            out@ == l1 + noble_titles(nobles@, i as int),
        decreases n - i,
    {
        out.append("┃  ");
        push_decimal(out, nobles[i].points as usize);
        out.append("  ┃ ");
        assert(out@ =~= l1 + noble_titles(nobles@, i + 1));
        i = i + 1;
    }
    out.append("\n");
    let ghost l2 = out@;
    let mut i: usize = 0;
    while i < n
        invariant
            i <= n,
            n == nobles@.len(),
            out@ == l2 + demand_cells(nobles@, false, i as int),
        decreases n - i,
    {
        push_noble_cell(out, &nobles[i].cost, false);
        assert(out@ =~= l2 + demand_cells(nobles@, false, i + 1));
        i = i + 1;
    }
    out.append("\n");
    let ghost l3 = out@;
    let mut i: usize = 0;
    while i < n
        invariant
            i <= n,
            n == nobles@.len(),
            out@ == l3 + demand_cells(nobles@, true, i as int),
        decreases n - i,
    {
        push_noble_cell(out, &nobles[i].cost, true);
        assert(out@ =~= l3 + demand_cells(nobles@, true, i + 1));
        i = i + 1;
    }
    out.append("\n");
    push_repeat(out, "┗━━━━━┛ ", n);
    out.append("\n");
    assert(out@ =~= start + nobles_block(nobles@));
}

/// Number of `cards` of color `color`.
fn count_color(cards: &Vec<Card>, color: Color) -> (n: usize)
    ensures
        n == color_count(cards@, color),
{
    let mut n: usize = 0;
    let mut i: usize = 0;
    while i < cards.len()
        invariant
            i <= cards@.len(),
            n == color_count(cards@.take(i as int), color),
            n <= i,
        decreases cards@.len() - i,
    {
        assert(cards@.take(i + 1).drop_last() =~= cards@.take(i as int));
        if cards[i].color == color {
            n = n + 1;
        }
        i = i + 1;
    }
    assert(cards@.take(i as int) =~= cards@);
    n
}

fn push_player_block(out: &mut String, player: &Player)
    ensures
        final(out)@ == old(out)@ + player_block(player@),
{
    let ghost start = old(out)@;
    if player.reserved.len() > 0 {
        out.append("Reserved\n");
        push_cards_block(out, &player.reserved);
    }
    let ghost mid = out@;
    assert(mid =~= start + (if player@.reserved.len() > 0 {
        "Reserved\n"@ + cards_block(player@.reserved)
    } else {
        seq![]
    }));
    let mut i: usize = 0;
    while i < 6
        invariant
            i <= 6,
            out@ == mid + color_lines(player@, i as int),
        decreases 6 - i,
    {
        let color = Color::from_index(i);
        out.append(color.code());
        out.append(": ");
        push_decimal(out, player.tokens.get(color) as usize);
        let count = count_color(&player.cards, color);
        if count > 0 {
            out.append(" + ");
            push_decimal(out, count);
        }
        out.append("\n");
        assert(out@ =~= mid + color_lines(player@, i + 1));
        i = i + 1;
    }
    assert(out@ =~= start + player_block(player@));
}

fn push_decks_block(out: &mut String, decks: &Vec<Vec<Card>>)
    ensures
        final(out)@ == old(out)@ + decks_block(
            crate::state::rows_view(decks@),
            decks@.len() as int,
        ),
{
    let ghost rv = crate::state::rows_view(decks@);
    let ghost start = old(out)@;
    let mut r: usize = decks.len();
    while r > 0
        invariant
            r <= decks@.len(),
            rv == crate::state::rows_view(decks@),
            start + decks_block(rv, decks@.len() as int) == out@ + decks_block(rv, r as int),
        decreases r,
    {
        let ghost before = out@;
        push_cards_block(out, &decks[r - 1]);
        assert(rv[r - 1] == decks@[r - 1]@);
        assert(before + decks_block(rv, r as int) =~= out@ + decks_block(rv, r - 1));
        r = r - 1;
    }
    assert(out@ + decks_block(rv, 0) =~= out@);
}

impl State {
    /// The board as text: the second player (labelled "Player") with their
    /// score, tokens and cards, the first player (labelled "Adversary"), the
    /// bank, the nobles and the face-down decks from the highest level down.
    pub fn render(&self) -> (text: String)
        requires
            self.player@.points() <= u8::MAX,
            self.adversary@.points() <= u8::MAX,
        ensures
            text@ == board(self@),
    {
        let mut out = String::new();
        out.append("Player: ");
        push_decimal(&mut out, self.adversary.score() as usize);
        out.append("\n");
        push_player_block(&mut out, &self.adversary);
        out.append("\n");
        out.append("Adversary: ");
        push_decimal(&mut out, self.player.score() as usize);
        out.append("\n");
        push_player_block(&mut out, &self.player);
        out.append("\nBank\n");
        let ghost b0 = out@;
        let mut i: usize = 0;
        while i < 6
            invariant
                i <= 6,
                out@ == b0 + bank_codes(i as int),
            decreases 6 - i,
        {
            out.append(Color::from_index(i).code());
            out.append(" ");
            assert(out@ =~= b0 + bank_codes(i + 1));
            i = i + 1;
        }
        out.append("\n");
        let ghost b1 = out@;
        let mut i: usize = 0;
        while i < 6
            invariant
                i <= 6,
                out@ == b1 + bank_amounts(self.bank, i as int),
            decreases 6 - i,
        {
            push_decimal(&mut out, self.bank.get(Color::from_index(i)) as usize);
            out.append(" ");
            assert(out@ =~= b1 + bank_amounts(self.bank, i + 1));
            i = i + 1;
        }
        out.append("\n\n");
        push_nobles_block(&mut out, &self.nobles);
        out.append("\n");
        push_decks_block(&mut out, &self.decks);
        assert(out@ =~= board(self@));
        out
    }
}

} // verus!
