//! Reading a human player's typed command: `t` and gem letters (k, b, g, r,
//! w) to take tokens, `b` row column to buy a face-up card, `r` row column to
//! reserve one, `u` index to buy a reserved card, `p` to pass. The human
//! plays the second seat (`adversary`).
use vstd::prelude::*;
use crate::cost::{Tokens, zero_tokens};
use crate::card::Card;
use crate::color::lemma_color_at_ord;
use crate::player::{PlayerView, bonus};
use crate::moves::Move;
use crate::state::{State, StateView};
use crate::movegen::{noble_indices, buy_fits, moves_fit, moves_spec};

verus! {

/// Why a command names no move.
#[derive(Debug, Clone, Copy, PartialEq, Eq, Structural)]
pub enum Refusal {
    /// A row or column number is missing.
    InvalidCommand,
    /// No card sits at the place named.
    InvalidCard,
    /// The player cannot pay for the card named.
    CannotAfford,
}

impl Refusal {
    /// The message shown for the refusal.
    pub fn message(&self) -> (s: &'static str)
        ensures
            s@ == refusal_message(*self),
    {
        match self {
            Refusal::InvalidCommand => "invalid command",
            Refusal::InvalidCard => "invalid card",
            Refusal::CannotAfford => "can't afford",
        }
    }
}

/// The message shown for a refusal.
pub open spec fn refusal_message(r: Refusal) -> Seq<char> {
    match r {
        Refusal::InvalidCommand => "invalid command"@,
        Refusal::InvalidCard => "invalid card"@,
        Refusal::CannotAfford => "can't afford"@,
    }
}

/// What a typed line asks for.
#[derive(Debug, Clone, Copy, PartialEq)]
pub enum Command {
    /// The move named, still to be checked against the moves available.
    Play(Move),
    /// The line does not start with a known command letter: ask again.
    Retry,
    /// The line names no move, for the reason given.
    Reject(Refusal),
}

/// `c` is one of the digits `1` to `n`.
pub open spec fn is_digit_upto(c: char, n: int) -> bool {
    49 <= (c as int) && (c as int) < 49 + n
}

/// The first of the digits `1` to `n` at or after position `from`, as a number
/// counted from zero, with the position after it; other characters are skipped.
pub open spec fn scan_digit(line: Seq<char>, from: int, n: int) -> Option<(int, int)>
    decreases line.len() - from,
{
    if from < 0 || from >= line.len() {
        None
    } else if is_digit_upto(line[from], n) {
        Some(((line[from] as int) - 49, from + 1))
    } else {
        scan_digit(line, from + 1, n)
    }
}

/// How many times `c` occurs in `line` between positions `from` and `to`.
pub open spec fn letter_count(line: Seq<char>, from: int, to: int, c: char) -> nat
    decreases to - from,
{
    if to <= from {
        0
    } else {
        letter_count(line, from, to - 1, c) + if line[to - 1] == c { 1nat } else { 0nat }
    }
}

/// The tokens named by the letters after the first character: `k` black,
/// `b` blue, `g` green, `r` red, `w` white; other characters are ignored.
pub open spec fn typed_tokens(line: Seq<char>) -> Tokens {
    let n = line.len() as int;
    Tokens {
        black: letter_count(line, 1, n, 'k') as u8,
        blue: letter_count(line, 1, n, 'b') as u8,
        green: letter_count(line, 1, n, 'g') as u8,
        red: letter_count(line, 1, n, 'r') as u8,
        white: letter_count(line, 1, n, 'w') as u8,
        joker: 0,
    }
}

/// The first noble that the bonus `b` attracts, if any.
pub open spec fn first_noble(b: Tokens, nobles: Seq<Card>) -> Option<u8> {
    let idx = noble_indices(b, nobles, nobles.len() as int);
    if idx.len() > 0 {
        Some(idx[0])
    } else {
        None
    }
}

/// Buying `card` for `p` with the first noble the purchase attracts, or the
/// refusal when `p` cannot pay.
pub open spec fn buy_command(
    p: PlayerView,
    nobles: Seq<Card>,
    card: Card,
    template: Move,
) -> Command {
    match p.cost_for(card) {
        None => Command::Reject(Refusal::CannotAfford),
        Some(cost) => {
            let b = bonus(p.cards);
            let after = b.with_at(card.color.ord(), (b.of(card.color) + 1) as u8);
            let noble = first_noble(after, nobles);
            match template {
                Move::Buy { index, deck, .. } => Command::Play(Move::Buy { index, deck, cost, noble }),
                Move::BuyReserved { index, .. } => Command::Play(
                    Move::BuyReserved { index, cost, noble },
                ),
                _ => Command::Play(template),
            }
        },
    }
}

/// What the typed `line` asks of the game `s`.
pub open spec fn command_spec(s: StateView, line: Seq<char>) -> Command {
    let p = s.adversary;
    if line.len() == 0 {
        Command::Retry
    } else if line[0] == 't' {
        Command::Play(Move::Take { tokens: typed_tokens(line), drop: zero_tokens() })
    } else if line[0] == 'b' || line[0] == 'r' {
        match scan_digit(line, 1, 3) {
            None => Command::Reject(Refusal::InvalidCommand),
            Some((d, after)) => match scan_digit(line, after, 4) {
                None => Command::Reject(Refusal::InvalidCommand),
                Some((i, _)) => {
                    let row = s.available_cards[d];
                    if i >= row.len() {
                        Command::Reject(Refusal::InvalidCard)
                    } else if line[0] == 'b' {
                        buy_command(
                            p,
                            s.nobles,
                            row[i],
                            Move::Buy { index: i as u8, deck: (d + 1) as usize, cost: zero_tokens(), noble: None },
                        )
                    } else {
                        Command::Play(
                            Move::Reserve {
                                index: i as u8,
                                deck: (d + 1) as usize,
                                drop: zero_tokens(),
                                joker: s.bank.joker > 0,
                            },
                        )
                    }
                },
            },
        }
    } else if line[0] == 'u' {
        match scan_digit(line, 1, 3) {
            None => Command::Reject(Refusal::InvalidCommand),
            Some((i, _)) => if i < p.reserved.len() {
                buy_command(
                    p,
                    s.nobles,
                    p.reserved[i],
                    Move::BuyReserved { index: i as u8, cost: zero_tokens(), noble: None },
                )
            } else {
                Command::Reject(Refusal::InvalidCard)
            },
        }
    } else if line[0] == 'p' {
        Command::Play(Move::Pass)
    } else {
        Command::Retry
    }
}

/// Reading the command stays within the machine integers and the rows of the game.
pub open spec fn command_fits(s: StateView, line: Seq<char>) -> bool {
    let n = line.len() as int;
    let p = s.adversary;
    &&& (line.len() > 0 && line[0] == 't') ==> {
        &&& letter_count(line, 1, n, 'k') <= u8::MAX
        &&& letter_count(line, 1, n, 'b') <= u8::MAX
        &&& letter_count(line, 1, n, 'g') <= u8::MAX
        &&& letter_count(line, 1, n, 'r') <= u8::MAX
        &&& letter_count(line, 1, n, 'w') <= u8::MAX
    }
    &&& (line.len() > 0 && (line[0] == 'b' || line[0] == 'r') && scan_digit(line, 1, 3) is Some)
        ==> scan_digit(line, 1, 3)->Some_0.0 < s.available_cards.len()
    &&& (line.len() > 0 && line[0] == 'b' && scan_digit(line, 1, 3) is Some && scan_digit(
        line,
        scan_digit(line, 1, 3)->Some_0.1,
        4,
    ) is Some) ==> {
        let d = scan_digit(line, 1, 3)->Some_0.0;
        let i = scan_digit(line, scan_digit(line, 1, 3)->Some_0.1, 4)->Some_0.0;
        i < s.available_cards[d].len() ==> buy_fits(p, s.available_cards[d][i])
    }
    &&& (line.len() > 0 && line[0] == 'u' && scan_digit(line, 1, 3) is Some) ==> {
        let i = scan_digit(line, 1, 3)->Some_0.0;
        i < p.reserved.len() ==> buy_fits(p, p.reserved[i])
    }
}

fn scan(line: &str, len: usize, from: usize, n: u32) -> (r: Option<(usize, usize)>)
    requires
        len == line@.len(),
        n <= 9,
    ensures
        r matches Some((d, a)) ==> scan_digit(line@, from as int, n as int) == Some((d as int, a as int))
            && d < n,
        r is None ==> scan_digit(line@, from as int, n as int) is None,
    decreases len - from,
{
    if from >= len {
        None
    } else {
        let c = line.get_char(from);
        let v = c as u32;
        if 49 <= v && v < 49 + n {
            Some(((v - 49) as usize, from + 1))
        } else {
            scan(line, len, from + 1, n)
        }
    }
}

proof fn lemma_letter_count_prefix(line: Seq<char>, from: int, i: int, to: int, c: char)
    requires
        from <= i <= to,
    ensures
        letter_count(line, from, i, c) <= letter_count(line, from, to, c),
    decreases to - i,
{
    if i < to {
        lemma_letter_count_prefix(line, from, i, to - 1, c);
    }
}

fn typed(line: &str, len: usize) -> (t: Tokens)
    requires
        len == line@.len(),
        len > 0,
        letter_count(line@, 1, len as int, 'k') <= u8::MAX,
        letter_count(line@, 1, len as int, 'b') <= u8::MAX,
        letter_count(line@, 1, len as int, 'g') <= u8::MAX,
        letter_count(line@, 1, len as int, 'r') <= u8::MAX,
        letter_count(line@, 1, len as int, 'w') <= u8::MAX,
    ensures
        t == typed_tokens(line@),
{
    let mut tokens = Tokens::empty();
    let mut i: usize = 1;
    while i < len
        invariant
            1 <= i <= len,
            len == line@.len(),
            letter_count(line@, 1, len as int, 'k') <= u8::MAX,
            letter_count(line@, 1, len as int, 'b') <= u8::MAX,
            letter_count(line@, 1, len as int, 'g') <= u8::MAX,
            letter_count(line@, 1, len as int, 'r') <= u8::MAX,
            letter_count(line@, 1, len as int, 'w') <= u8::MAX,
            tokens.black == letter_count(line@, 1, i as int, 'k'),
            tokens.blue == letter_count(line@, 1, i as int, 'b'),
            tokens.green == letter_count(line@, 1, i as int, 'g'),
            tokens.red == letter_count(line@, 1, i as int, 'r'),
            tokens.white == letter_count(line@, 1, i as int, 'w'),
            tokens.joker == 0,
        decreases len - i,
    {
        proof {
            lemma_letter_count_prefix(line@, 1, i + 1, len as int, 'k');
            lemma_letter_count_prefix(line@, 1, i + 1, len as int, 'b');
            lemma_letter_count_prefix(line@, 1, i + 1, len as int, 'g');
            lemma_letter_count_prefix(line@, 1, i + 1, len as int, 'r');
            lemma_letter_count_prefix(line@, 1, i + 1, len as int, 'w');
        }
        let c = line.get_char(i);
        if c == 'k' {
            tokens.black = tokens.black + 1;
        } else if c == 'b' {
            tokens.blue = tokens.blue + 1;
        } else if c == 'g' {
            tokens.green = tokens.green + 1;
        } else if c == 'r' {
            tokens.red = tokens.red + 1;
        } else if c == 'w' {
            tokens.white = tokens.white + 1;
        }
        i = i + 1;
    }
    tokens
}

fn first_attracted(b: &Tokens, nobles: &Vec<Card>) -> (r: Option<u8>)
    ensures
        r == first_noble(*b, nobles@),
{
    let mut j: usize = 0;
    while j < nobles.len()
        invariant
            j <= nobles@.len(),
            noble_indices(*b, nobles@, j as int).len() == 0,
        decreases nobles@.len() - j,
    {
        if b.can_buy(&nobles[j].cost) {
            proof {
                lemma_noble_indices_start(*b, nobles@, j as int, nobles@.len() as int);
            }
            return Some(j as u8);
        }
        j = j + 1;
    }
    None
}

proof fn lemma_noble_indices_start(b: Tokens, nobles: Seq<Card>, j: int, n: int)
    requires
        0 <= j < n <= nobles.len(),
        noble_indices(b, nobles, j).len() == 0,
        b.covers(nobles[j].cost),
    ensures
        noble_indices(b, nobles, n).len() > 0,
        noble_indices(b, nobles, n)[0] == j as u8,
    decreases n - j,
{
    if n == j + 1 {
        assert(noble_indices(b, nobles, n) =~= seq![j as u8]);
    } else {
        lemma_noble_indices_start(b, nobles, j, n - 1);
    }
}

fn buy(player: &crate::player::Player, nobles: &Vec<Card>, card: &Card, template: Move) -> (c: Command)
    requires
        buy_fits(player@, *card),
        template is Buy || template is BuyReserved,
    ensures
        c == buy_command(player@, nobles@, *card, template),
{
    match player.cost_for(card) {
        None => Command::Reject(Refusal::CannotAfford),
        Some(cost) => {
            let mut after = player.tokens_from_cards();
            proof {
                lemma_color_at_ord(card.color);
            }
            let v = after.get(card.color);
            after.set(card.color, v + 1);
            let noble = first_attracted(&after, nobles);
            match template {
                Move::Buy { index, deck, .. } => Command::Play(Move::Buy { index, deck, cost, noble }),
                Move::BuyReserved { index, .. } => Command::Play(
                    Move::BuyReserved { index, cost, noble },
                ),
                _ => Command::Play(template),
            }
        },
    }
}

impl State {
    /// What the typed `line` asks of this game, for the player in the second seat.
    pub fn interpret_command(&self, line: &str) -> (c: Command)
        requires
            command_fits(self@, line@),
        ensures
            c == command_spec(self@, line@),
    {
        let len = line.unicode_len();
        if len == 0 {
            return Command::Retry;
        }
        let first = line.get_char(0);
        if first == 't' {
            let tokens = typed(line, len);
            Command::Play(Move::Take { tokens: tokens, drop: Tokens::empty() })
        } else if first == 'b' || first == 'r' {
            match scan(line, len, 1, 3) {
                None => Command::Reject(Refusal::InvalidCommand),
                Some((d, after)) => match scan(line, len, after, 4) {
                    None => Command::Reject(Refusal::InvalidCommand),
                    Some((i, _)) => {
                        let row = &self.available_cards[d];
                        assert(self@.available_cards[d as int] == row@);
                        if i >= row.len() {
                            Command::Reject(Refusal::InvalidCard)
                        } else if first == 'b' {
                            buy(
                                &self.adversary,
                                &self.nobles,
                                &row[i],
                                Move::Buy { index: i as u8, deck: d + 1, cost: Tokens::empty(), noble: None },
                            )
                        } else {
                            Command::Play(
                                Move::Reserve {
                                    index: i as u8,
                                    deck: d + 1,
                                    drop: Tokens::empty(),
                                    joker: self.bank.joker > 0,
                                },
                            )
                        }
                    },
                },
            }
        } else if first == 'u' {
            match scan(line, len, 1, 3) {
                None => Command::Reject(Refusal::InvalidCommand),
                Some((i, _)) => {
                    if i < self.adversary.reserved.len() {
                        buy(
                            &self.adversary,
                            &self.nobles,
                            &self.adversary.reserved[i],
                            Move::BuyReserved { index: i as u8, cost: Tokens::empty(), noble: None },
                        )
                    } else {
                        Command::Reject(Refusal::InvalidCard)
                    }
                },
            }
        } else if first == 'p' {
            Command::Play(Move::Pass)
        } else {
            Command::Retry
        }
    }
}


/// What happens to the human player's turn after a typed line.
#[derive(Debug, Clone, Copy, PartialEq)]
pub enum TurnStep {
    /// Play this move; the turn is over.
    Play(Move),
    /// The line was not a command: ask again.
    AskAgain,
    /// The move named is not allowed now: say so and ask again.
    NotAllowed,
    /// The line names no move: say why; the turn ends without a move.
    GiveUp(Refusal),
}

/// The step a typed `line` leads to in the game `s`.
pub open spec fn turn_step_spec(s: StateView, line: Seq<char>) -> TurnStep {
    match command_spec(s, line) {
        Command::Retry => TurnStep::AskAgain,
        Command::Reject(r) => TurnStep::GiveUp(r),
        Command::Play(m) => if moves_spec(s).contains(m) {
            TurnStep::Play(m)
        } else {
            TurnStep::NotAllowed
        },
    }
}

/// Whether two moves are the same.
pub fn moves_equal(a: &Move, b: &Move) -> (r: bool)
    ensures
        r == (*a == *b),
{
    match (a, b) {
        (Move::Take { tokens: t1, drop: d1 }, Move::Take { tokens: t2, drop: d2 }) => *t1 == *t2
            && *d1 == *d2,
        (
            Move::Reserve { index: i1, deck: k1, drop: d1, joker: j1 },
            Move::Reserve { index: i2, deck: k2, drop: d2, joker: j2 },
        ) => *i1 == *i2 && *k1 == *k2 && *d1 == *d2 && *j1 == *j2,
        (
            Move::Buy { index: i1, deck: k1, cost: c1, noble: n1 },
            Move::Buy { index: i2, deck: k2, cost: c2, noble: n2 },
        ) => *i1 == *i2 && *k1 == *k2 && *c1 == *c2 && same_noble(n1, n2),
        (
            Move::BuyReserved { index: i1, cost: c1, noble: n1 },
            Move::BuyReserved { index: i2, cost: c2, noble: n2 },
        ) => *i1 == *i2 && *c1 == *c2 && same_noble(n1, n2),
        (Move::Pass, Move::Pass) => true,
        _ => false,
    }
}

fn same_noble(a: &Option<u8>, b: &Option<u8>) -> (r: bool)
    ensures
        r == (*a == *b),
{
    match (a, b) {
        (Some(x), Some(y)) => *x == *y,
        (None, None) => true,
        _ => false,
    }
}

impl State {
    /// Whether `m` is among the moves available to the player whose turn it is.
    pub fn offers(&self, m: &Move) -> (r: bool)
        requires
            moves_fit(self@),
        ensures
            r == moves_spec(self@).contains(*m),
    {
        let moves = self.generate_moves();
        let mut i: usize = 0;
        while i < moves.len()
            invariant
                i <= moves@.len(),
                moves@ == moves_spec(self@),
                forall|j: int| 0 <= j < i ==> moves@[j] != *m,
            decreases moves@.len() - i,
        {
            if moves_equal(&moves[i], m) {
                assert(moves@[i as int] == *m);
                return true;
            }
            i = i + 1;
        }
        false
    }

    /// The human player's turn after typing `line`: the move to play when the
    /// line names an available move, a new prompt when it names none or a move
    /// not available now, and the end of the turn without a move when it names
    /// a missing or unaffordable card.
    pub fn human_step(&self, line: &str) -> (step: TurnStep)
        requires
            command_fits(self@, line@),
            moves_fit(self@),
        ensures
            step == turn_step_spec(self@, line@),
    {
        match self.interpret_command(line) {
            Command::Retry => TurnStep::AskAgain,
            Command::Reject(r) => TurnStep::GiveUp(r),
            Command::Play(m) => if self.offers(&m) {
                TurnStep::Play(m)
            } else {
                TurnStep::NotAllowed
            },
        }
    }
}

} // verus!
