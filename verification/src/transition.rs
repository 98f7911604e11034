//! Playing a move and taking it back.
use vstd::prelude::*;
use crate::cost::Tokens;
use crate::card::Card;
use crate::player::{Player, PlayerView};
use crate::moves::Move;
use crate::state::{State, StateView};

verus! {

/// The purse after taking one joker from the bank, when `joker` holds.
pub open spec fn with_joker(t: Tokens, joker: bool) -> Tokens {
    if joker {
        t.with_at(5, (t.joker + 1) as u8)
    } else {
        t
    }
}

/// The purse after giving one joker back, when `joker` holds.
pub open spec fn without_joker(t: Tokens, joker: bool) -> Tokens {
    if joker {
        t.with_at(5, (t.joker - 1) as u8)
    } else {
        t
    }
}

/// The named noble, if any, exists.
pub open spec fn noble_exists(nobles: Seq<Card>, noble: Option<u8>) -> bool {
    match noble {
        Some(ni) => ni < nobles.len(),
        None => true,
    }
}

/// The nobles left on the board after the named noble, if any, leaves.
pub open spec fn nobles_after_visit(nobles: Seq<Card>, noble: Option<u8>) -> Seq<Card> {
    match noble {
        Some(ni) => nobles.remove(ni as int),
        None => nobles,
    }
}

/// The player after the named noble, if any, visits.
pub open spec fn visited(p: PlayerView, nobles: Seq<Card>, noble: Option<u8>) -> PlayerView {
    match noble {
        Some(ni) => PlayerView { nobles: p.nobles.push(nobles[ni as int]), ..p },
        None => p,
    }
}

/// The nobles back on the board after the player's last noble returns to
/// position `ni`.
pub open spec fn nobles_after_return(nobles: Seq<Card>, p: PlayerView, noble: Option<u8>) -> Seq<Card> {
    match noble {
        Some(ni) => nobles.insert(ni as int, p.nobles.last()),
        None => nobles,
    }
}

/// The player after giving back the last noble.
pub open spec fn unvisited(p: PlayerView, noble: Option<u8>) -> PlayerView {
    match noble {
        Some(_) => PlayerView { nobles: p.nobles.drop_last(), ..p },
        None => p,
    }
}

/// The move can be played in `s` without running out of bounds or out of tokens.
pub open spec fn can_apply(s: StateView, m: Move) -> bool {
    let p = s.current();
    match m {
        Move::Take { tokens, drop } => {
            &&& p.tokens.can_add(tokens)
            &&& p.tokens.plus_spec(tokens).covers(drop)
            &&& s.bank.can_add(drop)
            &&& s.bank.plus_spec(drop).covers(tokens)
        },
        Move::Reserve { index, deck, drop, joker } => {
            &&& 1 <= deck <= s.available_cards.len()
            &&& index < s.available_cards[deck - 1].len()
            &&& joker ==> p.tokens.joker < u8::MAX && s.bank.joker >= 1
            &&& with_joker(p.tokens, joker).covers(drop)
        },
        Move::Buy { index, deck, cost, noble } => {
            &&& 1 <= deck <= s.available_cards.len()
            &&& p.tokens.covers(cost)
            &&& index < s.available_cards[deck - 1].len()
            &&& s.bank.can_add(cost)
            &&& noble_exists(s.nobles, noble)
        },
        Move::BuyReserved { index, cost, noble } => {
            &&& p.tokens.covers(cost)
            &&& index < p.reserved.len()
            &&& s.bank.can_add(cost)
            &&& noble_exists(s.nobles, noble)
        },
        Move::Pass => true,
    }
}

/// The state after the player whose turn it is plays `m`; the turn passes.
pub open spec fn apply_spec(s: StateView, m: Move) -> StateView {
    let p = s.current();
    let next = match m {
        Move::Take { tokens, drop } => StateView {
            bank: s.bank.plus_spec(drop).minus_spec(tokens),
            ..s.with_current(PlayerView { tokens: p.tokens.plus_spec(tokens).minus_spec(drop), ..p })
        },
        Move::Reserve { index, deck, drop, joker } => {
            let row = s.available_cards[deck - 1];
            StateView {
                available_cards: s.available_cards.update(deck - 1, row.remove(index as int)),
                bank: without_joker(s.bank, joker),
                ..s.with_current(
                    PlayerView {
                        tokens: with_joker(p.tokens, joker).minus_spec(drop),
                        reserved: p.reserved.push(row[index as int]),
                        ..p
                    },
                )
            }
        },
        Move::Buy { index, deck, cost, noble } => {
            let row = s.available_cards[deck - 1];
            let bought = PlayerView {
                tokens: p.tokens.minus_spec(cost),
                cards: p.cards.push(row[index as int]),
                ..p
            };
            StateView {
                available_cards: s.available_cards.update(deck - 1, row.remove(index as int)),
                bank: s.bank.plus_spec(cost),
                nobles: nobles_after_visit(s.nobles, noble),
                ..s.with_current(visited(bought, s.nobles, noble))
            }
        },
        Move::BuyReserved { index, cost, noble } => {
            let bought = PlayerView {
                tokens: p.tokens.minus_spec(cost),
                cards: p.cards.push(p.reserved[index as int]),
                reserved: p.reserved.remove(index as int),
                ..p
            };
            StateView {
                bank: s.bank.plus_spec(cost),
                nobles: nobles_after_visit(s.nobles, noble),
                ..s.with_current(visited(bought, s.nobles, noble))
            }
        },
        Move::Pass => s,
    };
    StateView { players_turn: !s.players_turn, ..next }
}

/// `m` can be taken back in `s` without running out of bounds or out of tokens.
pub open spec fn can_undo(s: StateView, m: Move) -> bool {
    let s0 = StateView { players_turn: !s.players_turn, ..s };
    let p = s0.current();
    match m {
        Move::Take { tokens, drop } => {
            &&& s0.bank.can_add(tokens)
            &&& s0.bank.plus_spec(tokens).covers(drop)
            &&& p.tokens.can_add(drop)
            &&& p.tokens.plus_spec(drop).covers(tokens)
        },
        Move::Reserve { index, deck, drop, joker } => {
            &&& p.tokens.can_add(drop)
            &&& joker ==> p.tokens.plus_spec(drop).joker >= 1 && s0.bank.joker < u8::MAX
            &&& 1 <= deck <= s0.available_cards.len()
            &&& p.reserved.len() > 0
            &&& index <= s0.available_cards[deck - 1].len()
        },
        Move::Buy { index, deck, cost, noble } => {
            &&& p.tokens.can_add(cost)
            &&& s0.bank.covers(cost)
            &&& 1 <= deck <= s0.available_cards.len()
            &&& p.cards.len() > 0
            &&& index <= s0.available_cards[deck - 1].len()
            &&& noble matches Some(ni) ==> p.nobles.len() > 0 && ni <= s0.nobles.len()
        },
        Move::BuyReserved { index, cost, noble } => {
            &&& p.tokens.can_add(cost)
            &&& s0.bank.covers(cost)
            &&& p.cards.len() > 0
            &&& index <= p.reserved.len()
            &&& noble matches Some(ni) ==> p.nobles.len() > 0 && ni <= s0.nobles.len()
        },
        Move::Pass => true,
    }
}

/// The state after taking back `m`, which the player who did not have the turn in
/// `s` had played.
pub open spec fn undo_spec(s: StateView, m: Move) -> StateView {
    let s0 = StateView { players_turn: !s.players_turn, ..s };
    let p = s0.current();
    match m {
        Move::Take { tokens, drop } => StateView {
            bank: s0.bank.plus_spec(tokens).minus_spec(drop),
            ..s0.with_current(PlayerView { tokens: p.tokens.plus_spec(drop).minus_spec(tokens), ..p })
        },
        Move::Reserve { index, deck, drop, joker } => {
            let row = s0.available_cards[deck - 1];
            StateView {
                available_cards: s0.available_cards.update(
                    deck - 1,
                    row.insert(index as int, p.reserved.last()),
                ),
                bank: with_joker(s0.bank, joker),
                ..s0.with_current(
                    PlayerView {
                        tokens: without_joker(p.tokens.plus_spec(drop), joker),
                        reserved: p.reserved.drop_last(),
                        ..p
                    },
                )
            }
        },
        Move::Buy { index, deck, cost, noble } => {
            let row = s0.available_cards[deck - 1];
            let returned = PlayerView {
                tokens: p.tokens.plus_spec(cost),
                cards: p.cards.drop_last(),
                ..p
            };
            StateView {
                available_cards: s0.available_cards.update(
                    deck - 1,
                    row.insert(index as int, p.cards.last()),
                ),
                bank: s0.bank.minus_spec(cost),
                nobles: nobles_after_return(s0.nobles, p, noble),
                ..s0.with_current(unvisited(returned, noble))
            }
        },
        Move::BuyReserved { index, cost, noble } => {
            let returned = PlayerView {
                tokens: p.tokens.plus_spec(cost),
                cards: p.cards.drop_last(),
                reserved: p.reserved.insert(index as int, p.cards.last()),
                ..p
            };
            StateView {
                bank: s0.bank.minus_spec(cost),
                nobles: nobles_after_return(s0.nobles, p, noble),
                ..s0.with_current(unvisited(returned, noble))
            }
        },
        Move::Pass => s0,
    }
}

fn take_apply(player: &mut Player, bank: &mut Tokens, tokens: &Tokens, drop: &Tokens)
    requires
        old(player).tokens.can_add(*tokens),
        old(player).tokens.plus_spec(*tokens).covers(*drop),
        old(bank).can_add(*drop),
        old(bank).plus_spec(*drop).covers(*tokens),
    ensures
        final(player)@ == (PlayerView {
            tokens: old(player).tokens.plus_spec(*tokens).minus_spec(*drop),
            ..old(player)@
        }),
        *final(bank) == old(bank).plus_spec(*drop).minus_spec(*tokens),
{
    player.tokens.add_assign(tokens);
    player.tokens.sub_assign(drop);
    bank.add_assign(drop);
    bank.sub_assign(tokens);
}

fn take_undo(player: &mut Player, bank: &mut Tokens, tokens: &Tokens, drop: &Tokens)
    requires
        old(bank).can_add(*tokens),
        old(bank).plus_spec(*tokens).covers(*drop),
        old(player).tokens.can_add(*drop),
        old(player).tokens.plus_spec(*drop).covers(*tokens),
    ensures
        final(player)@ == (PlayerView {
            tokens: old(player).tokens.plus_spec(*drop).minus_spec(*tokens),
            ..old(player)@
        }),
        *final(bank) == old(bank).plus_spec(*tokens).minus_spec(*drop),
{
    bank.add_assign(tokens);
    bank.sub_assign(drop);
    player.tokens.add_assign(drop);
    player.tokens.sub_assign(tokens);
}

fn reserve_apply(
    player: &mut Player,
    bank: &mut Tokens,
    cards: &mut Vec<Card>,
    index: u8,
    drop: &Tokens,
    joker: bool,
)
    requires
        index < old(cards)@.len(),
        joker ==> old(player).tokens.joker < u8::MAX && old(bank).joker >= 1,
        with_joker(old(player).tokens, joker).covers(*drop),
    ensures
        final(cards)@ == old(cards)@.remove(index as int),
        *final(bank) == without_joker(*old(bank), joker),
        final(player)@ == (PlayerView {
            tokens: with_joker(old(player).tokens, joker).minus_spec(*drop),
            reserved: old(player)@.reserved.push(old(cards)@[index as int]),
            ..old(player)@
        }),
{
    let card = cards.remove(index as usize);
    player.reserved.push(card);
    if joker {
        player.tokens.joker = player.tokens.joker + 1;
        bank.joker = bank.joker - 1;
    }
    player.tokens.sub_assign(drop);
}

fn reserve_undo(
    player: &mut Player,
    bank: &mut Tokens,
    cards: &mut Vec<Card>,
    index: u8,
    drop: &Tokens,
    joker: bool,
)
    requires
        old(player).tokens.can_add(*drop),
        joker ==> old(player).tokens.plus_spec(*drop).joker >= 1 && old(bank).joker < u8::MAX,
        old(player).reserved@.len() > 0,
        index <= old(cards)@.len(),
    ensures
        final(cards)@ == old(cards)@.insert(index as int, old(player)@.reserved.last()),
        *final(bank) == with_joker(*old(bank), joker),
        final(player)@ == (PlayerView {
            tokens: without_joker(old(player).tokens.plus_spec(*drop), joker),
            reserved: old(player)@.reserved.drop_last(),
            ..old(player)@
        }),
{
    player.tokens.add_assign(drop);
    if joker {
        player.tokens.joker = player.tokens.joker - 1;
        bank.joker = bank.joker + 1;
    }
    let card = player.reserved.pop().unwrap();
    cards.insert(index as usize, card);
}

fn noble_visit(player: &mut Player, nobles: &mut Vec<Card>, noble: Option<u8>)
    requires
        noble_exists(old(nobles)@, noble),
    ensures
        final(nobles)@ == nobles_after_visit(old(nobles)@, noble),
        final(player)@ == visited(old(player)@, old(nobles)@, noble),
{
    match noble {
        Some(noble_index) => {
            let n = nobles.remove(noble_index as usize);
            player.nobles.push(n);
        },
        None => {},
    }
}

fn noble_return(player: &mut Player, nobles: &mut Vec<Card>, noble: Option<u8>)
    requires
        noble matches Some(ni) ==> old(player)@.nobles.len() > 0 && ni <= old(nobles)@.len(),
    ensures
        final(nobles)@ == nobles_after_return(old(nobles)@, old(player)@, noble),
        final(player)@ == unvisited(old(player)@, noble),
{
    match noble {
        Some(noble_index) => {
            let n = player.nobles.pop().unwrap();
            nobles.insert(noble_index as usize, n);
        },
        None => {},
    }
}

fn buy_apply(
    player: &mut Player,
    bank: &mut Tokens,
    cards: &mut Vec<Card>,
    nobles: &mut Vec<Card>,
    index: u8,
    cost: &Tokens,
    noble: Option<u8>,
)
    requires
        old(player).tokens.covers(*cost),
        index < old(cards)@.len(),
        old(bank).can_add(*cost),
        noble_exists(old(nobles)@, noble),
    ensures
        final(cards)@ == old(cards)@.remove(index as int),
        *final(bank) == old(bank).plus_spec(*cost),
        final(nobles)@ == nobles_after_visit(old(nobles)@, noble),
        final(player)@ == visited(
            PlayerView {
                tokens: old(player).tokens.minus_spec(*cost),
                cards: old(player)@.cards.push(old(cards)@[index as int]),
                ..old(player)@
            },
            old(nobles)@,
            noble,
        ),
{
    player.tokens.sub_assign(cost);
    let card = cards.remove(index as usize);
    player.cards.push(card);
    bank.add_assign(cost);
    noble_visit(player, nobles, noble);
}

fn buy_undo(
    player: &mut Player,
    bank: &mut Tokens,
    cards: &mut Vec<Card>,
    nobles: &mut Vec<Card>,
    index: u8,
    cost: &Tokens,
    noble: Option<u8>,
)
    requires
        old(player).tokens.can_add(*cost),
        old(bank).covers(*cost),
        old(player)@.cards.len() > 0,
        index <= old(cards)@.len(),
        noble matches Some(ni) ==> old(player)@.nobles.len() > 0 && ni <= old(nobles)@.len(),
    ensures
        final(cards)@ == old(cards)@.insert(index as int, old(player)@.cards.last()),
        *final(bank) == old(bank).minus_spec(*cost),
        final(nobles)@ == nobles_after_return(old(nobles)@, old(player)@, noble),
        final(player)@ == unvisited(
            PlayerView {
                tokens: old(player).tokens.plus_spec(*cost),
                cards: old(player)@.cards.drop_last(),
                ..old(player)@
            },
            noble,
        ),
{
    player.tokens.add_assign(cost);
    bank.sub_assign(cost);
    let card = player.cards.pop().unwrap();
    cards.insert(index as usize, card);
    noble_return(player, nobles, noble);
}

fn buy_reserved_apply(
    player: &mut Player,
    bank: &mut Tokens,
    nobles: &mut Vec<Card>,
    index: u8,
    cost: &Tokens,
    noble: Option<u8>,
)
    requires
        old(player).tokens.covers(*cost),
        index < old(player)@.reserved.len(),
        old(bank).can_add(*cost),
        noble_exists(old(nobles)@, noble),
    ensures
        *final(bank) == old(bank).plus_spec(*cost),
        final(nobles)@ == nobles_after_visit(old(nobles)@, noble),
        final(player)@ == visited(
            PlayerView {
                tokens: old(player).tokens.minus_spec(*cost),
                cards: old(player)@.cards.push(old(player)@.reserved[index as int]),
                reserved: old(player)@.reserved.remove(index as int),
                ..old(player)@
            },
            old(nobles)@,
            noble,
        ),
{
    player.tokens.sub_assign(cost);
    let card = player.reserved.remove(index as usize);
    player.cards.push(card);
    bank.add_assign(cost);
    noble_visit(player, nobles, noble);
}

fn buy_reserved_undo(
    player: &mut Player,
    bank: &mut Tokens,
    nobles: &mut Vec<Card>,
    index: u8,
    cost: &Tokens,
    noble: Option<u8>,
)
    requires
        old(player).tokens.can_add(*cost),
        old(bank).covers(*cost),
        old(player)@.cards.len() > 0,
        index <= old(player)@.reserved.len(),
        noble matches Some(ni) ==> old(player)@.nobles.len() > 0 && ni <= old(nobles)@.len(),
    ensures
        *final(bank) == old(bank).minus_spec(*cost),
        final(nobles)@ == nobles_after_return(old(nobles)@, old(player)@, noble),
        final(player)@ == unvisited(
            PlayerView {
                tokens: old(player).tokens.plus_spec(*cost),
                cards: old(player)@.cards.drop_last(),
                reserved: old(player)@.reserved.insert(index as int, old(player)@.cards.last()),
                ..old(player)@
            },
            noble,
        ),
{
    player.tokens.add_assign(cost);
    bank.sub_assign(cost);
    let card = player.cards.pop().unwrap();
    player.reserved.insert(index as usize, card);
    noble_return(player, nobles, noble);
}

impl State {
    /// Plays `mov` for the player whose turn it is, then passes the turn.
    pub fn apply(&mut self, mov: &Move)
        requires
            can_apply(old(self)@, *mov),
        ensures
            final(self)@ == apply_spec(old(self)@, *mov),
    {
        match *mov {
            Move::Take { tokens, drop } => {
                if self.players_turn {
                    take_apply(&mut self.player, &mut self.bank, &tokens, &drop);
                } else {
                    take_apply(&mut self.adversary, &mut self.bank, &tokens, &drop);
                }
            },
            Move::Reserve { index, deck, drop, joker } => {
                if self.players_turn {
                    reserve_apply(
                        &mut self.player,
                        &mut self.bank,
                        &mut self.available_cards[deck - 1],
                        index,
                        &drop,
                        joker,
                    );
                } else {
                    reserve_apply(
                        &mut self.adversary,
                        &mut self.bank,
                        &mut self.available_cards[deck - 1],
                        index,
                        &drop,
                        joker,
                    );
                }
            },
            Move::Buy { index, deck, cost, noble } => {
                if self.players_turn {
                    buy_apply(
                        &mut self.player,
                        &mut self.bank,
                        &mut self.available_cards[deck - 1],
                        &mut self.nobles,
                        index,
                        &cost,
                        noble,
                    );
                } else {
                    buy_apply(
                        &mut self.adversary,
                        &mut self.bank,
                        &mut self.available_cards[deck - 1],
                        &mut self.nobles,
                        index,
                        &cost,
                        noble,
                    );
                }
            },
            Move::BuyReserved { index, cost, noble } => {
                if self.players_turn {
                    buy_reserved_apply(
                        &mut self.player,
                        &mut self.bank,
                        &mut self.nobles,
                        index,
                        &cost,
                        noble,
                    );
                } else {
                    buy_reserved_apply(
                        &mut self.adversary,
                        &mut self.bank,
                        &mut self.nobles,
                        index,
                        &cost,
                        noble,
                    );
                }
            },
            Move::Pass => {},
        }
        self.players_turn = !self.players_turn;
        assert(self@.available_cards =~= apply_spec(old(self)@, *mov).available_cards);
        assert(self@ =~= apply_spec(old(self)@, *mov));
    }

    /// Takes back `mov`, which the player who does not have the turn played last.
    pub fn undo(&mut self, mov: &Move)
        requires
            can_undo(old(self)@, *mov),
        ensures
            final(self)@ == undo_spec(old(self)@, *mov),
    {
        self.players_turn = !self.players_turn;
        match *mov {
            Move::Take { tokens, drop } => {
                if self.players_turn {
                    take_undo(&mut self.player, &mut self.bank, &tokens, &drop);
                } else {
                    take_undo(&mut self.adversary, &mut self.bank, &tokens, &drop);
                }
            },
            Move::Reserve { index, deck, drop, joker } => {
                if self.players_turn {
                    reserve_undo(
                        &mut self.player,
                        &mut self.bank,
                        &mut self.available_cards[deck - 1],
                        index,
                        &drop,
                        joker,
                    );
                } else {
                    reserve_undo(
                        &mut self.adversary,
                        &mut self.bank,
                        &mut self.available_cards[deck - 1],
                        index,
                        &drop,
                        joker,
                    );
                }
            },
            Move::Buy { index, deck, cost, noble } => {
                if self.players_turn {
                    buy_undo(
                        &mut self.player,
                        &mut self.bank,
                        &mut self.available_cards[deck - 1],
                        &mut self.nobles,
                        index,
                        &cost,
                        noble,
                    );
                } else {
                    buy_undo(
                        &mut self.adversary,
                        &mut self.bank,
                        &mut self.available_cards[deck - 1],
                        &mut self.nobles,
                        index,
                        &cost,
                        noble,
                    );
                }
            },
            Move::BuyReserved { index, cost, noble } => {
                if self.players_turn {
                    buy_reserved_undo(
                        &mut self.player,
                        &mut self.bank,
                        &mut self.nobles,
                        index,
                        &cost,
                        noble,
                    );
                } else {
                    buy_reserved_undo(
                        &mut self.adversary,
                        &mut self.bank,
                        &mut self.nobles,
                        index,
                        &cost,
                        noble,
                    );
                }
            },
            Move::Pass => {},
        }
        assert(self@.available_cards =~= undo_spec(old(self)@, *mov).available_cards);
        assert(self@ =~= undo_spec(old(self)@, *mov));
    }
}

} // verus!
