use splendimax::card::{create_card, Card};
use splendimax::color::Color;
use splendimax::cost::Tokens;
use splendimax::moves::Move;
use splendimax::player::Player;
use splendimax::records::{cards_of_level, parse_color, sort_into_decks, CardRecord};
use splendimax::state::State;

fn gems(black: u8, blue: u8, green: u8, red: u8, white: u8, joker: u8) -> Tokens {
    Tokens { black, blue, green, red, white, joker }
}

fn record(level: u8, color: &str, pv: u8, black: u8) -> CardRecord {
    CardRecord { level, color: color.to_string(), pv, black, blue: 1, green: 0, red: 0, white: 0 }
}

fn sample_records() -> Vec<CardRecord> {
    let colors = ["Black", "Blue", "Green", "Red", "White"];
    let mut rs = Vec::new();
    for level in 0..4u8 {
        for i in 0..6u8 {
            rs.push(record(level, colors[(i % 5) as usize], level, i));
        }
    }
    rs
}

fn empty_state() -> State {
    State {
        decks: vec![Vec::new(), Vec::new(), Vec::new()],
        available_cards: vec![Vec::new(), Vec::new(), Vec::new()],
        bank: Tokens::start(2),
        player: Player::new(),
        adversary: Player::new(),
        nobles: Vec::new(),
        players_turn: true,
        cards_available_per_deck: 4,
    }
}

fn same(a: &State, b: &State) -> bool {
    a == b
}

#[test]
fn generate_possible_moves() {
    let records = sample_records();
    let state = State::new(2, &records);
    let moves = state.generate_moves();
    println!("{:?}", moves);
    assert!(!moves.is_empty());
}

#[test]
fn new_game_deals_four_face_up_cards_per_level() {
    let records = sample_records();
    let state = State::new(2, &records);
    assert_eq!(state.decks.len(), 3);
    for d in 0..3 {
        assert_eq!(state.available_cards[d].len(), 4);
        assert_eq!(state.decks[d].len(), 2);
        for c in state.decks[d].iter().chain(state.available_cards[d].iter()) {
            assert_eq!(c.points as usize, d + 1);
        }
    }
    assert_eq!(state.nobles.len(), 3);
    assert_eq!(state.bank, gems(4, 4, 4, 4, 4, 5));
    assert!(state.players_turn);
    assert_eq!(state.cards_available_per_deck, 4);
}

#[test]
fn deal_keeps_the_given_order() {
    let deck: Vec<Card> = (0..6).map(|i| create_card(Color::Red, i, 0, 0, 0, 0, 0)).collect();
    let nobles: Vec<Card> = (0..5).map(|i| create_card(Color::Blue, i, 3, 3, 3, 0, 0)).collect();
    let s = State::deal(2, vec![deck.clone(), deck.clone(), deck.clone()], nobles.clone());
    assert_eq!(s.decks[0], deck[..2].to_vec());
    assert_eq!(s.available_cards[2], deck[2..].to_vec());
    assert_eq!(s.nobles, nobles[..3].to_vec());
}

#[test]
fn records_become_cards_and_decks() {
    assert_eq!(parse_color(&"Green".to_string()), Some(Color::Green));
    assert_eq!(parse_color(&"Purple".to_string()), None);
    let r = record(2, "White", 3, 4);
    assert_eq!(r.get_color(), Color::White);
    assert_eq!(r.create_card(), create_card(Color::White, 3, 4, 1, 0, 0, 0));
    let rs = vec![record(1, "Red", 0, 1), record(3, "Blue", 2, 2), record(1, "Black", 0, 3)];
    let decks = sort_into_decks(&rs);
    assert_eq!(decks.len(), 3);
    assert_eq!(decks[0], vec![rs[0].create_card(), rs[2].create_card()]);
    assert!(decks[1].is_empty());
    assert_eq!(decks[2], vec![rs[1].create_card()]);
    assert_eq!(cards_of_level(&rs, 3), vec![rs[1].create_card()]);
}

#[test]
fn opening_moves_take_tokens() {
    let state = empty_state();
    let moves = state.generate_moves();
    assert_eq!(moves.len(), 19);
    assert_eq!(moves[0], Move::Take { tokens: gems(2, 0, 0, 0, 0, 0), drop: Tokens::empty() });
    assert_eq!(moves[1], Move::Take { tokens: gems(1, 1, 1, 0, 0, 0), drop: Tokens::empty() });
    assert_eq!(moves[18], Move::Take { tokens: gems(0, 0, 0, 0, 2, 0), drop: Tokens::empty() });
}

#[test]
fn pass_when_nothing_else() {
    let mut state = empty_state();
    state.bank = Tokens::empty();
    state.player.reserved = vec![create_card(Color::Red, 0, 9, 9, 9, 9, 9); 3];
    let moves = state.generate_moves();
    assert_eq!(moves, vec![Move::Pass]);
}

#[test]
fn taking_with_a_full_purse_gives_tokens_back() {
    let mut state = empty_state();
    state.bank = gems(1, 0, 0, 0, 0, 0);
    state.player.tokens = gems(0, 5, 5, 0, 0, 0);
    let moves = state.generate_moves();
    // one black token forces one token back, never black
    assert_eq!(
        moves,
        vec![
            Move::Take { tokens: gems(1, 0, 0, 0, 0, 0), drop: gems(0, 0, 1, 0, 0, 0) },
            Move::Take { tokens: gems(1, 0, 0, 0, 0, 0), drop: gems(0, 1, 0, 0, 0, 0) },
        ]
    );
}

#[test]
fn buying_lists_the_nobles_attracted() {
    let mut state = empty_state();
    state.bank = Tokens::empty();
    state.player.reserved = vec![create_card(Color::Red, 0, 9, 9, 9, 9, 9); 3];
    state.player.tokens = gems(1, 0, 0, 0, 0, 0);
    state.available_cards[2] = vec![create_card(Color::Green, 1, 1, 0, 0, 0, 0)];
    state.nobles = vec![
        create_card(Color::Black, 3, 0, 0, 1, 0, 0),
        create_card(Color::Black, 3, 0, 0, 2, 0, 0),
        create_card(Color::Black, 3, 0, 0, 0, 0, 0),
    ];
    let moves = state.generate_moves();
    let cost = gems(1, 0, 0, 0, 0, 0);
    assert_eq!(
        moves,
        vec![
            Move::Buy { index: 0, deck: 3, cost, noble: Some(0) },
            Move::Buy { index: 0, deck: 3, cost, noble: Some(2) },
        ]
    );
}

#[test]
fn reserving_offers_every_face_up_card() {
    let mut state = empty_state();
    state.bank = gems(0, 0, 0, 0, 0, 1);
    state.available_cards[0] = vec![create_card(Color::Green, 0, 9, 9, 0, 0, 0); 2];
    state.available_cards[1] = vec![create_card(Color::Blue, 0, 9, 9, 0, 0, 0)];
    let moves = state.generate_moves();
    assert_eq!(moves.len(), 3);
    assert_eq!(moves[2], Move::Reserve { index: 0, deck: 1, drop: Tokens::empty(), joker: true });
}

#[test]
fn undo_restores_after_each_kind_of_move() {
    let mut state = empty_state();
    state.player.tokens = gems(2, 1, 0, 0, 0, 0);
    state.available_cards[0] = vec![
        create_card(Color::Green, 1, 1, 0, 0, 0, 0),
        create_card(Color::Red, 2, 0, 1, 0, 0, 0),
    ];
    state.available_cards[2] = vec![create_card(Color::Blue, 3, 1, 0, 0, 0, 0)];
    state.nobles = vec![create_card(Color::Black, 3, 0, 0, 0, 0, 0)];
    state.player.reserved = vec![create_card(Color::White, 1, 0, 1, 0, 0, 0)];
    let before = State {
        decks: state.decks.clone(),
        available_cards: state.available_cards.clone(),
        bank: state.bank,
        player: Player {
            tokens: state.player.tokens,
            cards: state.player.cards.clone(),
            reserved: state.player.reserved.clone(),
            nobles: state.player.nobles.clone(),
        },
        adversary: Player::new(),
        nobles: state.nobles.clone(),
        players_turn: true,
        cards_available_per_deck: 4,
    };
    let moves = [
        Move::Take { tokens: gems(1, 1, 1, 0, 0, 0), drop: gems(1, 0, 0, 0, 0, 0) },
        Move::Reserve { index: 1, deck: 1, drop: gems(0, 1, 0, 0, 0, 0), joker: true },
        Move::Buy { index: 0, deck: 3, cost: gems(1, 0, 0, 0, 0, 0), noble: Some(0) },
        Move::BuyReserved { index: 0, cost: gems(0, 1, 0, 0, 0, 0), noble: None },
        Move::Pass,
    ];
    for m in moves.iter() {
        state.apply(m);
        assert!(!state.players_turn);
        assert!(!same(&state, &before));
        state.undo(m);
        assert!(same(&state, &before));
    }
}

#[test]
fn apply_moves_tokens_and_cards() {
    let mut state = empty_state();
    state.player.tokens = gems(2, 0, 0, 0, 0, 0);
    state.available_cards[2] = vec![create_card(Color::Blue, 3, 2, 0, 0, 0, 0)];
    state.apply(&Move::Buy { index: 0, deck: 3, cost: gems(2, 0, 0, 0, 0, 0), noble: None });
    assert_eq!(state.player.tokens, Tokens::empty());
    assert_eq!(state.bank, gems(6, 4, 4, 4, 4, 5));
    assert_eq!(state.player.cards, vec![create_card(Color::Blue, 3, 2, 0, 0, 0, 0)]);
    assert!(state.available_cards[2].is_empty());
    assert_eq!(state.player.score(), 3);
    // the adversary now reserves and drops a token, which leaves the game
    state.adversary.tokens = gems(0, 1, 0, 0, 0, 0);
    state.available_cards[0] = vec![create_card(Color::Red, 0, 1, 0, 0, 0, 0)];
    state.apply(&Move::Reserve { index: 0, deck: 1, drop: gems(0, 1, 0, 0, 0, 0), joker: true });
    assert_eq!(state.adversary.tokens, gems(0, 0, 0, 0, 0, 1));
    assert_eq!(state.bank, gems(6, 4, 4, 4, 4, 4));
    assert_eq!(state.adversary.reserved.len(), 1);
    assert!(state.players_turn);
}

#[test]
fn refresh_fills_rows_but_the_first() {
    let mut state = empty_state();
    let c = |p: u8| create_card(Color::Red, p, 0, 0, 0, 0, 0);
    state.decks = vec![vec![c(1)], vec![c(2), c(3)], vec![]];
    state.available_cards = vec![vec![], vec![c(9)], vec![]];
    state.refresh_available_cards();
    assert_eq!(state.decks, vec![vec![c(1)], vec![c(2)], vec![]]);
    assert_eq!(state.available_cards, vec![vec![], vec![c(9), c(3)], vec![]]);
}

#[test]
fn score_and_terminal() {
    let mut state = empty_state();
    assert_eq!(state.score(), 0);
    assert!(!state.is_terminal());
    state.player.cards = vec![create_card(Color::Red, 15, 0, 0, 0, 0, 0)];
    state.nobles = vec![create_card(Color::Black, 3, 0, 0, 0, 2, 0)];
    // 15 * 3000 + 1_000_000 + (250 + 2 * 100)
    assert_eq!(state.score(), 45_000 + 1_000_000 + 450);
    assert!(state.is_terminal());
    state.adversary.reserved = vec![create_card(Color::Red, 0, 0, 0, 0, 0, 0)];
    state.adversary.tokens = gems(1, 0, 0, 0, 0, 0);
    assert_eq!(state.score(), 45_000 + 1_000_000 + 450 - 8 + 20);
}

#[test]
fn render_draws_the_board() {
    let mut state = empty_state();
    state.player.tokens = gems(0, 2, 0, 0, 0, 0);
    state.player.cards = vec![create_card(Color::Blue, 1, 0, 0, 0, 0, 0)];
    state.nobles = vec![create_card(Color::Black, 3, 0, 0, 4, 4, 0)];
    state.decks = vec![vec![create_card(Color::Red, 12, 1, 2, 0, 0, 0)], vec![], vec![]];
    let text = state.render();
    let expected = "Player: 0\n\
k: 0\nb: 0\ng: 0\nr: 0\nw: 0\nj: 0\n\n\
Adversary: 1\n\
k: 0\nb: 2 + 1\ng: 0\nr: 0\nw: 0\nj: 0\n\
\nBank\nk b g r w j \n4 4 4 4 4 5 \n\n\
\nNobles\n┏━━━━━┓ \n┃  3  ┃ \n┃g r  ┃ \n┃4 4  ┃ \n┗━━━━━┛ \n\
\n\
┏━━━━━━━┓ \n┃r     12┃ \n┃       ┃ \n┃k b    ┃ \n┃1 2    ┃ \n┗━━━━━━━┛ \n";
    assert_eq!(text, expected);
}

#[test]
fn new_game_shuffles_the_decks() {
    let records = sample_records();
    let listed: Vec<Card> = cards_of_level(&records, 1);
    let mut differs = false;
    for _ in 0..30 {
        let state = State::new(2, &records);
        let mut dealt = state.decks[0].clone();
        dealt.extend(state.available_cards[0].iter().cloned());
        if dealt != listed {
            differs = true;
        }
        let mut sorted_dealt: Vec<u8> = dealt.iter().map(|c| c.cost.black).collect();
        sorted_dealt.sort();
        let mut sorted_listed: Vec<u8> = listed.iter().map(|c| c.cost.black).collect();
        sorted_listed.sort();
        assert_eq!(sorted_dealt, sorted_listed);
    }
    assert!(differs);
}

#[test]
fn apply_keeps_tokens_and_cards_in_play() {
    let mut state = empty_state();
    state.player.tokens = gems(1, 1, 0, 0, 0, 0);
    state.available_cards[1] = vec![create_card(Color::Green, 1, 1, 1, 0, 0, 0)];
    let total = |s: &State| -> u32 {
        [s.bank, s.player.tokens, s.adversary.tokens].iter().map(|t| t.total() as u32).sum()
    };
    let cards = |s: &State| -> usize {
        s.decks.iter().map(|r| r.len()).sum::<usize>()
            + s.available_cards.iter().map(|r| r.len()).sum::<usize>()
            + s.player.cards.len()
            + s.player.reserved.len()
            + s.adversary.cards.len()
            + s.adversary.reserved.len()
    };
    let t0 = total(&state);
    let c0 = cards(&state);
    state.apply(&Move::Buy { index: 0, deck: 2, cost: gems(1, 1, 0, 0, 0, 0), noble: None });
    assert_eq!(total(&state), t0);
    assert_eq!(cards(&state), c0);
    state.apply(&Move::Take { tokens: gems(0, 0, 1, 1, 1, 0), drop: Tokens::empty() });
    assert_eq!(total(&state), t0);
    assert_eq!(cards(&state), c0);
}
