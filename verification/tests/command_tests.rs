use splendimax::card::create_card;
use splendimax::color::Color;
use splendimax::command::{moves_equal, Command, Refusal, TurnStep};
use splendimax::cost::Tokens;
use splendimax::moves::Move;
use splendimax::player::Player;
use splendimax::state::State;

fn gems(black: u8, blue: u8, green: u8, red: u8, white: u8, joker: u8) -> Tokens {
    Tokens { black, blue, green, red, white, joker }
}

fn table() -> State {
    let mut state = State {
        decks: vec![Vec::new(), Vec::new(), Vec::new()],
        available_cards: vec![Vec::new(), Vec::new(), Vec::new()],
        bank: Tokens::start(2),
        player: Player::new(),
        adversary: Player::new(),
        nobles: vec![create_card(Color::Black, 3, 0, 0, 0, 1, 0)],
        players_turn: false,
        cards_available_per_deck: 4,
    };
    state.available_cards[0] = vec![
        create_card(Color::Red, 0, 1, 0, 0, 0, 0),
        create_card(Color::Green, 1, 5, 0, 0, 0, 0),
    ];
    state.adversary.tokens = gems(1, 0, 0, 0, 0, 0);
    state.adversary.reserved = vec![create_card(Color::White, 2, 0, 3, 0, 0, 0)];
    state
}

#[test]
fn take_command_counts_letters() {
    let state = table();
    assert_eq!(
        state.interpret_command("t k b x k\n"),
        Command::Play(Move::Take { tokens: gems(2, 1, 0, 0, 0, 0), drop: Tokens::empty() })
    );
}

#[test]
fn buy_command_names_row_column_and_noble() {
    let state = table();
    assert_eq!(
        state.interpret_command("b 1 1"),
        Command::Play(Move::Buy { index: 0, deck: 1, cost: gems(1, 0, 0, 0, 0, 0), noble: Some(0) })
    );
    assert_eq!(state.interpret_command("b 1 2"), Command::Reject(Refusal::CannotAfford));
    assert_eq!(state.interpret_command("b 2 1"), Command::Reject(Refusal::InvalidCard));
    assert_eq!(state.interpret_command("b 9"), Command::Reject(Refusal::InvalidCommand));
}

#[test]
fn reserve_and_reserved_buy_commands() {
    let state = table();
    assert_eq!(
        state.interpret_command("r 1 2"),
        Command::Play(Move::Reserve { index: 1, deck: 1, drop: Tokens::empty(), joker: true })
    );
    assert_eq!(state.interpret_command("u 1"), Command::Reject(Refusal::CannotAfford));
    assert_eq!(state.interpret_command("u 2"), Command::Reject(Refusal::InvalidCard));
    assert_eq!(state.interpret_command("u"), Command::Reject(Refusal::InvalidCommand));
    assert_eq!(state.interpret_command("p"), Command::Play(Move::Pass));
    assert_eq!(state.interpret_command("x"), Command::Retry);
    assert_eq!(state.interpret_command(""), Command::Retry);
    assert_eq!(Refusal::CannotAfford.message(), "can't afford");
}

#[test]
fn human_step_checks_the_available_moves() {
    let state = table();
    assert_eq!(
        state.human_step("t kbg"),
        TurnStep::Play(Move::Take { tokens: gems(1, 1, 1, 0, 0, 0), drop: Tokens::empty() })
    );
    // passing is not offered while other moves exist
    assert_eq!(state.human_step("p"), TurnStep::NotAllowed);
    // the generated buys name deck 3, so a buy typed for row 1 is not offered
    assert_eq!(state.human_step("b 1 1"), TurnStep::NotAllowed);
    assert_eq!(state.human_step("u 2"), TurnStep::GiveUp(Refusal::InvalidCard));
    assert_eq!(state.human_step("?"), TurnStep::AskAgain);
    assert!(state.offers(&Move::Take { tokens: gems(0, 0, 0, 2, 0, 0), drop: Tokens::empty() }));
}

#[test]
fn moves_compare_field_by_field() {
    let a = Move::Buy { index: 0, deck: 3, cost: Tokens::empty(), noble: None };
    let b = Move::Buy { index: 0, deck: 3, cost: Tokens::empty(), noble: Some(0) };
    assert!(moves_equal(&a, &a));
    assert!(!moves_equal(&a, &b));
    assert!(!moves_equal(&Move::Pass, &a));
}
