use splendimax::card::Card;
use splendimax::color::Color;
use splendimax::cost::Tokens;
use splendimax::player::Player;

fn gems(black: u8, blue: u8, green: u8, red: u8, white: u8, joker: u8) -> Tokens {
    Tokens { black, blue, green, red, white, joker }
}

fn card(color: Color, cost: Tokens, points: u8) -> Card {
    Card { color, cost, points }
}

#[test]
fn can_buy() {
    let player = Player {
        tokens: Tokens { black: 0, blue: 0, green: 1, red: 0, white: 0, joker: 0 },
        cards: vec![Card { color: Color::Blue, cost: Tokens::empty(), points: 0 }],
        reserved: Vec::new(),
        nobles: Vec::new(),
    };
    assert!(player.can_buy(&Card {
        color: Color::Black,
        cost: Tokens { black: 0, blue: 1, green: 1, red: 0, white: 0, joker: 0 },
        points: 0,
    }));
    assert!(player.can_buy(&Card {
        color: Color::Black,
        cost: Tokens { black: 0, blue: 1, green: 0, red: 0, white: 0, joker: 0 },
        points: 0,
    }));
    assert!(!player.can_buy(&Card {
        color: Color::Black,
        cost: Tokens { black: 0, blue: 1, green: 0, red: 1, white: 0, joker: 0 },
        points: 0,
    }));
}

#[test]
fn cost_for() {
    let player = Player {
        tokens: Tokens { black: 0, blue: 0, green: 1, red: 0, white: 0, joker: 1 },
        cards: vec![Card { color: Color::Blue, cost: Tokens::empty(), points: 0 }],
        reserved: Vec::new(),
        nobles: Vec::new(),
    };
    assert_eq!(
        player
            .cost_for(&Card {
                color: Color::Black,
                cost: Tokens { black: 0, blue: 0, green: 1, red: 0, white: 0, joker: 0 },
                points: 0,
            })
            .unwrap(),
        Tokens { black: 0, blue: 0, green: 1, red: 0, white: 0, joker: 0 }
    );
    assert_eq!(
        player
            .cost_for(&Card {
                color: Color::Black,
                cost: Tokens { black: 0, blue: 1, green: 1, red: 0, white: 0, joker: 0 },
                points: 0,
            })
            .unwrap(),
        Tokens { black: 0, blue: 0, green: 1, red: 0, white: 0, joker: 0 }
    );
    assert_eq!(
        player
            .cost_for(&Card {
                color: Color::Black,
                cost: Tokens { black: 0, blue: 2, green: 1, red: 0, white: 0, joker: 0 },
                points: 0,
            })
            .unwrap(),
        Tokens { black: 0, blue: 0, green: 1, red: 0, white: 0, joker: 1 }
    );
    assert_eq!(
        player
            .cost_for(&Card {
                color: Color::Black,
                cost: Tokens { black: 0, blue: 1, green: 1, red: 1, white: 0, joker: 0 },
                points: 0,
            })
            .unwrap(),
        Tokens { black: 0, blue: 0, green: 1, red: 0, white: 0, joker: 1 }
    );
}

#[test]
fn cost_for_refuses_when_jokers_run_short() {
    let player = Player {
        tokens: gems(1, 0, 0, 0, 0, 1),
        cards: Vec::new(),
        reserved: Vec::new(),
        nobles: Vec::new(),
    };
    assert_eq!(player.cost_for(&card(Color::Red, gems(2, 2, 0, 0, 0, 0), 0)), None);
    assert!(!player.can_buy(&card(Color::Red, gems(2, 2, 0, 0, 0, 0), 0)));
    assert_eq!(
        player.cost_for(&card(Color::Red, gems(2, 0, 0, 0, 0, 0), 0)),
        Some(gems(1, 0, 0, 0, 0, 1))
    );
}

#[test]
fn cost_for_ignores_what_the_bonus_covers() {
    let player = Player {
        tokens: gems(3, 0, 0, 0, 0, 0),
        cards: vec![card(Color::Black, Tokens::empty(), 0), card(Color::Black, Tokens::empty(), 0)],
        reserved: Vec::new(),
        nobles: Vec::new(),
    };
    assert_eq!(
        player.cost_for(&card(Color::Red, gems(1, 0, 0, 0, 0, 0), 0)),
        Some(Tokens::empty())
    );
    assert_eq!(
        player.cost_for(&card(Color::Red, gems(4, 0, 0, 0, 0, 0), 0)),
        Some(gems(2, 0, 0, 0, 0, 0))
    );
}

#[test]
fn tokens_from_cards_counts_colors() {
    let player = Player {
        tokens: Tokens::empty(),
        cards: vec![
            card(Color::Blue, Tokens::empty(), 0),
            card(Color::Red, Tokens::empty(), 0),
            card(Color::Blue, Tokens::empty(), 0),
        ],
        reserved: Vec::new(),
        nobles: Vec::new(),
    };
    assert_eq!(player.tokens_from_cards(), gems(0, 2, 0, 1, 0, 0));
}

#[test]
fn new_player_is_empty() {
    let p = Player::new();
    assert_eq!(p.tokens, Tokens::empty());
    assert!(p.cards.is_empty() && p.reserved.is_empty() && p.nobles.is_empty());
    assert_eq!(p.score(), 0);
}

#[test]
fn score_adds_card_and_noble_points() {
    let player = Player {
        tokens: Tokens::empty(),
        cards: vec![card(Color::Blue, Tokens::empty(), 2), card(Color::Red, Tokens::empty(), 1)],
        reserved: vec![card(Color::Green, Tokens::empty(), 5)],
        nobles: vec![card(Color::Black, Tokens::empty(), 3)],
    };
    assert_eq!(player.score(), 6);
}

#[test]
fn card_score_counts_repeats_up_to_five() {
    let mut cards = Vec::new();
    for _ in 0..7 {
        cards.push(card(Color::Green, Tokens::empty(), 0));
    }
    let player = Player { tokens: Tokens::empty(), cards, reserved: Vec::new(), nobles: Vec::new() };
    // 7 * 250 + 100 * (0 + 1 + 2 + 3 + 4 + 5 + 5) + 100 * 2 per card for the demand of 2 green
    let demand = gems(0, 0, 2, 0, 0, 0);
    assert_eq!(player.card_score(&demand), 7 * 250 + 100 * 20 + 7 * 200);
    assert_eq!(player.card_score(&Tokens::empty()), 7 * 250 + 100 * 20);
}

#[test]
fn token_score_caps_at_ten_and_favours_jokers() {
    let p = Player { tokens: gems(1, 1, 0, 0, 0, 2), cards: Vec::new(), reserved: Vec::new(), nobles: Vec::new() };
    assert_eq!(p.token_score(), (4 * 2 + 2) * 4);
    let rich = Player { tokens: gems(4, 4, 4, 0, 0, 1), cards: Vec::new(), reserved: Vec::new(), nobles: Vec::new() };
    assert_eq!(rich.token_score(), (10 * 2 + 1) * 4);
}
