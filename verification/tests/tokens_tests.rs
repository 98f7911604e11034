use splendimax::color::Color;
use splendimax::cost::Tokens;

fn gems(black: u8, blue: u8, green: u8, red: u8, white: u8, joker: u8) -> Tokens {
    Tokens { black, blue, green, red, white, joker }
}

#[test]
fn start_bank_for_two_players() {
    assert_eq!(Tokens::start(2), gems(4, 4, 4, 4, 4, 5));
    assert_eq!(Tokens::start(3), gems(5, 5, 5, 5, 5, 5));
    assert_eq!(Tokens::start(4), gems(7, 7, 7, 7, 7, 5));
}

#[test]
fn one_get_set_total() {
    let mut t = Tokens::one(Color::Red);
    assert_eq!(t, gems(0, 0, 0, 1, 0, 0));
    t.set(Color::Joker, 3);
    assert_eq!(t.get(Color::Joker), 3);
    assert_eq!(t.total(), 4);
}

#[test]
fn add_sub_max_can_buy() {
    let mut a = gems(1, 2, 3, 4, 5, 6);
    let b = gems(6, 5, 4, 3, 2, 1);
    assert_eq!(a.plus(&b), gems(7, 7, 7, 7, 7, 7));
    assert_eq!(a.max(&b), gems(6, 5, 4, 4, 5, 6));
    assert!(!a.can_buy(&b));
    assert!(a.plus(&b).can_buy(&b));
    a.add_assign(&b);
    a.sub_assign(&b);
    assert_eq!(a, gems(1, 2, 3, 4, 5, 6));
}

#[test]
fn discard_permutations_lists_every_way() {
    let purse = gems(2, 1, 0, 0, 0, 0);
    let d = purse.discard_permutations();
    assert_eq!(d.len(), 4);
    assert_eq!(d[0], vec![Tokens::empty()]);
    assert_eq!(d[1], vec![gems(0, 1, 0, 0, 0, 0), gems(1, 0, 0, 0, 0, 0)]);
    assert_eq!(d[2], vec![gems(1, 1, 0, 0, 0, 0), gems(2, 0, 0, 0, 0, 0)]);
    assert_eq!(d[3], vec![gems(2, 1, 0, 0, 0, 0)]);
}

#[test]
fn discard_permutations_members_are_sub_purses_of_the_right_size() {
    let purse = gems(2, 0, 1, 3, 0, 1);
    let d = purse.discard_permutations();
    for (k, options) in d.iter().enumerate() {
        for o in options {
            assert!(purse.can_buy(o));
            assert_eq!(o.total() as usize, k);
        }
        for i in 0..options.len() {
            for j in 0..i {
                assert_ne!(options[i], options[j]);
            }
        }
    }
    // sub-purses of size 2 of {2 black, 1 green, 3 red, 1 joker}
    assert_eq!(d[2].len(), 8);
}
