//! Card records as read from the card list, and how they become decks.
use vstd::prelude::*;
use crate::color::Color;
use crate::cost::Tokens;
use crate::card::Card;

verus! {

/// One line of the card list: a level (0 for nobles), a color name, prestige
/// points and the price in each gem color.
#[derive(Debug, Clone)]
pub struct CardRecord {
    pub level: u8,
    pub color: String,
    pub pv: u8,
    pub black: u8,
    pub blue: u8,
    pub green: u8,
    pub red: u8,
    pub white: u8,
}

/// The color a name stands for: "Black", "Blue", "Green", "Red" or "White".
pub open spec fn color_named(name: Seq<char>) -> Option<Color> {
    if name == "Black"@ {
        Some(Color::Black)
    } else if name == "Blue"@ {
        Some(Color::Blue)
    } else if name == "Green"@ {
        Some(Color::Green)
    } else if name == "Red"@ {
        Some(Color::Red)
    } else if name == "White"@ {
        Some(Color::White)
    } else {
        None
    }
}

/// The card a record describes (its color name must be known).
pub open spec fn card_of(r: CardRecord) -> Card {
    Card {
        color: color_named(r.color@).unwrap(),
        cost: Tokens {
            black: r.black,
            blue: r.blue,
            green: r.green,
            red: r.red,
            white: r.white,
            joker: 0,
        },
        points: r.pv,
    }
}

/// The cards of the records of level `level`, in the order of the records.
pub open spec fn level_cards(rs: Seq<CardRecord>, level: u8) -> Seq<Card>
    decreases rs.len(),
{
    if rs.len() == 0 {
        seq![]
    } else {
        let prev = level_cards(rs.drop_last(), level);
        if rs.last().level == level {
            prev.push(card_of(rs.last()))
        } else {
            prev
        }
    }
}

/// The color of the named gem, `None` for any other name.
pub fn parse_color(name: &String) -> (c: Option<Color>)
    ensures
        c == color_named(name@),
{
    if *name == "Black".to_owned() {
        Some(Color::Black)
    } else if *name == "Blue".to_owned() {
        Some(Color::Blue)
    } else if *name == "Green".to_owned() {
        Some(Color::Green)
    } else if *name == "Red".to_owned() {
        Some(Color::Red)
    } else if *name == "White".to_owned() {
        Some(Color::White)
    } else {
        None
    }
}

impl CardRecord {
    /// The color the record names.
    pub fn get_color(&self) -> (c: Color)
        requires
            color_named(self.color@) is Some,
        ensures
            Some(c) == color_named(self.color@),
    {
        match parse_color(&self.color) {
            Some(c) => c,
            None => Color::Black,
        }
    }

    /// The card the record describes.
    pub fn create_card(&self) -> (c: Card)
        requires
            color_named(self.color@) is Some,
        ensures
            c == card_of(*self),
    {
        Card {
            color: self.get_color(),
            cost: Tokens {
                black: self.black,
                blue: self.blue,
                green: self.green,
                red: self.red,
                white: self.white,
                joker: 0,
            },
            points: self.pv,
        }
    }
}

/// The cards of level `level`, in the order of the records.
pub fn cards_of_level(records: &Vec<CardRecord>, level: u8) -> (cards: Vec<Card>)
    requires
        forall|i: int|
            0 <= i < records@.len() && (#[trigger] records@[i]).level == level ==> color_named(
                records@[i].color@,
            ) is Some,
    ensures
        cards@ == level_cards(records@, level),
{
    let mut cards: Vec<Card> = Vec::new();
    let mut i: usize = 0;
    while i < records.len()
        invariant
            i <= records@.len(),
            cards@ == level_cards(records@.take(i as int), level),
            forall|j: int|
                0 <= j < records@.len() && (#[trigger] records@[j]).level == level ==> color_named(
                    records@[j].color@,
                ) is Some,
        decreases records@.len() - i,
    {
        assert(records@.take(i + 1).drop_last() =~= records@.take(i as int));
        if records[i].level == level {
            cards.push(records[i].create_card());
        }
        i = i + 1;
    }
    assert(records@.take(i as int) =~= records@);
    cards
}

/// Sorts the records of levels 1, 2 and 3 into three decks, deck `d` holding
/// the cards of level `d + 1` in the order of the records.
pub fn sort_into_decks(records: &Vec<CardRecord>) -> (decks: Vec<Vec<Card>>)
    requires
        forall|i: int|
            0 <= i < records@.len() ==> 1 <= (#[trigger] records@[i]).level <= 3 && color_named(
                records@[i].color@,
            ) is Some,
    ensures
        decks@.len() == 3,
        forall|d: int| 0 <= d < 3 ==> #[trigger] decks@[d]@ == level_cards(records@, (d + 1) as u8),
{
    let mut decks: Vec<Vec<Card>> = Vec::new();
    let mut lvl: u8 = 1;
    while lvl < 4
        invariant
            1 <= lvl <= 4,
            decks@.len() == lvl - 1,
            forall|d: int| 0 <= d < lvl - 1 ==> #[trigger] decks@[d]@ == level_cards(records@, (d + 1) as u8),
            forall|i: int|
                0 <= i < records@.len() ==> 1 <= (#[trigger] records@[i]).level <= 3 && color_named(
                    records@[i].color@,
                ) is Some,
        decreases 4 - lvl,
    {
        decks.push(cards_of_level(records, lvl));
        lvl = lvl + 1;
    }
    decks
}

} // verus!
