//! The cards of the game, and the combos in which they may be played.

use vstd::prelude::*;

verus! {

/// The four suits.
#[derive(Clone, Copy, Debug, PartialEq, Eq, Hash, Structural)]
pub enum Suit {
    Heart,
    Spade,
    Diamond,
    Club,
}

/// Every card of the game: thirteen ranks in each of the four suits, and the
/// joker.
#[derive(Clone, Copy, Debug, PartialEq, Eq, Hash, Structural)]
pub enum Card {
    HeartAce,
    HeartTwo,
    HeartThree,
    HeartFour,
    HeartFive,
    HeartSix,
    HeartSeven,
    HeartEight,
    HeartNine,
    HeartTen,
    HeartJack,
    HeartQueen,
    HeartKing,
    SpadeAce,
    SpadeTwo,
    SpadeThree,
    SpadeFour,
    SpadeFive,
    SpadeSix,
    SpadeSeven,
    SpadeEight,
    SpadeNine,
    SpadeTen,
    SpadeJack,
    SpadeQueen,
    SpadeKing,
    DiamondAce,
    DiamondTwo,
    DiamondThree,
    DiamondFour,
    DiamondFive,
    DiamondSix,
    DiamondSeven,
    DiamondEight,
    DiamondNine,
    DiamondTen,
    DiamondJack,
    DiamondQueen,
    DiamondKing,
    ClubAce,
    ClubTwo,
    ClubThree,
    ClubFour,
    ClubFive,
    ClubSix,
    ClubSeven,
    ClubEight,
    ClubNine,
    ClubTen,
    ClubJack,
    ClubQueen,
    ClubKing,
    Joker,
}

impl Card {
    /// The suit printed on the card; the joker has none.
    pub open spec fn spec_suit(&self) -> Option<Suit> {
        match self {
            Card::HeartAce => Some(Suit::Heart),
            Card::HeartTwo => Some(Suit::Heart),
            Card::HeartThree => Some(Suit::Heart),
            Card::HeartFour => Some(Suit::Heart),
            Card::HeartFive => Some(Suit::Heart),
            Card::HeartSix => Some(Suit::Heart),
            Card::HeartSeven => Some(Suit::Heart),
            Card::HeartEight => Some(Suit::Heart),
            Card::HeartNine => Some(Suit::Heart),
            Card::HeartTen => Some(Suit::Heart),
            Card::HeartJack => Some(Suit::Heart),
            Card::HeartQueen => Some(Suit::Heart),
            Card::HeartKing => Some(Suit::Heart),
            Card::SpadeAce => Some(Suit::Spade),
            Card::SpadeTwo => Some(Suit::Spade),
            Card::SpadeThree => Some(Suit::Spade),
            Card::SpadeFour => Some(Suit::Spade),
            Card::SpadeFive => Some(Suit::Spade),
            Card::SpadeSix => Some(Suit::Spade),
            Card::SpadeSeven => Some(Suit::Spade),
            Card::SpadeEight => Some(Suit::Spade),
            Card::SpadeNine => Some(Suit::Spade),
            Card::SpadeTen => Some(Suit::Spade),
            Card::SpadeJack => Some(Suit::Spade),
            Card::SpadeQueen => Some(Suit::Spade),
            Card::SpadeKing => Some(Suit::Spade),
            Card::DiamondAce => Some(Suit::Diamond),
            Card::DiamondTwo => Some(Suit::Diamond),
            Card::DiamondThree => Some(Suit::Diamond),
            Card::DiamondFour => Some(Suit::Diamond),
            Card::DiamondFive => Some(Suit::Diamond),
            Card::DiamondSix => Some(Suit::Diamond),
            Card::DiamondSeven => Some(Suit::Diamond),
            Card::DiamondEight => Some(Suit::Diamond),
            Card::DiamondNine => Some(Suit::Diamond),
            Card::DiamondTen => Some(Suit::Diamond),
            Card::DiamondJack => Some(Suit::Diamond),
            Card::DiamondQueen => Some(Suit::Diamond),
            Card::DiamondKing => Some(Suit::Diamond),
            Card::ClubAce => Some(Suit::Club),
            Card::ClubTwo => Some(Suit::Club),
            Card::ClubThree => Some(Suit::Club),
            Card::ClubFour => Some(Suit::Club),
            Card::ClubFive => Some(Suit::Club),
            Card::ClubSix => Some(Suit::Club),
            Card::ClubSeven => Some(Suit::Club),
            Card::ClubEight => Some(Suit::Club),
            Card::ClubNine => Some(Suit::Club),
            Card::ClubTen => Some(Suit::Club),
            Card::ClubJack => Some(Suit::Club),
            Card::ClubQueen => Some(Suit::Club),
            Card::ClubKing => Some(Suit::Club),
            Card::Joker => None,
        }
    }

    /// What the card counts for: its pips for ace to ten, 10 for a jack, 15
    /// for a queen, 20 for a king, nothing for the joker.
    pub open spec fn spec_value(&self) -> u8 {
        match self {
            Card::HeartAce => 1,
            Card::HeartTwo => 2,
            Card::HeartThree => 3,
            Card::HeartFour => 4,
            Card::HeartFive => 5,
            Card::HeartSix => 6,
            Card::HeartSeven => 7,
            Card::HeartEight => 8,
            Card::HeartNine => 9,
            Card::HeartTen => 10,
            Card::HeartJack => 10,
            Card::HeartQueen => 15,
            Card::HeartKing => 20,
            Card::SpadeAce => 1,
            Card::SpadeTwo => 2,
            Card::SpadeThree => 3,
            Card::SpadeFour => 4,
            Card::SpadeFive => 5,
            Card::SpadeSix => 6,
            Card::SpadeSeven => 7,
            Card::SpadeEight => 8,
            Card::SpadeNine => 9,
            Card::SpadeTen => 10,
            Card::SpadeJack => 10,
            Card::SpadeQueen => 15,
            Card::SpadeKing => 20,
            Card::DiamondAce => 1,
            Card::DiamondTwo => 2,
            Card::DiamondThree => 3,
            Card::DiamondFour => 4,
            Card::DiamondFive => 5,
            Card::DiamondSix => 6,
            Card::DiamondSeven => 7,
            Card::DiamondEight => 8,
            Card::DiamondNine => 9,
            Card::DiamondTen => 10,
            Card::DiamondJack => 10,
            Card::DiamondQueen => 15,
            Card::DiamondKing => 20,
            Card::ClubAce => 1,
            Card::ClubTwo => 2,
            Card::ClubThree => 3,
            Card::ClubFour => 4,
            Card::ClubFive => 5,
            Card::ClubSix => 6,
            Card::ClubSeven => 7,
            Card::ClubEight => 8,
            Card::ClubNine => 9,
            Card::ClubTen => 10,
            Card::ClubJack => 10,
            Card::ClubQueen => 15,
            Card::ClubKing => 20,
            Card::Joker => 0,
        }
    }

    /// The card's name, as it is shown to players.
    pub open spec fn name(&self) -> Seq<char> {
        match self {
            Card::HeartAce => "HeartAce"@,
            Card::HeartTwo => "HeartTwo"@,
            Card::HeartThree => "HeartThree"@,
            Card::HeartFour => "HeartFour"@,
            Card::HeartFive => "HeartFive"@,
            Card::HeartSix => "HeartSix"@,
            Card::HeartSeven => "HeartSeven"@,
            Card::HeartEight => "HeartEight"@,
            Card::HeartNine => "HeartNine"@,
            Card::HeartTen => "HeartTen"@,
            Card::HeartJack => "HeartJack"@,
            Card::HeartQueen => "HeartQueen"@,
            Card::HeartKing => "HeartKing"@,
            Card::SpadeAce => "SpadeAce"@,
            Card::SpadeTwo => "SpadeTwo"@,
            Card::SpadeThree => "SpadeThree"@,
            Card::SpadeFour => "SpadeFour"@,
            Card::SpadeFive => "SpadeFive"@,
            Card::SpadeSix => "SpadeSix"@,
            Card::SpadeSeven => "SpadeSeven"@,
            Card::SpadeEight => "SpadeEight"@,
            Card::SpadeNine => "SpadeNine"@,
            Card::SpadeTen => "SpadeTen"@,
            Card::SpadeJack => "SpadeJack"@,
            Card::SpadeQueen => "SpadeQueen"@,
            Card::SpadeKing => "SpadeKing"@,
            Card::DiamondAce => "DiamondAce"@,
            Card::DiamondTwo => "DiamondTwo"@,
            Card::DiamondThree => "DiamondThree"@,
            Card::DiamondFour => "DiamondFour"@,
            Card::DiamondFive => "DiamondFive"@,
            Card::DiamondSix => "DiamondSix"@,
            Card::DiamondSeven => "DiamondSeven"@,
            Card::DiamondEight => "DiamondEight"@,
            Card::DiamondNine => "DiamondNine"@,
            Card::DiamondTen => "DiamondTen"@,
            Card::DiamondJack => "DiamondJack"@,
            Card::DiamondQueen => "DiamondQueen"@,
            Card::DiamondKing => "DiamondKing"@,
            Card::ClubAce => "ClubAce"@,
            Card::ClubTwo => "ClubTwo"@,
            Card::ClubThree => "ClubThree"@,
            Card::ClubFour => "ClubFour"@,
            Card::ClubFive => "ClubFive"@,
            Card::ClubSix => "ClubSix"@,
            Card::ClubSeven => "ClubSeven"@,
            Card::ClubEight => "ClubEight"@,
            Card::ClubNine => "ClubNine"@,
            Card::ClubTen => "ClubTen"@,
            Card::ClubJack => "ClubJack"@,
            Card::ClubQueen => "ClubQueen"@,
            Card::ClubKing => "ClubKing"@,
            Card::Joker => "Joker"@,
        }
    }

    /// The card's value, doubled when it is a club.
    pub open spec fn spec_strength(&self) -> u8 {
        if self.spec_suit() == Some(Suit::Club) {
            (2 * self.spec_value()) as u8
        } else {
            self.spec_value()
        }
    }

    /// The suit printed on the card; the joker has none.
    #[verifier::when_used_as_spec(spec_suit)]
    pub fn suit(&self) -> (suit: Option<Suit>)
        ensures
            suit == self.spec_suit(),
    {
        match self {
            Card::HeartAce => Some(Suit::Heart),
            Card::HeartTwo => Some(Suit::Heart),
            Card::HeartThree => Some(Suit::Heart),
            Card::HeartFour => Some(Suit::Heart),
            Card::HeartFive => Some(Suit::Heart),
            Card::HeartSix => Some(Suit::Heart),
            Card::HeartSeven => Some(Suit::Heart),
            Card::HeartEight => Some(Suit::Heart),
            Card::HeartNine => Some(Suit::Heart),
            Card::HeartTen => Some(Suit::Heart),
            Card::HeartJack => Some(Suit::Heart),
            Card::HeartQueen => Some(Suit::Heart),
            Card::HeartKing => Some(Suit::Heart),
            Card::SpadeAce => Some(Suit::Spade),
            Card::SpadeTwo => Some(Suit::Spade),
            Card::SpadeThree => Some(Suit::Spade),
            Card::SpadeFour => Some(Suit::Spade),
            Card::SpadeFive => Some(Suit::Spade),
            Card::SpadeSix => Some(Suit::Spade),
            Card::SpadeSeven => Some(Suit::Spade),
            Card::SpadeEight => Some(Suit::Spade),
            Card::SpadeNine => Some(Suit::Spade),
            Card::SpadeTen => Some(Suit::Spade),
            Card::SpadeJack => Some(Suit::Spade),
            Card::SpadeQueen => Some(Suit::Spade),
            Card::SpadeKing => Some(Suit::Spade),
            Card::DiamondAce => Some(Suit::Diamond),
            Card::DiamondTwo => Some(Suit::Diamond),
            Card::DiamondThree => Some(Suit::Diamond),
            Card::DiamondFour => Some(Suit::Diamond),
            Card::DiamondFive => Some(Suit::Diamond),
            Card::DiamondSix => Some(Suit::Diamond),
            Card::DiamondSeven => Some(Suit::Diamond),
            Card::DiamondEight => Some(Suit::Diamond),
            Card::DiamondNine => Some(Suit::Diamond),
            Card::DiamondTen => Some(Suit::Diamond),
            Card::DiamondJack => Some(Suit::Diamond),
            Card::DiamondQueen => Some(Suit::Diamond),
            Card::DiamondKing => Some(Suit::Diamond),
            Card::ClubAce => Some(Suit::Club),
            Card::ClubTwo => Some(Suit::Club),
            Card::ClubThree => Some(Suit::Club),
            Card::ClubFour => Some(Suit::Club),
            Card::ClubFive => Some(Suit::Club),
            Card::ClubSix => Some(Suit::Club),
            Card::ClubSeven => Some(Suit::Club),
            Card::ClubEight => Some(Suit::Club),
            Card::ClubNine => Some(Suit::Club),
            Card::ClubTen => Some(Suit::Club),
            Card::ClubJack => Some(Suit::Club),
            Card::ClubQueen => Some(Suit::Club),
            Card::ClubKing => Some(Suit::Club),
            Card::Joker => None,
        }
    }

    /// What the card counts for.
    #[verifier::when_used_as_spec(spec_value)]
    pub fn value(&self) -> (value: u8)
        ensures
            value == self.spec_value(),
            value <= 20,
    {
        match self {
            Card::HeartAce => 1,
            Card::HeartTwo => 2,
            Card::HeartThree => 3,
            Card::HeartFour => 4,
            Card::HeartFive => 5,
            Card::HeartSix => 6,
            Card::HeartSeven => 7,
            Card::HeartEight => 8,
            Card::HeartNine => 9,
            Card::HeartTen => 10,
            Card::HeartJack => 10,
            Card::HeartQueen => 15,
            Card::HeartKing => 20,
            Card::SpadeAce => 1,
            Card::SpadeTwo => 2,
            Card::SpadeThree => 3,
            Card::SpadeFour => 4,
            Card::SpadeFive => 5,
            Card::SpadeSix => 6,
            Card::SpadeSeven => 7,
            Card::SpadeEight => 8,
            Card::SpadeNine => 9,
            Card::SpadeTen => 10,
            Card::SpadeJack => 10,
            Card::SpadeQueen => 15,
            Card::SpadeKing => 20,
            Card::DiamondAce => 1,
            Card::DiamondTwo => 2,
            Card::DiamondThree => 3,
            Card::DiamondFour => 4,
            Card::DiamondFive => 5,
            Card::DiamondSix => 6,
            Card::DiamondSeven => 7,
            Card::DiamondEight => 8,
            Card::DiamondNine => 9,
            Card::DiamondTen => 10,
            Card::DiamondJack => 10,
            Card::DiamondQueen => 15,
            Card::DiamondKing => 20,
            Card::ClubAce => 1,
            Card::ClubTwo => 2,
            Card::ClubThree => 3,
            Card::ClubFour => 4,
            Card::ClubFive => 5,
            Card::ClubSix => 6,
            Card::ClubSeven => 7,
            Card::ClubEight => 8,
            Card::ClubNine => 9,
            Card::ClubTen => 10,
            Card::ClubJack => 10,
            Card::ClubQueen => 15,
            Card::ClubKing => 20,
            Card::Joker => 0,
        }
    }

    /// The card's value, doubled when it is a club.
    #[verifier::when_used_as_spec(spec_strength)]
    pub fn strength(&self) -> (strength: u8)
        ensures
            strength == self.spec_strength(),
            strength == self.spec_value() * (if self.spec_suit() == Some(Suit::Club) {
                2int
            } else {
                1int
            }),
    {
        let value: u8 = self.value();
        if self.suit() == Some(Suit::Club) {
            value * 2
        } else {
            value
        }
    }

    /// The card's name as an owned string.
    pub fn to_string(&self) -> (text: String)
        ensures
            text@ == self.name(),
    {
        match self {
            Card::HeartAce => "HeartAce".to_owned(),
            Card::HeartTwo => "HeartTwo".to_owned(),
            Card::HeartThree => "HeartThree".to_owned(),
            Card::HeartFour => "HeartFour".to_owned(),
            Card::HeartFive => "HeartFive".to_owned(),
            Card::HeartSix => "HeartSix".to_owned(),
            Card::HeartSeven => "HeartSeven".to_owned(),
            Card::HeartEight => "HeartEight".to_owned(),
            Card::HeartNine => "HeartNine".to_owned(),
            Card::HeartTen => "HeartTen".to_owned(),
            Card::HeartJack => "HeartJack".to_owned(),
            Card::HeartQueen => "HeartQueen".to_owned(),
            Card::HeartKing => "HeartKing".to_owned(),
            Card::SpadeAce => "SpadeAce".to_owned(),
            Card::SpadeTwo => "SpadeTwo".to_owned(),
            Card::SpadeThree => "SpadeThree".to_owned(),
            Card::SpadeFour => "SpadeFour".to_owned(),
            Card::SpadeFive => "SpadeFive".to_owned(),
            Card::SpadeSix => "SpadeSix".to_owned(),
            Card::SpadeSeven => "SpadeSeven".to_owned(),
            Card::SpadeEight => "SpadeEight".to_owned(),
            Card::SpadeNine => "SpadeNine".to_owned(),
            Card::SpadeTen => "SpadeTen".to_owned(),
            Card::SpadeJack => "SpadeJack".to_owned(),
            Card::SpadeQueen => "SpadeQueen".to_owned(),
            Card::SpadeKing => "SpadeKing".to_owned(),
            Card::DiamondAce => "DiamondAce".to_owned(),
            Card::DiamondTwo => "DiamondTwo".to_owned(),
            Card::DiamondThree => "DiamondThree".to_owned(),
            Card::DiamondFour => "DiamondFour".to_owned(),
            Card::DiamondFive => "DiamondFive".to_owned(),
            Card::DiamondSix => "DiamondSix".to_owned(),
            Card::DiamondSeven => "DiamondSeven".to_owned(),
            Card::DiamondEight => "DiamondEight".to_owned(),
            Card::DiamondNine => "DiamondNine".to_owned(),
            Card::DiamondTen => "DiamondTen".to_owned(),
            Card::DiamondJack => "DiamondJack".to_owned(),
            Card::DiamondQueen => "DiamondQueen".to_owned(),
            Card::DiamondKing => "DiamondKing".to_owned(),
            Card::ClubAce => "ClubAce".to_owned(),
            Card::ClubTwo => "ClubTwo".to_owned(),
            Card::ClubThree => "ClubThree".to_owned(),
            Card::ClubFour => "ClubFour".to_owned(),
            Card::ClubFive => "ClubFive".to_owned(),
            Card::ClubSix => "ClubSix".to_owned(),
            Card::ClubSeven => "ClubSeven".to_owned(),
            Card::ClubEight => "ClubEight".to_owned(),
            Card::ClubNine => "ClubNine".to_owned(),
            Card::ClubTen => "ClubTen".to_owned(),
            Card::ClubJack => "ClubJack".to_owned(),
            Card::ClubQueen => "ClubQueen".to_owned(),
            Card::ClubKing => "ClubKing".to_owned(),
            Card::Joker => "Joker".to_owned(),
        }
    }
}

/// A card as it is shown to a client: its suit, its name and its value.
#[derive(Clone, Debug)]
pub struct JsCard {
    pub suit: Option<Suit>,
    pub rank: String,
    pub value: u8,
}

/// What a `JsCard` says, with the name as text.
pub struct JsCardView {
    pub suit: Option<Suit>,
    pub rank: Seq<char>,
    pub value: u8,
}

impl View for JsCard {
    type V = JsCardView;

    /// What the card says.
    open spec fn view(&self) -> JsCardView {
        JsCardView { suit: self.suit, rank: self.rank@, value: self.value }
    }
}

impl Card {
    /// The card as a client sees it.
    pub open spec fn shown(&self) -> JsCardView {
        JsCardView { suit: self.spec_suit(), rank: self.name(), value: self.spec_value() }
    }
}

impl vstd::std_specs::convert::FromSpecImpl<Card> for JsCard {
    /// A `String` cannot be written down in a specification, so the
    /// conversion is described by the view of its result instead.
    open spec fn obeys_from_spec() -> bool {
        false
    }

    /// Not used: see `obeys_from_spec`.
    open spec fn from_spec(card: Card) -> JsCard {
        arbitrary()
    }
}

impl From<Card> for JsCard {
    /// The card as a client sees it.
    fn from(card: Card) -> (shown: JsCard)
        ensures
            shown@ == card.shown(),
    {
        JsCard { suit: card.suit(), rank: card.to_string(), value: card.value() }
    }
}

impl<'a> vstd::std_specs::convert::FromSpecImpl<&'a Card> for JsCard {
    /// As for the conversion of a card by value.
    open spec fn obeys_from_spec() -> bool {
        false
    }

    /// Not used: see `obeys_from_spec`.
    open spec fn from_spec(card: &'a Card) -> JsCard {
        arbitrary()
    }
}

impl<'a> From<&'a Card> for JsCard {
    /// The card as a client sees it.
    fn from(card: &'a Card) -> (shown: JsCard)
        ensures
            shown@ == card.shown(),
    {
        JsCard { suit: card.suit(), rank: card.to_string(), value: card.value() }
    }
}

/// A legal play: the cards that one player lays down together.
#[derive(Clone, Copy, Debug)]
pub enum Combo {
    /// The joker alone.
    Jester,
    /// Any other card alone.
    Single(Card),
    /// A card together with an ace.
    Companion { card: Card, companion: Card },
    /// Two cards of one value, from 2 to 5.
    Pair { one: Card, two: Card },
    /// Three cards of one value, 2 or 3.
    Triple { one: Card, two: Card, three: Card },
    /// All four twos.
    Quad,
}

/// The four twos, in the order in which a quad lists them.
pub open spec fn four_twos() -> Seq<Card> {
    seq![Card::HeartTwo, Card::SpadeTwo, Card::DiamondTwo, Card::ClubTwo]
}

impl Combo {
    /// The attack that the combo deals.
    pub open spec fn spec_strength(&self) -> u8 {
        match *self {
            Combo::Jester => 0,
            Combo::Single(card) => card.spec_strength(),
            Combo::Companion { card, companion } => {
                if card.spec_suit() == Some(Suit::Club) || companion.spec_suit() == Some(Suit::Club) {
                    (2 * (card.spec_value() + 1)) as u8
                } else {
                    (card.spec_value() + 1) as u8
                }
            },
            Combo::Pair { one, two } => (one.spec_strength() + two.spec_strength()) as u8,
            Combo::Triple { one, two, three } => (one.spec_strength() + two.spec_strength()
                + three.spec_strength()) as u8,
            Combo::Quad => 10,
        }
    }

    /// Whether one of the combo's cards is of the given suit.
    pub open spec fn has_suit(&self, suit: Suit) -> bool {
        match *self {
            Combo::Jester => false,
            Combo::Single(card) => card.spec_suit() == Some(suit),
            Combo::Companion { card, companion } => card.spec_suit() == Some(suit)
                || companion.spec_suit() == Some(suit),
            Combo::Pair { one, two } => one.spec_suit() == Some(suit) || two.spec_suit() == Some(
                suit,
            ),
            Combo::Triple { one, two, three } => one.spec_suit() == Some(suit) || two.spec_suit()
                == Some(suit) || three.spec_suit() == Some(suit),
            Combo::Quad => true,
        }
    }

    /// What the combo is worth to a suit's power when it holds that suit.
    pub open spec fn face(&self) -> u8 {
        match *self {
            Combo::Jester => 0,
            Combo::Single(card) => card.spec_value(),
            Combo::Companion { card, companion } => (card.spec_value() + 1) as u8,
            Combo::Pair { one, two } => one.spec_value(),
            Combo::Triple { one, two, three } => one.spec_value(),
            Combo::Quad => 2,
        }
    }

    /// The amount by which the combo feeds the power of `suit`: its face
    /// when it holds the suit, nothing otherwise.
    pub open spec fn spec_suit_value(&self, suit: Suit) -> u8 {
        if self.has_suit(suit) {
            self.face()
        } else {
            0
        }
    }

    /// The cards of the combo, in the order in which they were laid down.
    pub open spec fn spec_cards(&self) -> Seq<Card> {
        match *self {
            Combo::Jester => seq![Card::Joker],
            Combo::Single(card) => seq![card],
            Combo::Companion { card, companion } => seq![card, companion],
            Combo::Pair { one, two } => seq![one, two],
            Combo::Triple { one, two, three } => seq![one, two, three],
            Combo::Quad => four_twos(),
        }
    }

    /// The combo that a list of cards makes, if it makes one.
    pub open spec fn spec_from_cards(cards: Seq<Card>) -> Option<Combo> {
        if cards.len() == 1 {
            if cards[0] == Card::Joker {
                Some(Combo::Jester)
            } else {
                Some(Combo::Single(cards[0]))
            }
        } else if cards.len() == 2 {
            let a = cards[0].spec_value();
            let b = cards[1].spec_value();
            if a != 0 && b == 1 {
                Some(Combo::Companion { card: cards[0], companion: cards[1] })
            } else if a == 1 && b != 0 {
                Some(Combo::Companion { card: cards[1], companion: cards[0] })
            } else if a == b && 1 < a <= 5 {
                Some(Combo::Pair { one: cards[0], two: cards[1] })
            } else {
                None
            }
        } else if cards.len() == 3 {
            let a = cards[0].spec_value();
            if a == cards[1].spec_value() && a == cards[2].spec_value() && 1 < a <= 3 {
                Some(Combo::Triple { one: cards[0], two: cards[1], three: cards[2] })
            } else {
                None
            }
        } else if cards.len() == 4 {
            if forall|i: int| 0 <= i < 4 ==> (#[trigger] cards[i]).spec_value() == 2 {
                Some(Combo::Quad)
            } else {
                None
            }
        } else {
            None
        }
    }

    /// The attack that the combo deals.
    #[verifier::when_used_as_spec(spec_strength)]
    pub fn strength(&self) -> (strength: u8)
        ensures
            strength == self.spec_strength(),
    {
        match self {
            Combo::Jester => 0,
            Combo::Single(card) => card.strength(),
            Combo::Companion { card, companion } => {
                let value: u8 = card.value() + 1;
                if card.suit() == Some(Suit::Club) || companion.suit() == Some(Suit::Club) {
                    value * 2
                } else {
                    value
                }
            },
            Combo::Pair { one, two } => one.strength() + two.strength(),
            Combo::Triple { one, two, three } => one.strength() + two.strength() + three.strength(),
            Combo::Quad => 10,
        }
    }

    /// The amount by which the combo feeds the power of `suit`.
    #[verifier::when_used_as_spec(spec_suit_value)]
    pub fn suit_value(&self, suit: Suit) -> (value: u8)
        ensures
            value == self.spec_suit_value(suit),
    {
        match self {
            Combo::Jester => 0,
            Combo::Single(card) => {
                if card.suit() == Some(suit) {
                    card.value()
                } else {
                    0
                }
            },
            Combo::Companion { card, companion } => {
                let value: u8 = card.value() + 1;
                if card.suit() == Some(suit) || companion.suit() == Some(suit) {
                    value
                } else {
                    0
                }
            },
            Combo::Pair { one, two } => {
                if one.suit() == Some(suit) || two.suit() == Some(suit) {
                    one.value()
                } else {
                    0
                }
            },
            Combo::Triple { one, two, three } => {
                if one.suit() == Some(suit) || two.suit() == Some(suit) || three.suit() == Some(
                    suit,
                ) {
                    one.value()
                } else {
                    0
                }
            },
            Combo::Quad => 2,
        }
    }

    /// The cards of the combo, in the order in which they were laid down.
    pub fn cards(self) -> (cards: Vec<Card>)
        ensures
            cards@ == self.spec_cards(),
    {
        match self {
            Combo::Jester => vec![Card::Joker],
            Combo::Single(card) => vec![card],
            Combo::Companion { card, companion } => vec![card, companion],
            Combo::Pair { one, two } => vec![one, two],
            Combo::Triple { one, two, three } => vec![one, two, three],
            Combo::Quad => vec![Card::HeartTwo, Card::SpadeTwo, Card::DiamondTwo, Card::ClubTwo],
        }
    }

    /// The cards of the combo as clients see them.
    pub fn js_cards(self) -> (shown: Vec<JsCard>)
        ensures
            shown@.len() == self.spec_cards().len(),
            forall|i: int|
                0 <= i < shown@.len() ==> (#[trigger] shown@[i])@ == self.spec_cards()[i].shown(),
    {
        let cards = self.cards();
        let mut shown: Vec<JsCard> = Vec::new();
        let mut i: usize = 0;
        while i < cards.len()
            invariant
                i <= cards.len(),
                cards@ == self.spec_cards(),
                shown@.len() == i,
                forall|j: int| 0 <= j < i ==> (#[trigger] shown@[j])@ == cards@[j].shown(),
            decreases cards.len() - i,
        {
            shown.push(JsCard::from(cards[i]));
            i += 1;
        }
        shown
    }

    /// The combo that the cards make, if they make one.
    pub fn from_cards(cards: Vec<Card>) -> (combo: Option<Combo>)
        ensures
            combo == Combo::spec_from_cards(cards@),
    {
        if cards.len() == 1 {
            let one = cards[0];
            if one == Card::Joker {
                Some(Combo::Jester)
            } else {
                Some(Combo::Single(one))
            }
        } else if cards.len() == 2 {
            let one = cards[0];
            let two = cards[1];
            let a: u8 = one.value();
            let b: u8 = two.value();
            if a != 0 && b == 1 {
                Some(Combo::Companion { card: one, companion: two })
            } else if a == 1 && b != 0 {
                Some(Combo::Companion { card: two, companion: one })
            } else if a == b && a > 1 && a <= 5 {
                Some(Combo::Pair { one, two })
            } else {
                None
            }
        } else if cards.len() == 3 {
            let one = cards[0];
            let two = cards[1];
            let three = cards[2];
            if one.value() == two.value() && one.value() == three.value() && one.value() <= 3
                && one.value() > 1 {
                Some(Combo::Triple { one, two, three })
            } else {
                None
            }
        } else if cards.len() == 4 {
            if cards[0].value() == 2 && cards[1].value() == 2 && cards[2].value() == 2
                && cards[3].value() == 2 {
                Some(Combo::Quad)
            } else {
                None
            }
        } else {
            None
        }
    }
}

} // verus!
