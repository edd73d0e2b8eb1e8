use vstd::prelude::*;

verus! {

/// The four suits. The order is the one that hand ranking uses.
#[derive(Debug, Clone, Copy, PartialEq, Eq, Structural)]
pub enum AtlasSuit {
    Spade,
    Club,
    Heart,
    Diamond,
}

/// The thirteen card values, lowest first.
#[derive(Debug, Clone, Copy, PartialEq, Eq, Structural)]
pub enum AtlasValue {
    Two,
    Three,
    Four,
    Five,
    Six,
    Seven,
    Eight,
    Nine,
    Ten,
    Jack,
    Queen,
    King,
    Ace,
}

/// A playing card.
#[derive(Debug, Clone, Copy, PartialEq, Eq, Structural)]
pub struct AtlasCard {
    pub suit: AtlasSuit,
    pub value: AtlasValue,
}

/// Position of a suit in the order Spade, Club, Heart, Diamond.
pub open spec fn suit_index(s: AtlasSuit) -> nat {
    match s {
        AtlasSuit::Spade => 0,
        AtlasSuit::Club => 1,
        AtlasSuit::Heart => 2,
        AtlasSuit::Diamond => 3,
    }
}

/// Position of a value, `Two` being 0 and `Ace` 12.
pub open spec fn value_index(v: AtlasValue) -> nat {
    match v {
        AtlasValue::Two => 0,
        AtlasValue::Three => 1,
        AtlasValue::Four => 2,
        AtlasValue::Five => 3,
        AtlasValue::Six => 4,
        AtlasValue::Seven => 5,
        AtlasValue::Eight => 6,
        AtlasValue::Nine => 7,
        AtlasValue::Ten => 8,
        AtlasValue::Jack => 9,
        AtlasValue::Queen => 10,
        AtlasValue::King => 11,
        AtlasValue::Ace => 12,
    }
}

/// The suit at a position, the inverse of `suit_index`.
pub open spec fn suit_at(i: nat) -> AtlasSuit {
    if i == 0 {
        AtlasSuit::Spade
    } else if i == 1 {
        AtlasSuit::Club
    } else if i == 2 {
        AtlasSuit::Heart
    } else {
        AtlasSuit::Diamond
    }
}

/// The value at a position, the inverse of `value_index`.
pub open spec fn value_at(i: nat) -> AtlasValue {
    if i == 0 {
        AtlasValue::Two
    } else if i == 1 {
        AtlasValue::Three
    } else if i == 2 {
        AtlasValue::Four
    } else if i == 3 {
        AtlasValue::Five
    } else if i == 4 {
        AtlasValue::Six
    } else if i == 5 {
        AtlasValue::Seven
    } else if i == 6 {
        AtlasValue::Eight
    } else if i == 7 {
        AtlasValue::Nine
    } else if i == 8 {
        AtlasValue::Ten
    } else if i == 9 {
        AtlasValue::Jack
    } else if i == 10 {
        AtlasValue::Queen
    } else if i == 11 {
        AtlasValue::King
    } else {
        AtlasValue::Ace
    }
}

pub proof fn lemma_suit_roundtrip(s: AtlasSuit)
    ensures
        suit_index(s) < 4,
        suit_at(suit_index(s)) == s,
{
}

pub proof fn lemma_value_roundtrip(v: AtlasValue)
    ensures
        value_index(v) < 13,
        value_at(value_index(v)) == v,
{
}

impl AtlasSuit {
    /// The suit's position in hand ranking order.
    pub fn index(&self) -> (r: u8)
        ensures
            r == suit_index(*self),
    {
        match self {
            AtlasSuit::Spade => 0,
            AtlasSuit::Club => 1,
            AtlasSuit::Heart => 2,
            AtlasSuit::Diamond => 3,
        }
    }

    /// The symbol by which the suit is shown.
    pub fn symbol(&self) -> (r: &'static str)
        ensures
            r@ == suit_symbol(*self)@,
    {
        match self {
            AtlasSuit::Heart => "\u{2665}",
            AtlasSuit::Diamond => "\u{2666}",
            AtlasSuit::Club => "\u{2663}",
            AtlasSuit::Spade => "\u{2660}",
        }
    }
}

/// The symbol of a suit.
pub open spec fn suit_symbol(s: AtlasSuit) -> &'static str {
    match s {
        AtlasSuit::Heart => "\u{2665}",
        AtlasSuit::Diamond => "\u{2666}",
        AtlasSuit::Club => "\u{2663}",
        AtlasSuit::Spade => "\u{2660}",
    }
}

impl AtlasValue {
    /// The value's position, `Two` being 0 and `Ace` 12.
    pub fn index(&self) -> (r: u8)
        ensures
            r == value_index(*self),
    {
        match self {
            AtlasValue::Two => 0,
            AtlasValue::Three => 1,
            AtlasValue::Four => 2,
            AtlasValue::Five => 3,
            AtlasValue::Six => 4,
            AtlasValue::Seven => 5,
            AtlasValue::Eight => 6,
            AtlasValue::Nine => 7,
            AtlasValue::Ten => 8,
            AtlasValue::Jack => 9,
            AtlasValue::Queen => 10,
            AtlasValue::King => 11,
            AtlasValue::Ace => 12,
        }
    }

    /// The character by which the value is shown.
    pub fn symbol(&self) -> (r: &'static str)
        ensures
            r@ == value_symbol(*self)@,
    {
        match self {
            AtlasValue::Two => "2",
            AtlasValue::Three => "3",
            AtlasValue::Four => "4",
            AtlasValue::Five => "5",
            AtlasValue::Six => "6",
            AtlasValue::Seven => "7",
            AtlasValue::Eight => "8",
            AtlasValue::Nine => "9",
            AtlasValue::Ten => "T",
            AtlasValue::Jack => "J",
            AtlasValue::Queen => "Q",
            AtlasValue::King => "K",
            AtlasValue::Ace => "A",
        }
    }
}

/// The character of a value.
pub open spec fn value_symbol(v: AtlasValue) -> &'static str {
    match v {
        AtlasValue::Two => "2",
        AtlasValue::Three => "3",
        AtlasValue::Four => "4",
        AtlasValue::Five => "5",
        AtlasValue::Six => "6",
        AtlasValue::Seven => "7",
        AtlasValue::Eight => "8",
        AtlasValue::Nine => "9",
        AtlasValue::Ten => "T",
        AtlasValue::Jack => "J",
        AtlasValue::Queen => "Q",
        AtlasValue::King => "K",
        AtlasValue::Ace => "A",
    }
}

/// A card as the pair (value position, suit position) that hand ranking reads.
pub open spec fn card_code(c: AtlasCard) -> (u8, u8) {
    (value_index(c.value) as u8, suit_index(c.suit) as u8)
}

pub proof fn lemma_card_code_injective(a: AtlasCard, b: AtlasCard)
    ensures
        card_code(a) == card_code(b) ==> a == b,
{
    lemma_suit_roundtrip(a.suit);
    lemma_suit_roundtrip(b.suit);
    lemma_value_roundtrip(a.value);
    lemma_value_roundtrip(b.value);
}

impl AtlasCard {
    /// The card as (value position, suit position).
    pub fn code(&self) -> (r: (u8, u8))
        ensures
            r == card_code(*self),
    {
        (self.value.index(), self.suit.index())
    }
}

} // verus!
