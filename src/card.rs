use vstd::prelude::*;

verus! {

/// Rank of a card, from lowest to highest.
#[derive(Clone, Copy, Debug, PartialEq, Eq, Structural, Hash)]
pub enum Rank {
    Two,
    Three,
    Four,
    Five,
    Six,
    Seven,
    Eight,
    Nine,
    Ten,
    Jack,
    Queen,
    King,
    Ace,
}

/// Suit of a card; suits only matter for equality and as a tie-break in ordering.
#[derive(Clone, Copy, Debug, PartialEq, Eq, Structural, Hash)]
pub enum Suit {
    Spades,
    Hearts,
    Diamonds,
    Clubs,
}

/// A playing card.
#[derive(Clone, Copy, Debug, PartialEq, Eq, Structural, Hash)]
pub struct Card {
    pub rank: Rank,
    pub suit: Suit,
}

impl Rank {
    /// Position of the rank in the order of ranks, `Two` being 0.
    pub open spec fn spec_level(self) -> int {
        match self {
            Rank::Two => 0,
            Rank::Three => 1,
            Rank::Four => 2,
            Rank::Five => 3,
            Rank::Six => 4,
            Rank::Seven => 5,
            Rank::Eight => 6,
            Rank::Nine => 7,
            Rank::Ten => 8,
            Rank::Jack => 9,
            Rank::Queen => 10,
            Rank::King => 11,
            Rank::Ace => 12,
        }
    }

    /// The rank immediately below this one; none below the lowest rank.
    pub open spec fn spec_previous(self) -> Option<Rank> {
        match self {
            Rank::Two => None,
            Rank::Three => Some(Rank::Two),
            Rank::Four => Some(Rank::Three),
            Rank::Five => Some(Rank::Four),
            Rank::Six => Some(Rank::Five),
            Rank::Seven => Some(Rank::Six),
            Rank::Eight => Some(Rank::Seven),
            Rank::Nine => Some(Rank::Eight),
            Rank::Ten => Some(Rank::Nine),
            Rank::Jack => Some(Rank::Ten),
            Rank::Queen => Some(Rank::Jack),
            Rank::King => Some(Rank::Queen),
            Rank::Ace => Some(Rank::King),
        }
    }

    pub fn level(&self) -> (r: u8)
        ensures
            r as int == self.spec_level(),
    {
        match self {
            Rank::Two => 0,
            Rank::Three => 1,
            Rank::Four => 2,
            Rank::Five => 3,
            Rank::Six => 4,
            Rank::Seven => 5,
            Rank::Eight => 6,
            Rank::Nine => 7,
            Rank::Ten => 8,
            Rank::Jack => 9,
            Rank::Queen => 10,
            Rank::King => 11,
            Rank::Ace => 12,
        }
    }

    pub fn previous(&self) -> (r: Option<Rank>)
        ensures
            r == self.spec_previous(),
    {
        match self {
            Rank::Two => None,
            Rank::Three => Some(Rank::Two),
            Rank::Four => Some(Rank::Three),
            Rank::Five => Some(Rank::Four),
            Rank::Six => Some(Rank::Five),
            Rank::Seven => Some(Rank::Six),
            Rank::Eight => Some(Rank::Seven),
            Rank::Nine => Some(Rank::Eight),
            Rank::Ten => Some(Rank::Nine),
            Rank::Jack => Some(Rank::Ten),
            Rank::Queen => Some(Rank::Jack),
            Rank::King => Some(Rank::Queen),
            Rank::Ace => Some(Rank::King),
        }
    }
}

/// The previous rank is exactly the rank one level lower.
pub proof fn lemma_previous_is_one_lower(a: Rank, b: Rank)
    ensures
        a.spec_previous() == Some(b) <==> a.spec_level() == b.spec_level() + 1,
{
}

impl Suit {
    /// Position of the suit in the tie-break order, `Spades` being 0.
    pub open spec fn spec_level(self) -> int {
        match self {
            Suit::Spades => 0,
            Suit::Hearts => 1,
            Suit::Diamonds => 2,
            Suit::Clubs => 3,
        }
    }

    pub fn level(&self) -> (r: u8)
        ensures
            r as int == self.spec_level(),
    {
        match self {
            Suit::Spades => 0,
            Suit::Hearts => 1,
            Suit::Diamonds => 2,
            Suit::Clubs => 3,
        }
    }
}

impl Card {
    /// Ordering key of a card: by rank first, then by suit.
    pub open spec fn spec_key(self) -> int {
        self.rank.spec_level() * 4 + self.suit.spec_level()
    }

    pub fn new(rank: Rank, suit: Suit) -> (r: Card)
        ensures
            r == (Card { rank, suit }),
    {
        Card { rank, suit }
    }

    /// The rank immediately below this card's rank, if any.
    pub fn previous_rank(&self) -> (r: Option<Rank>)
        ensures
            r == self.rank.spec_previous(),
    {
        self.rank.previous()
    }

    pub fn key(&self) -> (r: u8)
        ensures
            r as int == self.spec_key(),
    {
        self.rank.level() * 4 + self.suit.level()
    }
}

} // verus!
