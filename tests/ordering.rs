use shedding_rules::card::{Card, Rank, Suit};
use shedding_rules::player_move::{Move, Trick};

fn c(rank: Rank, suit: Suit) -> Card {
    Card::new(rank, suit)
}

#[test]
fn categories_are_ordered_regardless_of_cards() {
    let ace = c(Rank::Ace, Suit::Clubs);
    let two = c(Rank::Two, Suit::Spades);
    let single = Move::Single(ace);
    let pair = Move::Pair(two, two);
    let prial = Move::Prial(two, two, two);
    let trick = Move::FiveCardTrick(Trick::Straight(two, two, two, two, two));
    assert!(single.exceeds(&Move::Pass));
    assert!(pair.exceeds(&single));
    assert!(prial.exceeds(&pair));
    assert!(trick.exceeds(&prial));
    assert!(!single.exceeds(&pair));
    assert!(!Move::Pass.exceeds(&Move::Pass));
}

#[test]
fn higher_rank_beats_lower_within_a_category() {
    let nine = Move::Single(c(Rank::Nine, Suit::Spades));
    let five = Move::Single(c(Rank::Five, Suit::Clubs));
    assert!(nine.exceeds(&five));
    assert!(!five.exceeds(&nine));
    assert!(!nine.exceeds(&nine));
}

#[test]
fn suit_breaks_ties_of_rank() {
    let spade = Move::Single(c(Rank::Nine, Suit::Spades));
    let heart = Move::Single(c(Rank::Nine, Suit::Hearts));
    assert!(heart.exceeds(&spade));
    assert!(!spade.exceeds(&heart));
}

#[test]
fn later_cards_decide_when_earlier_ones_tie() {
    let a = c(Rank::Eight, Suit::Spades);
    let b = c(Rank::Eight, Suit::Hearts);
    let d = c(Rank::Eight, Suit::Clubs);
    assert!(Move::Pair(a, d).exceeds(&Move::Pair(a, b)));
}

#[test]
fn trick_kind_decides_before_cards() {
    let low = c(Rank::Two, Suit::Spades);
    let high = c(Rank::Ace, Suit::Clubs);
    let flush = Move::FiveCardTrick(Trick::Flush(low, low, low, low, low));
    let straight = Move::FiveCardTrick(Trick::Straight(high, high, high, high, high));
    assert!(flush.exceeds(&straight));
}

#[test]
fn ordering_keys() {
    assert_eq!(c(Rank::Two, Suit::Spades).key(), 0);
    assert_eq!(c(Rank::Ace, Suit::Clubs).key(), 51);
    assert_eq!(Move::Pass.key(), vec![0]);
    assert_eq!(Move::Single(c(Rank::Four, Suit::Hearts)).key(), vec![1, 9]);
    let a = c(Rank::Three, Suit::Diamonds);
    assert_eq!(
        Move::FiveCardTrick(Trick::FullHouse(a, a, a, a, a)).key(),
        vec![4, 2, 6, 6, 6, 6, 6]
    );
}

#[test]
fn categories_compare_by_category_alone() {
    let a = c(Rank::Three, Suit::Diamonds);
    assert!(Move::Single(a).same_category(&Move::Single(c(Rank::Ace, Suit::Clubs))));
    assert!(!Move::Single(a).same_category(&Move::Pair(a, a)));
}
