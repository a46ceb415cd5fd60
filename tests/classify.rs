use shedding_rules::card::{Card, Rank, Suit};
use shedding_rules::player_move::{build_move, Move, Trick};

fn c(rank: Rank, suit: Suit) -> Card {
    Card::new(rank, suit)
}

#[test]
fn no_cards_is_a_pass() {
    assert_eq!(build_move(vec![]), Some(Move::Pass));
}

#[test]
fn one_card_is_a_single() {
    let a = c(Rank::Seven, Suit::Spades);
    assert_eq!(build_move(vec![a]), Some(Move::Single(a)));
}

#[test]
fn two_cards_of_one_rank_are_a_pair() {
    let a = c(Rank::Nine, Suit::Spades);
    let b = c(Rank::Nine, Suit::Clubs);
    assert_eq!(build_move(vec![a, b]), Some(Move::Pair(a, b)));
}

#[test]
fn two_cards_of_two_ranks_are_rejected() {
    let a = c(Rank::Nine, Suit::Spades);
    let b = c(Rank::Ten, Suit::Spades);
    assert_eq!(build_move(vec![a, b]), None);
}

#[test]
fn three_of_one_rank_are_a_prial() {
    let a = c(Rank::Four, Suit::Spades);
    let b = c(Rank::Four, Suit::Hearts);
    let d = c(Rank::Four, Suit::Diamonds);
    assert_eq!(build_move(vec![a, b, d]), Some(Move::Prial(a, b, d)));
}

#[test]
fn three_of_mixed_rank_are_rejected() {
    let a = c(Rank::Four, Suit::Spades);
    let b = c(Rank::Four, Suit::Hearts);
    let d = c(Rank::Five, Suit::Diamonds);
    assert_eq!(build_move(vec![a, b, d]), None);
}

#[test]
fn four_and_six_cards_are_rejected() {
    let a = c(Rank::Four, Suit::Spades);
    assert_eq!(build_move(vec![a, a, a, a]), None);
    assert_eq!(build_move(vec![a, a, a, a, a, a]), None);
}

#[test]
fn five_of_one_rank() {
    let a = c(Rank::Ace, Suit::Spades);
    let b = c(Rank::Ace, Suit::Hearts);
    assert_eq!(
        build_move(vec![a, b, a, b, a]),
        Some(Move::FiveCardTrick(Trick::FiveOfAKind(a, b, a, b, a)))
    );
}

#[test]
fn four_over_one_either_way_round() {
    let k = c(Rank::King, Suit::Spades);
    let t = c(Rank::Two, Suit::Hearts);
    assert_eq!(
        build_move(vec![k, k, t, k, k]),
        Some(Move::FiveCardTrick(Trick::FourOfAKind(k, k, t, k, k)))
    );
    assert_eq!(
        build_move(vec![t, k, k, k, k]),
        Some(Move::FiveCardTrick(Trick::FourOfAKind(t, k, k, k, k)))
    );
}

#[test]
fn three_over_two_either_way_round() {
    let q = c(Rank::Queen, Suit::Clubs);
    let s = c(Rank::Six, Suit::Hearts);
    assert_eq!(
        build_move(vec![q, s, q, s, q]),
        Some(Move::FiveCardTrick(Trick::FullHouse(q, s, q, s, q)))
    );
    assert_eq!(
        build_move(vec![s, q, s, q, q]),
        Some(Move::FiveCardTrick(Trick::FullHouse(s, q, s, q, q)))
    );
}

#[test]
fn three_ranks_among_five_are_rejected() {
    let a = c(Rank::Three, Suit::Clubs);
    let b = c(Rank::Four, Suit::Clubs);
    let d = c(Rank::Five, Suit::Clubs);
    assert_eq!(build_move(vec![a, a, b, b, d]), None);
}

#[test]
fn ascending_one_suit_is_a_straight_flush() {
    let h = [
        c(Rank::Five, Suit::Hearts),
        c(Rank::Six, Suit::Hearts),
        c(Rank::Seven, Suit::Hearts),
        c(Rank::Eight, Suit::Hearts),
        c(Rank::Nine, Suit::Hearts),
    ];
    assert_eq!(
        build_move(h.to_vec()),
        Some(Move::FiveCardTrick(Trick::StraightFlush(h[0], h[1], h[2], h[3], h[4])))
    );
}

#[test]
fn ascending_mixed_suits_is_a_straight() {
    let h = [
        c(Rank::Ten, Suit::Hearts),
        c(Rank::Jack, Suit::Spades),
        c(Rank::Queen, Suit::Hearts),
        c(Rank::King, Suit::Clubs),
        c(Rank::Ace, Suit::Diamonds),
    ];
    assert_eq!(
        build_move(h.to_vec()),
        Some(Move::FiveCardTrick(Trick::Straight(h[0], h[1], h[2], h[3], h[4])))
    );
}

#[test]
fn shuffled_straight_is_rejected() {
    let h = vec![
        c(Rank::Jack, Suit::Spades),
        c(Rank::Ten, Suit::Hearts),
        c(Rank::Queen, Suit::Hearts),
        c(Rank::King, Suit::Clubs),
        c(Rank::Ace, Suit::Diamonds),
    ];
    assert_eq!(build_move(h), None);
}

#[test]
fn descending_is_not_a_straight() {
    let h = vec![
        c(Rank::Six, Suit::Spades),
        c(Rank::Five, Suit::Hearts),
        c(Rank::Four, Suit::Hearts),
        c(Rank::Three, Suit::Clubs),
        c(Rank::Two, Suit::Diamonds),
    ];
    assert_eq!(build_move(h), None);
}

#[test]
fn shuffled_one_suit_is_a_flush() {
    let h = [
        c(Rank::Jack, Suit::Clubs),
        c(Rank::Two, Suit::Clubs),
        c(Rank::Nine, Suit::Clubs),
        c(Rank::Four, Suit::Clubs),
        c(Rank::Ace, Suit::Clubs),
    ];
    assert_eq!(
        build_move(h.to_vec()),
        Some(Move::FiveCardTrick(Trick::Flush(h[0], h[1], h[2], h[3], h[4])))
    );
}

#[test]
fn previous_rank_of_lowest_is_none() {
    assert_eq!(c(Rank::Two, Suit::Spades).previous_rank(), None);
    assert_eq!(c(Rank::Three, Suit::Spades).previous_rank(), Some(Rank::Two));
    assert_eq!(c(Rank::Ace, Suit::Spades).previous_rank(), Some(Rank::King));
}
