use shedding_rules::card::{Card, Rank, Suit};
use shedding_rules::player_move::Move;
use shedding_rules::round::Round;

fn single(rank: Rank, suit: Suit) -> Move {
    Move::Single(Card::new(rank, suit))
}

fn accepted(r: Result<Round, Round>) -> Round {
    match r {
        Ok(next) => next,
        Err(_) => panic!("the play should have been accepted"),
    }
}

fn rejected(r: Result<Round, Round>) -> Round {
    match r {
        Ok(_) => panic!("the play should have been rejected"),
        Err(same) => same,
    }
}

#[test]
fn turn_passes_to_next_player() {
    let round = Round::new(vec![1, 2, 3], 1, Move::Pass);
    let after_pass = accepted(round.play(1, Move::Pass));
    assert_eq!(after_pass.get_next_player(), 2);
    let after_play = accepted(round.play(1, single(Rank::Five, Suit::Hearts)));
    assert_eq!(after_play.get_next_player(), 2);
}

#[test]
fn turn_wraps_after_last_player() {
    let round = Round::new(vec![1, 2, 3], 3, Move::Pass);
    let next = accepted(round.play(3, Move::Pass));
    assert_eq!(next.get_next_player(), 1);
}

#[test]
fn pass_keeps_the_baseline() {
    let seven = single(Rank::Seven, Suit::Spades);
    let round = Round::new(vec![1, 2, 3], 1, seven);
    let next = accepted(round.play(1, Move::Pass));
    assert_eq!(next.last_move(), seven);
    assert_eq!(next.get_next_player(), 2);
    let still = rejected(next.play(2, single(Rank::Six, Suit::Clubs)));
    assert_eq!(still.last_move(), seven);
    assert_eq!(still.get_next_player(), 2);
    let beaten = accepted(next.play(2, single(Rank::Eight, Suit::Spades)));
    assert_eq!(beaten.last_move(), single(Rank::Eight, Suit::Spades));
    assert_eq!(beaten.get_next_player(), 3);
}

#[test]
fn wrong_player_gets_round_back_unchanged() {
    let seven = single(Rank::Seven, Suit::Spades);
    let round = Round::new(vec![1, 2, 3], 1, seven);
    let same = rejected(round.play(2, single(Rank::Ace, Suit::Clubs)));
    assert_eq!(same.players(), &vec![1, 2, 3]);
    assert_eq!(same.get_next_player(), 1);
    assert_eq!(same.last_move(), seven);
}

#[test]
fn other_category_is_rejected() {
    let seven = single(Rank::Seven, Suit::Spades);
    let round = Round::new(vec![4, 9], 9, seven);
    let a = Card::new(Rank::Ace, Suit::Clubs);
    let same = rejected(round.play(9, Move::Pair(a, a)));
    assert_eq!(same.last_move(), seven);
    assert_eq!(same.get_next_player(), 9);
}

#[test]
fn opening_after_a_pass_baseline_keeps_it() {
    let round = Round::new(vec![1, 2], 2, Move::Pass);
    let a = Card::new(Rank::Ace, Suit::Clubs);
    let next = accepted(round.play(2, Move::Pair(a, a)));
    assert_eq!(next.last_move(), Move::Pass);
    assert_eq!(next.get_next_player(), 1);
}

#[test]
fn opening_from_pass_baseline_rotates_and_keeps_pass() {
    let round = Round::new(vec![1, 2], 1, Move::Pass);
    let r1 = accepted(round.play(1, single(Rank::Five, Suit::Hearts)));
    assert_eq!(r1.players(), &vec![1, 2]);
    assert_eq!(r1.get_next_player(), 2);
    assert_eq!(r1.last_move(), Move::Pass);
    let r2 = accepted(r1.play(2, single(Rank::Three, Suit::Hearts)));
    assert_eq!(r2.get_next_player(), 1);
    assert_eq!(r2.last_move(), Move::Pass);
}

#[test]
fn end_to_end_from_content_baseline() {
    let round = Round::new(vec![1, 2], 1, single(Rank::Four, Suit::Hearts));
    let r1 = accepted(round.play(1, single(Rank::Five, Suit::Hearts)));
    assert_eq!(r1.players(), &vec![1, 2]);
    assert_eq!(r1.get_next_player(), 2);
    assert_eq!(r1.last_move(), single(Rank::Five, Suit::Hearts));
    let r2 = rejected(r1.play(2, single(Rank::Three, Suit::Hearts)));
    assert_eq!(r2.players(), &vec![1, 2]);
    assert_eq!(r2.get_next_player(), 2);
    assert_eq!(r2.last_move(), single(Rank::Five, Suit::Hearts));
    let r3 = accepted(r2.play(2, single(Rank::Nine, Suit::Hearts)));
    assert_eq!(r3.players(), &vec![1, 2]);
    assert_eq!(r3.get_next_player(), 1);
    assert_eq!(r3.last_move(), single(Rank::Nine, Suit::Hearts));
}
