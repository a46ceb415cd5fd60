//! Rules core of a shedding card game: classifying played cards into moves,
//! ordering moves, and advancing the turn order of a round.

pub mod card;
pub mod player_move;
pub mod round;
