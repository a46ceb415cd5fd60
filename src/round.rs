use vstd::prelude::*;
use crate::player_move::Move;

verus! {

/// The mathematical state of a round.
pub ghost struct RoundView {
    pub players: Seq<i32>,
    pub current_player: i32,
    pub last_move: Move,
}

/// The roster is in strictly ascending order, so each player stands at one position.
pub open spec fn strictly_ascending(p: Seq<i32>) -> bool {
    forall|i: int, j: int| 0 <= i < j < p.len() ==> #[trigger] p[i] < #[trigger] p[j]
}

/// Position of a player in the roster.
pub open spec fn position_of(p: Seq<i32>, player: i32) -> int {
    choose|i: int| 0 <= i < p.len() && p[i] == player
}

/// The player who follows `player` in the roster, wrapping after the last.
pub open spec fn next_in_rotation(p: Seq<i32>, player: i32) -> i32 {
    let i = position_of(p, player);
    if i + 1 < p.len() {
        p[i + 1]
    } else {
        p[0]
    }
}

/// A content move is legal against a content baseline when it is of the same category
/// and strictly after the baseline in the order of moves.
pub open spec fn beats(new_move: Move, baseline: Move) -> bool {
    new_move.category() == baseline.category() && baseline.spec_lt(new_move)
}

impl RoundView {
    pub open spec fn wf(self) -> bool {
        &&& self.players.len() > 0
        &&& strictly_ascending(self.players)
        &&& self.players.contains(self.current_player)
    }

    /// The round after `player` attempts `new_move`; `None` where the attempt is rejected.
    pub open spec fn attempt(self, player: i32, new_move: Move) -> Option<RoundView> {
        if player != self.current_player {
            None
        } else if self.last_move == Move::Pass || new_move == Move::Pass {
            Some(
                RoundView {
                    players: self.players,
                    current_player: next_in_rotation(self.players, self.current_player),
                    last_move: self.last_move,
                },
            )
        } else if beats(new_move, self.last_move) {
            Some(
                RoundView {
                    players: self.players,
                    current_player: next_in_rotation(self.players, self.current_player),
                    last_move: new_move,
                },
            )
        } else {
            None
        }
    }
}

/// One round of play among a fixed roster.
#[derive(Clone, Debug)]
pub struct Round {
    players: Vec<i32>,
    current_player: i32,
    last_move: Move,
}

impl View for Round {
    type V = RoundView;

    closed spec fn view(&self) -> RoundView {
        RoundView {
            players: self.players@,
            current_player: self.current_player,
            last_move: self.last_move,
        }
    }
}


impl Round {
    /// Creates a round. The roster must be in strictly ascending order and hold the
    /// current player.
    pub fn new(players: Vec<i32>, current_player: i32, last_move: Move) -> (r: Round)
        requires
            strictly_ascending(players@),
            players@.contains(current_player),
        ensures
            r@ == (RoundView { players: players@, current_player, last_move }),
            r@.wf(),
    {
        Round { players, current_player, last_move }
    }

    /// Plays a move in the round: `Ok` with the next round where the play is accepted,
    /// `Err` with this round unchanged where it is rejected.
    pub fn play(&self, player_id: i32, new_move: Move) -> (r: Result<Round, Round>)
        requires
            self@.wf(),
        ensures
            match r {
                Ok(next) => self@.attempt(player_id, new_move) == Some(next@) && next@.wf(),
                Err(same) => self@.attempt(player_id, new_move) is None && same@ == self@,
            },
    {
        if player_id != self.current_player {
            return Err(self.duplicate());
        }
        let next_player = self.next_player();
        if self.last_move == Move::Pass || new_move == Move::Pass {
            Ok(Round { players: self.copy_players(), current_player: next_player, last_move: self.last_move })
        } else if self.valid_move(new_move) {
            Ok(Round { players: self.copy_players(), current_player: next_player, last_move: new_move })
        } else {
            Err(self.duplicate())
        }
    }

    /// The player whose move is awaited.
    pub fn get_next_player(&self) -> (r: i32)
        ensures
            r == self@.current_player,
    {
        self.current_player
    }

    /// The roster, in order.
    pub fn players(&self) -> (r: &Vec<i32>)
        ensures
            r@ == self@.players,
    {
        &self.players
    }

    /// The baseline that the next content move has to beat.
    pub fn last_move(&self) -> (r: Move)
        ensures
            r == self@.last_move,
    {
        self.last_move
    }

    fn copy_players(&self) -> (r: Vec<i32>)
        ensures
            r@ == self.players@,
    {
        let r = self.players.clone();
        assert(r@ =~= self.players@);
        r
    }

    fn duplicate(&self) -> (r: Round)
        ensures
            r@ == self@,
    {
        Round { players: self.copy_players(), current_player: self.current_player, last_move: self.last_move }
    }

    /// The player after the current one, wrapping after the last.
    fn next_player(&self) -> (r: i32)
        requires
            self@.wf(),
        ensures
            r == next_in_rotation(self.players@, self.current_player),
    {
        let p = &self.players;
        let mut i: usize = 0;
        while p[i] != self.current_player
            invariant
                self@.wf(),
                p@ == self.players@,
                i < p.len(),
                forall|k: int| 0 <= k < i ==> #[trigger] p@[k] != self.current_player,
            decreases p.len() - i,
        {
            i += 1;
            if i == p.len() {
                assert(!p@.contains(self.current_player));
            }
        }
        proof {
            let c = position_of(p@, self.current_player);
            assert(0 <= i < p@.len() && p@[i as int] == self.current_player);
            assert(c == i) by {
                if c < i {
                    assert(p@[c] < p@[i as int]);
                } else if c > i {
                    assert(p@[i as int] < p@[c]);
                }
            }
        }
        if i + 1 < p.len() {
            p[i + 1]
        } else {
            p[0]
        }
    }

    /// Whether a content move beats the baseline: same category, strictly after it.
    fn valid_move(&self, new_move: Move) -> (r: bool)
        ensures
            r == beats(new_move, self.last_move),
    {
        new_move.same_category(&self.last_move) && new_move.exceeds(&self.last_move)
    }
}


/// Passing keeps the baseline: after a pass the last move is unchanged, and the next
/// content move is accepted only if it beats that baseline.
pub proof fn lemma_pass_keeps_baseline(v: RoundView, content: Move)
    requires
        v.wf(),
        v.last_move !is Pass,
        content !is Pass,
    ensures
        v.attempt(v.current_player, Move::Pass) is Some,
        v.attempt(v.current_player, Move::Pass)->Some_0.last_move == v.last_move,
        ({
            let n = v.attempt(v.current_player, Move::Pass)->Some_0;
            n.attempt(n.current_player, content) is Some <==> beats(content, v.last_move)
        }),
{
}

/// An attempt by anyone but the current player is rejected.
pub proof fn lemma_wrong_player_rejected(v: RoundView, player: i32, m: Move)
    requires
        player != v.current_player,
    ensures
        v.attempt(player, m) is None,
{
}

/// Every accepted attempt keeps the roster and passes the turn to the next player.
pub proof fn lemma_accepted_rotates(v: RoundView, player: i32, m: Move)
    requires
        v.attempt(player, m) is Some,
    ensures
        v.attempt(player, m)->Some_0.players == v.players,
        v.attempt(player, m)->Some_0.current_player == next_in_rotation(v.players, v.current_player),
{
}


/// In a well-formed roster the next player is the one at the following position, and the
/// first one after the last.
pub proof fn lemma_rotation(p: Seq<i32>, i: int)
    requires
        strictly_ascending(p),
        0 <= i < p.len(),
    ensures
        next_in_rotation(p, p[i]) == if i + 1 < p.len() { p[i + 1] } else { p[0] },
{
    let c = position_of(p, p[i]);
    assert(c == i) by {
        if c < i {
            assert(p[c] < p[i]);
        } else if c > i {
            assert(p[i] < p[c]);
        }
    }
}

} // verus!
