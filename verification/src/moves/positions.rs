use vstd::prelude::*;
use crate::board::Board;
use crate::moves::bitfields::occupancy;
use crate::moves::bitfields::Bitfields;
use crate::moves::utils::invert;
use crate::moves::utils::lemma_invert_involution;
use crate::moves::utils::or;
use crate::moves::utils::or_seq;
use crate::moves::utils::spec_invert;
use crate::moves::utils::spec_transpose;
use crate::moves::utils::transpose;

verus! {

/// The occupied squares as the side to move sees them for one ply: its own
/// and the other side's, each also turned by half a turn.
pub struct Positions {
    pub opponent: u64,
    pub mine: u64,
    pub mine_inverted: u64,
    pub opponent_inverted: u64,
}

impl Positions {
    /// Whether the turned bitboards are the turned forms of the plain ones.
    pub open spec fn wf(self) -> bool {
        &&& self.mine_inverted == spec_invert(self.mine)
        &&& self.opponent_inverted == spec_invert(self.opponent)
    }

    pub open spec fn spec_new(mine: u64, opponent: u64) -> Positions {
        Positions {
            opponent,
            mine,
            mine_inverted: spec_invert(mine),
            opponent_inverted: spec_invert(opponent),
        }
    }

    /// The snapshot of `board` for the side to move.
    pub open spec fn spec_from_board(board: Board) -> Positions {
        Self::spec_new(occupancy(board.spec_me()), occupancy(board.spec_opponent()))
    }

    pub fn from_board(board: &Board) -> (pos: Positions)
        ensures
            pos == Self::spec_from_board(*board),
            pos.wf(),
    {
        let mine = Bitfields::new(board.me());
        let opponent = Bitfields::new(board.opponent());
        Positions::from_bitfields(mine, opponent)
    }

    pub fn from_bitfields(mine: Bitfields, opponent: Bitfields) -> (pos: Positions)
        ensures
            pos == Self::spec_new(or_seq(mine.bits@), or_seq(opponent.bits@)),
            pos.wf(),
    {
        let mine: u64 = or(mine.bits);
        let opponent: u64 = or(opponent.bits);
        Positions::new(mine, opponent)
    }

    pub fn new(mine: u64, opponent: u64) -> (pos: Positions)
        ensures
            pos == Self::spec_new(mine, opponent),
            pos.wf(),
    {
        Positions {
            mine,
            opponent,
            mine_inverted: invert(mine),
            opponent_inverted: invert(opponent),
        }
    }

    /// The same snapshot with the board turned by half a turn.
    pub fn invert(&self) -> (turned: Positions)
        ensures
            turned == (Positions {
                opponent: self.opponent_inverted,
                mine: self.mine_inverted,
                opponent_inverted: self.opponent,
                mine_inverted: self.mine,
            }),
            self.wf() ==> turned.wf() && turned == Self::spec_new(
                spec_invert(self.mine),
                spec_invert(self.opponent),
            ),
    {
        proof {
            lemma_invert_involution(self.mine);
            lemma_invert_involution(self.opponent);
        }
        Positions {
            opponent: self.opponent_inverted,
            mine: self.mine_inverted,
            opponent_inverted: self.opponent,
            mine_inverted: self.mine,
        }
    }

    /// The same snapshot with ranks and files exchanged.
    pub fn transpose(&self) -> (flipped: Positions)
        ensures
            flipped == Self::spec_new(spec_transpose(self.mine), spec_transpose(self.opponent)),
            flipped.wf(),
    {
        Positions::new(transpose(self.mine), transpose(self.opponent))
    }
}

} // verus!
