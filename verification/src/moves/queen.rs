use vstd::prelude::*;
use crate::location::Location;
use crate::moves::bishop::bishop_moves;
use crate::moves::bishop::bishop_targets;
use crate::moves::positions::Positions;
use crate::moves::rook::rook_moves;
use crate::moves::rook::rook_targets;

verus! {

/// The squares that a queen on `from` may move to: those of a bishop and
/// those of a rook.
pub open spec fn queen_targets(mine: u64, opponent: u64, from: u64) -> u64 {
    bishop_targets(mine, opponent, from) | rook_targets(mine, opponent, from)
}

pub fn queen_moves(pos: &Positions, loc: Location) -> (moves: u64)
    requires
        pos.wf(),
    ensures
        moves == queen_targets(pos.mine, pos.opponent, loc.spec_pos()),
{
    bishop_moves(pos, loc) | rook_moves(pos, loc)
}

} // verus!
