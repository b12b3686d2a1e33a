use vstd::prelude::*;
use crate::location::Location;
use crate::moves::positions::Positions;
use crate::moves::rays::lemma_ray_inverted;
use crate::moves::rays::lemma_run_is_ray;
use crate::moves::rays::lemma_square_bit_moved;
use crate::moves::rays::ray;
use crate::moves::rays::run;
use crate::moves::rays::spec_left_diagonal;
use crate::moves::rays::spec_right_diagonal;
use crate::moves::rays::spec_run;
use crate::moves::rays::Direction;
use crate::moves::utils::invert;

verus! {

/// The squares that a bishop on `from` may move to: along both diagonals,
/// over empty squares, up to and with the first piece of `opponent`, and
/// never the square it stands on.
pub open spec fn bishop_targets(mine: u64, opponent: u64, from: u64) -> u64 {
    (ray(mine, opponent, from, Direction::NorthEast) | ray(
        mine,
        opponent,
        from,
        Direction::NorthWest,
    ) | ray(mine, opponent, from, Direction::SouthWest) | ray(
        mine,
        opponent,
        from,
        Direction::SouthEast,
    )) & !from
}

pub fn bishop_moves(pos: &Positions, loc: Location) -> (moves: u64)
    requires
        pos.wf(),
    ensures
        moves == bishop_targets(pos.mine, pos.opponent, loc.spec_pos()),
{
    let down_right = rightside_moves(pos, loc);
    let down_left = leftside_moves(pos, loc);
    let up_right = invert(rightside_moves(&pos.invert(), loc.invert()));
    let up_left = invert(leftside_moves(&pos.invert(), loc.invert()));
    proof {
        lemma_square_bit_moved(loc.spec_rank(), loc.spec_file());
        lemma_ray_inverted(pos.mine, pos.opponent, loc.spec_pos(), Direction::NorthEast);
        lemma_ray_inverted(pos.mine, pos.opponent, loc.spec_pos(), Direction::NorthWest);
    }
    (down_right | down_left | up_right | up_left) & !loc.pos()
}

/// One stroke of the X that a bishop draws: along the diagonal on which
/// rank and file rise together, towards the higher squares.
pub fn rightside_moves(pos: &Positions, loc: Location) -> (moves: u64)
    ensures
        moves == ray(pos.mine, pos.opponent, loc.spec_pos(), Direction::NorthEast),
{
    let diag = right_diagonal(loc);
    proof {
        lemma_run_is_ray(pos.mine, pos.opponent, loc.spec_rank(), loc.spec_file());
    }
    diagonal_moves(pos, loc, diag, 9)
}

/// One stroke of the X that a bishop draws: along the diagonal on which the
/// file falls as the rank rises, towards the higher squares.
pub fn leftside_moves(pos: &Positions, loc: Location) -> (moves: u64)
    ensures
        moves == ray(pos.mine, pos.opponent, loc.spec_pos(), Direction::NorthWest),
{
    let diag = left_diagonal(loc);
    proof {
        lemma_run_is_ray(pos.mine, pos.opponent, loc.spec_rank(), loc.spec_file());
    }
    diagonal_moves(pos, loc, diag, 7)
}

/// The run from `loc` along the line `diag`, whose squares lie `shift` bits
/// apart, towards the higher squares.
pub fn diagonal_moves(pos: &Positions, loc: Location, diag: u64, shift: u32) -> (moves: u64)
    requires
        shift < 64,
    ensures
        moves == spec_run(pos.mine, pos.opponent, loc.spec_pos(), diag, shift),
{
    let source = loc.pos();
    proof {
        lemma_square_bit_moved(loc.spec_rank(), loc.spec_file());
    }
    run(pos.mine, pos.opponent, source, diag, shift)
}

pub const DIAG: [u64; 2] = [0x8040_2010_0804_0201, 0x0102_0408_1020_4080];

pub fn right_diagonal(loc: Location) -> (diag: u64)
    ensures
        diag == spec_right_diagonal(loc.spec_rank(), loc.spec_file()),
        loc.wf(),
{
    let rank = loc.rank();
    let file = loc.file();
    if rank >= file {
        let shift: u8 = 8 * (rank - file);
        DIAG[0] << shift
    } else {
        let shift: u8 = 8 * (file - rank);
        DIAG[0] >> shift
    }
}

pub fn left_diagonal(loc: Location) -> (diag: u64)
    ensures
        diag == spec_left_diagonal(loc.spec_rank(), loc.spec_file()),
        loc.wf(),
{
    let rank = loc.rank();
    let file = loc.file();
    if rank + file >= 7 {
        let shift: u8 = 8 * (rank + file - 7);
        DIAG[1] << shift
    } else {
        let shift: u8 = 8 * (7 - rank - file);
        DIAG[1] >> shift
    }
}

} // verus!
