use vstd::prelude::*;
use crate::location::Location;
use crate::moves::positions::Positions;
use crate::moves::rays::lemma_ray_inverted;
use crate::moves::rays::lemma_ray_transposed;
use crate::moves::rays::lemma_run_is_ray;
use crate::moves::rays::lemma_square_bit_moved;
use crate::moves::rays::ray;
use crate::moves::rays::run;
use crate::moves::rays::Direction;
use crate::moves::utils::invert;
use crate::moves::utils::rank;
use crate::moves::utils::transpose;

verus! {

/// The squares that a rook on `from` may move to along its rank.
pub open spec fn rank_targets(mine: u64, opponent: u64, from: u64) -> u64 {
    (ray(mine, opponent, from, Direction::East) | ray(mine, opponent, from, Direction::West))
        & !from
}

/// The run of a rook on `from` along its file: the squares it may move to
/// there, and the square it stands on, which `rook_targets` takes out.
pub open spec fn file_targets(mine: u64, opponent: u64, from: u64) -> u64 {
    ray(mine, opponent, from, Direction::North) | ray(mine, opponent, from, Direction::South)
        | from
}

/// The squares that a rook on `from` may move to: along its rank and file,
/// over empty squares, up to and with the first piece of `opponent`, and
/// never the square it stands on.
pub open spec fn rook_targets(mine: u64, opponent: u64, from: u64) -> u64 {
    (rank_targets(mine, opponent, from) | file_targets(mine, opponent, from)) & !from
}

pub fn rook_moves(pos: &Positions, loc: Location) -> (moves: u64)
    requires
        pos.wf(),
    ensures
        moves == rook_targets(pos.mine, pos.opponent, loc.spec_pos()),
{
    let rank = rank_positions(pos, loc);
    let file = file_positions(pos, loc);
    (rank | file) & !loc.pos()
}

pub fn rank_positions(pos: &Positions, loc: Location) -> (moves: u64)
    requires
        pos.wf(),
    ensures
        moves == rank_targets(pos.mine, pos.opponent, loc.spec_pos()),
{
    let leftside = rank_leftside(pos, loc);
    let rightside = invert(rank_leftside(&pos.invert(), loc.invert()));
    proof {
        lemma_square_bit_moved(loc.spec_rank(), loc.spec_file());
        lemma_ray_inverted(pos.mine, pos.opponent, loc.spec_pos(), Direction::East);
    }
    (leftside | rightside) & !loc.pos()
}

pub fn file_positions(pos: &Positions, loc: Location) -> (moves: u64)
    requires
        pos.wf(),
    ensures
        moves == file_targets(pos.mine, pos.opponent, loc.spec_pos()),
{
    let downwards = file_downwards(pos, loc);
    let upwards = invert(file_downwards(&pos.invert(), loc.invert()));
    proof {
        lemma_square_bit_moved(loc.spec_rank(), loc.spec_file());
        lemma_ray_inverted(pos.mine, pos.opponent, loc.spec_pos(), Direction::North);
    }
    downwards | upwards | loc.pos()
}

/// The run along the rank of `loc` towards the higher files: the bits to
/// the left of the rook when the rank is written as a binary number.
pub fn rank_leftside(pos: &Positions, loc: Location) -> (moves: u64)
    ensures
        moves == ray(pos.mine, pos.opponent, loc.spec_pos(), Direction::East),
{
    let brank = rank(loc.rank());
    let source = loc.pos();
    proof {
        lemma_square_bit_moved(loc.spec_rank(), loc.spec_file());
        lemma_run_is_ray(pos.mine, pos.opponent, loc.spec_rank(), loc.spec_file());
    }
    run(pos.mine, pos.opponent, source, brank, 1)
}

/// The run along the file of `loc` towards the higher ranks, which a board
/// printed with rank 0 on top shows below the rook. It is the run along a
/// rank of the transposed board.
pub fn file_downwards(pos: &Positions, loc: Location) -> (moves: u64)
    ensures
        moves == ray(pos.mine, pos.opponent, loc.spec_pos(), Direction::North),
{
    let flipped = pos.transpose();
    let along = rank_leftside(&flipped, loc.transpose());
    proof {
        lemma_square_bit_moved(loc.spec_rank(), loc.spec_file());
        lemma_ray_transposed(pos.mine, pos.opponent, loc.spec_pos());
    }
    transpose(along)
}

} // verus!
