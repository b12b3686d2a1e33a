use vstd::prelude::*;
use crate::location::square_bit;
use crate::location::Location;
use crate::moves::positions::Positions;
use crate::moves::rays::step;
use crate::moves::rays::Direction;

verus! {

/// The squares a knight's move away from the squares of `from`: two steps
/// along a rank or file and one step across.
pub open spec fn knight_targets(from: u64) -> u64 {
    let north = step(step(from, Direction::North), Direction::North);
    let south = step(step(from, Direction::South), Direction::South);
    let east = step(step(from, Direction::East), Direction::East);
    let west = step(step(from, Direction::West), Direction::West);
    step(north, Direction::East) | step(north, Direction::West) | step(south, Direction::East)
        | step(south, Direction::West) | step(east, Direction::North) | step(
        east,
        Direction::South,
    ) | step(west, Direction::North) | step(west, Direction::South)
}

/// The knight's pattern around square (2, 2).
pub const MASK: u64 = 0x0000_000a_1100_110a;

pub const LEFT_FILES: u64 = 0x0303_0303_0303_0303;

pub const RIGHT_FILES: u64 = 0xc0c0_c0c0_c0c0_c0c0;

/// The pattern shifted to `(rank, file)`. Each shift is clamped at the edge,
/// and what a shift carried over the side of the board into another file is
/// masked out.
pub open spec fn knight_shifted(rank: u8, file: u8) -> u64 {
    let up_rank = (8 * rank.saturating_sub(2)) as u8;
    let down_rank = (8 * 2u8.saturating_sub(rank)) as u8;
    let right_file = file.saturating_sub(2);
    let left_file = 2u8.saturating_sub(file);
    let moves = MASK << up_rank >> left_file >> down_rank << right_file;
    let f1 = if file <= 1 {
        RIGHT_FILES
    } else {
        0
    };
    let f2 = if 6 <= file {
        LEFT_FILES
    } else {
        0
    };
    moves & !f1 & !f2
}

/// The shifted pattern is the set of knight's moves from the square.
pub proof fn lemma_knight_shifted(rank: u8, file: u8)
    by (bit_vector)
    requires
        rank < 8,
        file < 8,
    ensures
        knight_shifted(rank, file) == knight_targets(square_bit(rank, file)),
{
}

pub fn knight_moves(pos: &Positions, loc: Location) -> (moves: u64)
    ensures
        moves == knight_targets(loc.spec_pos()) & !pos.mine,
{
    let rank = loc.rank();
    let file = loc.file();
    let up_rank: u8 = 8 * rank.saturating_sub(2);
    let down_rank: u8 = 8 * 2u8.saturating_sub(rank);
    let right_file: u8 = file.saturating_sub(2);
    let left_file: u8 = 2u8.saturating_sub(file);
    let moves: u64 = MASK << up_rank >> left_file >> down_rank << right_file;
    let f1: u64 = if file <= 1 {
        RIGHT_FILES
    } else {
        0
    };
    let f2: u64 = if 6 <= file {
        LEFT_FILES
    } else {
        0
    };
    proof {
        lemma_knight_shifted(rank, file);
        let t = knight_shifted(rank, file);
        let m = pos.mine;
        assert(moves & !f1 & !f2 == t);
        assert(moves & !m & !f1 & !f2 == (moves & !f1 & !f2) & !m) by (bit_vector);
    }
    moves & !pos.mine & !f1 & !f2
}

} // verus!
