use vstd::prelude::*;
use crate::location::square_bit;
use crate::moves::utils::spec_file;
use crate::moves::utils::spec_invert;
use crate::moves::utils::spec_rank;
use crate::moves::utils::spec_transpose;

verus! {

/// The eight directions of one step on the board. North raises the rank,
/// East raises the file.
pub enum Direction {
    North,
    South,
    East,
    West,
    NorthEast,
    NorthWest,
    SouthEast,
    SouthWest,
}

impl Direction {
    /// The direction that a half turn of the board makes of this one.
    pub open spec fn opposite(self) -> Direction {
        match self {
            Direction::North => Direction::South,
            Direction::South => Direction::North,
            Direction::East => Direction::West,
            Direction::West => Direction::East,
            Direction::NorthEast => Direction::SouthWest,
            Direction::NorthWest => Direction::SouthEast,
            Direction::SouthEast => Direction::NorthWest,
            Direction::SouthWest => Direction::NorthEast,
        }
    }
}

/// Every square of `b` moved one step in direction `d`; what would leave the
/// board is dropped.
pub open spec fn step(b: u64, d: Direction) -> u64 {
    match d {
        Direction::North => b << 8,
        Direction::South => b >> 8,
        Direction::East => (b << 1) & !spec_file(0),
        Direction::West => (b >> 1) & !spec_file(7),
        Direction::NorthEast => (b << 9) & !spec_file(0),
        Direction::NorthWest => (b << 7) & !spec_file(7),
        Direction::SouthEast => (b >> 7) & !spec_file(0),
        Direction::SouthWest => (b >> 9) & !spec_file(7),
    }
}

/// The squares that a sliding piece reaches from `from` in direction `d`
/// within `n` steps: it passes over empty squares, may land on the first
/// square that `opponent` holds, and stops before the first that `mine`
/// holds.
pub open spec fn slide(mine: u64, opponent: u64, from: u64, d: Direction, n: nat) -> u64
    decreases n,
{
    if n == 0 {
        0
    } else {
        let next = step(from, d) & !mine;
        next | slide(mine, opponent, next & !opponent, d, (n - 1) as nat)
    }
}

/// The whole ray from `from` in direction `d`: no ray is longer than seven
/// steps.
pub open spec fn ray(mine: u64, opponent: u64, from: u64, d: Direction) -> u64 {
    slide(mine, opponent, from, d, 7)
}

/// The squares on `line` beyond `source`, towards the higher squares, up to
/// the first that is blocked. A square of `mine` is blocked; so is the
/// square one `shift` beyond a square of `opponent`. Adding the blockers to
/// the run of ones above `source` carries through the free squares and
/// stops at the first blocker.
pub open spec fn spec_run(mine: u64, opponent: u64, source: u64, line: u64, shift: u32) -> u64 {
    let above = !(source | ((source - 1) as u64));
    let ray = line & above;
    let blockers = (mine & ray) | (((opponent & ray) << shift) & ray);
    (blockers.wrapping_add(above)) & ray & !blockers
}

/// Computes one one-sided run by carry propagation.
#[verifier::when_used_as_spec(spec_run)]
pub fn run(mine: u64, opponent: u64, source: u64, line: u64, shift: u32) -> (reach: u64)
    requires
        source != 0,
        shift < 64,
    ensures
        reach == spec_run(mine, opponent, source, line, shift),
{
    let above: u64 = !(source | (source - 1));
    let ray: u64 = line & above;
    let blockers: u64 = (mine & ray) | (((opponent & ray) << shift) & ray);
    (blockers.wrapping_add(above)) & ray & !blockers
}


/// The diagonal through `(rank, file)` along which rank and file rise
/// together.
pub open spec fn spec_right_diagonal(rank: u8, file: u8) -> u64 {
    if rank >= file {
        0x8040_2010_0804_0201u64 << ((8 * (rank - file)) as u64)
    } else {
        0x8040_2010_0804_0201u64 >> ((8 * (file - rank)) as u64)
    }
}

/// The diagonal through `(rank, file)` along which the file falls as the
/// rank rises.
pub open spec fn spec_left_diagonal(rank: u8, file: u8) -> u64 {
    if rank + file >= 7 {
        0x0102_0408_1020_4080u64 << ((8 * (rank + file - 7)) as u64)
    } else {
        0x0102_0408_1020_4080u64 >> ((8 * (7 - rank - file)) as u64)
    }
}

/// Along a rank and along both diagonals the carry run is the ray towards
/// the higher squares.
pub proof fn lemma_run_is_ray(mine: u64, opponent: u64, rank: u8, file: u8)
    by (bit_vector)
    requires
        rank < 8,
        file < 8,
    ensures
        spec_run(mine, opponent, square_bit(rank, file), spec_rank(rank), 1) == ray(
            mine,
            opponent,
            square_bit(rank, file),
            Direction::East,
        ),
        spec_run(mine, opponent, square_bit(rank, file), spec_right_diagonal(rank, file), 9)
            == ray(mine, opponent, square_bit(rank, file), Direction::NorthEast),
        spec_run(mine, opponent, square_bit(rank, file), spec_left_diagonal(rank, file), 7)
            == ray(mine, opponent, square_bit(rank, file), Direction::NorthWest),
{
}

/// Turning the board commutes with the set operations, and turns each
/// step into the opposite step.
proof fn lemma_invert_algebra(a: u64, b: u64)
    by (bit_vector)
    ensures
        spec_invert(a & b) == spec_invert(a) & spec_invert(b),
        spec_invert(a | b) == spec_invert(a) | spec_invert(b),
        spec_invert(!a) == !spec_invert(a),
        spec_invert(spec_invert(a)) == a,
        spec_invert(a << 8) == spec_invert(a) >> 8,
        spec_invert(a >> 8) == spec_invert(a) << 8,
        spec_invert((a << 1) & !spec_file(0)) == (spec_invert(a) >> 1) & !spec_file(7),
        spec_invert((a >> 1) & !spec_file(7)) == (spec_invert(a) << 1) & !spec_file(0),
        spec_invert((a << 9) & !spec_file(0)) == (spec_invert(a) >> 9) & !spec_file(7),
        spec_invert((a >> 9) & !spec_file(7)) == (spec_invert(a) << 9) & !spec_file(0),
        spec_invert((a << 7) & !spec_file(7)) == (spec_invert(a) >> 7) & !spec_file(0),
        spec_invert((a >> 7) & !spec_file(0)) == (spec_invert(a) << 7) & !spec_file(7),
{
}

/// Transposing the board commutes with the set operations, and turns a step
/// up a file into a step along a rank.
proof fn lemma_transpose_algebra(a: u64, b: u64)
    by (bit_vector)
    ensures
        spec_transpose(a & b) == spec_transpose(a) & spec_transpose(b),
        spec_transpose(a | b) == spec_transpose(a) | spec_transpose(b),
        spec_transpose(!a) == !spec_transpose(a),
        spec_transpose(spec_transpose(a)) == a,
        spec_transpose(a << 8) == (spec_transpose(a) << 1) & !spec_file(0),
{
}

/// A slide on the board turned by half a turn is the opposite slide, turned.
pub proof fn lemma_slide_inverted(mine: u64, opponent: u64, from: u64, d: Direction, n: nat)
    ensures
        slide(spec_invert(mine), spec_invert(opponent), spec_invert(from), d, n) == spec_invert(
            slide(mine, opponent, from, d.opposite(), n),
        ),
    decreases n,
{
    if n == 0 {
        assert(spec_invert(0) == 0) by (bit_vector);
    } else {
        let back = d.opposite();
        let next = step(from, back) & !mine;
        let rest = slide(mine, opponent, next & !opponent, back, (n - 1) as nat);
        lemma_invert_algebra(from, from);
        lemma_invert_algebra(mine, mine);
        lemma_invert_algebra(step(from, back), !mine);
        assert(step(spec_invert(from), d) & !spec_invert(mine) == spec_invert(next));
        lemma_invert_algebra(opponent, opponent);
        lemma_invert_algebra(next, !opponent);
        assert(spec_invert(next) & !spec_invert(opponent) == spec_invert(next & !opponent));
        lemma_slide_inverted(mine, opponent, next & !opponent, d, (n - 1) as nat);
        lemma_invert_algebra(next, rest);
    }
}

/// A ray towards the lower squares is the opposite ray of the board turned
/// by half a turn, turned back.
pub proof fn lemma_ray_inverted(mine: u64, opponent: u64, from: u64, d: Direction)
    ensures
        ray(mine, opponent, from, d.opposite()) == spec_invert(
            ray(spec_invert(mine), spec_invert(opponent), spec_invert(from), d),
        ),
{
    lemma_slide_inverted(mine, opponent, from, d, 7);
    lemma_invert_algebra(ray(mine, opponent, from, d.opposite()), 0);
}

/// A slide along a rank of the transposed board is the slide up the file,
/// transposed.
pub proof fn lemma_slide_transposed(mine: u64, opponent: u64, from: u64, n: nat)
    ensures
        slide(
            spec_transpose(mine),
            spec_transpose(opponent),
            spec_transpose(from),
            Direction::East,
            n,
        ) == spec_transpose(slide(mine, opponent, from, Direction::North, n)),
    decreases n,
{
    if n == 0 {
        assert(spec_transpose(0) == 0) by (bit_vector);
    } else {
        let next = step(from, Direction::North) & !mine;
        let rest = slide(mine, opponent, next & !opponent, Direction::North, (n - 1) as nat);
        lemma_transpose_algebra(from, from);
        lemma_transpose_algebra(mine, mine);
        lemma_transpose_algebra(step(from, Direction::North), !mine);
        assert(step(spec_transpose(from), Direction::East) & !spec_transpose(mine)
            == spec_transpose(next));
        lemma_transpose_algebra(opponent, opponent);
        lemma_transpose_algebra(next, !opponent);
        lemma_slide_transposed(mine, opponent, next & !opponent, (n - 1) as nat);
        lemma_transpose_algebra(next, rest);
    }
}

/// A ray up a file is the ray along a rank of the transposed board,
/// transposed back.
pub proof fn lemma_ray_transposed(mine: u64, opponent: u64, from: u64)
    ensures
        ray(mine, opponent, from, Direction::North) == spec_transpose(
            ray(
                spec_transpose(mine),
                spec_transpose(opponent),
                spec_transpose(from),
                Direction::East,
            ),
        ),
{
    lemma_slide_transposed(mine, opponent, from, 7);
    lemma_transpose_algebra(ray(mine, opponent, from, Direction::North), 0);
}

/// The bit of a square, turned or transposed, is the bit of the turned or
/// transposed square.
pub proof fn lemma_square_bit_moved(rank: u8, file: u8)
    by (bit_vector)
    requires
        rank < 8,
        file < 8,
    ensures
        spec_invert(square_bit(rank, file)) == square_bit((7 - rank) as u8, (7 - file) as u8),
        spec_transpose(square_bit(rank, file)) == square_bit(file, rank),
        square_bit(rank, file) != 0,
{
}

} // verus!
