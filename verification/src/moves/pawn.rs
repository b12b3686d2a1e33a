use vstd::prelude::*;
use crate::location::square_bit;
use crate::location::Location;
use crate::metadata::Metadata;
use crate::moves::positions::Positions;
use crate::moves::rays::step;
use crate::moves::rays::Direction;
use crate::moves::utils::file;
use crate::moves::utils::rank;
use crate::moves::utils::spec_rank;
use crate::piece::Color;

verus! {

/// The direction in which the pawns of `color` advance.
pub open spec fn forward(color: Color) -> Direction {
    match color {
        Color::White => Direction::South,
        Color::Black => Direction::North,
    }
}

/// The squares diagonally in front of the pawns of `color` on `from`, on
/// the side of the lower files for White and of the higher for Black.
pub open spec fn spec_left_captures(from: u64, color: Color) -> u64 {
    match color {
        Color::White => step(from, Direction::SouthWest),
        Color::Black => step(from, Direction::NorthEast),
    }
}

/// The squares diagonally in front of the pawns of `color` on `from`, on
/// the other side.
pub open spec fn spec_right_captures(from: u64, color: Color) -> u64 {
    match color {
        Color::White => step(from, Direction::SouthEast),
        Color::Black => step(from, Direction::NorthWest),
    }
}

/// The squares onto which a pawn of `color` on `from` may advance: one step
/// onto an empty square, and a second step onto an empty square when the
/// first one came from the starting rank.
pub open spec fn spec_forwards(mine: u64, opponent: u64, from: u64, color: Color) -> u64 {
    let passed = match color {
        Color::White => spec_rank(5),
        Color::Black => spec_rank(2),
    };
    let one = step(from, forward(color)) & !mine & !opponent;
    let two = step(one & passed, forward(color)) & !mine & !opponent;
    one | two
}

/// The squares that a pawn of `color` on `from` may move to: diagonally
/// forward onto a piece of `opponent`, or straight on as `spec_forwards`
/// says.
pub open spec fn pawn_targets(mine: u64, opponent: u64, from: u64, color: Color) -> u64 {
    ((spec_left_captures(from, color) | spec_right_captures(from, color)) & opponent)
        | spec_forwards(mine, opponent, from, color)
}

/// The square that a pawn of `color` may take en passant: the square that
/// the other side's pawn passed over in the two-square push just made.
pub open spec fn passant_target(meta: Metadata, color: Color) -> u64 {
    match meta.spec_passant_file() {
        Some(passed) => square_bit(
            match color {
                Color::White => 2u8,
                Color::Black => 5u8,
            },
            passed,
        ),
        None => 0,
    }
}

/// The en-passant capture of a pawn of `color` on `from`, if it has one:
/// the target square, when it is free and diagonally in front of the pawn.
pub open spec fn passant_targets(
    mine: u64,
    opponent: u64,
    from: u64,
    color: Color,
    meta: Metadata,
) -> u64 {
    (spec_left_captures(from, color) | spec_right_captures(from, color)) & passant_target(
        meta,
        color,
    ) & !mine & !opponent
}

/// The pushes and captures of a pawn of `color` on `loc`; the en-passant
/// capture, which depends on the move before, is `passant_moves`.
pub fn pawn_moves(pos: &Positions, loc: Location, color: Color) -> (moves: u64)
    ensures
        moves == pawn_targets(pos.mine, pos.opponent, loc.spec_pos(), color),
{
    let captures = left_captures(loc, color) | right_captures(loc, color);
    (captures & pos.opponent) | forwards(pos, loc, color)
}

/// The square on which a pawn of `color` on `loc` captures towards the
/// lower files as it advances for White, towards the higher for Black.
pub fn left_captures(loc: Location, color: Color) -> (square: u64)
    ensures
        square == spec_left_captures(loc.spec_pos(), color),
{
    match color {
        Color::White => (loc.pos() >> 9) & !file(7),
        Color::Black => (loc.pos() << 9) & !file(0),
    }
}

/// The square on which a pawn of `color` on `loc` captures on its other
/// side.
pub fn right_captures(loc: Location, color: Color) -> (square: u64)
    ensures
        square == spec_right_captures(loc.spec_pos(), color),
{
    match color {
        Color::White => (loc.pos() >> 7) & !file(0),
        Color::Black => (loc.pos() << 7) & !file(7),
    }
}

/// The squares onto which a pawn of `color` on `loc` may advance.
pub fn forwards(pos: &Positions, loc: Location, color: Color) -> (moves: u64)
    ensures
        moves == spec_forwards(pos.mine, pos.opponent, loc.spec_pos(), color),
{
    match color {
        Color::White => {
            let one: u64 = (loc.pos() >> 8) & !pos.mine & !pos.opponent;
            let two: u64 = ((one & rank(5)) >> 8) & !pos.mine & !pos.opponent;
            one | two
        },
        Color::Black => {
            let one: u64 = (loc.pos() << 8) & !pos.mine & !pos.opponent;
            let two: u64 = ((one & rank(2)) << 8) & !pos.mine & !pos.opponent;
            one | two
        },
    }
}

/// The en-passant capture that `meta` allows a pawn of `color` on `loc`.
pub fn passant_moves(pos: &Positions, loc: Location, color: Color, meta: Metadata) -> (moves: u64)
    ensures
        moves == passant_targets(pos.mine, pos.opponent, loc.spec_pos(), color, meta),
{
    let target: u64 = match meta.passant_file() {
        Some(passed) => {
            let behind: u8 = match color {
                Color::White => 2,
                Color::Black => 5,
            };
            crate::location::loc(behind, passed).pos()
        },
        None => 0,
    };
    let captures = left_captures(loc, color) | right_captures(loc, color);
    captures & target & !pos.mine & !pos.opponent
}

} // verus!
