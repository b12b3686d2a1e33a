use vstd::prelude::*;
use crate::board::is_castle;
use crate::board::Board;
use crate::board::Player;
use crate::moves::bitfields::occupancy;
use crate::moves::bitfields::Bitfields;
use crate::moves::move_cache::targets;
use crate::moves::move_cache::MoveCache;
use crate::moves::utils::or_seq;
use crate::moves::Move;
use crate::piece::Color;
use crate::location::loc;
use crate::location::square_bit;
use crate::location::Location;
use crate::metadata::Metadata;
use crate::moves::positions::Positions;
use crate::moves::rays::step;
use crate::moves::rays::Direction;
use crate::moves::utils::file;
use crate::moves::utils::spec_file;

verus! {

/// The squares one step away from the squares of `from`, in all eight
/// directions.
pub open spec fn king_targets(from: u64) -> u64 {
    step(from, Direction::North) | step(from, Direction::South) | step(from, Direction::East)
        | step(from, Direction::West) | step(from, Direction::NorthEast) | step(
        from,
        Direction::NorthWest,
    ) | step(from, Direction::SouthEast) | step(from, Direction::SouthWest)
}

/// The king's pattern around square (1, 1).
pub const MASK: u64 = 0b0000_0111_0000_0101_0000_0111;

/// The pattern shifted to `(rank, file)`. Each shift is clamped at the edge,
/// and what a shift carried over the side of the board into another file is
/// masked out.
pub open spec fn king_shifted(rank: u8, file: u8) -> u64 {
    let up_rank = (8 * rank.saturating_sub(1)) as u8;
    let down_rank = if rank == 0 {
        8u8
    } else {
        0u8
    };
    let right_file = file.saturating_sub(1);
    let left_file = if file == 0 {
        1u8
    } else {
        0u8
    };
    let moves = MASK << up_rank >> left_file >> down_rank << right_file;
    let f1 = if file == 0 {
        spec_file(7)
    } else {
        0
    };
    let f2 = if file == 7 {
        spec_file(0)
    } else {
        0
    };
    moves & !f1 & !f2
}

/// The shifted pattern is the set of king's steps from the square.
pub proof fn lemma_king_shifted(rank: u8, file: u8)
    by (bit_vector)
    requires
        rank < 8,
        file < 8,
    ensures
        king_shifted(rank, file) == king_targets(square_bit(rank, file)),
{
}

/// The single steps of a king on `loc` that do not land on a piece of its
/// own side.
pub fn king_moves(pos: &Positions, loc: Location) -> (moves: u64)
    ensures
        moves == king_targets(loc.spec_pos()) & !pos.mine,
{
    let rank = loc.rank();
    let file_of = loc.file();
    let up_rank: u8 = 8 * rank.saturating_sub(1);
    let down_rank: u8 = if rank == 0 {
        8
    } else {
        0
    };
    let right_file: u8 = file_of.saturating_sub(1);
    let left_file: u8 = if file_of == 0 {
        1
    } else {
        0
    };
    let moves: u64 = MASK << up_rank >> left_file >> down_rank << right_file;
    let f1: u64 = if file_of == 0 {
        file(7)
    } else {
        0
    };
    let f2: u64 = if file_of == 7 {
        file(0)
    } else {
        0
    };
    proof {
        lemma_king_shifted(rank, file_of);
        let m = pos.mine;
        assert((moves & !m) & !f1 & !f2 == (moves & !f1 & !f2) & !m) by (bit_vector);
    }
    (moves & !pos.mine) & !f1 & !f2
}

/// Whether `slot` holds a piece on square `(rank, file)`.
pub open spec fn slot_on(slot: Option<Location>, rank: int, file: int) -> bool {
    slot matches Some(held) && held.spec_rank() == rank && held.spec_file() == file
}

/// The squares between the king and the rook with which it castles.
pub open spec fn castle_path(home: u8, kingside: bool) -> u64 {
    if kingside {
        square_bit(home, 5) | square_bit(home, 6)
    } else {
        square_bit(home, 1) | square_bit(home, 2) | square_bit(home, 3)
    }
}

/// The slot of the rook that castles on the given side.
pub open spec fn castle_rook_slot(kingside: bool) -> int {
    if kingside {
        7
    } else {
        6
    }
}

/// The file on which the rook of the given side starts.
pub open spec fn castle_rook_file(kingside: bool) -> int {
    if kingside {
        7
    } else {
        0
    }
}

/// The file on which the king lands when it castles on the given side.
pub open spec fn castle_king_file(kingside: bool) -> u8 {
    if kingside {
        6
    } else {
        2
    }
}

/// Whether the generator offers `player` the castle on the given side: the
/// right is still held, king and rook stand on their first squares, and
/// `occupied` holds no square between them. Whether the king would pass
/// through an attacked square is not asked here.
pub open spec fn can_castle(player: Player, occupied: u64, meta: Metadata, kingside: bool) -> bool {
    let home = player.color.spec_home_rank();
    &&& if kingside {
        meta.spec_kingside_castle(player.color)
    } else {
        meta.spec_queenside_castle(player.color)
    }
    &&& slot_on(player.slots[0], home as int, 4)
    &&& slot_on(player.slots[castle_rook_slot(kingside)], home as int, castle_rook_file(kingside))
    &&& occupied & castle_path(home, kingside) == 0
}

/// The squares on which the king of `player` may land by castling.
pub open spec fn castle_targets(player: Player, occupied: u64, meta: Metadata) -> u64 {
    let home = player.color.spec_home_rank();
    (if can_castle(player, occupied, meta, true) {
        square_bit(home, 6)
    } else {
        0
    }) | (if can_castle(player, occupied, meta, false) {
        square_bit(home, 2)
    } else {
        0
    })
}

/// Whether `slot` holds a piece on square `(rank, file)`.
fn stands_on(slot: Option<Location>, rank: u8, file: u8) -> (on: bool)
    ensures
        on == slot_on(slot, rank as int, file as int),
{
    match slot {
        Some(held) => held.rank() == rank && held.file() == file,
        None => false,
    }
}

/// The castling destinations that the generator offers the king of
/// `player`.
pub fn castle_moves(player: &Player, pos: &Positions, meta: Metadata) -> (moves: u64)
    ensures
        moves == castle_targets(*player, pos.mine | pos.opponent, meta),
{
    let color = player.color;
    let home = color.home_rank();
    let occupied: u64 = pos.mine | pos.opponent;
    let king_home = stands_on(player.slots[0], home, 4);
    let kingside_path: u64 = loc(home, 5).pos() | loc(home, 6).pos();
    let queenside_path: u64 = loc(home, 1).pos() | loc(home, 2).pos() | loc(home, 3).pos();
    let kingside: u64 = if meta.kingside_castle(color) && king_home && stands_on(
        player.slots[7],
        home,
        7,
    ) && occupied & kingside_path == 0 {
        loc(home, 6).pos()
    } else {
        0
    };
    let queenside: u64 = if meta.queenside_castle(color) && king_home && stands_on(
        player.slots[6],
        home,
        0,
    ) && occupied & queenside_path == 0 {
        loc(home, 2).pos()
    } else {
        0
    };
    kingside | queenside
}

/// The squares to which some piece of `color` could move on `board` if it
/// were that side's turn: its pseudo-legal destinations, the en-passant
/// capture left out.
pub open spec fn attacked_by(board: Board, color: Color) -> u64 {
    let side = board.spec_side(color);
    let other = board.spec_side(color.spec_opposite());
    or_seq(targets(side, occupancy(side), occupancy(other), board.meta.spec_set_passant(None)))
}

/// Computes the squares that the pieces of `color` attack on `board`.
pub fn attacks(board: &Board, color: Color) -> (squares: u64)
    ensures
        squares == attacked_by(*board, color),
{
    let side = board.side(color);
    let other = board.side(color.opposite());
    let pos = Positions::from_bitfields(Bitfields::new(side), Bitfields::new(other));
    let mut meta = board.meta;
    meta.set_passant(None);
    let cache = MoveCache::for_player(side, &pos, meta);
    cache.all
}

/// Whether the king of `color` stands on a square that the other side
/// attacks.
pub open spec fn spec_is_check(board: Board, color: Color) -> bool {
    board.spec_side(color).slots[0] matches Some(king) && attacked_by(
        board,
        color.spec_opposite(),
    ) & king.spec_pos() != 0
}

/// Reports whether the king of `color` is attacked. The king has to be on
/// the board: a position without it is no position of the game.
pub fn is_check(board: &Board, color: Color) -> (check: bool)
    requires
        board.spec_side(color).slots[0] is Some,
    ensures
        check == spec_is_check(*board, color),
{
    match board.side(color).slots[0] {
        Some(king) => (attacks(board, color.opposite()) & king.pos()) != 0,
        None => false,
    }
}

/// The squares that a castling king touches: the one it leaves, the one it
/// passes and the one it lands on.
pub open spec fn castle_passage(held: Location, to: Location) -> u64 {
    held.spec_pos() | square_bit(held.spec_rank(), ((held.spec_file() + to.spec_file()) / 2) as u8)
        | to.spec_pos()
}

/// Whether `mov` is safe to play as far as castling goes: it is no castle,
/// or the other side attacks none of the squares that the king touches, on
/// the board as it is before the move.
pub open spec fn castle_safe(board: Board, mov: Move) -> bool {
    let slot = mov.from.0 as int;
    if slot < 16 {
        match board.spec_me().slots[slot] {
            Some(held) => is_castle(slot, held, mov.to) ==> attacked_by(
                board,
                board.meta.spec_turn().spec_opposite(),
            ) & castle_passage(held, mov.to) == 0,
            None => true,
        }
    } else {
        true
    }
}

/// Checks a move that the generator has offered for the safety of the
/// squares that a castling king touches.
pub fn is_castle_safe(board: &Board, mov: Move) -> (safe: bool)
    ensures
        safe == castle_safe(*board, mov),
{
    if mov.from.0 != 0 {
        return true;
    }
    let held = match board.me().slots[0] {
        Some(held) => held,
        None => {
            return true;
        },
    };
    let to = mov.to;
    let castles = held.rank() == to.rank() && (to.file() == held.file() + 2 || to.file() + 2
        == held.file());
    if !castles {
        return true;
    }
    let middle = loc(held.rank(), (held.file() + to.file()) / 2);
    let passage: u64 = held.pos() | middle.pos() | to.pos();
    (attacks(board, board.meta.turn().opposite()) & passage) == 0
}

} // verus!
