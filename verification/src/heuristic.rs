use vstd::prelude::*;
use crate::board::Board;
use crate::board::Player;
use crate::location::Location;
use crate::metadata::Metadata;
use crate::moves::bitfields::occupancy;
use crate::moves::bitfields::Bitfields;
use crate::moves::move_cache::targets;
use crate::moves::move_cache::MoveCache;
use crate::moves::moves_from;
use crate::moves::positions::Positions;
use crate::moves::count_moves;
use crate::moves::MoveIterator;
use crate::piece::kind_of_slot;
use crate::piece::Color;
use crate::piece::Kind;
use crate::search::Params;
use crate::search::ValueTable;

verus! {

/// The greatest score that a position can have. The search keeps the two
/// values beyond it, `i32::MIN` and `i32::MAX`, for a side that cannot
/// move.
pub const SCORE_LIMIT: i32 = 2147483646;

pub open spec fn spec_is_alive(p: Option<Location>) -> int {
    if p is Some {
        1
    } else {
        0
    }
}

/// 1 for a piece on the board, 0 for a captured one.
pub fn is_alive(p: Option<Location>) -> (alive: i32)
    ensures
        alive == spec_is_alive(p),
{
    match p {
        Some(_) => 1,
        None => 0,
    }
}

pub open spec fn spec_center_seeking(p: Location) -> int {
    100 - ((p.spec_rank() - 4) * (p.spec_rank() - 4) + (p.spec_file() - 4) * (p.spec_file() - 4))
}

/// How close a square is to the centre: 100 less the squared distance from
/// square (4, 4).
pub fn center_seeking(p: Location) -> (value: i32)
    ensures
        value == spec_center_seeking(p),
        68 <= value <= 100,
{
    let rank: i32 = p.rank() as i32 - 4;
    let file: i32 = p.file() as i32 - 4;
    assert(0 <= rank * rank <= 16 && 0 <= file * file <= 16) by (nonlinear_arith)
        requires
            -4 <= rank <= 3,
            -4 <= file <= 3,
    ;
    let circle: i32 = rank * rank + file * file;
    100 - circle
}

/// The sum of the closeness to the centre of the pieces of a pair that are
/// on the board.
pub fn sum_value(pieces: [Option<Location>; 2]) -> (value: i32)
    ensures
        value == (match pieces[0] {
            Some(p) => spec_center_seeking(p),
            None => 0,
        }) + (match pieces[1] {
            Some(p) => spec_center_seeking(p),
            None => 0,
        }),
{
    let first: i32 = match pieces[0] {
        Some(p) => center_seeking(p),
        None => 0,
    };
    let second: i32 = match pieces[1] {
        Some(p) => center_seeking(p),
        None => 0,
    };
    first + second
}

/// The number of pieces of a pair that are on the board.
pub fn count(pieces: [Option<Location>; 2]) -> (alive: i32)
    ensures
        alive == spec_is_alive(pieces[0]) + spec_is_alive(pieces[1]),
{
    is_alive(pieces[0]) + is_alive(pieces[1])
}

/// The row of `table` in which a piece of `color` on rank `rank` is looked
/// up.
pub open spec fn table_row(color: Color, rank: int) -> int {
    match color {
        Color::White => rank,
        Color::Black => 7 - rank,
    }
}

/// The table of `kind`.
pub open spec fn table_for(params: Params, kind: Kind) -> ValueTable {
    match kind {
        Kind::King => params.king,
        Kind::Queen => params.queen,
        Kind::Bishop => params.bishop,
        Kind::Knight => params.knight,
        Kind::Rook => params.rook,
        Kind::Pawn => params.pawn,
    }
}

/// The kind as which the piece in `slot` on `held` counts: a pawn that has
/// promoted counts as a queen.
pub open spec fn valued_kind(slot: int, held: Location) -> Kind {
    if slot >= 8 && held.spec_is_queen() {
        Kind::Queen
    } else {
        kind_of_slot(slot)
    }
}

/// What the piece in `slot` of `player` is worth where it stands; nothing
/// for a captured piece, or one that stands off the board.
pub open spec fn slot_value(params: Params, player: Player, slot: int) -> int {
    match player.slots[slot] {
        Some(held) => if held.wf() {
            table_for(params, valued_kind(slot, held)).squares[table_row(
                player.color,
                held.spec_rank() as int,
            )][held.spec_file() as int] as int
        } else {
            0
        },
        None => 0,
    }
}

/// What the pieces in the slots below `n` are worth.
pub open spec fn slots_value(params: Params, player: Player, n: nat) -> int
    decreases n,
{
    if n == 0 {
        0
    } else {
        slots_value(params, player, (n - 1) as nat) + slot_value(params, player, n - 1)
    }
}

/// The score of one side: what its pieces are worth where they stand, the
/// bonus for its king while it is on the board, and the bonus for each
/// castle right that it holds.
pub open spec fn spec_player_material(player: Player, meta: Metadata, params: Params) -> int {
    slots_value(params, player, 16) + (if spec_is_alive(player.slots[0]) == 1 {
        params.king_value as int
    } else {
        0
    }) + (if meta.spec_kingside_castle(player.color) {
        params.castle_kingside as int
    } else {
        0
    }) + (if meta.spec_queenside_castle(player.color) {
        params.castle_queenside as int
    } else {
        0
    })
}

/// The number of moves that the generator offers `color` on `board`. For
/// the side that is not to move the en-passant target does not count.
pub open spec fn spec_mobility(board: Board, color: Color) -> int {
    let side = board.spec_side(color);
    let other = board.spec_side(color.spec_opposite());
    let meta = if color == board.meta.spec_turn() {
        board.meta
    } else {
        board.meta.spec_set_passant(None)
    };
    moves_from(targets(side, occupancy(side), occupancy(other), meta), 0, 0).len() as int
}

/// Counts the moves that the generator offers `color` on `board`.
pub fn mobility(board: &Board, color: Color) -> (count: u32)
    ensures
        count == spec_mobility(*board, color),
        count <= 1024,
{
    let side = board.side(color);
    let other = board.side(color.opposite());
    let pos = Positions::from_bitfields(Bitfields::new(side), Bitfields::new(other));
    let mut meta = board.meta;
    if color != board.meta.turn() {
        meta.set_passant(None);
    }
    let cache = MoveCache::for_player(side, &pos, meta);
    let walk = MoveIterator::new(cache);
    proof {
        walk.lemma_remaining_len();
    }
    count_moves(walk)
}

/// `score` brought into the range from `-SCORE_LIMIT` to `SCORE_LIMIT`.
pub open spec fn clamp(score: int) -> int {
    if score > SCORE_LIMIT {
        SCORE_LIMIT as int
    } else if score < -SCORE_LIMIT {
        -SCORE_LIMIT
    } else {
        score
    }
}

/// The score of a position before it is brought into the range of scores:
/// White's score less Black's, so that what is good for White is positive,
/// and `params.available_moves` for each move that White has more than
/// Black.
pub open spec fn raw_material(board: Board, params: Params) -> int {
    spec_player_material(board.white, board.meta, params) - spec_player_material(
        board.black,
        board.meta,
        params,
    ) + params.available_moves * (spec_mobility(board, Color::White) - spec_mobility(
        board,
        Color::Black,
    ))
}

/// The score of a position.
pub open spec fn spec_material(board: Board, params: Params) -> int {
    clamp(raw_material(board, params))
}

/// Looks up what a piece of `kind` and `color` is worth on `held`.
pub fn value(params: &Params, kind: Kind, color: Color, held: Location) -> (value: i32)
    ensures
        held.wf(),
        value == table_for(*params, kind).squares[table_row(color, held.spec_rank() as int)][held.spec_file() as int],
{
    let rank = held.rank();
    let file = held.file();
    let row: usize = match color {
        Color::White => rank as usize,
        Color::Black => (7 - rank) as usize,
    };
    match kind {
        Kind::King => params.king.squares[row][file as usize],
        Kind::Queen => params.queen.squares[row][file as usize],
        Kind::Bishop => params.bishop.squares[row][file as usize],
        Kind::Knight => params.knight.squares[row][file as usize],
        Kind::Rook => params.rook.squares[row][file as usize],
        Kind::Pawn => params.pawn.squares[row][file as usize],
    }
}

/// Computes the score of one side.
pub fn player_material(player: &Player, meta: Metadata, params: &Params) -> (score: i64)
    ensures
        score == spec_player_material(*player, meta, *params),
        -0x14_0000_0000 <= score <= 0x14_0000_0000,
{
    let mut total: i64 = 0;
    let mut slot: u8 = 0;
    while slot < 16
        invariant
            slot <= 16,
            total == slots_value(*params, *player, slot as nat),
            -0x8000_0000 * slot <= total <= 0x8000_0000 * slot,
        decreases 16 - slot,
    {
        let value: i32 = match player.slots[slot as usize] {
            Some(held) => {
                let kind = if slot >= 8 && held.is_queen() {
                    Kind::Queen
                } else {
                    crate::piece::PieceIndex(slot).kind()
                };
                value(params, kind, player.color, held)
            },
            None => 0,
        };
        total = total + value as i64;
        slot += 1;
    }
    let king: i64 = if is_alive(player.slots[0]) == 1 {
        params.king_value as i64
    } else {
        0
    };
    let kingside: i64 = if meta.kingside_castle(player.color) {
        params.castle_kingside as i64
    } else {
        0
    };
    let queenside: i64 = if meta.queenside_castle(player.color) {
        params.castle_queenside as i64
    } else {
        0
    };
    total + king + kingside + queenside
}

/// Computes the score of a position.
pub fn material(board: &Board, params: &Params) -> (score: i32)
    ensures
        score == spec_material(*board, *params),
        -SCORE_LIMIT <= score <= SCORE_LIMIT,
{
    let white = player_material(&board.white, board.meta, params);
    let black = player_material(&board.black, board.meta, params);
    let weight: i64 = params.available_moves as i64;
    let ahead: i64 = if weight != 0 {
        mobility(board, Color::White) as i64 - mobility(board, Color::Black) as i64
    } else {
        0
    };
    proof {
        let lead = spec_mobility(*board, Color::White) - spec_mobility(*board, Color::Black);
        if weight == 0 {
            assert(weight * lead == 0) by (nonlinear_arith)
                requires
                    weight == 0,
            ;
        } else {
            assert(-0x200_0000_0000 <= weight * ahead <= 0x200_0000_0000) by (nonlinear_arith)
                requires
                    -0x8000_0000 <= weight <= 0x8000_0000,
                    -1024 <= ahead <= 1024,
            ;
        }
    }
    let score: i64 = white - black + weight * ahead;
    if score > SCORE_LIMIT as i64 {
        SCORE_LIMIT
    } else if score < -(SCORE_LIMIT as i64) {
        -SCORE_LIMIT
    } else {
        score as i32
    }
}

} // verus!
