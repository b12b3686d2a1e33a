use vstd::prelude::*;
use crate::board::Board;
use crate::board::Player;
use crate::location::Location;
use crate::metadata::Metadata;
use crate::moves::bishop::bishop_moves;
use crate::moves::bishop::bishop_targets;
use crate::moves::king::castle_moves;
use crate::moves::king::castle_targets;
use crate::moves::king::king_moves;
use crate::moves::king::king_targets;
use crate::moves::knight::knight_moves;
use crate::moves::knight::knight_targets;
use crate::moves::pawn::passant_moves;
use crate::moves::pawn::passant_targets;
use crate::moves::pawn::pawn_moves;
use crate::moves::pawn::pawn_targets;
use crate::moves::positions::Positions;
use crate::moves::queen::queen_moves;
use crate::moves::queen::queen_targets;
use crate::moves::rook::rook_moves;
use crate::moves::rook::rook_targets;
use crate::moves::utils::or_seq;
use crate::piece::PieceIndex;

verus! {

/// The destinations of every piece of one player, computed once per ply:
/// one bitboard per slot, their union, and the unions of the first and of
/// the last eight slots.
pub struct MoveCache<'a> {
    pub moves: [u64; 16],
    pub all: u64,
    pub halves: [u64; 2],
    pub player: &'a Player,
}

/// The squares that the piece in slot `slot` of `player` may move to, when
/// `mine` and `opponent` are the squares that the two sides hold. A
/// captured piece has none. A king has its single steps and the castles
/// that the generator offers; a pawn that has promoted moves as a queen; any
/// other pawn has its pushes, its captures and the en-passant capture.
pub open spec fn slot_targets(
    player: Player,
    mine: u64,
    opponent: u64,
    meta: Metadata,
    slot: int,
) -> u64 {
    match player.slots[slot] {
        None => 0,
        Some(held) => {
            let from = held.spec_pos();
            if slot == 0 {
                (king_targets(from) & !mine) | castle_targets(player, mine | opponent, meta)
            } else if slot == 1 {
                queen_targets(mine, opponent, from)
            } else if slot < 4 {
                bishop_targets(mine, opponent, from)
            } else if slot < 6 {
                knight_targets(from) & !mine
            } else if slot < 8 {
                rook_targets(mine, opponent, from)
            } else if held.spec_is_queen() {
                queen_targets(mine, opponent, from)
            } else {
                pawn_targets(mine, opponent, from, player.color) | passant_targets(
                    mine,
                    opponent,
                    from,
                    player.color,
                    meta,
                )
            }
        },
    }
}

/// The destinations of all sixteen slots of `player`.
pub open spec fn targets(player: Player, mine: u64, opponent: u64, meta: Metadata) -> Seq<u64> {
    Seq::new(16, |slot: int| slot_targets(player, mine, opponent, meta, slot))
}

/// Computes the destinations of the piece in slot `slot`.
pub fn piece_moves(player: &Player, pos: &Positions, meta: Metadata, slot: u8) -> (moves: u64)
    requires
        pos.wf(),
        slot < 16,
    ensures
        moves == slot_targets(*player, pos.mine, pos.opponent, meta, slot as int),
{
    match player.slots[slot as usize] {
        None => 0,
        Some(held) => {
            if slot == 0 {
                king_moves(pos, held) | castle_moves(player, pos, meta)
            } else if slot == 1 {
                queen_moves(pos, held)
            } else if slot < 4 {
                bishop_moves(pos, held)
            } else if slot < 6 {
                knight_moves(pos, held)
            } else if slot < 8 {
                rook_moves(pos, held)
            } else if held.is_queen() {
                queen_moves(pos, held)
            } else {
                pawn_moves(pos, held, player.color) | passant_moves(pos, held, player.color, meta)
            }
        },
    }
}

impl<'a> MoveCache<'a> {
    /// Whether the unions are the unions of the slots' destinations.
    pub open spec fn wf(self) -> bool {
        &&& self.halves[0] == or_seq(self.moves@.take(8))
        &&& self.halves[1] == or_seq(self.moves@.skip(8))
        &&& self.all == or_seq(self.moves@)
    }

    /// Whether this is the cache of `player` on a board where `mine` and
    /// `opponent` are the squares of the two sides.
    pub open spec fn describes(self, player: Player, mine: u64, opponent: u64, meta: Metadata) -> bool {
        &&& self.wf()
        &&& *self.player == player
        &&& self.moves@ == targets(player, mine, opponent, meta)
    }

    /// The destinations of piece `piece`.
    pub fn get(&self, piece: PieceIndex) -> (moves: u64)
        requires
            piece.0 < 16,
        ensures
            moves == self.moves[piece.0 as int],
    {
        self.moves[piece.0 as usize]
    }

    /// The square of piece `piece`, if it is on the board.
    pub fn get_loc(&self, piece: PieceIndex) -> (held: Option<Location>)
        requires
            piece.0 < 16,
        ensures
            held == self.player.slots[piece.0 as int],
    {
        self.player.slots[piece.0 as usize]
    }

    /// The cache of the side to move on `board`, whose snapshot is `pos`.
    pub fn new(board: &'a Board, pos: &Positions) -> (cache: Self)
        requires
            pos.wf(),
        ensures
            cache.describes(board.spec_me(), pos.mine, pos.opponent, board.meta),
    {
        Self::for_player(board.me(), pos, board.meta)
    }

    /// The cache of `player`, who sees the board as `pos`.
    pub fn for_player(player: &'a Player, pos: &Positions, meta: Metadata) -> (cache: Self)
        requires
            pos.wf(),
        ensures
            cache.describes(*player, pos.mine, pos.opponent, meta),
    {
        let mut moves: [u64; 16] = [0; 16];
        let mut low: u64 = 0;
        let mut high: u64 = 0;
        let mut all: u64 = 0;
        let mut slot: u8 = 0;
        while slot < 16
            invariant
                slot <= 16,
                pos.wf(),
                forall|j: int|
                    0 <= j < slot ==> #[trigger] moves[j] == slot_targets(
                        *player,
                        pos.mine,
                        pos.opponent,
                        meta,
                        j,
                    ),
                all == or_seq(moves@.take(slot as int)),
                slot <= 8 ==> low == or_seq(moves@.take(slot as int)) && high == 0,
                slot >= 8 ==> low == or_seq(moves@.take(8)) && high == or_seq(
                    moves@.subrange(8, slot as int),
                ),
            decreases 16 - slot,
        {
            let found = piece_moves(player, pos, meta, slot);
            let ghost before = moves@;
            moves[slot as usize] = found;
            proof {
                assert(moves@.take(slot + 1).drop_last() =~= before.take(slot as int));
                if slot >= 8 {
                    assert(moves@.take(8) =~= before.take(8));
                    assert(moves@.subrange(8, slot + 1).drop_last() =~= before.subrange(
                        8,
                        slot as int,
                    ));
                }
            }
            all = all | found;
            if slot < 8 {
                low = low | found;
            } else {
                high = high | found;
            }
            slot += 1;
        }
        proof {
            assert(moves@ =~= targets(*player, pos.mine, pos.opponent, meta));
            assert(moves@.subrange(8, 16) =~= moves@.skip(8));
            assert(moves@.take(16) =~= moves@);
        }
        MoveCache { moves, all, halves: [low, high], player }
    }
}

} // verus!
