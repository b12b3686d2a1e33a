use vstd::prelude::*;
use crate::board::Board;
use crate::location::lemma_pos_round_trip;
use crate::location::spec_at;
use crate::location::top_square;
use crate::location::Location;
use crate::moves::move_cache::targets;
use crate::moves::move_cache::MoveCache;
use crate::moves::positions::Positions;
use crate::moves::utils::lemma_or_seq_disjoint;
use crate::piece::PieceIndex;
use crate::piece::KING;

pub mod utils;
pub mod rays;
pub mod squares;
pub mod bitfields;
pub mod positions;
pub mod rook;
pub mod bishop;
pub mod queen;
pub mod knight;
pub mod king;
pub mod pawn;
pub mod move_cache;

verus! {

/// One move: the piece that moves, named by its slot, and the square it
/// moves to. What it captures, and whether it castles or promotes, is read
/// off the board when the move is applied.
#[derive(Clone, Copy, Debug, PartialEq)]
pub struct Move {
    pub from: PieceIndex,
    pub to: Location,
}

/// The moves from candidate `(square, slot)` on, in the order in which they
/// are generated: by destination square, and for one square by slot. A
/// candidate is a move when the destinations of the slot hold the square.
pub open spec fn moves_from(slots: Seq<u64>, square: int, slot: int) -> Seq<Move>
    decreases 64 - square, 16 - slot,
{
    if square >= 64 || square < 0 || slot < 0 {
        Seq::empty()
    } else if slot >= 16 {
        moves_from(slots, square + 1, 0)
    } else if slots[slot] & (1u64 << (square as u64)) != 0 {
        seq![Move { from: PieceIndex(slot as u8), to: spec_at(square) }] + moves_from(
            slots,
            square,
            slot + 1,
        )
    } else {
        moves_from(slots, square, slot + 1)
    }
}

/// All the moves that the generator offers the side to move on `board`.
pub open spec fn spec_moves(board: Board) -> Seq<Move> {
    let pos = Positions::spec_from_board(board);
    moves_from(targets(board.spec_me(), pos.mine, pos.opponent, board.meta), 0, 0)
}

/// A walk over the moves of one cache. `bit` is the bit of the destination
/// square in hand, or 0 when the walk is over; `piece` is the next slot to
/// try for that square.
pub struct MoveIterator<'a> {
    bit: u64,
    move_cache: MoveCache<'a>,
    piece: PieceIndex,
}

/// The square whose bit is `bit`; 64 when `bit` is empty.
pub open spec fn square_of(bit: u64) -> int {
    if bit == 0 {
        64
    } else {
        top_square(bit)
    }
}

/// What a single bit becomes when it moves up by one square.
proof fn lemma_next_bit(bit: u64, square: u64)
    by (bit_vector)
    requires
        square < 64,
        bit == 1u64 << square,
    ensures
        bit != 0,
        square == 63 ==> bit << 1 == 0,
        square < 63 ==> bit << 1 == 1u64 << ((square + 1) as u64),
{
}

/// A bit is the bit of its square.
proof fn lemma_square_of_bit(square: int)
    requires
        0 <= square < 64,
    ensures
        square_of(1u64 << (square as u64)) == square,
{
    lemma_pos_round_trip((square / 8) as u8, (square % 8) as u8);
    lemma_next_bit(1u64 << (square as u64), square as u64);
    assert((8 * ((square / 8) as u8) + ((square % 8) as u8)) as u64 == square as u64);
}

impl<'a> MoveIterator<'a> {
    /// Whether the walk is in a state that `new` and `next` produce.
    pub closed spec fn wf(self) -> bool {
        &&& self.move_cache.wf()
        &&& self.piece.0 <= 16
        &&& self.bit != 0 ==> 0 <= top_square(self.bit) < 64 && self.bit == 1u64 << (top_square(
            self.bit,
        ) as u64)
    }

    /// The cache that the walk reads.
    pub closed spec fn cache(self) -> MoveCache<'a> {
        self.move_cache
    }

    /// The moves that the walk has yet to give.
    pub closed spec fn remaining(self) -> Seq<Move> {
        moves_from(self.move_cache.moves@, square_of(self.bit), self.piece.0 as int)
    }

    /// A walk has at most 1024 moves to give.
    pub proof fn lemma_remaining_len(self)
        requires
            self.wf(),
        ensures
            self.remaining().len() <= 1024,
    {
        if self.bit != 0 {
            lemma_moves_from_len(
                self.move_cache.moves@,
                top_square(self.bit),
                self.piece.0 as int,
            );
        }
    }

    /// A walk over all the moves of `move_cache`.
    pub fn new(move_cache: MoveCache<'a>) -> (walk: Self)
        requires
            move_cache.wf(),
        ensures
            walk.wf(),
            walk.cache() == move_cache,
            walk.remaining() == moves_from(move_cache.moves@, 0, 0),
    {
        proof {
            lemma_square_of_bit(0);
            assert(1u64 << 0u64 == 1) by (bit_vector);
        }
        MoveIterator { bit: 1, move_cache, piece: PieceIndex(KING) }
    }

    /// Gives the next move of the walk, or `None` when there is none left.
    pub fn next(&mut self) -> (item: Option<Move>)
        requires
            old(self).wf(),
        ensures
            final(self).wf(),
            final(self).cache() == old(self).cache(),
            match item {
                Some(found) => old(self).remaining() == seq![found] + final(self).remaining(),
                None => old(self).remaining().len() == 0 && final(self).remaining().len() == 0,
            },
    {
        loop
            invariant
                self.wf(),
                self.move_cache == old(self).move_cache,
                self.remaining() == old(self).remaining(),
            decreases 64 - square_of(self.bit), 16 - self.piece.0,
        {
            if self.bit == 0 {
                return None;
            }
            let ghost square = top_square(self.bit);
            let ghost slots = self.move_cache.moves@;
            proof {
                lemma_next_bit(self.bit, square as u64);
                if square < 63 {
                    lemma_square_of_bit(square + 1);
                }
            }
            // Skip the square if no piece can move to it.
            if (self.move_cache.all & self.bit) == 0 && self.piece.0 == 0 {
                proof {
                    let bit = self.bit;
                    assert forall|i: int| 0 <= i < 16 implies slots[i] & bit == 0 by {
                        lemma_or_seq_disjoint(slots, bit, i);
                    }
                    lemma_moves_from_skip(slots, square, 0, 16);
                }
                self.bit = self.bit << 1;
                continue ;
            }
            // Skip the first eight slots if none of them can move to it.
            if (self.move_cache.halves[0] & self.bit) == 0 && self.piece.0 < 8 {
                proof {
                    let bit = self.bit;
                    assert forall|i: int| 0 <= i < 8 implies slots[i] & bit == 0 by {
                        lemma_or_seq_disjoint(slots.take(8), bit, i);
                    }
                    lemma_moves_from_skip(slots, square, self.piece.0 as int, 8);
                }
                self.piece.at_least(8);
            }
            while !self.piece.finished()
                invariant
                    self.wf(),
                    self.bit != 0,
                    square == top_square(self.bit),
                    0 <= square < 64,
                    slots == self.move_cache.moves@,
                    self.move_cache == old(self).move_cache,
                    self.remaining() == old(self).remaining(),
                decreases 16 - self.piece.0,
            {
                let moves = self.move_cache.get(self.piece);
                let from = self.piece;
                self.piece.next();
                if (moves & self.bit) != 0 {
                    let to = Location::from_pos(self.bit);
                    return Some(Move { from, to });
                }
            }
            self.piece = PieceIndex(KING);
            self.bit = self.bit << 1;
        }
    }
}

/// There are no more moves than pairs of a square and a slot.
pub proof fn lemma_moves_from_len(slots: Seq<u64>, square: int, slot: int)
    requires
        0 <= square <= 64,
        0 <= slot <= 16,
    ensures
        moves_from(slots, square, slot).len() <= (64 - square) * 16 - slot + (if square == 64 {
            slot
        } else {
            0
        }),
    decreases 64 - square, 16 - slot,
{
    if square >= 64 {
    } else if slot >= 16 {
        lemma_moves_from_len(slots, square + 1, 0);
    } else {
        lemma_moves_from_len(slots, square, slot + 1);
    }
}

/// Counts the moves that a walk has yet to give.
pub fn count_moves(walk: MoveIterator) -> (count: u32)
    requires
        walk.wf(),
    ensures
        count == walk.remaining().len(),
{
    let mut walk = walk;
    let mut count: u32 = 0;
    let ghost total = walk.remaining().len();
    proof {
        walk.lemma_remaining_len();
    }
    loop
        invariant
            walk.wf(),
            total <= 1024,
            count + walk.remaining().len() == total,
        ensures
            count == total,
        decreases walk.remaining().len(),
    {
        match walk.next() {
            Some(_) => {
                count += 1;
            },
            None => {
                break ;
            },
        }
    }
    count
}

/// Slots that cannot move to the square contribute no move.
proof fn lemma_moves_from_skip(slots: Seq<u64>, square: int, slot: int, until: int)
    requires
        0 <= square < 64,
        0 <= slot <= until <= 16,
        forall|i: int| slot <= i < until ==> slots[i] & (1u64 << (square as u64)) == 0,
    ensures
        moves_from(slots, square, slot) == moves_from(slots, square, until),
    decreases until - slot,
{
    if slot < until {
        lemma_moves_from_skip(slots, square, slot + 1, until);
    }
}

/// The positions that the moves of the side to move lead to, in the order
/// of the moves.
pub open spec fn spec_children(board: Board) -> Seq<Board> {
    spec_moves(board).map_values(|mov: Move| board.spec_apply(mov))
}

/// The positions one move away from `board`, in the order of the moves.
pub fn children(board: &Board) -> (list: Vec<Board>)
    ensures
        list@ == spec_children(*board),
{
    let pos = Positions::from_board(board);
    let offered = _moves(board, &pos);
    let mut list: Vec<Board> = Vec::new();
    let mut i: usize = 0;
    while i < offered.len()
        invariant
            i <= offered.len(),
            offered@ == spec_moves(*board),
            pos == Positions::spec_from_board(*board),
            list@ == offered@.take(i as int).map_values(|mov: Move| board.spec_apply(mov)),
        decreases offered.len() - i,
    {
        let next = board._apply(offered[i], &pos);
        proof {
            assert(offered@.take(i + 1).map_values(|mov: Move| board.spec_apply(mov))
                =~= offered@.take(i as int).map_values(|mov: Move| board.spec_apply(mov)).push(
                next,
            ));
        }
        list.push(next);
        i += 1;
    }
    proof {
        assert(offered@.take(offered.len() as int) =~= offered@);
    }
    list
}

/// The moves that the generator offers the side to move, in the order of
/// their destination squares.
pub fn moves(board: &Board) -> (list: Vec<Move>)
    ensures
        list@ == spec_moves(*board),
{
    let pos = Positions::from_board(board);
    _moves(board, &pos)
}

/// The moves of the side to move on `board`, whose snapshot is `pos`.
pub fn _moves(board: &Board, pos: &Positions) -> (list: Vec<Move>)
    requires
        pos.wf(),
    ensures
        list@ == moves_from(
            targets(board.spec_me(), pos.mine, pos.opponent, board.meta),
            0,
            0,
        ),
{
    let move_cache = MoveCache::new(board, pos);
    let mut walk = MoveIterator::new(move_cache);
    let mut list: Vec<Move> = Vec::new();
    loop
        invariant
            walk.wf(),
            list@ + walk.remaining() == moves_from(
                targets(board.spec_me(), pos.mine, pos.opponent, board.meta),
                0,
                0,
            ),
        ensures
            list@ == moves_from(
                targets(board.spec_me(), pos.mine, pos.opponent, board.meta),
                0,
                0,
            ),
        decreases walk.remaining().len(),
    {
        let ghost before = walk.remaining();
        match walk.next() {
            Some(found) => {
                proof {
                    assert((list@.push(found)) + walk.remaining() =~= list@ + before);
                }
                list.push(found);
            },
            None => {
                proof {
                    assert(list@ + before =~= list@);
                }
                break ;
            },
        }
    }
    list
}

} // verus!
