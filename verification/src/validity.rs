use vstd::prelude::*;
use vstd::std_specs::bits::axiom_u64_trailing_zeros;
use vstd::std_specs::bits::u64_trailing_zeros;
use crate::board::apart;
use crate::board::is_castle;
use crate::board::landed;
use crate::board::moved_me;
use crate::board::moved_other;
use crate::board::spread;
use crate::board::Board;
use crate::location::lemma_spec_loc;
use crate::location::spec_at;
use crate::location::spec_loc;
use crate::location::square_bit;
use crate::location::Location;
use crate::moves::king::king_targets;
use crate::moves::move_cache::targets;
use crate::moves::moves_from;
use crate::moves::positions::Positions;
use crate::moves::spec_moves;
use crate::moves::Move;
use crate::piece::Color;
use crate::board::squares_wf;
use crate::board::stands;
use crate::board::Player;
use crate::metadata::Metadata;
use crate::moves::bitfields::occupancy;
use crate::moves::bitfields::slot_bits;
use crate::moves::king::can_castle;
use crate::moves::king::castle_targets;
use crate::moves::move_cache::slot_targets;
use crate::moves::rays::ray;
use crate::moves::rays::slide;
use crate::moves::rays::step;
use crate::moves::rays::Direction;
use crate::moves::utils::has_square;
use crate::moves::utils::lemma_or_seq_disjoint;
use crate::moves::utils::lemma_or_seq_has;

verus! {

/// The bit of a square is in a bitboard exactly when the bitboard has the
/// square, and two squares have one bit only if they are one square.
pub proof fn lemma_bit(q: u64, p: u64, t: u64, m: u64)
    by (bit_vector)
    requires
        q < 64,
        p < 64,
    ensures
        ((1u64 << q) & (1u64 << p) != 0) <==> q == p,
        ((1u64 << p) & (1u64 << q) != 0) <==> q == p,
        (((1u64 << p) >> q) & 1 == 1) <==> q == p,
        (t & (1u64 << q) != 0) <==> ((t >> q) & 1 == 1),
        (0u64 >> q) & 1 == 0,
        (t & (1u64 << q) != 0 && t & m == 0) ==> m & (1u64 << q) == 0,
        ((t & m) >> q) & 1 == 1 ==> t & (1u64 << q) != 0 && m & (1u64 << q) != 0,
{
}

/// A piece on a square sets the bit of the square in the squares of its
/// side.
pub proof fn lemma_piece_sets_bit(player: Player, i: int, square: int)
    requires
        squares_wf(player),
        0 <= i < 16,
        stands(player.slots[i], square),
    ensures
        0 <= square < 64,
        occupancy(player) & (1u64 << (square as u64)) != 0,
{
    let held = player.slots[i]->0;
    assert(held.wf());
    let bit = 1u64 << (square as u64);
    assert(slot_bits(player)[i] == bit);
    lemma_bit(square as u64, square as u64, 0, 0);
    if occupancy(player) & bit == 0 {
        lemma_or_seq_disjoint(slot_bits(player), bit, i);
    }
}

/// A bit in the squares of a side is the square of one of its pieces.
pub proof fn lemma_bit_has_piece(player: Player, square: int)
    requires
        squares_wf(player),
        0 <= square < 64,
        occupancy(player) & (1u64 << (square as u64)) != 0,
    ensures
        exists|i: int| 0 <= i < 16 && stands(#[trigger] player.slots[i], square),
{
    lemma_bit(square as u64, 0, occupancy(player), 0);
    lemma_or_seq_has(slot_bits(player), square);
    let i = choose|i: int|
        0 <= i < slot_bits(player).len() && has_square(slot_bits(player)[i], square);
    match player.slots[i] {
        Some(held) => {
            assert(held.wf());
            lemma_bit(square as u64, held.square() as u64, 0, 0);
            assert(stands(player.slots[i], square));
        },
        None => {
            lemma_bit(square as u64, 0, 0, 0);
        },
    }
}

/// Two sides of which no two pieces share a square share no square.
pub proof fn lemma_sides_disjoint(a: Player, b: Player)
    requires
        squares_wf(a),
        squares_wf(b),
        apart(a, b),
    ensures
        occupancy(a) & occupancy(b) == 0,
{
    let both = occupancy(a) & occupancy(b);
    if both != 0 {
        axiom_u64_trailing_zeros(both);
        let q = u64_trailing_zeros(both) as u64;
        lemma_bit(q, 0, occupancy(a), occupancy(b));
        lemma_bit_has_piece(a, q as int);
        lemma_bit_has_piece(b, q as int);
        let i = choose|i: int| 0 <= i < 16 && stands(#[trigger] a.slots[i], q as int);
        let j = choose|j: int| 0 <= j < 16 && stands(#[trigger] b.slots[j], q as int);
        assert(false);
    }
}

/// What set operations leave of a set that shares nothing with `m`.
proof fn lemma_avoid(a: u64, b: u64, c: u64, m: u64, o: u64)
    by (bit_vector)
    ensures
        (a & !m) & m == 0,
        (a & !m & !o) & m == 0,
        (a & b & !m & !o) & m == 0,
        m & o == 0 ==> (a & o) & m == 0,
        a & m == 0 ==> (a & !b) & m == 0,
        a & m == 0 && b & m == 0 ==> (a | b) & m == 0,
        a & m == 0 && b & m == 0 ==> ((a | b | c) & !c) & m == 0,
        (m | o) & (a | b) == 0 ==> b & m == 0 && a & m == 0 && m & a == 0 && o & a == 0,
        (m | o) & (a | c | b) == 0 ==> b & m == 0 && c & m == 0 && m & b == 0 && o & b == 0,
        0u64 & m == 0,
{
}

/// A slide never lands on a square of the slider's own side.
pub proof fn lemma_slide_avoids_mine(mine: u64, opponent: u64, from: u64, d: Direction, n: nat)
    ensures
        slide(mine, opponent, from, d, n) & mine == 0,
    decreases n,
{
    if n == 0 {
        lemma_avoid(0, 0, 0, mine, 0);
    } else {
        let next = step(from, d) & !mine;
        let rest = slide(mine, opponent, next & !opponent, d, (n - 1) as nat);
        lemma_slide_avoids_mine(mine, opponent, next & !opponent, d, (n - 1) as nat);
        lemma_avoid(step(from, d), 0, 0, mine, 0);
        lemma_avoid(next, rest, 0, mine, 0);
    }
}

/// On a board where the two sides share no square, no destination of a
/// piece is a square of its own side.
pub proof fn lemma_targets_avoid_mine(
    player: Player,
    mine: u64,
    opponent: u64,
    meta: Metadata,
    slot: int,
)
    requires
        0 <= slot < 16,
        mine & opponent == 0,
    ensures
        slot_targets(player, mine, opponent, meta, slot) & mine == 0,
{
    match player.slots[slot] {
        None => {
            lemma_avoid(0, 0, 0, mine, opponent);
        },
        Some(held) => {
            let from = held.spec_pos();
            let north = ray(mine, opponent, from, Direction::North);
            let south = ray(mine, opponent, from, Direction::South);
            let east = ray(mine, opponent, from, Direction::East);
            let west = ray(mine, opponent, from, Direction::West);
            let ne = ray(mine, opponent, from, Direction::NorthEast);
            let nw = ray(mine, opponent, from, Direction::NorthWest);
            let se = ray(mine, opponent, from, Direction::SouthEast);
            let sw = ray(mine, opponent, from, Direction::SouthWest);
            lemma_slide_avoids_mine(mine, opponent, from, Direction::North, 7);
            lemma_slide_avoids_mine(mine, opponent, from, Direction::South, 7);
            lemma_slide_avoids_mine(mine, opponent, from, Direction::East, 7);
            lemma_slide_avoids_mine(mine, opponent, from, Direction::West, 7);
            lemma_slide_avoids_mine(mine, opponent, from, Direction::NorthEast, 7);
            lemma_slide_avoids_mine(mine, opponent, from, Direction::NorthWest, 7);
            lemma_slide_avoids_mine(mine, opponent, from, Direction::SouthEast, 7);
            lemma_slide_avoids_mine(mine, opponent, from, Direction::SouthWest, 7);
            // The rook.
            lemma_avoid(east, west, 0, mine, opponent);
            lemma_avoid(east | west, from, 0, mine, opponent);
            let ranks = (east | west) & !from;
            lemma_avoid(north, south, from, mine, opponent);
            let files = north | south | from;
            lemma_avoid(ranks, north | south, from, mine, opponent);
            assert((ranks | files) & !from == (ranks | (north | south) | from) & !from)
                by (bit_vector)
                requires
                    files == north | south | from,
            ;
            let rook = (ranks | files) & !from;
            assert(rook & mine == 0);
            // The bishop.
            lemma_avoid(ne, nw, 0, mine, opponent);
            lemma_avoid(ne | nw, sw, 0, mine, opponent);
            lemma_avoid(ne | nw | sw, se, 0, mine, opponent);
            lemma_avoid(ne | nw | sw | se, from, 0, mine, opponent);
            let bishop = (ne | nw | sw | se) & !from;
            assert(bishop & mine == 0);
            lemma_avoid(bishop, rook, 0, mine, opponent);
            if slot == 0 {
                let home = player.color.spec_home_rank();
                let occupied = mine | opponent;
                let short = crate::location::square_bit(home, 6);
                let long = crate::location::square_bit(home, 2);
                lemma_avoid(
                    crate::location::square_bit(home, 5),
                    short,
                    0,
                    mine,
                    opponent,
                );
                lemma_avoid(
                    crate::location::square_bit(home, 1),
                    crate::location::square_bit(home, 3),
                    long,
                    mine,
                    opponent,
                );
                let a = if can_castle(player, occupied, meta, true) {
                    short
                } else {
                    0
                };
                let b = if can_castle(player, occupied, meta, false) {
                    long
                } else {
                    0
                };
                lemma_avoid(a, b, 0, mine, opponent);
                let steps = crate::moves::king::king_targets(from);
                lemma_avoid(steps, 0, 0, mine, opponent);
                lemma_avoid(steps & !mine, a | b, 0, mine, opponent);
            } else if slot >= 4 && slot < 6 {
                lemma_avoid(crate::moves::knight::knight_targets(from), 0, 0, mine, opponent);
            } else if slot >= 8 && !held.spec_is_queen() {
                let color = player.color;
                let caps = crate::moves::pawn::spec_left_captures(from, color)
                    | crate::moves::pawn::spec_right_captures(from, color);
                let passed = match color {
                    crate::piece::Color::White => crate::moves::utils::spec_rank(5),
                    crate::piece::Color::Black => crate::moves::utils::spec_rank(2),
                };
                let fwd = crate::moves::pawn::forward(color);
                let one = step(from, fwd) & !mine & !opponent;
                let two = step(one & passed, fwd) & !mine & !opponent;
                lemma_avoid(step(from, fwd), 0, 0, mine, opponent);
                lemma_avoid(step(one & passed, fwd), 0, 0, mine, opponent);
                lemma_avoid(one, two, 0, mine, opponent);
                lemma_avoid(caps, 0, 0, mine, opponent);
                lemma_avoid(caps & opponent, one | two, 0, mine, opponent);
                let target = crate::moves::pawn::passant_target(meta, color);
                lemma_avoid(caps, target, 0, mine, opponent);
                lemma_avoid(
                    (caps & opponent) | (one | two),
                    caps & target & !mine & !opponent,
                    0,
                    mine,
                    opponent,
                );
            }
        },
    }
}

/// Whether the generator, with the destinations `slots`, offers `mov`: the
/// move names one of the sixteen slots and a square of the board, and the
/// destinations of the slot hold the square.
pub open spec fn offered(slots: Seq<u64>, mov: Move) -> bool {
    &&& mov.from.0 < 16
    &&& mov.to.wf()
    &&& mov.to == spec_at(mov.to.square())
    &&& slots[mov.from.0 as int] & (1u64 << (mov.to.square() as u64)) != 0
}

/// Every move that the generator lists is one that it offers.
pub proof fn lemma_moves_from_offered(slots: Seq<u64>, square: int, slot: int, i: int)
    requires
        0 <= i < moves_from(slots, square, slot).len(),
    ensures
        offered(slots, moves_from(slots, square, slot)[i]),
    decreases 64 - square, 16 - slot,
{
    if square >= 64 || square < 0 || slot < 0 {
    } else if slot >= 16 {
        lemma_moves_from_offered(slots, square + 1, 0, i);
    } else if slots[slot] & (1u64 << (square as u64)) != 0 {
        if i == 0 {
            lemma_spec_loc((square / 8) as u8, (square % 8) as u8);
        } else {
            lemma_moves_from_offered(slots, square, slot + 1, i - 1);
        }
    } else {
        lemma_moves_from_offered(slots, square, slot + 1, i);
    }
}

/// A king's step never takes it two files along its rank.
proof fn lemma_step_is_short(rank: u8, file: u8, to: u8)
    by (bit_vector)
    requires
        rank < 8,
        file < 8,
        to < 8,
        to == file + 2 || to + 2 == file,
    ensures
        king_targets(square_bit(rank, file)) & (1u64 << ((8 * rank + to) as u64)) == 0,
{
}

/// One bit is in a union only if it is in a part of it.
proof fn lemma_bit_of_union(q: u64, a: u64, b: u64)
    by (bit_vector)
    requires
        q < 64,
    ensures
        (a | b) & (1u64 << q) != 0 ==> a & (1u64 << q) != 0 || b & (1u64 << q) != 0,
        0u64 & (1u64 << q) == 0,
{
}

/// A move of the king over two files that the generator offers is a castle
/// that it offers: towards the higher files the kingside castle, towards
/// the lower the queenside castle.
pub proof fn lemma_two_files_is_castle(
    player: Player,
    mine: u64,
    opponent: u64,
    meta: Metadata,
    to: Location,
)
    requires
        to.wf(),
        player.slots[0] matches Some(held) && held.wf() && is_castle(0, held, to),
        slot_targets(player, mine, opponent, meta, 0) & (1u64 << (to.square() as u64)) != 0,
    ensures
        can_castle(player, mine | opponent, meta, to.spec_file() > (player.slots[0]->0).spec_file()),
        to.spec_rank() == player.color.spec_home_rank(),
        (player.slots[0]->0).spec_file() == 4,
        to.spec_file() == 6 || to.spec_file() == 2,
{
    let held = player.slots[0]->0;
    let q = to.square() as u64;
    let steps = king_targets(held.spec_pos()) & !mine;
    let castles = castle_targets(player, mine | opponent, meta);
    lemma_step_is_short(held.spec_rank(), held.spec_file(), to.spec_file());
    lemma_bit_of_union(q, steps, castles);
    let reach = king_targets(held.spec_pos());
    assert(steps & (1u64 << q) == 0) by (bit_vector)
        requires
            steps == reach & !mine,
            reach & (1u64 << q) == 0,
    ;
    let home = player.color.spec_home_rank();
    let short = if can_castle(player, mine | opponent, meta, true) {
        square_bit(home, 6)
    } else {
        0
    };
    let long = if can_castle(player, mine | opponent, meta, false) {
        square_bit(home, 2)
    } else {
        0
    };
    lemma_bit_of_union(q, short, long);
    lemma_bit(q, (8 * home + 6) as u64, 0, 0);
    lemma_bit(q, (8 * home + 2) as u64, 0, 0);
}

/// A move that the generator offers on a position of the game leads to a
/// position of the game: every piece stands on the board, and no two
/// pieces stand on one square.
pub proof fn lemma_move_keeps_wf(board: Board, mov: Move)
    requires
        board.wf(),
        spec_moves(board).contains(mov),
    ensures
        board.spec_apply(mov).wf(),
{
    let pos = Positions::spec_from_board(board);
    let me = board.spec_me();
    let other = board.spec_opponent();
    let turn = board.meta.spec_turn();
    let mine = pos.mine;
    let theirs = pos.opponent;
    let slots = targets(me, mine, theirs, board.meta);
    let i = choose|i: int| 0 <= i < spec_moves(board).len() && spec_moves(board)[i] == mov;
    lemma_moves_from_offered(slots, 0, 0, i);
    let slot = mov.from.0 as int;
    let to = mov.to;
    let square = to.square();
    let bit = 1u64 << (square as u64);
    assert(apart(me, other) && apart(other, me)) by {
        assert(apart(board.white, board.black));
        assert forall|i: int, j: int, sq: int|
            0 <= i < 16 && 0 <= j < 16 && #[trigger] stands(
                board.black.slots[i],
                sq,
            ) implies !#[trigger] stands(board.white.slots[j], sq) by {
            if stands(board.white.slots[j], sq) {
                assert(!stands(board.black.slots[i], sq));
            }
        }
    }
    lemma_sides_disjoint(me, other);
    lemma_targets_avoid_mine(me, mine, theirs, board.meta, slot);
    lemma_bit(square as u64, 0, slots[slot], mine);
    lemma_avoid(0, 0, 0, bit, 0);
    match me.slots[slot] {
        None => {
            assert(false);
        },
        Some(held) => {
            assert(held.wf());
            held.lemma_moved(to);
            held.spec_moved_to(to).lemma_moved(to);
            let arrived = landed(slot, held, to, turn);
            assert(arrived.wf() && arrived.square() == square);
            // No piece of the mover's side stands on the destination.
            assert forall|k: int| 0 <= k < 16 implies !stands(#[trigger] me.slots[k], square) by {
                if stands(me.slots[k], square) {
                    lemma_piece_sets_bit(me, k, square);
                }
            }
            let placed = me.spec_with(slot, Some(arrived));
            vstd::array::axiom_spec_array_update(me.slots, slot, Some(arrived));
            let after_me = moved_me(me, slot, held, to, turn);
            let after_other = moved_other(other, slot, held, to);
            // The other side: what stood on the destination is gone.
            match crate::board::captured_square(other, slot, held, to) {
                Some(taken) => {
                    other.lemma_remove_below(taken, 16);
                },
                None => {},
            }
            assert forall|k: int| 0 <= k < 16 implies (#[trigger] after_other.slots[k]
                == other.slots[k] || after_other.slots[k] is None) by {}
            assert forall|k: int| 0 <= k < 16 implies !stands(
                #[trigger] after_other.slots[k],
                square,
            ) by {
                if stands(after_other.slots[k], square) {
                    assert(after_other.slots[k] == other.slots[k]);
                    lemma_piece_sets_bit(other, k, square);
                    assert(crate::board::captured_square(other, slot, held, to) == Some(to));
                    assert(crate::board::slot_at(other.slots[k], to));
                }
            }
            assert(after_other.color == other.color);
            if is_castle(slot, held, to) {
                lemma_two_files_is_castle(me, mine, theirs, board.meta, to);
                let kingside = to.spec_file() > held.spec_file();
                let home = me.color.spec_home_rank();
                let rook_slot = if kingside {
                    7int
                } else {
                    6int
                };
                let rook = me.slots[rook_slot]->0;
                let passed_file: u8 = if kingside {
                    5
                } else {
                    3
                };
                let passed = spec_loc(home, passed_file);
                lemma_spec_loc(home, passed_file);
                rook.lemma_moved(passed);
                let rook_after = rook.spec_moved_to(passed);
                let passed_square = 8 * home + passed_file;
                assert(rook_after.wf() && rook_after.square() == passed_square);
                vstd::array::axiom_spec_array_update(placed.slots, rook_slot, Some(rook_after));
                assert(after_me == placed.spec_with(rook_slot, Some(rook_after)));
                // The passed square is free of both sides.
                let occupied = mine | theirs;
                lemma_avoid(
                    square_bit(home, 5),
                    square_bit(home, 6),
                    0,
                    mine,
                    theirs,
                );
                lemma_avoid(
                    square_bit(home, 1),
                    square_bit(home, 3),
                    square_bit(home, 2),
                    mine,
                    theirs,
                );
                let passed_bit = 1u64 << (passed_square as u64);
                assert(mine & passed_bit == 0 && theirs & passed_bit == 0);
                assert forall|k: int| 0 <= k < 16 implies !stands(
                    #[trigger] me.slots[k],
                    passed_square as int,
                ) by {
                    if stands(me.slots[k], passed_square as int) {
                        lemma_piece_sets_bit(me, k, passed_square as int);
                    }
                }
                assert forall|k: int| 0 <= k < 16 implies !stands(
                    #[trigger] other.slots[k],
                    passed_square as int,
                ) by {
                    if stands(other.slots[k], passed_square as int) {
                        lemma_piece_sets_bit(other, k, passed_square as int);
                    }
                }
                assert(passed_square != square);
                assert forall|k: int| 0 <= k < 16 implies #[trigger] after_me.slots[k] == (if k
                    == slot {
                    Some(arrived)
                } else if k == rook_slot {
                    Some(rook_after)
                } else {
                    me.slots[k]
                }) by {}
                assert(squares_wf(after_me));
                assert forall|i: int, j: int, sq: int|
                    0 <= i < 16 && 0 <= j < 16 && i != j && #[trigger] stands(
                        after_me.slots[i],
                        sq,
                    ) implies !#[trigger] stands(after_me.slots[j], sq) by {
                    if stands(after_me.slots[j], sq) {
                        if i == slot {
                            assert(sq == square);
                            if j == rook_slot {
                                assert(sq == passed_square);
                                assert(false);
                            } else {
                                assert(stands(me.slots[j], square));
                                assert(false);
                            }
                        } else if i == rook_slot {
                            assert(sq == passed_square);
                            if j == slot {
                                assert(false);
                            } else {
                                assert(stands(me.slots[j], passed_square as int));
                                assert(false);
                            }
                        } else {
                            assert(stands(me.slots[i], sq));
                            if j == slot {
                                assert(sq == square);
                                assert(false);
                            } else if j == rook_slot {
                                assert(sq == passed_square);
                                assert(false);
                            } else {
                                assert(stands(me.slots[j], sq));
                                assert(false);
                            }
                        }
                    }
                }
                assert forall|i: int, j: int, sq: int|
                    0 <= i < 16 && 0 <= j < 16 && #[trigger] stands(
                        after_me.slots[i],
                        sq,
                    ) implies !#[trigger] stands(after_other.slots[j], sq) by {
                    if stands(after_other.slots[j], sq) {
                        assert(after_other.slots[j] == other.slots[j]);
                        assert(stands(other.slots[j], sq));
                        if i != slot && i != rook_slot {
                            assert(stands(me.slots[i], sq));
                        }
                    }
                }
            } else {
                assert(after_me == placed);
                assert forall|k: int| 0 <= k < 16 implies #[trigger] after_me.slots[k] == (if k
                    == slot {
                    Some(arrived)
                } else {
                    me.slots[k]
                }) by {}
                assert(squares_wf(after_me));
                assert(spread(after_me));
                assert(apart(after_me, after_other));
            }
            assert(squares_wf(after_other));
            assert(spread(after_other));
            assert(apart(after_other, after_me));
            assert(after_me.color == me.color);
        },
    }
}

/// Taking the pieces off a square is the same whatever the mark of the
/// location that names the square.
pub proof fn lemma_remove_same_square(player: Player, a: Location, b: Location, n: nat)
    requires
        a.same_square(b),
        n <= 16,
    ensures
        player.remove_below(a, n) == player.remove_below(b, n),
    decreases n,
{
    if n > 0 {
        lemma_remove_same_square(player, a, b, (n - 1) as nat);
    }
}

/// A move is the same move whatever the mark of the location that names
/// its destination.
pub proof fn lemma_same_square_same_move(board: Board, a: Move, b: Move)
    requires
        a.from == b.from,
        a.to.same_square(b.to),
    ensures
        board.spec_apply(a) == board.spec_apply(b),
{
    let slot = a.from.0 as int;
    if slot < 16 {
        match board.spec_me().slots[slot] {
            Some(held) => {
                held.lemma_moved_to_square(a.to, b.to);
                lemma_remove_same_square(board.spec_opponent(), a.to, b.to, 16);
            },
            None => {},
        }
    }
}

/// Every position one move away from a position of the game is a position
/// of the game.
pub proof fn lemma_children_wf(board: Board)
    requires
        board.wf(),
    ensures
        forall|i: int|
            0 <= i < crate::moves::spec_children(board).len() ==> (
            #[trigger] crate::moves::spec_children(board)[i]).wf(),
{
    assert forall|i: int| 0 <= i < crate::moves::spec_children(board).len() implies (
    #[trigger] crate::moves::spec_children(board)[i]).wf() by {
        assert(spec_moves(board).contains(spec_moves(board)[i]));
        lemma_move_keeps_wf(board, spec_moves(board)[i]);
    }
}

} // verus!
