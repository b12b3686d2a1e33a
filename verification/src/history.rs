use vstd::prelude::*;
use crate::board::is_double_push;
use crate::board::is_promotion;
use crate::board::Board;
use crate::board::Player;
use crate::location::Location;
use crate::metadata::Metadata;
use crate::moves::king::can_castle;
use crate::moves::king::castle_targets;
use crate::moves::move_cache::slot_targets;
use crate::moves::queen::queen_targets;
use crate::moves::Move;
use crate::piece::Color;

verus! {

/// The position after the moves of `moves` have been applied to `board` one
/// after the other.
pub open spec fn apply_all(board: Board, moves: Seq<Move>) -> Board
    decreases moves.len(),
{
    if moves.len() == 0 {
        board
    } else {
        apply_all(board, moves.drop_last()).spec_apply(moves.last())
    }
}

/// Whether `mov` moves a piece that is on the board.
pub open spec fn moves_a_piece(board: Board, mov: Move) -> bool {
    mov.from.0 < 16 && board.spec_me().slots[mov.from.0 as int] is Some
}

/// The square from which `mov` moves its piece.
pub open spec fn origin(board: Board, mov: Move) -> Location {
    board.spec_me().slots[mov.from.0 as int]->0
}

/// What a move does to the metadata, field by field.
pub proof fn lemma_meta_after(board: Board, mov: Move)
    requires
        moves_a_piece(board, mov),
    ensures
        board.spec_apply(mov).meta.spec_turn() == board.meta.spec_turn().spec_opposite(),
        forall|c: Color|
            #![trigger board.spec_apply(mov).meta.spec_kingside_castle(c)]
            board.spec_apply(mov).meta.spec_kingside_castle(c) ==> board.meta.spec_kingside_castle(
                c,
            ),
        forall|c: Color|
            #![trigger board.spec_apply(mov).meta.spec_queenside_castle(c)]
            board.spec_apply(mov).meta.spec_queenside_castle(c)
                ==> board.meta.spec_queenside_castle(c),
        mov.from.0 == 0 || mov.from.0 == 7 ==> !board.spec_apply(mov).meta.spec_kingside_castle(
            board.meta.spec_turn(),
        ),
        mov.from.0 == 0 || mov.from.0 == 6 ==> !board.spec_apply(mov).meta.spec_queenside_castle(
            board.meta.spec_turn(),
        ),
        board.spec_apply(mov).meta.spec_passant_file() == (if is_double_push(
            mov.from.0 as int,
            origin(board, mov),
            mov.to,
        ) {
            Some((mov.to.spec_file() % 8) as u8)
        } else {
            None
        }),
{
    let meta = board.meta;
    let turn = meta.spec_turn();
    let other = turn.spec_opposite();
    let slot = mov.from.0 as int;
    let held = origin(board, mov);
    let to = mov.to;
    let mine = if slot == 0 {
        meta.spec_lose_kingside(turn).spec_lose_queenside(turn)
    } else if slot == 6 {
        meta.spec_lose_queenside(turn)
    } else if slot == 7 {
        meta.spec_lose_kingside(turn)
    } else {
        meta
    };
    meta.lemma_lose_kingside(turn);
    meta.lemma_lose_queenside(turn);
    meta.spec_lose_kingside(turn).lemma_lose_queenside(turn);
    let rights = crate::board::moved_rights(meta, slot, to);
    mine.lemma_lose_kingside(other);
    mine.lemma_lose_queenside(other);
    let passant = if is_double_push(slot, held, to) {
        Some(to.spec_file())
    } else {
        None
    };
    rights.lemma_set_passant(passant);
    rights.spec_set_passant(passant).lemma_flip_turn();
    assert forall|c: Color| mine.spec_kingside_castle(c) implies meta.spec_kingside_castle(c) by {
        if c == turn {
        } else {
            assert(c == other);
        }
    }
    assert forall|c: Color| mine.spec_queenside_castle(c) implies meta.spec_queenside_castle(c) by {
        if c == turn {
        } else {
            assert(c == other);
        }
    }
    assert forall|c: Color| rights.spec_kingside_castle(c) implies mine.spec_kingside_castle(c) by {
        if c == turn {
            assert(turn == other.spec_opposite());
        }
    }
    assert forall|c: Color| rights.spec_queenside_castle(c) implies mine.spec_queenside_castle(
        c,
    ) by {
        if c == turn {
            assert(turn == other.spec_opposite());
        }
    }
}

/// A pawn pushed two ranks leaves the file it landed on as the en-passant
/// target; any other move leaves no target.
pub proof fn lemma_passant_after_move(board: Board, mov: Move)
    requires
        moves_a_piece(board, mov),
        mov.to.wf(),
    ensures
        is_double_push(mov.from.0 as int, origin(board, mov), mov.to) ==> board.spec_apply(
            mov,
        ).meta.spec_passant_file() == Some(mov.to.spec_file()),
        !is_double_push(mov.from.0 as int, origin(board, mov), mov.to) ==> board.spec_apply(
            mov,
        ).meta.spec_passant_file() is None,
{
    lemma_meta_after(board, mov);
}

/// A pawn that reaches its farthest rank stands there marked as promoted,
/// and from then on its destinations are those of a queen on that square.
pub proof fn lemma_promotion(board: Board, mov: Move, mine: u64, opponent: u64, meta: Metadata)
    requires
        moves_a_piece(board, mov),
        is_promotion(mov.from.0 as int, origin(board, mov), mov.to, board.meta.spec_turn()),
    ensures
        board.spec_apply(mov).spec_side(board.meta.spec_turn()).slots[mov.from.0 as int] matches Some(
            landed,
        ) && landed.same_square(mov.to) && landed.spec_is_queen() && slot_targets(
            board.spec_apply(mov).spec_side(board.meta.spec_turn()),
            mine,
            opponent,
            meta,
            mov.from.0 as int,
        ) == queen_targets(mine, opponent, mov.to.spec_pos()),
{
    let held = origin(board, mov);
    held.lemma_moved(mov.to);
    held.spec_moved_to(mov.to).lemma_moved(mov.to);
    let turn = board.meta.spec_turn();
    let after = board.spec_apply(mov).spec_side(turn);
    vstd::array::axiom_spec_array_update(
        board.spec_me().slots,
        mov.from.0 as int,
        Some(crate::board::landed(mov.from.0 as int, held, mov.to, turn)),
    );
}

/// A castle right that a side has lost does not come back, whatever moves
/// follow.
pub proof fn lemma_rights_never_return(board: Board, moves: Seq<Move>, color: Color)
    ensures
        apply_all(board, moves).meta.spec_kingside_castle(color)
            ==> board.meta.spec_kingside_castle(color),
        apply_all(board, moves).meta.spec_queenside_castle(color)
            ==> board.meta.spec_queenside_castle(color),
    decreases moves.len(),
{
    if moves.len() > 0 {
        let before = apply_all(board, moves.drop_last());
        lemma_rights_never_return(board, moves.drop_last(), color);
        if moves_a_piece(before, moves.last()) {
            lemma_meta_after(before, moves.last());
        }
    }
}

/// Once the king has moved, its side castles no more: whatever moves
/// follow, it holds neither right, and the generator offers it no castle,
/// even with king and rooks back on their first squares.
pub proof fn lemma_king_move_ends_castling(
    board: Board,
    first: Move,
    rest: Seq<Move>,
    player: Player,
    occupied: u64,
)
    requires
        moves_a_piece(board, first),
        first.from.0 == 0,
        player.color == board.meta.spec_turn(),
    ensures
        !apply_all(board.spec_apply(first), rest).meta.spec_kingside_castle(player.color),
        !apply_all(board.spec_apply(first), rest).meta.spec_queenside_castle(player.color),
        castle_targets(player, occupied, apply_all(board.spec_apply(first), rest).meta) == 0,
{
    lemma_meta_after(board, first);
    lemma_rights_never_return(board.spec_apply(first), rest, player.color);
    let meta = apply_all(board.spec_apply(first), rest).meta;
    assert(!can_castle(player, occupied, meta, true));
    assert(!can_castle(player, occupied, meta, false));
    assert(0u64 | 0u64 == 0) by (bit_vector);
}

/// Once a rook has moved, its side castles no more on that rook's side:
/// whatever moves follow, it does not hold that right, and the generator
/// does not offer that castle, even with king and rook back on their first
/// squares.
pub proof fn lemma_rook_move_ends_castling(
    board: Board,
    first: Move,
    rest: Seq<Move>,
    player: Player,
    occupied: u64,
)
    requires
        moves_a_piece(board, first),
        first.from.0 == 6 || first.from.0 == 7,
        player.color == board.meta.spec_turn(),
    ensures
        first.from.0 == 7 ==> !apply_all(board.spec_apply(first), rest).meta.spec_kingside_castle(
            player.color,
        ) && !can_castle(
            player,
            occupied,
            apply_all(board.spec_apply(first), rest).meta,
            true,
        ),
        first.from.0 == 6 ==> !apply_all(
            board.spec_apply(first),
            rest,
        ).meta.spec_queenside_castle(player.color) && !can_castle(
            player,
            occupied,
            apply_all(board.spec_apply(first), rest).meta,
            false,
        ),
{
    lemma_meta_after(board, first);
    lemma_rights_never_return(board.spec_apply(first), rest, player.color);
}

} // verus!
