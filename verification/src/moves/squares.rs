use vstd::prelude::*;
use crate::location::square_bit;
use crate::moves::bishop::bishop_targets;
use crate::moves::king::king_targets;
use crate::moves::knight::knight_targets;
use crate::moves::queen::queen_targets;
use crate::moves::rook::rook_targets;
use crate::moves::rays::ray;
use crate::moves::rays::slide;
use crate::moves::rays::step;
use crate::moves::rays::Direction;
use crate::moves::utils::has_square;
use crate::validity::lemma_bit;

verus! {

/// Whether `(rank, file)` is a square of the board.
pub open spec fn on_board(rank: int, file: int) -> bool {
    0 <= rank < 8 && 0 <= file < 8
}

/// The rank `k` steps from `rank` in direction `d`.
pub open spec fn rank_along(rank: int, d: Direction, k: int) -> int {
    match d {
        Direction::North | Direction::NorthEast | Direction::NorthWest => rank + k,
        Direction::South | Direction::SouthEast | Direction::SouthWest => rank - k,
        Direction::East | Direction::West => rank,
    }
}

/// The file `k` steps from `file` in direction `d`.
pub open spec fn file_along(file: int, d: Direction, k: int) -> int {
    match d {
        Direction::East | Direction::NorthEast | Direction::SouthEast => file + k,
        Direction::West | Direction::NorthWest | Direction::SouthWest => file - k,
        Direction::North | Direction::South => file,
    }
}

/// The number of the square `k` steps from `(rank, file)` in direction `d`.
pub open spec fn square_along(rank: int, file: int, d: Direction, k: int) -> int {
    8 * rank_along(rank, d, k) + file_along(file, d, k)
}

/// Whether a piece stands `k` steps from `(rank, file)` in direction `d`.
pub open spec fn blocked(mine: u64, opponent: u64, rank: int, file: int, d: Direction, k: int) -> bool {
    has_square(mine, square_along(rank, file, d, k)) || has_square(
        opponent,
        square_along(rank, file, d, k),
    )
}

/// Whether a slider on `(rank, file)` reaches the square `k` steps away in
/// direction `d`: the square is on the board, no piece stands on a square
/// before it, and no piece of the slider's own side stands on it.
pub open spec fn slides_to(
    mine: u64,
    opponent: u64,
    rank: int,
    file: int,
    d: Direction,
    k: int,
) -> bool {
    &&& k >= 1
    &&& on_board(rank_along(rank, d, k), file_along(file, d, k))
    &&& !has_square(mine, square_along(rank, file, d, k))
    &&& forall|j: int| 1 <= j < k ==> !#[trigger] blocked(mine, opponent, rank, file, d, j)
}

/// The bit of `(rank, file)`; nothing for a square off the board.
pub open spec fn bit_at(rank: int, file: int) -> u64 {
    if on_board(rank, file) {
        square_bit(rank as u8, file as u8)
    } else {
        0
    }
}

/// One step takes the bit of a square to the bit of the next square, and
/// to nothing where the board ends.
proof fn lemma_step_north_south(rank: u8, file: u8)
    by (bit_vector)
    requires
        rank < 8,
        file < 8,
    ensures
        rank < 7 ==> step(square_bit(rank, file), Direction::North) == square_bit(
            (rank + 1) as u8,
            file,
        ),
        rank == 7 ==> step(square_bit(rank, file), Direction::North) == 0,
        rank > 0 ==> step(square_bit(rank, file), Direction::South) == square_bit(
            (rank - 1) as u8,
            file,
        ),
        rank == 0 ==> step(square_bit(rank, file), Direction::South) == 0,
        file < 7 ==> step(square_bit(rank, file), Direction::East) == square_bit(
            rank,
            (file + 1) as u8,
        ),
        file == 7 ==> step(square_bit(rank, file), Direction::East) == 0,
        file > 0 ==> step(square_bit(rank, file), Direction::West) == square_bit(
            rank,
            (file - 1) as u8,
        ),
        file == 0 ==> step(square_bit(rank, file), Direction::West) == 0,
{
}

/// The same for the four diagonal steps.
proof fn lemma_step_diagonal(rank: u8, file: u8)
    by (bit_vector)
    requires
        rank < 8,
        file < 8,
    ensures
        rank < 7 && file < 7 ==> step(square_bit(rank, file), Direction::NorthEast) == square_bit(
            (rank + 1) as u8,
            (file + 1) as u8,
        ),
        rank == 7 || file == 7 ==> step(square_bit(rank, file), Direction::NorthEast) == 0,
        rank < 7 && file > 0 ==> step(square_bit(rank, file), Direction::NorthWest) == square_bit(
            (rank + 1) as u8,
            (file - 1) as u8,
        ),
        rank == 7 || file == 0 ==> step(square_bit(rank, file), Direction::NorthWest) == 0,
        rank > 0 && file < 7 ==> step(square_bit(rank, file), Direction::SouthEast) == square_bit(
            (rank - 1) as u8,
            (file + 1) as u8,
        ),
        rank == 0 || file == 7 ==> step(square_bit(rank, file), Direction::SouthEast) == 0,
        rank > 0 && file > 0 ==> step(square_bit(rank, file), Direction::SouthWest) == square_bit(
            (rank - 1) as u8,
            (file - 1) as u8,
        ),
        rank == 0 || file == 0 ==> step(square_bit(rank, file), Direction::SouthWest) == 0,
{
}

/// What taking a set out of one bit, and what a union, hold.
proof fn lemma_bit_sets(q: u64, s: u64, m: u64, a: u64, b: u64)
    by (bit_vector)
    requires
        q < 64,
    ensures
        (m >> q) & 1 == 1 ==> (1u64 << q) & !m == 0,
        (m >> q) & 1 != 1 ==> (1u64 << q) & !m == 1u64 << q,
        0u64 & !m == 0,
        0u64 << 8 == 0 && 0u64 >> 8 == 0 && 0u64 << 1 == 0 && 0u64 >> 1 == 0 && 0u64 << 9 == 0
            && 0u64 >> 9 == 0 && 0u64 << 7 == 0 && 0u64 >> 7 == 0,
        0u64 & a == 0,
        0u64 | 0u64 == 0,
        ((a | b) >> s) & 1 == 1 <==> (a >> s) & 1 == 1 || (b >> s) & 1 == 1,
        (0u64 >> s) & 1 != 1,
{
}

/// One step from `(rank, file)` is the bit of the next square.
pub proof fn lemma_step_of_square(rank: int, file: int, d: Direction)
    requires
        on_board(rank, file),
    ensures
        step(bit_at(rank, file), d) == bit_at(rank_along(rank, d, 1), file_along(file, d, 1)),
{
    lemma_step_north_south(rank as u8, file as u8);
    lemma_step_diagonal(rank as u8, file as u8);
}

/// Nothing slides from nowhere.
pub proof fn lemma_slide_of_nothing(mine: u64, opponent: u64, d: Direction, n: nat)
    ensures
        slide(mine, opponent, 0, d, n) == 0,
    decreases n,
{
    if n > 0 {
        lemma_bit_sets(0, 0, mine, !crate::moves::utils::spec_file(0), opponent);
        lemma_bit_sets(0, 0, opponent, !crate::moves::utils::spec_file(7), opponent);
        assert(step(0, d) == 0);
        lemma_slide_of_nothing(mine, opponent, d, (n - 1) as nat);
    }
}

/// A slide of `n` steps from a square holds exactly the squares up to `n`
/// steps away that the slider reaches.
pub proof fn lemma_slide_squares(
    mine: u64,
    opponent: u64,
    rank: int,
    file: int,
    d: Direction,
    n: nat,
    sq: int,
)
    requires
        on_board(rank, file),
    ensures
        has_square(slide(mine, opponent, bit_at(rank, file), d, n), sq) <==> exists|k: int|
            1 <= k <= n && #[trigger] slides_to(mine, opponent, rank, file, d, k) && sq
                == square_along(rank, file, d, k),
    decreases n,
{
    let from = bit_at(rank, file);
    let reached = |k: int|
        1 <= k <= n && slides_to(mine, opponent, rank, file, d, k) && sq == square_along(
            rank,
            file,
            d,
            k,
        );
    if n == 0 {
        if 0 <= sq < 64 {
            lemma_bit_sets(0, sq as u64, 0, 0, 0);
        }
    } else {
        let r1 = rank_along(rank, d, 1);
        let f1 = file_along(file, d, 1);
        let sq1 = square_along(rank, file, d, 1);
        lemma_step_of_square(rank, file, d);
        let next = step(from, d) & !mine;
        let rest = slide(mine, opponent, next & !opponent, d, (n - 1) as nat);
        if 0 <= sq < 64 {
            lemma_bit_sets(0, sq as u64, 0, next, rest);
        }
        if !on_board(r1, f1) {
            lemma_bit_sets(0, 0, mine, mine, opponent);
            lemma_bit_sets(0, 0, opponent, mine, opponent);
            lemma_slide_of_nothing(mine, opponent, d, (n - 1) as nat);
            assert(slide(mine, opponent, from, d, n) == 0);
            if 0 <= sq < 64 {
                lemma_bit_sets(0, sq as u64, 0, 0, 0);
            }
            assert forall|k: int| 1 <= k <= n implies !#[trigger] slides_to(
                mine,
                opponent,
                rank,
                file,
                d,
                k,
            ) by {}
        } else {
            let q1 = sq1 as u64;
            lemma_bit_sets(q1, 0, mine, mine, opponent);
            lemma_bit_sets(q1, 0, opponent, mine, opponent);
            if 0 <= sq < 64 {
                lemma_bit(sq as u64, q1, 0, 0);
            }
            if has_square(mine, sq1) {
                lemma_slide_of_nothing(mine, opponent, d, (n - 1) as nat);
                assert(next == 0);
                assert(blocked(mine, opponent, rank, file, d, 1));
                assert forall|k: int| 1 <= k <= n implies !#[trigger] slides_to(
                    mine,
                    opponent,
                    rank,
                    file,
                    d,
                    k,
                ) by {}
                if 0 <= sq < 64 {
                    lemma_bit_sets(0, sq as u64, 0, 0, 0);
                }
            } else if has_square(opponent, sq1) {
                lemma_slide_of_nothing(mine, opponent, d, (n - 1) as nat);
                assert(next == bit_at(r1, f1));
                assert(rest == 0);
                assert(blocked(mine, opponent, rank, file, d, 1));
                assert(slides_to(mine, opponent, rank, file, d, 1));
                assert forall|k: int| 2 <= k <= n implies !#[trigger] slides_to(
                    mine,
                    opponent,
                    rank,
                    file,
                    d,
                    k,
                ) by {}
                if 0 <= sq < 64 {
                    lemma_bit_sets(0, sq as u64, 0, 0, 0);
                }
                if sq == sq1 {
                    assert(reached(1));
                }
            } else {
                assert(next == bit_at(r1, f1));
                assert(next & !opponent == bit_at(r1, f1));
                assert(!blocked(mine, opponent, rank, file, d, 1));
                assert(slides_to(mine, opponent, rank, file, d, 1));
                lemma_slide_squares(mine, opponent, r1, f1, d, (n - 1) as nat, sq);
                assert forall|k: int| 1 <= k implies (slides_to(
                    mine,
                    opponent,
                    r1,
                    f1,
                    d,
                    k,
                ) <==> #[trigger] slides_to(mine, opponent, rank, file, d, k + 1)) by {
                    lemma_shift(mine, opponent, rank, file, d, k);
                }
                if has_square(slide(mine, opponent, from, d, n), sq) {
                    if sq == sq1 {
                        assert(reached(1));
                    } else {
                        let k = choose|k: int|
                            1 <= k <= n - 1 && #[trigger] slides_to(mine, opponent, r1, f1, d, k)
                                && sq == square_along(r1, f1, d, k);
                        assert(slides_to(mine, opponent, rank, file, d, k + 1));
                        assert(reached(k + 1));
                    }
                }
                if exists|k: int|
                    1 <= k <= n && #[trigger] slides_to(mine, opponent, rank, file, d, k) && sq
                        == square_along(rank, file, d, k) {
                    let k = choose|k: int|
                        1 <= k <= n && #[trigger] slides_to(mine, opponent, rank, file, d, k) && sq
                            == square_along(rank, file, d, k);
                    if k > 1 {
                        assert(slides_to(mine, opponent, rank, file, d, (k - 1) + 1));
                        assert(slides_to(mine, opponent, r1, f1, d, k - 1));
                        assert(sq == square_along(r1, f1, d, k - 1));
                    }
                }
            }
        }
    }
}

/// Reaching a square `k + 1` steps away is passing the first square and
/// reaching the square `k` steps from there.
proof fn lemma_shift(mine: u64, opponent: u64, rank: int, file: int, d: Direction, k: int)
    requires
        k >= 1,
        !blocked(mine, opponent, rank, file, d, 1),
    ensures
        slides_to(mine, opponent, rank_along(rank, d, 1), file_along(file, d, 1), d, k)
            <==> slides_to(mine, opponent, rank, file, d, k + 1),
{
    let r1 = rank_along(rank, d, 1);
    let f1 = file_along(file, d, 1);
    assert forall|j: int|
        blocked(mine, opponent, r1, f1, d, j) == blocked(mine, opponent, rank, file, d, j + 1) by {
        assert(square_along(r1, f1, d, j) == square_along(rank, file, d, j + 1));
    }
    if slides_to(mine, opponent, r1, f1, d, k) {
        assert forall|j: int| 1 <= j < k + 1 implies !#[trigger] blocked(
            mine,
            opponent,
            rank,
            file,
            d,
            j,
        ) by {
            if j > 1 {
                assert(!blocked(mine, opponent, r1, f1, d, j - 1));
            }
        }
    }
    if slides_to(mine, opponent, rank, file, d, k + 1) {
        assert forall|j: int| 1 <= j < k implies !#[trigger] blocked(
            mine,
            opponent,
            r1,
            f1,
            d,
            j,
        ) by {
            assert(!blocked(mine, opponent, rank, file, d, j + 1));
        }
    }
}

/// The ray of a slider holds exactly the squares that the slider reaches:
/// those in line with it, up to the first piece, and that piece's square if
/// the piece is not of the slider's own side.
pub proof fn lemma_ray_squares(
    mine: u64,
    opponent: u64,
    rank: u8,
    file: u8,
    d: Direction,
    sq: int,
)
    requires
        rank < 8,
        file < 8,
    ensures
        has_square(ray(mine, opponent, square_bit(rank, file), d), sq) <==> reaches(
            mine,
            opponent,
            rank as int,
            file as int,
            d,
            sq,
        ),
{
    lemma_slide_squares(mine, opponent, rank as int, file as int, d, 7, sq);
}

/// Whether a slider on `(rank, file)` reaches square `sq` along direction
/// `d`.
pub open spec fn reaches(mine: u64, opponent: u64, rank: int, file: int, d: Direction, sq: int) -> bool {
    exists|k: int|
        1 <= k <= 7 && #[trigger] slides_to(mine, opponent, rank, file, d, k) && sq
            == square_along(rank, file, d, k)
}

/// Which squares the union of four rays, less the square of the slider,
/// holds; the same for a rook's rays in the form in which they are joined.
proof fn lemma_four_rays(a: u64, b: u64, c: u64, d: u64, from: u64, q: u64)
    by (bit_vector)
    requires
        q < 64,
    ensures
        ((((a | b | c | d) & !from) >> q) & 1 == 1) <==> ((a >> q) & 1 == 1 || (b >> q) & 1 == 1
            || (c >> q) & 1 == 1 || (d >> q) & 1 == 1) && (from >> q) & 1 != 1,
        ((((((a | b) & !from) | (c | d | from)) & !from) >> q) & 1 == 1) <==> ((a >> q) & 1 == 1
            || (b >> q) & 1 == 1 || (c >> q) & 1 == 1 || (d >> q) & 1 == 1) && (from >> q) & 1
            != 1,
        (((a | b) >> q) & 1 == 1) <==> ((a >> q) & 1 == 1 || (b >> q) & 1 == 1),
{
}

/// A square that a slider reaches is not the square it stands on.
proof fn lemma_reached_is_elsewhere(
    mine: u64,
    opponent: u64,
    rank: u8,
    file: u8,
    d: Direction,
    sq: int,
)
    requires
        rank < 8,
        file < 8,
        reaches(mine, opponent, rank as int, file as int, d, sq),
    ensures
        0 <= sq < 64,
        !has_square(square_bit(rank, file), sq),
{
    lemma_bit(sq as u64, (8 * rank + file) as u64, 0, 0);
}

/// A rook's destinations are exactly the squares that it reaches along its
/// rank and its file.
pub proof fn lemma_rook_squares(mine: u64, opponent: u64, rank: u8, file: u8, sq: int)
    requires
        rank < 8,
        file < 8,
    ensures
        has_square(rook_targets(mine, opponent, square_bit(rank, file)), sq) <==> (reaches(
            mine,
            opponent,
            rank as int,
            file as int,
            Direction::East,
            sq,
        ) || reaches(mine, opponent, rank as int, file as int, Direction::West, sq) || reaches(
            mine,
            opponent,
            rank as int,
            file as int,
            Direction::North,
            sq,
        ) || reaches(mine, opponent, rank as int, file as int, Direction::South, sq)),
{
    let from = square_bit(rank, file);
    let east = ray(mine, opponent, from, Direction::East);
    let west = ray(mine, opponent, from, Direction::West);
    let north = ray(mine, opponent, from, Direction::North);
    let south = ray(mine, opponent, from, Direction::South);
    lemma_ray_squares(mine, opponent, rank, file, Direction::East, sq);
    lemma_ray_squares(mine, opponent, rank, file, Direction::West, sq);
    lemma_ray_squares(mine, opponent, rank, file, Direction::North, sq);
    lemma_ray_squares(mine, opponent, rank, file, Direction::South, sq);
    if 0 <= sq < 64 {
        lemma_four_rays(east, west, north, south, from, sq as u64);
    }
    if reaches(mine, opponent, rank as int, file as int, Direction::East, sq) {
        lemma_reached_is_elsewhere(mine, opponent, rank, file, Direction::East, sq);
    }
    if reaches(mine, opponent, rank as int, file as int, Direction::West, sq) {
        lemma_reached_is_elsewhere(mine, opponent, rank, file, Direction::West, sq);
    }
    if reaches(mine, opponent, rank as int, file as int, Direction::North, sq) {
        lemma_reached_is_elsewhere(mine, opponent, rank, file, Direction::North, sq);
    }
    if reaches(mine, opponent, rank as int, file as int, Direction::South, sq) {
        lemma_reached_is_elsewhere(mine, opponent, rank, file, Direction::South, sq);
    }
}

/// A bishop's destinations are exactly the squares that it reaches along
/// its two diagonals.
pub proof fn lemma_bishop_squares(mine: u64, opponent: u64, rank: u8, file: u8, sq: int)
    requires
        rank < 8,
        file < 8,
    ensures
        has_square(bishop_targets(mine, opponent, square_bit(rank, file)), sq) <==> (reaches(
            mine,
            opponent,
            rank as int,
            file as int,
            Direction::NorthEast,
            sq,
        ) || reaches(mine, opponent, rank as int, file as int, Direction::NorthWest, sq)
            || reaches(mine, opponent, rank as int, file as int, Direction::SouthWest, sq)
            || reaches(mine, opponent, rank as int, file as int, Direction::SouthEast, sq)),
{
    let from = square_bit(rank, file);
    let ne = ray(mine, opponent, from, Direction::NorthEast);
    let nw = ray(mine, opponent, from, Direction::NorthWest);
    let sw = ray(mine, opponent, from, Direction::SouthWest);
    let se = ray(mine, opponent, from, Direction::SouthEast);
    lemma_ray_squares(mine, opponent, rank, file, Direction::NorthEast, sq);
    lemma_ray_squares(mine, opponent, rank, file, Direction::NorthWest, sq);
    lemma_ray_squares(mine, opponent, rank, file, Direction::SouthWest, sq);
    lemma_ray_squares(mine, opponent, rank, file, Direction::SouthEast, sq);
    if 0 <= sq < 64 {
        lemma_four_rays(ne, nw, sw, se, from, sq as u64);
    }
    if reaches(mine, opponent, rank as int, file as int, Direction::NorthEast, sq) {
        lemma_reached_is_elsewhere(mine, opponent, rank, file, Direction::NorthEast, sq);
    }
    if reaches(mine, opponent, rank as int, file as int, Direction::NorthWest, sq) {
        lemma_reached_is_elsewhere(mine, opponent, rank, file, Direction::NorthWest, sq);
    }
    if reaches(mine, opponent, rank as int, file as int, Direction::SouthWest, sq) {
        lemma_reached_is_elsewhere(mine, opponent, rank, file, Direction::SouthWest, sq);
    }
    if reaches(mine, opponent, rank as int, file as int, Direction::SouthEast, sq) {
        lemma_reached_is_elsewhere(mine, opponent, rank, file, Direction::SouthEast, sq);
    }
}

/// A queen's destinations are those of a rook and those of a bishop on her
/// square.
pub proof fn lemma_queen_squares(mine: u64, opponent: u64, rank: u8, file: u8, sq: int)
    requires
        rank < 8,
        file < 8,
    ensures
        has_square(queen_targets(mine, opponent, square_bit(rank, file)), sq) <==> (has_square(
            rook_targets(mine, opponent, square_bit(rank, file)),
            sq,
        ) || has_square(bishop_targets(mine, opponent, square_bit(rank, file)), sq)),
{
    if 0 <= sq < 64 {
        lemma_four_rays(
            bishop_targets(mine, opponent, square_bit(rank, file)),
            rook_targets(mine, opponent, square_bit(rank, file)),
            0,
            0,
            0,
            sq as u64,
        );
    }
}

/// A knight's move from `(rank, file)` leads to `(to_rank, to_file)` when
/// the squares lie two ranks and one file apart, or one rank and two files.
pub open spec fn knight_apart(rank: int, file: int, to_rank: int, to_file: int) -> bool {
    let ranks = if to_rank >= rank {
        to_rank - rank
    } else {
        rank - to_rank
    };
    let files = if to_file >= file {
        to_file - file
    } else {
        file - to_file
    };
    (ranks == 2 && files == 1) || (ranks == 1 && files == 2)
}

/// A king's step from `(rank, file)` leads to `(to_rank, to_file)` when the
/// squares differ and lie at most one rank and one file apart.
pub open spec fn king_apart(rank: int, file: int, to_rank: int, to_file: int) -> bool {
    &&& rank - 1 <= to_rank <= rank + 1
    &&& file - 1 <= to_file <= file + 1
    &&& (to_rank != rank || to_file != file)
}

/// The squares a knight's move from a square, and those a king's step from
/// it, written out for the bits.
proof fn lemma_leaps(rank: u8, file: u8, to_rank: u8, to_file: u8)
    by (bit_vector)
    requires
        rank < 8,
        file < 8,
        to_rank < 8,
        to_file < 8,
    ensures
        ((knight_targets(square_bit(rank, file)) >> ((8 * to_rank + to_file) as u64)) & 1 == 1)
            <==> ((to_rank == rank + 2 || rank == to_rank + 2) && (to_file == file + 1 || file
            == to_file + 1)) || ((to_rank == rank + 1 || rank == to_rank + 1) && (to_file == file
            + 2 || file == to_file + 2)),
        ((king_targets(square_bit(rank, file)) >> ((8 * to_rank + to_file) as u64)) & 1 == 1)
            <==> (to_rank <= rank + 1 && rank <= to_rank + 1 && to_file <= file + 1 && file
            <= to_file + 1 && (to_rank != rank || to_file != file)),
{
}

/// The squares a knight's move away from a square are exactly the squares
/// of the board that lie two ranks and one file from it, or one rank and
/// two files.
pub proof fn lemma_knight_squares(rank: u8, file: u8, to_rank: u8, to_file: u8)
    requires
        rank < 8,
        file < 8,
        to_rank < 8,
        to_file < 8,
    ensures
        has_square(knight_targets(square_bit(rank, file)), 8 * to_rank + to_file) <==> knight_apart(
            rank as int,
            file as int,
            to_rank as int,
            to_file as int,
        ),
{
    lemma_leaps(rank, file, to_rank, to_file);
}

/// The squares a king's step away from a square are exactly its neighbours
/// on the board.
pub proof fn lemma_king_squares(rank: u8, file: u8, to_rank: u8, to_file: u8)
    requires
        rank < 8,
        file < 8,
        to_rank < 8,
        to_file < 8,
    ensures
        has_square(king_targets(square_bit(rank, file)), 8 * to_rank + to_file) <==> king_apart(
            rank as int,
            file as int,
            to_rank as int,
            to_file as int,
        ),
{
    lemma_leaps(rank, file, to_rank, to_file);
}

} // verus!
