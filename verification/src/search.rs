use vstd::prelude::*;
use crate::board::Board;
use crate::heuristic::center_seeking;
use crate::heuristic::material;
use crate::heuristic::spec_material;
use crate::location::loc;
use crate::frontier::collect_children;
use crate::frontier::held;
use crate::frontier::presort;
use crate::frontier::same_positions;
use crate::memo::board_key;
use crate::memo::cache_get;
use crate::memo::cache_put;
use crate::memo::entries;
use crate::memo::lemma_place_from;
use crate::memo::lemma_stored_sound;
use crate::memo::lemma_used_sound;
use crate::memo::memo;
use crate::memo::place_of;
use crate::memo::sound;
use crate::memo::spec_key;
use crate::moves::king::castle_safe;
use crate::moves::king::is_castle_safe;
use crate::moves::moves;
use crate::moves::spec_children;
use crate::moves::spec_moves;
use crate::moves::Move;
use crate::piece::Color;

verus! {

/// The value of standing on each square for one kind of piece, as White
/// sees the board. For Black the table is read mirrored: rank `r` of Black
/// is row `7 - r`.
#[derive(Debug, Clone, Copy, PartialEq, Eq)]
pub struct ValueTable {
    pub squares: [[i32; 8]; 8],
}

/// What the search and the evaluator are told from outside: how deep to
/// search, from which depth on to sort the moves first, and what pieces,
/// squares and castle rights are worth.
#[derive(Debug, Clone, Copy, PartialEq, Eq)]
pub struct Params {
    /// The depth from which on a node sorts the positions one move away
    /// before it searches them.
    pub sort_depth: i32,
    /// The number of plies that the search looks ahead from each move of the
    /// root.
    pub depth: i32,
    /// Asks for scores that are carried from a position to the next. This
    /// evaluator scores every position afresh and does not read the flag.
    pub incremental: bool,
    /// The bonus of a side while its king is on the board.
    pub king_value: i32,
    /// The bonus for each castle right that a side still holds.
    pub castle_kingside: i32,
    pub castle_queenside: i32,
    /// The bonus for each move that the generator offers a side.
    pub available_moves: i32,
    pub king: ValueTable,
    pub queen: ValueTable,
    pub bishop: ValueTable,
    pub knight: ValueTable,
    pub rook: ValueTable,
    pub pawn: ValueTable,
}

/// The entry of the default table of a kind: `flat`, plus `times / over` of
/// how close the square is to the centre.
pub open spec fn default_entry(flat: int, times: int, over: int, rank: int, file: int) -> int {
    flat + (100 - ((rank - 4) * (rank - 4) + (file - 4) * (file - 4))) * times / over
}

impl ValueTable {
    /// Whether every entry is `default_entry` of its square.
    pub open spec fn is_default(self, flat: int, times: int, over: int) -> bool {
        forall|rank: int, file: int|
            0 <= rank < 8 && 0 <= file < 8 ==> #[trigger] self.squares[rank][file]
                == default_entry(flat, times, over, rank, file)
    }

    /// The table that gives each square `flat` plus `times / over` of its
    /// closeness to the centre.
    pub fn centred(flat: i32, times: i32, over: i32) -> (table: ValueTable)
        requires
            -10000 <= flat <= 10000,
            0 <= times <= 1000,
            1 <= over <= 1000,
        ensures
            table.is_default(flat as int, times as int, over as int),
    {
        let mut squares: [[i32; 8]; 8] = [[0; 8]; 8];
        let mut rank: u8 = 0;
        while rank < 8
            invariant
                rank <= 8,
                -10000 <= flat <= 10000,
                0 <= times <= 1000,
                1 <= over <= 1000,
                forall|r: int, f: int|
                    0 <= r < rank && 0 <= f < 8 ==> #[trigger] squares[r][f] == default_entry(
                        flat as int,
                        times as int,
                        over as int,
                        r,
                        f,
                    ),
            decreases 8 - rank,
        {
            let mut row: [i32; 8] = [0; 8];
            let mut file: u8 = 0;
            while file < 8
                invariant
                    rank < 8,
                    file <= 8,
                    -10000 <= flat <= 10000,
                    0 <= times <= 1000,
                    1 <= over <= 1000,
                    forall|f: int|
                        0 <= f < file ==> #[trigger] row[f] == default_entry(
                            flat as int,
                            times as int,
                            over as int,
                            rank as int,
                            f,
                        ),
                decreases 8 - file,
            {
                let closeness = center_seeking(loc(rank, file));
                proof {
                    assert(0 <= closeness * times <= 100 * 1000) by (nonlinear_arith)
                        requires
                            0 <= closeness <= 100,
                            0 <= times <= 1000,
                    ;
                    assert(0 <= (closeness * times) / (over as int) <= 100000) by (nonlinear_arith)
                        requires
                            0 <= closeness * times <= 100000,
                            1 <= over,
                    ;
                }
                row[file as usize] = flat + closeness * times / over;
                file += 1;
            }
            squares[rank as usize] = row;
            rank += 1;
        }
        ValueTable { squares }
    }
}

impl Params {
    /// Whether these are the default parameters.
    pub open spec fn is_default(self) -> bool {
        &&& self.sort_depth == 3
        &&& self.depth == 4
        &&& self.incremental
        &&& self.king_value == 9000
        &&& self.castle_kingside == 0
        &&& self.castle_queenside == 0
        &&& self.available_moves == 0
        &&& self.king.is_default(0, 0, 1)
        &&& self.queen.is_default(900, 0, 1)
        &&& self.bishop.is_default(0, 35, 10)
        &&& self.knight.is_default(0, 3, 1)
        &&& self.rook.is_default(5, 0, 1)
        &&& self.pawn.is_default(0, 1, 1)
    }
}

impl Default for Params {
    /// Search four plies deep and sort from depth three on. A king is worth
    /// 9000 and a queen 900 wherever they stand, a rook 5; a pawn is worth
    /// its closeness to the centre, a knight 3 times and a bishop 3.5 times
    /// that; castle rights and available moves are worth nothing.
    fn default() -> (params: Params)
        ensures
            params.is_default(),
    {
        Params {
            sort_depth: 3,
            depth: 4,
            incremental: true,
            king_value: 9000,
            castle_kingside: 0,
            castle_queenside: 0,
            available_moves: 0,
            king: ValueTable::centred(0, 0, 1),
            queen: ValueTable::centred(900, 0, 1),
            bishop: ValueTable::centred(0, 35, 10),
            knight: ValueTable::centred(0, 3, 1),
            rook: ValueTable::centred(5, 0, 1),
            pawn: ValueTable::centred(0, 1, 1),
        }
    }
}

/// The number of plies that a search of depth `depth` looks ahead.
pub open spec fn plies(depth: i32) -> nat {
    if depth <= 0 {
        0
    } else {
        depth as nat
    }
}

/// The value of `board` when both sides play their best for `depth` plies:
/// at depth 0 the score of the position; otherwise the greatest value among
/// the positions one move away when White is to move, and the least when
/// Black is.
pub open spec fn spec_minimax(board: Board, depth: nat, params: Params) -> int
    decreases depth, 0nat,
{
    if depth == 0 {
        spec_material(board, params)
    } else {
        best_of(
            spec_children(board),
            (depth - 1) as nat,
            params,
            board.meta.spec_turn() == Color::White,
            spec_children(board).len(),
        )
    }
}

/// The best value, for White if `white` and else for Black, among the first
/// `n` of `children`, each searched `depth` plies deep. With no position to
/// choose from the side to move has the worst value there is.
pub open spec fn best_of(children: Seq<Board>, depth: nat, params: Params, white: bool, n: nat) -> int
    decreases depth, n + 1,
{
    if n == 0 || n > children.len() {
        if white {
            i32::MIN as int
        } else {
            i32::MAX as int
        }
    } else {
        let before = best_of(children, depth, params, white, (n - 1) as nat);
        let value = spec_minimax(children[n - 1], depth, params);
        if white == (value > before) {
            value
        } else {
            before
        }
    }
}

/// Every value of the search is an `i32`, and `best_of` is what its name
/// says: no position among the first `n` is better for the side to move,
/// and one of them, if there is one, has that value.
pub proof fn lemma_best_of(children: Seq<Board>, depth: nat, params: Params, white: bool, n: nat)
    requires
        n <= children.len(),
    ensures
        i32::MIN <= best_of(children, depth, params, white, n) <= i32::MAX,
        forall|i: int|
            0 <= i < n ==> i32::MIN <= #[trigger] spec_minimax(children[i], depth, params)
                <= i32::MAX,
        white ==> forall|i: int|
            0 <= i < n ==> #[trigger] spec_minimax(children[i], depth, params) <= best_of(
                children,
                depth,
                params,
                white,
                n,
            ),
        !white ==> forall|i: int|
            0 <= i < n ==> #[trigger] spec_minimax(children[i], depth, params) >= best_of(
                children,
                depth,
                params,
                white,
                n,
            ),
        n > 0 ==> exists|i: int|
            0 <= i < n && #[trigger] spec_minimax(children[i], depth, params) == best_of(
                children,
                depth,
                params,
                white,
                n,
            ),
        n == 0 ==> best_of(children, depth, params, white, n) == (if white {
            i32::MIN as int
        } else {
            i32::MAX as int
        }),
    decreases depth, n + 1,
{
    if n > 0 {
        lemma_best_of(children, depth, params, white, (n - 1) as nat);
        lemma_minimax_range(children[n - 1], depth, params);
        let before = best_of(children, depth, params, white, (n - 1) as nat);
        let value = spec_minimax(children[n - 1], depth, params);
        if white == (value > before) {
        } else if n > 1 {
            let i = choose|i: int|
                0 <= i < n - 1 && #[trigger] spec_minimax(children[i], depth, params) == before;
            assert(spec_minimax(children[i], depth, params) == best_of(
                children,
                depth,
                params,
                white,
                n,
            ));
        } else {
            assert(spec_minimax(children[0], depth, params) == value);
        }
    }
}

/// Every value of the search is an `i32`.
pub proof fn lemma_minimax_range(board: Board, depth: nat, params: Params)
    ensures
        i32::MIN <= spec_minimax(board, depth, params) <= i32::MAX,
    decreases depth, 0nat,
{
    if depth > 0 {
        lemma_best_of(
            spec_children(board),
            (depth - 1) as nat,
            params,
            board.meta.spec_turn() == Color::White,
            spec_children(board).len(),
        );
    }
}

/// What a search between the bounds `alpha` and `beta` tells of the exact
/// value: between the bounds it has found it; at or below `alpha` it has
/// found that the exact value is no greater than what it returns; at or
/// above `beta`, that it is no less.
pub open spec fn fail_soft(value: int, exact: int, alpha: int, beta: int) -> bool {
    &&& alpha < value < beta ==> value == exact
    &&& value <= alpha ==> exact <= value
    &&& value >= beta ==> exact >= value
}

/// The value of a node, stated over any list `kids` that holds the same
/// positions as its children: no position of the list is better for the
/// side to move, and one of them, if there is one, has that value.
pub proof fn lemma_node_value(
    kids: Seq<Board>,
    children: Seq<Board>,
    depth: nat,
    params: Params,
    white: bool,
)
    requires
        same_positions(kids, children),
    ensures
        white ==> forall|j: int|
            0 <= j < kids.len() ==> #[trigger] spec_minimax(kids[j], depth, params) <= best_of(
                children,
                depth,
                params,
                white,
                children.len(),
            ),
        !white ==> forall|j: int|
            0 <= j < kids.len() ==> #[trigger] spec_minimax(kids[j], depth, params) >= best_of(
                children,
                depth,
                params,
                white,
                children.len(),
            ),
        kids.len() > 0 ==> exists|j: int|
            0 <= j < kids.len() && #[trigger] spec_minimax(kids[j], depth, params) == best_of(
                children,
                depth,
                params,
                white,
                children.len(),
            ),
        kids.len() == 0 ==> best_of(children, depth, params, white, children.len()) == (if white {
            i32::MIN as int
        } else {
            i32::MAX as int
        }),
{
    let best = best_of(children, depth, params, white, children.len());
    lemma_best_of(children, depth, params, white, children.len());
    assert forall|j: int| 0 <= j < kids.len() implies (white ==> #[trigger] spec_minimax(
        kids[j],
        depth,
        params,
    ) <= best) && (!white ==> spec_minimax(kids[j], depth, params) >= best) by {
        assert(children.contains(kids[j]));
        let k = choose|k: int| 0 <= k < children.len() && children[k] == kids[j];
        assert(spec_minimax(children[k], depth, params) == spec_minimax(kids[j], depth, params));
    }
    if kids.len() > 0 {
        let k = choose|k: int|
            0 <= k < children.len() && #[trigger] spec_minimax(children[k], depth, params)
                == best;
        assert(kids.contains(children[k]));
        let j = choose|j: int| 0 <= j < kids.len() && kids[j] == children[k];
        assert(spec_minimax(kids[j], depth, params) == best);
    }
}

/// The number of positions that the cache of a search holds at most.
pub const CACHE_SIZE: usize = 131072;

/// Searches `depth` plies from `board` with alpha-beta pruning: White takes
/// the greatest value and raises `alpha`, Black the least and lowers `beta`,
/// and a side stops looking as soon as the bounds meet. From depth
/// `params.sort_depth` on, the positions one move away are first sorted
/// by their static scores. A value that `cache` holds for the position and
/// depth is returned as it is, and a value that the search has found
/// exactly is stored there.
pub fn minimax(
    board: &Board,
    depth: i32,
    alpha: i32,
    beta: i32,
    params: &Params,
    cache: &mut lru::LruCache<(u128, u128, u64), i32>,
) -> (value: i32)
    requires
        alpha < beta,
        sound(entries(*old(cache)), *params),
    ensures
        sound(entries(*final(cache)), *params),
        fail_soft(
            value as int,
            spec_minimax(*board, plies(depth), *params),
            alpha as int,
            beta as int,
        ),
    decreases depth,
{
    if depth <= 0 {
        return material(board, params);
    }
    let key = board_key(board, depth);
    let ghost before = entries(*cache);
    proof {
        lemma_place_from(before, key, 0);
        if place_of(before, key) < before.len() {
            lemma_used_sound(before, place_of(before, key), *params);
            assert(spec_key(*board, plies(depth) as int) == before[place_of(before, key)].0);
        }
    }
    if let Some(known) = cache_get(cache, key) {
        return known;
    }
    let white = board.meta.turn() == Color::White;
    let mut kids = collect_children(board);
    if depth >= params.sort_depth {
        presort(&mut kids, params, white);
    }
    let ghost below = plies((depth - 1) as i32);
    proof {
        lemma_node_value(held(kids), spec_children(*board), below, *params, white);
    }
    let n = kids.len();
    let value = if white {
        let ghost floor = alpha;
        let mut alpha = alpha;
        let mut max: i32 = i32::MIN;
        let mut i: usize = 0;
        while i < n
            invariant_except_break
                alpha < beta,
                forall|j: int|
                    0 <= j < i ==> #[trigger] spec_minimax(held(kids)[j], below, *params) <= max,
            invariant
                i <= n,
                n == held(kids).len(),
                depth > 0,
                below == plies((depth - 1) as i32),
                floor < beta,
                sound(entries(*cache), *params),
                alpha == (if max > floor {
                    max
                } else {
                    floor
                }),
                max > floor ==> exists|j: int|
                    0 <= j < i && #[trigger] spec_minimax(held(kids)[j], below, *params) >= max,
            ensures
                sound(entries(*cache), *params),
                max < beta ==> i == n && forall|j: int|
                    0 <= j < i ==> #[trigger] spec_minimax(held(kids)[j], below, *params) <= max,
                max > floor ==> exists|j: int|
                    0 <= j < i && #[trigger] spec_minimax(held(kids)[j], below, *params) >= max,
            decreases n - i,
        {
            let kid = kids.at(i);
            let score = minimax(&kid, depth - 1, alpha, beta, params, cache);
            proof {
                assert(fail_soft(
                    score as int,
                    spec_minimax(held(kids)[i as int], below, *params),
                    alpha as int,
                    beta as int,
                ));
            }
            if score > max {
                max = score;
            }
            if score > alpha {
                alpha = score;
            }
            i += 1;
            if beta <= alpha {
                break ;
            }
        }
        max
    } else {
        let ghost ceiling = beta;
        let mut beta = beta;
        let mut min: i32 = i32::MAX;
        let mut i: usize = 0;
        while i < n
            invariant_except_break
                alpha < beta,
                forall|j: int|
                    0 <= j < i ==> #[trigger] spec_minimax(held(kids)[j], below, *params) >= min,
            invariant
                i <= n,
                n == held(kids).len(),
                depth > 0,
                below == plies((depth - 1) as i32),
                alpha < ceiling,
                sound(entries(*cache), *params),
                beta == (if min < ceiling {
                    min
                } else {
                    ceiling
                }),
                min < ceiling ==> exists|j: int|
                    0 <= j < i && #[trigger] spec_minimax(held(kids)[j], below, *params) <= min,
            ensures
                sound(entries(*cache), *params),
                min > alpha ==> i == n && forall|j: int|
                    0 <= j < i ==> #[trigger] spec_minimax(held(kids)[j], below, *params) >= min,
                min < ceiling ==> exists|j: int|
                    0 <= j < i && #[trigger] spec_minimax(held(kids)[j], below, *params) <= min,
            decreases n - i,
        {
            let kid = kids.at(i);
            let score = minimax(&kid, depth - 1, alpha, beta, params, cache);
            proof {
                assert(fail_soft(
                    score as int,
                    spec_minimax(held(kids)[i as int], below, *params),
                    alpha as int,
                    beta as int,
                ));
            }
            if score < min {
                min = score;
            }
            if score < beta {
                beta = score;
            }
            i += 1;
            if beta <= alpha {
                break ;
            }
        }
        min
    };
    if alpha < value && value < beta {
        proof {
            lemma_stored_sound(
                entries(*cache),
                crate::memo::capacity(*cache),
                *board,
                plies(depth),
                value,
                *params,
            );
        }
        cache_put(cache, key, value);
    }
    value
}

/// The moves among which the search chooses at the root: those that the
/// generator offers, except a castle in which the king would touch an
/// attacked square.
pub open spec fn root_moves(board: Board) -> Seq<Move> {
    spec_moves(board).filter(|mov: Move| castle_safe(board, mov))
}

/// What the move `mov` is worth to the search: the value of the position
/// that it leads to, searched `params.depth` plies deep.
pub open spec fn root_value(board: Board, params: Params, mov: Move) -> int {
    spec_minimax(board.spec_apply(mov), plies(params.depth), params)
}

/// Whether `score` is no worse for the side to move than the value `other`.
pub open spec fn no_worse(white: bool, score: int, other: int) -> bool {
    if white {
        other <= score
    } else {
        other >= score
    }
}

/// Whether candidate `k` of `moves` is the choice among the first `n`: its
/// value is `score`, no candidate there is better for the side to move,
/// and every candidate before it is worse.
pub open spec fn is_choice(
    board: Board,
    params: Params,
    moves: Seq<Move>,
    n: int,
    k: int,
    score: int,
) -> bool {
    let white = board.meta.spec_turn() == Color::White;
    &&& 0 <= k < n <= moves.len()
    &&& score == root_value(board, params, moves[k])
    &&& forall|j: int|
        0 <= j < n ==> no_worse(white, score, #[trigger] root_value(board, params, moves[j]))
    &&& forall|j: int|
        0 <= j < k ==> score != #[trigger] root_value(board, params, moves[j])
}

/// Whether `best` is what a full search of `board` has to return: nothing
/// when the side to move has no move to choose from, and else the first
/// of its best moves with its exact value.
pub open spec fn is_search_result(board: Board, params: Params, best: Option<(Move, i32)>) -> bool {
    match best {
        None => root_moves(board).len() == 0,
        Some((mov, score)) => exists|k: int|
            #![trigger root_moves(board)[k]]
            is_choice(board, params, root_moves(board), root_moves(board).len() as int, k, score as int)
                && root_moves(board)[k] == mov,
    }
}

/// Lists the moves among which the search chooses at the root.
pub fn candidates(board: &Board) -> (list: Vec<Move>)
    ensures
        list@ == root_moves(*board),
{
    let offered = moves(board);
    let ghost keep = |mov: Move| castle_safe(*board, mov);
    let mut list: Vec<Move> = Vec::new();
    let mut i: usize = 0;
    while i < offered.len()
        invariant
            i <= offered.len(),
            offered@ == spec_moves(*board),
            keep == (|mov: Move| castle_safe(*board, mov)),
            list@ == offered@.take(i as int).filter(keep),
        decreases offered.len() - i,
    {
        let mov = offered[i];
        let kept = is_castle_safe(board, mov);
        proof {
            reveal(Seq::filter);
            assert(offered@.take(i + 1).drop_last() =~= offered@.take(i as int));
            assert(kept == keep(mov));
        }
        if kept {
            list.push(mov);
        }
        i += 1;
    }
    proof {
        assert(offered@.take(offered.len() as int) =~= offered@);
    }
    list
}

/// Searches for the best move of the side to move: each candidate is
/// valued by a search of `params.depth` plies from the position it leads
/// to, White takes the first of the greatest value and Black the first of
/// the least. `None` means that there is no move to choose from.
pub fn search(board: &Board, params: &Params) -> (best: Option<(Move, i32)>)
    ensures
        is_search_result(*board, *params, best),
{
    let list = candidates(board);
    let white = board.meta.turn() == Color::White;
    let mut cache = match memo(CACHE_SIZE) {
        Some(cache) => cache,
        None => {
            return None;
        },
    };
    let mut best: Option<(Move, i32)> = None;
    let ghost mut chosen: int = 0;
    let mut i: usize = 0;
    while i < list.len()
        invariant
            i <= list.len(),
            list@ == root_moves(*board),
            white == (board.meta.spec_turn() == Color::White),
            best is None <==> i == 0,
            sound(entries(cache), *params),
            best matches Some((mov, score)) ==> is_choice(
                *board,
                *params,
                list@,
                i as int,
                chosen,
                score as int,
            ) && list@[chosen] == mov,
        decreases list.len() - i,
    {
        let mov = list[i];
        let child = board.apply_unchecked(mov);
        proof {
            lemma_minimax_range(child, plies(params.depth), *params);
        }
        match best {
            None => {
                let score = minimax(&child, params.depth, i32::MIN, i32::MAX, params, &mut cache);
                proof {
                    chosen = i as int;
                }
                best = Some((mov, score));
            },
            Some((_, so_far)) => {
                if white {
                    if so_far < i32::MAX {
                        let score = minimax(&child, params.depth, so_far, i32::MAX, params, &mut cache);
                        if score > so_far {
                            proof {
                                chosen = i as int;
                            }
                            best = Some((mov, score));
                        }
                    }
                } else {
                    if so_far > i32::MIN {
                        let score = minimax(&child, params.depth, i32::MIN, so_far, params, &mut cache);
                        if score < so_far {
                            proof {
                                chosen = i as int;
                            }
                            best = Some((mov, score));
                        }
                    }
                }
            },
        }
        i += 1;
    }
    best
}

} // verus!
