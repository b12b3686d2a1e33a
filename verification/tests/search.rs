use engine::board::Board;
use engine::frontier::collect_children;
use engine::frontier::presort;
use engine::frontier::presort_key;
use engine::heuristic::center_seeking;
use engine::heuristic::count;
use engine::heuristic::is_alive;
use engine::heuristic::material;
use engine::heuristic::player_material;
use engine::heuristic::sum_value;
use engine::heuristic::SCORE_LIMIT;
use engine::location::loc;
use engine::memo::board_key;
use engine::memo::memo;
use engine::moves::moves;
use engine::piece::Color;
use engine::piece::PieceIndex;
use engine::search::candidates;
use engine::search::minimax;
use engine::search::search;
use engine::search::Params;
use engine::search::ValueTable;

fn shallow(depth: i32) -> Params {
    let mut params = Params::default();
    params.depth = depth;
    params.sort_depth = 1;
    params
}

fn plain(board: &Board, depth: i32, params: &Params) -> i32 {
    if depth <= 0 {
        return material(board, params);
    }
    let kids = board.children();
    if board.meta.turn() == Color::White {
        kids.iter().map(|kid| plain(kid, depth - 1, params)).max().unwrap_or(i32::MIN)
    } else {
        kids.iter().map(|kid| plain(kid, depth - 1, params)).min().unwrap_or(i32::MAX)
    }
}

fn skirmish() -> Board {
    let mut board = Board::default();
    for (from, to) in [((6, 4), (4, 4)), ((1, 3), (3, 3)), ((7, 1), (5, 2)), ((0, 2), (4, 6))] {
        board = board.apply((loc(to.0, to.1), loc(from.0, from.1))).unwrap();
    }
    board
}

#[test]
fn closeness_to_the_centre() {
    assert_eq!(center_seeking(loc(4, 4)), 100);
    assert_eq!(center_seeking(loc(0, 0)), 68);
    assert_eq!(center_seeking(loc(7, 7)), 82);
    assert_eq!(center_seeking(loc(3, 4)), 99);
    assert_eq!(center_seeking(loc(4, 0)), 84);
}

#[test]
fn pairs_are_counted_and_summed() {
    assert_eq!(is_alive(Some(loc(0, 0))), 1);
    assert_eq!(is_alive(None), 0);
    assert_eq!(count([Some(loc(1, 1)), None]), 1);
    assert_eq!(count([None, None]), 0);
    assert_eq!(count([Some(loc(1, 1)), Some(loc(2, 2))]), 2);
    assert_eq!(sum_value([Some(loc(4, 4)), Some(loc(0, 0))]), 168);
    assert_eq!(sum_value([None, Some(loc(7, 7))]), 82);
    assert_eq!(sum_value([None, None]), 0);
}

#[test]
fn default_parameters() {
    let params = Params::default();
    assert_eq!(params.sort_depth, 3);
    assert_eq!(params.depth, 4);
    assert!(params.incremental);
    assert_eq!(params.king_value, 9000);
    assert_eq!(params.castle_kingside, 0);
    assert_eq!(params.castle_queenside, 0);
    assert_eq!(params.pawn.squares[4][4], 100);
    assert_eq!(params.pawn.squares[0][0], 68);
    assert_eq!(params.knight.squares[4][4], 300);
    assert_eq!(params.knight.squares[7][7], 246);
    assert_eq!(params.bishop.squares[4][4], 350);
    assert_eq!(params.bishop.squares[3][4], 346);
    assert_eq!(params.rook.squares[2][6], 5);
    assert_eq!(params.queen.squares[5][1], 900);
    assert_eq!(params.king.squares[7][4], 0);
    assert_eq!(ValueTable::centred(10, 1, 2).squares[0][0], 44);
}

#[test]
fn the_start_is_worth_nothing_to_either_side() {
    let board = Board::default();
    let params = Params::default();
    assert_eq!(material(&board, &params), 0);
    assert_eq!(
        player_material(&board.white, board.meta, &params),
        player_material(&board.black, board.meta, &params)
    );
    let pawns: i64 = (0..8).map(|f| 100 - (4 + (f - 4) * (f - 4)) as i64).sum();
    let knights = 3 * (100 - 18) + 3 * (100 - 13);
    let bishops = 35 * (100 - 13) / 10 + 35 * (100 - 10) / 10;
    assert_eq!(
        player_material(&board.white, board.meta, &params),
        9000 + 900 + 2 * 5 + knights + bishops + pawns
    );
}

#[test]
fn material_counts_what_is_on_the_board() {
    let params = Params::default();
    let mut board = Board::default();
    board.black.set(PieceIndex(1), None);
    assert_eq!(material(&board, &params), 900);
    board.white.set(PieceIndex(6), None);
    assert_eq!(material(&board, &params), 895);
    board.white.set(PieceIndex(0), None);
    assert_eq!(material(&board, &params), 895 - 9000);
    let mut mirrored = Board::empty();
    mirrored.white.set(PieceIndex(8), Some(loc(6, 2)));
    mirrored.black.set(PieceIndex(8), Some(loc(1, 2)));
    assert_eq!(material(&mirrored, &params), 0);
    mirrored.black.set(PieceIndex(8), Some(loc(6, 2)));
    assert_eq!(material(&mirrored, &params), (100 - 8) - (100 - 13));
    let mut queen = loc(6, 2);
    queen.promote();
    mirrored.white.set(PieceIndex(8), Some(queen));
    assert_eq!(material(&mirrored, &params), 900 - (100 - 13));
}

#[test]
fn castle_rights_are_worth_their_bonus() {
    let mut params = Params::default();
    params.castle_kingside = 7;
    params.castle_queenside = 11;
    let mut board = Board::default();
    assert_eq!(material(&board, &params), 0);
    board.meta.lose_kingside(Color::White);
    assert_eq!(material(&board, &params), -7);
    board.meta.lose_queenside(Color::Black);
    assert_eq!(material(&board, &params), 4);
}

#[test]
fn material_stays_within_the_limit() {
    let mut params = Params::default();
    params.king_value = i32::MAX;
    params.queen = ValueTable { squares: [[i32::MAX; 8]; 8] };
    let mut board = Board::default();
    for slot in 0..16 {
        board.black.set(PieceIndex(slot), None);
    }
    assert_eq!(material(&board, &params), SCORE_LIMIT);
    let mut other = Board::default();
    for slot in 0..16 {
        other.white.set(PieceIndex(slot), None);
    }
    assert_eq!(material(&other, &params), -SCORE_LIMIT);
}

#[test]
fn the_frontier_holds_the_positions_one_move_away() {
    let board = skirmish();
    let list = collect_children(&board);
    let expected = board.children();
    assert_eq!(list.len(), expected.len());
    assert_eq!(list.len(), moves(&board).len());
    for at in 0..expected.len() {
        assert!(list.get(at) == Some(expected[at]));
        assert!(list.at(at) == expected[at]);
    }
    assert!(list.get(0) != Some(board));
    assert!(list.get(expected.len()).is_none());
    assert_eq!(collect_children(&Board::empty()).len(), 0);
    assert!(collect_children(&Board::empty()).get(0).is_none());
}

#[test]
fn presort_puts_the_best_looking_position_first() {
    let board = skirmish();
    let params = Params::default();
    for white in [true, false] {
        let mut list = collect_children(&board);
        let before: Vec<Board> = (0..list.len()).map(|at| list.at(at)).collect();
        presort(&mut list, &params, white);
        let after: Vec<Board> = (0..list.len()).map(|at| list.at(at)).collect();
        assert_eq!(after.len(), before.len());
        let keys: Vec<i32> = after.iter().map(|kid| presort_key(kid, &params, white)).collect();
        assert!(keys.windows(2).all(|pair| pair[0] <= pair[1]));
        assert!(keys.first() != keys.last());
        assert!(after != before);
        for kid in &before {
            assert_eq!(
                after.iter().filter(|other| *other == kid).count(),
                before.iter().filter(|other| *other == kid).count()
            );
        }
        let mut stable = before.clone();
        stable.sort_by_key(|kid| presort_key(kid, &params, white));
        assert!(stable == after);
    }
    assert_eq!(presort_key(&board, &params, true), -material(&board, &params));
    assert_eq!(presort_key(&board, &params, false), material(&board, &params));
}

#[test]
fn a_cache_is_made_empty_and_bounded() {
    assert!(memo(0).is_none());
    assert!(memo(usize::MAX).is_none());
    assert!(memo((1 << 24) + 1).is_none());
    let cache = memo(3).unwrap();
    assert_eq!(cache.len(), 0);
    assert_eq!(cache.cap().get(), 3);
}

#[test]
fn minimax_stores_what_it_has_found_and_returns_what_is_stored() {
    let params = shallow(2);
    let board = skirmish();
    let key = board_key(&board, 2);
    let mut cache = memo(1 << 10).unwrap();
    let value = minimax(&board, 2, i32::MIN, i32::MAX, &params, &mut cache);
    assert_eq!(cache.peek(&key), Some(&value));
    assert!(cache.len() > 1);
    let mut primed = memo(4).unwrap();
    primed.put(key, value + 12345);
    primed.put((1, 2, 3), 7);
    assert_eq!(minimax(&board, 2, i32::MIN, i32::MAX, &params, &mut primed), value + 12345);
    assert_eq!(primed.iter().next().map(|(k, _)| *k), Some(key));
    let mut tiny = memo(1).unwrap();
    assert_eq!(minimax(&board, 2, i32::MIN, i32::MAX, &params, &mut tiny), value);
    assert_eq!(tiny.len(), 1);
    assert_eq!(tiny.peek(&key), Some(&value));
}

#[test]
fn keys_tell_positions_and_depths_apart() {
    let start = Board::default();
    let mut keys = std::collections::HashSet::new();
    assert!(keys.insert(board_key(&start, 1)));
    assert!(keys.insert(board_key(&start, 2)));
    for kid in start.children() {
        assert!(keys.insert(board_key(&kid, 1)));
    }
    let mut turned = start;
    turned.meta.flip_turn();
    assert!(keys.insert(board_key(&turned, 1)));
    let mut fewer = start;
    fewer.meta.lose_kingside(Color::Black);
    assert!(keys.insert(board_key(&fewer, 1)));
    let mut marked = start;
    let mut queen = loc(6, 0);
    queen.promote();
    marked.white.set(PieceIndex(8), Some(queen));
    assert!(keys.insert(board_key(&marked, 1)));
    assert!(!keys.insert(board_key(&Board::default(), 1)));
    let key = board_key(&start, 0);
    assert_eq!(key.0, 0x3d3c_3b3e_3a3f_3940_3132_3334_3536_3738);
    assert_eq!(key.1, 0x0504_0306_0207_0108_090a_0b0c_0d0e_0f10);
    assert_eq!(key.2, 0b0001_1111 * 4 + 1);
    assert_eq!(board_key(&start, 3).2, (3 * 2 * 256 + 0b0001_1111) * 4 + 1);
}

#[test]
fn minimax_with_open_bounds_is_plain_minimax() {
    let params = shallow(2);
    for board in [Board::default(), skirmish()] {
        for depth in 0..3 {
            let mut cache = memo(1 << 10).unwrap();
            let value = minimax(&board, depth, i32::MIN, i32::MAX, &params, &mut cache);
            assert_eq!(value, plain(&board, depth, &params));
            let again = minimax(&board, depth, i32::MIN, i32::MAX, &params, &mut cache);
            assert_eq!(again, value);
            if depth > 0 {
                assert_eq!(cache.get(&board_key(&board, depth)), Some(&value));
            }
        }
    }
}

#[test]
fn minimax_sorts_without_changing_the_value() {
    let board = skirmish();
    let mut sorting = shallow(2);
    sorting.sort_depth = 0;
    let mut unsorted = shallow(2);
    unsorted.sort_depth = 100;
    let a = minimax(&board, 2, i32::MIN, i32::MAX, &sorting, &mut memo(16).unwrap());
    let b = minimax(&board, 2, i32::MIN, i32::MAX, &unsorted, &mut memo(16).unwrap());
    assert_eq!(a, b);
}

#[test]
fn minimax_between_bounds_tells_on_which_side_the_value_lies() {
    let params = shallow(2);
    let board = skirmish();
    let exact = plain(&board, 2, &params);
    for (alpha, beta) in [(exact - 50, exact + 50), (exact, exact + 1), (exact - 1, exact)] {
        let found = minimax(&board, 2, alpha, beta, &params, &mut memo(64).unwrap());
        if alpha < found && found < beta {
            assert_eq!(found, exact);
        } else if found <= alpha {
            assert!(exact <= found);
        } else {
            assert!(exact >= found);
        }
    }
    let low = minimax(&board, 2, exact + 10, exact + 20, &params, &mut memo(64).unwrap());
    assert!(low <= exact + 10 && exact <= low);
    let high = minimax(&board, 2, exact - 20, exact - 10, &params, &mut memo(64).unwrap());
    assert!(high >= exact - 10 && exact >= high);
}

#[test]
fn a_side_without_moves_has_the_worst_value() {
    let params = shallow(1);
    let empty = Board::empty();
    assert_eq!(minimax(&empty, 1, i32::MIN, i32::MAX, &params, &mut memo(4).unwrap()), i32::MIN);
    let mut black = Board::empty();
    black.meta.flip_turn();
    assert_eq!(minimax(&black, 1, i32::MIN, i32::MAX, &params, &mut memo(4).unwrap()), i32::MAX);
    assert_eq!(minimax(&empty, 0, i32::MIN, i32::MAX, &params, &mut memo(4).unwrap()), 0);
    assert!(search(&empty, &params).is_none());
    assert!(empty.play_with(&params).is_none());
}

#[test]
fn search_returns_the_first_of_the_best_moves() {
    for board in [Board::default(), skirmish(), skirmish().children()[3]] {
        for depth in 0..2 {
            let params = shallow(depth);
            let (mov, score) = search(&board, &params).unwrap();
            let list = candidates(&board);
            let values: Vec<i32> =
                list.iter().map(|m| plain(&board.apply_unchecked(*m), depth, &params)).collect();
            let best = if board.meta.turn() == Color::White {
                *values.iter().max().unwrap()
            } else {
                *values.iter().min().unwrap()
            };
            assert_eq!(score, best);
            let first = values.iter().position(|v| *v == best).unwrap();
            assert!(list[first] == mov);
        }
    }
}

#[test]
fn search_from_the_start_is_legal_and_repeatable() {
    let params = shallow(2);
    let board = Board::default();
    let (mov, score) = search(&board, &params).unwrap();
    assert!(moves(&board).contains(&mov));
    assert!(-SCORE_LIMIT <= score && score <= SCORE_LIMIT);
    let from = board.white.get(mov.from).unwrap();
    let next = board.apply((mov.to, from)).unwrap();
    assert!(board.play_with(&params) == Some(next));
    assert_eq!(next.meta.turn(), Color::Black);
    let again = search(&board, &params).unwrap();
    assert!(again.0 == mov);
    assert_eq!(again.1, score);
    let reply = search(&next, &params).unwrap();
    assert!(moves(&next).contains(&reply.0));
}

#[test]
fn search_takes_what_is_left_hanging() {
    let mut board = Board::empty();
    board.white.set(PieceIndex(0), Some(loc(7, 4)));
    board.black.set(PieceIndex(0), Some(loc(0, 4)));
    board.white.set(PieceIndex(6), Some(loc(4, 0)));
    board.black.set(PieceIndex(1), Some(loc(4, 7)));
    let params = shallow(1);
    let (mov, _) = search(&board, &params).unwrap();
    assert_eq!(mov.from, PieceIndex(6));
    assert!(mov.to == loc(4, 7));
    let mut castle = board;
    castle.black.set(PieceIndex(1), None);
    castle.white.set(PieceIndex(6), Some(loc(7, 0)));
    castle.black.set(PieceIndex(7), Some(loc(0, 3)));
    castle.meta = engine::metadata::Metadata::default();
    assert!(moves(&castle).len() > candidates(&castle).len());
    assert!(candidates(&castle).iter().all(|m| !(m.from.0 == 0 && m.to == loc(7, 2))));
}
