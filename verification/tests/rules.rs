use engine::board::Board;
use engine::location::loc;
use engine::location::Location;
use engine::moves::children;
use engine::moves::king::attacks;
use engine::moves::king::castle_moves;
use engine::moves::king::is_castle_safe;
use engine::moves::king::is_check;
use engine::moves::king::king_moves;
use engine::moves::knight::knight_moves;
use engine::moves::move_cache::piece_moves;
use engine::moves::move_cache::MoveCache;
use engine::moves::moves;
use engine::moves::pawn::forwards;
use engine::moves::pawn::left_captures;
use engine::moves::pawn::passant_moves;
use engine::moves::pawn::pawn_moves;
use engine::moves::pawn::right_captures;
use engine::moves::positions::Positions;
use engine::moves::queen::queen_moves;
use engine::moves::rook::file_downwards;
use engine::moves::rook::rank_leftside;
use engine::moves::rook::rook_moves;
use engine::moves::bishop::bishop_moves;
use engine::moves::bishop::diagonal_moves;
use engine::moves::bishop::left_diagonal;
use engine::moves::bishop::leftside_moves;
use engine::moves::bishop::right_diagonal;
use engine::moves::bishop::rightside_moves;
use engine::moves::Move;
use engine::moves::MoveIterator;
use engine::piece::Color;
use engine::piece::PieceIndex;

fn lone(slot: u8, square: Location) -> Board {
    let mut board = Board::empty();
    board.white.set(PieceIndex(slot), Some(square));
    board
}

fn squares(bits: u64) -> Vec<(u8, u8)> {
    (0..64u8).filter(|sq| bits >> sq & 1 == 1).map(|sq| (sq / 8, sq % 8)).collect()
}

fn play(board: &Board, from: (u8, u8), to: (u8, u8)) -> Board {
    board.apply((loc(to.0, to.1), loc(from.0, from.1))).unwrap()
}

fn walk(mine: u64, opponent: u64, from: (u8, u8), step: (i8, i8)) -> u64 {
    let mut reach = 0u64;
    let (mut r, mut f) = (from.0 as i8 + step.0, from.1 as i8 + step.1);
    while (0..8).contains(&r) && (0..8).contains(&f) {
        let bit = 1u64 << (r * 8 + f);
        if mine & bit != 0 {
            break;
        }
        reach |= bit;
        if opponent & bit != 0 {
            break;
        }
        r += step.0;
        f += step.1;
    }
    reach
}

fn scatter(seed: &mut u64) -> u64 {
    *seed ^= *seed << 13;
    *seed ^= *seed >> 7;
    *seed ^= *seed << 17;
    *seed
}

#[test]
fn lone_pieces_on_an_empty_board() {
    assert_eq!(moves(&lone(6, loc(7, 0))).len(), 14);
    assert_eq!(moves(&lone(6, loc(0, 7))).len(), 14);
    assert_eq!(moves(&lone(2, loc(0, 0))).len(), 7);
    assert_eq!(moves(&lone(2, loc(7, 0))).len(), 7);
    assert_eq!(moves(&lone(1, loc(7, 7))).len(), 21);
    assert_eq!(moves(&lone(4, loc(0, 0))).len(), 2);
    assert_eq!(moves(&lone(4, loc(7, 7))).len(), 2);
    assert_eq!(moves(&lone(0, loc(4, 4))).len(), 8);
    assert_eq!(moves(&lone(0, loc(1, 1))).len(), 8);
    assert_eq!(moves(&lone(0, loc(0, 0))).len(), 3);
    assert_eq!(moves(&Board::empty()).len(), 0);
}

#[test]
fn sliders_agree_with_a_walk_along_each_ray() {
    let mut seed = 0x9e37_79b9_7f4a_7c15u64;
    for round in 0..2000 {
        let a = scatter(&mut seed) & scatter(&mut seed);
        let b = scatter(&mut seed) & scatter(&mut seed) & !a;
        let from = ((round % 8) as u8, (round / 8 % 8) as u8);
        let here = loc(from.0, from.1);
        let (mine, opponent) = if round % 3 == 0 {
            (a | here.pos(), b & !here.pos())
        } else {
            (a & !here.pos(), b & !here.pos())
        };
        let pos = Positions::new(mine, opponent);
        let others = mine & !here.pos();
        let straight = walk(others, opponent, from, (0, 1))
            | walk(others, opponent, from, (0, -1))
            | walk(others, opponent, from, (1, 0))
            | walk(others, opponent, from, (-1, 0));
        let slanted = walk(others, opponent, from, (1, 1))
            | walk(others, opponent, from, (1, -1))
            | walk(others, opponent, from, (-1, 1))
            | walk(others, opponent, from, (-1, -1));
        if round % 3 != 0 {
            assert_eq!(rook_moves(&pos, here), straight);
            assert_eq!(bishop_moves(&pos, here), slanted);
            assert_eq!(queen_moves(&pos, here), straight | slanted);
            assert_eq!(rank_leftside(&pos, here), walk(others, opponent, from, (0, 1)));
            assert_eq!(file_downwards(&pos, here), walk(others, opponent, from, (1, 0)));
            assert_eq!(rightside_moves(&pos, here), walk(others, opponent, from, (1, 1)));
            assert_eq!(leftside_moves(&pos, here), walk(others, opponent, from, (1, -1)));
        }
        assert_eq!(rook_moves(&pos, here) & mine, 0);
        assert_eq!(queen_moves(&pos, here) & here.pos(), 0);
    }
}

#[test]
fn diagonals_run_through_their_square() {
    assert_eq!(right_diagonal(loc(0, 0)), 0x8040_2010_0804_0201);
    assert_eq!(left_diagonal(loc(0, 7)), 0x0102_0408_1020_4080);
    assert_eq!(squares(right_diagonal(loc(2, 0))), vec![(2, 0), (3, 1), (4, 2), (5, 3), (6, 4), (7, 5)]);
    assert_eq!(squares(right_diagonal(loc(0, 5))), vec![(0, 5), (1, 6), (2, 7)]);
    assert_eq!(squares(left_diagonal(loc(1, 1))), vec![(0, 2), (1, 1), (2, 0)]);
    assert_eq!(squares(left_diagonal(loc(7, 6))), vec![(6, 7), (7, 6)]);
    let pos = Positions::new(0, 0);
    assert_eq!(
        diagonal_moves(&pos, loc(1, 1), right_diagonal(loc(1, 1)), 9),
        rightside_moves(&pos, loc(1, 1))
    );
}

#[test]
fn knights_and_kings_stay_on_the_board() {
    let pos = Positions::new(0, 0);
    for r in 0..8u8 {
        for f in 0..8u8 {
            let mut knight = Vec::new();
            let mut king = Vec::new();
            for dr in -2i8..=2 {
                for df in -2i8..=2 {
                    let (nr, nf) = (r as i8 + dr, f as i8 + df);
                    if !(0..8).contains(&nr) || !(0..8).contains(&nf) {
                        continue;
                    }
                    if dr.abs() * df.abs() == 2 {
                        knight.push((nr as u8, nf as u8));
                    }
                    if dr.abs().max(df.abs()) == 1 {
                        king.push((nr as u8, nf as u8));
                    }
                }
            }
            assert_eq!(squares(knight_moves(&pos, loc(r, f))), knight);
            assert_eq!(squares(king_moves(&pos, loc(r, f))), king);
        }
    }
    let own = Positions::new(loc(2, 1).pos() | loc(1, 1).pos(), 0);
    assert_eq!(squares(knight_moves(&own, loc(0, 0))), vec![(1, 2)]);
    assert_eq!(squares(king_moves(&own, loc(0, 0))), vec![(0, 1), (1, 0)]);
}

#[test]
fn pawn_captures_do_not_wrap_around_the_board() {
    assert_eq!(left_captures(loc(4, 0), Color::White), 0);
    assert_eq!(squares(right_captures(loc(4, 0), Color::White)), vec![(3, 1)]);
    assert_eq!(squares(left_captures(loc(4, 7), Color::White)), vec![(3, 6)]);
    assert_eq!(right_captures(loc(4, 7), Color::White), 0);
    assert_eq!(squares(left_captures(loc(4, 0), Color::Black)), vec![(5, 1)]);
    assert_eq!(right_captures(loc(4, 0), Color::Black), 0);
    assert_eq!(left_captures(loc(4, 7), Color::Black), 0);
    assert_eq!(squares(right_captures(loc(4, 7), Color::Black)), vec![(5, 6)]);
}

#[test]
fn pawns_push_twice_only_from_their_start() {
    let free = Positions::new(0, 0);
    assert_eq!(squares(forwards(&free, loc(6, 3), Color::White)), vec![(4, 3), (5, 3)]);
    assert_eq!(squares(forwards(&free, loc(3, 3), Color::White)), vec![(2, 3)]);
    assert_eq!(squares(forwards(&free, loc(1, 3), Color::Black)), vec![(2, 3), (3, 3)]);
    assert_eq!(squares(forwards(&free, loc(4, 3), Color::Black)), vec![(5, 3)]);
    let blocked = Positions::new(0, loc(5, 3).pos());
    assert_eq!(forwards(&blocked, loc(6, 3), Color::White), 0);
    let far = Positions::new(loc(4, 3).pos(), 0);
    assert_eq!(squares(forwards(&far, loc(6, 3), Color::White)), vec![(5, 3)]);
    assert_eq!(forwards(&free, loc(0, 3), Color::White), 0);
    assert_eq!(pawn_moves(&blocked, loc(6, 3), Color::White), 0);
}

#[test]
fn the_start_offers_twenty_moves() {
    let board = Board::default();
    let white = moves(&board);
    assert_eq!(white.len(), 20);
    assert_eq!(white.iter().filter(|m| m.from.0 >= 8).count(), 16);
    assert_eq!(white.iter().filter(|m| m.from.0 == 4 || m.from.0 == 5).count(), 4);
    assert_eq!(children(&board).len(), 20);
    for next in children(&board) {
        assert_eq!(next.meta.turn(), Color::Black);
        assert_eq!(moves(&next).len(), 20);
    }
}

#[test]
fn moves_come_by_square_and_then_by_slot() {
    let board = Board::default();
    let list = moves(&board);
    let keys: Vec<(u8, u8)> = list.iter().map(|m| (m.to.rank() * 8 + m.to.file(), m.from.0)).collect();
    let mut sorted = keys.clone();
    sorted.sort();
    assert_eq!(keys, sorted);
    assert!(list[0] == Move { from: PieceIndex(8), to: loc(4, 0) });
    let mut board = Board::empty();
    board.white.set(PieceIndex(6), Some(loc(7, 0)));
    board.white.set(PieceIndex(7), Some(loc(0, 7)));
    let shared: Vec<u8> =
        moves(&board).iter().filter(|m| m.to == loc(0, 0)).map(|m| m.from.0).collect();
    assert_eq!(shared, vec![6, 7]);
}

#[test]
fn the_walk_gives_each_move_once() {
    let board = Board::default();
    let pos = Positions::from_board(&board);
    let mut walk = MoveIterator::new(MoveCache::new(&board, &pos));
    let mut seen = Vec::new();
    while let Some(found) = walk.next() {
        seen.push(found);
    }
    assert!(seen == moves(&board));
    assert!(walk.next().is_none());
}

#[test]
fn the_cache_holds_the_moves_of_every_slot() {
    let board = Board::default();
    let pos = Positions::from_board(&board);
    let cache = MoveCache::new(&board, &pos);
    assert_eq!(cache.get(PieceIndex(0)), 0);
    assert_eq!(squares(cache.get(PieceIndex(4))), vec![(5, 0), (5, 2)]);
    assert_eq!(squares(cache.get(PieceIndex(12))), vec![(4, 4), (5, 4)]);
    assert_eq!(cache.halves[0], cache.get(PieceIndex(4)) | cache.get(PieceIndex(5)));
    assert_eq!(cache.all, cache.halves[0] | cache.halves[1]);
    assert_eq!(cache.all, 0x0000_ffff_0000_0000);
    assert!(cache.get_loc(PieceIndex(1)) == Some(loc(7, 3)));
    assert_eq!(piece_moves(&board.white, &pos, board.meta, 12), cache.get(PieceIndex(12)));
    let black = MoveCache::for_player(&board.black, &pos.invert(), board.meta);
    assert!(black.get_loc(PieceIndex(0)) == Some(loc(0, 4)));
}

#[test]
fn a_double_push_sets_the_passant_target() {
    let board = Board::default();
    let pushed = play(&board, (6, 4), (4, 4));
    assert_eq!(pushed.meta.passant_file(), Some(4));
    assert_eq!(pushed.meta.turn(), Color::Black);
    let answered = play(&pushed, (1, 0), (2, 0));
    assert_eq!(answered.meta.passant_file(), None);
    let twice = play(&answered, (6, 0), (4, 0));
    assert_eq!(twice.meta.passant_file(), Some(0));
    let knight = play(&twice, (0, 1), (2, 2));
    assert_eq!(knight.meta.passant_file(), None);
    let black_push = play(&pushed, (1, 7), (3, 7));
    assert_eq!(black_push.meta.passant_file(), Some(7));
}

#[test]
fn a_pawn_takes_en_passant() {
    let mut board = Board::default();
    for (from, to) in [((6, 4), (4, 4)), ((1, 0), (2, 0)), ((4, 4), (3, 4)), ((1, 3), (3, 3))] {
        board = play(&board, from, to);
    }
    assert_eq!(board.meta.passant_file(), Some(3));
    let pos = Positions::from_board(&board);
    assert_eq!(squares(passant_moves(&pos, loc(3, 4), Color::White, board.meta)), vec![(2, 3)]);
    assert_eq!(passant_moves(&pos, loc(6, 0), Color::White, board.meta), 0);
    let taken = play(&board, (3, 4), (2, 3));
    assert!(taken.search_for(loc(3, 3)).is_none());
    assert_eq!(taken.black.slots[11], None);
    assert!(taken.white.slots[12] == Some(loc(2, 3)));
    assert_eq!(taken.meta.passant_file(), None);
    let late = play(&play(&board, (6, 0), (5, 0)), (2, 0), (3, 0));
    assert!(late.apply((loc(2, 3), loc(3, 4))).is_none());
}

#[test]
fn a_capture_empties_the_slot_of_the_captured() {
    let mut board = Board::default();
    for (from, to) in [((6, 4), (4, 4)), ((1, 3), (3, 3))] {
        board = play(&board, from, to);
    }
    let taken = play(&board, (4, 4), (3, 3));
    assert_eq!(taken.black.slots[11], None);
    assert!(taken.white.slots[12] == Some(loc(3, 3)));
    assert_eq!(taken.black.slots.iter().filter(|s| s.is_some()).count(), 15);
    assert_eq!(taken.white.slots.iter().filter(|s| s.is_some()).count(), 16);
}

#[test]
fn a_pawn_on_the_farthest_rank_moves_as_a_queen() {
    let mut board = Board::empty();
    board.white.set(PieceIndex(8), Some(loc(1, 0)));
    board.black.set(PieceIndex(8), Some(loc(6, 7)));
    let promoted = board.apply_unchecked(Move { from: PieceIndex(8), to: loc(0, 0) });
    let queen = promoted.white.slots[8].unwrap();
    assert!(queen.is_queen());
    assert!(queen == loc(0, 0));
    let black = promoted.apply_unchecked(Move { from: PieceIndex(8), to: loc(7, 7) });
    assert!(black.black.slots[8].unwrap().is_queen());
    let pos = Positions::from_board(&black);
    let cache = MoveCache::new(&black, &pos);
    assert_eq!(cache.get(PieceIndex(8)), queen_moves(&pos, loc(0, 0)));
    assert_eq!(cache.get(PieceIndex(8)).count_ones(), 21);
    let early = board.apply_unchecked(Move { from: PieceIndex(8), to: loc(2, 0) });
    assert!(!early.white.slots[8].unwrap().is_queen());
}

fn castle_ready() -> Board {
    let mut board = Board::default();
    for slot in [1, 2, 3, 4, 5] {
        board.white.set(PieceIndex(slot), None);
        board.black.set(PieceIndex(slot), None);
    }
    board
}

fn to_squares(list: &[Move]) -> Vec<(u8, u8)> {
    list.iter().map(|m| (m.to.rank(), m.to.file())).collect()
}

#[test]
fn castles_are_offered_when_the_way_is_free() {
    let board = castle_ready();
    let king = board.moves_for_piece(loc(7, 4));
    assert_eq!(to_squares(&king), vec![(7, 2), (7, 3), (7, 5), (7, 6)]);
    let pos = Positions::from_board(&board);
    assert_eq!(squares(castle_moves(&board.white, &pos, board.meta)), vec![(7, 2), (7, 6)]);
    let short = play(&board, (7, 4), (7, 6));
    assert!(short.white.slots[0] == Some(loc(7, 6)));
    assert!(short.white.slots[7] == Some(loc(7, 5)));
    assert!(short.white.slots[6] == Some(loc(7, 0)));
    assert!(!short.meta.kingside_castle(Color::White));
    assert!(!short.meta.queenside_castle(Color::White));
    assert!(short.meta.kingside_castle(Color::Black));
    let long = play(&board, (7, 4), (7, 2));
    assert!(long.white.slots[0] == Some(loc(7, 2)));
    assert!(long.white.slots[6] == Some(loc(7, 3)));
    assert!(long.white.slots[7] == Some(loc(7, 7)));
    let black = play(&short, (0, 4), (0, 2));
    assert!(black.black.slots[0] == Some(loc(0, 2)));
    assert!(black.black.slots[6] == Some(loc(0, 3)));
    assert_eq!(to_squares(&Board::default().moves_for_piece(loc(7, 4))), vec![]);
}

#[test]
fn a_rook_that_has_moved_castles_no_more() {
    let mut board = castle_ready();
    for (from, to) in [((7, 7), (7, 6)), ((1, 0), (2, 0)), ((7, 6), (7, 7)), ((2, 0), (3, 0))] {
        board = play(&board, from, to);
    }
    assert!(board.white.slots[7] == Some(loc(7, 7)));
    assert!(!board.meta.kingside_castle(Color::White));
    assert!(board.meta.queenside_castle(Color::White));
    assert_eq!(to_squares(&board.moves_for_piece(loc(7, 4))), vec![(7, 2), (7, 3), (7, 5)]);
    assert!(board.apply((loc(7, 6), loc(7, 4))).is_none());
}

#[test]
fn a_king_that_has_moved_castles_no_more() {
    let mut board = castle_ready();
    for (from, to) in [((7, 4), (7, 5)), ((1, 0), (2, 0)), ((7, 5), (7, 4)), ((2, 0), (3, 0))] {
        board = play(&board, from, to);
    }
    assert!(board.white.slots[0] == Some(loc(7, 4)));
    assert!(!board.meta.kingside_castle(Color::White));
    assert!(!board.meta.queenside_castle(Color::White));
    assert_eq!(to_squares(&board.moves_for_piece(loc(7, 4))), vec![(7, 3), (7, 5)]);
    for (from, to) in [((6, 7), (5, 7)), ((1, 7), (2, 7)), ((5, 7), (4, 7)), ((2, 7), (3, 7))] {
        board = play(&board, from, to);
    }
    assert!(!board.meta.kingside_castle(Color::White));
    assert!(!board.meta.queenside_castle(Color::White));
}

#[test]
fn a_captured_rook_costs_its_side_the_right() {
    let mut board = castle_ready();
    board.white.set(PieceIndex(15), None);
    board.black.set(PieceIndex(15), None);
    let taken = play(&board, (7, 7), (0, 7));
    assert!(!taken.meta.kingside_castle(Color::Black));
    assert!(taken.meta.queenside_castle(Color::Black));
    assert!(!taken.meta.kingside_castle(Color::White));
    assert!(taken.black.slots[7].is_none());
}

#[test]
fn a_king_does_not_castle_through_an_attack() {
    let mut board = castle_ready();
    board.white.set(PieceIndex(13), None);
    board.black.set(PieceIndex(13), None);
    board.black.set(PieceIndex(7), Some(loc(3, 5)));
    let offered = moves(&board);
    let castle = Move { from: PieceIndex(0), to: loc(7, 6) };
    assert!(offered.contains(&castle));
    assert!(!is_castle_safe(&board, castle));
    assert!(is_castle_safe(&board, Move { from: PieceIndex(0), to: loc(7, 2) }));
    assert!(is_castle_safe(&board, Move { from: PieceIndex(0), to: loc(7, 3) }));
    assert!(board.apply((loc(7, 6), loc(7, 4))).is_none());
    assert!(board.apply((loc(7, 2), loc(7, 4))).is_some());
    assert_eq!(
        to_squares(&board.moves_for_piece(loc(7, 4))),
        vec![(6, 5), (7, 2), (7, 3), (7, 5)]
    );
    assert!(attacks(&board, Color::Black) & loc(7, 5).pos() != 0);
}

#[test]
fn check_is_an_attack_on_the_king() {
    let board = Board::default();
    assert!(!is_check(&board, Color::White));
    assert!(!is_check(&board, Color::Black));
    let mut open = Board::default();
    open.white.set(PieceIndex(12), None);
    open.black.set(PieceIndex(1), Some(loc(3, 4)));
    assert!(is_check(&open, Color::White));
    assert!(!is_check(&open, Color::Black));
    open.meta.flip_turn();
    assert!(is_check(&open, Color::White));
    let mut knight = Board::default();
    knight.black.set(PieceIndex(4), Some(loc(5, 3)));
    assert!(is_check(&knight, Color::White));
}

#[test]
fn apply_rejects_what_is_not_a_move_of_the_side_to_move() {
    let board = Board::default();
    assert!(board.apply((loc(4, 4), loc(6, 4))).is_some());
    assert!(board.apply((loc(3, 4), loc(6, 4))).is_none());
    assert!(board.apply((loc(2, 4), loc(1, 4))).is_none());
    assert!(board.apply((loc(4, 4), loc(4, 3))).is_none());
    assert!(board.apply((loc(6, 3), loc(7, 3))).is_none());
    assert!(board.apply((loc(5, 0), loc(7, 0))).is_none());
    let next = play(&board, (7, 1), (5, 2));
    assert!(next.white.slots[4] == Some(loc(5, 2)));
    assert!(next.apply((loc(3, 3), loc(5, 2))).is_none());
}

#[test]
fn apply_unchecked_leaves_the_board_when_nothing_moves() {
    let board = Board::default();
    let mut ghost = board;
    ghost.white.set(PieceIndex(3), None);
    assert!(ghost.apply_unchecked(Move { from: PieceIndex(3), to: loc(4, 4) }) == ghost);
    assert!(board.apply_unchecked(Move { from: PieceIndex(16), to: loc(4, 4) }) == board);
    let pos = Positions::from_board(&board);
    let moved = board._apply(Move { from: PieceIndex(4), to: loc(5, 0) }, &pos);
    assert!(moved == board.apply_unchecked(Move { from: PieceIndex(4), to: loc(5, 0) }));
    assert!(moved != board);
}

#[test]
fn children_are_the_moves_applied() {
    let board = play(&Board::default(), (6, 4), (4, 4));
    let list = moves(&board);
    let kids = board.children();
    assert_eq!(kids.len(), list.len());
    for (kid, mov) in kids.iter().zip(list.iter()) {
        assert!(*kid == board.apply_unchecked(*mov));
    }
}
