use engine::board::Board;
use engine::heuristic::material;
use engine::heuristic::mobility;
use engine::heuristic::value;
use engine::location::loc;
use engine::moves::moves;
use engine::piece::Color;
use engine::piece::Kind;
use engine::piece::PieceIndex;
use engine::search::Params;
use engine::select::color;
use engine::select::highlighted;
use engine::select::range;
use engine::select::UseSelected;
use std::str::FromStr;

fn play(board: &Board, from: (u8, u8), to: (u8, u8)) -> Board {
    board.apply((loc(to.0, to.1), loc(from.0, from.1))).unwrap()
}

#[test]
fn squares_alternate_in_colour() {
    assert_eq!(color(0, 0), Color::White);
    assert_eq!(color(0, 1), Color::Black);
    assert_eq!(color(7, 7), Color::White);
    assert_eq!(color(3, 4), Color::Black);
    assert_eq!(color(200, 55), Color::Black);
}

#[test]
fn each_side_sees_the_board_from_its_end() {
    assert_eq!(range(Color::White), vec![0, 1, 2, 3, 4, 5, 6, 7]);
    assert_eq!(range(Color::Black), vec![7, 6, 5, 4, 3, 2, 1, 0]);
}

#[test]
fn colours_are_named_in_either_case() {
    assert_eq!(Color::from_name("white"), Ok(Color::White));
    assert_eq!(Color::from_name("WHITE"), Ok(Color::White));
    assert_eq!(Color::from_name("bLaCk"), Ok(Color::Black));
    assert_eq!(Color::from_name("blac"), Err("not a valid player"));
    assert_eq!(Color::from_name("whites"), Err("not a valid player"));
    assert_eq!(Color::from_name("wh1te"), Err("not a valid player"));
    assert_eq!(Color::from_name("wHITE"), Ok(Color::White));
    assert_eq!(Color::from_name("\u{37}hite"), Err("not a valid player"));
    assert_eq!(Color::from_name(""), Err("not a valid player"));
    assert_eq!(Color::from_str("Black"), Ok(Color::Black));
    assert_eq!("white".parse::<Color>(), Ok(Color::White));
}

#[test]
fn highlighted_squares_are_the_destinations_of_the_piece_in_hand() {
    let board = Board::default();
    assert!(highlighted(&board, None).is_empty());
    assert!(highlighted(&board, Some(loc(4, 4))).is_empty());
    assert!(highlighted(&board, Some(loc(7, 0))).is_empty());
    assert!(highlighted(&board, Some(loc(6, 4))) == vec![loc(4, 4), loc(5, 4)]);
    assert!(highlighted(&board, Some(loc(7, 1))) == vec![loc(5, 0), loc(5, 2)]);
    assert!(highlighted(&board, Some(loc(1, 4))).is_empty());
}

#[test]
fn a_click_takes_a_piece_of_the_side_to_move_in_hand() {
    let mut state = UseSelected { pos: None, allow_play: true, board: Board::default() };
    assert!(state.is_valid(loc(6, 4)));
    assert!(!state.is_valid(loc(1, 4)));
    assert!(!state.is_valid(loc(4, 4)));
    state.set(loc(1, 4));
    assert!(state.pos.is_none());
    state.set(loc(6, 4));
    assert!(state.pos == Some(loc(6, 4)));
    state.set(loc(4, 4));
    assert!(state.pos.is_none());
    assert!(state.board == play(&Board::default(), (6, 4), (4, 4)));
    state.set(loc(1, 0));
    assert!(state.pos == Some(loc(1, 0)));
    state.set(loc(1, 1));
    assert!(state.pos == Some(loc(1, 1)));
    assert!(state.board == play(&Board::default(), (6, 4), (4, 4)));
    state.set(loc(5, 5));
    assert!(state.pos.is_none());
    let mut watching = UseSelected { pos: None, allow_play: false, board: Board::default() };
    assert!(!watching.is_valid(loc(6, 4)));
    watching.set_new(loc(6, 4));
    assert!(watching.pos.is_none());
    watching.set(loc(6, 4));
    assert!(watching == UseSelected { pos: None, allow_play: false, board: Board::default() });
}

#[test]
fn the_pieces_of_a_colour_come_in_the_order_of_their_slots() {
    let mut board = Board::default();
    let white = board.colored_pieces(Color::White);
    assert_eq!(white.len(), 16);
    assert_eq!(white[0].0.kind, Kind::King);
    assert!(white[0].1 == loc(7, 4));
    assert!(white.iter().enumerate().all(|(i, (piece, _))| piece.index == PieceIndex(i as u8)));
    assert!(white.iter().all(|(piece, _)| piece.color == Color::White));
    board.black.set(PieceIndex(1), None);
    let mut queen = loc(5, 5);
    queen.promote();
    board.black.set(PieceIndex(15), Some(queen));
    let black = board.colored_pieces(Color::Black);
    assert_eq!(black.len(), 15);
    assert_eq!(black[1].0.index, PieceIndex(2));
    assert_eq!(black[14].0.kind, Kind::Queen);
    assert!(black[14].1.is_queen());
    assert!(Board::empty().colored_pieces(Color::White).is_empty());
}

#[test]
fn a_piece_is_taken_off_its_square() {
    let mut board = Board::default();
    let rook = board.remove_piece(loc(0, 0)).unwrap();
    assert_eq!((rook.kind, rook.color, rook.index), (Kind::Rook, Color::Black, PieceIndex(6)));
    assert!(board.black.slots[6].is_none());
    assert!(board.remove_piece(loc(0, 0)).is_none());
    assert!(board.remove_piece(loc(4, 4)).is_none());
    let pawn = board.remove_piece(loc(6, 7)).unwrap();
    assert_eq!((pawn.kind, pawn.color, pawn.index), (Kind::Pawn, Color::White, PieceIndex(15)));
    assert_eq!(board.colored_pieces(Color::White).len(), 15);
    assert_eq!(board.colored_pieces(Color::Black).len(), 15);
    assert_eq!(board.meta.turn(), Color::White);
}

#[test]
fn slots_can_be_written_through_a_reference() {
    let mut board = Board::default();
    board.white.locations_mut()[1] = None;
    assert!(board.white.slots[1].is_none());
    assert!(board.search_for(loc(7, 3)).is_none());
}

#[test]
fn a_board_is_valid_while_no_two_pieces_share_a_square() {
    assert!(Board::default().is_valid());
    assert!(Board::empty().is_valid());
    let mut board = Board::default();
    for (from, to) in [((6, 4), (4, 4)), ((1, 3), (3, 3)), ((4, 4), (3, 3)), ((0, 3), (3, 3))] {
        board = play(&board, from, to);
        assert!(board.is_valid());
    }
    let mut crowded = Board::default();
    crowded.white.set(PieceIndex(0), Some(loc(7, 3)));
    assert!(!crowded.is_valid());
    let mut shared = Board::default();
    shared.black.set(PieceIndex(15), Some(loc(6, 0)));
    assert!(!shared.is_valid());
    let mut twins = Board::default();
    twins.black.set(PieceIndex(3), Some(loc(1, 1)));
    assert!(!twins.is_valid());
    let mut swapped = Board::default();
    swapped.white.color = Color::Black;
    assert!(!swapped.is_valid());
    let illegal = Board::default().apply_unchecked(engine::moves::Move {
        from: PieceIndex(6),
        to: loc(7, 1),
    });
    assert!(!illegal.is_valid());
}

#[test]
fn every_position_of_a_game_is_valid() {
    let params = {
        let mut params = Params::default();
        params.depth = 1;
        params.sort_depth = 1;
        params
    };
    let mut board = Board::default();
    for _ in 0..12 {
        for kid in board.children() {
            assert!(kid.is_valid());
        }
        board = match board.play_with(&params) {
            Some(next) => next,
            None => break,
        };
        assert!(board.is_valid());
    }
}

#[test]
fn a_piece_is_worth_the_entry_of_its_row() {
    let mut params = Params::default();
    params.pawn.squares[6][2] = 77;
    params.pawn.squares[1][2] = 33;
    assert_eq!(value(&params, Kind::Pawn, Color::White, loc(6, 2)), 77);
    assert_eq!(value(&params, Kind::Pawn, Color::Black, loc(1, 2)), 77);
    assert_eq!(value(&params, Kind::Pawn, Color::Black, loc(6, 2)), 33);
    assert_eq!(value(&params, Kind::Pawn, Color::White, loc(1, 2)), 33);
    assert_eq!(value(&params, Kind::Queen, Color::White, loc(1, 2)), 900);
    assert_eq!(value(&params, Kind::Knight, Color::Black, loc(3, 4)), 300);
    assert_eq!(value(&params, Kind::Rook, Color::Black, loc(3, 4)), 5);
    assert_eq!(value(&params, Kind::Bishop, Color::White, loc(4, 4)), 350);
    assert_eq!(value(&params, Kind::King, Color::White, loc(4, 4)), 0);
}

#[test]
fn mobility_counts_the_moves_of_a_side() {
    let board = Board::default();
    assert_eq!(mobility(&board, Color::White), 20);
    assert_eq!(mobility(&board, Color::Black), 20);
    let next = play(&board, (6, 4), (4, 4));
    assert_eq!(mobility(&next, Color::Black) as usize, moves(&next).len());
    let mut turned = next;
    turned.meta.flip_turn();
    turned.meta.set_passant(None);
    assert_eq!(mobility(&next, Color::White) as usize, moves(&turned).len());
    assert_eq!(mobility(&next, Color::White), 30);
    assert_eq!(mobility(&Board::empty(), Color::White), 0);
    let mut passant = board;
    for (from, to) in [((6, 4), (4, 4)), ((1, 0), (2, 0)), ((4, 4), (3, 4)), ((1, 3), (3, 3))] {
        passant = play(&passant, from, to);
    }
    let mut waiting = passant;
    waiting.meta.flip_turn();
    assert_eq!(mobility(&passant, Color::White), mobility(&waiting, Color::White) + 1);
}

#[test]
fn available_moves_are_worth_their_bonus() {
    let mut params = Params::default();
    let next = play(&Board::default(), (6, 4), (4, 4));
    let plain = material(&next, &params);
    params.available_moves = 3;
    assert_eq!(material(&Board::default(), &params), 0);
    assert_eq!(material(&next, &params), plain + 3 * (30 - 20));
    params.available_moves = -2;
    assert_eq!(material(&next, &params), plain - 2 * (30 - 20));
}
