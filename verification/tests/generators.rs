use engine::board::Board;
use engine::location::loc;
use engine::location::Location;
use engine::moves::bishop::bishop_moves;
use engine::moves::king::king_moves;
use engine::moves::knight::knight_moves;
use engine::moves::pawn::pawn_moves;
use engine::moves::positions::Positions;
use engine::moves::queen::queen_moves;
use engine::moves::rook::file_positions;
use engine::moves::rook::rank_positions;
use engine::moves::rook::rook_moves;
use engine::moves::utils::invert;
use engine::moves::utils::picture;
use engine::piece::Color;

fn debug(x: u64) {
    println!("{}", String::from_utf8_lossy(&picture(x)));
}

#[test]
fn board_foo() {
    println!("board1 {}", std::mem::size_of::<Board>());
}

#[test]
fn from_pos() {
    for rank in 0..8 {
        for file in 0..8 {
            let pos = loc(rank, file).pos();
            assert_eq!(pos, Location::from_pos(pos).pos())
        }
    }
}

#[test]
fn test_diag() {
    let opponent = (1 << 8) | (1 << 9);
    let mine = (1 << 55) | (1 << 54) | (1 << 4);
    let pos = Positions::new(mine, opponent);

    debug(bishop_moves(&pos, loc(2, 2)));
    println!("opponent");
    debug(opponent);
    println!("mine");
    debug(mine);
    assert_eq!(bishop_moves(&pos, loc(2, 2)), 35257554307584);
}

#[test]
fn test_king() {
    let loc = loc(3, 0);
    debug(king_moves(&Positions::new(0, 0), loc));
    debug(loc.pos());
}

#[test]
fn test_knight() {
    let loc = loc(6, 6);
    assert_eq!(knight_moves(&Positions::new(0, 0), loc), 0x100010a000000000);
}

#[test]
fn test_pawns() {
    let opponent = loc(4, 5);

    assert_eq!(
        pawn_moves(&Positions::new(0, opponent.pos()), loc(5, 4), Color::White,),
        206158430208
    );
    assert_eq!(
        pawn_moves(&Positions::new(0, 0), loc(5, 4), Color::White,),
        68719476736
    );

    assert_eq!(
        pawn_moves(&Positions::new(0, 1 << 21), loc(1, 4), Color::Black,),
        271581184
    );

    assert_eq!(
        pawn_moves(&Positions::new(0, 1 << 20), loc(1, 4), Color::Black,),
        0
    );
}

#[test]
fn queen_test() {
    let mine = (1 << 23) | (1 << 24) | (1 << 55) | (1 << 54) | (1 << 4);
    let opponent = (1 << 8) | (1 << 9) | (1 << 52);

    let pos = Positions::new(mine, opponent);
    let loc = loc(2, 2);
    let moves = queen_moves(&pos, loc);
    println!("mine");
    debug(mine);

    println!("opponent");
    debug(opponent);

    println!("moves");
    debug(moves);
    assert_eq!(moves, 0x40424150e7b0e04);
}

#[test]
fn rank_test() {
    let mine = (1 << 15) | (1 << 14);
    let opponent = (1 << 8) | (1 << 9);
    let pos = Positions {
        opponent,
        mine_inverted: invert(mine),
        mine,
        opponent_inverted: invert(opponent),
    };

    assert_eq!(rank_positions(&pos, loc(1, 4)), 0b00101110 << 8);
}

#[test]
fn file_test() {
    let mine = 1 << 3;
    let opponent = 1 << 51;
    let pos = Positions {
        opponent,
        mine_inverted: invert(mine),
        mine,
        opponent_inverted: invert(opponent),
    };
    let p = loc(2, 3);
    debug(opponent | mine);
    debug(file_positions(&pos, p));
    debug(p.pos());
    assert_eq!(file_positions(&pos, p), 2260630401189888);
}

#[test]
fn rook_test() {
    let mine = (1 << 15) | (1 << 14);
    let opponent = (1 << 8) | (1 << 9) | (1 << 52);
    let pos = Positions {
        opponent,
        mine_inverted: invert(mine),
        mine,
        opponent_inverted: invert(opponent),
    };
    debug(opponent);
    debug(rook_moves(&pos, loc(1, 4)));
    debug(loc(1, 4).pos());
    println!("{}", rook_moves(&pos, loc(1, 4)));
    assert_eq!(rook_moves(&pos, loc(1, 4)), 4521260802387472);
}
