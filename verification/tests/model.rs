use engine::board::Board;
use engine::board::Player;
use engine::location::loc;
use engine::location::Location;
use engine::metadata::Metadata;
use engine::moves::bitfields::Bitfields;
use engine::moves::positions::Positions;
use engine::moves::utils;
use engine::moves::utils::invert;
use engine::moves::utils::or;
use engine::moves::utils::picture;
use engine::moves::utils::transpose;
use engine::piece::Color;
use engine::piece::Kind;
use engine::piece::Piece;
use engine::piece::PieceIndex;
use engine::piece::BISHOP;
use engine::piece::KING;
use engine::piece::KNIGHT;
use engine::piece::PAWN;
use engine::piece::QUEEN;
use engine::piece::ROOK;
use engine::play::playable;
use engine::play::Play;
use engine::play::Position;
use engine::search::Params;
use engine::settings::Settings;

const SAMPLES: [u64; 8] = [
    0,
    1,
    u64::MAX,
    0x8000_0000_0000_0000,
    0x0123_4567_89ab_cdef,
    0xff00_0000_0000_00ff,
    0x0102_0408_1020_4080,
    0xdead_beef_cafe_f00d,
];

#[test]
fn invert_twice_is_identity() {
    for x in SAMPLES {
        assert_eq!(invert(invert(x)), x);
    }
    for sq in 0..64 {
        assert_eq!(invert(1u64 << sq), 1u64 << (63 - sq));
    }
}

#[test]
fn transpose_twice_is_identity() {
    for x in SAMPLES {
        assert_eq!(transpose(transpose(x)), x);
    }
    for r in 0..8u8 {
        for f in 0..8u8 {
            assert_eq!(transpose(loc(r, f).pos()), loc(f, r).pos());
        }
    }
}

#[test]
fn file_and_rank_masks() {
    assert_eq!(utils::file(0), 0x0101_0101_0101_0101);
    assert_eq!(utils::file(7), 0x8080_8080_8080_8080);
    assert_eq!(utils::rank(0), 0xff);
    assert_eq!(utils::rank(7), 0xff00_0000_0000_0000);
    for n in 0..8u8 {
        assert_eq!(transpose(utils::rank(n)), utils::file(n));
        assert_eq!(utils::file(n).count_ones(), 8);
    }
}

#[test]
fn or_unites_the_bitboards() {
    assert_eq!(or([1u64, 2, 4]), 7);
    assert_eq!(or::<0>([]), 0);
    assert_eq!(or([0xf0u64, 0x0f]), 0xff);
}

#[test]
fn picture_shows_every_square() {
    let text = picture(loc(1, 2).pos());
    let expected = "00000000\n00100000\n00000000\n00000000\n00000000\n00000000\n00000000\n00000000\n\n";
    assert_eq!(String::from_utf8(text).unwrap(), expected);
    assert_eq!(picture(u64::MAX).iter().filter(|b| **b == b'1').count(), 64);
}

#[test]
fn location_round_trips_through_its_bit() {
    for r in 0..8u8 {
        for f in 0..8u8 {
            let square = loc(r, f);
            assert_eq!(square.rank(), r);
            assert_eq!(square.file(), f);
            assert_eq!(square.pos(), 1u64 << (r * 8 + f));
            let back = Location::from_pos(square.pos());
            assert_eq!(back.rank(), r);
            assert_eq!(back.file(), f);
            assert!(!back.is_queen());
        }
    }
}

#[test]
fn pairs_convert_to_locations_and_positions() {
    let square: Location = (2, 5).into();
    assert!(square == loc(2, 5));
    assert!(!square.is_queen());
    assert_eq!(Location::from((7, 0)).pos(), 1 << 56);
    assert!(Location::from((9, 12)) == loc(1, 4));
    assert_eq!(Position::from((3, -2)), Position { rank: 3, file: -2 });
}

#[test]
fn from_pos_takes_the_highest_bit() {
    assert_eq!(Location::from_pos(0).pos(), 1);
    assert_eq!(Location::from_pos(0b1010).pos(), 0b1000);
    assert_eq!(Location::from_pos(u64::MAX).pos(), 1 << 63);
}

#[test]
fn promotion_mark_plays_no_part_in_equality() {
    let plain = loc(3, 5);
    let mut marked = loc(3, 5);
    marked.promote();
    assert!(marked.is_queen());
    assert!(!plain.is_queen());
    assert!(plain == marked);
    assert!(plain != loc(5, 3));
    assert_eq!(marked.pos(), plain.pos());
}

#[test]
fn set_keeps_the_mark() {
    let mut marked = loc(1, 1);
    marked.promote();
    marked.set(loc(0, 6));
    assert!(marked.is_queen());
    assert_eq!((marked.rank(), marked.file()), (0, 6));
    let mut plain = loc(1, 1);
    plain.set(marked);
    assert!(!plain.is_queen());
    assert!(plain == marked);
}

#[test]
fn invert_and_transpose_of_a_location() {
    assert!(loc(1, 6).invert() == loc(6, 1));
    assert!(loc(0, 0).invert() == loc(7, 7));
    assert!(loc(2, 5).transpose() == loc(5, 2));
    for r in 0..8u8 {
        for f in 0..8u8 {
            assert_eq!(loc(r, f).invert().pos(), invert(loc(r, f).pos()));
            assert!(loc(r, f).invert().invert() == loc(r, f));
            assert!(loc(r, f).transpose().transpose() == loc(r, f));
        }
    }
}

#[test]
fn location_code_is_one_number_per_value() {
    let mut seen = std::collections::HashSet::new();
    for r in 0..8u8 {
        for f in 0..8u8 {
            let mut marked = loc(r, f);
            assert!(seen.insert(marked.code()));
            marked.promote();
            assert!(seen.insert(marked.code()));
        }
    }
    assert_eq!(seen.len(), 128);
    assert!(!seen.contains(&0));
}

#[test]
fn color_facts() {
    assert_eq!(Color::White.opposite(), Color::Black);
    assert_eq!(Color::Black.opposite(), Color::White);
    assert_eq!(Color::White.promotion_rank(), 0);
    assert_eq!(Color::Black.promotion_rank(), 7);
    assert_eq!(Color::White.pawn_blocking_rank(), 5);
    assert_eq!(Color::Black.pawn_blocking_rank(), 2);
    assert_eq!(Color::White.pawn_start(), 6);
    assert_eq!(Color::Black.pawn_start(), 1);
    assert_eq!(Color::White.pawn_dir(), -1);
    assert_eq!(Color::Black.pawn_dir(), 1);
    assert_eq!(Color::White.home_rank(), 7);
    assert_eq!(Color::Black.home_rank(), 0);
    assert_eq!(Color::default(), Color::White);
    assert_eq!(Color::White.name(), "white");
    assert_eq!(Color::Black.name(), "black");
    assert_eq!(Kind::Knight.name(), "knight");
}

#[test]
fn piece_index_walk() {
    let mut index = PieceIndex(KING);
    assert_eq!(index.kind(), Kind::King);
    index.next();
    assert_eq!(index, PieceIndex(QUEEN));
    assert_eq!(index.kind(), Kind::Queen);
    index.at_least(8);
    assert_eq!(index, PieceIndex(PAWN));
    index.at_least(3);
    assert_eq!(index, PieceIndex(8));
    assert!(!index.finished());
    index.at_least(16);
    assert!(index.finished());
    let mut last = PieceIndex(255);
    last.next();
    assert_eq!(last.0, 255);
    let kinds: Vec<Kind> = (0..16).map(|i| PieceIndex(i).kind()).collect();
    assert_eq!(kinds[2], Kind::Bishop);
    assert_eq!(kinds[3], Kind::Bishop);
    assert_eq!(kinds[4], Kind::Knight);
    assert_eq!(kinds[5], Kind::Knight);
    assert_eq!(kinds[6], Kind::Rook);
    assert_eq!(kinds[7], Kind::Rook);
    assert!(kinds[8..].iter().all(|k| *k == Kind::Pawn));
    let mut wide = PieceIndex(0);
    wide.at_least(256 + 5);
    assert_eq!(wide.0, 5);
}

#[test]
fn piece_iter_gives_the_first_slot_of_the_kind() {
    let piece = |kind| Piece { kind, color: Color::White, index: PieceIndex(0) };
    assert_eq!(piece(Kind::King).piece_iter(), PieceIndex(KING));
    assert_eq!(piece(Kind::Queen).piece_iter(), PieceIndex(QUEEN));
    assert_eq!(piece(Kind::Bishop).piece_iter(), PieceIndex(BISHOP));
    assert_eq!(piece(Kind::Knight).piece_iter(), PieceIndex(KNIGHT));
    assert_eq!(piece(Kind::Rook).piece_iter(), PieceIndex(ROOK));
    assert_eq!(piece(Kind::Pawn).piece_iter(), PieceIndex(PAWN));
}

#[test]
fn metadata_starts_with_every_right() {
    let meta = Metadata::default();
    assert_eq!(meta.turn(), Color::White);
    for color in [Color::White, Color::Black] {
        assert!(meta.kingside_castle(color));
        assert!(meta.queenside_castle(color));
    }
    assert_eq!(meta.passant_file(), None);
}

#[test]
fn metadata_loses_one_right_at_a_time() {
    let mut meta = Metadata::default();
    meta.lose_kingside(Color::White);
    assert!(!meta.kingside_castle(Color::White));
    assert!(meta.kingside_castle(Color::Black));
    assert!(meta.queenside_castle(Color::White));
    assert!(meta.queenside_castle(Color::Black));
    meta.lose_queenside(Color::Black);
    assert!(!meta.queenside_castle(Color::Black));
    assert!(meta.queenside_castle(Color::White));
    assert!(meta.kingside_castle(Color::Black));
    meta.lose_kingside(Color::White);
    assert!(!meta.kingside_castle(Color::White));
    assert_eq!(meta.turn(), Color::White);
    assert_eq!(meta.passant_file(), None);
}

#[test]
fn metadata_keeps_the_passant_file() {
    let mut meta = Metadata::default();
    for file in 0..8u8 {
        meta.set_passant(Some(file));
        assert_eq!(meta.passant_file(), Some(file));
        assert!(meta.kingside_castle(Color::White));
        assert!(meta.queenside_castle(Color::Black));
        assert_eq!(meta.turn(), Color::White);
    }
    meta.set_passant(Some(11));
    assert_eq!(meta.passant_file(), Some(3));
    meta.set_passant(None);
    assert_eq!(meta.passant_file(), None);
    assert!(meta == Metadata::default());
}

#[test]
fn metadata_turn_flips() {
    let mut meta = Metadata::default();
    meta.flip_turn();
    assert_eq!(meta.turn(), Color::Black);
    assert!(meta.kingside_castle(Color::White));
    meta.flip_turn();
    assert_eq!(meta.turn(), Color::White);
    assert!(meta == Metadata::default());
}

#[test]
fn players_start_on_their_first_ranks() {
    let white = Player::white();
    let black = Player::black();
    assert_eq!(white.color, Color::White);
    assert_eq!(black.color, Color::Black);
    let files = [4u8, 3, 2, 5, 1, 6, 0, 7];
    for slot in 0..8 {
        assert!(white.slots[slot] == Some(loc(7, files[slot])));
        assert!(black.slots[slot] == Some(loc(0, files[slot])));
    }
    for slot in 8..16 {
        assert!(white.slots[slot] == Some(loc(6, slot as u8 - 8)));
        assert!(black.slots[slot] == Some(loc(1, slot as u8 - 8)));
    }
    assert!(white.locations() == &white.slots);
}

#[test]
fn player_get_set_remove() {
    let mut player = Player::white();
    assert!(player.get(PieceIndex(QUEEN)) == Some(loc(7, 3)));
    player.set(PieceIndex(QUEEN), Some(loc(4, 4)));
    assert!(player.get(PieceIndex(QUEEN)) == Some(loc(4, 4)));
    player.remove(loc(4, 4));
    assert!(player.get(PieceIndex(QUEEN)).is_none());
    player.remove(loc(3, 3));
    assert_eq!(player.slots.iter().filter(|s| s.is_some()).count(), 15);
    assert!(Player::empty(Color::Black).slots.iter().all(|s| s.is_none()));
}

#[test]
fn board_sides_follow_the_turn() {
    let mut board = Board::default();
    assert_eq!(board.me().color, Color::White);
    assert_eq!(board.opponent().color, Color::Black);
    assert_eq!(board.side(Color::Black).color, Color::Black);
    board.meta.flip_turn();
    assert_eq!(board.me().color, Color::Black);
    assert_eq!(board.opponent().color, Color::White);
    board.me_mut().set(PieceIndex(0), None);
    assert!(board.black.slots[0].is_none());
    assert!(board.white.slots[0].is_some());
    board.opponent_mut().set(PieceIndex(1), None);
    assert!(board.white.slots[1].is_none());
}

#[test]
fn empty_board_holds_nothing() {
    let board = Board::empty();
    assert!(board.white.slots.iter().all(|s| s.is_none()));
    assert!(board.black.slots.iter().all(|s| s.is_none()));
    assert_eq!(board.meta.turn(), Color::White);
    for color in [Color::White, Color::Black] {
        assert!(!board.meta.kingside_castle(color));
        assert!(!board.meta.queenside_castle(color));
    }
    assert_eq!(board.meta.passant_file(), None);
}

#[test]
fn search_for_finds_the_piece_on_a_square() {
    let board = Board::default();
    let king = board.search_for(loc(7, 4)).unwrap();
    assert_eq!(king.kind, Kind::King);
    assert_eq!(king.color, Color::White);
    assert_eq!(king.index, PieceIndex(0));
    let pawn = board.search_for(loc(1, 5)).unwrap();
    assert_eq!(pawn.kind, Kind::Pawn);
    assert_eq!(pawn.color, Color::Black);
    assert_eq!(pawn.index, PieceIndex(13));
    let rook = board.search_for(loc(0, 7)).unwrap();
    assert_eq!((rook.kind, rook.index), (Kind::Rook, PieceIndex(7)));
    assert!(board.search_for(loc(4, 4)).is_none());
}

#[test]
fn search_for_reports_a_promoted_pawn_as_a_queen() {
    let mut board = Board::empty();
    let mut square = loc(0, 2);
    square.promote();
    board.white.set(PieceIndex(9), Some(square));
    let piece = board.search_for(loc(0, 2)).unwrap();
    assert_eq!(piece.kind, Kind::Queen);
    assert_eq!(piece.index, PieceIndex(9));
}

#[test]
fn bitfields_and_positions_of_the_start() {
    let board = Board::default();
    let white = Bitfields::new(&board.white);
    assert_eq!(white.bits[0], 1 << 60);
    assert_eq!(white.bits[8], 1 << 48);
    assert_eq!(or(white.bits), 0xffff_0000_0000_0000);
    let pos = Positions::from_board(&board);
    assert_eq!(pos.mine, 0xffff_0000_0000_0000);
    assert_eq!(pos.opponent, 0x0000_0000_0000_ffff);
    assert_eq!(pos.mine_inverted, 0x0000_0000_0000_ffff);
    assert_eq!(pos.opponent_inverted, 0xffff_0000_0000_0000);
    let turned = pos.invert();
    assert_eq!(turned.mine, pos.mine_inverted);
    assert_eq!(turned.opponent_inverted, pos.opponent);
    let flipped = Positions::new(0xff, 0).transpose();
    assert_eq!(flipped.mine, 0x0101_0101_0101_0101);
    assert_eq!(flipped.mine_inverted, 0x8080_8080_8080_8080);
    let other = Positions::from_bitfields(Bitfields::new(&board.black), white);
    assert_eq!(other.mine, pos.opponent);
    assert_eq!(other.opponent, pos.mine);
}

#[test]
fn positions_on_and_off_the_board() {
    assert_eq!(Position { rank: 0, file: 7 }.validate(), Some(Position { rank: 0, file: 7 }));
    assert_eq!(Position { rank: 8, file: 0 }.validate(), None);
    assert_eq!(Position { rank: 3, file: -1 }.validate(), None);
    assert_eq!(Position { rank: -1, file: 3 }.validate(), None);
    assert_eq!(Position { rank: 3, file: 8 }.validate(), None);
    let origin = Position { rank: 4, file: 4 };
    let squares = origin.relative(&[(0, 0), (-1, 2), (7, 7), (8, 1), (3, -3), (2, 5)]);
    assert_eq!(
        squares,
        vec![
            Position { rank: 0, file: 0 },
            Position { rank: 7, file: 7 },
            Position { rank: 2, file: 5 }
        ]
    );
    assert!(origin.relative(&[]).is_empty());
}

#[test]
fn every_play_but_a_defense_can_be_played() {
    let step = engine::play::Move {
        to: Position { rank: 1, file: 1 },
        from: Position { rank: 2, file: 2 },
    };
    let piece = Piece { kind: Kind::Pawn, color: Color::Black, index: PieceIndex(8) };
    assert!(!playable(Play::Defense(step, piece)));
    assert!(playable(Play::Capture(step, piece)));
    assert!(playable(Play::Move(step)));
    assert!(playable(Play::RightCastle));
    assert!(playable(Play::LeftClastle));
}

#[test]
fn settings_give_each_side_its_parameters() {
    let mut white = Params::default();
    white.depth = 1;
    let mut black = Params::default();
    black.depth = 2;
    let settings = Settings {
        recursion_limit: 256,
        time_limit: 500,
        memory_limit: 1024,
        max_depth: 3,
        white_params: white,
        black_params: black,
        absolute_params: Params::default(),
        nocapture: false,
    };
    assert_eq!(settings.params(Color::White).depth, 1);
    assert_eq!(settings.params(Color::Black).depth, 2);
}
