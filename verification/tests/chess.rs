use std::str::FromStr;

use tetka_games::games::chess::{
    BitBoard, CastlingRightsParseError, Color, ColoredPiece, Dimension, Direction, File, Info,
    Move, MoveFlag, MoveParseError, Piece, Position, PositionParseError, Rights, Side, Square,
};
use tetka_games::interface::{MoveList, MoveStore, MoveType, TypeParseError};

fn startpos() -> Position {
    Position::from_str(Position::STARTPOS).unwrap()
}

#[test]
fn chess_startpos_is_parsed() {
    let p = startpos();
    assert_eq!(p.piece_bb(Piece::Pawn).raw(), 0x00ff00000000ff00);
    assert_eq!(p.piece_bb(Piece::King).raw(), (1 << 4) | (1 << 60));
    assert_eq!(p.color_bb(Color::White).raw(), 0xffff);
    assert_eq!(p.color_bb(Color::Black).raw(), 0xffff000000000000);
    assert_eq!(p.colored_piece_bb(ColoredPiece::BlackQueen).raw(), 1 << 59);
    assert_eq!(p.side_to_move(), Color::White);
    assert_eq!(p.en_passant_target(), None);
    assert_eq!(p.half_move_clock(), 0);
    assert_eq!(p.ply_count(), 1);
    assert!(!p.is_frc());
    assert_eq!(p.castling().rights, Rights(15));
    assert_eq!(p.castling().rook(Dimension::WhiteH), Square::H1);
    assert_eq!(p.castling().rook(Dimension::BlackA), Square::A8);
    assert!(!p.is_game_over());
    assert_eq!(p.winner(), None);
    assert_eq!(p.at(Square::E1), Some(ColoredPiece::WhiteKing));
    assert_eq!(p.at(Square::D8), Some(ColoredPiece::BlackQueen));
    assert_eq!(p.at(Square::E4), None);
}

#[test]
fn chess_fen_with_en_passant_square() {
    let p = Position::from_str("rnbqkbnr/pppp1ppp/8/4p3/4P3/8/PPPP1PPP/RNBQKBNR w KQkq e6 0 2").unwrap();
    assert_eq!(p.en_passant_target(), Some(Square::E6));
    assert_eq!(p.ply_count(), 3);
}

#[test]
fn chess_fen_errors() {
    assert!(matches!(Position::from_str("8/8/8/8/8/8/8/8 w - - 0"), Err(PositionParseError::TooManyFields(5))));
    assert!(matches!(Position::from_str("8/8/8/8/8/8/8/8 w - - 0 1"), Err(PositionParseError::MissingKing)));
    assert!(matches!(
        Position::from_str("4k3/8/8/8/8/8/8/4K3 w KX - 0 1"),
        Err(PositionParseError::BadCastlingRights(CastlingRightsParseError::Invalid(ref s))) if s == "X"
    ));
    assert!(matches!(
        Position::from_str("4k3/8/8/8/8/8/8/4K3 x - - 0 1"),
        Err(PositionParseError::BadSideToMove(TypeParseError::StrError(ref s))) if s == "Color"
    ));
    assert!(matches!(
        Position::from_str("4k3/8/8/8/8/8/8/4K3 w - e9 0 1"),
        Err(PositionParseError::BadSideToMove(TypeParseError::StrError(ref s))) if s == "File"
    ));
    assert!(matches!(Position::from_str("4k3/8/8/8/8/8/8/4K3 w - - x 1"), Err(PositionParseError::BadHalfMoveClock(_))));
    assert!(matches!(Position::from_str("4k3/8/8/8/8/8/8/4K3 w - - 0 x"), Err(PositionParseError::BadHalfMoveClock(_))));
}

#[test]
fn chess_parse_move_flags() {
    let p = startpos();
    assert_eq!(p.parse_move("e2e4").unwrap(), Move::new(Square::E2, Square::E4, MoveFlag::DoublePush));
    assert_eq!(p.parse_move("e2e3").unwrap(), Move::new(Square::E2, Square::E3, MoveFlag::Normal));
    assert_eq!(p.parse_move("g1f3").unwrap(), Move::new(Square::G1, Square::F3, MoveFlag::Normal));
    assert_eq!(Move::from_str("e2e4", &p).unwrap(), Move::new(Square::E2, Square::E4, MoveFlag::DoublePush));
    let q = Position::from_str("r3k2r/8/8/8/8/8/8/R3K2R w KQkq - 0 1").unwrap();
    assert_eq!(q.parse_move("e1g1").unwrap(), Move::new(Square::E1, Square::G1, MoveFlag::CastleHSide));
    assert_eq!(q.parse_move("e1c1").unwrap(), Move::new(Square::E1, Square::C1, MoveFlag::CastleASide));
    let r = Position::from_str("4k3/P7/8/8/8/8/8/4K3 w - - 0 1").unwrap();
    assert_eq!(r.parse_move("a7a8q").unwrap(), Move::new(Square::A7, Square::A8, MoveFlag::QPromotion));
    let e = Position::from_str("4k3/8/8/3pP3/8/8/8/4K3 w - d6 0 2").unwrap();
    assert_eq!(e.parse_move("e5d6").unwrap(), Move::new(Square::E5, Square::D6, MoveFlag::EnPassant));
}

#[test]
fn chess_parse_move_errors() {
    let p = startpos();
    assert_eq!(p.parse_move("e2"), Err(MoveParseError::BadLength(2)));
    assert_eq!(p.parse_move("e2e4qq"), Err(MoveParseError::BadLength(6)));
    assert_eq!(p.parse_move("e9e4"), Err(MoveParseError::BadSquare(TypeParseError::StrError("File".to_string()))));
    assert_eq!(p.parse_move("e3e4"), Err(MoveParseError::EmptySource));
    assert_eq!(p.parse_move("e2e4x"), Err(MoveParseError::BadSquare(TypeParseError::StrError("MoveFlag".to_string()))));
}

#[test]
fn chess_double_push_sets_en_passant_square() {
    let p = startpos();
    let m = p.parse_move("e2e4").unwrap();
    let n = p.after_move::<true>(m);
    assert_eq!(n.at(Square::E4), Some(ColoredPiece::WhitePawn));
    assert_eq!(n.at(Square::E2), None);
    assert_eq!(n.en_passant_target(), Some(Square::E3));
    assert_eq!(n.side_to_move(), Color::Black);
    assert_eq!(n.half_move_clock(), 0);
    assert_eq!(n.ply_count(), p.ply_count());
}

#[test]
fn chess_knight_move_counts_half_moves() {
    let p = startpos();
    let n = p.after_move::<true>(p.parse_move("g1f3").unwrap());
    assert_eq!(n.half_move_clock(), 1);
    assert_eq!(n.at(Square::F3), Some(ColoredPiece::WhiteKnight));
    assert_eq!(n.castling().rights, Rights(15));
    let k = n.after_move::<true>(n.parse_move("e7e5").unwrap()).after_move::<true>(Move::new(Square::H1, Square::G1, MoveFlag::Normal));
    assert_eq!(k.castling().rights, Rights(14));
}

#[test]
fn chess_castling_moves_king_and_rook() {
    let q = Position::from_str("r3k2r/8/8/8/8/8/8/R3K2R w KQkq - 0 1").unwrap();
    let n = q.after_move::<true>(q.parse_move("e1g1").unwrap());
    assert_eq!(n.at(Square::G1), Some(ColoredPiece::WhiteKing));
    assert_eq!(n.at(Square::F1), Some(ColoredPiece::WhiteRook));
    assert_eq!(n.at(Square::H1), Some(ColoredPiece::WhiteRook));
    assert_eq!(n.at(Square::E1), None);
    assert_eq!(n.castling().rights, Rights(12));
    let f = q.after_move::<true>(Move::new(Square::E1, Square::H1, MoveFlag::CastleHSide));
    assert_eq!(f.at(Square::G1), Some(ColoredPiece::WhiteKing));
    assert_eq!(f.at(Square::F1), Some(ColoredPiece::WhiteRook));
    assert_eq!(f.at(Square::H1), None);
    assert_eq!(f.half_move_clock(), 0);
}

#[test]
fn chess_promotion_and_en_passant() {
    let r = Position::from_str("4k3/P7/8/8/8/8/8/4K3 w - - 0 1").unwrap();
    let n = r.after_move::<true>(r.parse_move("a7a8n").unwrap());
    assert_eq!(n.at(Square::A8), Some(ColoredPiece::WhiteKnight));
    let e = Position::from_str("4k3/8/8/3pP3/8/8/8/4K3 w - d6 0 2").unwrap();
    let m = e.after_move::<true>(e.parse_move("e5d6").unwrap());
    assert_eq!(m.at(Square::D6), Some(ColoredPiece::WhitePawn));
    assert_eq!(m.at(Square::D5), None);
    assert_eq!(m.en_passant_target(), None);
}

#[test]
fn chess_move_names() {
    let p = startpos();
    assert_eq!(Move::new(Square::E2, Square::E4, MoveFlag::DoublePush).to_string(&p), "e2e4");
    assert_eq!(Move::new(Square::A7, Square::A8, MoveFlag::QPromotion).to_string(&p), "a7a8q");
    assert_eq!(Move::new(Square::E1, Square::H1, MoveFlag::CastleHSide).to_string(&p), "e1g1");
    assert_eq!(Move::new(Square::E1, Square::A1, MoveFlag::CastleASide).to_string(&p), "e1c1");
    let m = Move::new(Square::B1, Square::C3, MoveFlag::Normal);
    assert_eq!(m.source(), Square::B1);
    assert_eq!(m.target(), Square::C3);
    assert_eq!(m.flag(), MoveFlag::Normal);
    assert_eq!(Move::null().raw(), 0);
    assert_eq!(Move::new_with_promotion(Square::A7, Square::A8, Piece::Queen).flag(), MoveFlag::QPromotion);
    assert_eq!(Move::new_castling(Square::E1, Square::H1, Side::H).flag(), MoveFlag::CastleHSide);
}

#[test]
fn chess_move_flags() {
    assert_eq!(MoveFlag::from_str("q"), Ok(MoveFlag::QPromotion));
    assert_eq!(MoveFlag::from_str("x"), Err(TypeParseError::StrError("MoveFlag".to_string())));
    assert!(MoveFlag::BPromotion.is_promotion());
    assert!(!MoveFlag::EnPassant.is_promotion());
    assert!(MoveFlag::CastleASide.is_castling());
    assert!(!MoveFlag::Normal.is_castling());
    assert_eq!(MoveFlag::RPromotion.promoted_piece(), Piece::Rook);
    assert_eq!(MoveFlag::DoublePush.to_string(), "d");
}

#[test]
fn chess_castling_rights_fields() {
    let std = Info::from_str("KQkq", Square::E1, Square::E8).unwrap();
    assert_eq!(std.rights, Rights(15));
    assert_eq!(std.rook(Dimension::WhiteA), Square::A1);
    assert_eq!(std.attack_mask(Dimension::WhiteH).raw(), (1 << 5) | (1 << 6));
    assert_eq!(std.blocker_mask(Dimension::WhiteH).raw(), (1 << 5) | (1 << 6));
    assert_eq!(std.blocker_mask(Dimension::WhiteA).raw(), (1 << 1) | (1 << 2) | (1 << 3));
    assert_eq!(std.get_updates(Square::E1), Rights(3));
    assert_eq!(std.get_updates(Square::H8), Rights(4));
    assert_eq!(std.get_updates(Square::D4), Rights(0));
    let frc = Info::from_str("HAha", Square::E1, Square::E8).unwrap();
    assert_eq!(frc.rights, Rights(15));
    assert_eq!(frc.rook(Dimension::BlackH), Square::H8);
    let frc2 = Info::from_str("Gb", Square::C1, Square::C8).unwrap();
    assert_eq!(frc2.rights, Rights(1 | 8));
    assert_eq!(frc2.rook(Dimension::WhiteH), Square::G1);
    assert_eq!(frc2.rook(Dimension::BlackA), Square::B8);
    let none = Info::from_str("-", Square::D1, Square::D8).unwrap();
    assert_eq!(none.rights, Rights(0));
    assert_eq!(none.rook(Dimension::WhiteH), Square::H1);
}

#[test]
fn chess_castling_rights_errors() {
    assert_eq!(Info::from_str("", Square::E1, Square::E8).err(), Some(CastlingRightsParseError::Invalid("".to_string())));
    assert_eq!(Info::from_str("KQkqK", Square::E1, Square::E8).err(), Some(CastlingRightsParseError::Invalid("KQkqK".to_string())));
    assert_eq!(Info::from_str("KX", Square::E1, Square::E8).err(), Some(CastlingRightsParseError::Invalid("X".to_string())));
    assert_eq!(
        Info::from_str("Z", Square::E1, Square::E8).err(),
        Some(CastlingRightsParseError::FileParseError(TypeParseError::StrError("File".to_string())))
    );
}

#[test]
fn chess_dimensions_and_sides() {
    assert_eq!(Dimension::from(Color::White, Side::H), Dimension::WhiteH);
    assert_eq!(Dimension::from(Color::Black, Side::A), Dimension::BlackA);
    assert_eq!(Dimension::BlackH.color(), Color::Black);
    assert_eq!(Dimension::WhiteA.side(), Side::A);
    assert_eq!(Dimension::from_sqs(Square::E1, Square::H1), Dimension::WhiteH);
    assert_eq!(Dimension::from_sqs(Square::E8, Square::A8), Dimension::BlackA);
    assert_eq!(Dimension::WhiteA.get_targets(), (Square::C1, Square::D1));
    assert_eq!(Side::from_sqs(Square::E1, Square::A1), Side::A);
}

#[test]
fn chess_rights_sets() {
    let r = Rights::new().with(Dimension::WhiteH).with(Dimension::BlackA);
    assert_eq!(r, Rights(9));
    assert!(r.contains(Dimension::BlackA));
    assert!(!r.contains(Dimension::WhiteA));
    assert_eq!(r.union(Rights(2)), Rights(11));
    assert_eq!(r.difference(Rights(1)), Rights(8));
    assert!(Rights::new().is_empty());
}

#[test]
fn chess_directions() {
    assert_eq!(Direction::North + Direction::East, Direction::NorthEast);
    assert_eq!(Direction::North - Direction::South, Direction::NorthNorth);
    assert_eq!(-Direction::East, Direction::West);
    assert_eq!(Direction::up(Color::Black), Direction::South);
    assert_eq!(Direction::SouthWest.offset(), -9);
}

#[test]
fn chess_squares_and_lines() {
    assert_eq!(Square::E2.up(Color::White), Some(Square::E3));
    assert_eq!(Square::E2.up(Color::Black), Some(Square::E1));
    assert_eq!(Square::E1.down(Color::White), None);
    assert_eq!(Square::A1.shift(Direction::NorthEast), Square::B2);
    assert_eq!(Square::C1.diagonal(), 5);
    assert_eq!(Square::C1.anti_diagonal(), 2);
    assert_eq!(BitBoard::diagonal(7).raw(), 0x8040201008040201);
    assert_eq!(BitBoard::anti_diagonal(7).raw(), 0x0102040810204080);
    assert_eq!(BitBoard::diagonal(0).raw(), 1 << 7);
    assert_eq!(BitBoard::diagonal(14).raw(), 1 << 56);
    assert_eq!(BitBoard::between(Square::A1, Square::H8).raw(), 0x0040201008040200);
    assert_eq!(BitBoard::between(Square::A1, Square::B3).raw(), 0);
    assert_eq!(BitBoard::between(Square::E1, Square::E8).raw(), 0x0010101010101000);
    assert_eq!(BitBoard::between2(Square::E1, Square::G1).raw(), (1 << 5) | (1 << 6));
    assert_eq!(BitBoard::new(1).shift(Direction::NorthNorth).raw(), 1 << 16);
    assert_eq!(BitBoard::new(1 << 7).shift(Direction::East).raw(), 0);
    assert_eq!(File::from_str("h"), Ok(File::H));
}

#[test]
fn chess_pieces_and_colors() {
    assert_eq!(ColoredPiece::from_str("K"), Ok(ColoredPiece::WhiteKing));
    assert_eq!(ColoredPiece::from_str("q"), Ok(ColoredPiece::BlackQueen));
    assert_eq!(ColoredPiece::from_str("x"), Err(TypeParseError::StrError("ColoredPiece".to_string())));
    assert_eq!(ColoredPiece::new(Piece::Rook, Color::Black), ColoredPiece::BlackRook);
    assert_eq!(ColoredPiece::BlackBishop.piece(), Piece::Bishop);
    assert_eq!(ColoredPiece::BlackBishop.color(), Color::Black);
    assert_eq!(ColoredPiece::WhiteQueen.to_string(), "Q");
    assert_eq!(Piece::from_str("n"), Ok(Piece::Knight));
    assert_eq!(Piece::King.to_string(), "k");
    assert_eq!(Color::from_str("b"), Ok(Color::Black));
    assert_eq!(Color::White.to_string(), "w");
    assert_eq!(!Color::White, Color::Black);
}

#[test]
fn chess_insert_and_remove() {
    let mut p = startpos();
    assert_eq!(p.remove(Square::D1), Some(ColoredPiece::WhiteQueen));
    assert_eq!(p.at(Square::D1), None);
    p.insert(Square::D4, ColoredPiece::BlackKnight);
    assert_eq!(p.at(Square::D4), Some(ColoredPiece::BlackKnight));
    assert_eq!(p.remove(Square::D5), None);
}

fn move_names(p: &Position) -> Vec<String> {
    p.generate_moves().iter().map(|m| m.to_string(p)).collect()
}

#[test]
fn chess_startpos_moves() {
    let p = startpos();
    let names = move_names(&p);
    assert_eq!(
        names,
        vec![
            "b1a3", "b1c3", "g1f3", "g1h3", "a2a3", "a2a4", "b2b3", "b2b4", "c2c3", "c2c4", "d2d3", "d2d4",
            "e2e3", "e2e4", "f2f3", "f2f4", "g2g3", "g2g4", "h2h3", "h2h4"
        ]
    );
    assert_eq!(p.count_moves(), 20);
    let moves = p.generate_moves();
    for (i, m) in moves.iter().enumerate() {
        assert!(!moves[i + 1..].contains(m));
    }
    assert_eq!(moves.iter().filter(|m| m.flag() == MoveFlag::DoublePush).count(), 8);
    let mut into: Vec<Move> = Vec::new();
    p.generate_moves_into(&mut into);
    assert_eq!(into, p.generate_moves());
}

#[test]
fn chess_lone_king_moves() {
    let p = Position::from_str("4k3/8/8/8/8/8/8/4K3 w - - 0 1").unwrap();
    assert_eq!(move_names(&p), vec!["e1d1", "e1f1", "e1d2", "e1e2", "e1f2"]);
}

#[test]
fn chess_pinned_rook_moves_along_its_pin() {
    let p = Position::from_str("4r1k1/8/8/8/8/8/4R3/4K3 w - - 0 1").unwrap();
    assert_eq!(
        move_names(&p),
        vec!["e1d1", "e1f1", "e1d2", "e1f2", "e2e3", "e2e4", "e2e5", "e2e6", "e2e7", "e2e8"]
    );
}

#[test]
fn chess_double_check_leaves_king_moves() {
    let p = Position::from_str("4k3/8/8/8/8/3n4/8/r3K2N w - - 0 1").unwrap();
    assert_eq!(move_names(&p), vec!["e1d2", "e1e2"]);
    assert_eq!(p.count_moves(), 2);
}

#[test]
fn chess_moves_into_a_move_list() {
    let p = startpos();
    let mut list: MoveList = <MoveList as MoveStore<Move>>::new();
    p.generate_moves_into(&mut list);
    assert_eq!(MoveStore::<Move>::len(&list), 20);
    assert!(!MoveStore::<Move>::is_empty(&list));
    let moves: Vec<Move> = list.iter().map(|&raw| <Move as MoveType>::from_raw(raw)).collect();
    assert_eq!(moves, p.generate_moves());
}

#[test]
fn chess_position_picture() {
    let p = startpos();
    assert_eq!(
        p.to_string(),
        " r n b q k b n r  8 \n p p p p p p p p  7 \n . . . . . . . .  6 \n . . . . . . . .  5 \n . . . . . . . .  4 \n . . . . . . . .  3 \n P P P P P P P P  2 \n R N B Q K B N R  1 \n \n a b c d e f g h\n\nSide To Move: w\n"
    );
    assert_eq!(ColoredPiece::BlackQueen.letter(), 'q');
    assert_eq!(
        p.piece_bb(Piece::King).to_string(),
        "0 0 0 0 1 0 0 0 \n0 0 0 0 0 0 0 0 \n0 0 0 0 0 0 0 0 \n0 0 0 0 0 0 0 0 \n0 0 0 0 0 0 0 0 \n0 0 0 0 0 0 0 0 \n0 0 0 0 0 0 0 0 \n0 0 0 0 1 0 0 0 \n"
    );
}

#[test]
fn chess_generated_moves_leave_friendly_squares() {
    for fen in [
        Position::STARTPOS,
        "4r1k1/8/8/8/8/8/4R3/4K3 w - - 0 1",
        "4k3/8/8/8/8/3n4/8/r3K2N w - - 0 1",
        "r3k2r/pppq1ppp/2n2n2/3pp3/1b1PP3/2N2N2/PPPQ1PPP/R3K2R b KQkq - 4 7",
    ] {
        let p = Position::from_str(fen).unwrap();
        let side = p.side_to_move();
        for m in p.generate_moves() {
            assert_eq!(p.at(m.source()).map(|pc| pc.color()), Some(side));
            if matches!(m.flag(), MoveFlag::CastleHSide | MoveFlag::CastleASide) {
                assert_eq!(p.at(m.target()).map(|pc| (pc.color(), pc.piece())), Some((side, Piece::Rook)));
            } else {
                assert_ne!(p.at(m.target()).map(|pc| pc.color()), Some(side));
            }
        }
    }
}

#[test]
fn chess_captures_and_promotions_are_generated() {
    let p = Position::from_str("1n2k3/P7/8/8/8/8/8/4K3 w - - 0 1").unwrap();
    assert_eq!(
        move_names(&p),
        vec!["e1d1", "e1f1", "e1d2", "e1e2", "e1f2", "a7a8n", "a7a8b", "a7a8r", "a7a8q", "a7b8n", "a7b8b", "a7b8r", "a7b8q"]
    );
    let q = Position::from_str("4k3/8/8/3p4/4P3/8/8/4K3 w - - 0 1").unwrap();
    assert!(move_names(&q).contains(&"e4d5".to_string()));
    assert!(move_names(&q).contains(&"e4e5".to_string()));
}

#[test]
fn chess_king_keeps_off_attacked_squares() {
    let p = Position::from_str("4k3/8/8/8/8/8/8/r3K3 w - - 0 1").unwrap();
    assert_eq!(move_names(&p), vec!["e1d2", "e1e2", "e1f2"]);
    let q = Position::from_str("8/8/8/8/8/4k3/8/4K3 w - - 0 1").unwrap();
    assert_eq!(move_names(&q), vec!["e1d1", "e1f1"]);
}

#[test]
fn chess_move_names_read_back() {
    let p = startpos();
    for m in [
        Move::new(Square::G1, Square::F3, MoveFlag::Normal),
        Move::new(Square::E2, Square::E4, MoveFlag::DoublePush),
        Move::new(Square::E2, Square::E3, MoveFlag::Normal),
    ] {
        assert_eq!(p.parse_move(&m.to_string(&p)).unwrap(), m);
    }
    let r = Position::from_str("4k3/P7/8/8/8/8/8/4K3 w - - 0 1").unwrap();
    for flag in [MoveFlag::NPromotion, MoveFlag::BPromotion, MoveFlag::RPromotion, MoveFlag::QPromotion] {
        let m = Move::new(Square::A7, Square::A8, flag);
        assert_eq!(r.parse_move(&m.to_string(&r)).unwrap(), m);
    }
    let e = Position::from_str("4k3/8/8/3pP3/8/8/8/4K3 w - d6 0 2").unwrap();
    let m = Move::new(Square::E5, Square::D6, MoveFlag::EnPassant);
    assert_eq!(e.parse_move(&m.to_string(&e)).unwrap(), m);
    let q = Position::from_str("r3k2r/8/8/8/8/8/8/R3K2R w KQkq - 0 1").unwrap();
    let m = Move::new(Square::E1, Square::G1, MoveFlag::CastleHSide);
    assert_eq!(q.parse_move(&m.to_string(&q)).unwrap(), m);
}

fn leaves(p: &Position, depth: u32) -> u64 {
    if depth == 0 {
        return 1;
    }
    let mut n = 0;
    for m in p.generate_moves() {
        n += leaves(&p.after_move::<true>(m), depth - 1);
    }
    n
}

#[test]
fn chess_startpos_tree_counts() {
    let p = startpos();
    assert_eq!(leaves(&p, 1), 20);
    assert_eq!(leaves(&p, 2), 400);
    assert_eq!(leaves(&p, 3), 8902);
}

#[test]
fn chess_castling_and_en_passant_are_generated() {
    let p = Position::from_str("r3k2r/8/8/8/8/8/8/R3K2R w KQkq - 0 1").unwrap();
    let names = move_names(&p);
    assert!(names.contains(&"e1g1".to_string()));
    assert!(names.contains(&"e1c1".to_string()));
    let blocked = Position::from_str("r3k2r/8/8/8/8/8/8/R3K1NR w KQkq - 0 1").unwrap();
    assert!(!move_names(&blocked).contains(&"e1g1".to_string()));
    let attacked = Position::from_str("r3k2r/8/8/8/8/8/5r2/R3K2R w KQkq - 0 1").unwrap();
    assert!(!move_names(&attacked).contains(&"e1g1".to_string()));
    let checked = Position::from_str("r3k2r/8/8/8/8/8/4r3/R3K2R w KQkq - 0 1").unwrap();
    assert!(!move_names(&checked).contains(&"e1c1".to_string()));
    let ep = Position::from_str("4k3/8/8/3pP3/8/8/8/4K3 w - d6 0 1").unwrap();
    let captures: Vec<Move> = ep.generate_moves().into_iter().filter(|m| m.flag() == MoveFlag::EnPassant).collect();
    assert_eq!(captures, vec![Move::new(Square::E5, Square::D6, MoveFlag::EnPassant)]);
    let pinned = Position::from_str("8/8/8/r2pP2K/8/8/8/4k3 w - d6 0 1").unwrap();
    assert!(pinned.generate_moves().iter().all(|m| m.flag() != MoveFlag::EnPassant));
}

#[test]
fn chess_kiwipete_tree_counts() {
    let p = Position::from_str("r3k2r/p1ppqpb1/bn2pnp1/3PN3/1p2P3/2N2Q1p/PPPBBPPP/R3K2R w KQkq - 0 1").unwrap();
    assert_eq!(leaves(&p, 1), 48);
    assert_eq!(leaves(&p, 2), 2039);
}

#[test]
fn chess_en_passant_and_promotion_tree_counts() {
    let p = Position::from_str("8/2p5/3p4/KP5r/1R3p1k/8/4P1P1/8 w - - 0 1").unwrap();
    assert_eq!(leaves(&p, 1), 14);
    assert_eq!(leaves(&p, 2), 191);
    assert_eq!(leaves(&p, 3), 2812);
}

#[test]
fn chess_kiwipete_moves_are_distinct() {
    let p = Position::from_str("r3k2r/p1ppqpb1/bn2pnp1/3PN3/1p2P3/2N2Q1p/PPPBBPPP/R3K2R w KQkq - 0 1").unwrap();
    let moves = p.generate_moves();
    for (i, m) in moves.iter().enumerate() {
        assert!(!moves[i + 1..].contains(m));
    }
}

#[test]
fn chess_unreadable_non_ascii_moves() {
    let p = startpos();
    assert_eq!(p.parse_move("zzé"), Err(MoveParseError::BadSquare(TypeParseError::StrError("File".to_string()))));
    assert_eq!(
        Move::from_str("zzéa", &p),
        Err(MoveParseError::BadSquare(TypeParseError::StrError("File".to_string())))
    );
    assert_eq!(p.parse_move("e2é4é"), Err(MoveParseError::BadLength(7)));
}

#[test]
fn chess_parsed_positions_have_a_zero_checksum() {
    let p = startpos();
    assert_eq!(p.checksum.raw(), 0);
    assert_eq!(p.castling.rights(), p.castling.rights);
}
