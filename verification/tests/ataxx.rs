use std::str::FromStr;

use tetka_games::games::ataxx::{
    double, perft, perft_divide, single, singles, BitBoard, Color, ColorParseError, ColoredPiece, File, Move, MoveParseError,
    Piece, Position, PositionParseError, Rank, Square,
};
use tetka_games::interface::parse::PiecePlacementParseError;
use tetka_games::interface::{MoveList, MoveStore, MoveType, TypeParseError};

fn position(fen: &str) -> Position {
    Position::from_str(fen).unwrap()
}

fn perft_of(fen: &str, depth: u8) -> u64 {
    perft::<true>(position(fen), depth)
}

#[test]
fn ataxx_startpos_is_parsed() {
    let p = position(Position::STARTPOS);
    assert_eq!(p.color_bb(Color::Black).raw(), (1u64 << 6) | (1u64 << 42));
    assert_eq!(p.color_bb(Color::White).raw(), 1u64 | (1u64 << 48));
    assert_eq!(p.colored_piece_bb(ColoredPiece::Block).raw(), 0);
    assert_eq!(p.side_to_move(), Color::Black);
    assert_eq!(p.half_move_clock(), 0);
    assert_eq!(p.ply_count(), 0);
}

#[test]
fn ataxx_default_is_startpos() {
    let a = Position::default();
    let b = position(Position::STARTPOS);
    assert_eq!(a.bitboards, b.bitboards);
    assert_eq!(a.checksum, b.checksum);
    assert_eq!(a.side_to_move, b.side_to_move);
    assert_eq!(a.ply_count, b.ply_count);
    assert_eq!(a.half_move_clock, b.half_move_clock);
}

#[test]
fn ataxx_startpos_has_sixteen_moves() {
    let p = position(Position::STARTPOS);
    assert_eq!(p.generate_moves().len(), 16);
    assert_eq!(p.count_moves(), 16);
}

#[test]
fn ataxx_perft_startpos() {
    let fen = "x5o/7/7/7/7/7/o5x x 0 1";
    assert_eq!(perft_of(fen, 1), 16);
    assert_eq!(perft_of(fen, 2), 256);
    assert_eq!(perft_of(fen, 3), 6460);
    assert_eq!(perft_of(fen, 4), 155888);
}

#[test]
fn ataxx_perft_startpos_depth_five() {
    assert_eq!(perft_of("x5o/7/7/7/7/7/o5x x 0 1", 5), 4752668);
    assert_eq!(perft_of("x5o/7/7/7/7/7/o5x o 0 1", 5), 4752668);
}

#[test]
fn ataxx_perft_without_bulk_counting_agrees() {
    let p = position("x5o/7/2-1-2/7/2-1-2/7/o5x x 0 1");
    assert_eq!(perft::<false>(p, 3), perft::<true>(p, 3));
}

#[test]
fn ataxx_perft_empty_board() {
    assert_eq!(perft_of("7/7/7/7/7/7/7 x 0 1", 4), 0);
    assert_eq!(perft_of("7/7/7/7/7/7/7 o 0 1", 4), 0);
}

#[test]
fn ataxx_perft_with_blockers() {
    assert_eq!(perft_of("x5o/7/2-1-2/7/2-1-2/7/o5x x 0 1", 5), 2266352);
    assert_eq!(perft_of("x5o/7/2-1-2/7/2-1-2/7/o5x o 0 1", 5), 2266352);
    assert_eq!(perft_of("x5o/7/2-1-2/3-3/2-1-2/7/o5x x 0 1", 5), 2114588);
    assert_eq!(perft_of("x5o/7/3-3/2-1-2/3-3/7/o5x x 0 1", 5), 3639856);
}

#[test]
fn ataxx_perft_fifty_move_rule() {
    assert_eq!(perft_of("x5o/7/7/7/7/7/o5x x 100 1", 5), 0);
    assert_eq!(perft_of("x5o/7/7/7/7/7/o5x o 100 1", 5), 0);
}

#[test]
fn ataxx_perft_other_positions() {
    assert_eq!(perft_of("7/7/7/7/ooooooo/ooooooo/xxxxxxx x 0 1", 5), 452980);
    assert_eq!(perft_of("7/7/7/7/xxxxxxx/xxxxxxx/ooooooo o 0 1", 5), 452980);
    assert_eq!(perft_of("7/7/7/2x1o2/7/7/7 x 0 1", 5), 4266992);
}

#[test]
fn ataxx_pass_keeps_stones_and_flips_side() {
    let old = position("x5o/7/7/7/7/7/o5x x 0 1");
    let new = old.after_move::<true>(Move::pass());
    assert_eq!(old.color_bb(Color::Black), new.color_bb(Color::Black));
    assert_eq!(old.color_bb(Color::White), new.color_bb(Color::White));
    assert_eq!(old.side_to_move, !new.side_to_move);
    assert_eq!(new.checksum.raw(), !old.checksum.raw());
}

#[test]
fn ataxx_single_move_clones_and_captures() {
    let p = position("7/7/7/7/7/1o5/x6 x 5 1");
    let m = Move::new_single(Square::B1);
    let n = p.after_move::<true>(m);
    assert_eq!(n.color_bb(Color::Black).raw(), 1 | 2 | (1 << 8));
    assert_eq!(n.color_bb(Color::White).raw(), 0);
    assert_eq!(n.half_move_clock(), 0);
    assert_eq!(n.side_to_move(), Color::White);
    assert!(n.is_game_over());
    assert_eq!(n.winner(), Some(Some(Color::Black)));
}

#[test]
fn ataxx_jump_move_leaves_source() {
    let p = position(Position::STARTPOS);
    let n = p.after_move::<true>(Move::new(Square::G1, Square::E1));
    assert!(!n.color_bb(Color::Black).contains(Square::G1));
    assert!(n.color_bb(Color::Black).contains(Square::E1));
    assert_eq!(n.half_move_clock(), 1);
    assert_eq!(n.ply_count(), 1);
}

#[test]
fn ataxx_hash_differs_only_by_side() {
    let x = position("x5o/7/7/7/7/7/o5x x 0 1");
    let o = position("x5o/7/7/7/7/7/o5x o 0 1");
    assert_eq!(x.checksum.raw(), !o.checksum.raw());
}

#[test]
fn ataxx_game_over_rules() {
    assert!(position("7/7/7/7/7/7/7 x 0 1").is_game_over());
    assert!(position("x5o/7/7/7/7/7/o5x x 100 1").is_game_over());
    assert!(!position(Position::STARTPOS).is_game_over());
    assert_eq!(position("x5o/7/7/7/7/7/o5x x 100 1").winner(), Some(None));
    assert_eq!(position(Position::STARTPOS).winner(), None);
    assert_eq!(position("x5o/7/7/7/7/7/o5x x 99 1").winner(), None);
    assert_eq!(position("xxxxxxx/xxxxxxx/xxxxxxx/xxxxooo/ooooooo/ooooooo/ooooooo x 0 1").winner(), Some(Some(Color::Black)));
    assert_eq!(position("xxxxxxx/xxxxxxx/xxxxxxx/xxx-ooo/ooooooo/ooooooo/ooooooo x 0 1").winner(), Some(None));
    assert_eq!(position("7/7/7/7/7/7/o6 x 0 1").winner(), Some(Some(Color::White)));
}

#[test]
fn ataxx_pass_is_generated_when_stuck() {
    let p = position("x-o4/--o4/ooo4/7/7/7/7 x 0 1");
    let moves = p.generate_moves();
    assert_eq!(moves, vec![Move::pass()]);
    assert_eq!(p.count_moves(), 1);
}

#[test]
fn ataxx_pass_is_appended_to_a_nonempty_store() {
    let p = position("xoooooo/ooooooo/ooooooo/ooooooo/ooooooo/ooooooo/oooooo1 x 0 1");
    let mut moves: Vec<Move> = vec![Move::new_single(Square::G1)];
    p.generate_moves_into(&mut moves);
    assert_eq!(moves, vec![Move::new_single(Square::G1), Move::pass()]);
}

#[test]
fn ataxx_move_text_round_trip() {
    let p = Position::default();
    let pass = Move::pass();
    let sing = Move::new_single(Square::A1);
    let jump = Move::new(Square::A1, Square::A3);
    assert_eq!(Move::from_str(&pass.to_string(), &p).unwrap(), pass);
    assert_eq!(Move::from_str(&sing.to_string(), &p).unwrap(), sing);
    assert_eq!(Move::from_str(&jump.to_string(), &p).unwrap(), jump);
    assert_eq!(Move::from_str("g7", &p).unwrap(), Move::new_single(Square::G7));
}

#[test]
fn ataxx_move_names() {
    assert_eq!(Move::null().to_string(), "null");
    assert_eq!(Move::pass().to_string(), "0000");
    assert_eq!(Move::new_single(Square::A1).to_string(), "a1");
    assert_eq!(Move::new(Square::A1, Square::A3).to_string(), "a1a3");
}

#[test]
fn ataxx_move_fields() {
    let mov = Move::new(Square::A1, Square::A3);
    assert_eq!(mov.source(), Square::A1);
    assert_eq!(mov.target(), Square::A3);
    assert!(!mov.is_single());
    let sing = Move::new_single(Square::A1);
    assert_eq!(sing.source(), sing.target());
    assert!(sing.is_single());
    assert_eq!(Move::from_raw(mov.raw()), mov);
}

#[test]
fn ataxx_move_parse_errors() {
    let p = Position::default();
    assert_eq!(Move::from_str("a1a", &p), Err(MoveParseError::BadLength(3)));
    assert_eq!(Move::from_str("", &p), Err(MoveParseError::BadLength(0)));
    assert_eq!(
        Move::from_str("h1", &p),
        Err(MoveParseError::BadSquare(TypeParseError::StrError("File".to_string())))
    );
    assert_eq!(
        Move::from_str("a1a8", &p),
        Err(MoveParseError::BadSquare(TypeParseError::StrError("File".to_string())))
    );
    assert_eq!(Move::from_str("€", &p), Err(MoveParseError::BadLength(3)));
}

#[test]
fn ataxx_fen_errors() {
    assert!(matches!(Position::from_str("x5o/7/7/7/7/7/o5x x 0"), Err(PositionParseError::TooManyFields(3))));
    assert!(matches!(
        Position::from_str("x5o/7/7/7/7/7/o6x x 0 1"),
        Err(PositionParseError::BadPiecePlacement(PiecePlacementParseError::JumpTooLong))
    ));
    assert!(matches!(
        Position::from_str("x5z/7/7/7/7/7/o5x x 0 1"),
        Err(PositionParseError::BadPiecePlacement(PiecePlacementParseError::InvalidPieceIdent('z')))
    ));
    assert!(matches!(
        Position::from_str("x5/7/7/7/7/7/o5x x 0 1"),
        Err(PositionParseError::BadPiecePlacement(PiecePlacementParseError::FileDataIncomplete(ref f))) if f == "g"
    ));
    assert!(matches!(
        Position::from_str("x5o/7/7/7/7/7/o5x/7 x 0 1"),
        Err(PositionParseError::BadPiecePlacement(PiecePlacementParseError::TooManyRanks(7)))
    ));
    assert!(matches!(
        Position::from_str("x5o/7/7/7/7/7/o5x y 0 1"),
        Err(PositionParseError::BadSideToMove(TypeParseError::StrError(ref c))) if c == "Color"
    ));
    assert!(matches!(Position::from_str("x5o/7/7/7/7/7/o5x x 256 1"), Err(PositionParseError::BadHalfMoveClock(_))));
    assert!(matches!(Position::from_str("x5o/7/7/7/7/7/o5x x 0 z"), Err(PositionParseError::BadHalfMoveClock(_))));
}

#[test]
fn ataxx_fen_ply_count() {
    assert_eq!(position("x5o/7/7/7/7/7/o5x x 0 5").ply_count(), 8);
    assert_eq!(position("x5o/7/7/7/7/7/o5x o 0 5").ply_count(), 9);
}

#[test]
fn ataxx_fen_other_letters() {
    let a = position("X5W/7/7/7/7/7/w5B x 0 1");
    let b = position("x5o/7/7/7/7/7/o5x x 0 1");
    assert_eq!(a.color_bb(Color::Black).raw(), b.color_bb(Color::Black).raw());
    assert_eq!(a.color_bb(Color::White).raw(), b.color_bb(Color::White).raw());
    assert_eq!(a.checksum.raw(), b.checksum.raw());
    let c = position("b5O/7/7/7/7/7/W5X o 0 1");
    assert_eq!(c.color_bb(Color::Black).raw(), b.color_bb(Color::Black).raw());
    assert_eq!(c.color_bb(Color::White).raw(), b.color_bb(Color::White).raw());
    assert_eq!(position("x5o/7/7/7/7/7/o5x x 12 +5").half_move_clock(), 12);
}

#[test]
fn ataxx_squares_files_ranks() {
    assert_eq!(Square::from_str("a1"), Ok(Square::A1));
    assert_eq!(Square::from_str("g7"), Ok(Square::G7));
    assert_eq!(Square::from_str("h1"), Err(TypeParseError::StrError("File".to_string())));
    assert_eq!(Square::from_str("a0"), Err(TypeParseError::StrError("File".to_string())));
    assert_eq!(File::from_str("c"), Ok(File::C));
    assert_eq!(File::from_str("C"), Err(TypeParseError::StrError("File".to_string())));
    assert_eq!(Rank::from_str("7"), Ok(Rank::Seventh));
    assert_eq!(Rank::from_str("0"), Err(TypeParseError::StrError("Rank".to_string())));
    assert_eq!(Square::D4.to_string(), "d4");
    assert_eq!(File::E.to_string(), "e");
    assert_eq!(Rank::Third.to_string(), "3");
    assert_eq!(Square::new(File::C, Rank::Second), Square::C2);
    assert_eq!(Square::C2.file(), File::C);
    assert_eq!(Square::C2.rank(), Rank::Second);
    assert_eq!(File::try_from_index(9), Err(TypeParseError::RangeError("File".to_string())));
}

#[test]
fn ataxx_pieces_and_colors() {
    assert_eq!(Color::from_str("x"), Ok(Color::Black));
    assert_eq!(Color::from_str("o"), Ok(Color::White));
    assert_eq!(Color::Black.to_string(), "x");
    assert_eq!(Piece::from_str("-"), Ok(Piece::Block));
    assert_eq!(ColoredPiece::from_str("o"), Ok(ColoredPiece::WhitePiece));
    assert_eq!(ColoredPiece::Block.to_string(), "-");
    assert_eq!(!Color::Black, Color::White);
    assert_eq!(ColoredPiece::new(Piece::Piece, Color::Black), ColoredPiece::BlackPiece);
    assert_eq!(ColoredPiece::WhitePiece.color(), Color::White);
    assert_eq!(ColoredPiece::Block.piece(), Piece::Block);
}

#[test]
fn ataxx_color_identifiers() {
    assert_eq!(Color::from_identifier("X"), Ok(Color::Black));
    assert_eq!(Color::from_identifier("B"), Ok(Color::Black));
    assert_eq!(Color::from_identifier("w"), Ok(Color::White));
    assert_eq!(Color::from_identifier("xo"), Err(ColorParseError::StringTooLong));
    assert_eq!(Color::from_identifier("z"), Err(ColorParseError::StringFormatInvalid("z".to_string())));
}

#[test]
fn ataxx_bitboard_singles_and_ops() {
    let a1 = BitBoard::from_square(Square::A1);
    assert_eq!(BitBoard::single(Square::A1).raw(), 2 | (1 << 7) | (1 << 8));
    assert_eq!(singles(a1).raw(), 1 | 2 | (1 << 7) | (1 << 8));
    assert_eq!(BitBoard::singles(a1), singles(a1));
    assert_eq!(BitBoard::double(Square::A1).len(), 5);
    assert_eq!(BitBoard::universe().len(), 49);
    assert_eq!(BitBoard::universe().complement(), BitBoard::empty());
    assert!(a1.is_subset(BitBoard::universe()));
    assert!(!BitBoard::universe().is_subset(a1));
    assert!(BitBoard::universe().is_superset(a1));
    let mut b = BitBoard::new(0b101);
    assert_eq!(b.next(), Some(Square::A1));
    assert_eq!(b.next(), Some(Square::C1));
    assert_eq!(b.next(), None);
    assert_eq!(BitBoard::file(File::B).raw(), 0x0040810204081 << 1);
    assert_eq!(BitBoard::rank(Rank::Second).raw(), 0x7f << 7);
}

#[test]
fn ataxx_insert_remove_at() {
    let mut p = Position::default();
    assert_eq!(p.at(Square::A7), Some(ColoredPiece::BlackPiece));
    assert_eq!(p.remove(Square::A7), Some(ColoredPiece::BlackPiece));
    assert_eq!(p.at(Square::A7), None);
    p.insert(Square::D4, ColoredPiece::Block);
    assert_eq!(p.at(Square::D4), Some(ColoredPiece::Block));
    assert_eq!(p.remove(Square::D5), None);
}

#[test]
fn ataxx_moves_into_a_move_list() {
    let p = position(Position::STARTPOS);
    let mut list: MoveList = <MoveList as MoveStore<Move>>::new();
    p.generate_moves_into(&mut list);
    let moves: Vec<Move> = list.iter().map(|&raw| <Move as MoveType>::from_raw(raw)).collect();
    assert_eq!(moves, p.generate_moves());
}

#[test]
fn ataxx_position_picture() {
    let p = position(Position::STARTPOS);
    assert_eq!(
        p.to_string(),
        " x . . . . . o  7 \n . . . . . . .  6 \n . . . . . . .  5 \n . . . . . . .  4 \n . . . . . . .  3 \n . . . . . . .  2 \n o . . . . . x  1 \n a b c d e f g\n\nSide To Move: x\n"
    );
}

#[test]
fn ataxx_bitboard_picture() {
    let p = position(Position::STARTPOS);
    assert_eq!(
        p.color_bb(Color::Black).to_string(),
        "1 0 0 0 0 0 0 \n0 0 0 0 0 0 0 \n0 0 0 0 0 0 0 \n0 0 0 0 0 0 0 \n0 0 0 0 0 0 0 \n0 0 0 0 0 0 0 \n0 0 0 0 0 0 1 \n"
    );
}

#[test]
fn ataxx_perft_divide_splits_by_first_move() {
    let p = position(Position::STARTPOS);
    let split = perft_divide::<true>(p, 3);
    assert_eq!(split.len(), 16);
    let moves = p.generate_moves();
    for (k, (m, n)) in split.iter().enumerate() {
        assert_eq!(*m, moves[k]);
        assert_eq!(*n, perft::<true>(p.after_move::<false>(*m), 2));
    }
    assert_eq!(split.iter().map(|(_, n)| n).sum::<u64>(), 6460);
    assert!(p.is_on_board());
}

#[test]
fn ataxx_singles_of_a_union() {
    let a = BitBoard::from_square(Square::A1);
    let b = BitBoard::from_square(Square::D4);
    assert_eq!(singles(a.union(b)).raw(), singles(a).union(singles(b)).raw());
}

#[test]
fn ataxx_single_and_double_targets() {
    assert_eq!(single(Square::A1).raw(), (1u64 << 1) | (1u64 << 7) | (1u64 << 8));
    assert_eq!(
        double(Square::A1).raw(),
        (1u64 << 2) | (1u64 << 9) | (1u64 << 14) | (1u64 << 15) | (1u64 << 16)
    );
    assert_eq!(single(Square::D4).raw(), BitBoard::single(Square::D4).raw());
}

#[test]
fn ataxx_finished_games_and_their_winners() {
    let black_win = position("xxxxxxx/7/7/7/7/7/7 o 0 1");
    let white_win = position("ooooooo/7/7/7/7/7/7 x 0 1");
    let draw_game = position("xxx1ooo/7/7/7/7/7/7 x 100 1");
    let ongoing = position("xxx1ooo/7/7/7/7/7/7 x 0 1");
    assert!(black_win.is_game_over());
    assert!(white_win.is_game_over());
    assert!(draw_game.is_game_over());
    assert!(!ongoing.is_game_over());
    assert_eq!(black_win.winner(), Some(Some(Color::Black)));
    assert_eq!(white_win.winner(), Some(Some(Color::White)));
    assert_eq!(draw_game.winner(), Some(None));
    assert_eq!(ongoing.winner(), None);
}

#[test]
fn ataxx_single_move_gives_the_position_of_its_fen() {
    let pos = position("x5o/7/7/7/7/7/o5x x 0 1");
    let new_pos = position("xx4o/7/7/7/7/7/o5x o 0 1");
    let next = pos.after_move::<true>(Move::new_single(Square::B7));
    assert_eq!(next.checksum, new_pos.checksum);
    assert_eq!(next.ply_count(), new_pos.ply_count());
}

#[test]
fn ataxx_generated_moves_are_distinct() {
    for fen in [Position::STARTPOS, "x5o/7/2-1-2/7/2-1-2/7/o5x x 0 1", "xoooooo/ooooooo/ooooooo/ooooooo/ooooooo/ooooooo/oooooo1 x 0 1"] {
        let moves = position(fen).generate_moves();
        for (i, m) in moves.iter().enumerate() {
            assert!(!moves[i + 1..].contains(m));
        }
    }
}

#[test]
fn ataxx_unreadable_non_ascii_moves() {
    let p = Position::default();
    assert_eq!(Move::from_str("zzé", &p), Err(MoveParseError::BadSquare(TypeParseError::StrError("File".to_string()))));
    assert_eq!(Move::from_str("ééé", &p), Err(MoveParseError::BadLength(6)));
}
