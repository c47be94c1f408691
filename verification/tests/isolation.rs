use std::str::FromStr;

use tetka_games::games::isolation::{
    perft, BitBoard, Color, ColoredPiece, Move, MoveParseError, Piece, Position,
    PositionParseError, Square,
};
use tetka_games::interface::{MoveList, MoveStore, MoveType, TypeParseError};
use tetka_games::search::{parse_limits, GoFlags, Limits, LimitsError, Score, Searcher, INF_VALUE};

const STARTPOS: &str = "--------/--------/p-------/-------P/--------/-------- w 1";

fn startpos() -> Position {
    Position::from_str(STARTPOS).unwrap()
}

#[test]
fn isolation_startpos_1() {
    assert_eq!(perft::<true>(startpos(), 1), 225);
}

#[test]
fn isolation_startpos_2() {
    assert_eq!(perft::<true>(startpos(), 2), 47300);
}

#[test]
fn isolation_startpos_3() {
    assert_eq!(perft::<true>(startpos(), 3), 10998540);
}

#[test]
fn isolation_perft_without_bulk_counting_agrees() {
    assert_eq!(perft::<false>(startpos(), 2), 47300);
}

#[test]
fn isolation_startpos_fields() {
    let p = startpos();
    assert_eq!(p.pawns, [Square::H3, Square::A4]);
    assert_eq!(p.tiles.len(), 46);
    assert!(!p.tiles.contains(Square::H3));
    assert!(!p.tiles.contains(Square::A4));
    assert_eq!(p.side_to_move(), Color::White);
    assert_eq!(p.ply_count(), 1);
    assert_eq!(p.half_move_clock(), 0);
    let d = Position::default();
    assert_eq!(d.pawns, p.pawns);
    assert_eq!(d.tiles, p.tiles);
    assert_eq!(d.checksum, p.checksum);
}

#[test]
fn isolation_moves_and_counts() {
    let p = startpos();
    let moves = p.generate_moves();
    assert_eq!(moves.len(), 225);
    assert_eq!(p.count_moves(), 225);
    assert_eq!(moves[0], Move::new(Square::G2, Square::A1));
    assert!(!p.is_game_over());
    assert_eq!(p.winner(), None);
}

#[test]
fn isolation_after_move_moves_pawn_and_removes_tile() {
    let p = startpos();
    let m = Move::new(Square::G2, Square::A1);
    let n = p.after_move::<true>(m);
    assert_eq!(n.pawns, [Square::G2, Square::A4]);
    assert!(!n.tiles.contains(Square::A1));
    assert_eq!(n.tiles.len(), 45);
    assert_eq!(n.side_to_move(), Color::Black);
    assert_eq!(n.ply_count(), 2);
    assert_eq!(n.checksum, Position::get_hash(n.pawns, n.tiles, Color::Black));
}

#[test]
fn isolation_no_free_tile_gives_no_moves() {
    let p = Position::from_str("8/8/8/8/8/P6p w 1").unwrap();
    assert_eq!(p.count_moves(), 0);
    assert_eq!(p.generate_moves().len(), 0);
    assert!(p.is_game_over());
    assert_eq!(p.winner(), Some(Some(Color::Black)));
}

#[test]
fn isolation_stuck_side_loses() {
    let p = Position::from_str("--------/--------/--------/--------/------2/P-----1p b 1").unwrap();
    assert_eq!(p.count_moves(), 0);
    assert!(p.is_game_over());
    assert_eq!(p.winner(), Some(Some(Color::White)));
}

#[test]
fn isolation_hash_differs_only_by_side() {
    let w = Position::from_str("--------/--------/p-------/-------P/--------/-------- w 1").unwrap();
    let b = Position::from_str("--------/--------/p-------/-------P/--------/-------- b 1").unwrap();
    assert_eq!(w.checksum.raw(), !b.checksum.raw());
}

#[test]
fn isolation_move_text_round_trip() {
    let jump = Move::new(Square::A1, Square::A3);
    assert_eq!(Move::from_str(&jump.to_string()).unwrap(), jump);
    assert_eq!(Move::null().to_string(), "null");
    assert_eq!(jump.to_string(), "a1a3");
    assert_eq!(jump.pawn(), Square::A1);
    assert_eq!(jump.tile(), Square::A3);
}

#[test]
fn isolation_move_parse_errors() {
    assert_eq!(Move::from_str("a1a"), Err(MoveParseError::BadLength(3)));
    assert_eq!(
        Move::from_str("a1a7"),
        Err(MoveParseError::BadSquare(TypeParseError::StrError("File".to_string())))
    );
    assert_eq!(
        Move::from_str("i1a1"),
        Err(MoveParseError::BadSquare(TypeParseError::StrError("File".to_string())))
    );
}

#[test]
fn isolation_fen_errors() {
    assert!(matches!(Position::from_str("--------/-------- w"), Err(PositionParseError::TooManyFields(2))));
    assert!(matches!(Position::from_str(STARTPOS.replace(" w ", " x ").as_str()), Err(PositionParseError::BadSideToMove(_))));
    assert!(matches!(Position::from_str(STARTPOS.replace(" 1", " -1").as_str()), Err(PositionParseError::BadFullMoveCount(_))));
    assert!(matches!(Position::from_str("--------/--------/p-------/-------P/--------/-------- b 3"), Ok(_)));
    assert_eq!(Position::from_str("--------/--------/p-------/-------P/--------/-------- b 3").unwrap().ply_count(), 4);
}

#[test]
fn isolation_pieces_and_colors() {
    assert_eq!(Color::from_str("w"), Ok(Color::White));
    assert_eq!(Color::from_str("b"), Ok(Color::Black));
    assert_eq!(Color::White.to_string(), "w");
    assert_eq!(ColoredPiece::from_str("P"), Ok(ColoredPiece::WhitePawn));
    assert_eq!(ColoredPiece::from_str("p"), Ok(ColoredPiece::BlackPawn));
    assert_eq!(Piece::from_str("-"), Ok(Piece::Tile));
    assert_eq!(ColoredPiece::Tile.to_string(), "-");
    let p = startpos();
    assert_eq!(p.at(Square::H3), Some(ColoredPiece::WhitePawn));
    assert_eq!(p.at(Square::A4), Some(ColoredPiece::BlackPawn));
    assert_eq!(p.at(Square::A1), Some(ColoredPiece::Tile));
    assert_eq!(p.piece_bb(Piece::Pawn).len(), 2);
    assert_eq!(p.color_bb(Color::White), BitBoard::from_square(Square::H3));
}

#[test]
fn isolation_singles_leave_out_the_source() {
    let a1 = BitBoard::from_square(Square::A1);
    assert_eq!(BitBoard::singles(a1).raw(), 2 | (1 << 8) | (1 << 9));
    let d3 = BitBoard::from_square(Square::D3);
    assert_eq!(BitBoard::singles(d3).len(), 8);
}

#[test]
fn isolation_search_picks_first_move() {
    let p = startpos();
    let mut s = Searcher::new(p);
    let mut nodes = 0usize;
    let limits = Limits { maxdepth: None, maxnodes: None, movetime: None, movestogo: None };
    assert_eq!(s.search(limits, &mut nodes), Move::new(Square::G2, Square::A1));
    assert_eq!(nodes, 0);
    let stuck = Position::from_str("--------/--------/--------/--------/------2/P-----1p b 1").unwrap();
    s.update_position(stuck);
    let limits = Limits { maxdepth: None, maxnodes: None, movetime: None, movestogo: None };
    assert_eq!(s.search(limits, &mut nodes), Move::null());
}

#[test]
fn isolation_evaluate_counts_neighbouring_tiles() {
    let p = startpos();
    assert_eq!(Searcher::evaluate(&p), Score(500));
    let q = Position::from_str("--------/--------/p-------/-------P/--------/-------- b 1").unwrap();
    assert_eq!(Searcher::evaluate(&q), Score(500));
    let r = Position::from_str("--------/--------/--p-----/-------P/--------/-------- w 1").unwrap();
    assert_eq!(Searcher::evaluate(&r), Score(500));
    let c = Position::from_str("--------/--------/--p-----/-------P/--------/-------- b 1").unwrap();
    assert_eq!(Searcher::evaluate(&c), Score(800));
}

#[test]
fn isolation_negamax_scores() {
    let p = startpos();
    let mut s = Searcher::new(p);
    let inf = Score::inf();
    let lo = inf.neg();
    assert_eq!(s.negamax(p, lo, inf, 0), Score(500));
    let stuck = Position::from_str("--------/--------/--------/--------/------2/P-----1p b 1").unwrap();
    assert_eq!(s.negamax(stuck, lo, inf, 2), Score(-INF_VALUE));
    assert_eq!(s.negamax(p, lo, inf, 1), Score(-400));
}

#[test]
fn isolation_negamax_widest_window() {
    let p = startpos();
    let mut s = Searcher::new(p);
    let lo = Score(-i16::MAX);
    let hi = Score(i16::MAX);
    assert_eq!(s.negamax(p, lo, hi, 1), Score(-400));
    assert_eq!(s.negamax(p, lo, hi, 0), Score(500));
    let stuck = Position::from_str("--------/--------/--------/--------/------2/P-----1p b 1").unwrap();
    assert_eq!(s.negamax(stuck, lo, hi, 2), Score(-INF_VALUE));
}

fn flags() -> GoFlags {
    GoFlags {
        p1inc: None,
        p2inc: None,
        p1time: None,
        p2time: None,
        movestogo: None,
        depth: None,
        nodes: None,
        movetime: None,
        infinite: None,
    }
}

#[test]
fn isolation_limits_from_flags() {
    let mut f = flags();
    f.p1time = Some("10000".to_string());
    f.p1inc = Some("100".to_string());
    f.depth = Some("5".to_string());
    let l = parse_limits(&f, Color::White).unwrap();
    assert_eq!(l, Limits { maxdepth: Some(5), maxnodes: None, movetime: Some(550), movestogo: None });
    let l = parse_limits(&f, Color::Black).unwrap();
    assert_eq!(l.movetime, Some(1));
    let mut g = flags();
    g.movetime = Some("250".to_string());
    g.movestogo = Some("3".to_string());
    let l = parse_limits(&g, Color::White).unwrap();
    assert_eq!(l, Limits { maxdepth: None, maxnodes: None, movetime: Some(250), movestogo: Some(3) });
}

#[test]
fn isolation_limits_errors() {
    let mut f = flags();
    f.infinite = Some("true".to_string());
    f.nodes = Some("5".to_string());
    assert_eq!(parse_limits(&f, Color::White), Err(LimitsError::BadFlagSet));
    let mut g = flags();
    g.nodes = Some("many".to_string());
    assert!(matches!(parse_limits(&g, Color::White), Err(LimitsError::BadNumber(_))));
    let mut h = flags();
    h.infinite = Some("".to_string());
    assert_eq!(parse_limits(&h, Color::White).unwrap(), Limits { maxdepth: None, maxnodes: None, movetime: None, movestogo: None });
}

#[test]
fn isolation_moves_into_a_move_list() {
    let p = startpos();
    let mut list: MoveList = <MoveList as MoveStore<Move>>::new();
    p.generate_moves_into(&mut list);
    assert_eq!(MoveStore::<Move>::len(&list), 225);
    let moves: Vec<Move> = list.iter().map(|&raw| <Move as MoveType>::from_raw(raw)).collect();
    assert_eq!(moves, p.generate_moves());
}

#[test]
fn isolation_position_picture() {
    let p = startpos();
    assert_eq!(
        p.to_string(),
        " - - - - - - - -  6 \n - - - - - - - -  5 \n p - - - - - - -  4 \n - - - - - - - P  3 \n - - - - - - - -  2 \n - - - - - - - -  1 \n a b c d e f g h\n\nSide To Move: w\n"
    );
}

#[test]
fn isolation_generated_moves_are_distinct() {
    let moves = startpos().generate_moves();
    assert_eq!(moves.len(), 225);
    for (i, m) in moves.iter().enumerate() {
        assert!(!moves[i + 1..].contains(m));
    }
}

#[test]
fn isolation_unreadable_non_ascii_moves() {
    let square_error = Err(MoveParseError::BadSquare(TypeParseError::StrError("File".to_string())));
    assert_eq!(Move::from_str("zzé"), square_error);
    assert_eq!(Move::read("zzé"), square_error);
    assert_eq!(Move::from_str("a1é"), square_error);
    assert_eq!(Move::from_str("ééé"), Err(MoveParseError::BadLength(6)));
}
