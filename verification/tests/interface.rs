use tetka_games::interface::hash::hash_pair;
use tetka_games::interface::parse::{chars_of, piece_placement, ply_count, PiecePlacementParseError};
use tetka_games::interface::{
    BitBoardType, ColorType, ColoredPieceType, FENParsablePosition, MoveStore, MoveType, PositionType,
    RepresentableType, SetType, SquareType, TypeParseError,
};
use std::str::FromStr;

use tetka_games::games::{ataxx, chess, isolation};
use tetka_games::stats::{pair_counts, Model};

#[test]
fn hash_values() {
    let h = tetka_games::interface::hash::Hash::new(5);
    assert_eq!(h.raw(), 5);
    assert_eq!(h.flip().raw(), !5u64);
    assert_eq!(tetka_games::interface::hash::Hash::zero().raw(), 0);
    assert_eq!(hash_pair(0, 0), 0);
    assert_eq!(hash_pair(1, 0), 6364136223846793005);
    assert_eq!(hash_pair(0, 1), 1442695040888963407);
}

#[test]
fn piece_placement_pairs() {
    let s = chars_of("p1P/3");
    let r = piece_placement(&s, 0, s.len(), 3, 2, &['P', 'p']).unwrap();
    assert_eq!(r, vec![(1, 3), (0, 5)]);
    let bad = chars_of("p1P/2");
    assert_eq!(
        piece_placement(&bad, 0, bad.len(), 3, 2, &['P', 'p']),
        Err(PiecePlacementParseError::FileDataIncomplete("c".to_string()))
    );
}

#[test]
fn ply_count_from_full_moves() {
    let s = chars_of("7");
    assert_eq!(ply_count(&s, 0, 1, true), Ok(13));
    assert_eq!(ply_count(&s, 0, 1, false), Ok(12));
    let z = chars_of("0");
    assert_eq!(ply_count(&z, 0, 1, true), Ok(u16::MAX));
    assert!(ply_count(&chars_of("x"), 0, 1, true).is_err());
}

#[test]
fn move_store_on_vec() {
    let mut v: Vec<u16> = Vec::new();
    assert!(MoveStore::is_empty(&v));
    MoveStore::push(&mut v, 3);
    assert_eq!(MoveStore::len(&v), 1);
}

#[test]
fn type_parse_errors() {
    let e = TypeParseError::StrError("File".to_string());
    assert_ne!(e, TypeParseError::RangeError("File".to_string()));
    assert_ne!(Model::Pentanomial, Model::Traditional);
}

#[test]
fn representable_types_convert_numbers() {
    assert_eq!(<chess::File as RepresentableType>::N, 8);
    assert_eq!(chess::File::from_number(7), chess::File::H);
    assert_eq!(chess::File::try_from_number(2).unwrap(), chess::File::C);
    assert_eq!(chess::File::try_from_number(8), Err(TypeParseError::RangeError("File".to_string())));
    assert_eq!(chess::Square::from_number(63), chess::Square::H8);
    assert_eq!(chess::Square::E4.number(), 28);
    assert_eq!(chess::Piece::try_from_number(6), Err(TypeParseError::RangeError("Piece".to_string())));
    assert_eq!(chess::ColoredPiece::from_number(11), chess::ColoredPiece::BlackKing);
    assert_eq!(<tetka_games::games::ataxx::Square as RepresentableType>::N, 49);
    assert_eq!(
        tetka_games::games::isolation::Square::try_from_number(48),
        Err(TypeParseError::RangeError("Square".to_string()))
    );
}

#[test]
fn color_types_start_with_the_first_mover() {
    assert_eq!(tetka_games::games::chess::Color::first(), tetka_games::games::chess::Color::White);
    assert_eq!(tetka_games::games::ataxx::Color::first(), tetka_games::games::ataxx::Color::Black);
    assert_eq!(tetka_games::games::isolation::Color::first(), tetka_games::games::isolation::Color::White);
}

#[test]
fn set_types_behave_like_sets() {
    let mut b = <ataxx::BitBoard as SetType<ataxx::Square>>::new();
    assert!(SetType::is_empty(b));
    SetType::insert(&mut b, ataxx::Square::A1);
    SetType::insert(&mut b, ataxx::Square::G7);
    assert!(SetType::contains(b, ataxx::Square::G7));
    assert!(!SetType::contains(b, ataxx::Square::B1));
    assert_eq!(SetType::len(b), 2);
    let u = <ataxx::BitBoard as SetType<ataxx::Square>>::universe();
    assert_eq!(SetType::len(u), 49);
    assert!(SetType::is_subset(b, u));
    assert!(SetType::is_superset(u, b));
    assert!(!SetType::is_subset(u, b));
    assert!(SetType::is_disjoint(b, <ataxx::BitBoard as SetType<ataxx::Square>>::empty()));
    SetType::remove(&mut b, ataxx::Square::A1);
    assert_eq!(SetType::len(b), 1);
    SetType::clear(&mut b);
    assert!(SetType::is_empty(b));
}

#[test]
fn move_types_keep_raw_values() {
    let m = <chess::Move as MoveType>::from_raw(0x1234);
    assert_eq!(m.to_raw(), 0x1234);
    assert_eq!(<chess::Move as MoveType>::null().to_raw(), 0);
    assert_eq!(<chess::Move as MoveType>::MAX_IN_POSITION, 256);
    let a = <tetka_games::games::ataxx::Move as MoveType>::null();
    assert_eq!(a, tetka_games::games::ataxx::Move::null());
    let i = <tetka_games::games::isolation::Move as MoveType>::from_raw(77);
    assert_eq!(MoveType::to_raw(i), 77);
}

#[test]
fn hash_text_is_upper_case_hexadecimal() {
    assert_eq!(tetka_games::interface::hash::Hash::new(0x1a2b).to_string(), "0x1A2B");
    assert_eq!(tetka_games::interface::hash::Hash::zero().to_string(), "0x0");
    assert_eq!(tetka_games::interface::hash::Hash::new(u64::MAX).to_string(), "0xFFFFFFFFFFFFFFFF");
    assert_eq!(tetka_games::interface::hash::Hash::new(0x1a2b).to_string(), format!("{:#X}", 0x1a2bu64));
}

#[test]
fn square_types_walk_the_board() {
    let e4 = <chess::Square as SquareType>::new(chess::File::E, chess::Rank::Fourth);
    assert_eq!(e4, chess::Square::E4);
    assert_eq!(SquareType::file(e4), chess::File::E);
    assert_eq!(SquareType::rank(e4), chess::Rank::Fourth);
    assert_eq!(SquareType::north(e4), Some(chess::Square::E5));
    assert_eq!(SquareType::south(e4), Some(chess::Square::E3));
    assert_eq!(SquareType::east(e4), Some(chess::Square::F4));
    assert_eq!(SquareType::west(e4), Some(chess::Square::D4));
    assert_eq!(SquareType::north(ataxx::Square::C7), None);
    assert_eq!(SquareType::east(ataxx::Square::G3), None);
    assert_eq!(SquareType::west(ataxx::Square::A3), None);
    assert_eq!(SquareType::south(ataxx::Square::D1), None);
}

#[test]
fn colored_piece_types_split_into_piece_and_color() {
    let q = <chess::ColoredPiece as ColoredPieceType>::new(chess::Piece::Queen, chess::Color::Black);
    assert_eq!(q, chess::ColoredPiece::BlackQueen);
    assert_eq!(ColoredPieceType::piece(q), chess::Piece::Queen);
    assert_eq!(ColoredPieceType::color(q), chess::Color::Black);
    assert_eq!(ColoredPieceType::piece(ataxx::ColoredPiece::Block), ataxx::Piece::Block);
    assert_eq!(ColoredPieceType::color(ataxx::ColoredPiece::WhitePiece), ataxx::Color::White);
    let w = <ataxx::ColoredPiece as ColoredPieceType>::new(ataxx::Piece::Piece, ataxx::Color::White);
    assert_eq!(w, ataxx::ColoredPiece::WhitePiece);
    assert_eq!(ColoredPieceType::piece(w), ataxx::Piece::Piece);
    assert_eq!(ColoredPieceType::color(w), ataxx::Color::White);
    let b = <ataxx::ColoredPiece as ColoredPieceType>::new(ataxx::Piece::Piece, ataxx::Color::Black);
    assert_eq!(b, ataxx::ColoredPiece::BlackPiece);
    let x = <ataxx::ColoredPiece as ColoredPieceType>::new(ataxx::Piece::Block, ataxx::Color::Black);
    assert_eq!(x, ataxx::ColoredPiece::Block);
    assert_eq!(ColoredPieceType::piece(x), ataxx::Piece::Block);
    let t = <isolation::ColoredPiece as ColoredPieceType>::new(isolation::Piece::Pawn, isolation::Color::Black);
    assert_eq!(t, isolation::ColoredPiece::BlackPawn);
    assert_eq!(ColoredPieceType::piece(t), isolation::Piece::Pawn);
    assert_eq!(ColoredPieceType::color(t), isolation::Color::Black);
}

#[test]
fn bitboard_types_shift_and_select_lines() {
    let f = <chess::BitBoard as BitBoardType>::first_file();
    assert_eq!(f.raw(), 0x0101010101010101);
    assert_eq!(<chess::BitBoard as BitBoardType>::first_rank().raw(), 0xff);
    assert_eq!(BitBoardType::east(f).raw(), 0x0202020202020202);
    assert_eq!(BitBoardType::west(f).raw(), 0);
    assert_eq!(BitBoardType::north(<chess::BitBoard as BitBoardType>::first_rank()).raw(), 0xff00);
    assert_eq!(BitBoardType::south(<chess::BitBoard as BitBoardType>::first_rank()).raw(), 0);
    assert_eq!(<chess::BitBoard as BitBoardType>::file(chess::File::H).raw(), 0x8080808080808080);
    assert_eq!(<chess::BitBoard as BitBoardType>::rank(chess::Rank::Eighth).raw(), 0xff00000000000000);
    assert_eq!(<ataxx::BitBoard as BitBoardType>::rank(ataxx::Rank::Second).raw(), 0x7f << 7);
}

#[test]
fn pair_counts_add_up_the_games() {
    let c = pair_counts(1, 2, 3, 4, 5, 6);
    assert_eq!(c.n, 21);
    assert_eq!(c.ws, 21);
    assert_eq!(c.ds, 13);
    assert_eq!(c.ls, 8);
    assert_eq!(c.ws + c.ds + c.ls, 2 * c.n);
}

fn first_moves<P: PositionType + FromStr>() -> (usize, usize, Vec<P::Move>) {
    let p = match P::from_str(P::STARTPOS) {
        Ok(p) => p,
        Err(_) => panic!("the starting position does not parse"),
    };
    let moves = PositionType::generate_moves::<false, true, true>(&p);
    let mut list: Vec<P::Move> = Vec::new();
    PositionType::generate_moves_into::<false, true, true, _>(&p, &mut list);
    (PositionType::count_moves::<true, true>(&p), PositionType::ply_count(&p), list)
}

#[test]
fn position_types_generate_through_the_trait() {
    let (n, plies, list) = first_moves::<ataxx::Position>();
    assert_eq!((n, plies, list.len()), (16, 0, 16));
    let (n, _, list) = first_moves::<isolation::Position>();
    assert_eq!((n, list.len()), (225, 225));
    let (n, _, list) = first_moves::<chess::Position>();
    assert_eq!((n, list.len()), (20, 20));
    let p = chess::Position::from_str(chess::Position::STARTPOS).unwrap();
    assert!(!PositionType::is_game_over(&p));
    assert_eq!(PositionType::winner(&p), None);
    let m = p.parse_move("e2e4").unwrap();
    let q = PositionType::after_move::<true>(&p, m);
    assert_eq!(q.side_to_move(), chess::Color::Black);
    assert_eq!(PositionType::hash(&q), p.hash());
}

#[test]
fn fen_parsable_positions_place_pieces() {
    let mut p = chess::Position::from_str("4k3/8/8/8/8/8/8/4K3 w - - 0 1").unwrap();
    assert_eq!(FENParsablePosition::at(&p, chess::Square::D4), None);
    FENParsablePosition::insert(&mut p, chess::Square::D4, chess::ColoredPiece::BlackKnight);
    assert_eq!(FENParsablePosition::at(&p, chess::Square::D4), Some(chess::ColoredPiece::BlackKnight));
    assert_eq!(FENParsablePosition::remove(&mut p, chess::Square::D4), Some(chess::ColoredPiece::BlackKnight));
    assert_eq!(FENParsablePosition::remove(&mut p, chess::Square::D4), None);
    let mut a = ataxx::Position::from_str(ataxx::Position::STARTPOS).unwrap();
    FENParsablePosition::insert(&mut a, ataxx::Square::D4, ataxx::ColoredPiece::Block);
    assert_eq!(FENParsablePosition::at(&a, ataxx::Square::D4), Some(ataxx::ColoredPiece::Block));
    let mut i = isolation::Position::from_str(isolation::Position::STARTPOS).unwrap();
    assert_eq!(FENParsablePosition::remove(&mut i, isolation::Square::B1), Some(isolation::ColoredPiece::Tile));
    assert_eq!(FENParsablePosition::at(&i, isolation::Square::B1), None);
}

#[test]
fn set_types_retain_by_predicate() {
    let mut b = <chess::BitBoard as BitBoardType>::first_rank();
    SetType::retain(&mut b, |sq: chess::Square| sq.number() % 8 < 4);
    assert_eq!(b.raw(), 0x0f);
    let mut a = <ataxx::BitBoard as BitBoardType>::first_file();
    SetType::retain(&mut a, |sq: ataxx::Square| sq.number() >= 14);
    assert_eq!(a.raw(), (1u64 << 14) | (1u64 << 21) | (1u64 << 28) | (1u64 << 35) | (1u64 << 42));
}
