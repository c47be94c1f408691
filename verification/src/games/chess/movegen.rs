//! Chess move generation: the Moves that each piece of the side to move
//! makes by the rules of its movement, kept where they leave its king
//! unattacked.
use vstd::prelude::*;
use core::ops::Not;
use crate::bits::below;
use crate::interface::bitboard::{ascending, bit_seq, rank_set, lemma_ascending_exact, lemma_ascending_len, lemma_bit_seq_empty, lemma_bit_seq_len};
use crate::interface::{MoveStore, PositionType};
use super::attacks::{bishop, king, king_set, knight, knight_set, pawn_attack_set, pawn_attacks, rook, slide_set};
use super::board::{BitBoard, Rank, Square};
use super::castling::Dimension;
use super::lines::{shift_set, Direction};
use super::moves::{Move, MoveFlag};
use super::piece::{Color, ColoredPiece, Piece};
use super::position::{ChessState, Position};

verus! {

/// The set of a BitBoard lies on the board.
pub proof fn lemma_bitboard_on_board(b: BitBoard)
    ensures
        b@.subset_of(below(64)),
        b@.intersect(below(64)) == b@,
        b@.finite(),
{
    assert(b@.intersect(below(64)) =~= b@);
    crate::bits::lemma_bits_finite(b.0);
}

/// A Square moved one step in a Direction came from the Square that far
/// back.
pub proof fn lemma_shift_preimage(s: Set<int>, dir: Direction, i: int)
    requires
        shift_set(s, dir).contains(i),
    ensures
        s.contains(i - dir.delta()),
{
}

/// The Direction in which the pawns of the given Color advance, and its
/// two diagonal steps towards the East and the West.
pub open spec fn pawn_dirs(side: Color) -> (Direction, Direction, Direction) {
    match side {
        Color::White => (Direction::North, Direction::NorthEast, Direction::NorthWest),
        Color::Black => (Direction::South, Direction::SouthEast, Direction::SouthWest),
    }
}

/// The Rank that a pawn of the given Color reaches with a single push from
/// its starting Rank, and from which it may push once more.
pub open spec fn double_push_rank(side: Color) -> Set<int> {
    match side {
        Color::White => rank_set(2, 8, 64),
        Color::Black => rank_set(5, 8, 64),
    }
}

/// The Rank on which the pawns of the given Color promote.
pub open spec fn promotion_rank(side: Color) -> Set<int> {
    match side {
        Color::White => rank_set(7, 8, 64),
        Color::Black => rank_set(0, 8, 64),
    }
}

/// The index of a Square.
pub open spec fn square_number(s: Square) -> int {
    s as int
}

/// The Moves with the given flag from `s` to each of the targets in turn.
pub open spec fn moves_to(s: int, ts: Seq<int>, f: int) -> Seq<Move> {
    ts.map_values(|t: int| Move::packed(s, t, f))
}

/// The four promotions from `s` to each of the targets in turn, to a
/// knight, bishop, rook and queen.
pub open spec fn promotions_from(s: int, ts: Seq<int>) -> Seq<Move>
    decreases ts.len(),
{
    if ts.len() == 0 {
        Seq::empty()
    } else {
        let t = ts.last();
        promotions_from(s, ts.drop_last()) + seq![
            Move::packed(s, t, 1),
            Move::packed(s, t, 2),
            Move::packed(s, t, 3),
            Move::packed(s, t, 4),
        ]
    }
}

impl ChessState {
    /// The Squares of all the pieces.
    pub open spec fn occupied(self) -> Set<int> {
        self.colors[0].union(self.colors[1])
    }

    /// The Square `sq` is attacked by a piece of the opponent of `victim`:
    /// a pawn, knight or king by its pattern, a bishop, rook or queen along
    /// its lines, which stop at the Squares of `occ`.
    pub open spec fn attacked_through(self, victim: Color, occ: Set<int>, sq: int) -> bool {
        let e = self.colors[victim.other() as int];
        let p = e.intersect(self.pieces[0]);
        let n = e.intersect(self.pieces[1]);
        let b = e.intersect(self.pieces[2]);
        let r = e.intersect(self.pieces[3]);
        let q = e.intersect(self.pieces[4]);
        let k = e.intersect(self.pieces[5]);
        !(p.disjoint(pawn_attack_set(sq, victim)) && n.disjoint(knight_set(sq)) && k.disjoint(
            king_set(sq),
        ) && b.union(q).disjoint(slide_set(sq, occ, true)) && r.union(q).disjoint(
            slide_set(sq, occ, false),
        ))
    }

    /// The Squares of the kings of the Color `c`.
    pub open spec fn kings_of(self, c: Color) -> Set<int> {
        self.colored(c as int * 6 + 5)
    }

    /// A king of the Color `victim` is attacked.
    pub open spec fn in_check(self, victim: Color) -> bool {
        exists|sq: int|
            #[trigger] self.kings_of(victim).contains(sq) && self.attacked_through(
                victim,
                self.occupied(),
                sq,
            )
    }

    /// The kind of the piece of the side to move on `s`, if it holds one.
    pub open spec fn mover_kind(self, s: int) -> Option<int> {
        match self.at(s) {
            Some(cp) => if cp / 6 == self.side as int {
                Some(cp % 6)
            } else {
                None
            },
            None => None,
        }
    }

    /// The free Square one step ahead of a pawn of the side to move on `s`.
    pub open spec fn push_targets(self, s: int) -> Set<int> {
        shift_set(set![s], pawn_dirs(self.side).0).difference(self.occupied())
    }

    /// The opposing pieces diagonally ahead of a pawn of the side to move
    /// on `s`.
    pub open spec fn capture_targets(self, s: int) -> Set<int> {
        pawn_attack_set(s, self.side).intersect(self.colors[self.side.other() as int])
    }

    /// The Squares that a piece of the given kind of the side to move on `s`
    /// moves to by a Move without a flag: a pawn pushes one Square ahead
    /// onto a free Square or captures diagonally ahead, short of the
    /// promotion Rank; a knight and a king move by their patterns, and a
    /// bishop, rook and queen along their lines up to the first piece; none
    /// onto a piece of the side to move.
    pub open spec fn plain_targets(self, s: int, kind: int) -> Set<int> {
        let friends = self.colors[self.side as int];
        let occ = self.occupied();
        if kind == 0 {
            self.push_targets(s).union(self.capture_targets(s)).difference(promotion_rank(self.side))
        } else if kind == 1 {
            knight_set(s).difference(friends)
        } else if kind == 2 {
            slide_set(s, occ, true).difference(friends)
        } else if kind == 3 {
            slide_set(s, occ, false).difference(friends)
        } else if kind == 4 {
            slide_set(s, occ, true).union(slide_set(s, occ, false)).difference(friends)
        } else {
            king_set(s).difference(friends)
        }
    }

    /// The Squares of the promotion Rank that a pawn on `s` pushes or
    /// captures to.
    pub open spec fn promotion_targets(self, s: int) -> Set<int> {
        self.push_targets(s).union(self.capture_targets(s)).intersect(promotion_rank(self.side))
    }

    /// The free Square two steps ahead of a pawn on `s`, over a free Square
    /// of the double push Rank.
    pub open spec fn double_targets(self, s: int) -> Set<int> {
        shift_set(self.push_targets(s).intersect(double_push_rank(self.side)), pawn_dirs(self.side).0).difference(
            self.occupied(),
        )
    }

    /// The en passant Square, when a pawn on `s` attacks it, it is free, and
    /// an opposing pawn stands behind it.
    pub open spec fn ep_targets(self, s: int) -> Set<int> {
        match self.en_passant {
            Some(t) => if pawn_attack_set(s, self.side).contains(t) && !self.occupied().contains(t)
                && self.colors[self.side.other() as int].intersect(self.pieces[0]).contains(
                self.behind(t),
            ) {
                set![t]
            } else {
                Set::empty()
            },
            None => Set::empty(),
        }
    }

    /// A king on `s` may castle in the Dimension `d`: the right is held, the
    /// castling rook stands on its Square, the Squares the king and the rook
    /// cross are empty, the king is not attacked, and none of the Squares
    /// the king crosses is attacked once king and rook have left their
    /// Squares.
    pub open spec fn castle_allowed(self, s: int, d: int) -> bool {
        let rook = self.castling.rooks[d];
        let occ = self.occupied();
        &&& self.castling.rights.contains(d)
        &&& self.colors[self.side as int].intersect(self.pieces[3]).contains(rook)
        &&& self.castling.blockers[d].disjoint(occ)
        &&& !self.attacked_through(self.side, occ, s)
        &&& forall|sq: int| #[trigger]
            self.castling.attacks[d].contains(sq) ==> !self.attacked_through(
                self.side,
                occ.remove(s).remove(rook),
                sq,
            )
    }

    /// The Move follows the rules of movement of the piece of the side to
    /// move on its source Square: a plain Move to one of its plain targets,
    /// or for a pawn a double push, a promotion to a knight, bishop, rook or
    /// queen, or an en passant capture, or for a king castling to the Square
    /// of its rook.
    pub open spec fn obeys_rules(self, m: Move) -> bool {
        let s = m.source_index();
        let t = m.target_index();
        let f = m.flag_index();
        let d = 2 * (self.side as int) + f - 7;
        match self.mover_kind(s) {
            None => false,
            Some(k) => {
                ||| f == 0 && self.plain_targets(s, k).contains(t)
                ||| k == 0 && f == 6 && self.double_targets(s).contains(t)
                ||| k == 0 && 1 <= f <= 4 && self.promotion_targets(s).contains(t)
                ||| k == 0 && f == 5 && self.ep_targets(s).contains(t)
                ||| k == 5 && (f == 7 || f == 8) && self.castle_allowed(s, d) && t
                    == self.castling.rooks[d]
            },
        }
    }

    /// Playing the Move leaves no king of the side to move attacked.
    pub open spec fn keeps_king_safe(self, m: Move) -> bool {
        !self.play(m).in_check(self.side)
    }

    /// The Move is legal: it follows the rules of movement and leaves no
    /// king of the side to move attacked.
    pub open spec fn legal(self, m: Move) -> bool {
        self.obeys_rules(m) && self.keeps_king_safe(m)
    }

    /// The castling Moves of a king on `s`: towards the H File, then the A
    /// File.
    pub open spec fn castles(self, s: int) -> Seq<Move> {
        let h = 2 * (self.side as int);
        let a = h + 1;
        (if self.castle_allowed(s, h) {
            seq![Move::packed(s, self.castling.rooks[h], 7)]
        } else {
            Seq::empty()
        }) + (if self.castle_allowed(s, a) {
            seq![Move::packed(s, self.castling.rooks[a], 8)]
        } else {
            Seq::empty()
        })
    }

    /// The Moves by the rules of movement from `s`, in the order of their
    /// generation: the plain Moves by ascending target; for a pawn then the
    /// double push, the promotions and the en passant capture; for a king
    /// then the castling Moves.
    pub open spec fn candidates(self, s: int) -> Seq<Move> {
        match self.mover_kind(s) {
            None => Seq::empty(),
            Some(k) => moves_to(s, ascending(self.plain_targets(s, k)), 0) + (if k == 0 {
                moves_to(s, ascending(self.double_targets(s)), 6) + promotions_from(
                    s,
                    ascending(self.promotion_targets(s)),
                ) + moves_to(s, ascending(self.ep_targets(s)), 5)
            } else {
                Seq::empty()
            }) + (if k == 5 {
                self.castles(s)
            } else {
                Seq::empty()
            }),
        }
    }

    /// The Moves of the sequence that leave no king of the side to move
    /// attacked, in their order.
    pub open spec fn kept(self, ms: Seq<Move>) -> Seq<Move>
        decreases ms.len(),
    {
        if ms.len() == 0 {
            Seq::empty()
        } else {
            let rest = self.kept(ms.drop_last());
            if self.keeps_king_safe(ms.last()) {
                rest.push(ms.last())
            } else {
                rest
            }
        }
    }

    /// The kept Moves of the pieces on the given Squares in turn.
    pub open spec fn generated_from(self, srcs: Seq<int>) -> Seq<Move>
        decreases srcs.len(),
    {
        if srcs.len() == 0 {
            Seq::empty()
        } else {
            self.generated_from(srcs.drop_last()) + self.kept(self.candidates(srcs.last()))
        }
    }

    /// The generated Moves of the position: those of its pieces of the side
    /// to move by ascending Square.
    pub open spec fn moves(self) -> Seq<Move> {
        self.generated_from(ascending(self.colors[self.side as int]))
    }
}

/// The kept Moves are those of the sequence that leave the king safe, each
/// as often, and no more of them.
pub proof fn lemma_kept(st: ChessState, ms: Seq<Move>)
    ensures
        st.kept(ms).len() <= ms.len(),
        forall|m: Move|
            #![trigger st.kept(ms).contains(m)]
            #![trigger ms.contains(m)]
            st.kept(ms).contains(m) <==> ms.contains(m) && st.keeps_king_safe(m),
        ms.no_duplicates() ==> st.kept(ms).no_duplicates(),
    decreases ms.len(),
{
    if ms.len() == 0 {
        assert forall|m: Move| !st.kept(ms).contains(m) && !ms.contains(m) by {}
    } else {
        let dl = ms.drop_last();
        let x = ms.last();
        let k = st.kept(dl);
        lemma_kept(st, dl);
        assert(ms =~= dl.push(x));
        assert forall|m: Move| #[trigger] ms.contains(m) <==> dl.contains(m) || m == x by {
            lemma_push_contains(dl, x, m);
        }
        assert forall|m: Move| #[trigger] k.push(x).contains(m) <==> k.contains(m) || m == x by {
            lemma_push_contains(k, x, m);
        }
        if ms.no_duplicates() {
            assert(!dl.contains(x)) by {
                if dl.contains(x) {
                    let i = choose|i: int| 0 <= i < dl.len() && dl[i] == x;
                    assert(ms[i] == ms[ms.len() - 1]);
                }
            }
            assert(dl.no_duplicates());
            if st.keeps_king_safe(x) {
                assert(!k.contains(x));
                assert forall|i: int, j: int| 0 <= i < j < k.push(x).len() implies k.push(x)[i] != k.push(x)[j] by {
                    if j == k.len() {
                        assert(k.contains(k[i]));
                    }
                }
            }
        }
    }
}

/// The members of a sequence with one more element.
proof fn lemma_push_contains<A>(s: Seq<A>, x: A, m: A)
    ensures
        s.push(x).contains(m) <==> s.contains(m) || m == x,
{
    if s.contains(m) {
        let i = choose|i: int| 0 <= i < s.len() && s[i] == m;
        assert(s.push(x)[i] == m);
    }
    if m == x {
        assert(s.push(x)[s.len() as int] == m);
    }
    if s.push(x).contains(m) && m != x {
        let i = choose|i: int| 0 <= i < s.push(x).len() && s.push(x)[i] == m;
        assert(s[i] == m);
    }
}

/// Keeping the Moves of two sequences one after the other.
pub proof fn lemma_kept_concat(st: ChessState, a: Seq<Move>, b: Seq<Move>)
    ensures
        st.kept(a + b) == st.kept(a) + st.kept(b),
    decreases b.len(),
{
    if b.len() == 0 {
        assert(a + b =~= a);
        assert(st.kept(a) + st.kept(b) =~= st.kept(a));
    } else {
        lemma_kept_concat(st, a, b.drop_last());
        assert((a + b).drop_last() =~= a + b.drop_last());
        assert((a + b).last() == b.last());
        if st.keeps_king_safe(b.last()) {
            assert(st.kept(a) + st.kept(b.drop_last()).push(b.last()) =~= (st.kept(a) + st.kept(
                b.drop_last(),
            )).push(b.last()));
        }
    }
}

/// The Moves with one flag from `s` to targets on the board.
pub proof fn lemma_moves_to(s: int, ts: Seq<int>, f: int)
    requires
        0 <= s < 64,
        0 <= f < 16,
        forall|k: int| 0 <= k < ts.len() ==> 0 <= #[trigger] ts[k] < 64,
    ensures
        moves_to(s, ts, f).len() == ts.len(),
        forall|m: Move| #[trigger]
            moves_to(s, ts, f).contains(m) ==> m.source_index() == s && m.flag_index() == f
                && ts.contains(m.target_index()),
        forall|t: int| #[trigger] ts.contains(t) ==> moves_to(s, ts, f).contains(Move::packed(s, t, f)),
        ts.no_duplicates() ==> moves_to(s, ts, f).no_duplicates(),
{
    let ms = moves_to(s, ts, f);
    assert forall|m: Move| #[trigger] ms.contains(m) implies m.source_index() == s && m.flag_index() == f
        && ts.contains(m.target_index()) by {
        let i = choose|i: int| 0 <= i < ms.len() && ms[i] == m;
        Move::lemma_packed(s, ts[i], f);
    }
    assert forall|t: int| #[trigger] ts.contains(t) implies ms.contains(Move::packed(s, t, f)) by {
        let i = choose|i: int| 0 <= i < ts.len() && ts[i] == t;
        assert(ms[i] == Move::packed(s, t, f));
    }
    if ts.no_duplicates() {
        assert forall|i: int, j: int| 0 <= i < j < ms.len() implies ms[i] != ms[j] by {
            Move::lemma_packed(s, ts[i], f);
            Move::lemma_packed(s, ts[j], f);
        }
    }
}

/// The promotions from `s` to targets on the board.
pub proof fn lemma_promotions_from(s: int, ts: Seq<int>)
    requires
        0 <= s < 64,
        forall|k: int| 0 <= k < ts.len() ==> 0 <= #[trigger] ts[k] < 64,
    ensures
        promotions_from(s, ts).len() == 4 * ts.len(),
        forall|m: Move| #[trigger]
            promotions_from(s, ts).contains(m) ==> m.source_index() == s && 1 <= m.flag_index() <= 4
                && ts.contains(m.target_index()),
        forall|t: int, f: int| ts.contains(t) && 1 <= f <= 4 ==> #[trigger] promotions_from(s, ts).contains(
            Move::packed(s, t, f),
        ),
        ts.no_duplicates() ==> promotions_from(s, ts).no_duplicates(),
    decreases ts.len(),
{
    if ts.len() > 0 {
        let dl = ts.drop_last();
        let t = ts.last();
        lemma_promotions_from(s, dl);
        let pre = promotions_from(s, dl);
        let four = seq![
            Move::packed(s, t, 1),
            Move::packed(s, t, 2),
            Move::packed(s, t, 3),
            Move::packed(s, t, 4),
        ];
        let all = promotions_from(s, ts);
        assert(all == pre + four);
        assert(ts[ts.len() - 1] == t);
        Move::lemma_packed(s, t, 1);
        Move::lemma_packed(s, t, 2);
        Move::lemma_packed(s, t, 3);
        Move::lemma_packed(s, t, 4);
        assert forall|u: int| #[trigger] dl.contains(u) implies ts.contains(u) by {
            let i = choose|i: int| 0 <= i < dl.len() && dl[i] == u;
            assert(ts[i] == u);
        }
        assert forall|m: Move| #[trigger] all.contains(m) implies m.source_index() == s && 1 <= m.flag_index()
            <= 4 && ts.contains(m.target_index()) by {
            let i = choose|i: int| 0 <= i < all.len() && all[i] == m;
            if i < pre.len() {
                assert(pre.contains(m));
            } else {
                assert(four.contains(m));
            }
        }
        assert forall|u: int, f: int| ts.contains(u) && 1 <= f <= 4 implies #[trigger] all.contains(
            Move::packed(s, u, f),
        ) by {
            let i = choose|i: int| 0 <= i < ts.len() && ts[i] == u;
            if i < dl.len() {
                assert(dl[i] == u);
                assert(pre.contains(Move::packed(s, u, f)));
                let k = choose|k: int| 0 <= k < pre.len() && pre[k] == Move::packed(s, u, f);
                assert(all[k] == Move::packed(s, u, f));
            } else {
                assert(u == t);
                assert(all[pre.len() + f - 1] == Move::packed(s, u, f));
            }
        }
        if ts.no_duplicates() {
            assert(dl.no_duplicates());
            assert(!dl.contains(t)) by {
                if dl.contains(t) {
                    let i = choose|i: int| 0 <= i < dl.len() && dl[i] == t;
                    assert(ts[i] == ts[ts.len() - 1]);
                }
            }
            assert forall|i: int, j: int| 0 <= i < pre.len() && 0 <= j < four.len() implies pre[i] != four[j] by {
                assert(pre.contains(pre[i]));
            }
            vstd::seq_lib::lemma_no_dup_in_concat(pre, four);
        }
    }
}

/// A piece of the side to move stands on its Square.
pub proof fn lemma_mover_square(st: ChessState, s: int)
    requires
        st.mover_kind(s) is Some,
    ensures
        st.colors[st.side as int].contains(s),
{
    lemma_first_at_found(st, s, 0);
}

/// The piece found on a Square from index `k` on stands there.
proof fn lemma_first_at_found(st: ChessState, sq: int, k: int)
    requires
        st.first_at(sq, k) is Some,
    ensures
        st.colored(st.first_at(sq, k)->0).contains(sq),
    decreases 12 - k,
{
    if !(k >= 12 || k < 0) && !st.colored(k).contains(sq) {
        lemma_first_at_found(st, sq, k + 1);
    }
}

/// The Moves kept from the Moves of the pieces on the Squares of a prefix
/// are no more than those from all of them.
proof fn lemma_generated_prefix(st: ChessState, srcs: Seq<int>, k: int)
    requires
        0 <= k <= srcs.len(),
    ensures
        st.generated_from(srcs.take(k)).len() <= st.generated_from(srcs).len(),
    decreases srcs.len(),
{
    if k < srcs.len() {
        assert(srcs.drop_last().take(k) =~= srcs.take(k));
        lemma_generated_prefix(st, srcs.drop_last(), k);
    } else {
        assert(srcs.take(k) =~= srcs);
    }
}

/// Whether the Square is attacked by a piece of the opponent of `victim`,
/// the lines of the sliders stopping at the Squares of `occ`.
fn attacked_on(board: &Position, victim: Color, occ: BitBoard, sq: Square) -> (r: bool)
    ensures
        r == board@.attacked_through(victim, occ@, sq as int),
{
    let e = board.color_bb(victim.not());
    let p = e.intersection(board.piece_bb(Piece::Pawn));
    let n = e.intersection(board.piece_bb(Piece::Knight));
    let b = e.intersection(board.piece_bb(Piece::Bishop));
    let r = e.intersection(board.piece_bb(Piece::Rook));
    let q = e.intersection(board.piece_bb(Piece::Queen));
    let k = e.intersection(board.piece_bb(Piece::King));
    !(p.is_disjoint(pawn_attacks(sq, victim)) && n.is_disjoint(knight(sq)) && k.is_disjoint(king(sq))
        && b.union(q).is_disjoint(bishop(sq, occ)) && r.union(q).is_disjoint(rook(sq, occ)))
}

/// Whether a king of the Color `victim` is attacked.
fn in_check_of(board: &Position, victim: Color) -> (r: bool)
    ensures
        r == board@.in_check(victim),
{
    let ghost st = board@;
    let kings = board.colored_piece_bb(ColoredPiece::new(Piece::King, victim));
    let occ = board.color_bb(Color::White).union(board.color_bb(Color::Black));
    let ghost ks = st.kings_of(victim);
    let ghost ts = bit_seq(kings.0);
    proof {
        lemma_bitboard_on_board(kings);
        lemma_ascending_exact(kings@);
        assert(ts == ascending(ks));
        assert(occ@ =~= st.occupied());
    }
    let mut rest = kings;
    let ghost mut j: int = 0;
    while !rest.is_empty()
        invariant
            rest.on_board(),
            st == board@,
            0 <= j <= ts.len(),
            bit_seq(rest.0) == ts.skip(j),
            ts == ascending(ks),
            ks == st.kings_of(victim),
            ks.subset_of(below(64)),
            occ@ == st.occupied(),
            forall|k: int| 0 <= k < j ==> !st.attacked_through(victim, occ@, #[trigger] ts[k]),
        decreases ts.len() - j,
    {
        let ghost before = bit_seq(rest.0);
        proof {
            lemma_bit_seq_len(rest.0);
            crate::bits::lemma_bits_finite(rest.0);
            vstd::set_lib::lemma_set_empty_equivalency_len(rest@);
        }
        let sq = match rest.next() {
            Some(x) => x,
            None => {
                proof {
                    assert(false);
                }
                return false;
            },
        };
        proof {
            assert(before.len() > 0);
            assert(sq as int == ts[j]);
            lemma_ascending_exact(ks);
        }
        if attacked_on(board, victim, occ, sq) {
            proof {
                assert(ks.contains(ts[j]));
            }
            return true;
        }
        proof {
            j = j + 1;
            assert(bit_seq(rest.0) =~= ts.skip(j));
        }
    }
    proof {
        lemma_bit_seq_empty(rest.0);
        lemma_ascending_exact(ks);
        assert forall|sq: int| #[trigger] ks.contains(sq) implies !st.attacked_through(victim, occ@, sq) by {
            assert(ts.to_set().contains(sq));
            let k = choose|k: int| 0 <= k < ts.len() && ts[k] == sq;
        }
    }
    false
}

/// MoveGenerationInfo holds what the move generation of a position works
/// with: the position, and the Squares of the pieces to move, of the
/// opposing pieces and of all the pieces.
pub struct MoveGenerationInfo<'a> {
    position: &'a Position,
    friends: BitBoard,
    enemies: BitBoard,
    blocker: BitBoard,
}

impl<'a> MoveGenerationInfo<'a> {
    /// The position the masks belong to.
    pub closed spec fn state(&self) -> ChessState {
        self.position@
    }

    /// The masks are those of the position.
    pub closed spec fn well_formed(&self) -> bool {
        &&& self.friends@ == self.position@.colors[self.position@.side as int]
        &&& self.enemies@ == self.position@.colors[self.position@.side.other() as int]
        &&& self.blocker@ == self.position@.occupied()
        &&& self.position@.side == self.position.side_to_move
    }

    /// Computes the masks of the position.
    pub fn new(position: &'a Position) -> (r: MoveGenerationInfo<'a>)
        ensures
            r.state() == position@,
            r.well_formed(),
    {
        let stm = position.side_to_move();
        let friends = position.color_bb(stm);
        let enemies = position.color_bb(stm.not());
        let blocker = position.color_bb(Color::White).union(position.color_bb(Color::Black));
        let r = MoveGenerationInfo { position, friends, enemies, blocker };
        proof {
            assert(blocker@ =~= position@.occupied());
        }
        r
    }

    /// Whether playing the Move leaves no king of the side to move attacked.
    fn keeps_king_safe(&self, m: Move) -> (r: bool)
        requires
            self.well_formed(),
            self.state().playable(m),
        ensures
            r == self.state().keeps_king_safe(m),
    {
        let board = self.position.placed_after_move(m);
        let r = !in_check_of(&board, self.position.side_to_move());
        proof {
            let a = board@;
            let b = self.state().play(m);
            let c = self.state().side;
            assert(a.kings_of(c) == b.kings_of(c));
            assert(a.occupied() == b.occupied());
            if a.in_check(c) {
                let sq = choose|sq: int| #[trigger] a.kings_of(c).contains(sq) && a.attacked_through(c, a.occupied(), sq);
                assert(b.kings_of(c).contains(sq) && b.attacked_through(c, b.occupied(), sq));
            }
            if b.in_check(c) {
                let sq = choose|sq: int| #[trigger] b.kings_of(c).contains(sq) && b.attacked_through(c, b.occupied(), sq);
                assert(a.kings_of(c).contains(sq) && a.attacked_through(c, a.occupied(), sq));
            }
        }
        r
    }

    /// Appends the Move if it leaves the king safe.
    fn emit_one<ML: MoveStore<Move>>(&self, m: Move, movelist: &mut ML)
        requires
            self.well_formed(),
            self.state().playable(m),
            old(movelist).room() >= self.state().kept(seq![m]).len(),
        ensures
            final(movelist).moves() == old(movelist).moves() + self.state().kept(seq![m]),
            final(movelist).room() == old(movelist).room() - self.state().kept(seq![m]).len(),
    {
        proof {
            assert(seq![m].drop_last() =~= Seq::<Move>::empty());
            assert(seq![m].last() == m);
            assert(self.state().kept(Seq::<Move>::empty()) == Seq::<Move>::empty());
        }
        if self.keeps_king_safe(m) {
            movelist.push(m);
            proof {
                assert(Seq::<Move>::empty().push(m) =~= seq![m]);
            }
        } else {
            proof {
                assert(old(movelist).moves() + Seq::<Move>::empty() =~= old(movelist).moves());
            }
        }
    }

    /// Appends the Moves with the given flag from `s` to each of the targets
    /// by ascending Square, those that leave the king safe.
    #[verifier::spinoff_prover]
    #[verifier::rlimit(40)]
    fn emit<ML: MoveStore<Move>>(&self, s: Square, targets: BitBoard, flag: MoveFlag, movelist: &mut ML)
        requires
            self.well_formed(),
            forall|t: int| #[trigger]
                targets@.contains(t) ==> self.state().playable(Move::packed(s as int, t, flag as int)),
            old(movelist).room() >= self.state().kept(
                moves_to(s as int, ascending(targets@), flag as int),
            ).len(),
        ensures
            final(movelist).moves() == old(movelist).moves() + self.state().kept(
                moves_to(s as int, ascending(targets@), flag as int),
            ),
            final(movelist).room() == old(movelist).room() - self.state().kept(
                moves_to(s as int, ascending(targets@), flag as int),
            ).len(),
    {
        let ghost st = self.state();
        let ghost f = flag as int;
        let ghost ts = bit_seq(targets.0);
        let ghost base = old(movelist).moves();
        proof {
            lemma_bitboard_on_board(targets);
            lemma_ascending_exact(targets@);
            assert(ts == ascending(targets@));
            assert(moves_to(s as int, ts.take(0), f) =~= Seq::<Move>::empty());
        }
        let mut rest = targets;
        let ghost mut j: int = 0;
        while !rest.is_empty()
            invariant
                rest.on_board(),
                self.well_formed(),
                st == self.state(),
                0 <= j <= ts.len(),
                bit_seq(rest.0) == ts.skip(j),
                ts == ascending(targets@),
                f == flag as int,
                forall|k: int| 0 <= k < ts.len() ==> targets@.contains(#[trigger] ts[k]),
                forall|t: int| #[trigger]
                    targets@.contains(t) ==> st.playable(Move::packed(s as int, t, f)),
                movelist.moves() == base + st.kept(moves_to(s as int, ts.take(j), f)),
                movelist.room() == old(movelist).room() - st.kept(moves_to(s as int, ts.take(j), f)).len(),
                old(movelist).room() >= st.kept(moves_to(s as int, ts, f)).len(),
            decreases ts.len() - j,
        {
            let ghost before = bit_seq(rest.0);
            proof {
                lemma_bit_seq_len(rest.0);
                crate::bits::lemma_bits_finite(rest.0);
                vstd::set_lib::lemma_set_empty_equivalency_len(rest@);
            }
            let t = match rest.next() {
                Some(x) => x,
                None => {
                    proof {
                        assert(false);
                    }
                    return;
                },
            };
            let m = Move::new(s, t, flag);
            let ghost pre = moves_to(s as int, ts.take(j), f);
            let ghost nxt = moves_to(s as int, ts.take(j + 1), f);
            let ghost post = moves_to(s as int, ts.skip(j + 1), f);
            proof {
                assert(before.len() > 0);
                assert(t as int == ts[j]);
                assert(targets@.contains(ts[j]));
                assert(nxt =~= pre.push(m));
                assert(nxt.drop_last() =~= pre);
                assert(moves_to(s as int, ts, f) =~= nxt + post);
                lemma_kept_concat(st, nxt, post);
            }
            if self.keeps_king_safe(m) {
                movelist.push(m);
            }
            proof {
                j = j + 1;
                assert(bit_seq(rest.0) =~= ts.skip(j));
            }
        }
        proof {
            lemma_bit_seq_empty(rest.0);
            assert(ts.take(j) =~= ts);
        }
    }

    /// Appends the four promotions from `s` to each of the targets by
    /// ascending Square, those that leave the king safe.
    #[verifier::spinoff_prover]
    #[verifier::rlimit(40)]
    fn emit_promotions<ML: MoveStore<Move>>(&self, s: Square, targets: BitBoard, movelist: &mut ML)
        requires
            self.well_formed(),
            forall|t: int, f: int|
                targets@.contains(t) && 1 <= f <= 4 ==> #[trigger] self.state().playable(
                    Move::packed(square_number(s), t, f),
                ),
            old(movelist).room() >= self.state().kept(promotions_from(s as int, ascending(targets@))).len(),
        ensures
            final(movelist).moves() == old(movelist).moves() + self.state().kept(
                promotions_from(s as int, ascending(targets@)),
            ),
            final(movelist).room() == old(movelist).room() - self.state().kept(
                promotions_from(s as int, ascending(targets@)),
            ).len(),
    {
        let ghost st = self.state();
        let ghost ts = bit_seq(targets.0);
        let ghost base = old(movelist).moves();
        proof {
            lemma_bitboard_on_board(targets);
            lemma_ascending_exact(targets@);
            assert(ts == ascending(targets@));
            assert(ts.take(0) =~= Seq::<int>::empty());
        }
        let mut rest = targets;
        let ghost mut j: int = 0;
        while !rest.is_empty()
            invariant
                rest.on_board(),
                self.well_formed(),
                st == self.state(),
                0 <= j <= ts.len(),
                bit_seq(rest.0) == ts.skip(j),
                ts == ascending(targets@),
                forall|k: int| 0 <= k < ts.len() ==> targets@.contains(#[trigger] ts[k]),
                forall|t: int, f: int|
                    targets@.contains(t) && 1 <= f <= 4 ==> #[trigger] st.playable(
                        Move::packed(square_number(s), t, f),
                    ),
                movelist.moves() == base + st.kept(promotions_from(s as int, ts.take(j))),
                movelist.room() == old(movelist).room() - st.kept(promotions_from(s as int, ts.take(j))).len(),
                old(movelist).room() >= st.kept(promotions_from(s as int, ts)).len(),
            decreases ts.len() - j,
        {
            let ghost before = bit_seq(rest.0);
            proof {
                lemma_bit_seq_len(rest.0);
                crate::bits::lemma_bits_finite(rest.0);
                vstd::set_lib::lemma_set_empty_equivalency_len(rest@);
            }
            let t = match rest.next() {
                Some(x) => x,
                None => {
                    proof {
                        assert(false);
                    }
                    return;
                },
            };
            let n = Move::new(s, t, MoveFlag::NPromotion);
            let b = Move::new(s, t, MoveFlag::BPromotion);
            let r = Move::new(s, t, MoveFlag::RPromotion);
            let q = Move::new(s, t, MoveFlag::QPromotion);
            let ghost pre = promotions_from(s as int, ts.take(j));
            let ghost four = seq![n, b, r, q];
            let ghost nxt = promotions_from(s as int, ts.take(j + 1));
            proof {
                assert(before.len() > 0);
                assert(t as int == ts[j]);
                assert(targets@.contains(ts[j]));
                assert(ts.take(j + 1).drop_last() =~= ts.take(j));
                assert(ts.take(j + 1).last() == ts[j]);
                assert(nxt == pre + four);
                lemma_promotions_prefix(st, s as int, ts, j + 1);
                assert(st.playable(Move::packed(square_number(s), t as int, 1)));
                assert(st.playable(Move::packed(square_number(s), t as int, 2)));
                assert(st.playable(Move::packed(square_number(s), t as int, 3)));
                assert(st.playable(Move::packed(square_number(s), t as int, 4)));
                lemma_kept_concat(st, pre, four);
                assert(four =~= seq![n] + seq![b] + seq![r] + seq![q]);
                lemma_kept_concat(st, seq![n], seq![b]);
                lemma_kept_concat(st, seq![n] + seq![b], seq![r]);
                lemma_kept_concat(st, seq![n] + seq![b] + seq![r], seq![q]);
                lemma_kept(st, seq![n]);
                lemma_kept(st, seq![b]);
                lemma_kept(st, seq![r]);
                lemma_kept(st, seq![q]);
            }
            self.emit_one(n, movelist);
            self.emit_one(b, movelist);
            self.emit_one(r, movelist);
            self.emit_one(q, movelist);
            proof {
                assert(base + st.kept(pre) + st.kept(seq![n]) + st.kept(seq![b]) + st.kept(seq![r]) + st.kept(
                    seq![q],
                ) =~= base + st.kept(pre + four));
                j = j + 1;
                assert(bit_seq(rest.0) =~= ts.skip(j));
            }
        }
        proof {
            lemma_bit_seq_empty(rest.0);
            assert(ts.take(j) =~= ts);
        }
    }
}

/// The promotions to a prefix of the targets keep no more Moves than those
/// to all of them.
proof fn lemma_promotions_prefix(st: ChessState, s: int, ts: Seq<int>, k: int)
    requires
        0 <= k <= ts.len(),
    ensures
        st.kept(promotions_from(s, ts.take(k))).len() <= st.kept(promotions_from(s, ts)).len(),
    decreases ts.len(),
{
    if k < ts.len() {
        let dl = ts.drop_last();
        assert(dl.take(k) =~= ts.take(k));
        lemma_promotions_prefix(st, s, dl, k);
        let t = ts.last();
        lemma_kept_concat(
            st,
            promotions_from(s, dl),
            seq![Move::packed(s, t, 1), Move::packed(s, t, 2), Move::packed(s, t, 3), Move::packed(s, t, 4)],
        );
    } else {
        assert(ts.take(k) =~= ts);
    }
}

impl<'a> MoveGenerationInfo<'a> {
    /// Whether a king on `s` may castle in the Dimension.
    #[verifier::spinoff_prover]
    fn castle_allowed(&self, s: Square, d: Dimension) -> (r: bool)
        requires
            self.well_formed(),
        ensures
            r == self.state().castle_allowed(s as int, d as int),
    {
        let ghost st = self.state();
        let castling = self.position.castling;
        let stm = self.position.side_to_move();
        if !castling.has_right(d) {
            return false;
        }
        let rook = castling.rook(d);
        if !self.friends.intersection(self.position.piece_bb(Piece::Rook)).contains(rook) {
            return false;
        }
        if !castling.blocker_mask(d).is_disjoint(self.blocker) {
            return false;
        }
        if attacked_on(self.position, stm, self.blocker, s) {
            return false;
        }
        let through = self.blocker.difference(BitBoard::from_square(s)).difference(
            BitBoard::from_square(rook),
        );
        let mut rest = castling.attack_mask(d);
        let ghost all = rest@;
        proof {
            assert(through@ =~= st.occupied().remove(s as int).remove(rook as int));
            lemma_bitboard_on_board(rest);
        }
        while !rest.is_empty()
            invariant
                rest.on_board(),
                rest@.subset_of(all),
                all == st.castling.attacks[d as int],
                st == self.state(),
                stm == st.side,
                rook as int == st.castling.rooks[d as int],
                through@ == st.occupied().remove(s as int).remove(rook as int),
                forall|sq: int| #[trigger] all.contains(sq) && !rest@.contains(sq) ==> !st.attacked_through(
                    stm,
                    through@,
                    sq,
                ),
            decreases bit_seq(rest.0).len(),
        {
            proof {
                lemma_bit_seq_len(rest.0);
                crate::bits::lemma_bits_finite(rest.0);
                vstd::set_lib::lemma_set_empty_equivalency_len(rest@);
            }
            let sq = match rest.next() {
                Some(t) => t,
                None => {
                    proof {
                        assert(false);
                    }
                    return false;
                },
            };
            if attacked_on(self.position, stm, through, sq) {
                return false;
            }
        }
        proof {
            assert forall|sq: int| #[trigger] all.contains(sq) implies !st.attacked_through(
                st.side,
                st.occupied().remove(s as int).remove(st.castling.rooks[d as int]),
                sq,
            ) by {
                assert(!rest@.contains(sq));
            }
        }
        true
    }

    /// The plain targets of a piece of the given kind of the side to move
    /// on `s`.
    fn plain_targets(&self, s: Square, kind: Piece) -> (r: BitBoard)
        requires
            self.well_formed(),
        ensures
            r@ == self.state().plain_targets(s as int, kind as int),
            forall|t: int| #[trigger] r@.contains(t) ==> 0 <= t < 64,
    {
        let ghost st = self.state();
        let stm = self.position.side_to_move();
        let up = Direction::up(stm);
        let last = match stm {
            Color::White => BitBoard::rank(Rank::Eighth),
            Color::Black => BitBoard::rank(Rank::First),
        };
        let pushes = BitBoard::from_square(s).shift(up).difference(self.blocker);
        let captures = pawn_attacks(s, stm).intersection(self.enemies);
        proof {
            assert(pawn_dirs(st.side).0 == up);
            assert(last@ == promotion_rank(st.side));
            assert(pushes@ =~= st.push_targets(s as int));
            assert(captures@ =~= st.capture_targets(s as int));
        }
        let r = match kind {
            Piece::Pawn => pushes.union(captures).difference(last),
            Piece::Knight => knight(s).difference(self.friends),
            Piece::Bishop => bishop(s, self.blocker).difference(self.friends),
            Piece::Rook => rook(s, self.blocker).difference(self.friends),
            Piece::Queen => bishop(s, self.blocker).union(rook(s, self.blocker)).difference(self.friends),
            Piece::King => king(s).difference(self.friends),
        };
        proof {
            assert(r@ =~= st.plain_targets(s as int, kind as int));
            lemma_bitboard_on_board(r);
        }
        r
    }

    /// Appends the double push, the promotions and the en passant capture of
    /// a pawn of the side to move on `s`, those that leave the king safe.
    #[verifier::spinoff_prover]
    #[verifier::rlimit(60)]
    fn pawn_moves<ML: MoveStore<Move>>(&self, s: Square, movelist: &mut ML)
        requires
            self.well_formed(),
            self.state().mover_kind(s as int) == Some(0int),
            old(movelist).room() >= self.state().kept(self.pawn_extras(s as int)).len(),
        ensures
            final(movelist).moves() == old(movelist).moves() + self.state().kept(self.pawn_extras(s as int)),
            final(movelist).room() == old(movelist).room() - self.state().kept(self.pawn_extras(s as int)).len(),
    {
        let ghost st = self.state();
        let ghost si = s as int;
        let ghost base = old(movelist).moves();
        let stm = self.position.side_to_move();
        let up = Direction::up(stm);
        let (last, third) = match stm {
            Color::White => (BitBoard::rank(Rank::Eighth), BitBoard::rank(Rank::Third)),
            Color::Black => (BitBoard::rank(Rank::First), BitBoard::rank(Rank::Sixth)),
        };
        let pushes = BitBoard::from_square(s).shift(up).difference(self.blocker);
        let captures = pawn_attacks(s, stm).intersection(self.enemies);
        proof {
            assert(pawn_dirs(st.side).0 == up);
            assert(last@ == promotion_rank(st.side));
            assert(third@ == double_push_rank(st.side));
            assert(pushes@ =~= st.push_targets(si));
            assert(captures@ =~= st.capture_targets(si));
            lemma_bitboard_on_board(self.enemies);
        }
        let pt = pushes.intersection(third);
        let doubles = pt.shift(up).difference(self.blocker);
        let promos = pushes.union(captures).intersection(last);
        let ep = match self.position.en_passant_target() {
            Some(t) => {
                let ti = t as u8;
                let capi: u8 = match stm {
                    Color::White => if ti >= 8 {
                        ti - 8
                    } else {
                        64
                    },
                    Color::Black => if ti < 56 {
                        ti + 8
                    } else {
                        64
                    },
                };
                proof {
                    assert(capi < 64 ==> capi as int == st.behind(t as int));
                    assert(capi >= 64 ==> !self.enemies@.contains(st.behind(t as int)));
                }
                if capi < 64 && pawn_attacks(s, stm).contains(t) && !self.blocker.contains(t)
                    && self.enemies.intersection(self.position.piece_bb(Piece::Pawn)).contains(
                    Square::from_index(capi),
                ) {
                    BitBoard::from_square(t)
                } else {
                    BitBoard::empty()
                }
            },
            None => BitBoard::empty(),
        };
        let ghost dseq = moves_to(si, ascending(st.double_targets(si)), 6);
        let ghost pseq = promotions_from(si, ascending(st.promotion_targets(si)));
        let ghost eseq = moves_to(si, ascending(st.ep_targets(si)), 5);
        proof {
            assert(doubles@ =~= st.double_targets(si));
            assert(promos@ =~= st.promotion_targets(si));
            assert(ep@ =~= st.ep_targets(si));
            assert(self.pawn_extras(si) == dseq + pseq + eseq);
            lemma_kept_concat(st, dseq, pseq);
            lemma_kept_concat(st, dseq + pseq, eseq);
            lemma_bitboard_on_board(pt);
            lemma_bitboard_on_board(promos);
            lemma_bitboard_on_board(ep);
            assert forall|t: int| #[trigger] doubles@.contains(t) implies st.playable(Move::packed(si, t, 6)) by {
                lemma_shift_preimage(pt@, up, t);
                Move::lemma_packed(si, t, 6);
            }
            assert forall|t: int| #[trigger] ep@.contains(t) implies st.playable(Move::packed(si, t, 5)) by {
                Move::lemma_packed(si, t, 5);
            }
            assert forall|t: int, f: int|
                promos@.contains(t) && 1 <= f <= 4 implies #[trigger] st.playable(
                Move::packed(square_number(s), t, f),
            ) by {
                Move::lemma_packed(si, t, f);
            }
        }
        self.emit(s, doubles, MoveFlag::DoublePush, movelist);
        self.emit_promotions(s, promos, movelist);
        self.emit(s, ep, MoveFlag::EnPassant, movelist);
        proof {
            assert(base + st.kept(dseq) + st.kept(pseq) + st.kept(eseq) =~= base + st.kept(
                self.pawn_extras(si),
            ));
        }
    }

    /// The double push, the promotions and the en passant capture of a pawn
    /// on `s`, in their order.
    pub closed spec fn pawn_extras(&self, s: int) -> Seq<Move> {
        let st = self.state();
        moves_to(s, ascending(st.double_targets(s)), 6) + promotions_from(s, ascending(st.promotion_targets(s)))
            + moves_to(s, ascending(st.ep_targets(s)), 5)
    }

    /// Appends the castling Moves of a king of the side to move on `s`,
    /// those that leave the king safe.
    #[verifier::spinoff_prover]
    fn king_moves<ML: MoveStore<Move>>(&self, s: Square, movelist: &mut ML)
        requires
            self.well_formed(),
            self.state().mover_kind(s as int) == Some(5int),
            old(movelist).room() >= self.state().kept(self.state().castles(s as int)).len(),
        ensures
            final(movelist).moves() == old(movelist).moves() + self.state().kept(self.state().castles(s as int)),
            final(movelist).room() == old(movelist).room() - self.state().kept(self.state().castles(s as int)).len(),
    {
        let ghost st = self.state();
        let ghost si = s as int;
        let ghost base = old(movelist).moves();
        let stm = self.position.side_to_move();
        let (h, a) = match stm {
            Color::White => (Dimension::WhiteH, Dimension::WhiteA),
            Color::Black => (Dimension::BlackH, Dimension::BlackA),
        };
        let ghost hs = if st.castle_allowed(si, h as int) {
            seq![Move::packed(si, st.castling.rooks[h as int], 7)]
        } else {
            Seq::<Move>::empty()
        };
        let ghost as_ = if st.castle_allowed(si, a as int) {
            seq![Move::packed(si, st.castling.rooks[a as int], 8)]
        } else {
            Seq::<Move>::empty()
        };
        proof {
            assert(h as int == 2 * (st.side as int));
            assert(a as int == 2 * (st.side as int) + 1);
            assert(st.castles(si) == hs + as_);
            lemma_kept_concat(st, hs, as_);
            assert(st.kept(Seq::<Move>::empty()) == Seq::<Move>::empty());
            lemma_mover_square(st, si);
            assert(st.at(si) is Some);
        }
        if self.castle_allowed(s, h) {
            let m = Move::new(s, self.position.castling.rook(h), MoveFlag::CastleHSide);
            proof {
                assert(hs =~= seq![m]);
            }
            self.emit_one(m, movelist);
        }
        if self.castle_allowed(s, a) {
            let m = Move::new(s, self.position.castling.rook(a), MoveFlag::CastleASide);
            proof {
                assert(as_ =~= seq![m]);
            }
            self.emit_one(m, movelist);
        }
        proof {
            assert(base + st.kept(hs) + st.kept(as_) =~= base + st.kept(st.castles(si)));
        }
    }

    /// Appends the Moves of the piece of the side to move on `s`, if any, by
    /// the rules of its movement, those that leave the king safe.
    #[verifier::spinoff_prover]
    fn source_moves<ML: MoveStore<Move>>(&self, s: Square, movelist: &mut ML)
        requires
            self.well_formed(),
            old(movelist).room() >= self.state().kept(self.state().candidates(s as int)).len(),
        ensures
            final(movelist).moves() == old(movelist).moves() + self.state().kept(
                self.state().candidates(s as int),
            ),
            final(movelist).room() == old(movelist).room() - self.state().kept(
                self.state().candidates(s as int),
            ).len(),
    {
        let ghost st = self.state();
        let ghost si = s as int;
        let ghost base = old(movelist).moves();
        let stm = self.position.side_to_move();
        let cp = match self.position.at(s) {
            Some(cp) => cp,
            None => {
                proof {
                    assert(base + Seq::<Move>::empty() =~= base);
                }
                return;
            },
        };
        if cp.color() != stm {
            proof {
                assert(st.mover_kind(si) is None);
                assert(base + Seq::<Move>::empty() =~= base);
            }
            return;
        }
        let kind = cp.piece();
        let ghost k = kind as int;
        let plain = self.plain_targets(s, kind);
        let ghost plain_seq = moves_to(si, ascending(st.plain_targets(si, k)), 0);
        let ghost extra = if k == 0 {
            self.pawn_extras(si)
        } else {
            Seq::<Move>::empty()
        };
        let ghost castles = if k == 5 {
            st.castles(si)
        } else {
            Seq::<Move>::empty()
        };
        proof {
            assert(st.mover_kind(si) == Some(k));
            assert(st.candidates(si) == plain_seq + extra + castles);
            lemma_kept_concat(st, plain_seq, extra);
            lemma_kept_concat(st, plain_seq + extra, castles);
            assert(st.kept(Seq::<Move>::empty()) == Seq::<Move>::empty());
            assert forall|t: int| #[trigger] plain@.contains(t) implies st.playable(Move::packed(si, t, 0)) by {
                Move::lemma_packed(si, t, 0);
            }
        }
        self.emit(s, plain, MoveFlag::Normal, movelist);
        if kind == Piece::Pawn {
            self.pawn_moves(s, movelist);
        } else if kind == Piece::King {
            self.king_moves(s, movelist);
        }
        proof {
            assert(base + st.kept(plain_seq) + st.kept(extra) + st.kept(castles) =~= base + st.kept(
                st.candidates(si),
            ));
        }
    }

    /// Appends the legal Moves of the position: for each piece of the side
    /// to move by ascending Square, its Moves by the rules of its movement
    /// that leave the king safe.
    pub fn generate_moves_into<ML: MoveStore<Move>>(&self, movelist: &mut ML)
        requires
            self.well_formed(),
            old(movelist).room() >= self.state().moves().len(),
        ensures
            final(movelist).moves() == old(movelist).moves() + self.state().moves(),
    {
        let ghost st = self.state();
        let ghost srcs = bit_seq(self.friends.0);
        let ghost base = old(movelist).moves();
        proof {
            lemma_bitboard_on_board(self.friends);
            lemma_ascending_exact(self.friends@);
            assert(srcs == ascending(st.colors[st.side as int]));
            assert(srcs.take(0) =~= Seq::<int>::empty());
        }
        let mut rest = self.friends;
        let ghost mut j: int = 0;
        while !rest.is_empty()
            invariant
                rest.on_board(),
                self.well_formed(),
                st == self.state(),
                0 <= j <= srcs.len(),
                bit_seq(rest.0) == srcs.skip(j),
                srcs == ascending(st.colors[st.side as int]),
                movelist.moves() == base + st.generated_from(srcs.take(j)),
                movelist.room() == old(movelist).room() - st.generated_from(srcs.take(j)).len(),
                old(movelist).room() >= st.generated_from(srcs).len(),
            decreases srcs.len() - j,
        {
            let ghost before = bit_seq(rest.0);
            proof {
                lemma_bit_seq_len(rest.0);
                crate::bits::lemma_bits_finite(rest.0);
                vstd::set_lib::lemma_set_empty_equivalency_len(rest@);
            }
            let s = match rest.next() {
                Some(x) => x,
                None => {
                    proof {
                        assert(false);
                    }
                    return;
                },
            };
            proof {
                assert(before.len() > 0);
                assert(s as int == srcs[j]);
                assert(srcs.take(j + 1).drop_last() =~= srcs.take(j));
                assert(srcs.take(j + 1).last() == srcs[j]);
                lemma_generated_prefix(st, srcs, j + 1);
            }
            self.source_moves(s, movelist);
            proof {
                assert(base + st.generated_from(srcs.take(j)) + st.kept(st.candidates(s as int)) =~= base
                    + st.generated_from(srcs.take(j + 1)));
                j = j + 1;
                assert(bit_seq(rest.0) =~= srcs.skip(j));
            }
        }
        proof {
            lemma_bit_seq_empty(rest.0);
            assert(srcs.take(j) =~= srcs);
        }
    }
}

/// Four promotions for each target.
proof fn lemma_promotions_len(s: int, ts: Seq<int>)
    ensures
        promotions_from(s, ts).len() == 4 * ts.len(),
    decreases ts.len(),
{
    if ts.len() > 0 {
        lemma_promotions_len(s, ts.drop_last());
    }
}

/// A piece has at most 450 Moves by the rules of its movement.
proof fn lemma_candidates_len(st: ChessState, s: int)
    ensures
        st.candidates(s).len() <= 450,
{
    if let Some(k) = st.mover_kind(s) {
        lemma_ascending_len(st.plain_targets(s, k), 0);
        lemma_ascending_len(st.double_targets(s), 0);
        lemma_ascending_len(st.promotion_targets(s), 0);
        lemma_ascending_len(st.ep_targets(s), 0);
        lemma_promotions_len(s, ascending(st.promotion_targets(s)));
    }
}

/// The kept Moves of the pieces on the given Squares number at most 450
/// for each.
proof fn lemma_generated_len(st: ChessState, srcs: Seq<int>)
    ensures
        st.generated_from(srcs).len() <= 450 * srcs.len(),
    decreases srcs.len(),
{
    if srcs.len() > 0 {
        lemma_generated_len(st, srcs.drop_last());
        lemma_candidates_len(st, srcs.last());
        lemma_kept(st, st.candidates(srcs.last()));
    }
}

/// A position has at most 28800 generated Moves.
pub proof fn lemma_moves_len(st: ChessState)
    ensures
        st.moves().len() <= 28800,
{
    lemma_ascending_len(st.colors[st.side as int], 0);
    lemma_generated_len(st, ascending(st.colors[st.side as int]));
}

impl Position {
    /// Appends the legal Moves of the Position to the given movelist.
    pub fn generate_moves_into<ML: MoveStore<Move>>(&self, movelist: &mut ML)
        requires
            old(movelist).room() >= self@.moves().len(),
        ensures
            final(movelist).moves() == old(movelist).moves() + self@.moves(),
    {
        let info = MoveGenerationInfo::new(self);
        info.generate_moves_into(movelist);
    }

    /// Collects the legal Moves of the Position into a new list.
    pub fn generate_moves(&self) -> (r: Vec<Move>)
        ensures
            r@ == self@.moves(),
    {
        let mut movelist: Vec<Move> = Vec::new();
        proof {
            lemma_moves_len(self@);
        }
        self.generate_moves_into(&mut movelist);
        proof {
            assert(Seq::<Move>::empty() + self@.moves() =~= self@.moves());
        }
        movelist
    }

    /// The number of legal Moves of the Position.
    pub fn count_moves(&self) -> (r: usize)
        ensures
            r == self@.moves().len(),
    {
        self.generate_moves().len()
    }
}

impl PositionType for Position {
    type Move = Move;
    type Color = Color;

    const STARTPOS: &'static str = Position::STARTPOS;

    open spec fn generated(&self) -> Seq<Move> {
        self@.moves()
    }

    open spec fn generable(&self) -> bool {
        true
    }

    open spec fn over(&self) -> bool {
        false
    }

    open spec fn outcome_known(&self) -> bool {
        true
    }

    open spec fn outcome(&self) -> Option<Option<Color>> {
        None
    }

    open spec fn playable_move(&self, m: Move) -> bool {
        &&& self@.playable(m)
        &&& self.half_move_clock < u8::MAX
    }

    open spec fn plays_to(&self, m: Move, next: Position) -> bool {
        &&& next@ == self@.play(m)
        &&& next.checksum == self.checksum
        &&& next.ply_count == self.ply_count
    }

    open spec fn plies(&self) -> nat {
        self.ply_count as nat
    }

    open spec fn checksum_of(&self) -> crate::interface::hash::Hash {
        self.checksum
    }

    fn ply_count(&self) -> (r: usize) {
        Position::ply_count(self)
    }

    fn hash(&self) -> (r: crate::interface::hash::Hash) {
        Position::hash(self)
    }

    fn winner(&self) -> (r: Option<Option<Color>>) {
        Position::winner(self)
    }

    fn is_game_over(&self) -> (r: bool) {
        Position::is_game_over(self)
    }

    fn after_move<const UPDATE_PERIPHERALS: bool>(&self, m: Move) -> (r: Position) {
        Position::after_move::<UPDATE_PERIPHERALS>(self, m)
    }

    fn generate_moves_into<const ALLOW_ILLEGAL: bool, const QUIET: bool, const NOISY: bool, T: MoveStore<Move>>(
        &self,
        movelist: &mut T,
    ) {
        Position::generate_moves_into(self, movelist)
    }

    fn generate_moves<const ALLOW_ILLEGAL: bool, const QUIET: bool, const NOISY: bool>(&self) -> (r: Vec<Move>) {
        Position::generate_moves(self)
    }

    fn count_moves<const QUIET: bool, const NOISY: bool>(&self) -> (r: usize) {
        Position::count_moves(self)
    }
}

/// The members of two sequences one after the other.
pub proof fn lemma_concat_contains<A>(a: Seq<A>, b: Seq<A>, m: A)
    ensures
        (a + b).contains(m) <==> a.contains(m) || b.contains(m),
{
    if a.contains(m) {
        let i = choose|i: int| 0 <= i < a.len() && a[i] == m;
        assert((a + b)[i] == m);
    }
    if b.contains(m) {
        let i = choose|i: int| 0 <= i < b.len() && b[i] == m;
        assert((a + b)[a.len() + i] == m);
    }
    if (a + b).contains(m) {
        let i = choose|i: int| 0 <= i < (a + b).len() && (a + b)[i] == m;
        if i < a.len() {
            assert(a[i] == m);
        } else {
            assert(b[i - a.len()] == m);
        }
    }
}

/// Two sequences without a common member and without repeats make one
/// without repeats.
proof fn lemma_concat_distinct<A>(a: Seq<A>, b: Seq<A>)
    requires
        a.no_duplicates(),
        b.no_duplicates(),
        forall|m: A| a.contains(m) ==> !b.contains(m),
    ensures
        (a + b).no_duplicates(),
{
    assert forall|i: int, j: int| 0 <= i < a.len() && 0 <= j < b.len() implies a[i] != b[j] by {
        assert(a.contains(a[i]));
        assert(b.contains(b[j]));
    }
    vstd::seq_lib::lemma_no_dup_in_concat(a, b);
}

/// The Sets of targets of a piece lie on the board.
proof fn lemma_targets_on_board(st: ChessState, s: int, k: int)
    ensures
        st.plain_targets(s, k).subset_of(below(64)),
        st.double_targets(s).subset_of(below(64)),
        st.promotion_targets(s).subset_of(below(64)),
        st.ep_targets(s).subset_of(below(64)),
{
}

/// The Moves by the rules of movement from `s` are exactly those from `s`
/// that follow the rules, each once.
pub proof fn lemma_candidates(st: ChessState, s: int)
    requires
        0 <= s < 64,
        st.colors[st.side as int].subset_of(below(64)),
    ensures
        forall|m: Move| #[trigger]
            st.candidates(s).contains(m) ==> m.source_index() == s && st.obeys_rules(m),
        forall|m: Move|
            m.source_index() == s && #[trigger] st.obeys_rules(m) ==> st.candidates(s).contains(m),
        st.candidates(s).no_duplicates(),
{
    if let Some(k) = st.mover_kind(s) {
        lemma_targets_on_board(st, s, k);
        let p0 = st.plain_targets(s, k);
        let dd = st.double_targets(s);
        let pr = st.promotion_targets(s);
        let ee = st.ep_targets(s);
        lemma_ascending_exact(p0);
        lemma_ascending_exact(dd);
        lemma_ascending_exact(pr);
        lemma_ascending_exact(ee);
        let a = moves_to(s, ascending(p0), 0);
        let b = moves_to(s, ascending(dd), 6);
        let c = promotions_from(s, ascending(pr));
        let e = moves_to(s, ascending(ee), 5);
        lemma_moves_to(s, ascending(p0), 0);
        lemma_moves_to(s, ascending(dd), 6);
        lemma_promotions_from(s, ascending(pr));
        lemma_moves_to(s, ascending(ee), 5);
        let h = 2 * (st.side as int);
        let hs = if st.castle_allowed(s, h) {
            seq![Move::packed(s, st.castling.rooks[h], 7)]
        } else {
            Seq::<Move>::empty()
        };
        let as_ = if st.castle_allowed(s, h + 1) {
            seq![Move::packed(s, st.castling.rooks[h + 1], 8)]
        } else {
            Seq::<Move>::empty()
        };
        if st.castle_allowed(s, h) {
            Move::lemma_packed(s, st.castling.rooks[h], 7);
        }
        if st.castle_allowed(s, h + 1) {
            Move::lemma_packed(s, st.castling.rooks[h + 1], 8);
        }
        assert forall|m: Move| #[trigger] hs.contains(m) implies m == Move::packed(s, st.castling.rooks[h], 7)
            && st.castle_allowed(s, h) by {
            let i = choose|i: int| 0 <= i < hs.len() && hs[i] == m;
        }
        assert forall|m: Move| #[trigger] as_.contains(m) implies m == Move::packed(
            s,
            st.castling.rooks[h + 1],
            8,
        ) && st.castle_allowed(s, h + 1) by {
            let i = choose|i: int| 0 <= i < as_.len() && as_[i] == m;
        }
        let extra = if k == 0 {
            b + c + e
        } else {
            Seq::<Move>::empty()
        };
        let cs = if k == 5 {
            hs + as_
        } else {
            Seq::<Move>::empty()
        };
        assert(st.castles(s) == hs + as_);
        let all = st.candidates(s);
        assert(all == a + extra + cs);
        assert forall|m: Move| #[trigger] all.contains(m) implies m.source_index() == s && st.obeys_rules(m) by {
            lemma_concat_contains(a + extra, cs, m);
            lemma_concat_contains(a, extra, m);
            if a.contains(m) {
            } else if extra.contains(m) {
                lemma_concat_contains(b + c, e, m);
                lemma_concat_contains(b, c, m);
            } else {
                lemma_concat_contains(hs, as_, m);
            }
        }
        assert forall|m: Move| m.source_index() == s && #[trigger] st.obeys_rules(m) implies all.contains(m) by {
            Move::lemma_fields(m);
            let t = m.target_index();
            let f = m.flag_index();
            lemma_concat_contains(a + extra, cs, m);
            lemma_concat_contains(a, extra, m);
            lemma_concat_contains(b + c, e, m);
            lemma_concat_contains(b, c, m);
            lemma_concat_contains(hs, as_, m);
            if f == 0 && p0.contains(t) {
                assert(ascending(p0).contains(t));
            } else if k == 0 && f == 6 && dd.contains(t) {
                assert(ascending(dd).contains(t));
            } else if k == 0 && 1 <= f <= 4 && pr.contains(t) {
                assert(ascending(pr).contains(t));
                assert(c.contains(Move::packed(s, t, f)));
            } else if k == 0 && f == 5 && ee.contains(t) {
                assert(ascending(ee).contains(t));
            } else {
                if f == 7 {
                    assert(hs[0] == m);
                } else {
                    assert(as_[0] == m);
                }
            }
        }
        // No Move twice.
        assert(hs.no_duplicates());
        assert(as_.no_duplicates());
        lemma_concat_distinct(hs, as_);
        if k == 0 {
            lemma_concat_distinct(b, c);
            assert forall|m: Move| (b + c).contains(m) implies !e.contains(m) by {
                lemma_concat_contains(b, c, m);
            }
            lemma_concat_distinct(b + c, e);
            assert forall|m: Move| a.contains(m) implies !extra.contains(m) by {
                lemma_concat_contains(b + c, e, m);
                lemma_concat_contains(b, c, m);
            }
        }
        assert(extra.no_duplicates());
        lemma_concat_distinct(a, extra);
        assert forall|m: Move| (a + extra).contains(m) implies !cs.contains(m) by {
            lemma_concat_contains(a, extra, m);
            lemma_concat_contains(hs, as_, m);
            lemma_concat_contains(b + c, e, m);
            lemma_concat_contains(b, c, m);
        }
        assert(cs.no_duplicates());
        lemma_concat_distinct(a + extra, cs);
    }
}

/// The generated Moves of the pieces on the given Squares are exactly the
/// legal Moves from those Squares, each once.
pub proof fn lemma_generated(st: ChessState, srcs: Seq<int>)
    requires
        forall|k: int| 0 <= k < srcs.len() ==> 0 <= #[trigger] srcs[k] < 64,
        st.colors[st.side as int].subset_of(below(64)),
    ensures
        forall|m: Move| #[trigger]
            st.generated_from(srcs).contains(m) ==> srcs.contains(m.source_index()) && st.legal(m),
        forall|m: Move|
            srcs.contains(m.source_index()) && #[trigger] st.legal(m) ==> st.generated_from(srcs).contains(m),
        srcs.no_duplicates() ==> st.generated_from(srcs).no_duplicates(),
    decreases srcs.len(),
{
    if srcs.len() == 0 {
        assert forall|m: Move| !st.generated_from(srcs).contains(m) && !srcs.contains(m.source_index()) by {}
    } else {
        let dl = srcs.drop_last();
        let x = srcs.last();
        assert(srcs[srcs.len() - 1] == x);
        lemma_generated(st, dl);
        lemma_candidates(st, x);
        lemma_kept(st, st.candidates(x));
        let pre = st.generated_from(dl);
        let blk = st.kept(st.candidates(x));
        assert(st.generated_from(srcs) == pre + blk);
        assert forall|u: int| #[trigger] srcs.contains(u) <==> dl.contains(u) || u == x by {
            assert(srcs =~= dl.push(x));
            lemma_push_contains(dl, x, u);
        }
        assert forall|m: Move| #[trigger] st.generated_from(srcs).contains(m) implies srcs.contains(
            m.source_index(),
        ) && st.legal(m) by {
            lemma_concat_contains(pre, blk, m);
        }
        assert forall|m: Move| srcs.contains(m.source_index()) && #[trigger] st.legal(m) implies st.generated_from(
            srcs,
        ).contains(m) by {
            lemma_concat_contains(pre, blk, m);
        }
        if srcs.no_duplicates() {
            assert(dl.no_duplicates());
            assert(!dl.contains(x)) by {
                if dl.contains(x) {
                    let i = choose|i: int| 0 <= i < dl.len() && dl[i] == x;
                    assert(srcs[i] == srcs[srcs.len() - 1]);
                }
            }
            lemma_candidates(st, x);
            assert forall|m: Move| pre.contains(m) implies !blk.contains(m) by {}
            lemma_concat_distinct(pre, blk);
        }
    }
}

} // verus!
