//! Ataxx move generation and counting.
use vstd::prelude::*;
use core::ops::Not;
use crate::bits::{below, lemma_bits_finite};
use crate::interface::bitboard::{ascending, bit_seq, lemma_ascending_len, lemma_bit_seq_empty, lemma_bit_seq_len};
use crate::interface::{MoveStore, PositionType};
use super::board::BitBoard;
use super::moves::{ring, zone, Move};
use super::piece::{Color, ColoredPiece};
use super::position::{jumps, Position, State};

verus! {

/// The jump Moves of a prefix of the sources come first.
pub proof fn lemma_jumps_prefix(sources: Seq<int>, free: Set<int>, j: int)
    requires
        0 <= j <= sources.len(),
    ensures
        jumps(sources.take(j), free).len() <= jumps(sources, free).len(),
    decreases sources.len(),
{
    if j < sources.len() {
        assert(sources.drop_last().take(j) =~= sources.take(j));
        lemma_jumps_prefix(sources.drop_last(), free, j);
    } else {
        assert(sources.take(j) =~= sources);
    }
}

/// Each source adds at most 64 jump Moves.
pub proof fn lemma_jumps_len(sources: Seq<int>, free: Set<int>)
    ensures
        jumps(sources, free).len() <= 64 * sources.len(),
    decreases sources.len(),
{
    if sources.len() > 0 {
        lemma_jumps_len(sources.drop_last(), free);
        lemma_ascending_len(ring(sources.last(), 2).intersect(free), 0);
    }
}

/// A position has at most 64 * 65 Moves.
pub proof fn lemma_moves_len(st: State)
    ensures
        st.moves().len() <= 64 * 65,
{
    lemma_ascending_len(zone(st.stones(st.side)).intersect(st.free()), 0);
    lemma_ascending_len(st.stones(st.side), 0);
    lemma_jumps_len(ascending(st.stones(st.side)), st.free());
}

impl Position {
    /// The free Squares, as the generator computes them.
    fn allowed(&self) -> (r: BitBoard)
        ensures
            r@ == self@.free(),
            r.on_board(),
    {
        let stm = self.color_bb(self.side_to_move);
        let xtm = self.color_bb(self.side_to_move.not());
        let gap = self.colored_piece_bb(ColoredPiece::Block);
        let r = stm.union(xtm).union(gap).complement();
        assert(r@ =~= self@.free());
        r
    }

    /// generate_moves_into generates all the legal moves in the current
    /// Position and appends them to the given movelist: none when the game is
    /// over, else the singular Moves by ascending target, then the jump Moves
    /// by ascending source and target, or the pass Move when there is no
    /// other.
    pub fn generate_moves_into<T: MoveStore<Move>>(&self, movelist: &mut T)
        requires
            self@.on_board(),
            old(movelist).room() >= self@.moves().len(),
        ensures
            final(movelist).moves() == old(movelist).moves() + self@.moves(),
    {
        if self.is_game_over() {
            return;
        }
        let ghost st = self@;
        let ghost base = old(movelist).moves();
        let ghost total = st.single_moves().len() + st.jump_moves().len();
        proof {
            assert(total <= st.moves().len());
        }
        let start = movelist.len();
        let stm = self.color_bb(self.side_to_move);
        let allowed = self.allowed();

        // Singular moves.
        let mut targets = BitBoard::singles(stm).intersection(allowed);
        let ghost all_t = bit_seq(targets.0);
        proof {
            assert(targets@ =~= zone(st.stones(st.side)).intersect(st.free()));
            assert(all_t == ascending(zone(st.stones(st.side)).intersect(st.free())));
            assert(all_t.map_values(|t: int| Move::packed(t, t)) == st.single_moves());
        }
        let ghost mut k: int = 0;
        while !targets.is_empty()
            invariant
                targets.on_board(),
                0 <= k <= all_t.len(),
                bit_seq(targets.0) == all_t.skip(k),
                movelist.moves() == base + all_t.take(k).map_values(|t: int| Move::packed(t, t)),
                movelist.room() == old(movelist).room() - k,
                old(movelist).room() >= total,
                total == all_t.len() + st.jump_moves().len(),
            decreases all_t.len() - k,
        {
            let ghost before = bit_seq(targets.0);
            proof {
                lemma_bit_seq_len(targets.0);
                lemma_bits_finite(targets.0);
                vstd::set_lib::lemma_set_empty_equivalency_len(targets@);
            }
            let target = match targets.next() {
                Some(t) => t,
                None => {
                    proof {
                        assert(false);
                    }
                    return;
                },
            };
            proof {
                assert(before.len() > 0);
                assert(target as int == all_t[k]);
            }
            movelist.push(Move::new_single(target));
            proof {
                assert(all_t.take(k + 1).map_values(|t: int| Move::packed(t, t)) =~= all_t.take(
                    k,
                ).map_values(|t: int| Move::packed(t, t)).push(Move::packed(all_t[k], all_t[k])));
                k = k + 1;
                assert(bit_seq(targets.0) =~= all_t.skip(k));
            }
        }
        proof {
            lemma_bit_seq_empty(targets.0);
            assert(k == all_t.len());
            assert(all_t.take(k) =~= all_t);
        }

        // Jump moves.
        let mut pieces = stm;
        let ghost ps = bit_seq(stm.0);
        let ghost mid = movelist.moves();
        let ghost mut j: int = 0;
        proof {
            assert(ps == ascending(st.stones(st.side)));
            assert(ps.take(0) =~= Seq::<int>::empty());
            assert(mid + jumps(ps.take(0), st.free()) =~= mid);
        }
        while !pieces.is_empty()
            invariant
                pieces.on_board(),
                0 <= j <= ps.len(),
                bit_seq(pieces.0) == ps.skip(j),
                ps == ascending(st.stones(st.side)),
                st == self@,
                allowed@ == st.free(),
                allowed.on_board(),
                mid == base + st.single_moves(),
                movelist.moves() == mid + jumps(ps.take(j), st.free()),
                movelist.room() == old(movelist).room() - st.single_moves().len() - jumps(
                    ps.take(j),
                    st.free(),
                ).len(),
                old(movelist).room() >= total,
                total == st.single_moves().len() + jumps(ps, st.free()).len(),
            decreases ps.len() - j,
        {
            let ghost before = bit_seq(pieces.0);
            proof {
                lemma_bit_seq_len(pieces.0);
                lemma_bits_finite(pieces.0);
                vstd::set_lib::lemma_set_empty_equivalency_len(pieces@);
            }
            let piece = match pieces.next() {
                Some(p) => p,
                None => {
                    proof {
                        assert(false);
                    }
                    return;
                },
            };
            proof {
                assert(before.len() > 0);
                assert(piece as int == ps[j]);
            }
            let mut double = BitBoard::double(piece).intersection(allowed);
            let ghost dt = bit_seq(double.0);
            let ghost inner = movelist.moves();
            let ghost mut q: int = 0;
            proof {
                assert(double@ =~= ring(piece as int, 2).intersect(st.free()));
                assert(ps.take(j + 1).drop_last() =~= ps.take(j));
                assert(ps.take(j + 1).last() == ps[j]);
                assert(jumps(ps.take(j + 1), st.free()) == jumps(ps.take(j), st.free()) + dt.map_values(
                    |t: int| Move::packed(piece as int, t),
                ));
                lemma_jumps_prefix(ps, st.free(), j + 1);
            }
            while !double.is_empty()
                invariant
                    double.on_board(),
                    0 <= q <= dt.len(),
                    bit_seq(double.0) == dt.skip(q),
                    movelist.moves() == inner + dt.take(q).map_values(
                        |t: int| Move::packed(piece as int, t),
                    ),
                    movelist.room() + q == old(movelist).room() - st.single_moves().len() - jumps(
                        ps.take(j),
                        st.free(),
                    ).len(),
                    old(movelist).room() >= total,
                    total >= st.single_moves().len() + jumps(ps.take(j), st.free()).len() + dt.len(),
                decreases dt.len() - q,
            {
                let ghost before_t = bit_seq(double.0);
                proof {
                    lemma_bit_seq_len(double.0);
                    lemma_bits_finite(double.0);
                    vstd::set_lib::lemma_set_empty_equivalency_len(double@);
                }
                let target = match double.next() {
                    Some(t) => t,
                    None => {
                        proof {
                            assert(false);
                        }
                        return;
                    },
                };
                proof {
                    assert(before_t.len() > 0);
                    assert(target as int == dt[q]);
                }
                movelist.push(Move::new(piece, target));
                proof {
                    assert(dt.take(q + 1).map_values(|t: int| Move::packed(piece as int, t))
                        =~= dt.take(q).map_values(|t: int| Move::packed(piece as int, t)).push(
                        Move::packed(piece as int, dt[q]),
                    ));
                    q = q + 1;
                    assert(bit_seq(double.0) =~= dt.skip(q));
                }
            }
            proof {
                lemma_bit_seq_empty(double.0);
                assert(dt.take(q) =~= dt);
                j = j + 1;
                assert(bit_seq(pieces.0) =~= ps.skip(j));
            }
        }
        proof {
            lemma_bit_seq_empty(pieces.0);
            assert(ps.take(j) =~= ps);
        }

        // If there are no legal moves possible on the Position and the game
        // isn't over, a pass move is the only move possible to be played.
        if movelist.len() == start {
            movelist.push(Move::pass());
        }
        proof {
            assert(base + (st.single_moves() + st.jump_moves()) =~= base + st.single_moves()
                + st.jump_moves());
        }
    }

    /// `generate_moves` collects the Moves of the Position into a new list.
    pub fn generate_moves(&self) -> (r: Vec<Move>)
        requires
            self@.on_board(),
        ensures
            r@ == self@.moves(),
    {
        let mut movelist: Vec<Move> = Vec::new();
        proof {
            lemma_moves_len(self@);
        }
        self.generate_moves_into(&mut movelist);
        proof {
            assert(Seq::<Move>::empty() + self@.moves() =~= self@.moves());
        }
        movelist
    }

    /// count_moves returns the number of legal moves in the current Position,
    /// without building the list.
    pub fn count_moves(&self) -> (r: usize)
        requires
            self@.on_board(),
        ensures
            r == self@.moves().len(),
    {
        if self.is_game_over() {
            return 0;
        }
        let ghost st = self@;
        let stm = self.color_bb(self.side_to_move);
        let allowed = self.allowed();
        let single = BitBoard::singles(stm).intersection(allowed);
        let mut moves: usize = single.len();
        proof {
            lemma_bit_seq_len(single.0);
            assert(single@ =~= zone(st.stones(st.side)).intersect(st.free()));
            assert(moves == st.single_moves().len());
            lemma_bits_finite(single.0);
        }
        let mut pieces = stm;
        let ghost ps = bit_seq(stm.0);
        let ghost mut j: int = 0;
        proof {
            assert(ps.take(0) =~= Seq::<int>::empty());
            lemma_bit_seq_len(stm.0);
            lemma_bits_finite(stm.0);
        }
        while !pieces.is_empty()
            invariant
                pieces.on_board(),
                0 <= j <= ps.len(),
                ps.len() <= 64,
                bit_seq(pieces.0) == ps.skip(j),
                ps == ascending(st.stones(st.side)),
                st == self@,
                allowed@ == st.free(),
                allowed.on_board(),
                moves == st.single_moves().len() + jumps(ps.take(j), st.free()).len(),
                moves <= 64 + 64 * j,
            decreases ps.len() - j,
        {
            let ghost before = bit_seq(pieces.0);
            proof {
                lemma_bit_seq_len(pieces.0);
                lemma_bits_finite(pieces.0);
                vstd::set_lib::lemma_set_empty_equivalency_len(pieces@);
            }
            let piece = match pieces.next() {
                Some(p) => p,
                None => {
                    proof {
                        assert(false);
                    }
                    return 0;
                },
            };
            proof {
                assert(before.len() > 0);
                assert(piece as int == ps[j]);
            }
            let double = BitBoard::double(piece).intersection(allowed);
            proof {
                lemma_bit_seq_len(double.0);
                lemma_bits_finite(double.0);
                assert(double@ =~= ring(piece as int, 2).intersect(st.free()));
                assert(ps.take(j + 1).drop_last() =~= ps.take(j));
                assert(ps.take(j + 1).last() == ps[j]);
            }
            moves = moves + double.len();
            proof {
                j = j + 1;
                assert(bit_seq(pieces.0) =~= ps.skip(j));
            }
        }
        proof {
            lemma_bit_seq_empty(pieces.0);
            assert(ps.take(j) =~= ps);
        }
        if moves == 0 {
            return 1;
        }
        moves
    }
}

impl PositionType for Position {
    type Move = Move;
    type Color = Color;

    const STARTPOS: &'static str = Position::STARTPOS;

    open spec fn generated(&self) -> Seq<Move> {
        self@.moves()
    }

    open spec fn generable(&self) -> bool {
        self@.on_board()
    }

    open spec fn over(&self) -> bool {
        self@.game_over()
    }

    open spec fn outcome_known(&self) -> bool {
        true
    }

    open spec fn outcome(&self) -> Option<Option<Color>> {
        self@.winner()
    }

    open spec fn playable_move(&self, m: Move) -> bool {
        &&& m.on_board()
        &&& self.ply_count < u16::MAX
        &&& m == Move::pass_move() || m.source_index() != m.target_index() ==> self.half_move_clock < u8::MAX
    }

    open spec fn plays_to(&self, m: Move, next: Position) -> bool {
        next@ == self@.play(m)
    }

    open spec fn plies(&self) -> nat {
        self.ply_count as nat
    }

    open spec fn checksum_of(&self) -> crate::interface::hash::Hash {
        self.checksum
    }

    fn ply_count(&self) -> (r: usize) {
        Position::ply_count(self)
    }

    fn hash(&self) -> (r: crate::interface::hash::Hash) {
        Position::hash(self)
    }

    fn winner(&self) -> (r: Option<Option<Color>>) {
        Position::winner(self)
    }

    fn is_game_over(&self) -> (r: bool) {
        Position::is_game_over(self)
    }

    fn after_move<const UPDATE_PERIPHERALS: bool>(&self, m: Move) -> (r: Position) {
        Position::after_move::<UPDATE_PERIPHERALS>(self, m)
    }

    fn generate_moves_into<const ALLOW_ILLEGAL: bool, const QUIET: bool, const NOISY: bool, T: MoveStore<Move>>(
        &self,
        movelist: &mut T,
    ) {
        Position::generate_moves_into(self, movelist)
    }

    fn generate_moves<const ALLOW_ILLEGAL: bool, const QUIET: bool, const NOISY: bool>(&self) -> (r: Vec<Move>) {
        Position::generate_moves(self)
    }

    fn count_moves<const QUIET: bool, const NOISY: bool>(&self) -> (r: usize) {
        Position::count_moves(self)
    }
}

} // verus!
