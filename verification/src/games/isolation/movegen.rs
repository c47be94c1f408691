//! Isolation move generation and counting, and perft.
use vstd::prelude::*;
use core::ops::Not;
use crate::bits::{below, lemma_bits_finite};
use crate::interface::bitboard::{ascending, bit_seq, lemma_ascending_exact, lemma_bit_seq_empty, lemma_bit_seq_len};
use crate::interface::{MoveStore, PositionType};
use super::board::BitBoard;
use super::moves::{zone, Move};
use super::piece::{Color, ColoredPiece};
use super::position::{tile_moves, Position, State};

verus! {

/// Each target adds one Move for each allowed tile but its own Square.
pub proof fn lemma_tile_moves_len(targets: Seq<int>, allowed: Set<int>)
    requires
        allowed.subset_of(below(48)),
        forall|k: int| 0 <= k < targets.len() ==> allowed.contains(#[trigger] targets[k]),
    ensures
        tile_moves(targets, allowed).len() == targets.len() * (allowed.len() - 1),
        forall|k: int| 0 <= k < tile_moves(targets, allowed).len() ==> (#[trigger] tile_moves(
            targets,
            allowed,
        )[k]).on_board(),
    decreases targets.len(),
{
    if targets.len() > 0 {
        let t = targets.last();
        let rest = targets.drop_last();
        lemma_tile_moves_len(rest, allowed);
        lemma_ascending_exact(allowed);
        lemma_ascending_exact(allowed.remove(t));
        assert(allowed.contains(targets[targets.len() - 1]));
        assert(allowed.remove(t).len() == allowed.len() - 1);
        let tail = ascending(allowed.remove(t)).map_values(|x: int| Move::packed(t, x));
        let n = rest.len() as int;
        let a = allowed.len() as int;
        assert(n * (a - 1) + (a - 1) == (n + 1) * (a - 1)) by (nonlinear_arith);
        let whole = tile_moves(targets, allowed);
        let pre = tile_moves(rest, allowed);
        assert forall|k: int| 0 <= k < whole.len() implies (#[trigger] whole[k]).on_board() by {
            if k >= pre.len() {
                let x = ascending(allowed.remove(t))[k - pre.len()];
                assert(allowed.remove(t).contains(x));
                Move::lemma_packed(t, x);
                assert(whole[k] == tail[k - pre.len()]);
            } else {
                assert(whole[k] == pre[k]);
            }
        }
    }
}

/// The number of Moves of a position on the board: the targets times the
/// allowed tiles but one.
pub proof fn lemma_moves_len(st: State)
    requires
        st.on_board(),
    ensures
        st.allowed().finite(),
        st.targets().finite(),
        st.targets().subset_of(st.allowed()),
        st.moves().len() == st.targets().len() * (st.allowed().len() - 1),
        forall|k: int| 0 <= k < st.moves().len() ==> (#[trigger] st.moves()[k]).on_board(),
{
    lemma_ascending_exact(st.allowed());
    lemma_ascending_exact(st.targets());
    lemma_tile_moves_len(ascending(st.targets()), st.allowed());
}

/// Playing a Move of the board keeps every piece on the board.
pub proof fn lemma_play_on_board(st: State, m: Move)
    requires
        st.on_board(),
        m.on_board(),
    ensures
        st.play(m).on_board(),
{
}

impl Position {
    /// The tiles a Move may use, as the generator computes them.
    fn allowed(&self) -> (r: BitBoard)
        requires
            self@.on_board(),
        ensures
            r@ == self@.allowed(),
            r.on_board(),
    {
        let xtm = self.color_bb(self.side_to_move.not());
        let tiles = self.colored_piece_bb(ColoredPiece::Tile);
        let r = tiles.difference(xtm);
        assert(r@ =~= self@.allowed());
        r
    }

    /// The Squares the pawn to move may step to, as the generator computes
    /// them.
    fn targets(&self, allowed: BitBoard) -> (r: BitBoard)
        requires
            self@.on_board(),
            allowed@ == self@.allowed(),
        ensures
            r@ == self@.targets(),
            r.on_board(),
    {
        let stm = self.color_bb(self.side_to_move);
        let r = BitBoard::singles(stm).intersection(allowed);
        assert(r@ =~= self@.targets());
        r
    }

    /// generate_moves_into appends the legal Moves of the Position to the
    /// given movelist: for each target of the pawn to move by ascending
    /// Square, one Move for each other allowed tile by ascending Square.
    pub fn generate_moves_into<T: MoveStore<Move>>(&self, movelist: &mut T)
        requires
            self@.on_board(),
            old(movelist).room() >= self@.moves().len(),
        ensures
            final(movelist).moves() == old(movelist).moves() + self@.moves(),
    {
        let ghost st = self@;
        let ghost base = old(movelist).moves();
        let allowed = self.allowed();
        let mut targets = self.targets(allowed);
        let ghost ts = bit_seq(targets.0);
        let ghost mut j: int = 0;
        proof {
            assert(ts == ascending(st.targets()));
            assert(ts.take(0) =~= Seq::<int>::empty());
            assert(base + tile_moves(ts.take(0), st.allowed()) =~= base);
            lemma_moves_len(st);
            lemma_ascending_exact(st.targets());
        }
        while !targets.is_empty()
            invariant
                targets.on_board(),
                allowed@ == st.allowed(),
                allowed.on_board(),
                st == self@,
                st.on_board(),
                0 <= j <= ts.len(),
                ts == ascending(st.targets()),
                forall|k: int| 0 <= k < ts.len() ==> st.allowed().contains(#[trigger] ts[k]),
                bit_seq(targets.0) == ts.skip(j),
                movelist.moves() == base + tile_moves(ts.take(j), st.allowed()),
                movelist.room() == old(movelist).room() - tile_moves(ts.take(j), st.allowed()).len(),
                old(movelist).room() >= st.moves().len(),
                st.moves() == tile_moves(ts, st.allowed()),
            decreases ts.len() - j,
        {
            let ghost before = bit_seq(targets.0);
            proof {
                lemma_bit_seq_len(targets.0);
                lemma_bits_finite(targets.0);
                vstd::set_lib::lemma_set_empty_equivalency_len(targets@);
            }
            let target = match targets.next() {
                Some(t) => t,
                None => {
                    proof {
                        assert(false);
                    }
                    return;
                },
            };
            proof {
                assert(before.len() > 0);
                assert(target as int == ts[j]);
            }
            let mut tiles = allowed.symmetric_difference(BitBoard::from_square(target));
            let ghost xs = bit_seq(tiles.0);
            let ghost inner = movelist.moves();
            let ghost mut q: int = 0;
            proof {
                assert(tiles@ =~= st.allowed().remove(target as int));
                assert(ts.take(j + 1).drop_last() =~= ts.take(j));
                assert(ts.take(j + 1).last() == ts[j]);
                assert(tile_moves(ts.take(j + 1), st.allowed()) == tile_moves(ts.take(j), st.allowed())
                    + xs.map_values(|x: int| Move::packed(target as int, x)));
                lemma_tile_moves_len(ts.take(j + 1), st.allowed());
                lemma_tile_moves_len(ts, st.allowed());
                lemma_ascending_exact(st.allowed());
                assert(ts.take(j + 1).len() <= ts.len());
                assert(ts.take(j + 1).len() * (st.allowed().len() - 1) <= ts.len() * (st.allowed().len() - 1)) by (nonlinear_arith)
                    requires
                        ts.take(j + 1).len() <= ts.len(),
                        st.allowed().len() >= 1,
                ;
            }
            while !tiles.is_empty()
                invariant
                    tiles.on_board(),
                    0 <= q <= xs.len(),
                    bit_seq(tiles.0) == xs.skip(q),
                    movelist.moves() == inner + xs.take(q).map_values(
                        |x: int| Move::packed(target as int, x),
                    ),
                    movelist.room() + q == old(movelist).room() - tile_moves(ts.take(j), st.allowed()).len(),
                    old(movelist).room() >= tile_moves(ts.take(j), st.allowed()).len() + xs.len(),
                decreases xs.len() - q,
            {
                let ghost before_x = bit_seq(tiles.0);
                proof {
                    lemma_bit_seq_len(tiles.0);
                    lemma_bits_finite(tiles.0);
                    vstd::set_lib::lemma_set_empty_equivalency_len(tiles@);
                }
                let tile = match tiles.next() {
                    Some(x) => x,
                    None => {
                        proof {
                            assert(false);
                        }
                        return;
                    },
                };
                proof {
                    assert(before_x.len() > 0);
                    assert(tile as int == xs[q]);
                }
                movelist.push(Move::new(target, tile));
                proof {
                    assert(xs.take(q + 1).map_values(|x: int| Move::packed(target as int, x))
                        =~= xs.take(q).map_values(|x: int| Move::packed(target as int, x)).push(
                        Move::packed(target as int, xs[q]),
                    ));
                    q = q + 1;
                    assert(bit_seq(tiles.0) =~= xs.skip(q));
                }
            }
            proof {
                lemma_bit_seq_empty(tiles.0);
                assert(xs.take(q) =~= xs);
                j = j + 1;
                assert(bit_seq(targets.0) =~= ts.skip(j));
            }
        }
        proof {
            lemma_bit_seq_empty(targets.0);
            assert(ts.take(j) =~= ts);
        }
    }

    /// `generate_moves` collects the Moves of the Position into a new list.
    pub fn generate_moves(&self) -> (r: Vec<Move>)
        requires
            self@.on_board(),
        ensures
            r@ == self@.moves(),
    {
        let mut movelist: Vec<Move> = Vec::new();
        proof {
            lemma_moves_len(self@);
            lemma_ascending_exact(self@.allowed());
            lemma_ascending_exact(self@.targets());
            vstd::set_lib::lemma_int_range(0, 48);
            vstd::set_lib::lemma_len_subset(self@.allowed(), below(48));
            vstd::set_lib::lemma_len_subset(self@.targets(), below(48));
            assert(self@.moves().len() <= 48 * 48) by (nonlinear_arith)
                requires
                    self@.moves().len() == self@.targets().len() * (self@.allowed().len() - 1),
                    self@.targets().len() <= 48,
                    self@.allowed().len() <= 48,
            ;
        }
        self.generate_moves_into(&mut movelist);
        proof {
            assert(Seq::<Move>::empty() + self@.moves() =~= self@.moves());
        }
        movelist
    }

    /// count_moves returns the number of legal Moves in the current Position:
    /// the targets of the pawn to move times the allowed tiles but one.
    pub fn count_moves(&self) -> (r: usize)
        requires
            self@.on_board(),
        ensures
            r == self@.moves().len(),
    {
        let allowed = self.allowed();
        let targets = self.targets(allowed);
        let a = allowed.len();
        let t = targets.len();
        proof {
            lemma_moves_len(self@);
            vstd::set_lib::lemma_int_range(0, 48);
            vstd::set_lib::lemma_len_subset(self@.allowed(), below(48));
            vstd::set_lib::lemma_len_subset(self@.targets(), self@.allowed());
        }
        if a == 0 {
            proof {
                vstd::set_lib::lemma_set_empty_equivalency_len(self@.allowed());
                assert(self@.targets().len() == 0);
            }
            return 0;
        }
        assert(t * (a - 1) <= 48 * 48) by (nonlinear_arith)
            requires
                t <= 48,
                1 <= a <= 48,
        ;
        t * (a - 1)
    }

    /// is_game_over checks if the game is over: the side to move has no
    /// Move.
    pub fn is_game_over(&self) -> (r: bool)
        requires
            self@.on_board(),
        ensures
            r == self@.game_over(),
    {
        self.count_moves() == 0
    }

    /// winner returns the Color which has won the game, the side that just
    /// moved, or `None` while the game goes on.
    pub fn winner(&self) -> (r: Option<Option<Color>>)
        requires
            self@.on_board(),
        ensures
            r == self@.winner(),
            r is Some <==> self@.moves().len() == 0,
            r is Some ==> r == Some(Some(self.side_to_move.other())),
    {
        if self.is_game_over() {
            Some(Some(self.side_to_move.not()))
        } else {
            None
        }
    }
}

/// The number of leaves of the game tree of `st` at the given depth. With
/// `bulk`, the last level is counted by the number of Moves instead of
/// playing each of them.
pub open spec fn perft_count(st: State, depth: nat, bulk: bool) -> nat
    decreases depth, 0nat,
{
    if depth == 0 {
        1
    } else if bulk && depth == 1 {
        st.moves().len()
    } else {
        perft_sum(st, st.moves(), (depth - 1) as nat, bulk)
    }
}

/// The sum of the leaf counts after each of the given Moves.
pub open spec fn perft_sum(st: State, ms: Seq<Move>, depth: nat, bulk: bool) -> nat
    decreases depth, ms.len(),
{
    if ms.len() == 0 {
        0
    } else {
        perft_sum(st, ms.drop_last(), depth, bulk) + perft_count(st.play(ms.last()), depth, bulk)
    }
}

/// Counting the last level of the game tree in bulk, by the number of Moves,
/// gives the same count as playing each of them: the two ways of counting
/// agree at every depth.
pub proof fn law_bulk_counting_agrees(st: State, depth: nat)
    ensures
        perft_count(st, depth, true) == perft_count(st, depth, false),
    decreases depth, 0nat,
{
    if depth == 1 {
        lemma_perft_sum_leaves(st, st.moves(), true);
        lemma_perft_sum_leaves(st, st.moves(), false);
    } else if depth > 1 {
        lemma_bulk_sum_agrees(st, st.moves(), (depth - 1) as nat);
    }
}

/// The sums over a list of Moves of the two counts agree.
proof fn lemma_bulk_sum_agrees(st: State, ms: Seq<Move>, depth: nat)
    ensures
        perft_sum(st, ms, depth, true) == perft_sum(st, ms, depth, false),
    decreases depth, ms.len(),
{
    if ms.len() > 0 {
        lemma_bulk_sum_agrees(st, ms.drop_last(), depth);
        law_bulk_counting_agrees(st.play(ms.last()), depth);
    }
}

/// At depth zero each Move counts one leaf.
proof fn lemma_perft_sum_leaves(st: State, ms: Seq<Move>, bulk: bool)
    ensures
        perft_sum(st, ms, 0, bulk) == ms.len(),
    decreases ms.len(),
{
    if ms.len() > 0 {
        lemma_perft_sum_leaves(st, ms.drop_last(), bulk);
        assert(perft_count(st.play(ms.last()), 0, bulk) == 1);
    }
}

/// A prefix of the Moves sums to no more than all of them.
pub proof fn lemma_perft_sum_prefix(st: State, ms: Seq<Move>, depth: nat, bulk: bool, i: int)
    requires
        0 <= i <= ms.len(),
    ensures
        perft_sum(st, ms.take(i), depth, bulk) <= perft_sum(st, ms, depth, bulk),
    decreases ms.len(),
{
    if i < ms.len() {
        assert(ms.drop_last().take(i) =~= ms.take(i));
        lemma_perft_sum_prefix(st, ms.drop_last(), depth, bulk, i);
    } else {
        assert(ms.take(i) =~= ms);
    }
}

/// perft counts the leaf nodes of the game tree of the position at the given
/// depth. With `BULK`, the last level is counted by the number of Moves
/// instead of playing each of them.
pub fn perft<const BULK: bool>(position: Position, depth: u8) -> (r: u64)
    requires
        position@.on_board(),
        position.ply_count + depth <= u16::MAX,
        perft_count(position@, depth as nat, BULK) <= u64::MAX,
    ensures
        r == perft_count(position@, depth as nat, BULK),
    decreases depth,
{
    if BULK && depth == 1 {
        return position.count_moves() as u64;
    }
    if depth == 0 {
        return 1;
    }
    let ghost st = position@;
    let ghost d = (depth - 1) as nat;
    let mut nodes: u64 = 0;
    let movelist = position.generate_moves();
    proof {
        lemma_moves_len(st);
        assert(movelist@.take(0) =~= Seq::<Move>::empty());
    }
    let mut i: usize = 0;
    while i < movelist.len()
        invariant
            st == position@,
            st.on_board(),
            movelist@ == st.moves(),
            d == depth - 1,
            depth > 0,
            !(BULK && depth == 1),
            position.ply_count + depth <= u16::MAX,
            perft_count(st, depth as nat, BULK) == perft_sum(st, st.moves(), d, BULK),
            perft_count(st, depth as nat, BULK) <= u64::MAX,
            0 <= i <= movelist.len(),
            nodes == perft_sum(st, movelist@.take(i as int), d, BULK),
            forall|k: int| 0 <= k < st.moves().len() ==> (#[trigger] st.moves()[k]).on_board(),
        decreases movelist.len() - i,
    {
        let m = movelist[i];
        let new_position = position.after_move::<false>(m);
        proof {
            lemma_play_on_board(st, m);
            assert(movelist@.take(i as int + 1).drop_last() =~= movelist@.take(i as int));
            assert(movelist@.take(i as int + 1).last() == m);
            lemma_perft_sum_prefix(st, st.moves(), d, BULK, i as int + 1);
        }
        let new_nodes = perft::<BULK>(new_position, depth - 1);
        nodes = nodes + new_nodes;
        i = i + 1;
    }
    proof {
        assert(movelist@.take(i as int) =~= movelist@);
    }
    nodes
}

impl PositionType for Position {
    type Move = Move;
    type Color = Color;

    const STARTPOS: &'static str = Position::STARTPOS;

    open spec fn generated(&self) -> Seq<Move> {
        self@.moves()
    }

    open spec fn generable(&self) -> bool {
        self@.on_board()
    }

    open spec fn over(&self) -> bool {
        self@.game_over()
    }

    open spec fn outcome_known(&self) -> bool {
        self@.on_board()
    }

    open spec fn outcome(&self) -> Option<Option<Color>> {
        self@.winner()
    }

    open spec fn playable_move(&self, m: Move) -> bool {
        &&& m.on_board()
        &&& self.ply_count < u16::MAX
    }

    open spec fn plays_to(&self, m: Move, next: Position) -> bool {
        next@ == self@.play(m)
    }

    open spec fn plies(&self) -> nat {
        self.ply_count as nat
    }

    open spec fn checksum_of(&self) -> crate::interface::hash::Hash {
        self.checksum
    }

    fn ply_count(&self) -> (r: usize) {
        Position::ply_count(self)
    }

    fn hash(&self) -> (r: crate::interface::hash::Hash) {
        Position::hash(self)
    }

    fn winner(&self) -> (r: Option<Option<Color>>) {
        Position::winner(self)
    }

    fn is_game_over(&self) -> (r: bool) {
        Position::is_game_over(self)
    }

    fn after_move<const UPDATE_PERIPHERALS: bool>(&self, m: Move) -> (r: Position) {
        Position::after_move::<UPDATE_PERIPHERALS>(self, m)
    }

    fn generate_moves_into<const ALLOW_ILLEGAL: bool, const QUIET: bool, const NOISY: bool, T: MoveStore<Move>>(
        &self,
        movelist: &mut T,
    ) {
        Position::generate_moves_into(self, movelist)
    }

    fn generate_moves<const ALLOW_ILLEGAL: bool, const QUIET: bool, const NOISY: bool>(&self) -> (r: Vec<Move>) {
        Position::generate_moves(self)
    }

    fn count_moves<const QUIET: bool, const NOISY: bool>(&self) -> (r: usize) {
        Position::count_moves(self)
    }
}

} // verus!
