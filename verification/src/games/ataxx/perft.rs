//! Ataxx perft: the number of leaf nodes of the game tree to a given depth.
use vstd::prelude::*;
use crate::bits::below;
use crate::interface::bitboard::{ascending, lemma_ascending_members};
use super::moves::{ring, zone, Move};
use super::position::{jumps, Position, State};

verus! {

/// The number of leaves of the game tree of `st` at the given depth. With
/// `bulk`, the last level is counted by the number of Moves instead of
/// playing each of them.
pub open spec fn perft_count(st: State, depth: nat, bulk: bool) -> nat
    decreases depth, 0nat,
{
    if depth == 0 {
        1
    } else if bulk && depth == 1 {
        st.moves().len()
    } else {
        perft_sum(st, st.moves(), (depth - 1) as nat, bulk)
    }
}

/// The sum of the leaf counts after each of the given Moves.
pub open spec fn perft_sum(st: State, ms: Seq<Move>, depth: nat, bulk: bool) -> nat
    decreases depth, ms.len(),
{
    if ms.len() == 0 {
        0
    } else {
        perft_sum(st, ms.drop_last(), depth, bulk) + perft_count(st.play(ms.last()), depth, bulk)
    }
}

/// Counting the last level of the game tree in bulk, by the number of Moves,
/// gives the same count as playing each of them: the two ways of counting
/// agree at every depth.
pub proof fn law_bulk_counting_agrees(st: State, depth: nat)
    ensures
        perft_count(st, depth, true) == perft_count(st, depth, false),
    decreases depth, 0nat,
{
    if depth == 1 {
        lemma_perft_sum_leaves(st, st.moves(), true);
        lemma_perft_sum_leaves(st, st.moves(), false);
    } else if depth > 1 {
        lemma_bulk_sum_agrees(st, st.moves(), (depth - 1) as nat);
    }
}

/// The sums over a list of Moves of the two counts agree.
proof fn lemma_bulk_sum_agrees(st: State, ms: Seq<Move>, depth: nat)
    ensures
        perft_sum(st, ms, depth, true) == perft_sum(st, ms, depth, false),
    decreases depth, ms.len(),
{
    if ms.len() > 0 {
        lemma_bulk_sum_agrees(st, ms.drop_last(), depth);
        law_bulk_counting_agrees(st.play(ms.last()), depth);
    }
}

/// At depth zero each Move counts one leaf.
proof fn lemma_perft_sum_leaves(st: State, ms: Seq<Move>, bulk: bool)
    ensures
        perft_sum(st, ms, 0, bulk) == ms.len(),
    decreases ms.len(),
{
    if ms.len() > 0 {
        lemma_perft_sum_leaves(st, ms.drop_last(), bulk);
        assert(perft_count(st.play(ms.last()), 0, bulk) == 1);
    }
}

/// A prefix of the Moves sums to no more than all of them.
pub proof fn lemma_perft_sum_prefix(st: State, ms: Seq<Move>, depth: nat, bulk: bool, i: int)
    requires
        0 <= i <= ms.len(),
    ensures
        perft_sum(st, ms.take(i), depth, bulk) <= perft_sum(st, ms, depth, bulk),
    decreases ms.len(),
{
    if i < ms.len() {
        assert(ms.drop_last().take(i) =~= ms.take(i));
        lemma_perft_sum_prefix(st, ms.drop_last(), depth, bulk, i);
    } else {
        assert(ms.take(i) =~= ms);
    }
}

/// The jump Moves between Squares of the board stay on the board.
pub proof fn lemma_jumps_on_board(sources: Seq<int>, free: Set<int>)
    requires
        forall|k: int| 0 <= k < sources.len() ==> 0 <= #[trigger] sources[k] < 49,
        free.subset_of(below(49)),
    ensures
        forall|k: int| 0 <= k < jumps(sources, free).len() ==> (#[trigger] jumps(sources, free)[k]).on_board()
            && jumps(sources, free)[k] != Move::pass_move(),
    decreases sources.len(),
{
    if sources.len() > 0 {
        let p = sources.last();
        lemma_jumps_on_board(sources.drop_last(), free);
        let targets = ascending(ring(p, 2).intersect(free));
        lemma_ascending_members(ring(p, 2).intersect(free), 0);
        let front = jumps(sources.drop_last(), free);
        assert forall|k: int| 0 <= k < jumps(sources, free).len() implies (#[trigger] jumps(
            sources,
            free,
        )[k]).on_board() && jumps(sources, free)[k] != Move::pass_move() by {
            if k >= front.len() {
                let t = targets[k - front.len()];
                Move::lemma_packed(p, t);
            }
        }
    }
}

/// Every Move of an on-board position is on the board, and the game is not
/// over when there is a Move.
pub proof fn lemma_moves_on_board(st: State)
    requires
        st.on_board(),
    ensures
        forall|k: int| 0 <= k < st.moves().len() ==> (#[trigger] st.moves()[k]).on_board(),
        st.moves().len() > 0 ==> !st.game_over(),
{
    Move::lemma_value(Move::pass_move());
    let own = st.stones(st.side);
    let free = st.free();
    lemma_ascending_members(zone(own).intersect(free), 0);
    lemma_ascending_members(own, 0);
    lemma_jumps_on_board(ascending(own), free);
    let singles = st.single_moves();
    assert forall|k: int| 0 <= k < singles.len() implies (#[trigger] singles[k]).on_board() by {
        let t = ascending(zone(own).intersect(free))[k];
        Move::lemma_packed(t, t);
    }
    if !st.game_over() && singles.len() + st.jump_moves().len() != 0 {
        let all = singles + st.jump_moves();
        assert forall|k: int| 0 <= k < all.len() implies (#[trigger] all[k]).on_board() by {
            if k >= singles.len() {
                assert(all[k] == st.jump_moves()[k - singles.len()]);
            }
        }
    }
}

/// Playing an on-board Move keeps the pieces on the board.
pub proof fn lemma_play_on_board(st: State, m: Move)
    requires
        st.on_board(),
        m.on_board(),
    ensures
        st.play(m).on_board(),
{
}

/// perft counts the leaf nodes of the game tree of the position at the given
/// depth. With `BULK`, the last level is counted by the number of Moves
/// instead of playing each of them.
pub fn perft<const BULK: bool>(position: Position, depth: u8) -> (r: u64)
    requires
        position@.on_board(),
        position.ply_count + depth <= u16::MAX,
        perft_count(position@, depth as nat, BULK) <= u64::MAX,
    ensures
        r == perft_count(position@, depth as nat, BULK),
    decreases depth,
{
    // Bulk counting if enabled. Instead of calling make move and perft for each
    // move at depth 1, just return the number of legal moves, which is equivalent.
    if BULK && depth == 1 {
        return position.count_moves() as u64;
    }
    // At depth 0, perft is defined to be 1.
    if depth == 0 {
        return 1;
    }
    let ghost st = position@;
    let ghost d = (depth - 1) as nat;
    let mut nodes: u64 = 0;
    let movelist = position.generate_moves();
    proof {
        lemma_moves_on_board(st);
        assert(movelist@.take(0) =~= Seq::<Move>::empty());
    }
    let mut i: usize = 0;
    while i < movelist.len()
        invariant
            st == position@,
            st.on_board(),
            movelist@ == st.moves(),
            d == depth - 1,
            depth > 0,
            !(BULK && depth == 1),
            position.ply_count + depth <= u16::MAX,
            perft_count(st, depth as nat, BULK) == perft_sum(st, st.moves(), d, BULK),
            perft_count(st, depth as nat, BULK) <= u64::MAX,
            0 <= i <= movelist.len(),
            nodes == perft_sum(st, movelist@.take(i as int), d, BULK),
            forall|k: int| 0 <= k < st.moves().len() ==> (#[trigger] st.moves()[k]).on_board(),
            st.moves().len() > 0 ==> !st.game_over(),
        decreases movelist.len() - i,
    {
        let m = movelist[i];
        // The position is not over, so its half-move clock is below 100.
        let new_position = position.after_move::<false>(m);
        proof {
            lemma_play_on_board(st, m);
            assert(movelist@.take(i as int + 1).drop_last() =~= movelist@.take(i as int));
            assert(movelist@.take(i as int + 1).last() == m);
            lemma_perft_sum_prefix(st, st.moves(), d, BULK, i as int + 1);
        }
        let new_nodes = perft::<BULK>(new_position, depth - 1);
        nodes = nodes + new_nodes;
        i = i + 1;
    }
    proof {
        assert(movelist@.take(i as int) =~= movelist@);
    }
    nodes
}

/// The leaf counts at `depth - 1` after each Move of the position, in the
/// order of its Moves: perft split by the first Move.
pub fn perft_divide<const BULK: bool>(position: Position, depth: u8) -> (r: Vec<(Move, u64)>)
    requires
        position@.on_board(),
        depth >= 1,
        position.ply_count + depth <= u16::MAX,
        perft_sum(position@, position@.moves(), (depth - 1) as nat, BULK) <= u64::MAX,
    ensures
        r@.len() == position@.moves().len(),
        forall|k: int|
            0 <= k < r@.len() ==> (#[trigger] r@[k]).0 == position@.moves()[k] && r@[k].1 == perft_count(
                position@.play(position@.moves()[k]),
                (depth - 1) as nat,
                BULK,
            ),
{
    let ghost st = position@;
    let ghost d = (depth - 1) as nat;
    let movelist = position.generate_moves();
    let mut counts: Vec<(Move, u64)> = Vec::new();
    proof {
        lemma_moves_on_board(st);
    }
    let mut i: usize = 0;
    while i < movelist.len()
        invariant
            st == position@,
            st.on_board(),
            movelist@ == st.moves(),
            d == depth - 1,
            depth > 0,
            position.ply_count + depth <= u16::MAX,
            perft_sum(st, st.moves(), d, BULK) <= u64::MAX,
            0 <= i <= movelist.len(),
            counts@.len() == i,
            forall|k: int|
                0 <= k < i ==> (#[trigger] counts@[k]).0 == st.moves()[k] && counts@[k].1 == perft_count(
                    st.play(st.moves()[k]),
                    d,
                    BULK,
                ),
            forall|k: int| 0 <= k < st.moves().len() ==> (#[trigger] st.moves()[k]).on_board(),
            st.moves().len() > 0 ==> !st.game_over(),
        decreases movelist.len() - i,
    {
        let m = movelist[i];
        // The position is not over, so its half-move clock is below 100.
        let new_position = position.after_move::<false>(m);
        proof {
            lemma_play_on_board(st, m);
            assert(movelist@.take(i as int + 1).drop_last() =~= movelist@.take(i as int));
            assert(movelist@.take(i as int + 1).last() == m);
            lemma_perft_sum_prefix(st, st.moves(), d, BULK, i as int + 1);
        }
        let new_nodes = perft::<BULK>(new_position, depth - 1);
        counts.push((m, new_nodes));
        i = i + 1;
    }
    counts
}

} // verus!
