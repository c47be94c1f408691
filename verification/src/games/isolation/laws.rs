//! Properties of the Isolation rules that hold across Moves and Positions.
use vstd::prelude::*;
use crate::bits::below;
use crate::interface::bitboard::{ascending, lemma_ascending_exact};
use super::moves::{zone, Move};
use super::movegen::lemma_moves_len;
use super::position::{tile_moves, State};

verus! {

/// Each Move of the list steps to one of the targets and removes another
/// allowed tile.
proof fn lemma_tile_moves_shape(targets: Seq<int>, allowed: Set<int>, k: int)
    requires
        0 <= k < tile_moves(targets, allowed).len(),
        allowed.subset_of(below(48)),
        forall|j: int| 0 <= j < targets.len() ==> 0 <= #[trigger] targets[j] < 48,
    ensures
        exists|t: int, x: int|
            #![trigger Move::packed(t, x)]
            targets.contains(t) && allowed.remove(t).contains(x) && tile_moves(targets, allowed)[k]
                == Move::packed(t, x),
    decreases targets.len(),
{
    let t = targets.last();
    let rest = targets.drop_last();
    let pre = tile_moves(rest, allowed);
    if k < pre.len() {
        lemma_tile_moves_shape(rest, allowed, k);
        let (u, x) = choose|u: int, x: int|
            #![trigger Move::packed(u, x)]
            rest.contains(u) && allowed.remove(u).contains(x) && pre[k] == Move::packed(u, x);
        let j = choose|j: int| 0 <= j < rest.len() && rest[j] == u;
        assert(targets[j] == u);
        assert(tile_moves(targets, allowed)[k] == Move::packed(u, x));
    } else {
        lemma_ascending_exact(allowed.remove(t));
        let x = ascending(allowed.remove(t))[k - pre.len()];
        assert(targets[targets.len() - 1] == t);
        assert(tile_moves(targets, allowed)[k] == Move::packed(t, x));
    }
}

/// Every Move of a position removes exactly one tile, one the opposing pawn
/// does not stand on, and steps the pawn to move to an allowed tile next to
/// it: the game shortens by one tile at each turn.
pub proof fn law_play_removes_tile(st: State, m: Move)
    requires
        st.on_board(),
        st.moves().contains(m),
    ensures
        st.tiles.contains(m.tile_index()),
        m.tile_index() != st.pawn(st.side.other()),
        m.tile_index() != m.pawn_index(),
        st.play(m).tiles == st.tiles.remove(m.tile_index()),
        st.play(m).tiles.len() + 1 == st.tiles.len(),
        st.targets().contains(m.pawn_index()),
        st.play(m).pawn(st.side) == m.pawn_index(),
        st.play(m).pawn(st.side.other()) == st.pawn(st.side.other()),
{
    let ts = ascending(st.targets());
    lemma_ascending_exact(st.targets());
    let k = choose|k: int| 0 <= k < st.moves().len() && st.moves()[k] == m;
    assert forall|j: int| 0 <= j < ts.len() implies 0 <= #[trigger] ts[j] < 48 by {
        assert(st.targets().contains(ts[j]));
    }
    lemma_tile_moves_shape(ts, st.allowed(), k);
    let (t, x) = choose|t: int, x: int|
        #![trigger Move::packed(t, x)]
        ts.contains(t) && st.allowed().remove(t).contains(x) && tile_moves(ts, st.allowed())[k]
            == Move::packed(t, x);
    let j = choose|j: int| 0 <= j < ts.len() && ts[j] == t;
    assert(st.targets().contains(t));
    Move::lemma_packed(t, x);
    assert(st.play(m).tiles =~= st.tiles.remove(x));
    vstd::set_lib::lemma_int_range(0, 48);
    vstd::set_lib::lemma_len_subset(st.tiles, below(48));
}

/// A finished game is won by the side that has just moved.
pub proof fn law_winner_is_last_mover(st: State)
    requires
        st.game_over(),
    ensures
        st.winner() == Some(Some(st.side.other())),
{
}

/// A position in which no tile is free for a Move, every tile left being
/// under the opposing pawn or none being left at all, has no Move.
pub proof fn law_no_free_tile_no_moves(st: State)
    requires
        st.on_board(),
        st.allowed() == Set::<int>::empty(),
    ensures
        st.moves().len() == 0,
{
    lemma_moves_len(st);
    assert(st.targets() =~= Set::<int>::empty());
    assert(st.targets().len() == 0);
    assert(st.moves().len() == 0 * (st.allowed().len() - 1));
}

/// The Moves to targets given once each are all different.
proof fn lemma_tile_moves_distinct(targets: Seq<int>, allowed: Set<int>)
    requires
        targets.no_duplicates(),
        allowed.subset_of(below(48)),
        forall|j: int| 0 <= j < targets.len() ==> 0 <= #[trigger] targets[j] < 48,
    ensures
        tile_moves(targets, allowed).no_duplicates(),
    decreases targets.len(),
{
    if targets.len() > 0 {
        let t = targets.last();
        let rest = targets.drop_last();
        let pre = tile_moves(rest, allowed);
        let xs = ascending(allowed.remove(t));
        let block = xs.map_values(|x: int| Move::packed(t, x));
        assert(tile_moves(targets, allowed) == pre + block);
        assert(targets[targets.len() - 1] == t);
        lemma_tile_moves_distinct(rest, allowed);
        lemma_ascending_exact(allowed.remove(t));
        assert forall|i: int, j: int| 0 <= i < j < block.len() implies block[i] != block[j] by {
            assert(allowed.remove(t).contains(xs[i]) && allowed.remove(t).contains(xs[j]));
            Move::lemma_packed(t, xs[i]);
            Move::lemma_packed(t, xs[j]);
        }
        assert forall|i: int, j: int| 0 <= i < pre.len() && 0 <= j < block.len() implies pre[i] != block[j] by {
            lemma_tile_moves_shape(rest, allowed, i);
            let (u, x) = choose|u: int, x: int|
                #![trigger Move::packed(u, x)]
                rest.contains(u) && allowed.remove(u).contains(x) && pre[i] == Move::packed(u, x);
            let k = choose|k: int| 0 <= k < rest.len() && rest[k] == u;
            assert(targets[k] == u);
            assert(allowed.remove(t).contains(xs[j]));
            Move::lemma_packed(u, x);
            Move::lemma_packed(t, xs[j]);
        }
        vstd::seq_lib::lemma_no_dup_in_concat(pre, block);
    }
}

/// The Moves of a position are all different: no Move is generated twice.
pub proof fn law_moves_distinct(st: State)
    requires
        st.on_board(),
    ensures
        st.moves().no_duplicates(),
{
    lemma_moves_len(st);
    lemma_ascending_exact(st.targets());
    lemma_ascending_exact(st.allowed());
    let ts = ascending(st.targets());
    assert forall|j: int| 0 <= j < ts.len() implies 0 <= #[trigger] ts[j] < 48 by {
        assert(st.allowed().contains(ts[j]));
    }
    lemma_tile_moves_distinct(ts, st.allowed());
}

} // verus!
