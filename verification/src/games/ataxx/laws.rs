//! Properties of the Ataxx rules that hold across Moves and Positions.
use vstd::prelude::*;
use crate::bits::below;
use crate::interface::bitboard::{ascending, lemma_ascending_exact, lemma_ascending_members};
use super::moves::{near, ring, stretch, zone, Move};
use crate::interface::bitboard::{east_set, law_shifts_distribute, north_set, south_set, west_set};
use super::piece::Color;
use super::position::{jumps, State};

verus! {

/// Each jump Move leaves a Square of `sources` for a free Square two steps
/// away.
proof fn lemma_jumps_shape(sources: Seq<int>, free: Set<int>, k: int)
    requires
        0 <= k < jumps(sources, free).len(),
        forall|j: int| 0 <= j < sources.len() ==> 0 <= #[trigger] sources[j] < 49,
    ensures
        exists|p: int, t: int|
            #![trigger Move::packed(p, t)]
            sources.contains(p) && ring(p, 2).contains(t) && free.contains(t) && jumps(
                sources,
                free,
            )[k] == Move::packed(p, t),
    decreases sources.len(),
{
    let p = sources.last();
    let rest = sources.drop_last();
    let pre = jumps(rest, free);
    let targets = ascending(ring(p, 2).intersect(free));
    assert(jumps(sources, free) == pre + targets.map_values(|t: int| Move::packed(p, t)));
    if k < pre.len() {
        lemma_jumps_shape(rest, free, k);
        let (q, t) = choose|q: int, t: int|
            #![trigger Move::packed(q, t)]
            rest.contains(q) && ring(q, 2).contains(t) && free.contains(t) && pre[k] == Move::packed(
                q,
                t,
            );
        let j = choose|j: int| 0 <= j < rest.len() && rest[j] == q;
        assert(sources[j] == q);
        assert(jumps(sources, free)[k] == Move::packed(q, t));
    } else {
        lemma_ascending_members(ring(p, 2).intersect(free), 0);
        let t = targets[k - pre.len()];
        assert(sources[sources.len() - 1] == p);
        assert(jumps(sources, free)[k] == Move::packed(p, t));
    }
}

/// Playing a Move of a well-formed position gives a well-formed position:
/// every piece stays on the board and no Square holds two pieces.
pub proof fn law_play_well_formed(st: State, m: Move)
    requires
        st.well_formed(),
        st.moves().contains(m),
    ensures
        st.play(m).well_formed(),
{
    let own = st.stones(st.side);
    let theirs = st.stones(st.side.other());
    let free = st.free();
    let singles = st.single_moves();
    let jumped = st.jump_moves();
    let k = choose|k: int| 0 <= k < st.moves().len() && st.moves()[k] == m;
    if m == Move::pass_move() {
        return;
    }
    assert(!st.game_over());
    assert(singles.len() + jumped.len() > 0) by {
        if singles.len() + jumped.len() == 0 {
            assert(st.moves() == seq![Move::pass_move()]);
        }
    }
    assert(st.moves() == singles + jumped);
    let (s, t) = if k < singles.len() {
        lemma_ascending_members(zone(own).intersect(free), 0);
        let t = ascending(zone(own).intersect(free))[k];
        assert(m == Move::packed(t, t));
        (t, t)
    } else {
        lemma_ascending_members(own, 0);
        let sources = ascending(own);
        lemma_jumps_shape(sources, free, k - singles.len());
        let (p, t) = choose|p: int, t: int|
            #![trigger Move::packed(p, t)]
            sources.contains(p) && ring(p, 2).contains(t) && free.contains(t) && jumped[k
                - singles.len()] == Move::packed(p, t);
        let j = choose|j: int| 0 <= j < sources.len() && sources[j] == p;
        assert(own.contains(p));
        (p, t)
    };
    assert(free.contains(t));
    assert(own.contains(s) || s == t);
    assert(0 <= s < 49 && 0 <= t < 49);
    Move::lemma_packed(s, t);
    let next = st.play(m);
    let captured = ring(t, 1).intersect(theirs);
    assert(!own.contains(t) && !theirs.contains(t) && !st.blocks.contains(t));
    assert(below(49).contains(t));
}

/// Playing the pass Move hands the turn over and changes no piece.
pub proof fn law_pass_keeps_pieces(st: State)
    ensures
        st.play(Move::pass_move()).black == st.black,
        st.play(Move::pass_move()).white == st.white,
        st.play(Move::pass_move()).blocks == st.blocks,
        st.play(Move::pass_move()).side == st.side.other(),
{
}

/// The game has a result exactly when it is over: a winner or a draw.
pub proof fn law_winner_decided(st: State)
    ensures
        st.winner() is Some <==> st.game_over(),
{
}

/// A game that is not over has a Move to play.
pub proof fn law_moves_exist(st: State)
    requires
        !st.game_over(),
    ensures
        st.moves().len() > 0,
{
}

/// Two consecutive passes restore the side to move.
pub proof fn law_pass_twice(st: State)
    ensures
        st.play(Move::pass_move()).play(Move::pass_move()).side == st.side,
{
}

/// The singular targets of two sets of sources together are those of each:
/// growing a set by one Square each way, as the shifts compute it and on the
/// board, distributes over union.
pub proof fn law_singles_union(a: Set<int>, b: Set<int>)
    ensures
        stretch(a.union(b)) == stretch(a).union(stretch(b)),
        zone(a.union(b)) == zone(a).union(zone(b)),
{
    law_shifts_distribute(a, b, 7, 49);
    let bar_a = a.union(east_set(a, 7, 49)).union(west_set(a, 7, 49));
    let bar_b = b.union(east_set(b, 7, 49)).union(west_set(b, 7, 49));
    let bar = a.union(b).union(east_set(a.union(b), 7, 49)).union(west_set(a.union(b), 7, 49));
    assert(bar =~= bar_a.union(bar_b));
    law_shifts_distribute(bar_a, bar_b, 7, 49);
    assert(stretch(a.union(b)) =~= stretch(a).union(stretch(b)));
    assert forall|i: int| zone(a.union(b)).contains(i) implies #[trigger] zone(a).union(zone(b)).contains(i) by {
        let j = choose|j: int| #[trigger] a.union(b).contains(j) && near(i, j, 1);
        if a.contains(j) {
            assert(a.contains(j) && near(i, j, 1));
        } else {
            assert(b.contains(j) && near(i, j, 1));
        }
    }
    assert forall|i: int| zone(a).union(zone(b)).contains(i) implies #[trigger] zone(a.union(b)).contains(i) by {
        if zone(a).contains(i) {
            let j = choose|j: int| #[trigger] a.contains(j) && near(i, j, 1);
            assert(a.union(b).contains(j) && near(i, j, 1));
        } else {
            let j = choose|j: int| #[trigger] b.contains(j) && near(i, j, 1);
            assert(a.union(b).contains(j) && near(i, j, 1));
        }
    }
    assert(zone(a.union(b)) =~= zone(a).union(zone(b)));
}

/// The jump Moves from Squares given once each are all different.
proof fn lemma_jumps_distinct(sources: Seq<int>, free: Set<int>)
    requires
        sources.no_duplicates(),
        forall|j: int| 0 <= j < sources.len() ==> 0 <= #[trigger] sources[j] < 49,
    ensures
        jumps(sources, free).no_duplicates(),
    decreases sources.len(),
{
    if sources.len() > 0 {
        let p = sources.last();
        let rest = sources.drop_last();
        let pre = jumps(rest, free);
        let ts = ascending(ring(p, 2).intersect(free));
        let block = ts.map_values(|t: int| Move::packed(p, t));
        assert(jumps(sources, free) == pre + block);
        assert(sources[sources.len() - 1] == p);
        lemma_jumps_distinct(rest, free);
        assert(ring(p, 2).intersect(free).subset_of(below(64)));
        lemma_ascending_exact(ring(p, 2).intersect(free));
        assert forall|i: int, j: int| 0 <= i < j < block.len() implies block[i] != block[j] by {
            Move::lemma_packed(p, ts[i]);
            Move::lemma_packed(p, ts[j]);
        }
        assert forall|i: int, j: int| 0 <= i < pre.len() && 0 <= j < block.len() implies pre[i] != block[j] by {
            lemma_jumps_shape(rest, free, i);
            let (q, t) = choose|q: int, t: int|
                #![trigger Move::packed(q, t)]
                rest.contains(q) && ring(q, 2).contains(t) && free.contains(t) && pre[i] == Move::packed(q, t);
            let k = choose|k: int| 0 <= k < rest.len() && rest[k] == q;
            assert(sources[k] == q);
            Move::lemma_packed(q, t);
            Move::lemma_packed(p, ts[j]);
        }
        vstd::seq_lib::lemma_no_dup_in_concat(pre, block);
    }
}

/// The Moves of a position are all different: no Move is generated twice.
pub proof fn law_moves_distinct(st: State)
    requires
        st.on_board(),
    ensures
        st.moves().no_duplicates(),
{
    if !st.game_over() && st.single_moves().len() + st.jump_moves().len() != 0 {
        let own = st.stones(st.side);
        let z = zone(own).intersect(st.free());
        let ts = ascending(z);
        let singles = st.single_moves();
        let js = st.jump_moves();
        assert(z.subset_of(below(64)));
        lemma_ascending_exact(z);
        assert forall|i: int, j: int| 0 <= i < j < singles.len() implies singles[i] != singles[j] by {
            Move::lemma_packed(ts[i], ts[i]);
            Move::lemma_packed(ts[j], ts[j]);
        }
        assert(own.subset_of(below(64)));
        lemma_ascending_exact(own);
        let srcs = ascending(own);
        assert forall|j: int| 0 <= j < srcs.len() implies 0 <= #[trigger] srcs[j] < 49 by {
            assert(own.contains(srcs[j]));
        }
        lemma_jumps_distinct(srcs, st.free());
        assert forall|i: int, j: int| 0 <= i < singles.len() && 0 <= j < js.len() implies singles[i] != js[j] by {
            lemma_jumps_shape(srcs, st.free(), j);
            let (q, t) = choose|q: int, t: int|
                #![trigger Move::packed(q, t)]
                srcs.contains(q) && ring(q, 2).contains(t) && st.free().contains(t) && js[j] == Move::packed(q, t);
            let k = choose|k: int| 0 <= k < srcs.len() && srcs[k] == q;
            assert(0 <= q < 49);
            Move::lemma_packed(q, t);
            Move::lemma_packed(ts[i], ts[i]);
            assert(near(q, q, 1));
            assert(t != q);
        }
        vstd::seq_lib::lemma_no_dup_in_concat(singles, js);
    }
}

/// The result of a game by its stones: a draw by the fifty-move rule; a
/// win for the side that still has stones when the other has none; on a
/// full board the side with strictly more stones wins and equal counts draw;
/// otherwise the game goes on.
pub proof fn law_winner_by_counts(st: State)
    ensures
        st.half_moves >= 100 ==> st.winner() == Some(None::<Color>),
        st.half_moves < 100 && st.black == Set::<int>::empty() ==> st.winner() == Some(Some(Color::White)),
        st.half_moves < 100 && st.black != Set::<int>::empty() && st.white == Set::<int>::empty()
            ==> st.winner() == Some(Some(Color::Black)),
        st.half_moves < 100 && st.black != Set::<int>::empty() && st.white != Set::<int>::empty()
            && st.black.union(st.white).union(st.blocks) == below(49) ==> {
            &&& st.black.len() < st.white.len() ==> st.winner() == Some(Some(Color::White))
            &&& st.white.len() < st.black.len() ==> st.winner() == Some(Some(Color::Black))
            &&& st.black.len() == st.white.len() ==> st.winner() == Some(None::<Color>)
        },
        st.half_moves < 100 && st.black != Set::<int>::empty() && st.white != Set::<int>::empty()
            && st.black.union(st.white).union(st.blocks) != below(49) ==> st.winner() is None,
{
}

/// Playing a Move that is not a pass, from a stone of the side to move to a
/// free Square, puts a stone of the side to move on the target, takes the
/// source stone away when the Move jumps, turns every opposing stone next
/// to the target into a stone of the side to move, and leaves the blockers
/// where they are; the half-move clock restarts after a single step and
/// counts one more half-move after a jump.
pub proof fn law_play_stones(st: State, m: Move)
    requires
        st.well_formed(),
        m != Move::pass_move(),
        st.stones(st.side).contains(m.source_index()),
        st.free().contains(m.target_index()),
    ensures
        ({
            let s = m.source_index();
            let t = m.target_index();
            let own = st.stones(st.side);
            let theirs = st.stones(st.side.other());
            let turned = ring(t, 1).intersect(theirs);
            let after = st.play(m);
            &&& after.stones(st.side) == (if s == t {
                own.union(turned).insert(t)
            } else {
                own.union(turned).insert(t).remove(s)
            })
            &&& after.stones(st.side.other()) == theirs.difference(turned)
            &&& after.blocks == st.blocks
            &&& after.side == st.side.other()
            &&& after.half_moves == (if s == t {
                0
            } else {
                st.half_moves + 1
            })
        }),
{
    let s = m.source_index();
    let t = m.target_index();
    let own = st.stones(st.side);
    let theirs = st.stones(st.side.other());
    let turned = ring(t, 1).intersect(theirs);
    let after = st.play(m);
    assert(own.disjoint(theirs));
    let x = crate::bits::sym(own, turned);
    assert(x =~= own.union(turned));
    if s == t {
        assert(after.stones(st.side) =~= own.union(turned).insert(t));
    } else {
        assert(after.stones(st.side) =~= own.union(turned).insert(t).remove(s));
    }
    assert(after.stones(st.side.other()) =~= theirs.difference(turned));
}

} // verus!
