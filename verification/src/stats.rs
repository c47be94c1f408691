//! The statistical models of the results of game pairs between two engines.
use vstd::prelude::*;

verus! {

/// Model names a way of statistically modelling the results of a collection
/// of game pairs played between two entities.
#[derive(Copy, Clone, PartialEq, Eq, Debug, Hash, Structural)]
pub enum Model {
    /// Modern pentanomial game-pair result model.
    Pentanomial,
    /// Traditional trinomial game result model.
    Traditional,
}

/// The numbers of a match's game pairs and of its games won, drawn and
/// lost, counted from the numbers of pairs of each kind.
#[derive(Copy, Clone, PartialEq, Eq, Debug)]
pub struct PairCounts {
    /// The number of game pairs.
    pub n: usize,
    /// The number of games won.
    pub ws: usize,
    /// The number of games drawn.
    pub ds: usize,
    /// The number of games lost.
    pub ls: usize,
}

/// Counts the pairs and the games won, drawn and lost of a match from the
/// numbers of its pairs of each kind: both lost (`ll`), a loss and a draw
/// (`ld`), both drawn (`dd`), a win and a loss (`wl`), a win and a draw
/// (`wd`) and both won (`ww`). Each pair is two games, so the games won,
/// drawn and lost add up to twice the pairs.
pub fn pair_counts(ll: usize, ld: usize, dd: usize, wl: usize, wd: usize, ww: usize) -> (r: PairCounts)
    requires
        ll + ld + dd + wl + wd + ww <= usize::MAX,
        wd + wl + 2 * ww <= usize::MAX,
        wd + ld + 2 * dd <= usize::MAX,
        ld + wl + 2 * ll <= usize::MAX,
    ensures
        r.n == ll + ld + dd + wl + wd + ww,
        r.ws == wd + wl + 2 * ww,
        r.ds == wd + ld + 2 * dd,
        r.ls == ld + wl + 2 * ll,
        r.ws + r.ds + r.ls == 2 * r.n,
{
    PairCounts {
        n: ll + ld + dd + wl + wd + ww,
        ws: wd + wl + 2 * ww,
        ds: wd + ld + 2 * dd,
        ls: ld + wl + 2 * ll,
    }
}

} // verus!
