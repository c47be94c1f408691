//! The set interface of the BitBoards.
use vstd::prelude::*;
use crate::bits::below;
use super::RepresentableType;

verus! {

/// SetTypes behave like a set of the values of a RepresentableType, each
/// value standing for its index.
///
/// The API has been adapted from set-like types from the standard library.
pub trait SetType<E: RepresentableType>: Sized + Copy {
    /// The indices of the elements of the set; those at or above `E::N` are
    /// not elements of the type and are dropped by the operations that say
    /// so.
    spec fn members(&self) -> Set<int>;

    /// The null/empty set containing no elements.
    fn empty() -> (r: Self)
        ensures
            r.members() == Set::<int>::empty(),
    ;

    /// The universal set containing all elements.
    fn universe() -> (r: Self)
        ensures
            r.members() == below(E::count() as int),
    ;

    /// Makes a new, empty set.
    fn new() -> (r: Self)
        ensures
            r.members() == Set::<int>::empty(),
    ;

    /// Returns `true` if `self` has no elements in common with `other`. This
    /// is equivalent to checking for an empty intersection.
    fn is_disjoint(self, other: Self) -> (r: bool)
        ensures
            r == self.members().disjoint(other.members()),
    ;

    /// Returns `true` if the set is a subset of another, i.e., `other`
    /// contains at least all the elements in `self`.
    fn is_subset(self, other: Self) -> (r: bool)
        ensures
            r == self.members().intersect(below(E::count() as int)).subset_of(other.members()),
    ;

    /// Returns `true` if the set is a superset of another, i.e., `self`
    /// contains at least all the elements in `other`.
    fn is_superset(self, other: Self) -> (r: bool)
        ensures
            r == other.members().intersect(below(E::count() as int)).subset_of(self.members()),
    ;

    /// Returns `true` if the set contains no elements.
    fn is_empty(self) -> (r: bool)
        ensures
            r == (self.members() == Set::<int>::empty()),
    ;

    /// Returns the number of elements in the set.
    fn len(self) -> (r: usize)
        ensures
            self.members().finite(),
            r == self.members().len(),
    ;

    /// Returns `true` if the set contains the element.
    fn contains(self, element: E) -> (r: bool)
        ensures
            r == self.members().contains(element.index() as int),
    ;

    /// Adds the element to the set.
    fn insert(&mut self, element: E)
        ensures
            final(self).members() == old(self).members().insert(element.index() as int),
    ;

    /// Removes the element from the set.
    fn remove(&mut self, element: E)
        ensures
            final(self).members() == old(self).members().intersect(below(E::count() as int)).remove(
                element.index() as int,
            ),
    ;

    /// Clears the set, removing all elements.
    fn clear(&mut self)
        ensures
            final(self).members() == Set::<int>::empty(),
    ;

    /// Retains only the elements specified by the predicate: every element
    /// `e` for which `f(e)` returns `false` is removed. The elements are
    /// visited in ascending order, each once.
    fn retain<F: Fn(E) -> bool>(&mut self, f: F)
        requires
            forall|e: E| #[trigger] f.requires((e,)),
            E::count() <= 256,
        ensures
            forall|j: int| #[trigger] final(self).members().contains(j) ==> old(self).members().contains(j),
            forall|j: int|
                0 <= j < E::count() && #[trigger] final(self).members().contains(j) ==> exists|e: E|
                    e.index() == j && #[trigger] f.ensures((e,), true),
            forall|j: int|
                0 <= j < E::count() && #[trigger] old(self).members().contains(j)
                    && !final(self).members().contains(j) ==> exists|e: E|
                    e.index() == j && #[trigger] f.ensures((e,), false),
    {
        proof {
            E::lemma_count();
        }
        let n = E::N;
        let mut i: usize = 0;
        while i < n
            invariant
                n == E::count(),
                n <= 256,
                0 <= i <= n,
                forall|e: E| #[trigger] f.requires((e,)),
                forall|j: int| #[trigger] self.members().contains(j) ==> old(self).members().contains(j),
                forall|j: int|
                    i <= j < n && #[trigger] old(self).members().contains(j) ==> self.members().contains(j),
                forall|j: int|
                    0 <= j < i && #[trigger] self.members().contains(j) ==> exists|e: E|
                        e.index() == j && #[trigger] f.ensures((e,), true),
                forall|j: int|
                    0 <= j < i && #[trigger] old(self).members().contains(j) && !self.members().contains(j)
                        ==> exists|e: E| e.index() == j && #[trigger] f.ensures((e,), false),
            decreases n - i,
        {
            let e = E::from_number(i as u8);
            if self.contains(e) {
                let keep = f(e);
                if !keep {
                    self.remove(e);
                }
            }
            i = i + 1;
        }
    }
}

} // verus!
