//! Storage for generated Moves, and the common shape of a game's Move type.
use vstd::prelude::*;
use arrayvec::ArrayVec;

verus! {

/// MoveStore is implemented by the types which are able to store Moves inside
/// themselves and are thus usable by the move-generation methods of the
/// Positions.
pub trait MoveStore<M>: Sized {
    /// The Moves stored, in the order they were pushed.
    spec fn moves(&self) -> Seq<M>;

    /// How many more Moves can be pushed.
    spec fn room(&self) -> nat;

    /// An empty MoveStore.
    fn new() -> (r: Self)
        ensures
            r.moves() == Seq::<M>::empty(),
    ;

    /// Appends a Move to the back of the MoveStore.
    fn push(&mut self, m: M)
        requires
            old(self).room() > 0,
        ensures
            final(self).moves() == old(self).moves().push(m),
            final(self).room() == old(self).room() - 1,
    ;

    /// Returns the number of Moves in the MoveStore.
    fn len(&self) -> (r: usize)
        ensures
            r == self.moves().len(),
    ;

    /// Returns `true` if the MoveStore holds no Moves.
    fn is_empty(&self) -> (r: bool)
        ensures
            r == (self.moves().len() == 0),
    ;
}

impl<M> MoveStore<M> for Vec<M> {
    open spec fn moves(&self) -> Seq<M> {
        self@
    }

    open spec fn room(&self) -> nat {
        if self@.len() < usize::MAX {
            (usize::MAX - self@.len()) as nat
        } else {
            0
        }
    }

    fn new() -> (r: Vec<M>) {
        Vec::new()
    }

    fn push(&mut self, m: M) {
        Vec::push(self, m);
    }

    fn len(&self) -> (r: usize) {
        Vec::len(self)
    }

    fn is_empty(&self) -> (r: bool) {
        Vec::len(self) == 0
    }
}

/// The common interface of the Move types of the games.
pub trait MoveType: Sized + Copy {
    /// A suitably high maximum for the number of Moves in a game.
    const MAX_IN_GAME: usize;
    /// A suitably high maximum for the number of Moves in a single, possibly
    /// unreachable, position.
    const MAX_IN_POSITION: usize;

    /// The raw 16-bit value of the Move.
    spec fn raw_value(&self) -> u16;

    /// The Move of the given raw value.
    spec fn of_raw(raw: u16) -> Self;

    /// A Move is the Move of its raw value.
    proof fn lemma_raw(m: Self)
        ensures
            Self::of_raw(m.raw_value()) == m,
    ;

    /// The null, or 'do nothing', Move.
    fn null() -> (r: Self);

    /// The Move with the given raw value.
    fn from_raw(raw: u16) -> (r: Self)
        ensures
            r.raw_value() == raw,
            r == Self::of_raw(raw),
    ;

    /// The raw value of the Move.
    fn to_raw(self) -> (r: u16)
        ensures
            r == self.raw_value(),
    ;
}

/// `ArrayVec` from the arrayvec crate: a vector with a fixed capacity whose
/// items are stored inline.
#[verifier::external_type_specification]
#[verifier::external_body]
#[verifier::reject_recursive_types(T)]
pub struct ExArrayVec<T, const CAP: usize>(ArrayVec<T, CAP>);

/// MoveList is the basic MoveStore, which lives on the stack: it holds the
/// raw values of up to 256 Moves.
pub type MoveList = ArrayVec<u16, 256>;

/// The raw values a MoveList holds, in the order they were pushed.
pub uninterp spec fn move_list_items(list: ArrayVec<u16, 256>) -> Seq<u16>;

/// `ArrayVec::new` makes a list that holds nothing.
#[verifier::external_body]
fn move_list_new() -> (r: MoveList)
    ensures
        move_list_items(r) == Seq::<u16>::empty(),
{
    ArrayVec::new()
}

/// `ArrayVec::push` appends the value at the back; it panics when the list
/// already holds 256 values, so the list must hold fewer.
#[verifier::external_body]
fn move_list_push(list: &mut MoveList, raw: u16)
    requires
        move_list_items(*old(list)).len() < 256,
    ensures
        move_list_items(*final(list)) == move_list_items(*old(list)).push(raw),
{
    list.push(raw)
}

/// `ArrayVec::len` gives the number of values held, which is at most 256.
#[verifier::external_body]
fn move_list_len(list: &MoveList) -> (r: usize)
    ensures
        r == move_list_items(*list).len(),
        r <= 256,
{
    list.len()
}

impl<M: MoveType> MoveStore<M> for ArrayVec<u16, 256> {
    open spec fn moves(&self) -> Seq<M> {
        move_list_items(*self).map_values(|raw: u16| M::of_raw(raw))
    }

    open spec fn room(&self) -> nat {
        if move_list_items(*self).len() < 256 {
            (256 - move_list_items(*self).len()) as nat
        } else {
            0
        }
    }

    fn new() -> (r: ArrayVec<u16, 256>) {
        let r = move_list_new();
        proof {
            assert(move_list_items(r).map_values(|raw: u16| M::of_raw(raw)) =~= Seq::<M>::empty());
        }
        r
    }

    fn push(&mut self, m: M) {
        let raw = m.to_raw();
        let ghost before = move_list_items(*self);
        proof {
            M::lemma_raw(m);
        }
        move_list_push(self, raw);
        proof {
            assert(move_list_items(*self).map_values(|raw: u16| M::of_raw(raw)) =~= before.map_values(
                |raw: u16| M::of_raw(raw),
            ).push(m));
        }
    }

    fn len(&self) -> (r: usize) {
        move_list_len(self)
    }

    fn is_empty(&self) -> (r: bool) {
        move_list_len(self) == 0
    }
}

} // verus!
