//! The storage behind an engine's arrays.

use vstd::prelude::*;

verus! {

/// A fixed-length, randomly indexable run of entries. The strategies see
/// every backing through this contract and nothing else.
pub trait Storage<E> {
    /// The entries, in order.
    spec fn items(&self) -> Seq<E>;

    fn as_slice(&self) -> (s: &[E])
        ensures
            s@ == self.items(),
    ;

    fn as_mut_slice(&mut self) -> (s: &mut [E])
        ensures
            s@ == old(self).items(),
            final(s)@ == final(self).items(),
    ;
}

/// An array that the engine owns.
impl<E, const N: usize> Storage<E> for [E; N] {
    open spec fn items(&self) -> Seq<E> {
        self@
    }

    fn as_slice(&self) -> (s: &[E]) {
        self
    }

    fn as_mut_slice(&mut self) -> (s: &mut [E]) {
        self
    }
}

/// Memory that the caller owns and lends for the engine's lifetime.
impl<'a, E> Storage<E> for &'a mut [E] {
    open spec fn items(&self) -> Seq<E> {
        (**self)@
    }

    fn as_slice(&self) -> (s: &[E]) {
        &**self
    }

    fn as_mut_slice(&mut self) -> (s: &mut [E]) {
        &mut **self
    }
}

} // verus!
