//! Elements of the universe and their identifiers.

use vstd::prelude::*;

verus! {

/// A value that can stand for an element: it carries an identifier, and an
/// identifier names a position of the arrays.
///
/// The two spec functions are what the contracts of this crate speak of. They
/// are left unspecified by default, so that code outside the verifier can
/// implement the trait by its two executable methods alone; an implementation
/// that is to be verified overrides them.
pub trait VertexType: Eq + Copy {
    type IdentifierType: Copy + Eq + PartialOrd;

    /// The identifier that `self` carries.
    open spec fn spec_id(&self) -> Self::IdentifierType {
        arbitrary()
    }

    /// The position that identifier `a` names.
    open spec fn spec_usize(a: Self::IdentifierType) -> usize {
        arbitrary()
    }

    fn id(&self) -> (r: Self::IdentifierType)
        ensures
            r == self.spec_id(),
    ;

    fn usize(a: Self::IdentifierType) -> (r: usize)
        ensures
            r == Self::spec_usize(a),
    ;
}

/// The position that the identifier of `v` names.
pub open spec fn position<T: VertexType>(v: T) -> int {
    T::spec_usize(v.spec_id()) as int
}

/// The positions that the entries of `rep` name, entry by entry.
pub open spec fn parents<T: VertexType>(rep: Seq<T>) -> Seq<int> {
    Seq::new(rep.len(), |i: int| position(rep[i]))
}

/// Entry `i` of `rep` names position `i`, for every `i`.
pub open spec fn identity<T: VertexType>(rep: Seq<T>) -> bool {
    forall|i: int| 0 <= i < rep.len() ==> position(#[trigger] rep[i]) == i
}

/// A vertex type that is nothing but its identifier, so that the vertex of a
/// position can be made from the position alone.
pub trait IndexVertex: VertexType {
    /// The largest position that a value of the type can name.
    spec fn limit() -> usize;

    /// The vertex made for position `i`: the one that names `i` where `i` is
    /// within the limit, the one that names 0 elsewhere.
    spec fn spec_at(i: usize) -> Self;

    fn at(i: usize) -> (v: Self)
        ensures
            v == Self::spec_at(i),
            position(v) == (if i <= Self::limit() {
                i as int
            } else {
                0
            }),
    ;
}

impl VertexType for u8 {
    type IdentifierType = u8;

    open spec fn spec_id(&self) -> u8 {
        *self
    }

    open spec fn spec_usize(a: u8) -> usize {
        a as usize
    }

    #[inline(always)]
    fn id(&self) -> (r: u8) {
        *self
    }

    #[inline(always)]
    fn usize(a: u8) -> (r: usize) {
        a as usize
    }
}

impl IndexVertex for u8 {
    open spec fn limit() -> usize {
        0xff
    }

    open spec fn spec_at(i: usize) -> u8 {
        if i <= 0xff {
            i as u8
        } else {
            0
        }
    }

    fn at(i: usize) -> (v: u8) {
        if i <= 0xff {
            i as u8
        } else {
            0
        }
    }
}

impl VertexType for u16 {
    type IdentifierType = u16;

    open spec fn spec_id(&self) -> u16 {
        *self
    }

    open spec fn spec_usize(a: u16) -> usize {
        a as usize
    }

    #[inline(always)]
    fn id(&self) -> (r: u16) {
        *self
    }

    #[inline(always)]
    fn usize(a: u16) -> (r: usize) {
        a as usize
    }
}

impl IndexVertex for u16 {
    open spec fn limit() -> usize {
        0xffff
    }

    open spec fn spec_at(i: usize) -> u16 {
        if i <= 0xffff {
            i as u16
        } else {
            0
        }
    }

    fn at(i: usize) -> (v: u16) {
        if i <= 0xffff {
            i as u16
        } else {
            0
        }
    }
}

impl VertexType for u32 {
    type IdentifierType = u32;

    open spec fn spec_id(&self) -> u32 {
        *self
    }

    open spec fn spec_usize(a: u32) -> usize {
        a as usize
    }

    #[inline(always)]
    fn id(&self) -> (r: u32) {
        *self
    }

    #[inline(always)]
    fn usize(a: u32) -> (r: usize) {
        a as usize
    }
}

impl IndexVertex for u32 {
    open spec fn limit() -> usize {
        0xffff_ffff
    }

    open spec fn spec_at(i: usize) -> u32 {
        if i <= 0xffff_ffff {
            i as u32
        } else {
            0
        }
    }

    fn at(i: usize) -> (v: u32) {
        if i <= 0xffff_ffff {
            i as u32
        } else {
            0
        }
    }
}

impl VertexType for u64 {
    type IdentifierType = u64;

    open spec fn spec_id(&self) -> u64 {
        *self
    }

    /// An identifier beyond the range of positions names the last position
    /// there is, which no array reaches: it is never taken for a smaller one.
    open spec fn spec_usize(a: u64) -> usize {
        if a > usize::MAX {
            usize::MAX
        } else {
            a as usize
        }
    }

    #[inline(always)]
    fn id(&self) -> (r: u64) {
        *self
    }

    #[inline(always)]
    fn usize(a: u64) -> (r: usize) {
        if a > usize::MAX as u64 {
            usize::MAX
        } else {
            a as usize
        }
    }
}

impl IndexVertex for u64 {
    open spec fn limit() -> usize {
        usize::MAX
    }

    open spec fn spec_at(i: usize) -> u64 {
        i as u64
    }

    fn at(i: usize) -> (v: u64) {
        i as u64
    }
}

impl VertexType for usize {
    type IdentifierType = usize;

    open spec fn spec_id(&self) -> usize {
        *self
    }

    open spec fn spec_usize(a: usize) -> usize {
        a
    }

    #[inline(always)]
    fn id(&self) -> (r: usize) {
        *self
    }

    #[inline(always)]
    fn usize(a: usize) -> (r: usize) {
        a
    }
}

impl IndexVertex for usize {
    open spec fn limit() -> usize {
        usize::MAX
    }

    open spec fn spec_at(i: usize) -> usize {
        i
    }

    fn at(i: usize) -> (v: usize) {
        i
    }
}

} // verus!
