//! What encoding and decoding can fail with.
use vstd::prelude::*;
use crate::arena::{arena_grows, has_room, heap_sound, spent, tree_of, valid_node, Room, Tree};
use clvmr::allocator::{Allocator, NodePtr};

verus! {

/// Encoding fails only when the allocator refuses a new node.
#[derive(Debug, Clone, Copy, PartialEq, Eq, Structural)]
pub enum ToClvmError {
    LimitReached,
}

/// Why a node does not decode as the value asked for.
#[derive(Debug, Clone, PartialEq, Eq)]
pub enum FromClvmError {
    ExpectedAtom,
    ExpectedPair,
    ExpectedNil,
    WrongAtomLength { expected: usize, found: usize },
    WrongDiscriminant,
    InvalidCurryForm,
    NoMatchingVariant,
    Custom(String),
}

/// `FromClvmError` with its message as characters.
pub enum FromClvmErrorView {
    ExpectedAtom,
    ExpectedPair,
    ExpectedNil,
    WrongAtomLength { expected: usize, found: usize },
    WrongDiscriminant,
    InvalidCurryForm,
    NoMatchingVariant,
    Custom(Seq<char>),
}

impl View for FromClvmError {
    type V = FromClvmErrorView;

    open spec fn view(&self) -> FromClvmErrorView {
        match self {
            FromClvmError::ExpectedAtom => FromClvmErrorView::ExpectedAtom,
            FromClvmError::ExpectedPair => FromClvmErrorView::ExpectedPair,
            FromClvmError::ExpectedNil => FromClvmErrorView::ExpectedNil,
            FromClvmError::WrongAtomLength { expected, found } => FromClvmErrorView::WrongAtomLength {
                expected: *expected,
                found: *found,
            },
            FromClvmError::WrongDiscriminant => FromClvmErrorView::WrongDiscriminant,
            FromClvmError::InvalidCurryForm => FromClvmErrorView::InvalidCurryForm,
            FromClvmError::NoMatchingVariant => FromClvmErrorView::NoMatchingVariant,
            FromClvmError::Custom(m) => FromClvmErrorView::Custom(m@),
        }
    }
}

/// A decode result agrees with what the spec function gives: the same value
/// (by view) or the same error.
pub open spec fn decoded<T: View>(r: Result<T, FromClvmError>, s: Result<T::V, FromClvmErrorView>) -> bool {
    match r {
        Ok(v) => s == Ok::<T::V, FromClvmErrorView>(v@),
        Err(e) => s == Err::<T::V, FromClvmErrorView>(e@),
    }
}

/// An encode call that writes what `c` says kept every node of `a0`, and
/// succeeded whenever `a0` had room for it; on success it returned a node
/// that stands for `t` and used exactly `c`.
pub open spec fn encoded(a0: Allocator, a1: Allocator, r: Result<NodePtr, ToClvmError>, t: Tree, c: Room) -> bool {
    &&& arena_grows(a0, a1)
    &&& heap_sound(a1)
    &&& has_room(a0, c) ==> r is Ok
    &&& match r {
        Ok(n) => valid_node(a1, n) && tree_of(a1, n) == t && spent(a0, a1, c),
        Err(e) => e == ToClvmError::LimitReached,
    }
}

} // verus!
