//! Booleans, byte strings, fixed-size byte arrays, text and optional values.
use vstd::prelude::*;
use vstd::array::array_fill_for_copy_types;
use vstd::slice::slice_to_vec;
use vstd::utf8::{decode_utf8, encode_utf8, encode_utf8_decode_utf8, encode_utf8_valid_utf8, valid_utf8};
use clvmr::allocator::{Allocator, NodePtr, SExp};
use crate::arena::{atom_cost, heap_sound, make_atom, tree_of, valid_node, Tree};
use crate::error::{decoded, encoded, FromClvmError, FromClvmErrorView, ToClvmError};

verus! {

pub open spec fn bool_tree(b: bool) -> Tree {
    if b {
        Tree::Atom(seq![1u8])
    } else {
        Tree::nil()
    }
}

/// Only the atoms `()` and `1` are booleans.
pub open spec fn bool_from_tree(t: Tree) -> Result<bool, FromClvmErrorView> {
    match t {
        Tree::Pair(_, _) => Err(FromClvmErrorView::ExpectedAtom),
        Tree::Atom(s) => if s.len() == 0 {
            Ok(false)
        } else if s == seq![1u8] {
            Ok(true)
        } else {
            Err(FromClvmErrorView::Custom("expected boolean value of either `()` or `1`"@))
        },
    }
}

/// Stores `true` as the atom `1` and `false` as nil.
pub fn bool_to_clvm(a: &mut Allocator, v: bool) -> (r: Result<NodePtr, ToClvmError>)
    requires
        heap_sound(*old(a)),
    ensures
        encoded(*old(a), *final(a), r, bool_tree(v), atom_cost(if v { 1 } else { 0 })),
{
    if v {
        let one: [u8; 1] = [1u8];
        proof {
            assert(one@ =~= seq![1u8]);
        }
        make_atom(a, one.as_slice())
    } else {
        let empty: [u8; 0] = [];
        proof {
            assert(empty@ =~= Seq::<u8>::empty());
        }
        make_atom(a, empty.as_slice())
    }
}

/// Reads a node as a boolean.
pub fn bool_from_clvm(a: &Allocator, n: NodePtr) -> (r: Result<bool, FromClvmError>)
    requires
        valid_node(*a, n),
    ensures
        decoded(r, bool_from_tree(tree_of(*a, n))),
{
    match a.sexp(n) {
        SExp::Pair(_, _) => Err(FromClvmError::ExpectedAtom),
        SExp::Atom => {
            let b = a.atom(n);
            if b.len() == 0 {
                Ok(false)
            } else if b.len() == 1 && b[0] == 1 {
                assert(b@ =~= seq![1u8]);
                Ok(true)
            } else {
                Err(FromClvmError::Custom("expected boolean value of either `()` or `1`".to_string()))
            }
        },
    }
}

/// A boolean decodes from its own atom.
pub proof fn lemma_bool_round_trip(v: bool)
    ensures
        bool_from_tree(bool_tree(v)) == Ok::<bool, FromClvmErrorView>(v),
{
    if v {
        assert(seq![1u8].len() != 0);
    }
}

/// Any atom is a byte string.
pub open spec fn bytes_from_tree(t: Tree) -> Result<Seq<u8>, FromClvmErrorView> {
    match t {
        Tree::Pair(_, _) => Err(FromClvmErrorView::ExpectedAtom),
        Tree::Atom(s) => Ok(s),
    }
}

/// Stores a byte string as an atom.
pub fn bytes_to_clvm(a: &mut Allocator, v: &[u8]) -> (r: Result<NodePtr, ToClvmError>)
    requires
        heap_sound(*old(a)),
    ensures
        encoded(*old(a), *final(a), r, Tree::Atom(v@), atom_cost(v@.len() as int)),
{
    make_atom(a, v)
}

/// Reads an atom's bytes.
pub fn bytes_from_clvm(a: &Allocator, n: NodePtr) -> (r: Result<Vec<u8>, FromClvmError>)
    requires
        valid_node(*a, n),
    ensures
        decoded(r, bytes_from_tree(tree_of(*a, n))),
{
    match a.sexp(n) {
        SExp::Pair(_, _) => Err(FromClvmError::ExpectedAtom),
        SExp::Atom => Ok(slice_to_vec(a.atom(n))),
    }
}

/// An atom decodes as an array of `len` bytes only when it holds exactly
/// that many.
pub open spec fn array_from_tree(t: Tree, len: usize) -> Result<Seq<u8>, FromClvmErrorView> {
    match t {
        Tree::Pair(_, _) => Err(FromClvmErrorView::ExpectedAtom),
        Tree::Atom(s) => if s.len() == len {
            Ok(s)
        } else {
            Err(FromClvmErrorView::WrongAtomLength { expected: len, found: s.len() as usize })
        },
    }
}

/// Stores a fixed-size byte array as an atom.
pub fn array_to_clvm<const N: usize>(a: &mut Allocator, v: &[u8; N]) -> (r: Result<
    NodePtr,
    ToClvmError,
>)
    requires
        heap_sound(*old(a)),
    ensures
        encoded(*old(a), *final(a), r, Tree::Atom(v@), atom_cost(v@.len() as int)),
{
    make_atom(a, v.as_slice())
}

/// Reads an atom of exactly `N` bytes.
pub fn array_from_clvm<const N: usize>(a: &Allocator, n: NodePtr) -> (r: Result<
    [u8; N],
    FromClvmError,
>)
    requires
        valid_node(*a, n),
    ensures
        decoded(r, array_from_tree(tree_of(*a, n), N)),
{
    match a.sexp(n) {
        SExp::Pair(_, _) => Err(FromClvmError::ExpectedAtom),
        SExp::Atom => {
            let b = a.atom(n);
            if b.len() != N {
                return Err(FromClvmError::WrongAtomLength { expected: N, found: b.len() });
            }
            let mut arr: [u8; N] = array_fill_for_copy_types(0u8);
            let mut i: usize = 0;
            while i < N
                invariant
                    i <= N,
                    b@.len() == N,
                    arr@.len() == N,
                    forall|j: int| 0 <= j < i ==> arr@[j] == b@[j],
                decreases N - i,
            {
                arr[i] = b[i];
                i = i + 1;
            }
            assert(arr@ =~= b@);
            Ok(arr)
        },
    }
}

/// A fixed-size array decodes from its own atom.
pub proof fn lemma_array_round_trip(v: Seq<u8>)
    requires
        v.len() <= usize::MAX,
    ensures
        array_from_tree(Tree::Atom(v), v.len() as usize) == Ok::<Seq<u8>, FromClvmErrorView>(v),
{
}

/// Text is the atom of its UTF-8 bytes; an atom that is not UTF-8 is refused.
pub open spec fn string_from_tree(t: Tree) -> Result<Seq<char>, FromClvmErrorView> {
    match t {
        Tree::Pair(_, _) => Err(FromClvmErrorView::ExpectedAtom),
        Tree::Atom(s) => if valid_utf8(s) {
            Ok(decode_utf8(s))
        } else {
            Err(FromClvmErrorView::Custom("invalid UTF-8"@))
        },
    }
}

/// Relies on `std::str::from_utf8`: it accepts exactly the valid UTF-8 byte
/// strings and then yields the characters that they encode.
#[verifier::external_body]
fn utf8_to_string(b: &[u8]) -> (r: Option<String>)
    ensures
        match r {
            Some(s) => valid_utf8(b@) && s@ == decode_utf8(b@),
            None => !valid_utf8(b@),
        },
{
    std::str::from_utf8(b).ok().map(|s| s.to_string())
}

/// Stores text as the atom of its UTF-8 bytes.
pub fn string_to_clvm(a: &mut Allocator, v: &str) -> (r: Result<NodePtr, ToClvmError>)
    requires
        heap_sound(*old(a)),
    ensures
        encoded(*old(a), *final(a), r, Tree::Atom(encode_utf8(v@)), atom_cost(encode_utf8(v@).len() as int)),
{
    make_atom(a, v.as_bytes())
}

/// Reads an atom as UTF-8 text.
pub fn string_from_clvm(a: &Allocator, n: NodePtr) -> (r: Result<String, FromClvmError>)
    requires
        valid_node(*a, n),
    ensures
        decoded(r, string_from_tree(tree_of(*a, n))),
{
    match a.sexp(n) {
        SExp::Pair(_, _) => Err(FromClvmError::ExpectedAtom),
        SExp::Atom => match utf8_to_string(a.atom(n)) {
            Some(s) => Ok(s),
            None => Err(FromClvmError::Custom("invalid UTF-8".to_string())),
        },
    }
}

/// Text decodes from its own atom.
pub proof fn lemma_string_round_trip(v: Seq<char>)
    ensures
        string_from_tree(Tree::Atom(encode_utf8(v))) == Ok::<Seq<char>, FromClvmErrorView>(v),
{
    encode_utf8_valid_utf8(v);
    encode_utf8_decode_utf8(v);
}

/// Stores nil: `None`, `false`, zero and the empty list all stand for it.
pub fn nil_to_clvm(a: &mut Allocator) -> (r: Result<NodePtr, ToClvmError>)
    requires
        heap_sound(*old(a)),
    ensures
        encoded(*old(a), *final(a), r, Tree::nil(), atom_cost(0)),
{
    let empty: [u8; 0] = [];
    proof {
        assert(empty@ =~= Seq::<u8>::empty());
    }
    make_atom(a, empty.as_slice())
}

/// Whether a node is the nil atom.
pub fn is_nil(a: &Allocator, n: NodePtr) -> (r: bool)
    requires
        valid_node(*a, n),
    ensures
        r == tree_of(*a, n).is_nil(),
{
    match a.sexp(n) {
        SExp::Pair(_, _) => false,
        SExp::Atom => {
            let b = a.atom(n);
            if b.len() == 0 {
                assert(b@ =~= Seq::<u8>::empty());
                true
            } else {
                false
            }
        },
    }
}

/// An optional value: nil is `None`, anything else is the node of the value.
pub open spec fn option_from_tree(t: Tree) -> Option<Tree> {
    if t.is_nil() {
        None
    } else {
        Some(t)
    }
}

/// Reads a node as an optional value: `None` for nil, else the node itself,
/// for the caller to decode as the inner type.
pub fn option_from_clvm(a: &Allocator, n: NodePtr) -> (r: Option<NodePtr>)
    requires
        valid_node(*a, n),
    ensures
        match r {
            None => option_from_tree(tree_of(*a, n)) == None::<Tree>,
            Some(m) => m == n && option_from_tree(tree_of(*a, n)) == Some(tree_of(*a, n)),
        },
{
    if is_nil(a, n) {
        None
    } else {
        Some(n)
    }
}

/// `None` decodes as `None`; `Some` of a value whose tree is not nil decodes
/// as that tree. A value that itself encodes to nil comes back as `None`, so
/// an optional value is only used around types that never encode to nil.
pub proof fn lemma_option_round_trip(inner: Option<Tree>)
    requires
        inner matches Some(t) ==> !t.is_nil(),
    ensures
        option_from_tree(
            match inner {
                None => Tree::nil(),
                Some(t) => t,
            },
        ) == inner,
{
}

} // verus!
