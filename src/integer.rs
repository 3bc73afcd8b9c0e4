//! Integers as atoms: the shortest big-endian two's-complement bytes.
use vstd::prelude::*;
use vstd::arithmetic::div_mod::{lemma_fundamental_div_mod, lemma_fundamental_div_mod_converse_div, lemma_fundamental_div_mod_converse_mod};
use clvmr::allocator::{Allocator, NodePtr, SExp};
use crate::arena::{atom_cost, heap_sound, make_atom, tree_of, valid_node, Tree};
use crate::error::{decoded, encoded, FromClvmError, FromClvmErrorView, ToClvmError};

verus! {

/// 2^64: every supported integer lies in [-2^64, 2^64).
pub const INT_BOUND: i128 = 0x1_0000_0000_0000_0000;

pub open spec fn abs(v: int) -> int {
    if v < 0 { -v } else { v }
}

/// The shortest two's-complement bytes of `v` with at least one byte.
pub open spec fn sig_bytes(v: int) -> Seq<u8>
    decreases abs(v),
{
    if -128 <= v < 128 {
        seq![(v % 256) as u8]
    } else {
        sig_bytes(v / 256).push((v % 256) as u8)
    }
}

/// The atom of an integer: empty for zero, else the shortest two's-complement
/// bytes, most significant first.
pub open spec fn int_bytes(v: int) -> Seq<u8> {
    if v == 0 {
        Seq::empty()
    } else {
        sig_bytes(v)
    }
}

/// The integer that an atom's bytes stand for in two's complement; the empty
/// atom is zero.
pub open spec fn atom_value(s: Seq<u8>) -> int
    decreases s.len(),
{
    if s.len() == 0 {
        0
    } else if s.len() == 1 {
        if s[0] >= 128 {
            s[0] - 256
        } else {
            s[0] as int
        }
    } else {
        atom_value(s.drop_last()) * 256 + s.last()
    }
}

/// Decoding an atom as an integer in `[lo, hi]`; `width` is the byte size of
/// the target type, reported when the value does not fit.
pub open spec fn int_from_tree(t: Tree, lo: int, hi: int, width: usize) -> Result<int, FromClvmErrorView> {
    match t {
        Tree::Pair(_, _) => Err(FromClvmErrorView::ExpectedAtom),
        Tree::Atom(s) => if lo <= atom_value(s) <= hi {
            Ok(atom_value(s))
        } else {
            Err(FromClvmErrorView::WrongAtomLength { expected: width, found: s.len() as usize })
        },
    }
}

pub open spec fn flip_bytes(s: Seq<u8>) -> Seq<u8> {
    Seq::new(s.len(), |i: int| (255 - s[i]) as u8)
}

proof fn lemma_sig_bytes_nonempty(v: int)
    ensures
        sig_bytes(v).len() >= 1,
    decreases abs(v),
{
    if !(-128 <= v < 128) {
        lemma_sig_bytes_nonempty(v / 256);
    }
}

/// A negative number's bytes are those of its complement, each inverted.
proof fn lemma_sig_bytes_negative(v: int)
    requires
        v < 0,
    ensures
        sig_bytes(v) == flip_bytes(sig_bytes(-v - 1)),
    decreases -v,
{
    let w = -v - 1;
    if w < 128 {
        assert(sig_bytes(v) =~= flip_bytes(sig_bytes(w)));
    } else {
        let q = w / 256;
        let r = w % 256;
        assert(v == (-q - 1) * 256 + (255 - r));
        lemma_fundamental_div_mod_converse_div(v, 256, -q - 1, 255 - r);
        lemma_fundamental_div_mod_converse_mod(v, 256, -q - 1, 255 - r);
        lemma_sig_bytes_negative(v / 256);
        assert(sig_bytes(v) =~= flip_bytes(sig_bytes(w)));
    }
}

/// The bytes of `v` read back as `v`.
pub proof fn lemma_sig_bytes_value(v: int)
    ensures
        atom_value(sig_bytes(v)) == v,
    decreases abs(v),
{
    if !(-128 <= v < 128) {
        lemma_sig_bytes_value(v / 256);
        lemma_sig_bytes_nonempty(v / 256);
        let s = sig_bytes(v);
        assert(s.drop_last() =~= sig_bytes(v / 256));
    }
}

/// An integer's atom decodes to the integer.
pub proof fn lemma_int_round_trip(v: int)
    ensures
        atom_value(int_bytes(v)) == v,
{
    if v != 0 {
        lemma_sig_bytes_value(v);
    }
}

/// The bytes of a nonnegative `w`, computed from the least significant end.
fn sig_bytes_of(w: u64) -> (r: Vec<u8>)
    ensures
        r@ == sig_bytes(w as int),
{
    let mut le: Vec<u8> = Vec::new();
    let mut x: u64 = w;
    while x >= 128
        invariant
            sig_bytes(w as int) == sig_bytes(x as int) + le@.reverse(),
        decreases x,
    {
        proof {
            assert(sig_bytes(x as int) == sig_bytes(x as int / 256).push((x as int % 256) as u8));
            assert(sig_bytes(x as int / 256).push((x % 256) as u8) + le@.reverse() =~= sig_bytes(
                x as int / 256,
            ) + le@.push((x % 256) as u8).reverse());
        }
        le.push((x % 256) as u8);
        x = x / 256;
    }
    le.push(x as u8);
    proof {
        assert(sig_bytes(x as int) =~= seq![x as u8]);
        assert(sig_bytes(w as int) =~= le@.reverse());
    }
    let mut out: Vec<u8> = Vec::new();
    let mut i: usize = le.len();
    while i > 0
        invariant
            i <= le.len(),
            out@ =~= le@.subrange(i as int, le@.len() as int).reverse(),
        decreases i,
    {
        i = i - 1;
        out.push(le[i]);
        assert(out@ =~= le@.subrange(i as int, le@.len() as int).reverse());
    }
    assert(le@.subrange(0, le@.len() as int) =~= le@);
    out
}

/// The atom bytes of an integer.
pub fn int_to_bytes(v: i128) -> (r: Vec<u8>)
    requires
        -INT_BOUND <= v < INT_BOUND,
    ensures
        r@ == int_bytes(v as int),
{
    if v == 0 {
        return Vec::new();
    }
    if v > 0 {
        return sig_bytes_of(v as u64);
    }
    let w = sig_bytes_of((-v - 1) as u64);
    let mut out: Vec<u8> = Vec::new();
    let mut i: usize = 0;
    while i < w.len()
        invariant
            i <= w.len(),
            out@ =~= flip_bytes(w@.subrange(0, i as int)),
        decreases w.len() - i,
    {
        out.push(255 - w[i]);
        i = i + 1;
        assert(out@ =~= flip_bytes(w@.subrange(0, i as int)));
    }
    proof {
        assert(w@.subrange(0, w@.len() as int) =~= w@);
        lemma_sig_bytes_negative(v as int);
    }
    out
}

proof fn lemma_take_step(s: Seq<u8>, i: int)
    requires
        1 <= i < s.len(),
    ensures
        atom_value(s.take(i + 1)) == atom_value(s.take(i)) * 256 + s[i],
{
    assert(s.take(i + 1).drop_last() =~= s.take(i));
}

/// Once a prefix is out of range, so is the whole atom.
proof fn lemma_out_of_range_stays(s: Seq<u8>, i: int)
    requires
        1 <= i <= s.len(),
        !(-INT_BOUND <= atom_value(s.take(i)) < INT_BOUND),
    ensures
        !(-INT_BOUND <= atom_value(s) < INT_BOUND),
    decreases s.len() - i,
{
    if i == s.len() {
        assert(s.take(i) =~= s);
    } else {
        lemma_take_step(s, i);
        lemma_out_of_range_stays(s, i + 1);
    }
}

/// The value of an atom, where it lies in [-2^64, 2^64).
fn atom_to_int(b: &[u8]) -> (r: Option<i128>)
    ensures
        match r {
            Some(x) => x as int == atom_value(b@) && -INT_BOUND <= x < INT_BOUND,
            None => !(-INT_BOUND <= atom_value(b@) < INT_BOUND),
        },
{
    if b.len() == 0 {
        return Some(0);
    }
    let mut acc: i128 = if b[0] >= 128 {
        b[0] as i128 - 256
    } else {
        b[0] as i128
    };
    assert(b@.take(1) =~= seq![b@[0]]);
    let mut i: usize = 1;
    while i < b.len()
        invariant
            1 <= i <= b.len(),
            acc == atom_value(b@.take(i as int)),
            -INT_BOUND <= acc < INT_BOUND,
        decreases b.len() - i,
    {
        let next: i128 = acc * 256 + b[i] as i128;
        proof {
            lemma_take_step(b@, i as int);
        }
        if next < -INT_BOUND || next >= INT_BOUND {
            proof {
                lemma_out_of_range_stays(b@, i + 1);
            }
            return None;
        }
        acc = next;
        i = i + 1;
    }
    assert(b@.take(b.len() as int) =~= b@);
    Some(acc)
}

/// Stores the atom of an integer.
pub fn int_to_clvm(a: &mut Allocator, v: i128) -> (r: Result<NodePtr, ToClvmError>)
    requires
        heap_sound(*old(a)),
        -INT_BOUND <= v < INT_BOUND,
    ensures
        encoded(*old(a), *final(a), r, Tree::Atom(int_bytes(v as int)), atom_cost(int_bytes(v as int).len() as int)),
{
    let bytes = int_to_bytes(v);
    make_atom(a, bytes.as_slice())
}

/// Reads a node as an integer in `[lo, hi]`.
pub fn int_from_clvm(a: &Allocator, n: NodePtr, lo: i128, hi: i128, width: usize) -> (r: Result<
    i128,
    FromClvmError,
>)
    requires
        valid_node(*a, n),
        -INT_BOUND <= lo,
        hi < INT_BOUND,
    ensures
        match r {
            Ok(x) => int_from_tree(tree_of(*a, n), lo as int, hi as int, width) == Ok::<
                int,
                FromClvmErrorView,
            >(x as int),
            Err(e) => int_from_tree(tree_of(*a, n), lo as int, hi as int, width) == Err::<
                int,
                FromClvmErrorView,
            >(e@),
        },
{
    match a.sexp(n) {
        SExp::Pair(_, _) => Err(FromClvmError::ExpectedAtom),
        SExp::Atom => {
            let b = a.atom(n);
            match atom_to_int(b) {
                Some(x) => {
                    if lo <= x && x <= hi {
                        Ok(x)
                    } else {
                        Err(FromClvmError::WrongAtomLength { expected: width, found: b.len() })
                    }
                },
                None => Err(FromClvmError::WrongAtomLength { expected: width, found: b.len() }),
            }
        },
    }
}

/// Padding an atom with a sign-extension byte leaves its value unchanged:
/// a padded atom decodes as the shortest one does.
pub proof fn lemma_sign_padding(s: Seq<u8>)
    requires
        s.len() >= 1,
    ensures
        atom_value(seq![if s[0] >= 128 { 255u8 } else { 0u8 }] + s) == atom_value(s),
    decreases s.len(),
{
    let f: u8 = if s[0] >= 128 { 255u8 } else { 0u8 };
    let p = seq![f] + s;
    if s.len() == 1 {
        assert(p.drop_last() =~= seq![f]);
        assert(atom_value(seq![f]) == if f >= 128 { f - 256 } else { f as int });
        assert(atom_value(p) == atom_value(p.drop_last()) * 256 + p.last());
    } else {
        assert(p.drop_last() =~= seq![f] + s.drop_last());
        assert(s.drop_last()[0] == s[0]);
        lemma_sign_padding(s.drop_last());
        assert(atom_value(p) == atom_value(p.drop_last()) * 256 + p.last());
        assert(atom_value(s) == atom_value(s.drop_last()) * 256 + s.last());
    }
}

/// An integer's atom has no redundant leading byte: a leading `0x00` only
/// before a byte with the high bit set, a leading `0xff` only before one
/// without it.
pub proof fn lemma_int_bytes_minimal(v: int)
    ensures
        int_bytes(v).len() >= 2 ==> !(int_bytes(v)[0] == 0 && int_bytes(v)[1] < 128) && !(
        int_bytes(v)[0] == 255 && int_bytes(v)[1] >= 128),
    decreases abs(v),
{
    if v != 0 && !(-128 <= v < 128) {
        let q = v / 256;
        let r = v % 256;
        lemma_fundamental_div_mod(v, 256);
        lemma_sig_bytes_nonempty(q);
        let s = sig_bytes(v);
        assert(s == sig_bytes(q).push(r as u8));
        if -128 <= q < 128 {
            assert(sig_bytes(q) == seq![(q % 256) as u8]);
            assert(s[0] == (q % 256) as u8);
            assert(s[1] == r as u8);
            if q >= 0 {
                assert(q % 256 == q);
            } else {
                assert(q % 256 == q + 256) by {
                    lemma_fundamental_div_mod_converse_mod(q, 256, -1, q + 256);
                }
            }
        } else {
            lemma_sig_bytes_nonempty(q / 256);
            assert(sig_bytes(q) == sig_bytes(q / 256).push((q % 256) as u8));
            lemma_int_bytes_minimal(q);
            assert(s[0] == sig_bytes(q)[0]);
            assert(s[1] == sig_bytes(q)[1]);
        }
    }
}

/// Decoding an atom as a `u8`.
pub open spec fn u8_from_tree(t: Tree) -> Result<u8, FromClvmErrorView> {
    match int_from_tree(t, 0 as int, u8::MAX as int, 1) {
        Ok(x) => Ok(x as u8),
        Err(e) => Err(e),
    }
}

/// Stores a `u8` as its atom.
pub fn u8_to_clvm(a: &mut Allocator, v: u8) -> (r: Result<NodePtr, ToClvmError>)
    requires
        heap_sound(*old(a)),
    ensures
        encoded(*old(a), *final(a), r, Tree::Atom(int_bytes(v as int)), atom_cost(int_bytes(v as int).len() as int)),
{
    int_to_clvm(a, v as i128)
}

/// Reads a node as a `u8`: an atom whose value fits.
pub fn u8_from_clvm(a: &Allocator, n: NodePtr) -> (r: Result<u8, FromClvmError>)
    requires
        valid_node(*a, n),
    ensures
        decoded(r, u8_from_tree(tree_of(*a, n))),
{
    match int_from_clvm(a, n, 0 as i128, u8::MAX as i128, 1) {
        Ok(x) => Ok(x as u8),
        Err(e) => Err(e),
    }
}

/// A `u8` decodes from its own atom.
pub proof fn lemma_u8_round_trip(v: u8)
    ensures
        u8_from_tree(Tree::Atom(int_bytes(v as int))) == Ok::<u8, FromClvmErrorView>(v),
{
    lemma_int_round_trip(v as int);
}

/// Decoding an atom as a `u16`.
pub open spec fn u16_from_tree(t: Tree) -> Result<u16, FromClvmErrorView> {
    match int_from_tree(t, 0 as int, u16::MAX as int, 2) {
        Ok(x) => Ok(x as u16),
        Err(e) => Err(e),
    }
}

/// Stores a `u16` as its atom.
pub fn u16_to_clvm(a: &mut Allocator, v: u16) -> (r: Result<NodePtr, ToClvmError>)
    requires
        heap_sound(*old(a)),
    ensures
        encoded(*old(a), *final(a), r, Tree::Atom(int_bytes(v as int)), atom_cost(int_bytes(v as int).len() as int)),
{
    int_to_clvm(a, v as i128)
}

/// Reads a node as a `u16`: an atom whose value fits.
pub fn u16_from_clvm(a: &Allocator, n: NodePtr) -> (r: Result<u16, FromClvmError>)
    requires
        valid_node(*a, n),
    ensures
        decoded(r, u16_from_tree(tree_of(*a, n))),
{
    match int_from_clvm(a, n, 0 as i128, u16::MAX as i128, 2) {
        Ok(x) => Ok(x as u16),
        Err(e) => Err(e),
    }
}

/// A `u16` decodes from its own atom.
pub proof fn lemma_u16_round_trip(v: u16)
    ensures
        u16_from_tree(Tree::Atom(int_bytes(v as int))) == Ok::<u16, FromClvmErrorView>(v),
{
    lemma_int_round_trip(v as int);
}

/// Decoding an atom as a `u32`.
pub open spec fn u32_from_tree(t: Tree) -> Result<u32, FromClvmErrorView> {
    match int_from_tree(t, 0 as int, u32::MAX as int, 4) {
        Ok(x) => Ok(x as u32),
        Err(e) => Err(e),
    }
}

/// Stores a `u32` as its atom.
pub fn u32_to_clvm(a: &mut Allocator, v: u32) -> (r: Result<NodePtr, ToClvmError>)
    requires
        heap_sound(*old(a)),
    ensures
        encoded(*old(a), *final(a), r, Tree::Atom(int_bytes(v as int)), atom_cost(int_bytes(v as int).len() as int)),
{
    int_to_clvm(a, v as i128)
}

/// Reads a node as a `u32`: an atom whose value fits.
pub fn u32_from_clvm(a: &Allocator, n: NodePtr) -> (r: Result<u32, FromClvmError>)
    requires
        valid_node(*a, n),
    ensures
        decoded(r, u32_from_tree(tree_of(*a, n))),
{
    match int_from_clvm(a, n, 0 as i128, u32::MAX as i128, 4) {
        Ok(x) => Ok(x as u32),
        Err(e) => Err(e),
    }
}

/// A `u32` decodes from its own atom.
pub proof fn lemma_u32_round_trip(v: u32)
    ensures
        u32_from_tree(Tree::Atom(int_bytes(v as int))) == Ok::<u32, FromClvmErrorView>(v),
{
    lemma_int_round_trip(v as int);
}

/// Decoding an atom as a `u64`.
pub open spec fn u64_from_tree(t: Tree) -> Result<u64, FromClvmErrorView> {
    match int_from_tree(t, 0 as int, u64::MAX as int, 8) {
        Ok(x) => Ok(x as u64),
        Err(e) => Err(e),
    }
}

/// Stores a `u64` as its atom.
pub fn u64_to_clvm(a: &mut Allocator, v: u64) -> (r: Result<NodePtr, ToClvmError>)
    requires
        heap_sound(*old(a)),
    ensures
        encoded(*old(a), *final(a), r, Tree::Atom(int_bytes(v as int)), atom_cost(int_bytes(v as int).len() as int)),
{
    int_to_clvm(a, v as i128)
}

/// Reads a node as a `u64`: an atom whose value fits.
pub fn u64_from_clvm(a: &Allocator, n: NodePtr) -> (r: Result<u64, FromClvmError>)
    requires
        valid_node(*a, n),
    ensures
        decoded(r, u64_from_tree(tree_of(*a, n))),
{
    match int_from_clvm(a, n, 0 as i128, u64::MAX as i128, 8) {
        Ok(x) => Ok(x as u64),
        Err(e) => Err(e),
    }
}

/// A `u64` decodes from its own atom.
pub proof fn lemma_u64_round_trip(v: u64)
    ensures
        u64_from_tree(Tree::Atom(int_bytes(v as int))) == Ok::<u64, FromClvmErrorView>(v),
{
    lemma_int_round_trip(v as int);
}

/// Decoding an atom as a `i8`.
pub open spec fn i8_from_tree(t: Tree) -> Result<i8, FromClvmErrorView> {
    match int_from_tree(t, i8::MIN as int, i8::MAX as int, 1) {
        Ok(x) => Ok(x as i8),
        Err(e) => Err(e),
    }
}

/// Stores a `i8` as its atom.
pub fn i8_to_clvm(a: &mut Allocator, v: i8) -> (r: Result<NodePtr, ToClvmError>)
    requires
        heap_sound(*old(a)),
    ensures
        encoded(*old(a), *final(a), r, Tree::Atom(int_bytes(v as int)), atom_cost(int_bytes(v as int).len() as int)),
{
    int_to_clvm(a, v as i128)
}

/// Reads a node as a `i8`: an atom whose value fits.
pub fn i8_from_clvm(a: &Allocator, n: NodePtr) -> (r: Result<i8, FromClvmError>)
    requires
        valid_node(*a, n),
    ensures
        decoded(r, i8_from_tree(tree_of(*a, n))),
{
    match int_from_clvm(a, n, i8::MIN as i128, i8::MAX as i128, 1) {
        Ok(x) => Ok(x as i8),
        Err(e) => Err(e),
    }
}

/// A `i8` decodes from its own atom.
pub proof fn lemma_i8_round_trip(v: i8)
    ensures
        i8_from_tree(Tree::Atom(int_bytes(v as int))) == Ok::<i8, FromClvmErrorView>(v),
{
    lemma_int_round_trip(v as int);
}

/// Decoding an atom as a `i16`.
pub open spec fn i16_from_tree(t: Tree) -> Result<i16, FromClvmErrorView> {
    match int_from_tree(t, i16::MIN as int, i16::MAX as int, 2) {
        Ok(x) => Ok(x as i16),
        Err(e) => Err(e),
    }
}

/// Stores a `i16` as its atom.
pub fn i16_to_clvm(a: &mut Allocator, v: i16) -> (r: Result<NodePtr, ToClvmError>)
    requires
        heap_sound(*old(a)),
    ensures
        encoded(*old(a), *final(a), r, Tree::Atom(int_bytes(v as int)), atom_cost(int_bytes(v as int).len() as int)),
{
    int_to_clvm(a, v as i128)
}

/// Reads a node as a `i16`: an atom whose value fits.
pub fn i16_from_clvm(a: &Allocator, n: NodePtr) -> (r: Result<i16, FromClvmError>)
    requires
        valid_node(*a, n),
    ensures
        decoded(r, i16_from_tree(tree_of(*a, n))),
{
    match int_from_clvm(a, n, i16::MIN as i128, i16::MAX as i128, 2) {
        Ok(x) => Ok(x as i16),
        Err(e) => Err(e),
    }
}

/// A `i16` decodes from its own atom.
pub proof fn lemma_i16_round_trip(v: i16)
    ensures
        i16_from_tree(Tree::Atom(int_bytes(v as int))) == Ok::<i16, FromClvmErrorView>(v),
{
    lemma_int_round_trip(v as int);
}

/// Decoding an atom as a `i32`.
pub open spec fn i32_from_tree(t: Tree) -> Result<i32, FromClvmErrorView> {
    match int_from_tree(t, i32::MIN as int, i32::MAX as int, 4) {
        Ok(x) => Ok(x as i32),
        Err(e) => Err(e),
    }
}

/// Stores a `i32` as its atom.
pub fn i32_to_clvm(a: &mut Allocator, v: i32) -> (r: Result<NodePtr, ToClvmError>)
    requires
        heap_sound(*old(a)),
    ensures
        encoded(*old(a), *final(a), r, Tree::Atom(int_bytes(v as int)), atom_cost(int_bytes(v as int).len() as int)),
{
    int_to_clvm(a, v as i128)
}

/// Reads a node as a `i32`: an atom whose value fits.
pub fn i32_from_clvm(a: &Allocator, n: NodePtr) -> (r: Result<i32, FromClvmError>)
    requires
        valid_node(*a, n),
    ensures
        decoded(r, i32_from_tree(tree_of(*a, n))),
{
    match int_from_clvm(a, n, i32::MIN as i128, i32::MAX as i128, 4) {
        Ok(x) => Ok(x as i32),
        Err(e) => Err(e),
    }
}

/// A `i32` decodes from its own atom.
pub proof fn lemma_i32_round_trip(v: i32)
    ensures
        i32_from_tree(Tree::Atom(int_bytes(v as int))) == Ok::<i32, FromClvmErrorView>(v),
{
    lemma_int_round_trip(v as int);
}

/// Decoding an atom as a `i64`.
pub open spec fn i64_from_tree(t: Tree) -> Result<i64, FromClvmErrorView> {
    match int_from_tree(t, i64::MIN as int, i64::MAX as int, 8) {
        Ok(x) => Ok(x as i64),
        Err(e) => Err(e),
    }
}

/// Stores a `i64` as its atom.
pub fn i64_to_clvm(a: &mut Allocator, v: i64) -> (r: Result<NodePtr, ToClvmError>)
    requires
        heap_sound(*old(a)),
    ensures
        encoded(*old(a), *final(a), r, Tree::Atom(int_bytes(v as int)), atom_cost(int_bytes(v as int).len() as int)),
{
    int_to_clvm(a, v as i128)
}

/// Reads a node as a `i64`: an atom whose value fits.
pub fn i64_from_clvm(a: &Allocator, n: NodePtr) -> (r: Result<i64, FromClvmError>)
    requires
        valid_node(*a, n),
    ensures
        decoded(r, i64_from_tree(tree_of(*a, n))),
{
    match int_from_clvm(a, n, i64::MIN as i128, i64::MAX as i128, 8) {
        Ok(x) => Ok(x as i64),
        Err(e) => Err(e),
    }
}

/// A `i64` decodes from its own atom.
pub proof fn lemma_i64_round_trip(v: i64)
    ensures
        i64_from_tree(Tree::Atom(int_bytes(v as int))) == Ok::<i64, FromClvmErrorView>(v),
{
    lemma_int_round_trip(v as int);
}

} // verus!
