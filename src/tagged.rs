//! Enums tagged by an integer discriminant: `(discriminant . payload)`.
use vstd::prelude::*;
use clvmr::allocator::{Allocator, NodePtr, SExp};
use crate::arena::{atom_cost, heap_sound, pair_cost, lemma_grows_node, lemma_grows_trans, make_pair, tree_of, valid_node, Tree};
use crate::error::{encoded, FromClvmError, FromClvmErrorView, ToClvmError};
use crate::integer::{int_bytes, int_from_clvm, int_from_tree, int_to_clvm, lemma_int_round_trip, INT_BOUND};

verus! {

/// The integer type of an enum's discriminants; `U8` unless the enum
/// declares another.
#[derive(Debug, Clone, Copy, PartialEq, Eq, Structural)]
pub enum DiscriminantType {
    U8,
    U16,
    U32,
    U64,
    I8,
    I16,
    I32,
    I64,
}

impl DiscriminantType {
    pub open spec fn min(self) -> int {
        match self {
            DiscriminantType::U8 | DiscriminantType::U16 | DiscriminantType::U32 | DiscriminantType::U64 => 0,
            DiscriminantType::I8 => i8::MIN as int,
            DiscriminantType::I16 => i16::MIN as int,
            DiscriminantType::I32 => i32::MIN as int,
            DiscriminantType::I64 => i64::MIN as int,
        }
    }

    pub open spec fn max(self) -> int {
        match self {
            DiscriminantType::U8 => u8::MAX as int,
            DiscriminantType::U16 => u16::MAX as int,
            DiscriminantType::U32 => u32::MAX as int,
            DiscriminantType::U64 => u64::MAX as int,
            DiscriminantType::I8 => i8::MAX as int,
            DiscriminantType::I16 => i16::MAX as int,
            DiscriminantType::I32 => i32::MAX as int,
            DiscriminantType::I64 => i64::MAX as int,
        }
    }

    /// Size in bytes.
    pub open spec fn width(self) -> usize {
        match self {
            DiscriminantType::U8 | DiscriminantType::I8 => 1,
            DiscriminantType::U16 | DiscriminantType::I16 => 2,
            DiscriminantType::U32 | DiscriminantType::I32 => 4,
            DiscriminantType::U64 | DiscriminantType::I64 => 8,
        }
    }

    /// The smallest and largest values and the size in bytes.
    pub fn bounds(self) -> (r: (i128, i128, usize))
        ensures
            r.0 == self.min(),
            r.1 == self.max(),
            r.2 == self.width(),
    {
        match self {
            DiscriminantType::U8 => (0, u8::MAX as i128, 1),
            DiscriminantType::U16 => (0, u16::MAX as i128, 2),
            DiscriminantType::U32 => (0, u32::MAX as i128, 4),
            DiscriminantType::U64 => (0, u64::MAX as i128, 8),
            DiscriminantType::I8 => (i8::MIN as i128, i8::MAX as i128, 1),
            DiscriminantType::I16 => (i16::MIN as i128, i16::MAX as i128, 2),
            DiscriminantType::I32 => (i32::MIN as i128, i32::MAX as i128, 4),
            DiscriminantType::I64 => (i64::MIN as i128, i64::MAX as i128, 8),
        }
    }
}

pub open spec fn tagged_tree(disc: int, payload: Tree) -> Tree {
    Tree::pair(Tree::Atom(int_bytes(disc)), payload)
}

/// `table` holds `v`.
pub open spec fn in_table(table: Seq<i128>, v: int) -> bool {
    exists|i: int| 0 <= i < table.len() && table[i] == v
}

/// `i` is the first place of `v` in `table`.
pub open spec fn is_first_index(table: Seq<i128>, v: int, i: int) -> bool {
    &&& 0 <= i < table.len()
    &&& table[i] == v
    &&& forall|j: int| 0 <= j < i ==> table[j] != v
}

/// Decoding a tagged value against the discriminants of the variants, in
/// declaration order: the index of the first variant with the discriminant
/// read as type `kind`, and the payload.
pub open spec fn tagged_from_tree(t: Tree, kind: DiscriminantType, table: Seq<i128>) -> Result<
    (int, Tree),
    FromClvmErrorView,
> {
    match t {
        Tree::Atom(_) => Err(FromClvmErrorView::ExpectedPair),
        Tree::Pair(d, p) => match int_from_tree(*d, kind.min(), kind.max(), kind.width()) {
            Err(e) => Err(e),
            Ok(v) => if in_table(table, v) {
                Ok((choose|i: int| is_first_index(table, v, i), *p))
            } else {
                Err(FromClvmErrorView::WrongDiscriminant)
            },
        },
    }
}

/// Stores a variant's payload behind its discriminant.
pub fn tagged_to_clvm(a: &mut Allocator, disc: i128, payload: NodePtr) -> (r: Result<NodePtr, ToClvmError>)
    requires
        heap_sound(*old(a)),
        valid_node(*old(a), payload),
        -INT_BOUND <= disc < INT_BOUND,
    ensures
        encoded(
            *old(a),
            *final(a),
            r,
            tagged_tree(disc as int, tree_of(*old(a), payload)),
            atom_cost(int_bytes(disc as int).len() as int).plus(pair_cost()),
        ),
{
    let ghost a0 = *a;
    let d = match int_to_clvm(a, disc) {
        Ok(d) => d,
        Err(e) => return Err(e),
    };
    proof {
        lemma_grows_node(a0, *a, payload);
    }
    let ghost a1 = *a;
    let r = make_pair(a, d, payload);
    proof {
        lemma_grows_trans(a0, a1, *a);
    }
    r
}

/// Reads a tagged value: the index in `table` of its variant and the node of
/// its payload. An unknown discriminant is refused.
pub fn tagged_from_clvm(a: &Allocator, n: NodePtr, kind: DiscriminantType, table: &Vec<i128>) -> (r: Result<
    (usize, NodePtr),
    FromClvmError,
>)
    requires
        valid_node(*a, n),
    ensures
        match r {
            Ok((i, p)) => valid_node(*a, p) && tagged_from_tree(tree_of(*a, n), kind, table@) == Ok::<
                (int, Tree),
                FromClvmErrorView,
            >((i as int, tree_of(*a, p))),
            Err(e) => tagged_from_tree(tree_of(*a, n), kind, table@) == Err::<
                (int, Tree),
                FromClvmErrorView,
            >(e@),
        },
{
    let (d, p) = match a.sexp(n) {
        SExp::Atom => return Err(FromClvmError::ExpectedPair),
        SExp::Pair(d, p) => (d, p),
    };
    let (lo, hi, width) = kind.bounds();
    let v = match int_from_clvm(a, d, lo, hi, width) {
        Ok(v) => v,
        Err(e) => return Err(e),
    };
    let mut i: usize = 0;
    while i < table.len()
        invariant
            i <= table.len(),
            forall|j: int| 0 <= j < i ==> table@[j] != v,
            valid_node(*a, p),
            tree_of(*a, n) == Tree::pair(tree_of(*a, d), tree_of(*a, p)),
            int_from_tree(tree_of(*a, d), kind.min(), kind.max(), kind.width()) == Ok::<
                int,
                FromClvmErrorView,
            >(v as int),
        decreases table.len() - i,
    {
        if table[i] == v {
            proof {
                assert(is_first_index(table@, v as int, i as int));
                let c = choose|c: int| is_first_index(table@, v as int, c);
                assert(c == i as int) by {
                    if c < i {
                        assert(table@[c] != v);
                    } else if c > i {
                        assert(table@[i as int] != v);
                    }
                }
            }
            return Ok((i, p));
        }
        i = i + 1;
    }
    Err(FromClvmError::WrongDiscriminant)
}

/// A variant's value decodes back to that variant and payload, given that
/// its discriminant fits the type and no earlier variant has it.
pub proof fn lemma_tagged_round_trip(kind: DiscriminantType, table: Seq<i128>, i: int, payload: Tree)
    requires
        is_first_index(table, table[i] as int, i),
        kind.min() <= table[i] <= kind.max(),
    ensures
        tagged_from_tree(tagged_tree(table[i] as int, payload), kind, table) == Ok::<
            (int, Tree),
            FromClvmErrorView,
        >((i, payload)),
{
    let v = table[i] as int;
    lemma_int_round_trip(v);
    let c = choose|c: int| is_first_index(table, v, c);
    assert(c == i) by {
        if c < i {
            assert(table[c] != v);
        } else if c > i {
            assert(table[i] != v);
        }
    }
}

/// A discriminant that no variant has is refused as such: decoding never
/// falls through to some default variant.
pub proof fn lemma_unknown_discriminant(kind: DiscriminantType, table: Seq<i128>, disc: int, payload: Tree)
    requires
        !in_table(table, disc),
        kind.min() <= disc <= kind.max(),
    ensures
        tagged_from_tree(tagged_tree(disc, payload), kind, table) == Err::<
            (int, Tree),
            FromClvmErrorView,
        >(FromClvmErrorView::WrongDiscriminant),
{
    lemma_int_round_trip(disc);
}

} // verus!
