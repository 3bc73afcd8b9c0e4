//! The node arena: `clvmr::Allocator` seen as a map from node handles to trees.
use vstd::prelude::*;
use clvmr::allocator::{Allocator, NodePtr, SExp};
use clvmr::reduction::EvalErr;
use crate::error::{encoded, ToClvmError};

verus! {

/// The value a node stands for: a byte string or a pair of two such values.
pub enum Tree {
    Atom(Seq<u8>),
    Pair(Box<Tree>, Box<Tree>),
}

impl Tree {
    pub open spec fn pair(first: Tree, rest: Tree) -> Tree {
        Tree::Pair(Box::new(first), Box::new(rest))
    }

    pub open spec fn nil() -> Tree {
        Tree::Atom(Seq::empty())
    }

    pub open spec fn is_nil(self) -> bool {
        self == Tree::nil()
    }
}

#[verifier::external_type_specification]
#[verifier::external_body]
pub struct ExAllocator(Allocator);

#[verifier::external_type_specification]
pub struct ExNodePtr(NodePtr);

#[verifier::external_type_specification]
pub struct ExSExp(SExp);

#[verifier::external_type_specification]
#[verifier::external_body]
pub struct ExEvalErr(EvalErr);

/// The nodes an allocator holds, keyed by the integer inside their handle.
pub uninterp spec fn arena_nodes(a: Allocator) -> Map<i32, Tree>;

/// `n` is a node of `a`.
pub open spec fn valid_node(a: Allocator, n: NodePtr) -> bool {
    arena_nodes(a).contains_key(n.0)
}

/// The tree that node `n` of `a` stands for.
pub open spec fn tree_of(a: Allocator, n: NodePtr) -> Tree {
    arena_nodes(a)[n.0]
}

/// Every node of `a0` is still in `a1`, standing for the same tree.
pub open spec fn arena_grows(a0: Allocator, a1: Allocator) -> bool {
    forall|k: i32| #[trigger]
        arena_nodes(a0).contains_key(k) ==> arena_nodes(a1).contains_key(k) && arena_nodes(a1)[k]
            == arena_nodes(a0)[k]
}

/// A node of `a0` is still there in `a1`, standing for the same tree.
pub proof fn lemma_grows_node(a0: Allocator, a1: Allocator, n: NodePtr)
    requires
        arena_grows(a0, a1),
        valid_node(a0, n),
    ensures
        valid_node(a1, n),
        tree_of(a1, n) == tree_of(a0, n),
{
}

/// Free space of an allocator, or the space a write takes: heap bytes,
/// atoms and pairs.
pub struct Room {
    pub heap: int,
    pub atoms: int,
    pub pairs: int,
}

impl Room {
    pub open spec fn plus(self, o: Room) -> Room {
        Room { heap: self.heap + o.heap, atoms: self.atoms + o.atoms, pairs: self.pairs + o.pairs }
    }
}

/// What one atom of `len` bytes takes.
pub open spec fn atom_cost(len: int) -> Room {
    Room { heap: len, atoms: 1, pairs: 0 }
}

/// What one pair takes.
pub open spec fn pair_cost() -> Room {
    Room { heap: 0, atoms: 0, pairs: 1 }
}

/// What is left of an allocator's heap, atom and pair limits.
pub uninterp spec fn arena_room(a: Allocator) -> Room;

/// The allocator does not hold more bytes than its heap limit; only one made
/// with a heap limit of zero breaks this.
pub open spec fn heap_sound(a: Allocator) -> bool {
    arena_room(a).heap >= 0
}

/// `a` has room for a write that takes `c`.
pub open spec fn has_room(a: Allocator, c: Room) -> bool {
    &&& arena_room(a).heap >= c.heap
    &&& arena_room(a).atoms >= c.atoms
    &&& arena_room(a).pairs >= c.pairs
}

/// Going from `a0` to `a1` took exactly `c`.
pub open spec fn spent(a0: Allocator, a1: Allocator, c: Room) -> bool {
    arena_room(a1) == Room {
        heap: arena_room(a0).heap - c.heap,
        atoms: arena_room(a0).atoms - c.atoms,
        pairs: arena_room(a0).pairs - c.pairs,
    }
}

/// Relies on clvmr's `Allocator::new_atom`: it refuses exactly when the bytes
/// do not fit under the heap limit or the atom limit is reached, and then
/// changes nothing; else it stores the bytes under a new handle.
pub assume_specification[ Allocator::new_atom ](a: &mut Allocator, v: &[u8]) -> (r: Result<NodePtr, EvalErr>)
    requires
        heap_sound(*old(a)),
    ensures
        r is Ok <==> (arena_room(*old(a)).heap >= v@.len() && arena_room(*old(a)).atoms != 0),
        match r {
            Ok(n) => {
                &&& !arena_nodes(*old(a)).contains_key(n.0)
                &&& arena_grows(*old(a), *final(a))
                &&& arena_nodes(*final(a)).contains_key(n.0)
                &&& arena_nodes(*final(a))[n.0] == Tree::Atom(v@)
                &&& spent(*old(a), *final(a), atom_cost(v@.len() as int))
            },
            Err(_) => arena_nodes(*final(a)) == arena_nodes(*old(a)) && arena_room(*final(a))
                == arena_room(*old(a)),
        },
;

/// Relies on clvmr's `Allocator::new_pair`: it refuses exactly when the pair
/// limit is reached, and then changes nothing; else it stores the pair
/// under a new handle.
pub assume_specification[ Allocator::new_pair ](a: &mut Allocator, first: NodePtr, rest: NodePtr) -> (r: Result<NodePtr, EvalErr>)
    ensures
        r is Ok <==> arena_room(*old(a)).pairs != 0,
        match r {
            Ok(n) => {
                &&& !arena_nodes(*old(a)).contains_key(n.0)
                &&& arena_grows(*old(a), *final(a))
                &&& (valid_node(*old(a), first) && valid_node(*old(a), rest) ==> arena_nodes(
                    *final(a),
                ).contains_key(n.0) && arena_nodes(*final(a))[n.0] == Tree::pair(
                    tree_of(*old(a), first),
                    tree_of(*old(a), rest),
                ))
                &&& spent(*old(a), *final(a), pair_cost())
            },
            Err(_) => arena_nodes(*final(a)) == arena_nodes(*old(a)) && arena_room(*final(a))
                == arena_room(*old(a)),
        },
;

/// Relies on clvmr's `Allocator::sexp`: tells an atom from a pair and gives a
/// pair's two halves.
pub assume_specification[ Allocator::sexp ](a: &Allocator, node: NodePtr) -> (r: SExp)
    requires
        valid_node(*a, node),
    ensures
        match r {
            SExp::Atom => tree_of(*a, node) is Atom,
            SExp::Pair(f, s) => valid_node(*a, f) && valid_node(*a, s) && tree_of(*a, node)
                == Tree::pair(tree_of(*a, f), tree_of(*a, s)),
        },
;

/// Relies on clvmr's `Allocator::atom`: the bytes of an atom node.
pub assume_specification[ Allocator::atom ](a: &Allocator, node: NodePtr) -> (r: &[u8])
    requires
        valid_node(*a, node),
        tree_of(*a, node) is Atom,
    ensures
        tree_of(*a, node) == Tree::Atom(r@),
;

/// Costs add up along a chain of writes.
pub proof fn lemma_spent_trans(a0: Allocator, a1: Allocator, a2: Allocator, c1: Room, c2: Room)
    requires
        spent(a0, a1, c1),
        spent(a1, a2, c2),
    ensures
        spent(a0, a2, c1.plus(c2)),
{
}

/// Growth is transitive.
pub proof fn lemma_grows_trans(a0: Allocator, a1: Allocator, a2: Allocator)
    requires
        arena_grows(a0, a1),
        arena_grows(a1, a2),
    ensures
        arena_grows(a0, a2),
{
    assert forall|k: i32| #[trigger] arena_nodes(a0).contains_key(k) implies arena_nodes(a2).contains_key(k)
        && arena_nodes(a2)[k] == arena_nodes(a0)[k] by {
        assert(arena_nodes(a1).contains_key(k));
    }
}

/// Stores an atom holding `bytes`.
pub fn make_atom(a: &mut Allocator, bytes: &[u8]) -> (r: Result<NodePtr, ToClvmError>)
    requires
        heap_sound(*old(a)),
    ensures
        encoded(*old(a), *final(a), r, Tree::Atom(bytes@), atom_cost(bytes@.len() as int)),
{
    match a.new_atom(bytes) {
        Ok(n) => Ok(n),
        Err(_) => Err(ToClvmError::LimitReached),
    }
}

/// Stores the pair of two nodes already in the arena.
pub fn make_pair(a: &mut Allocator, first: NodePtr, rest: NodePtr) -> (r: Result<
    NodePtr,
    ToClvmError,
>)
    requires
        heap_sound(*old(a)),
        valid_node(*old(a), first),
        valid_node(*old(a), rest),
    ensures
        encoded(
            *old(a),
            *final(a),
            r,
            Tree::pair(tree_of(*old(a), first), tree_of(*old(a), rest)),
            pair_cost(),
        ),
{
    match a.new_pair(first, rest) {
        Ok(n) => Ok(n),
        Err(_) => Err(ToClvmError::LimitReached),
    }
}

} // verus!
