//! The three framings of a value's fields: tuple, list and curry.
use vstd::prelude::*;
use clvmr::allocator::{Allocator, NodePtr, SExp};
use crate::arena::{atom_cost, heap_sound, spent, Room, arena_grows, lemma_grows_node, lemma_grows_trans, make_atom, make_pair, tree_of, valid_node, Tree};
use crate::primitives::{is_nil, nil_to_clvm};
use crate::error::{encoded, FromClvmError, FromClvmErrorView, ToClvmError};

verus! {

/// How a value's fields are framed.
#[derive(Debug, Clone, Copy, PartialEq, Eq, Structural)]
pub enum Repr {
    /// `(A . (B . C))`: the last field is not nested further.
    Tuple,
    /// `(A B C)`: a proper list ending in nil.
    List,
    /// `(c (q . A) (c (q . B) (c (q . C) 1)))`: arguments curried onto a program.
    Curry,
}

/// The trees of a sequence of nodes.
pub open spec fn trees_of(a: Allocator, ns: Seq<NodePtr>) -> Seq<Tree> {
    ns.map_values(|n: NodePtr| tree_of(a, n))
}

/// Every node of the sequence is in the arena.
pub open spec fn all_valid(a: Allocator, ns: Seq<NodePtr>) -> bool {
    forall|i: int| 0 <= i < ns.len() ==> valid_node(a, #[trigger] ns[i])
}

pub open spec fn tuple_tree(fs: Seq<Tree>) -> Tree
    decreases fs.len(),
{
    if fs.len() == 0 {
        Tree::nil()
    } else if fs.len() == 1 {
        fs[0]
    } else {
        Tree::pair(fs[0], tuple_tree(fs.drop_first()))
    }
}

pub open spec fn list_tree(fs: Seq<Tree>) -> Tree
    decreases fs.len(),
{
    if fs.len() == 0 {
        Tree::nil()
    } else {
        Tree::pair(fs[0], list_tree(fs.drop_first()))
    }
}

/// The operator atoms of the curry form: `1` quotes (and, alone, is the
/// environment), `4` conses.
pub open spec fn op_atom(op: u8) -> Tree {
    Tree::Atom(seq![op])
}

/// `(c (q . f) rest)`.
pub open spec fn curry_step(f: Tree, rest: Tree) -> Tree {
    Tree::pair(op_atom(4), Tree::pair(Tree::pair(op_atom(1), f), Tree::pair(rest, Tree::nil())))
}

pub open spec fn curry_tree(fs: Seq<Tree>) -> Tree
    decreases fs.len(),
{
    if fs.len() == 0 {
        op_atom(1)
    } else {
        curry_step(fs[0], curry_tree(fs.drop_first()))
    }
}

pub open spec fn frame_tree(repr: Repr, fs: Seq<Tree>) -> Tree {
    match repr {
        Repr::Tuple => tuple_tree(fs),
        Repr::List => list_tree(fs),
        Repr::Curry => curry_tree(fs),
    }
}

/// Puts `p` in front of the fields of a successful result.
pub open spec fn prepend(p: Seq<Tree>, r: Result<Seq<Tree>, FromClvmErrorView>) -> Result<
    Seq<Tree>,
    FromClvmErrorView,
> {
    match r {
        Ok(fs) => Ok(p + fs),
        Err(e) => Err(e),
    }
}

pub open spec fn tuple_fields(t: Tree, n: nat) -> Result<Seq<Tree>, FromClvmErrorView>
    decreases n,
{
    if n == 0 {
        if t.is_nil() {
            Ok(Seq::empty())
        } else {
            Err(FromClvmErrorView::ExpectedNil)
        }
    } else if n == 1 {
        Ok(seq![t])
    } else {
        match t {
            Tree::Pair(f, r) => prepend(seq![*f], tuple_fields(*r, (n - 1) as nat)),
            Tree::Atom(_) => Err(FromClvmErrorView::ExpectedPair),
        }
    }
}

pub open spec fn list_fields(t: Tree, n: nat) -> Result<Seq<Tree>, FromClvmErrorView>
    decreases n,
{
    if n == 0 {
        if t.is_nil() {
            Ok(Seq::empty())
        } else {
            Err(FromClvmErrorView::ExpectedNil)
        }
    } else {
        match t {
            Tree::Pair(f, r) => prepend(seq![*f], list_fields(*r, (n - 1) as nat)),
            Tree::Atom(_) => Err(FromClvmErrorView::ExpectedPair),
        }
    }
}

/// `t` is `(c (q . f) rest)`, giving `f` and `rest`.
pub open spec fn curry_parts(t: Tree) -> Option<(Tree, Tree)> {
    match t {
        Tree::Pair(c, t1) => match *t1 {
            Tree::Pair(qf, t2) => match *qf {
                Tree::Pair(q, f) => match *t2 {
                    Tree::Pair(rest, end) => if *c == op_atom(4) && *q == op_atom(1) && (*end).is_nil() {
                        Some((*f, *rest))
                    } else {
                        None
                    },
                    Tree::Atom(_) => None,
                },
                Tree::Atom(_) => None,
            },
            Tree::Atom(_) => None,
        },
        Tree::Atom(_) => None,
    }
}

pub open spec fn curry_fields(t: Tree, n: nat) -> Result<Seq<Tree>, FromClvmErrorView>
    decreases n,
{
    if n == 0 {
        if t == op_atom(1) {
            Ok(Seq::empty())
        } else {
            Err(FromClvmErrorView::InvalidCurryForm)
        }
    } else {
        match curry_parts(t) {
            Some((f, rest)) => prepend(seq![f], curry_fields(rest, (n - 1) as nat)),
            None => Err(FromClvmErrorView::InvalidCurryForm),
        }
    }
}

pub open spec fn frame_fields(repr: Repr, t: Tree, n: nat) -> Result<Seq<Tree>, FromClvmErrorView> {
    match repr {
        Repr::Tuple => tuple_fields(t, n),
        Repr::List => list_fields(t, n),
        Repr::Curry => curry_fields(t, n),
    }
}

/// A frame that splits gives exactly the fields asked for.
pub proof fn lemma_frame_fields_len(repr: Repr, t: Tree, n: nat)
    ensures
        frame_fields(repr, t, n) matches Ok(fs) ==> fs.len() == n,
    decreases n,
{
    if n > 0 {
        match repr {
            Repr::Tuple => {
                if n > 1 {
                    if let Tree::Pair(_, r) = t {
                        lemma_frame_fields_len(repr, *r, (n - 1) as nat);
                    }
                }
            },
            Repr::List => {
                if let Tree::Pair(_, r) = t {
                    lemma_frame_fields_len(repr, *r, (n - 1) as nat);
                }
            },
            Repr::Curry => {
                if let Some((_, r)) = curry_parts(t) {
                    lemma_frame_fields_len(repr, r, (n - 1) as nat);
                }
            },
        }
    }
}

/// Each framing gives back the fields it was built from.
pub proof fn lemma_frame_round_trip(repr: Repr, fs: Seq<Tree>)
    ensures
        frame_fields(repr, frame_tree(repr, fs), fs.len()) == Ok::<Seq<Tree>, FromClvmErrorView>(fs),
    decreases fs.len(),
{
    if fs.len() > 0 {
        lemma_frame_round_trip(repr, fs.drop_first());
        assert(seq![fs[0]] + fs.drop_first() =~= fs);
    } else {
        assert(fs =~= Seq::<Tree>::empty());
    }
}

/// Growing the arena keeps the nodes it had and what they stand for.
pub proof fn lemma_grows_keeps(a0: Allocator, a1: Allocator, ns: Seq<NodePtr>)
    requires
        arena_grows(a0, a1),
        all_valid(a0, ns),
    ensures
        all_valid(a1, ns),
        trees_of(a1, ns) == trees_of(a0, ns),
{
    assert forall|i: int| 0 <= i < ns.len() implies valid_node(a1, #[trigger] ns[i]) && tree_of(a1, ns[i])
        == tree_of(a0, ns[i]) by {
        assert(valid_node(a0, ns[i]));
    }
    assert(trees_of(a1, ns) =~= trees_of(a0, ns));
}

proof fn lemma_prepend_push(p: Seq<Tree>, x: Tree, r: Result<Seq<Tree>, FromClvmErrorView>)
    ensures
        prepend(p, prepend(seq![x], r)) == prepend(p.push(x), r),
{
    if let Ok(fs) = r {
        assert(p + (seq![x] + fs) =~= p.push(x) + fs);
    }
}

/// What the frame of `k` more fields takes beyond its start: a pair each,
/// or for a curry step the atoms `1`, nil and `4` (two bytes) and four pairs.
pub open spec fn steps_cost(repr: Repr, k: int) -> Room {
    match repr {
        Repr::Curry => Room { heap: 2 * k, atoms: 3 * k, pairs: 4 * k },
        _ => Room { heap: 0, atoms: 0, pairs: k },
    }
}

/// What storing the frame of `n` already-stored fields takes.
pub open spec fn frame_cost(repr: Repr, n: int) -> Room {
    match repr {
        Repr::Tuple => if n == 0 {
            atom_cost(0)
        } else {
            steps_cost(repr, n - 1)
        },
        Repr::List => atom_cost(0).plus(steps_cost(repr, n)),
        Repr::Curry => atom_cost(1).plus(steps_cost(repr, n)),
    }
}

/// Stores `(c (q . f) rest)`.
fn curry_step_node(a: &mut Allocator, f: NodePtr, rest: NodePtr) -> (r: Result<NodePtr, ToClvmError>)
    requires
        heap_sound(*old(a)),
        valid_node(*old(a), f),
        valid_node(*old(a), rest),
    ensures
        encoded(
            *old(a),
            *final(a),
            r,
            curry_step(tree_of(*old(a), f), tree_of(*old(a), rest)),
            steps_cost(Repr::Curry, 1),
        ),
{
    let ghost a0 = *a;
    let ghost nodes = seq![f, rest];
    assert(nodes[0] == f && nodes[1] == rest);
    let one: [u8; 1] = [1u8];
    let cons: [u8; 1] = [4u8];
    let empty: [u8; 0] = [];
    assert(one@ =~= seq![1u8]);
    assert(cons@ =~= seq![4u8]);
    assert(empty@ =~= Seq::<u8>::empty());
    let q = match make_atom(a, one.as_slice()) {
        Ok(n) => n,
        Err(e) => return Err(e),
    };
    proof {
        lemma_grows_keeps(a0, *a, nodes);
    }
    let ghost a1 = *a;
    let qf = match make_pair(a, q, f) {
        Ok(n) => n,
        Err(e) => {
            proof {
                lemma_grows_trans(a0, a1, *a);
            }
            return Err(e);
        },
    };
    proof {
        lemma_grows_keeps(a1, *a, nodes);
        lemma_grows_trans(a0, a1, *a);
    }
    let ghost a2 = *a;
    let nil = match make_atom(a, empty.as_slice()) {
        Ok(n) => n,
        Err(e) => {
            proof {
                lemma_grows_trans(a0, a2, *a);
            }
            return Err(e);
        },
    };
    proof {
        lemma_grows_keeps(a2, *a, nodes);
        lemma_grows_node(a2, *a, qf);
        lemma_grows_trans(a0, a2, *a);
    }
    let ghost a3 = *a;
    let t2 = match make_pair(a, rest, nil) {
        Ok(n) => n,
        Err(e) => {
            proof {
                lemma_grows_trans(a0, a3, *a);
            }
            return Err(e);
        },
    };
    proof {
        lemma_grows_node(a3, *a, qf);
        lemma_grows_trans(a0, a3, *a);
    }
    let ghost a4 = *a;
    let t1 = match make_pair(a, qf, t2) {
        Ok(n) => n,
        Err(e) => {
            proof {
                lemma_grows_trans(a0, a4, *a);
            }
            return Err(e);
        },
    };
    proof {
        lemma_grows_trans(a0, a4, *a);
    }
    let ghost a5 = *a;
    let c = match make_atom(a, cons.as_slice()) {
        Ok(n) => n,
        Err(e) => {
            proof {
                lemma_grows_trans(a0, a5, *a);
            }
            return Err(e);
        },
    };
    proof {
        lemma_grows_node(a5, *a, t1);
        lemma_grows_trans(a0, a5, *a);
    }
    let ghost a6 = *a;
    let r = make_pair(a, c, t1);
    proof {
        lemma_grows_trans(a0, a6, *a);
    }
    r
}

/// Builds the frame of `fields` from the back, starting from `acc`, the
/// frame of no fields (or, for a tuple, of the last one alone).
fn build_frame(a: &mut Allocator, repr: Repr, fields: &Vec<NodePtr>, end: usize, start: NodePtr) -> (r: Result<
    NodePtr,
    ToClvmError,
>)
    requires
        heap_sound(*old(a)),
        all_valid(*old(a), fields@),
        valid_node(*old(a), start),
        end <= fields.len(),
        repr == Repr::Tuple ==> end + 1 == fields.len() && tree_of(*old(a), start) == tuple_tree(
            trees_of(*old(a), fields@).subrange(end as int, fields.len() as int),
        ),
        repr != Repr::Tuple ==> end == fields.len() && tree_of(*old(a), start) == frame_tree(
            repr,
            Seq::empty(),
        ),
    ensures
        encoded(
            *old(a),
            *final(a),
            r,
            frame_tree(repr, trees_of(*old(a), fields@)),
            steps_cost(repr, end as int),
        ),
{
    let ghost a0 = *a;
    let ghost ts = trees_of(*a, fields@);
    let ghost len = fields.len() as int;
    let mut acc = start;
    let mut i = end;
    assert(ts.subrange(len, len) =~= Seq::<Tree>::empty());
    while i > 0
        invariant
            i <= end <= fields.len(),
            len == fields.len(),
            a0 == *old(a),
            ts == trees_of(a0, fields@),
            arena_grows(a0, *a),
            heap_sound(*a),
            spent(a0, *a, steps_cost(repr, end - i)),
            all_valid(*a, fields@),
            trees_of(*a, fields@) == ts,
            valid_node(*a, acc),
            tree_of(*a, acc) == frame_tree(repr, ts.subrange(i as int, len)),
            repr == Repr::Tuple ==> end + 1 == len,
            repr != Repr::Tuple ==> end == len,
        ensures
            i == 0,
            arena_grows(a0, *a),
            heap_sound(*a),
            spent(a0, *a, steps_cost(repr, end as int)),
            valid_node(*a, acc),
            tree_of(*a, acc) == frame_tree(repr, ts.subrange(0, len)),
        decreases i,
    {
        i = i - 1;
        let ghost before = *a;
        let f = fields[i];
        assert(valid_node(*a, fields@[i as int]));
        let ghost tail = ts.subrange(i as int + 1, len);
        assert(ts.subrange(i as int, len).drop_first() =~= tail);
        assert(ts.subrange(i as int, len)[0] == ts[i as int]);
        assert(tree_of(*a, f) == ts[i as int]);
        let next = match repr {
            Repr::Curry => curry_step_node(a, f, acc),
            _ => make_pair(a, f, acc),
        };
        proof {
            lemma_grows_keeps(before, *a, fields@);
            lemma_grows_trans(a0, before, *a);
        }
        acc = match next {
            Ok(n) => n,
            Err(e) => return Err(e),
        };
    }
    assert(ts.subrange(0, len) =~= ts);
    Ok(acc)
}

/// Stores the frame of already-stored field nodes.
pub fn frame_to_clvm(a: &mut Allocator, repr: Repr, fields: &Vec<NodePtr>) -> (r: Result<
    NodePtr,
    ToClvmError,
>)
    requires
        heap_sound(*old(a)),
        all_valid(*old(a), fields@),
    ensures
        encoded(
            *old(a),
            *final(a),
            r,
            frame_tree(repr, trees_of(*old(a), fields@)),
            frame_cost(repr, fields@.len() as int),
        ),
{
    let ghost a0 = *a;
    let ghost ts = trees_of(*a, fields@);
    let len = fields.len();
    if repr == Repr::Tuple {
        if len == 0 {
            return nil_to_clvm(a);
        }
        assert(valid_node(*a, fields@[len - 1]));
        assert(ts.subrange(len - 1, len as int) =~= seq![ts[len - 1]]);
        return build_frame(a, repr, fields, len - 1, fields[len - 1]);
    }
    let start = if repr == Repr::List {
        nil_to_clvm(a)
    } else {
        let one: [u8; 1] = [1u8];
        assert(one@ =~= seq![1u8]);
        make_atom(a, one.as_slice())
    };
    let start = match start {
        Ok(n) => n,
        Err(e) => return Err(e),
    };
    proof {
        lemma_grows_keeps(a0, *a, fields@);
    }
    let ghost a1 = *a;
    let r = build_frame(a, repr, fields, len, start);
    proof {
        lemma_grows_trans(a0, a1, *a);
    }
    r
}

/// Splits a node into the `count` field nodes of a frame.
pub fn frame_from_clvm(a: &Allocator, n: NodePtr, repr: Repr, count: usize) -> (r: Result<
    Vec<NodePtr>,
    FromClvmError,
>)
    requires
        valid_node(*a, n),
    ensures
        match r {
            Ok(v) => all_valid(*a, v@) && frame_fields(repr, tree_of(*a, n), count as nat) == Ok::<
                Seq<Tree>,
                FromClvmErrorView,
            >(trees_of(*a, v@)),
            Err(e) => frame_fields(repr, tree_of(*a, n), count as nat) == Err::<
                Seq<Tree>,
                FromClvmErrorView,
            >(e@),
        },
{
    let ghost t0 = tree_of(*a, n);
    let mut out: Vec<NodePtr> = Vec::new();
    let mut cur = n;
    let mut k: usize = 0;
    // A tuple's last field is the remainder itself.
    let peel = if repr == Repr::Tuple && count > 0 {
        count - 1
    } else {
        count
    };
    assert(trees_of(*a, out@) =~= Seq::<Tree>::empty());
    assert(prepend(Seq::<Tree>::empty(), frame_fields(repr, t0, count as nat)) =~= frame_fields(
        repr,
        t0,
        count as nat,
    )) by {
        if let Ok(fs) = frame_fields(repr, t0, count as nat) {
            assert(Seq::<Tree>::empty() + fs =~= fs);
        }
    }
    while k < peel
        invariant
            k <= peel,
            peel <= count,
            t0 == tree_of(*a, n),
            repr == Repr::Tuple && count > 0 ==> peel == count - 1,
            !(repr == Repr::Tuple && count > 0) ==> peel == count,
            valid_node(*a, cur),
            all_valid(*a, out@),
            frame_fields(repr, t0, count as nat) == prepend(
                trees_of(*a, out@),
                frame_fields(repr, tree_of(*a, cur), (count - k) as nat),
            ),
        decreases peel - k,
    {
        let ghost p = trees_of(*a, out@);
        let ghost m = (count - k) as nat;
        let next = if repr == Repr::Curry {
            curry_split(a, cur)
        } else {
            match a.sexp(cur) {
                SExp::Pair(f, r) => Some((f, r)),
                SExp::Atom => None,
            }
        };
        match next {
            None => {
                let e = if repr == Repr::Curry {
                    FromClvmError::InvalidCurryForm
                } else {
                    FromClvmError::ExpectedPair
                };
                proof {
                    assert(m >= 1);
                    if repr == Repr::Tuple {
                        assert(m >= 2);
                        assert(tuple_fields(tree_of(*a, cur), m) == Err::<Seq<Tree>, FromClvmErrorView>(e@));
                    } else if repr == Repr::List {
                        assert(list_fields(tree_of(*a, cur), m) == Err::<Seq<Tree>, FromClvmErrorView>(e@));
                    } else {
                        assert(curry_fields(tree_of(*a, cur), m) == Err::<Seq<Tree>, FromClvmErrorView>(e@));
                    }
                }
                return Err(e);
            },
            Some((f, r)) => {
                proof {
                    lemma_prepend_push(p, tree_of(*a, f), frame_fields(repr, tree_of(*a, r), (m - 1) as nat));
                }
                out.push(f);
                assert(trees_of(*a, out@) =~= p.push(tree_of(*a, f)));
                cur = r;
                k = k + 1;
            },
        }
    }
    let ghost p = trees_of(*a, out@);
    let ghost tc = tree_of(*a, cur);
    if repr == Repr::Tuple && count > 0 {
        proof {
            lemma_prepend_push(p, tc, Ok(Seq::empty()));
            assert(p.push(tc) + Seq::<Tree>::empty() =~= p.push(tc));
        }
        out.push(cur);
        assert(trees_of(*a, out@) =~= p.push(tc));
        return Ok(out);
    }
    let done = if repr == Repr::Curry {
        atom_is(a, cur, 1)
    } else {
        is_nil(a, cur)
    };
    if done {
        assert(p + Seq::<Tree>::empty() =~= p);
        Ok(out)
    } else if repr == Repr::Curry {
        Err(FromClvmError::InvalidCurryForm)
    } else {
        Err(FromClvmError::ExpectedNil)
    }
}

/// Whether a node is the one-byte atom `op`.
fn atom_is(a: &Allocator, n: NodePtr, op: u8) -> (r: bool)
    requires
        valid_node(*a, n),
    ensures
        r == (tree_of(*a, n) == op_atom(op)),
{
    match a.sexp(n) {
        SExp::Pair(_, _) => false,
        SExp::Atom => {
            let b = a.atom(n);
            if b.len() == 1 && b[0] == op {
                assert(b@ =~= seq![op]);
                true
            } else {
                assert(b@ != seq![op] ==> Tree::Atom(b@) != op_atom(op));
                false
            }
        },
    }
}

/// Takes `(c (q . f) rest)` apart.
fn curry_split(a: &Allocator, n: NodePtr) -> (r: Option<(NodePtr, NodePtr)>)
    requires
        valid_node(*a, n),
    ensures
        match r {
            Some((f, rest)) => valid_node(*a, f) && valid_node(*a, rest) && curry_parts(tree_of(*a, n))
                == Some((tree_of(*a, f), tree_of(*a, rest))),
            None => curry_parts(tree_of(*a, n)) is None,
        },
{
    if let SExp::Pair(c, t1) = a.sexp(n) {
        if let SExp::Pair(qf, t2) = a.sexp(t1) {
            if let SExp::Pair(q, f) = a.sexp(qf) {
                if let SExp::Pair(rest, end) = a.sexp(t2) {
                    if atom_is(a, c, 4) && atom_is(a, q, 1) && is_nil(a, end) {
                        return Some((f, rest));
                    }
                }
            }
        }
    }
    None
}

pub open spec fn tree_height(t: Tree) -> nat
    decreases t,
{
    match t {
        Tree::Atom(_) => 0,
        Tree::Pair(f, r) => 1 + if tree_height(*f) > tree_height(*r) {
            tree_height(*f)
        } else {
            tree_height(*r)
        },
    }
}

/// The elements of a proper list of any length: pairs ending in nil.
pub open spec fn list_items(t: Tree) -> Result<Seq<Tree>, FromClvmErrorView>
    decreases t,
{
    match t {
        Tree::Pair(f, r) => prepend(seq![*f], list_items(*r)),
        Tree::Atom(s) => if s.len() == 0 {
            Ok(Seq::empty())
        } else {
            Err(FromClvmErrorView::ExpectedNil)
        },
    }
}

/// A proper list gives back its elements.
pub proof fn lemma_list_items_round_trip(fs: Seq<Tree>)
    ensures
        list_items(list_tree(fs)) == Ok::<Seq<Tree>, FromClvmErrorView>(fs),
    decreases fs.len(),
{
    if fs.len() > 0 {
        lemma_list_items_round_trip(fs.drop_first());
        assert(seq![fs[0]] + fs.drop_first() =~= fs);
    } else {
        assert(fs =~= Seq::<Tree>::empty());
    }
}

/// Splits a proper list into its element nodes, for a sequence of values.
pub fn list_items_from_clvm(a: &Allocator, n: NodePtr) -> (r: Result<Vec<NodePtr>, FromClvmError>)
    requires
        valid_node(*a, n),
    ensures
        match r {
            Ok(v) => all_valid(*a, v@) && list_items(tree_of(*a, n)) == Ok::<
                Seq<Tree>,
                FromClvmErrorView,
            >(trees_of(*a, v@)),
            Err(e) => list_items(tree_of(*a, n)) == Err::<Seq<Tree>, FromClvmErrorView>(e@),
        },
{
    let ghost t0 = tree_of(*a, n);
    let mut out: Vec<NodePtr> = Vec::new();
    let mut cur = n;
    assert(trees_of(*a, out@) =~= Seq::<Tree>::empty());
    assert(prepend(Seq::<Tree>::empty(), list_items(t0)) =~= list_items(t0)) by {
        if let Ok(fs) = list_items(t0) {
            assert(Seq::<Tree>::empty() + fs =~= fs);
        }
    }
    loop
        invariant
            t0 == tree_of(*a, n),
            valid_node(*a, cur),
            all_valid(*a, out@),
            list_items(t0) == prepend(trees_of(*a, out@), list_items(tree_of(*a, cur))),
        decreases tree_height(tree_of(*a, cur)),
    {
        let ghost p = trees_of(*a, out@);
        match a.sexp(cur) {
            SExp::Pair(f, r) => {
                proof {
                    lemma_prepend_push(p, tree_of(*a, f), list_items(tree_of(*a, r)));
                }
                out.push(f);
                assert(trees_of(*a, out@) =~= p.push(tree_of(*a, f)));
                cur = r;
            },
            SExp::Atom => {
                if is_nil(a, cur) {
                    assert(p + Seq::<Tree>::empty() =~= p);
                    return Ok(out);
                } else {
                    proof {
                        if let Tree::Atom(s) = tree_of(*a, cur) {
                            if s.len() == 0 {
                                assert(s =~= Seq::<u8>::empty());
                            }
                        }
                    }
                    return Err(FromClvmError::ExpectedNil);
                }
            },
        }
    }
}

/// After one more encoding step from `a1` to `a2`, the arena still grows
/// from `a0` and the nodes gathered so far still stand for the same trees.
pub proof fn lemma_encode_step(a0: Allocator, a1: Allocator, a2: Allocator, ns: Seq<NodePtr>)
    requires
        arena_grows(a0, a1),
        arena_grows(a1, a2),
        all_valid(a1, ns),
    ensures
        arena_grows(a0, a2),
        all_valid(a2, ns),
        trees_of(a2, ns) == trees_of(a1, ns),
{
    lemma_grows_trans(a0, a1, a2);
    lemma_grows_keeps(a1, a2, ns);
}

} // verus!
