//! Lineage proofs of a coin: two list-framed shapes told apart by trying each.
use vstd::prelude::*;
use clvmr::allocator::{Allocator, NodePtr};
use crate::arena::{atom_cost, has_room, heap_sound, Room, tree_of, valid_node, Tree};
use crate::error::{decoded, encoded, FromClvmError, FromClvmErrorView, ToClvmError};
use crate::frame::{
    all_valid, frame_cost, frame_from_clvm, frame_to_clvm, lemma_encode_step,
    lemma_frame_fields_len, lemma_frame_round_trip, list_fields, list_tree, trees_of, Repr,
};
use crate::integer::{int_bytes, lemma_u64_round_trip, u64_from_clvm, u64_from_tree, u64_to_clvm};
use crate::primitives::{array_from_clvm, array_from_tree, array_to_clvm};

verus! {

/// A proof for a coin whose parent is itself a coin of the same kind.
#[derive(Debug, Clone, PartialEq, Eq)]
pub struct LineageProof {
    pub parent_coin_info: [u8; 32],
    pub inner_puzzle_hash: [u8; 32],
    pub amount: u64,
}

/// A proof for the first coin of its kind.
#[derive(Debug, Clone, PartialEq, Eq)]
pub struct EveProof {
    pub parent_coin_info: [u8; 32],
    pub amount: u64,
}

/// Either proof; the encoding carries no tag.
#[derive(Debug, Clone, PartialEq, Eq)]
pub enum Proof {
    Lineage(LineageProof),
    Eve(EveProof),
}

pub struct LineageProofView {
    pub parent_coin_info: Seq<u8>,
    pub inner_puzzle_hash: Seq<u8>,
    pub amount: u64,
}

pub struct EveProofView {
    pub parent_coin_info: Seq<u8>,
    pub amount: u64,
}

pub enum ProofView {
    Lineage(LineageProofView),
    Eve(EveProofView),
}

impl View for LineageProof {
    type V = LineageProofView;

    open spec fn view(&self) -> LineageProofView {
        LineageProofView {
            parent_coin_info: self.parent_coin_info@,
            inner_puzzle_hash: self.inner_puzzle_hash@,
            amount: self.amount,
        }
    }
}

impl View for EveProof {
    type V = EveProofView;

    open spec fn view(&self) -> EveProofView {
        EveProofView { parent_coin_info: self.parent_coin_info@, amount: self.amount }
    }
}

impl View for Proof {
    type V = ProofView;

    open spec fn view(&self) -> ProofView {
        match self {
            Proof::Lineage(l) => ProofView::Lineage(l@),
            Proof::Eve(e) => ProofView::Eve(e@),
        }
    }
}

impl LineageProofView {
    pub open spec fn well_formed(self) -> bool {
        self.parent_coin_info.len() == 32 && self.inner_puzzle_hash.len() == 32
    }
}

impl EveProofView {
    pub open spec fn well_formed(self) -> bool {
        self.parent_coin_info.len() == 32
    }
}

impl ProofView {
    pub open spec fn well_formed(self) -> bool {
        match self {
            ProofView::Lineage(l) => l.well_formed(),
            ProofView::Eve(e) => e.well_formed(),
        }
    }
}

/// `(parent_coin_info inner_puzzle_hash amount)`.
pub open spec fn lineage_tree(v: LineageProofView) -> Tree {
    list_tree(
        seq![Tree::Atom(v.parent_coin_info), Tree::Atom(v.inner_puzzle_hash), Tree::Atom(int_bytes(v.amount as int))],
    )
}

/// `(parent_coin_info amount)`.
pub open spec fn eve_tree(v: EveProofView) -> Tree {
    list_tree(seq![Tree::Atom(v.parent_coin_info), Tree::Atom(int_bytes(v.amount as int))])
}

pub open spec fn proof_tree(v: ProofView) -> Tree {
    match v {
        ProofView::Lineage(l) => lineage_tree(l),
        ProofView::Eve(e) => eve_tree(e),
    }
}

/// What storing a lineage proof takes: three atoms, the nil and three pairs.
pub open spec fn lineage_cost(v: LineageProofView) -> Room {
    atom_cost(v.parent_coin_info.len() as int).plus(atom_cost(v.inner_puzzle_hash.len() as int)).plus(
        atom_cost(int_bytes(v.amount as int).len() as int),
    ).plus(frame_cost(Repr::List, 3))
}

/// What storing an eve proof takes: two atoms, the nil and two pairs.
pub open spec fn eve_cost(v: EveProofView) -> Room {
    atom_cost(v.parent_coin_info.len() as int).plus(atom_cost(int_bytes(v.amount as int).len() as int)).plus(
        frame_cost(Repr::List, 2),
    )
}

pub open spec fn proof_cost(v: ProofView) -> Room {
    match v {
        ProofView::Lineage(l) => lineage_cost(l),
        ProofView::Eve(e) => eve_cost(e),
    }
}

/// A list of three fields: two 32-byte atoms and a `u64`.
pub open spec fn lineage_from_tree(t: Tree) -> Result<LineageProofView, FromClvmErrorView> {
    match list_fields(t, 3) {
        Err(e) => Err(e),
        Ok(fs) => match array_from_tree(fs[0], 32) {
            Err(e) => Err(e),
            Ok(p) => match array_from_tree(fs[1], 32) {
                Err(e) => Err(e),
                Ok(h) => match u64_from_tree(fs[2]) {
                    Err(e) => Err(e),
                    Ok(m) => Ok(LineageProofView { parent_coin_info: p, inner_puzzle_hash: h, amount: m }),
                },
            },
        },
    }
}

/// A list of two fields: a 32-byte atom and a `u64`.
pub open spec fn eve_from_tree(t: Tree) -> Result<EveProofView, FromClvmErrorView> {
    match list_fields(t, 2) {
        Err(e) => Err(e),
        Ok(fs) => match array_from_tree(fs[0], 32) {
            Err(e) => Err(e),
            Ok(p) => match u64_from_tree(fs[1]) {
                Err(e) => Err(e),
                Ok(m) => Ok(EveProofView { parent_coin_info: p, amount: m }),
            },
        },
    }
}

/// The eve reading of a tree, as a proof.
pub open spec fn eve_as_proof(t: Tree) -> Result<ProofView, FromClvmErrorView> {
    match eve_from_tree(t) {
        Ok(e) => Ok(ProofView::Eve(e)),
        Err(e) => Err(e),
    }
}

/// The lineage shape is tried first, then the eve shape; where both fail,
/// the eve shape's error is reported.
pub open spec fn proof_from_tree(t: Tree) -> Result<ProofView, FromClvmErrorView> {
    match lineage_from_tree(t) {
        Ok(l) => Ok(ProofView::Lineage(l)),
        Err(_) => eve_as_proof(t),
    }
}

/// A lineage proof decodes from its own encoding.
pub proof fn lemma_lineage_round_trip(v: LineageProofView)
    requires
        v.well_formed(),
    ensures
        lineage_from_tree(lineage_tree(v)) == Ok::<LineageProofView, FromClvmErrorView>(v),
{
    let fs = seq![Tree::Atom(v.parent_coin_info), Tree::Atom(v.inner_puzzle_hash), Tree::Atom(int_bytes(v.amount as int))];
    lemma_frame_round_trip(Repr::List, fs);
    lemma_u64_round_trip(v.amount);
}

/// An eve proof decodes from its own encoding.
pub proof fn lemma_eve_round_trip(v: EveProofView)
    requires
        v.well_formed(),
    ensures
        eve_from_tree(eve_tree(v)) == Ok::<EveProofView, FromClvmErrorView>(v),
{
    let fs = seq![Tree::Atom(v.parent_coin_info), Tree::Atom(int_bytes(v.amount as int))];
    lemma_frame_round_trip(Repr::List, fs);
    lemma_u64_round_trip(v.amount);
}

/// A list splits into fields in at most one count.
pub proof fn lemma_list_fields_one_count(t: Tree, m: nat, n: nat)
    requires
        m != n,
    ensures
        !(list_fields(t, m) is Ok && list_fields(t, n) is Ok),
    decreases m,
{
    if m > 0 && n > 0 {
        if let Tree::Pair(_, r) = t {
            lemma_list_fields_one_count(*r, (m - 1) as nat, (n - 1) as nat);
        }
    }
}

/// Either proof decodes from its own encoding, as the same kind of proof.
pub proof fn lemma_proof_round_trip(v: ProofView)
    requires
        v.well_formed(),
    ensures
        proof_from_tree(proof_tree(v)) == Ok::<ProofView, FromClvmErrorView>(v),
{
    match v {
        ProofView::Lineage(l) => lemma_lineage_round_trip(l),
        ProofView::Eve(e) => {
            lemma_eve_round_trip(e);
            lemma_list_fields_one_count(eve_tree(e), 3, 2);
        },
    }
}

/// Encoding a proof into an allocator with room for it succeeds, and the
/// node it gives decodes as the same proof.
pub proof fn lemma_proof_encode_decode(a0: Allocator, a1: Allocator, r: Result<NodePtr, ToClvmError>, v: ProofView)
    requires
        v.well_formed(),
        has_room(a0, proof_cost(v)),
        encoded(a0, a1, r, proof_tree(v), proof_cost(v)),
    ensures
        r matches Ok(n) && proof_from_tree(tree_of(a1, n)) == Ok::<ProofView, FromClvmErrorView>(v),
{
    lemma_proof_round_trip(v);
}

/// The two shapes never overlap, so the order of the trials decides
/// nothing: a list of three proper fields is a lineage proof, a list of two
/// is an eve proof, and anything else fails with the eve shape's error.
pub proof fn lemma_proof_shapes(t: Tree)
    ensures
        lineage_from_tree(t) is Ok ==> eve_from_tree(t) is Err,
        lineage_from_tree(t) matches Ok(l) ==> proof_from_tree(t) == Ok::<ProofView, FromClvmErrorView>(
            ProofView::Lineage(l),
        ),
        eve_from_tree(t) matches Ok(e) ==> proof_from_tree(t) == Ok::<ProofView, FromClvmErrorView>(
            ProofView::Eve(e),
        ),
        lineage_from_tree(t) is Err ==> (eve_from_tree(t) matches Err(e) ==> proof_from_tree(t) == Err::<
            ProofView,
            FromClvmErrorView,
        >(e)),
{
    lemma_list_fields_one_count(t, 3, 2);
}

/// A failed lineage trial leaves nothing behind for the eve trial: the
/// result is then exactly what decoding the same tree as an eve proof gives.
pub proof fn lemma_failed_trial_leaves_no_trace(t: Tree)
    requires
        lineage_from_tree(t) is Err,
    ensures
        proof_from_tree(t) == eve_as_proof(t),
{
}

impl LineageProof {
    /// Stores the proof as the list `(parent_coin_info inner_puzzle_hash amount)`.
    pub fn to_clvm(&self, a: &mut Allocator) -> (r: Result<NodePtr, ToClvmError>)
        requires
            heap_sound(*old(a)),
        ensures
            encoded(*old(a), *final(a), r, lineage_tree(self@), lineage_cost(self@)),
    {
        let ghost a0 = *a;
        let mut fields: Vec<NodePtr> = Vec::new();
        let ghost a1 = *a;
        let r = array_to_clvm(a, &self.parent_coin_info);
        proof {
            lemma_encode_step(a0, a1, *a, fields@);
        }
        let n = match r {
            Ok(n) => n,
            Err(e) => return Err(e),
        };
        fields.push(n);
        let ghost a1 = *a;
        let r = array_to_clvm(a, &self.inner_puzzle_hash);
        proof {
            assert(all_valid(a1, fields@));
            lemma_encode_step(a0, a1, *a, fields@);
        }
        let n = match r {
            Ok(n) => n,
            Err(e) => return Err(e),
        };
        fields.push(n);
        let ghost a1 = *a;
        let r = u64_to_clvm(a, self.amount);
        proof {
            assert(all_valid(a1, fields@));
            lemma_encode_step(a0, a1, *a, fields@);
        }
        let n = match r {
            Ok(n) => n,
            Err(e) => return Err(e),
        };
        fields.push(n);
        assert(all_valid(*a, fields@));
        assert(trees_of(*a, fields@) =~= seq![
            Tree::Atom(self.parent_coin_info@),
            Tree::Atom(self.inner_puzzle_hash@),
            Tree::Atom(int_bytes(self.amount as int)),
        ]);
        let ghost a1 = *a;
        let r = frame_to_clvm(a, Repr::List, &fields);
        proof {
            lemma_encode_step(a0, a1, *a, Seq::empty());
        }
        r
    }

    /// Reads a list of two 32-byte atoms and an amount.
    pub fn from_clvm(a: &Allocator, n: NodePtr) -> (r: Result<LineageProof, FromClvmError>)
        requires
            valid_node(*a, n),
        ensures
            decoded(r, lineage_from_tree(tree_of(*a, n))),
    {
        let fields = match frame_from_clvm(a, n, Repr::List, 3) {
            Ok(f) => f,
            Err(e) => return Err(e),
        };
        proof {
            lemma_frame_fields_len(Repr::List, tree_of(*a, n), 3);
            assert(valid_node(*a, fields@[0]) && valid_node(*a, fields@[1]) && valid_node(*a, fields@[2]));
        }
        let parent_coin_info = match array_from_clvm::<32>(a, fields[0]) {
            Ok(v) => v,
            Err(e) => return Err(e),
        };
        let inner_puzzle_hash = match array_from_clvm::<32>(a, fields[1]) {
            Ok(v) => v,
            Err(e) => return Err(e),
        };
        let amount = match u64_from_clvm(a, fields[2]) {
            Ok(v) => v,
            Err(e) => return Err(e),
        };
        Ok(LineageProof { parent_coin_info, inner_puzzle_hash, amount })
    }
}

impl EveProof {
    /// Stores the proof as the list `(parent_coin_info amount)`.
    pub fn to_clvm(&self, a: &mut Allocator) -> (r: Result<NodePtr, ToClvmError>)
        requires
            heap_sound(*old(a)),
        ensures
            encoded(*old(a), *final(a), r, eve_tree(self@), eve_cost(self@)),
    {
        let ghost a0 = *a;
        let mut fields: Vec<NodePtr> = Vec::new();
        let ghost a1 = *a;
        let r = array_to_clvm(a, &self.parent_coin_info);
        proof {
            lemma_encode_step(a0, a1, *a, fields@);
        }
        let n = match r {
            Ok(n) => n,
            Err(e) => return Err(e),
        };
        fields.push(n);
        let ghost a1 = *a;
        let r = u64_to_clvm(a, self.amount);
        proof {
            assert(all_valid(a1, fields@));
            lemma_encode_step(a0, a1, *a, fields@);
        }
        let n = match r {
            Ok(n) => n,
            Err(e) => return Err(e),
        };
        fields.push(n);
        assert(all_valid(*a, fields@));
        assert(trees_of(*a, fields@) =~= seq![
            Tree::Atom(self.parent_coin_info@),
            Tree::Atom(int_bytes(self.amount as int)),
        ]);
        let ghost a1 = *a;
        let r = frame_to_clvm(a, Repr::List, &fields);
        proof {
            lemma_encode_step(a0, a1, *a, Seq::empty());
        }
        r
    }

    /// Reads a list of a 32-byte atom and an amount.
    pub fn from_clvm(a: &Allocator, n: NodePtr) -> (r: Result<EveProof, FromClvmError>)
        requires
            valid_node(*a, n),
        ensures
            decoded(r, eve_from_tree(tree_of(*a, n))),
    {
        let fields = match frame_from_clvm(a, n, Repr::List, 2) {
            Ok(f) => f,
            Err(e) => return Err(e),
        };
        proof {
            lemma_frame_fields_len(Repr::List, tree_of(*a, n), 2);
            assert(valid_node(*a, fields@[0]) && valid_node(*a, fields@[1]));
        }
        let parent_coin_info = match array_from_clvm::<32>(a, fields[0]) {
            Ok(v) => v,
            Err(e) => return Err(e),
        };
        let amount = match u64_from_clvm(a, fields[1]) {
            Ok(v) => v,
            Err(e) => return Err(e),
        };
        Ok(EveProof { parent_coin_info, amount })
    }
}

impl Proof {
    /// Stores the proof held, with nothing to say which one it is.
    pub fn to_clvm(&self, a: &mut Allocator) -> (r: Result<NodePtr, ToClvmError>)
        requires
            heap_sound(*old(a)),
        ensures
            encoded(*old(a), *final(a), r, proof_tree(self@), proof_cost(self@)),
    {
        match self {
            Proof::Lineage(l) => l.to_clvm(a),
            Proof::Eve(e) => e.to_clvm(a),
        }
    }

    /// Tries the lineage shape, then the eve shape, on the same node; where
    /// both fail, gives the eve shape's error.
    pub fn from_clvm(a: &Allocator, n: NodePtr) -> (r: Result<Proof, FromClvmError>)
        requires
            valid_node(*a, n),
        ensures
            decoded(r, proof_from_tree(tree_of(*a, n))),
    {
        match LineageProof::from_clvm(a, n) {
            Ok(l) => Ok(Proof::Lineage(l)),
            Err(_) => match EveProof::from_clvm(a, n) {
                Ok(e) => Ok(Proof::Eve(e)),
                Err(e) => Err(e),
            },
        }
    }
}

} // verus!
