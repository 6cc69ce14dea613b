use vstd::prelude::*;

use crate::hash::Hasher;

verus! {

/// One vertex of the hash tree.
///
/// A leaf owns no children; an internal node owns both.  A node's digest is
/// fixed at construction and never recomputed.
#[derive(Debug)]
pub struct Node {
    pub hash: Vec<u8>,
    pub left: Option<Box<Node>>,
    pub right: Option<Box<Node>>,
}

/// Copies a byte slice into a fresh vector.
pub(crate) fn copy_bytes(src: &[u8]) -> (r: Vec<u8>)
    ensures
        r@ == src@,
{
    let mut r: Vec<u8> = Vec::new();
    let mut i: usize = 0;
    while i < src.len()
        invariant
            i <= src@.len(),
            r@.len() == i,
            forall|k: int| 0 <= k < i ==> r@[k] == src@[k],
        decreases src@.len() - i,
    {
        r.push(src[i]);
        i = i + 1;
    }
    proof {
        assert(r@ =~= src@);
    }
    r
}

/// Concatenates two byte slices, left before right, with no separator.
pub(crate) fn concat_bytes(a: &[u8], b: &[u8]) -> (r: Vec<u8>)
    ensures
        r@ == a@ + b@,
{
    let mut r = copy_bytes(a);
    let mut i: usize = 0;
    while i < b.len()
        invariant
            i <= b@.len(),
            r@.len() == a@.len() + i,
            forall|k: int| 0 <= k < a@.len() ==> r@[k] == a@[k],
            forall|k: int| 0 <= k < i ==> r@[a@.len() + k] == b@[k],
        decreases b@.len() - i,
    {
        r.push(b[i]);
        i = i + 1;
    }
    proof {
        assert(r@ =~= a@ + b@);
    }
    r
}

/// Byte-wise equality of two slices.
pub(crate) fn bytes_eq(a: &[u8], b: &[u8]) -> (r: bool)
    ensures
        r == (a@ == b@),
{
    if a.len() != b.len() {
        return false;
    }
    let mut i: usize = 0;
    while i < a.len()
        invariant
            i <= a@.len(),
            a@.len() == b@.len(),
            forall|k: int| 0 <= k < i ==> a@[k] == b@[k],
        decreases a@.len() - i,
    {
        if a[i] != b[i] {
            return false;
        }
        i = i + 1;
    }
    proof {
        assert(a@ =~= b@);
    }
    true
}

impl Node {
    /// True of a node built directly from a data block: it owns no children.
    pub open spec fn is_leaf(self) -> bool {
        self.left is None && self.right is None
    }

    /// Structural soundness under a hash function: a node owns either no
    /// children or both, and an internal node's digest is the hash of its
    /// children's digests, left before right.
    pub open spec fn well_formed<H: Hasher>(self) -> bool
        decreases self,
    {
        match (self.left, self.right) {
            (None, None) => true,
            (Some(l), Some(r)) => {
                &&& (*l).well_formed::<H>()
                &&& (*r).well_formed::<H>()
                &&& self.hash@ == H::spec_hash((*l).hash@ + (*r).hash@)
            },
            _ => false,
        }
    }

    /// Two nodes carry the same digest at every vertex and the same shape
    /// of children.
    pub open spec fn same_shape(self, other: Node) -> bool
        decreases self,
    {
        &&& self.hash@ == other.hash@
        &&& match (self.left, other.left) {
            (None, None) => true,
            (Some(a), Some(b)) => (*a).same_shape(*b),
            _ => false,
        }
        &&& match (self.right, other.right) {
            (None, None) => true,
            (Some(a), Some(b)) => (*a).same_shape(*b),
            _ => false,
        }
    }

    /// Builds a leaf node whose digest is the hash of one data block.
    pub fn new_leaf<H: Hasher>(data: &[u8]) -> (n: Self)
        ensures
            n.hash@ == H::spec_hash(data@),
            n.is_leaf(),
            n.well_formed::<H>(),
    {
        Node { hash: H::hash(data), left: None, right: None }
    }

    /// Builds an internal node over two children; its digest is the hash of
    /// the children's digests concatenated, left before right.
    pub fn new_parent<H: Hasher>(left: Node, right: Node) -> (n: Self)
        ensures
            n.hash@ == H::spec_hash(left.hash@ + right.hash@),
            n.left matches Some(l) && *l == left,
            n.right matches Some(r) && *r == right,
            left.well_formed::<H>() && right.well_formed::<H>() ==> n.well_formed::<H>(),
    {
        let combined = concat_bytes(left.hash.as_slice(), right.hash.as_slice());
        Node { hash: H::hash(combined.as_slice()), left: Some(Box::new(left)), right: Some(
            Box::new(right),
        ) }
    }
}

/// Two nodes of the same shape are well-formed under exactly the same
/// hash functions.
pub proof fn lemma_same_shape_well_formed<H: Hasher>(a: Node, b: Node)
    requires
        a.same_shape(b),
    ensures
        a.well_formed::<H>() == b.well_formed::<H>(),
    decreases a,
{
    match (a.left, b.left, a.right, b.right) {
        (Some(al), Some(bl), Some(ar), Some(br)) => {
            assert((*al).same_shape(*bl));
            assert((*ar).same_shape(*br));
            lemma_same_shape_well_formed::<H>(*al, *bl);
            lemma_same_shape_well_formed::<H>(*ar, *br);
            assert((*al).hash@ == (*bl).hash@);
            assert((*ar).hash@ == (*br).hash@);
        },
        _ => (),
    }
}

/// Deep copy of a node; the copy carries the same digest and the same
/// shape of children.
pub(crate) fn clone_node(n: &Node) -> (r: Node)
    ensures
        r.hash@ == n.hash@,
        r.left is Some <==> n.left is Some,
        r.right is Some <==> n.right is Some,
        r.same_shape(*n),
    decreases *n,
{
    let hash = copy_bytes(n.hash.as_slice());
    let left = match &n.left {
        Some(child) => Some(Box::new(clone_node(&**child))),
        None => None,
    };
    let right = match &n.right {
        Some(child) => Some(Box::new(clone_node(&**child))),
        None => None,
    };
    Node { hash, left, right }
}

impl Clone for Node {
    fn clone(&self) -> (r: Self)
        ensures
            r.hash@ == self.hash@,
            r.same_shape(*self),
    {
        clone_node(self)
    }
}

} // verus!
