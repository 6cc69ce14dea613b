use vstd::prelude::*;

use crate::auth::{path_of, proof_path, MerkleProof};
use crate::hash::Hasher;
use crate::node::{clone_node, copy_bytes, lemma_same_shape_well_formed, Node};

verus! {

/// The digest of each node of a level, in left-to-right order.
pub open spec fn digests_of(nodes: Seq<Node>) -> Seq<Seq<u8>> {
    nodes.map_values(|n: Node| n.hash@)
}

/// The abstract byte blocks held by a slice of byte vectors.
pub open spec fn blocks_view(blocks: Seq<Vec<u8>>) -> Seq<Seq<u8>> {
    blocks.map_values(|b: Vec<u8>| b@)
}

/// The digest of each data block, in order.
pub open spec fn hash_leaves<H: Hasher>(blocks: Seq<Seq<u8>>) -> Seq<Seq<u8>> {
    blocks.map_values(|b: Seq<u8>| H::spec_hash(b))
}

/// Pads a leaf level to an even count by duplicating the last digest.
pub open spec fn pad_even(leaves: Seq<Seq<u8>>) -> Seq<Seq<u8>> {
    if leaves.len() % 2 == 1 {
        leaves.push(leaves.last())
    } else {
        leaves
    }
}

/// One step of bottom-up folding: consecutive pairs are combined into
/// parent digests; an unmatched final digest is ephemerally paired with
/// itself.
pub open spec fn fold_level<H: Hasher>(level: Seq<Seq<u8>>) -> Seq<Seq<u8>> {
    Seq::new(
        (level.len() + 1) / 2,
        |k: int|
            H::spec_hash(
                level[2 * k] + if 2 * k + 1 < level.len() {
                    level[2 * k + 1]
                } else {
                    level[2 * k]
                },
            ),
    )
}

/// The root digest obtained by folding a level until one digest remains.
pub open spec fn root_of<H: Hasher>(level: Seq<Seq<u8>>) -> Seq<u8>
    recommends
        level.len() >= 1,
    decreases level.len(),
{
    if level.len() <= 1 {
        level[0]
    } else {
        root_of::<H>(fold_level::<H>(level))
    }
}

/// A hash tree: the root node and the padded leaf level it was folded from.
pub struct MerkleTree {
    pub root: Node,
    pub leaves: Vec<Node>,
}

impl MerkleTree {
    /// The digests of the padded leaf level, in left-to-right order.
    pub open spec fn leaf_digests(self) -> Seq<Seq<u8>> {
        digests_of(self.leaves@)
    }

    /// The tree that `new::<H>` builds from the given data blocks: its
    /// leaves are the blocks' digests padded to an even count, and its
    /// root digest is the fold of that leaf level.
    pub open spec fn matches_blocks<H: Hasher>(self, blocks: Seq<Seq<u8>>) -> bool {
        &&& self.leaf_digests() == pad_even(hash_leaves::<H>(blocks))
        &&& self.root.hash@ == root_of::<H>(self.leaf_digests())
        &&& self.root.well_formed::<H>()
        &&& forall|k: int| 0 <= k < self.leaves@.len() ==> (#[trigger] self.leaves@[k]).is_leaf()
    }

    /// Builds the tree for an ordered, non-empty list of data blocks.
    pub fn new<H: Hasher>(leaves_data: &[Vec<u8>]) -> (tree: MerkleTree)
        requires
            leaves_data@.len() >= 1,
        ensures
            tree.matches_blocks::<H>(blocks_view(leaves_data@)),
            tree.leaves@.len() % 2 == 0,
            tree.leaves@.len() >= 2,
    {
        let ghost blocks = blocks_view(leaves_data@);
        let mut leaves: Vec<Node> = Vec::new();
        let mut i: usize = 0;
        while i < leaves_data.len()
            invariant
                i <= leaves_data@.len(),
                leaves@.len() == i,
                forall|k: int|
                    0 <= k < i ==> (#[trigger] leaves@[k]).hash@ == H::spec_hash(
                        leaves_data@[k]@,
                    ) && leaves@[k].is_leaf(),
            decreases leaves_data@.len() - i,
        {
            let node = Node::new_leaf::<H>(leaves_data[i].as_slice());
            leaves.push(node);
            i = i + 1;
        }
        if leaves.len() % 2 != 0 {
            let dup = clone_node(&leaves[leaves.len() - 1]);
            leaves.push(dup);
        }
        proof {
            assert(digests_of(leaves@) =~= pad_even(hash_leaves::<H>(blocks)));
        }
        let branch = clone_nodes(&leaves);
        proof {
            assert(digests_of(branch@) =~= digests_of(leaves@));
            assert forall|k: int| 0 <= k < branch@.len() implies (
            #[trigger] branch@[k]).well_formed::<H>() by {
                assert(leaves@[k].is_leaf());
                assert(leaves@[k].well_formed::<H>());
                lemma_same_shape_well_formed::<H>(branch@[k], leaves@[k]);
            }
        }
        let root = MerkleTree::build_tree::<H>(branch);
        MerkleTree { root, leaves }
    }

    /// Folds a level of nodes until a single root node remains.
    fn build_tree<H: Hasher>(nodes: Vec<Node>) -> (root: Node)
        requires
            nodes@.len() >= 1,
        ensures
            root.hash@ == root_of::<H>(digests_of(nodes@)),
            (forall|k: int|
                0 <= k < nodes@.len() ==> (#[trigger] nodes@[k]).well_formed::<H>())
                ==> root.well_formed::<H>(),
    {
        let ghost orig = digests_of(nodes@);
        let ghost orig_nodes = nodes@;
        let mut level = nodes;
        while level.len() > 1
            invariant
                level@.len() >= 1,
                root_of::<H>(digests_of(level@)) == root_of::<H>(orig),
                (forall|k: int|
                    0 <= k < orig_nodes.len() ==> (
                    #[trigger] orig_nodes[k]).well_formed::<H>()) ==> (forall|k: int|
                    0 <= k < level@.len() ==> (#[trigger] level@[k]).well_formed::<H>()),
            decreases level@.len(),
        {
            proof {
                assert(root_of::<H>(digests_of(level@)) == root_of::<H>(
                    fold_level::<H>(digests_of(level@)),
                ));
            }
            level = fold_once::<H>(&level);
        }
        let root = level.remove(0);
        root
    }

    /// The digest that commits to the whole input list.
    pub fn root_hash(&self) -> (r: &[u8])
        ensures
            r@ == self.root.hash@,
    {
        self.root.hash.as_slice()
    }

    /// Extracts the authentication path for the leaf at `index`, walking
    /// the levels with the same pairing rule the builder uses.
    pub fn generate_proof<H: Hasher>(&self, index: usize) -> (pf: MerkleProof)
        requires
            index < self.leaves@.len(),
        ensures
            pf.path() == proof_path::<H>(digests_of(self.leaves@), index as int),
    {
        let ghost target = proof_path::<H>(digests_of(self.leaves@), index as int);
        let mut entries: Vec<(Vec<u8>, bool)> = Vec::new();
        let mut level: Vec<Node> = clone_nodes(&self.leaves);
        let mut i: usize = index;
        proof {
            assert(digests_of(level@) =~= digests_of(self.leaves@));
            assert(path_of(entries@) + target =~= target);
        }
        while level.len() > 1
            invariant
                i < level@.len(),
                path_of(entries@) + proof_path::<H>(digests_of(level@), i as int) == target,
            decreases level@.len(),
        {
            let ghost d = digests_of(level@);
            let sibling_is_left = i % 2 == 1;
            let sibling_index = if sibling_is_left {
                i - 1
            } else {
                i + 1
            };
            let sibling_hash = if sibling_index < level.len() {
                copy_bytes(level[sibling_index].hash.as_slice())
            } else {
                copy_bytes(level[i].hash.as_slice())
            };
            let ghost entry = (sibling_hash@, sibling_is_left);
            entries.push((sibling_hash, sibling_is_left));
            proof {
                assert(proof_path::<H>(d, i as int) == seq![entry] + proof_path::<H>(
                    fold_level::<H>(d),
                    i as int / 2,
                ));
                assert(path_of(entries@) =~= path_of(entries@.drop_last()) + seq![entry]);
                assert((path_of(entries@.drop_last()) + seq![entry]) + proof_path::<H>(
                    fold_level::<H>(d),
                    i as int / 2,
                ) =~= path_of(entries@.drop_last()) + (seq![entry] + proof_path::<H>(
                    fold_level::<H>(d),
                    i as int / 2,
                )));
            }
            level = fold_once::<H>(&level);
            i = i / 2;
        }
        proof {
            assert(path_of(entries@) + proof_path::<H>(digests_of(level@), i as int) =~= path_of(
                entries@,
            ));
        }
        MerkleProof { hashes: entries }
    }
}

/// Copies a level of nodes; the copy carries the same digests.
pub(crate) fn clone_nodes(nodes: &Vec<Node>) -> (r: Vec<Node>)
    ensures
        r@.len() == nodes@.len(),
        forall|k: int| 0 <= k < nodes@.len() ==> (#[trigger] r@[k]).hash@ == nodes@[k].hash@,
        forall|k: int| 0 <= k < nodes@.len() ==> (#[trigger] r@[k]).same_shape(nodes@[k]),
{
    let mut r: Vec<Node> = Vec::new();
    let mut i: usize = 0;
    while i < nodes.len()
        invariant
            i <= nodes@.len(),
            r@.len() == i,
            forall|k: int| 0 <= k < i ==> (#[trigger] r@[k]).hash@ == nodes@[k].hash@,
            forall|k: int| 0 <= k < i ==> (#[trigger] r@[k]).same_shape(nodes@[k]),
        decreases nodes@.len() - i,
    {
        let node = clone_node(&nodes[i]);
        r.push(node);
        i = i + 1;
    }
    r
}

/// Builds the next level up: each consecutive pair of nodes becomes one
/// parent; an unmatched final node is paired with itself for that one
/// parent only.
pub(crate) fn fold_once<H: Hasher>(nodes: &Vec<Node>) -> (next: Vec<Node>)
    ensures
        digests_of(next@) == fold_level::<H>(digests_of(nodes@)),
        (forall|k: int|
            0 <= k < nodes@.len() ==> (#[trigger] nodes@[k]).well_formed::<H>()) ==> (forall|
            k: int,
        |
            0 <= k < next@.len() ==> (#[trigger] next@[k]).well_formed::<H>()),
{
    let ghost prev = digests_of(nodes@);
    let ghost wf_in = forall|k: int|
        0 <= k < nodes@.len() ==> (#[trigger] nodes@[k]).well_formed::<H>();
    let mut next: Vec<Node> = Vec::new();
    let mut j: usize = 0;
    while nodes.len() - j > 1
        invariant
            j % 2 == 0,
            j <= nodes@.len(),
            next@.len() == j / 2,
            forall|k: int|
                0 <= k < j / 2 ==> (#[trigger] next@[k]).hash@ == fold_level::<H>(prev)[k],
            wf_in ==> forall|k: int|
                0 <= k < next@.len() ==> (#[trigger] next@[k]).well_formed::<H>(),
            prev == digests_of(nodes@),
            wf_in == (forall|k: int|
                0 <= k < nodes@.len() ==> (#[trigger] nodes@[k]).well_formed::<H>()),
        decreases nodes@.len() - j,
    {
        let left = clone_node(&nodes[j]);
        let right = clone_node(&nodes[j + 1]);
        proof {
            if wf_in {
                lemma_same_shape_well_formed::<H>(left, nodes@[j as int]);
                lemma_same_shape_well_formed::<H>(right, nodes@[j as int + 1]);
            }
        }
        next.push(Node::new_parent::<H>(left, right));
        j = j + 2;
    }
    if j < nodes.len() {
        let left = clone_node(&nodes[j]);
        let right = clone_node(&nodes[j]);
        proof {
            if wf_in {
                lemma_same_shape_well_formed::<H>(left, nodes@[j as int]);
                lemma_same_shape_well_formed::<H>(right, nodes@[j as int]);
            }
        }
        next.push(Node::new_parent::<H>(left, right));
    }
    proof {
        assert(digests_of(next@) =~= fold_level::<H>(prev));
    }
    next
}

/// Determinism: two trees built from the same block list carry the same
/// leaf digests and the same root digest.
pub proof fn lemma_build_deterministic<H: Hasher>(
    t1: MerkleTree,
    t2: MerkleTree,
    blocks: Seq<Seq<u8>>,
)
    requires
        t1.matches_blocks::<H>(blocks),
        t2.matches_blocks::<H>(blocks),
    ensures
        t1.leaf_digests() == t2.leaf_digests(),
        t1.root.hash@ == t2.root.hash@,
{
}

/// Odd-duplication: when the block count is odd, the padded leaf level has
/// one extra entry, and its last two digests both equal the hash of the
/// last block.
pub proof fn lemma_odd_duplication<H: Hasher>(tree: MerkleTree, blocks: Seq<Seq<u8>>)
    requires
        tree.matches_blocks::<H>(blocks),
        blocks.len() % 2 == 1,
    ensures
        tree.leaf_digests().len() == blocks.len() + 1,
        tree.leaf_digests()[blocks.len() - 1] == H::spec_hash(blocks.last()),
        tree.leaf_digests()[blocks.len() as int] == H::spec_hash(blocks.last()),
{
}

/// Single-element tree: a tree built from one block has the root digest
/// `hash(hash(block) || hash(block))`.
pub proof fn lemma_single_block_root<H: Hasher>(tree: MerkleTree, blocks: Seq<Seq<u8>>)
    requires
        tree.matches_blocks::<H>(blocks),
        blocks.len() == 1,
    ensures
        tree.root.hash@ == H::spec_hash(
            H::spec_hash(blocks[0]) + H::spec_hash(blocks[0]),
        ),
{
    let h = H::spec_hash(blocks[0]);
    let padded = pad_even(hash_leaves::<H>(blocks));
    assert(padded =~= seq![h, h]);
    let f = fold_level::<H>(padded);
    assert(f =~= seq![H::spec_hash(h + h)]);
    assert(root_of::<H>(padded) == root_of::<H>(f));
    assert(root_of::<H>(f) == f[0]);
}

} // verus!
