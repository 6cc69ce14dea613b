use vstd::prelude::*;

use crate::hash::Hasher;
use crate::node::{bytes_eq, concat_bytes};
use crate::tree::{fold_level, root_of, MerkleTree};

verus! {

/// An authentication path: one `(sibling digest, sibling is on the left)`
/// entry per tree level, leaf level first.
#[derive(Debug, Clone)]
pub struct MerkleProof {
    pub hashes: Vec<(Vec<u8>, bool)>,
}

/// The abstract path held by a vector of proof entries.
pub open spec fn path_of(entries: Seq<(Vec<u8>, bool)>) -> Seq<(Seq<u8>, bool)> {
    entries.map_values(|e: (Vec<u8>, bool)| (e.0@, e.1))
}

/// One verification step: the running digest is combined with the sibling
/// digest, sibling first when it sits on the left.
pub open spec fn chain_step<H: Hasher>(h: Seq<u8>, entry: (Seq<u8>, bool)) -> Seq<u8> {
    if entry.1 {
        H::spec_hash(entry.0 + h)
    } else {
        H::spec_hash(h + entry.0)
    }
}

/// The digest reached by recomputing up an authentication path from a
/// starting digest.
pub open spec fn chain<H: Hasher>(h: Seq<u8>, path: Seq<(Seq<u8>, bool)>) -> Seq<u8>
    decreases path.len(),
{
    if path.len() == 0 {
        h
    } else {
        chain::<H>(chain_step::<H>(h, path[0]), path.skip(1))
    }
}

/// The authentication path for position `i` of a leaf level: at each level
/// the sibling digest is recorded (the digest at `i` itself when the
/// sibling position falls outside the level), then the level is folded and
/// the position halved, until one digest remains.
pub open spec fn proof_path<H: Hasher>(level: Seq<Seq<u8>>, i: int) -> Seq<(Seq<u8>, bool)>
    recommends
        0 <= i < level.len(),
    decreases level.len(),
{
    if level.len() <= 1 {
        Seq::empty()
    } else {
        let is_left = i % 2 == 1;
        let sib = if is_left {
            i - 1
        } else {
            i + 1
        };
        let entry = (
            if sib < level.len() {
                level[sib]
            } else {
                level[i]
            },
            is_left,
        );
        seq![entry] + proof_path::<H>(fold_level::<H>(level), i / 2)
    }
}

impl MerkleProof {
    /// The abstract authentication path this proof holds.
    pub open spec fn path(self) -> Seq<(Seq<u8>, bool)> {
        path_of(self.hashes@)
    }

    /// Recomputes the root from one leaf's raw data along the path and
    /// compares it to the claimed root: true exactly when they agree.
    pub fn verify<H: Hasher>(leaf: &[u8], pf: &MerkleProof, root_hash: &[u8]) -> (ok: bool)
        ensures
            ok == (chain::<H>(H::spec_hash(leaf@), pf.path()) == root_hash@),
    {
        let ghost full = pf.path();
        let mut hash = H::hash(leaf);
        let mut k: usize = 0;
        proof {
            assert(full.skip(0) =~= full);
        }
        while k < pf.hashes.len()
            invariant
                k <= pf.hashes@.len(),
                full == pf.path(),
                chain::<H>(hash@, full.skip(k as int)) == chain::<H>(
                    H::spec_hash(leaf@),
                    full,
                ),
            decreases pf.hashes@.len() - k,
        {
            let entry = &pf.hashes[k];
            let data = if entry.1 {
                concat_bytes(entry.0.as_slice(), hash.as_slice())
            } else {
                concat_bytes(hash.as_slice(), entry.0.as_slice())
            };
            proof {
                assert(full.skip(k as int)[0] == full[k as int]);
                assert(full.skip(k as int).skip(1) =~= full.skip(k as int + 1));
            }
            hash = H::hash(data.as_slice());
            k = k + 1;
        }
        proof {
            assert(full.skip(k as int) =~= Seq::<(Seq<u8>, bool)>::empty());
        }
        bytes_eq(hash.as_slice(), root_hash)
    }
}

/// Soundness of authentication paths: recomputing up the path generated
/// for any position of a level always lands on that level's root digest.
pub proof fn lemma_proof_path_sound<H: Hasher>(level: Seq<Seq<u8>>, i: int)
    requires
        0 <= i < level.len(),
    ensures
        chain::<H>(level[i], proof_path::<H>(level, i)) == root_of::<H>(level),
    decreases level.len(),
{
    if level.len() <= 1 {
        assert(proof_path::<H>(level, i) =~= Seq::<(Seq<u8>, bool)>::empty());
    } else {
        let f = fold_level::<H>(level);
        let is_left = i % 2 == 1;
        let sib = if is_left {
            i - 1
        } else {
            i + 1
        };
        let entry = (
            if sib < level.len() {
                level[sib]
            } else {
                level[i]
            },
            is_left,
        );
        let rest = proof_path::<H>(f, i / 2);
        let k = i / 2;
        assert(proof_path::<H>(level, i) == seq![entry] + rest);
        assert((seq![entry] + rest)[0] == entry);
        assert((seq![entry] + rest).skip(1) =~= rest);
        assert(chain::<H>(level[i], seq![entry] + rest) == chain::<H>(
            chain_step::<H>(level[i], entry),
            rest,
        ));
        if is_left {
            assert(2 * k == i - 1);
            assert(chain_step::<H>(level[i], entry) == f[k]);
        } else {
            assert(2 * k == i);
            assert(chain_step::<H>(level[i], entry) == f[k]);
        }
        assert(0 <= k < f.len());
        lemma_proof_path_sound::<H>(f, k);
        assert(root_of::<H>(level) == root_of::<H>(f));
    }
}

/// Proof soundness: for any tree built from a non-empty block list and any
/// valid block position, recomputing from that block's digest up its
/// authentication path yields the tree's root digest — so `verify` accepts
/// the proof that `generate_proof` produces.
pub proof fn lemma_proof_soundness<H: Hasher>(tree: MerkleTree, blocks: Seq<Seq<u8>>, i: int)
    requires
        tree.matches_blocks::<H>(blocks),
        blocks.len() >= 1,
        0 <= i < blocks.len(),
    ensures
        chain::<H>(H::spec_hash(blocks[i]), proof_path::<H>(tree.leaf_digests(), i))
            == tree.root.hash@,
{
    assert(tree.leaf_digests()[i] == H::spec_hash(blocks[i]));
    lemma_proof_path_sound::<H>(tree.leaf_digests(), i);
}

} // verus!
