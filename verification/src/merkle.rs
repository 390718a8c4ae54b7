//! Sparse binary Merkle tree of configurable depth. A key maps to a leaf
//! through the first `depth` bits of its SHA3-256 digest, taken LSB-first
//! within each byte, bytes in order. A leaf hashes as the field digest
//! (the first 255 digest bits, reduced into the field) of `0x00` followed
//! by the value; an internal node as the field digest of its children's
//! hashes, an absent subtree hashing to zero. Membership proofs list the
//! sibling hash at each level, root level first.

use vstd::prelude::*;
use crate::errors::StateError;
use crate::algebra::{Fe, fe_wf, fe_of_le, fe_zero, fe_from_le_bytes, copy_bytes, bytes_eq};
use crate::hash::{sha3_256_of, sha3_256_bytes, spec_mask255, mask_top_bit};

verus! {

/// Hash of an absent subtree: the zero field element.
pub open spec fn empty_hash() -> Seq<u8> {
    Seq::new(32, |i: int| 0u8)
}

/// Hash of a leaf holding `value`: the first 255 digest bits, reduced
/// into the field.
pub open spec fn leaf_hash_fe(value: Seq<u8>) -> Seq<u8> {
    fe_of_le(spec_mask255(sha3_256_of(seq![0u8] + value)))
}

/// Hash of an internal node from its children's hashes.
pub open spec fn node_hash_fe(left: Seq<u8>, right: Seq<u8>) -> Seq<u8> {
    fe_of_le(spec_mask255(sha3_256_of(left + right)))
}

/// The path of a key: the first `depth` bits of its SHA3-256 digest,
/// LSB-first within each byte, bytes in order.
pub open spec fn spec_path(key: Seq<u8>, depth: nat) -> Seq<bool> {
    Seq::new(depth, |i: int| ((sha3_256_of(key)[i / 8] >> ((i % 8) as u8)) & 1u8) == 1u8)
}

/// A tree node: a leaf carries a value, an internal node carries children.
pub struct MerkleNode {
    /// Hash of the subtree rooted here.
    pub hash: Fe,
    /// The stored value, present exactly at leaves.
    pub value: Option<Vec<u8>>,
    /// Left child (path bit 0).
    pub left: Option<Box<MerkleNode>>,
    /// Right child (path bit 1).
    pub right: Option<Box<MerkleNode>>,
}

/// The hash an optional subtree contributes to its parent.
pub open spec fn opt_hash(n: Option<Box<MerkleNode>>) -> Seq<u8> {
    match n {
        None => empty_hash(),
        Some(b) => b.hash@,
    }
}

/// Well-formedness of a node with `rem` levels below it: leaves sit at
/// `rem == 0` and hash their value; internal nodes hash their children.
pub open spec fn node_wf(n: MerkleNode, rem: nat) -> bool
    decreases rem,
{
    if rem == 0 {
        &&& n.left is None
        &&& n.right is None
        &&& fe_wf(n.hash@)
        &&& n.value matches Some(v) && n.hash@ == leaf_hash_fe(v@)
    } else {
        &&& n.value is None
        &&& fe_wf(n.hash@)
        &&& n.hash@ == node_hash_fe(opt_hash(n.left), opt_hash(n.right))
        &&& (n.left matches Some(l) ==> node_wf(*l, (rem - 1) as nat))
        &&& (n.right matches Some(r) ==> node_wf(*r, (rem - 1) as nat))
    }
}

/// Well-formedness of an optional subtree.
pub open spec fn opt_node_wf(n: Option<Box<MerkleNode>>, rem: nat) -> bool {
    n matches Some(b) ==> node_wf(*b, rem)
}

/// The value stored at the leaf the path leads to.
pub open spec fn spec_lookup(n: Option<Box<MerkleNode>>, path: Seq<bool>) -> Option<Seq<u8>>
    decreases path.len(),
{
    match n {
        None => None,
        Some(b) => {
            if path.len() == 0 {
                match b.value {
                    Some(v) => Some(v@),
                    None => None,
                }
            } else {
                if path[0] {
                    spec_lookup(b.right, path.skip(1))
                } else {
                    spec_lookup(b.left, path.skip(1))
                }
            }
        },
    }
}

/// The sibling hashes along the path, root level first; absent siblings
/// contribute the empty hash.
pub open spec fn spec_siblings(n: Option<Box<MerkleNode>>, path: Seq<bool>) -> Seq<Seq<u8>>
    decreases path.len(),
{
    if path.len() == 0 {
        Seq::empty()
    } else {
        match n {
            None => seq![empty_hash()] + spec_siblings(None, path.skip(1)),
            Some(b) => {
                if path[0] {
                    seq![opt_hash(b.left)] + spec_siblings(b.right, path.skip(1))
                } else {
                    seq![opt_hash(b.right)] + spec_siblings(b.left, path.skip(1))
                }
            },
        }
    }
}

/// The root a proof reconstructs from a leaf hash: hashing upward from the
/// leaf, the path bit at each level placing the running hash left or right
/// of the listed sibling.
pub open spec fn spec_fold(path: Seq<bool>, lh: Seq<u8>, proof: Seq<Seq<u8>>) -> Seq<u8>
    decreases path.len(),
{
    if path.len() == 0 {
        lh
    } else {
        let below = spec_fold(path.skip(1), lh, proof.skip(1));
        if path[0] {
            node_hash_fe(proof[0], below)
        } else {
            node_hash_fe(below, proof[0])
        }
    }
}

/// Functional model of a subtree: empty, a leaf value, or two children.
pub enum TreeV {
    Empty,
    Leaf(Seq<u8>),
    Node(Box<TreeV>, Box<TreeV>),
}

/// The hash of a model subtree with `rem` levels below it.
pub open spec fn tv_hash(t: TreeV, rem: nat) -> Seq<u8>
    decreases rem,
{
    match t {
        TreeV::Empty => empty_hash(),
        TreeV::Leaf(v) => leaf_hash_fe(v),
        TreeV::Node(l, r) => {
            if rem == 0 {
                empty_hash()
            } else {
                node_hash_fe(tv_hash(*l, (rem - 1) as nat), tv_hash(*r, (rem - 1) as nat))
            }
        },
    }
}

/// Updating a model subtree along a path.
pub open spec fn tv_update(t: TreeV, path: Seq<bool>, value: Seq<u8>) -> TreeV
    decreases path.len(),
{
    if path.len() == 0 {
        TreeV::Leaf(value)
    } else {
        let l = match t {
            TreeV::Node(l, _) => *l,
            _ => TreeV::Empty,
        };
        let r = match t {
            TreeV::Node(_, r) => *r,
            _ => TreeV::Empty,
        };
        if path[0] {
            TreeV::Node(Box::new(l), Box::new(tv_update(r, path.skip(1), value)))
        } else {
            TreeV::Node(Box::new(tv_update(l, path.skip(1), value)), Box::new(r))
        }
    }
}

/// The model of an executable subtree with `rem` levels below it.
pub open spec fn as_tree(n: Option<Box<MerkleNode>>, rem: nat) -> TreeV
    decreases rem,
{
    match n {
        None => TreeV::Empty,
        Some(b) => {
            if rem == 0 {
                TreeV::Leaf(
                    match b.value {
                        Some(v) => v@,
                        None => Seq::empty(),
                    },
                )
            } else {
                TreeV::Node(
                    Box::new(as_tree(b.left, (rem - 1) as nat)),
                    Box::new(as_tree(b.right, (rem - 1) as nat)),
                )
            }
        },
    }
}

/// A well-formed subtree's root hash equals the hash of its model: the
/// root is a function of the stored keys and values alone.
pub proof fn lemma_tv_hash_of_tree(n: Option<Box<MerkleNode>>, rem: nat)
    requires
        opt_node_wf(n, rem),
    ensures
        tv_hash(as_tree(n, rem), rem) == opt_hash(n),
    decreases rem,
{
    match n {
        None => {},
        Some(b) => {
            if rem == 0 {
            } else {
                lemma_tv_hash_of_tree(b.left, (rem - 1) as nat);
                lemma_tv_hash_of_tree(b.right, (rem - 1) as nat);
            }
        },
    }
}

/// For every key present in a well-formed tree, the proof the tree hands
/// out reconstructs the tree's own root hash: membership proofs verify.
pub proof fn lemma_proof_verifies(n: Option<Box<MerkleNode>>, path: Seq<bool>, v: Seq<u8>)
    requires
        opt_node_wf(n, path.len() as nat),
        spec_lookup(n, path) == Some(v),
    ensures
        spec_fold(path, leaf_hash_fe(v), spec_siblings(n, path)) == opt_hash(n),
    decreases path.len(),
{
    let b = n->Some_0;
    if path.len() == 0 {
        assert(b.value matches Some(vv) && vv@ == v);
    } else {
        let sibs = spec_siblings(n, path);
        if path[0] {
            lemma_proof_verifies(b.right, path.skip(1), v);
            assert(sibs.skip(1) =~= spec_siblings(b.right, path.skip(1)));
            assert(sibs[0] == opt_hash(b.left));
        } else {
            lemma_proof_verifies(b.left, path.skip(1), v);
            assert(sibs.skip(1) =~= spec_siblings(b.left, path.skip(1)));
            assert(sibs[0] == opt_hash(b.right));
        }
    }
}

/// The path bits of `key` for a tree of the given depth.
pub fn compute_path(key: &[u8], depth: usize) -> (r: Vec<bool>)
    requires
        depth <= 256,
    ensures
        r@ == spec_path(key@, depth as nat),
{
    let digest = sha3_256_bytes(key);
    let mut path: Vec<bool> = Vec::new();
    let mut i: usize = 0;
    while i < depth
        invariant
            depth <= 256,
            digest@ == sha3_256_of(key@),
            digest@.len() == 32,
            0 <= i <= depth,
            path@.len() == i,
            forall|j: int|
                0 <= j < i ==> path@[j] == (((sha3_256_of(key@)[j / 8] >> ((j % 8) as u8)) & 1u8)
                    == 1u8),
        decreases depth - i,
    {
        let byte = *vstd::std_specs::vec::vec_index(&digest, i / 8);
        let bit = ((byte >> ((i % 8) as u8)) & 1u8) == 1u8;
        path.push(bit);
        i = i + 1;
    }
    proof {
        assert(path@ =~= spec_path(key@, depth as nat));
    }
    path
}

/// Whether `proof` shows that `key` holds `value` under `expected_root`:
/// true exactly when the proof covers every level and reconstructs the
/// expected root by hashing from the leaf upward.
pub fn verify_merkle_proof(
    key: &[u8],
    value: &[u8],
    proof: &MerkleProof,
    expected_root: &Fe,
    depth: usize,
) -> (r: bool)
    requires
        depth <= 256,
    ensures
        r == (proof@.len() == depth && spec_fold(
            spec_path(key@, depth as nat),
            leaf_hash_fe(value@),
            proof@,
        ) == expected_root@),
{
    if proof.siblings.len() != depth {
        return false;
    }
    let path = compute_path(key, depth);
    let mut buf: Vec<u8> = Vec::new();
    buf.push(0u8);
    buf.extend_from_slice(value);
    proof {
        assert(buf@ =~= seq![0u8] + value@);
    }
    let mut digest = sha3_256_bytes(buf.as_slice());
    mask_top_bit(&mut digest);
    let mut cur = fe_from_le_bytes(&digest);
    let ghost pathv = spec_path(key@, depth as nat);
    let ghost proofv = proof@;
    let mut i: usize = depth;
    proof {
        assert(pathv.skip(i as int) =~= Seq::<bool>::empty());
    }
    while i > 0
        invariant
            path@ == pathv,
            pathv.len() == depth,
            proofv.len() == depth,
            proofv == proof@,
            proof.siblings@.len() == depth,
            0 <= i <= depth,
            cur@ == spec_fold(pathv.skip(i as int), leaf_hash_fe(value@), proofv.skip(i as int)),
            fe_wf(cur@),
        decreases i,
    {
        i = i - 1;
        let bit = *vstd::std_specs::vec::vec_index(&path, i);
        let sib = vstd::std_specs::vec::vec_index(&proof.siblings, i);
        let mut cat: Vec<u8> = Vec::new();
        if bit {
            cat.extend_from_slice(sib.as_bytes().as_slice());
            cat.extend_from_slice(cur.as_bytes().as_slice());
        } else {
            cat.extend_from_slice(cur.as_bytes().as_slice());
            cat.extend_from_slice(sib.as_bytes().as_slice());
        }
        let mut digest2 = sha3_256_bytes(cat.as_slice());
        mask_top_bit(&mut digest2);
        let next = fe_from_le_bytes(&digest2);
        proof {
            let rem = pathv.skip(i as int);
            assert(rem[0] == pathv[i as int]);
            assert(rem.skip(1) =~= pathv.skip(i + 1));
            assert(proofv.skip(i as int)[0] == proofv[i as int]);
            assert(proofv.skip(i as int).skip(1) =~= proofv.skip(i + 1));
            assert(proofv[i as int] == proof.siblings@[i as int]@);
            if pathv[i as int] {
                assert(cat@ =~= proofv[i as int] + cur@);
            } else {
                assert(cat@ =~= cur@ + proofv[i as int]);
            }
        }
        cur = next;
    }
    proof {
        assert(pathv.skip(0) =~= pathv);
        assert(proofv.skip(0) =~= proofv);
    }
    cur.equals(expected_root)
}

/// A proof lists one sibling per level of the path.
pub proof fn lemma_siblings_len(n: Option<Box<MerkleNode>>, path: Seq<bool>)
    ensures
        spec_siblings(n, path).len() == path.len(),
    decreases path.len(),
{
    if path.len() > 0 {
        match n {
            None => lemma_siblings_len(None, path.skip(1)),
            Some(b) => {
                if path[0] {
                    lemma_siblings_len(b.right, path.skip(1));
                } else {
                    lemma_siblings_len(b.left, path.skip(1));
                }
            },
        }
    }
}

/// For every key a well-formed tree holds — in particular for the key just
/// updated — the proof the tree issues reconstructs the tree's own root
/// from the stored value, so issued membership proofs always verify
/// against the current root.
pub proof fn lemma_tree_proof_verifies(t: MerkleTree, key: Seq<u8>, value: Seq<u8>)
    requires
        t.wf(),
        t.spec_get(key) == Some(value),
    ensures
        spec_fold(
            spec_path(key, t.spec_depth()),
            leaf_hash_fe(value),
            spec_siblings(t.spec_root(), spec_path(key, t.spec_depth())),
        ) == t.spec_root_hash(),
{
    lemma_proof_verifies(t.spec_root(), spec_path(key, t.spec_depth()), value);
}

/// A membership proof: the sibling hash at each level, root level first.
#[derive(Clone, Debug)]
pub struct MerkleProof {
    siblings: Vec<Fe>,
}

impl View for MerkleProof {
    type V = Seq<Seq<u8>>;

    closed spec fn view(&self) -> Seq<Seq<u8>> {
        Seq::new(self.siblings@.len(), |i: int| self.siblings@[i]@)
    }
}

impl MerkleProof {
    /// Number of levels covered.
    pub fn len(&self) -> (r: usize)
        ensures
            r == self@.len(),
    {
        self.siblings.len()
    }
}

/// Sparse Merkle tree.
pub struct MerkleTree {
    root: Option<Box<MerkleNode>>,
    depth: usize,
}

impl MerkleTree {
    /// The tree's depth.
    pub closed spec fn spec_depth(&self) -> nat {
        self.depth as nat
    }

    /// The root of the model tree.
    pub closed spec fn spec_root(&self) -> Option<Box<MerkleNode>> {
        self.root
    }

    /// Well-formedness: bounded depth and a hash-consistent tree.
    pub open spec fn wf(&self) -> bool {
        &&& self.spec_depth() <= 256
        &&& opt_node_wf(self.spec_root(), self.spec_depth())
    }

    /// The value the tree holds for `key`.
    pub open spec fn spec_get(&self, key: Seq<u8>) -> Option<Seq<u8>> {
        spec_lookup(self.spec_root(), spec_path(key, self.spec_depth()))
    }

    /// The root hash.
    pub open spec fn spec_root_hash(&self) -> Seq<u8> {
        opt_hash(self.spec_root())
    }

    /// The functional model of the whole tree.
    pub open spec fn spec_model(&self) -> TreeV {
        as_tree(self.spec_root(), self.spec_depth())
    }

    /// The root hash is the hash of the functional model: a function of
    /// the stored keys and values alone.
    pub proof fn lemma_root_hash_is_model_hash(&self)
        requires
            self.wf(),
        ensures
            self.spec_root_hash() == tv_hash(self.spec_model(), self.spec_depth()),
    {
        lemma_tv_hash_of_tree(self.spec_root(), self.spec_depth());
    }

    /// An empty tree of the given depth (at most 256, the bits a SHA3-256
    /// digest provides).
    pub fn new(depth: usize) -> (r: MerkleTree)
        requires
            depth <= 256,
        ensures
            r.wf(),
            r.spec_depth() == depth,
            r.spec_root() is None,
            forall|key: Seq<u8>| r.spec_get(key) is None,
    {
        MerkleTree { root: None, depth }
    }

    /// The current root hash; the zero element for an empty tree.
    pub fn root(&self) -> (r: Fe)
        requires
            self.wf(),
        ensures
            r@ == self.spec_root_hash(),
            fe_wf(r@),
    {
        match &self.root {
            None => fe_zero(),
            Some(b) => b.hash.duplicate(),
        }
    }

    /// The path bits of `key`.
    fn get_path(&self, key: &[u8]) -> (r: Vec<bool>)
        requires
            self.wf(),
        ensures
            r@ == spec_path(key@, self.spec_depth()),
    {
        compute_path(key, self.depth)
    }

    /// Updates the leaf for `key` to `value` and returns the new root hash.
    /// Afterwards the tree holds `value` at `key` and every other key is
    /// unchanged.
    pub fn update(&mut self, key: &[u8], value: &[u8]) -> (r: Result<Fe, StateError>)
        requires
            old(self).wf(),
        ensures
            final(self).wf(),
            final(self).spec_depth() == old(self).spec_depth(),
            final(self).spec_get(key@) == Some(value@),
            forall|k2: Seq<bool>|
                k2.len() == old(self).spec_depth() && k2 != spec_path(key@, old(self).spec_depth())
                    ==> spec_lookup(final(self).spec_root(), k2) == spec_lookup(
                    old(self).spec_root(),
                    k2,
                ),
            r matches Ok(h) && h@ == final(self).spec_root_hash(),
            final(self).spec_model() == tv_update(
                old(self).spec_model(),
                spec_path(key@, old(self).spec_depth()),
                value@,
            ),
    {
        let path = self.get_path(key);
        let root = self.root.take();
        let new_root = Self::update_rec(root, &path, 0, value);
        let h = new_root.hash.duplicate();
        self.root = Some(new_root);
        proof {
            assert(path@.skip(0) =~= path@);
        }
        Ok(h)
    }

    /// Rebuilds the subtree at `level` so the remaining path leads to
    /// `value`, leaving every other remaining path unchanged.
    fn update_rec(node: Option<Box<MerkleNode>>, path: &Vec<bool>, level: usize, value: &[u8])
        -> (r: Box<MerkleNode>)
        requires
            level <= path@.len(),
            opt_node_wf(node, (path@.len() - level) as nat),
        ensures
            node_wf(*r, (path@.len() - level) as nat),
            spec_lookup(Some(r), path@.skip(level as int)) == Some(value@),
            forall|p2: Seq<bool>|
                p2.len() == path@.len() - level && p2 != path@.skip(level as int)
                    ==> spec_lookup(Some(r), p2) == spec_lookup(node, p2),
            as_tree(Some(r), (path@.len() - level) as nat) == tv_update(
                as_tree(node, (path@.len() - level) as nat),
                path@.skip(level as int),
                value@,
            ),
        decreases path@.len() - level,
    {
        if level == path.len() {
            let mut buf: Vec<u8> = Vec::new();
            buf.push(0u8);
            buf.extend_from_slice(value);
            proof {
                assert(buf@ =~= seq![0u8] + value@);
            }
            let mut digest = sha3_256_bytes(buf.as_slice());
            mask_top_bit(&mut digest);
            let h = fe_from_le_bytes(&digest);
            let mut stored: Vec<u8> = Vec::new();
            stored.extend_from_slice(value);
            proof {
                assert(stored@ =~= value@);
            }
            let r = Box::new(MerkleNode { hash: h, value: Some(stored), left: None, right: None });
            proof {
                assert(path@.skip(level as int) =~= Seq::<bool>::empty());
                assert forall|p2: Seq<bool>|
                    p2.len() == path@.len() - level && p2 != path@.skip(level as int) implies
                    spec_lookup(Some(r), p2) == spec_lookup(node, p2) by {
                    assert(p2 =~= path@.skip(level as int));
                }
            }
            r
        } else {
            let ghost node0 = node;
            let (mut left, mut right) = match node {
                Some(b) => {
                    let inner = *b;
                    (inner.left, inner.right)
                },
                None => (None, None),
            };
            let bit = *vstd::std_specs::vec::vec_index(path, level);
            let ghost old_left = left;
            let ghost old_right = right;
            if bit {
                let new_child = Self::update_rec(right, path, level + 1, value);
                right = Some(new_child);
            } else {
                let new_child = Self::update_rec(left, path, level + 1, value);
                left = Some(new_child);
            }
            let lh = Self::child_hash(&left);
            let rh = Self::child_hash(&right);
            let mut buf = lh;
            let mut rhm = rh;
            buf.append(&mut rhm);
            proof {
                assert(buf@ =~= opt_hash(left) + opt_hash(right));
            }
            let mut digest = sha3_256_bytes(buf.as_slice());
            mask_top_bit(&mut digest);
            let h = fe_from_le_bytes(&digest);
            let r = Box::new(MerkleNode { hash: h, value: None, left, right });
            proof {
                let rem = path@.skip(level as int);
                assert(rem.len() == path@.len() - level);
                assert(rem[0] == path@[level as int]);
                assert(rem.skip(1) =~= path@.skip(level + 1));
                assert(spec_lookup(Some(r), rem) == Some(value@));
                assert forall|p2: Seq<bool>|
                    p2.len() == path@.len() - level && p2 != rem implies spec_lookup(Some(r), p2)
                    == spec_lookup(node, p2) by {
                    let tail = p2.skip(1);
                    assert(tail.len() == path@.len() - (level + 1));
                    if p2[0] == rem[0] {
                        assert(tail != path@.skip(level + 1)) by {
                            if tail == rem.skip(1) {
                                assert forall|j: int| 0 <= j < p2.len() implies p2[j] == rem[j] by {
                                    if j > 0 {
                                        assert(p2[j] == tail[j - 1]);
                                        assert(rem[j] == rem.skip(1)[j - 1]);
                                    }
                                }
                                assert(p2 =~= rem);
                            }
                        }
                    }
                    if bit {
                        if p2[0] {
                            assert(spec_lookup(right, tail) == spec_lookup(old_right, tail));
                        }
                    } else {
                        if !p2[0] {
                            assert(spec_lookup(left, tail) == spec_lookup(old_left, tail));
                        }
                    }
                    match node0 {
                        Some(ob) => {
                            assert(ob.left == old_left);
                            assert(ob.right == old_right);
                            assert(spec_lookup(node, p2) == (if p2[0] {
                                spec_lookup(old_right, tail)
                            } else {
                                spec_lookup(old_left, tail)
                            }));
                        },
                        None => {
                            assert(old_left is None && old_right is None);
                            assert(spec_lookup(node, p2) is None);
                        },
                    }
                    assert(spec_lookup(Some(r), p2) == (if p2[0] {
                        spec_lookup(right, tail)
                    } else {
                        spec_lookup(left, tail)
                    }));
                }
                let remn = (path@.len() - level) as nat;
                let old_lt = as_tree(old_left, (remn - 1) as nat);
                let old_rt = as_tree(old_right, (remn - 1) as nat);
                assert(as_tree(Some(r), remn) == TreeV::Node(
                    Box::new(as_tree(left, (remn - 1) as nat)),
                    Box::new(as_tree(right, (remn - 1) as nat)),
                ));
                match node0 {
                    Some(ob) => {
                        assert(as_tree(node, remn) == TreeV::Node(
                            Box::new(old_lt),
                            Box::new(old_rt),
                        ));
                    },
                    None => {
                        assert(as_tree(node, remn) == TreeV::Empty);
                        assert(old_lt == TreeV::Empty && old_rt == TreeV::Empty);
                    },
                }
                if bit {
                    assert(as_tree(right, (remn - 1) as nat) == tv_update(
                        old_rt,
                        path@.skip(level + 1),
                        value@,
                    ));
                    assert(tv_update(as_tree(node, remn), rem, value@) == TreeV::Node(
                        Box::new(old_lt),
                        Box::new(tv_update(old_rt, rem.skip(1), value@)),
                    ));
                } else {
                    assert(as_tree(left, (remn - 1) as nat) == tv_update(
                        old_lt,
                        path@.skip(level + 1),
                        value@,
                    ));
                    assert(tv_update(as_tree(node, remn), rem, value@) == TreeV::Node(
                        Box::new(tv_update(old_lt, rem.skip(1), value@)),
                        Box::new(old_rt),
                    ));
                }
            }
            r
        }
    }

    /// The hash of an optional child as bytes.
    fn child_hash(c: &Option<Box<MerkleNode>>) -> (r: Vec<u8>)
        ensures
            r@ == opt_hash(*c),
    {
        match c {
            None => {
                let z = fe_zero();
                z.to_bytes()
            },
            Some(b) => b.hash.to_bytes(),
        }
    }

    /// The value stored for `key`, if any; never fails.
    pub fn get(&self, key: &[u8]) -> (r: Result<Option<Vec<u8>>, StateError>)
        requires
            self.wf(),
        ensures
            r matches Ok(o) && (match self.spec_get(key@) {
                Some(v) => o matches Some(ov) && ov@ == v,
                None => o is None,
            }),
    {
        let path = self.get_path(key);
        proof {
            assert(path@.skip(0) =~= path@);
        }
        Ok(Self::get_rec(&self.root, &path, 0))
    }

    /// Walks the remaining path to the leaf.
    fn get_rec(node: &Option<Box<MerkleNode>>, path: &Vec<bool>, level: usize) -> (r: Option<
        Vec<u8>,
    >)
        requires
            level <= path@.len(),
        ensures
            match spec_lookup(*node, path@.skip(level as int)) {
                Some(v) => r matches Some(ov) && ov@ == v,
                None => r is None,
            },
        decreases path@.len() - level,
    {
        match node {
            None => None,
            Some(b) => {
                if level == path.len() {
                    proof {
                        assert(path@.skip(level as int) =~= Seq::<bool>::empty());
                    }
                    match &b.value {
                        Some(v) => Some(copy_bytes(v)),
                        None => None,
                    }
                } else {
                    let bit = *vstd::std_specs::vec::vec_index(path, level);
                    proof {
                        assert(path@.skip(level as int)[0] == path@[level as int]);
                        assert(path@.skip(level as int).skip(1) =~= path@.skip(level + 1));
                    }
                    if bit {
                        Self::get_rec(&b.right, path, level + 1)
                    } else {
                        Self::get_rec(&b.left, path, level + 1)
                    }
                }
            },
        }
    }

    /// The membership proof for `key`: the sibling hash at each level, root
    /// level first; never fails.
    pub fn get_proof(&self, key: &[u8]) -> (r: Result<MerkleProof, StateError>)
        requires
            self.wf(),
        ensures
            r matches Ok(p) && p@ == spec_siblings(
                self.spec_root(),
                spec_path(key@, self.spec_depth()),
            ),
    {
        let path = self.get_path(key);
        let siblings = Self::proof_rec(&self.root, &path, 0);
        let proof = MerkleProof { siblings };
        proof {
            assert(path@.skip(0) =~= path@);
            lemma_siblings_len(self.spec_root(), path@);
            assert(proof@ =~= spec_siblings(self.spec_root(), spec_path(key@, self.spec_depth())));
        }
        Ok(proof)
    }

    /// Collects sibling hashes along the remaining path.
    fn proof_rec(node: &Option<Box<MerkleNode>>, path: &Vec<bool>, level: usize) -> (r: Vec<Fe>)
        requires
            level <= path@.len(),
        ensures
            r@.len() == path@.len() - level,
            forall|i: int|
                0 <= i < r@.len() ==> #[trigger] r@[i]@ == spec_siblings(
                    *node,
                    path@.skip(level as int),
                )[i],
        decreases path@.len() - level,
    {
        if level == path.len() {
            proof {
                assert(path@.skip(level as int) =~= Seq::<bool>::empty());
            }
            Vec::new()
        } else {
            let bit = *vstd::std_specs::vec::vec_index(path, level);
            proof {
                assert(path@.skip(level as int)[0] == path@[level as int]);
                assert(path@.skip(level as int).skip(1) =~= path@.skip(level + 1));
            }
            let (sib, child): (Fe, &Option<Box<MerkleNode>>) = match node {
                None => (fe_zero(), &None),
                Some(b) => {
                    if bit {
                        (match &b.left {
                            None => fe_zero(),
                            Some(l) => l.hash.duplicate(),
                        }, &b.right)
                    } else {
                        (match &b.right {
                            None => fe_zero(),
                            Some(rn) => rn.hash.duplicate(),
                        }, &b.left)
                    }
                },
            };
            let rest = Self::proof_rec(child, path, level + 1);
            let ghost restv = rest@;
            let ghost sibv = sib@;
            let mut out: Vec<Fe> = Vec::new();
            out.push(sib);
            let mut rest_m = rest;
            out.append(&mut rest_m);
            proof {
                let sibs = spec_siblings(*node, path@.skip(level as int));
                let inner = spec_siblings(*child, path@.skip(level + 1));
                lemma_siblings_len(*child, path@.skip(level + 1));
                assert(spec_siblings(*child, path@.skip(level as int).skip(1)) == inner);
                assert(sibs == seq![sibv] + inner);
                assert(out@.len() == 1 + restv.len());
                assert(out@[0]@ == sibv);
                assert(sibs[0] == sibv);
                assert(inner.len() == restv.len());
                assert forall|i: int| 1 <= i < out@.len() implies #[trigger] out@[i]@ == sibs[i] by {
                    assert(out@[i] == restv[i - 1]);
                    assert(restv[i - 1]@ == inner[i - 1]);
                    assert((seq![sibv] + inner)[i] == inner[i - 1]);
                    assert(sibs[i] == inner[i - 1]);
                }
            }
            out
        }
    }

    /// Whether `proof` proves that `key` holds `value` under this tree's
    /// root: true exactly when the proof covers every level and
    /// reconstructs the root hash; never fails.
    pub fn verify_proof(&self, key: &[u8], value: &[u8], proof: &MerkleProof) -> (r: Result<
        bool,
        StateError,
    >)
        requires
            self.wf(),
        ensures
            r matches Ok(b) && b == (proof@.len() == self.spec_depth() && spec_fold(
                spec_path(key@, self.spec_depth()),
                leaf_hash_fe(value@),
                proof@,
            ) == self.spec_root_hash()),
    {
        let root = self.root();
        Ok(verify_merkle_proof(key, value, proof, &root, self.depth))
    }
}

} // verus!
