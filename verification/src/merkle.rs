//! The Merkle commitment over coset leaves. A leaf is the vector of
//! field values of one folding coset; leaves and inner nodes are hashed
//! with distinct tags. The tree, the batch opening and the
//! authentication-path check are all verified against one spec-level
//! path evaluation, so an opening produced from a committed tree is
//! proved to pass the check against that tree's root.

use vstd::prelude::*;
use vstd::arithmetic::power2::pow2;
use crate::hashing::digest_of;
use crate::codec::{u64s_le_bytes, encode_u64s_le, extend_bytes};

verus! {

pub const TAG_LEAF: u8 = 16;

pub const TAG_NODE: u8 = 17;

/// The digest of a leaf: the tagged encoding of its coset values.
pub open spec fn leaf_hash(vals: Seq<u64>) -> Seq<u8> {
    digest_of(seq![TAG_LEAF] + u64s_le_bytes(vals))
}

/// The digest of an inner node over its two children.
pub open spec fn node_hash(l: Seq<u8>, r: Seq<u8>) -> Seq<u8> {
    digest_of(seq![TAG_NODE] + l + r)
}

/// Walks an authentication path from a starting digest up to the root
/// it implies, taking left/right from the bits of the index.
pub open spec fn path_eval(h: Seq<u8>, idx: int, path: Seq<Vec<u8>>) -> Seq<u8>
    decreases path.len(),
{
    if path.len() == 0 {
        h
    } else {
        let next = if idx % 2 == 1 {
            node_hash(path[0]@, h)
        } else {
            node_hash(h, path[0]@)
        };
        path_eval(next, idx / 2, path.drop_first())
    }
}

/// Whether `path` authenticates the coset `vals` at leaf `idx` of the
/// tree with the given root.
pub open spec fn path_ok(root: Seq<u8>, idx: int, vals: Seq<u64>, path: Seq<Vec<u8>>) -> bool {
    path_eval(leaf_hash(vals), idx, path) == root
}

/// One pairing level up: adjacent digests combine into their parents.
pub open spec fn pair_up(hs: Seq<Seq<u8>>) -> Seq<Seq<u8>> {
    Seq::new((hs.len() / 2) as nat, |x: int| node_hash(hs[2 * x], hs[2 * x + 1]))
}

/// The root digest that a sequence of leaf digests commits to.
pub open spec fn root_of(hs: Seq<Seq<u8>>) -> Seq<u8>
    decreases hs.len(),
{
    if hs.len() <= 1 {
        if hs.len() == 1 {
            hs[0]
        } else {
            Seq::empty()
        }
    } else {
        root_of(pair_up(hs))
    }
}

/// A level of stored digests, viewed as byte sequences.
pub open spec fn digests_view(v: Seq<Vec<u8>>) -> Seq<Seq<u8>> {
    Seq::new(v.len(), |x: int| v[x]@)
}

pub open spec fn is_pow2(n: int) -> bool
    decreases n,
{
    if n <= 0 {
        false
    } else if n == 1 {
        true
    } else {
        n % 2 == 0 && is_pow2(n / 2)
    }
}

/// Extending a path by one sibling combines the old result with that
/// sibling, on the side given by the next index bit.
proof fn lemma_path_eval_push(h: Seq<u8>, idx: int, path: Seq<Vec<u8>>, s: Vec<u8>)
    requires
        idx >= 0,
    ensures
        path_eval(h, idx, path.push(s)) == (if (idx / pow2(path.len()) as int) % 2 == 1 {
            node_hash(s@, path_eval(h, idx, path))
        } else {
            node_hash(path_eval(h, idx, path), s@)
        }),
    decreases path.len(),
{
    vstd::arithmetic::power2::lemma_pow2_pos(path.len());
    if path.len() == 0 {
        assert(path.push(s).drop_first() =~= Seq::<Vec<u8>>::empty());
        assert(pow2(0) == 1) by {
            vstd::arithmetic::power2::lemma2_to64();
        }
        assert(path.push(s)[0] == s);
        assert(path_eval(h, idx, path.push(s)) == (if idx % 2 == 1 {
            node_hash(s@, h)
        } else {
            node_hash(h, s@)
        })) by {
            reveal_with_fuel(path_eval, 3);
        }
        assert(path_eval(h, idx, path) == h);
        assert(idx / pow2(0) as int == idx);
    } else {
        let next = if idx % 2 == 1 {
            node_hash(path[0]@, h)
        } else {
            node_hash(h, path[0]@)
        };
        assert(path.push(s).drop_first() =~= path.drop_first().push(s));
        lemma_path_eval_push(next, idx / 2, path.drop_first(), s);
        assert(pow2(path.len()) == 2 * pow2((path.len() - 1) as nat)) by {
            vstd::arithmetic::power2::lemma_pow2_unfold(path.len());
        }
        assert(idx / 2 / (pow2((path.len() - 1) as nat) as int) == idx / (pow2(path.len()) as int))
            by {
            vstd::arithmetic::div_mod::lemma_div_denominator(
                idx,
                2,
                pow2((path.len() - 1) as nat) as int,
            );
        }
    }
}

fn hash_leaf(vals: &Vec<u64>) -> (r: Vec<u8>)
    ensures
        r@ == leaf_hash(vals@),
        r@.len() == 32,
{
    let mut buf: Vec<u8> = Vec::new();
    buf.push(TAG_LEAF);
    encode_u64s_le(vals, &mut buf);
    proof {
        assert(buf@ =~= seq![TAG_LEAF] + u64s_le_bytes(vals@));
    }
    crate::hashing::hash_bytes(&buf)
}

fn hash_node(l: &Vec<u8>, r: &Vec<u8>) -> (h: Vec<u8>)
    ensures
        h@ == node_hash(l@, r@),
        h@.len() == 32,
{
    let mut buf: Vec<u8> = Vec::new();
    buf.push(TAG_NODE);
    extend_bytes(&mut buf, l);
    extend_bytes(&mut buf, r);
    proof {
        assert(buf@ =~= seq![TAG_NODE] + l@ + r@);
    }
    crate::hashing::hash_bytes(&buf)
}

/// Byte-for-byte equality of two digests.
pub fn bytes_eq(a: &Vec<u8>, b: &Vec<u8>) -> (r: bool)
    ensures
        r == (a@ == b@),
{
    if a.len() != b.len() {
        return false;
    }
    let mut i: usize = 0;
    while i < a.len()
        invariant
            i <= a@.len(),
            a@.len() == b@.len(),
            forall|j: int| 0 <= j < i ==> a@[j] == b@[j],
        decreases a@.len() - i,
    {
        if a[i] != b[i] {
            return false;
        }
        i = i + 1;
    }
    proof {
        assert(a@ =~= b@);
    }
    true
}

/// Copies a digest.
pub fn clone_bytes(src: &Vec<u8>) -> (r: Vec<u8>)
    ensures
        r@ == src@,
{
    let mut v: Vec<u8> = Vec::new();
    extend_bytes(&mut v, src);
    proof {
        assert(v@ =~= src@);
    }
    v
}

/// A committed Merkle tree: every level of digests, leaves first.
pub struct MerkleTree {
    pub levels: Vec<Vec<Vec<u8>>>,
}

impl MerkleTree {
    /// Structural well-formedness: each level pairs up the one below,
    /// ending in a single root.
    pub open spec fn wf(&self) -> bool {
        &&& self.levels@.len() >= 1
        &&& self.levels@.last()@.len() == 1
        &&& forall|j: int|
            #![trigger self.levels@[j], self.levels@[j + 1]]
            0 <= j < self.levels@.len() - 1 ==> self.levels@[j]@.len() == 2 * self.levels@[j
                + 1]@.len()
        &&& forall|j: int, i: int|
            0 <= j < self.levels@.len() - 1 && 0 <= i < self.levels@[j + 1]@.len()
                ==> (#[trigger] self.levels@[j + 1]@[i])@ == node_hash(
                self.levels@[j]@[2 * i]@,
                self.levels@[j]@[2 * i + 1]@,
            )
    }

    pub open spec fn leaf_count(&self) -> int {
        self.levels@[0]@.len() as int
    }

    pub open spec fn leaf_digest(&self, i: int) -> Seq<u8> {
        self.levels@[0]@[i]@
    }

    pub open spec fn root_spec(&self) -> Seq<u8> {
        self.levels@.last()@[0]@
    }

    /// The root digest.
    pub fn root(&self) -> (r: Vec<u8>)
        requires
            self.wf(),
        ensures
            r@ == self.root_spec(),
    {
        let top = self.levels.len() - 1;
        clone_bytes(&self.levels[top][0])
    }
}

/// Builds the Merkle tree over the given coset leaves.
pub fn commit(leaves: &Vec<Vec<u64>>) -> (t: MerkleTree)
    requires
        leaves@.len() >= 1,
        is_pow2(leaves@.len() as int),
    ensures
        t.wf(),
        t.leaf_count() == leaves@.len(),
        forall|i: int| 0 <= i < leaves@.len() ==> t.leaf_digest(i) == leaf_hash(#[trigger] leaves@[i]@),
        t.root_spec() == root_of(Seq::new(leaves@.len(), |i: int| leaf_hash(leaves@[i]@))),
{
    let ghost hs0 = Seq::new(leaves@.len(), |i: int| leaf_hash(leaves@[i]@));
    let mut level0: Vec<Vec<u8>> = Vec::new();
    let mut i: usize = 0;
    while i < leaves.len()
        invariant
            i <= leaves@.len(),
            level0@.len() == i,
            forall|j: int| 0 <= j < i ==> (#[trigger] level0@[j])@ == leaf_hash(leaves@[j]@),
        decreases leaves@.len() - i,
    {
        level0.push(hash_leaf(&leaves[i]));
        i = i + 1;
    }
    proof {
        assert(digests_view(level0@) =~= hs0);
    }
    let mut levels: Vec<Vec<Vec<u8>>> = Vec::new();
    levels.push(level0);
    while levels[levels.len() - 1].len() > 1
        invariant
            levels@.len() >= 1,
            levels@[0]@.len() == leaves@.len(),
            is_pow2(levels@.last()@.len() as int),
            root_of(digests_view(levels@.last()@)) == root_of(hs0),
            forall|j: int|
                #![trigger levels@[j], levels@[j + 1]]
                0 <= j < levels@.len() - 1 ==> levels@[j]@.len() == 2 * levels@[j + 1]@.len(),
            forall|j: int, i2: int|
                0 <= j < levels@.len() - 1 && 0 <= i2 < levels@[j + 1]@.len() ==> (
                #[trigger] levels@[j + 1]@[i2])@ == node_hash(
                    levels@[j]@[2 * i2]@,
                    levels@[j]@[2 * i2 + 1]@,
                ),
            forall|i2: int|
                0 <= i2 < leaves@.len() ==> (#[trigger] levels@[0]@[i2])@ == leaf_hash(
                    leaves@[i2]@,
                ),
        decreases levels@.last()@.len(),
    {
        let top = levels.len() - 1;
        let cur_len = levels[top].len();
        proof {
            assert(is_pow2(cur_len as int));
            assert(cur_len % 2 == 0 && is_pow2(cur_len as int / 2));
        }
        let mut next: Vec<Vec<u8>> = Vec::new();
        let mut k: usize = 0;
        while k < cur_len / 2
            invariant
                levels@.len() >= 1,
                top == levels@.len() - 1,
                cur_len == levels@.last()@.len(),
                cur_len % 2 == 0,
                k <= cur_len / 2,
                next@.len() == k,
                forall|i2: int|
                    0 <= i2 < k ==> (#[trigger] next@[i2])@ == node_hash(
                        levels@.last()@[2 * i2]@,
                        levels@.last()@[2 * i2 + 1]@,
                    ),
            decreases cur_len / 2 - k,
        {
            let h = hash_node(&levels[top][2 * k], &levels[top][2 * k + 1]);
            next.push(h);
            k = k + 1;
        }
        proof {
            assert(digests_view(next@) =~= pair_up(digests_view(levels@.last()@)));
            assert(root_of(pair_up(digests_view(levels@.last()@))) == root_of(
                digests_view(levels@.last()@),
            ));
        }
        levels.push(next);
        proof {
            assert(levels@.last() == next);
            assert(forall|j: int|
                #![trigger levels@[j], levels@[j + 1]]
                0 <= j < levels@.len() - 1 ==> levels@[j]@.len() == 2 * levels@[j + 1]@.len());
        }
    }
    proof {
        assert(root_of(digests_view(levels@.last()@)) == levels@.last()@[0]@);
    }
    let t = MerkleTree { levels };
    t
}

/// Opens the tree at one leaf index: the sibling digests from the leaf
/// level up. The returned path is proved to authenticate that leaf's
/// digest against the tree's root.
#[verifier::rlimit(60)]
pub fn open_path(t: &MerkleTree, idx: usize) -> (path: Vec<Vec<u8>>)
    requires
        t.wf(),
        idx < t.leaf_count(),
    ensures
        path_eval(t.leaf_digest(idx as int), idx as int, path@) == t.root_spec(),
{
    let mut path: Vec<Vec<u8>> = Vec::new();
    let mut cur: usize = idx;
    let mut j: usize = 0;
    let nlevels = t.levels.len();
    proof {
        vstd::arithmetic::power2::lemma2_to64();
    }
    while j < nlevels - 1
        invariant
            t.wf(),
            nlevels == t.levels@.len(),
            j < nlevels,
            path@.len() == j,
            cur < t.levels@[j as int]@.len(),
            cur as int == idx as int / pow2(j as nat) as int,
            idx < t.levels@[0]@.len(),
            path_eval(t.leaf_digest(idx as int), idx as int, path@) == t.levels@[j as int]@[cur as int]@,
        decreases nlevels - j,
    {
        let sib: usize = if cur % 2 == 0 {
            cur + 1
        } else {
            cur - 1
        };
        proof {
            assert(t.levels@[j as int]@.len() == 2 * t.levels@[j as int + 1]@.len());
            assert(sib < t.levels@[j as int]@.len());
        }
        let sib_h = clone_bytes(&t.levels[j][sib]);
        proof {
            lemma_path_eval_push(t.leaf_digest(idx as int), idx as int, path@, sib_h);
            assert((idx as int / pow2(j as nat) as int) % 2 == cur as int % 2);
            assert(idx as int / pow2((j + 1) as nat) as int == cur as int / 2) by {
                vstd::arithmetic::power2::lemma_pow2_unfold((j + 1) as nat);
                vstd::arithmetic::power2::lemma_pow2_pos(j as nat);
                vstd::arithmetic::div_mod::lemma_div_denominator(
                    idx as int,
                    pow2(j as nat) as int,
                    2,
                );
            }
            assert(t.levels@[j as int + 1]@[cur as int / 2]@ == node_hash(
                t.levels@[j as int]@[2 * (cur as int / 2)]@,
                t.levels@[j as int]@[2 * (cur as int / 2) + 1]@,
            ));
        }
        path.push(sib_h);
        cur = cur / 2;
        j = j + 1;
    }
    proof {
        assert(j == t.levels@.len() - 1);
        assert(t.levels@.last() == t.levels@[j as int]);
        assert(cur == 0);
    }
    path
}

/// Checks an authentication path against a root.
pub fn path_check(root: &Vec<u8>, idx: u64, vals: &Vec<u64>, path: &Vec<Vec<u8>>) -> (r: bool)
    ensures
        r == path_ok(root@, idx as int, vals@, path@),
{
    let mut h = hash_leaf(vals);
    let mut cur: u64 = idx;
    let mut j: usize = 0;
    let plen = path.len();
    proof {
        assert(path@.skip(0) =~= path@);
    }
    while j < plen
        invariant
            plen == path@.len(),
            j <= plen,
            path_eval(h@, cur as int, path@.skip(j as int)) == path_eval(
                leaf_hash(vals@),
                idx as int,
                path@,
            ),
        decreases plen - j,
    {
        proof {
            assert(path@.skip(j as int).drop_first() =~= path@.skip(j as int + 1));
            assert(path@.skip(j as int)[0] == path@[j as int]);
        }
        h = if cur % 2 == 1 {
            hash_node(&path[j], &h)
        } else {
            hash_node(&h, &path[j])
        };
        cur = cur / 2;
        j = j + 1;
    }
    proof {
        assert(path@.skip(plen as int) =~= Seq::<Vec<u8>>::empty());
    }
    bytes_eq(&h, root)
}

} // verus!
