//! The commitment phase: evaluate the input polynomial on the initial
//! domain, group the evaluations into folding cosets, commit them in a
//! Merkle tree, and absorb the root into the transcript. The result is
//! the Witness the prover consumes.

use vstd::prelude::*;
use vstd::arithmetic::power2::pow2;
use crate::field::{P, OMEGA_32, pow64, f_pow};
use crate::poly_utils::{
    all_in_field, wrap_coeffs, wrap_coeffs_spec, fft, fft_spec, pow2_u64, lemma_pow2_is_pow2,
};
use crate::merkle::{MerkleTree, leaf_hash, root_of};
use crate::parameters::ParameterSet;
use crate::transcript::{ProverState, absorb_state};

verus! {

/// An upper bound on how many coefficients a committed polynomial may
/// carry; it keeps every intermediate buffer within machine range.
pub const MAX_COEFFS: usize = 268435456;

/// The values of folding coset `j` inside a flat evaluation vector:
/// stride order, so coset `j` holds the positions congruent to `j`
/// modulo the coset count.
pub open spec fn coset_values(evals: Seq<u64>, j: int, cc: int, k: int) -> Seq<u64> {
    Seq::new(k as nat, |t: int| evals[j + t * cc])
}

/// The generator of the evaluation domain of order `2^m`.
pub open spec fn domain_gen_spec(m: int) -> u64 {
    pow64(OMEGA_32, pow2((32 - m) as nat))
}

/// Computes the domain generator of order `2^m`.
pub fn domain_gen(m: u64) -> (r: u64)
    requires
        1 <= m <= 28,
    ensures
        r == domain_gen_spec(m as int),
        r < P,
{
    let e = pow2_u64(32 - m);
    f_pow(OMEGA_32, e)
}

/// Groups a flat evaluation vector into its folding cosets.
pub fn group_cosets(evals: &Vec<u64>, cc: usize, k: usize) -> (leaves: Vec<Vec<u64>>)
    requires
        evals@.len() == cc * k,
        cc >= 1,
        k >= 1,
        all_in_field(evals@),
    ensures
        leaves@.len() == cc,
        forall|j: int|
            0 <= j < cc ==> (#[trigger] leaves@[j])@ == coset_values(
                evals@,
                j,
                cc as int,
                k as int,
            ) && leaves@[j]@.len() == k && all_in_field(leaves@[j]@),
{
    let n = evals.len();
    let mut leaves: Vec<Vec<u64>> = Vec::new();
    let mut j: usize = 0;
    while j < cc
        invariant
            j <= cc,
            n == evals@.len(),
            evals@.len() == cc * k,
            cc >= 1,
            k >= 1,
            all_in_field(evals@),
            leaves@.len() == j,
            forall|j2: int|
                0 <= j2 < j ==> (#[trigger] leaves@[j2])@ == coset_values(
                    evals@,
                    j2,
                    cc as int,
                    k as int,
                ) && leaves@[j2]@.len() == k && all_in_field(leaves@[j2]@),
        decreases cc - j,
    {
        let mut leaf: Vec<u64> = Vec::new();
        let mut t: usize = 0;
        while t < k
            invariant
                t <= k,
                j < cc,
                cc >= 1,
                k >= 1,
                n == evals@.len(),
                evals@.len() == cc * k,
                all_in_field(evals@),
                leaf@.len() == t,
                forall|t2: int| 0 <= t2 < t ==> leaf@[t2] == evals@[j + t2 * cc],
            decreases k - t,
        {
            proof {
                assert(j + t * cc < cc * k) by (nonlinear_arith)
                    requires
                        j < cc,
                        t < k,
                        cc >= 1,
                        k >= 1,
                ;
            }
            leaf.push(evals[j + t * cc]);
            t = t + 1;
        }
        proof {
            assert(leaf@ =~= coset_values(evals@, j as int, cc as int, k as int));
            assert forall|t2: int| 0 <= t2 < leaf@.len() implies leaf@[t2] < P by {
                assert(leaf@[t2] == evals@[j + t2 * cc]);
                assert(0 <= j + t2 * cc < evals@.len()) by (nonlinear_arith)
                    requires
                        0 <= j < cc,
                        0 <= t2 < k,
                        cc >= 1,
                        k >= 1,
                        evals@.len() == cc * k,
                ;
            }
        }
        leaves.push(leaf);
        j = j + 1;
    }
    leaves
}

/// A batch of stored cosets, viewed as value sequences.
pub open spec fn cosets_view(v: Seq<Vec<u64>>) -> Seq<Seq<u64>> {
    Seq::new(v.len(), |j: int| v[j]@)
}

/// Round `i`'s oracle: the evaluations of the given polynomial on the
/// round's domain (reduced modulo `x^n - 1`, which leaves them
/// unchanged), grouped into that round's folding cosets.
pub open spec fn oracle_cosets(p: ParameterSet, i: int, coeffs: Seq<u64>) -> Seq<Seq<u64>> {
    let m = p.log_domain(i);
    let evals = fft_spec(
        wrap_coeffs_spec(coeffs, pow2(m as nat) as int),
        domain_gen_spec(m),
    );
    Seq::new(
        p.coset_count(i) as nat,
        |j: int| coset_values(evals, j, p.coset_count(i), p.coset_size()),
    )
}

/// The Merkle root that committing an oracle's cosets yields.
pub open spec fn oracle_root(cosets: Seq<Seq<u64>>) -> Seq<u8> {
    root_of(Seq::new(cosets.len(), |j: int| leaf_hash(cosets[j])))
}

/// What the commitment phase hands the prover: the polynomial, its
/// grouped domain evaluations, the committed tree and its root.
pub struct Witness {
    pub coeffs: Vec<u64>,
    pub leaves: Vec<Vec<u64>>,
    pub tree: MerkleTree,
    pub root: Vec<u8>,
}

impl Witness {
    /// Structural soundness of a witness against a parameter set: the
    /// stored cosets have the first round's shape, the tree's leaf
    /// digests are the digests of those cosets, and the stored root is
    /// the tree's. That the cosets are the polynomial's evaluations is
    /// stated by `CommitmentWriter::commit`'s contract.
    pub open spec fn wf(&self, p: ParameterSet) -> bool {
        &&& p.wf()
        &&& 1 <= self.coeffs@.len() <= MAX_COEFFS
        &&& all_in_field(self.coeffs@)
        &&& self.leaves@.len() == p.coset_count(0)
        &&& forall|j: int|
            0 <= j < self.leaves@.len() ==> (#[trigger] self.leaves@[j])@.len() == p.coset_size()
                && all_in_field(self.leaves@[j]@)
        &&& self.tree.wf()
        &&& self.tree.leaf_count() == p.coset_count(0)
        &&& forall|j: int|
            0 <= j < self.leaves@.len() ==> self.tree.leaf_digest(j) == leaf_hash(
                #[trigger] self.leaves@[j]@,
            )
        &&& self.root@ == self.tree.root_spec()
    }
}

/// Builds the initial committed oracle.
pub struct CommitmentWriter {
    pub params: ParameterSet,
}

impl CommitmentWriter {
    pub fn new(params: ParameterSet) -> (r: CommitmentWriter)
        requires
            params.wf(),
        ensures
            r.params == params,
    {
        CommitmentWriter { params }
    }

    /// Evaluates the polynomial on the initial domain (reduced modulo
    /// `x^n - 1`, which leaves the evaluations unchanged), groups the
    /// evaluations into first-round folding cosets, commits them, and
    /// absorbs the root as the first prover message.
    pub fn commit(&self, ps: &mut ProverState, coeffs: Vec<u64>) -> (w: Witness)
        requires
            self.params.wf(),
            1 <= coeffs@.len() <= MAX_COEFFS,
            all_in_field(coeffs@),
        ensures
            w.wf(self.params),
            w.coeffs@ == coeffs@,
            cosets_view(w.leaves@) == oracle_cosets(self.params, 0, coeffs@),
            w.root@ == oracle_root(oracle_cosets(self.params, 0, coeffs@)),
            final(ps).narg@ == old(ps).narg@ + w.root@,
            final(ps).fs@ == absorb_state(old(ps).fs@, w.root@),
    {
        let p = &self.params;
        let m0: u64 = p.log_degree + p.log_inv_rate;
        proof {
            p.lemma_domain_bounds(0);
            assert(m0 as int == p.log_domain(0));
            vstd::arithmetic::power2::lemma2_to64();
            vstd::arithmetic::power2::lemma2_to64_rest();
            vstd::arithmetic::power2::lemma_pow2_strictly_increases(m0 as nat, 32);
        }
        let n0 = pow2_u64(m0);
        let n0u: usize = n0 as usize;
        let wrapped = wrap_coeffs(&coeffs, n0u);
        let w0 = domain_gen(m0);
        proof {
            lemma_pow2_is_pow2(m0 as nat);
        }
        let evals = fft(&wrapped, w0);
        let f = p.log_folding;
        proof {
            vstd::arithmetic::power2::lemma_pow2_strictly_increases((m0 - f) as nat, 32);
            vstd::arithmetic::power2::lemma_pow2_strictly_increases(f as nat, 32);
            vstd::arithmetic::power2::lemma_pow2_adds((m0 - f) as nat, f as nat);
            lemma_pow2_is_pow2((m0 - f) as nat);
        }
        let cc = pow2_u64(m0 - f) as usize;
        let k = pow2_u64(f) as usize;
        let leaves = group_cosets(&evals, cc, k);
        proof {
            let ghost oc = oracle_cosets(self.params, 0, coeffs@);
            assert(cc as int == self.params.coset_count(0));
            assert(k as int == self.params.coset_size());
            assert(cosets_view(leaves@) =~= oc);
        }
        let tree = crate::merkle::commit(&leaves);
        proof {
            let ghost oc = oracle_cosets(self.params, 0, coeffs@);
            assert(Seq::new(leaves@.len(), |i: int| leaf_hash(leaves@[i]@)) =~= Seq::new(
                oc.len(),
                |j: int| leaf_hash(oc[j]),
            ));
        }
        let root = tree.root();
        ps.absorb(&root);
        Witness { coeffs, leaves, tree, root }
    }
}

} // verus!
