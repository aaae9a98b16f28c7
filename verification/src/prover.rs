//! The multi-round prover. Each transition squeezes a folding
//! challenge, folds the current polynomial, commits the folded
//! polynomial's evaluations on the shrunk domain (or, in the terminal
//! transition, sends its coefficients in the clear), squeezes the
//! round's query indices, grinds the round's proof-of-work nonce, and
//! opens the current oracle at every queried coset.
//!
//! `prove` carries an exact description of that work: on success, the
//! transcript string grows by precisely the message bytes of
//! [`honest_rounds`] — the committed roots, the final polynomial's
//! coefficients and the least passing nonces, all spec-level functions
//! of the parameters, the starting transcript state and the witness —
//! and the proof object's entries hold exactly the opened cosets, each
//! authenticated against its round's root.

use vstd::prelude::*;
use crate::poly_utils::{
    all_in_field, wrap_coeffs, fft, fold_coeffs, fold_coeffs_spec, pow2_u64, lemma_pow2_is_pow2,
};
use crate::merkle::{MerkleTree, path_ok, leaf_hash, clone_bytes};
use crate::parameters::{ParameterSet, FoldType};
use crate::transcript::{
    ProverState, grind, least_nonce, felt_of_state, squeeze_next, absorb_state, challenge_bytes_of,
    fs_after_squeezes, squeezed_indices,
};
use crate::committer::{Witness, group_cosets, domain_gen, MAX_COEFFS, cosets_view, oracle_cosets, oracle_root};
use crate::stir_proof::{StirProof, RoundEntry};
use crate::codec::{u64_le_bytes, u64s_le_bytes, encode_u64_le, encode_u64s_le, clone_u64s};

verus! {

/// The prover's one failure mode: a round's entire nonce space failed
/// its proof-of-work target. Practically unreachable; proof generation
/// has no other error path.
#[derive(Clone, Copy, Debug, PartialEq, Eq, Structural)]
pub enum ProveError {
    GrindingExhausted,
}

/// The polynomial padded with zero coefficients up to a whole number of
/// folding cosets.
pub open spec fn pad_zeros(c: Seq<u64>, k: int) -> Seq<u64> {
    c + Seq::new(((c.len() + k - 1) / k * k - c.len()) as nat, |x: int| 0u64)
}

/// What an honest prover writes from round `i` on, given the transcript
/// state `fs`, the current polynomial, the current oracle's cosets and
/// committed root, and the previous round's query positions: `entries`
/// holds exactly the opened cosets (each authenticated against the
/// round's root) and `narg` is exactly the message bytes — the next
/// root (or, in the terminal round, the folded polynomial's
/// coefficients) followed by the round's least passing nonce, then the
/// later rounds' bytes. Every value here is a spec-level function of
/// the arguments, mirroring `verify_rounds` on the verifier's side.
#[verifier::opaque]
pub open spec fn honest_rounds(
    p: ParameterSet,
    i: int,
    fs: Seq<u8>,
    coeffs: Seq<u64>,
    cosets: Seq<Seq<u64>>,
    root: Seq<u8>,
    prev_q: Seq<u64>,
    entries: Seq<RoundEntry>,
    narg: Seq<u8>,
) -> bool
    decreases p.num_rounds - 2 - i,
{
    let k = p.coset_size();
    let cc = p.coset_count(i) as u64;
    let r_i = felt_of_state(fs);
    let fs1 = squeeze_next(fs);
    let folded = fold_coeffs_spec(pad_zeros(coeffs, k), r_i, k);
    let msg: Seq<u8> = if i < p.num_rounds - 2 {
        oracle_root(oracle_cosets(p, i + 1, folded))
    } else {
        u64s_le_bytes(folded)
    };
    let fs2 = absorb_state(fs1, msg);
    let qn = p.queries_for_round_spec(i);
    let fresh = squeezed_indices(fs2, qn, cc);
    let fs3 = fs_after_squeezes(fs2, qn);
    let positions = prev_q.map_values(|q: u64| (q as int % cc as int) as u64) + fresh;
    let ch = challenge_bytes_of(fs3);
    let fs4 = squeeze_next(fs3);
    let nonce = least_nonce(ch, p.pow_bits);
    let fs5 = absorb_state(fs4, u64_le_bytes(nonce));
    let written = msg + u64_le_bytes(nonce);
    &&& entries.len() == p.num_rounds - 1 - i
    &&& entries[0].leaves@.len() == positions.len()
    &&& entries[0].paths@.len() == positions.len()
    &&& forall|j: int|
        0 <= j < positions.len() ==> (#[trigger] entries[0].leaves@[j])@ == cosets[positions[j] as int]
    &&& forall|j: int|
        0 <= j < positions.len() ==> path_ok(
            root,
            positions[j] as int,
            entries[0].leaves@[j]@,
            (#[trigger] entries[0].paths@[j])@,
        )
    &&& narg.len() >= written.len()
    &&& narg.subrange(0, written.len() as int) == written
    &&& if i < p.num_rounds - 2 {
        honest_rounds(
            p,
            i + 1,
            fs5,
            folded,
            oracle_cosets(p, i + 1, folded),
            msg,
            positions,
            entries.skip(1),
            narg.skip(written.len() as int),
        )
    } else {
        narg.len() == written.len()
    }
}

/// Introduces one round of [`honest_rounds`] from its pieces; keeping
/// the definition opaque elsewhere keeps every other obligation small.
proof fn lemma_honest_intro(
    p: ParameterSet,
    i: int,
    fs: Seq<u8>,
    coeffs: Seq<u64>,
    cosets: Seq<Seq<u64>>,
    root: Seq<u8>,
    prev_q: Seq<u64>,
    entries: Seq<RoundEntry>,
    narg: Seq<u8>,
    folded: Seq<u64>,
    msg: Seq<u8>,
    fs2: Seq<u8>,
    fs3: Seq<u8>,
    positions: Seq<u64>,
    nonce: u64,
    written: Seq<u8>,
)
    requires
        folded == fold_coeffs_spec(
            pad_zeros(coeffs, p.coset_size()),
            felt_of_state(fs),
            p.coset_size(),
        ),
        msg == (if i < p.num_rounds - 2 {
            oracle_root(oracle_cosets(p, i + 1, folded))
        } else {
            u64s_le_bytes(folded)
        }),
        fs2 == absorb_state(squeeze_next(fs), msg),
        fs3 == fs_after_squeezes(fs2, p.queries_for_round_spec(i)),
        positions == prev_q.map_values(
            |q: u64| (q as int % (p.coset_count(i) as u64) as int) as u64,
        ) + squeezed_indices(fs2, p.queries_for_round_spec(i), p.coset_count(i) as u64),
        nonce == least_nonce(challenge_bytes_of(fs3), p.pow_bits),
        written == msg + u64_le_bytes(nonce),
        entries.len() == p.num_rounds - 1 - i,
        entries[0].leaves@.len() == positions.len(),
        entries[0].paths@.len() == positions.len(),
        forall|j: int|
            0 <= j < positions.len() ==> (#[trigger] entries[0].leaves@[j])@ == cosets[positions[j] as int],
        forall|j: int|
            0 <= j < positions.len() ==> path_ok(
                root,
                positions[j] as int,
                entries[0].leaves@[j]@,
                (#[trigger] entries[0].paths@[j])@,
            ),
        narg.len() >= written.len(),
        narg.subrange(0, written.len() as int) == written,
        i < p.num_rounds - 2 ==> honest_rounds(
            p,
            i + 1,
            absorb_state(squeeze_next(fs3), u64_le_bytes(nonce)),
            folded,
            oracle_cosets(p, i + 1, folded),
            msg,
            positions,
            entries.skip(1),
            narg.skip(written.len() as int),
        ),
        i >= p.num_rounds - 2 ==> narg.len() == written.len(),
    ensures
        honest_rounds(p, i, fs, coeffs, cosets, root, prev_q, entries, narg),
{
    reveal_with_fuel(honest_rounds, 1);
}

/// Runs the round loop over a committed witness.
pub struct Prover {
    pub params: ParameterSet,
}

impl Prover {
    pub fn new(params: ParameterSet) -> (r: Prover)
        requires
            params.wf(),
        ensures
            r.params == params,
    {
        Prover { params }
    }

    /// One fold-and-query transition and everything after it; the exact
    /// mirror of [`honest_rounds`].
    #[verifier::rlimit(100)]
    #[verifier::spinoff_prover]
    fn prove_rounds(
        &self,
        ps: &mut ProverState,
        i: u64,
        coeffs: Vec<u64>,
        cur_leaves: Vec<Vec<u64>>,
        cur_tree: MerkleTree,
        cur_root: Vec<u8>,
        prev_q: Vec<u64>,
    ) -> (r: Result<Vec<RoundEntry>, ProveError>)
        requires
            self.params.wf(),
            0 <= i <= self.params.num_rounds - 2,
            1 <= coeffs@.len() <= MAX_COEFFS,
            all_in_field(coeffs@),
            cur_tree.wf(),
            cur_tree.leaf_count() == self.params.coset_count(i as int),
            cur_leaves@.len() == cur_tree.leaf_count(),
            forall|j: int|
                0 <= j < cur_leaves@.len() ==> cur_tree.leaf_digest(j) == leaf_hash(
                    (#[trigger] cur_leaves@[j])@,
                ),
            cur_root@ == cur_tree.root_spec(),
        ensures
            r is Ok ==> honest_rounds(
                self.params,
                i as int,
                old(ps).fs@,
                coeffs@,
                cosets_view(cur_leaves@),
                cur_root@,
                prev_q@,
                r->Ok_0@,
                final(ps).narg@.skip(old(ps).narg@.len() as int),
            ) && old(ps).narg@.is_prefix_of(final(ps).narg@) && r->Ok_0@.len()
                == self.params.num_rounds - 1 - i,
            r is Err ==> r->Err_0 == ProveError::GrindingExhausted,
        decreases self.params.num_rounds - 2 - i,
    {
        let p = &self.params;
        let ghost narg0 = ps.narg@;
        let ghost fs0 = ps.fs@;
        proof {
            p.lemma_domain_bounds(i as int);
            p.lemma_coset_count_bound(i as int);
        }
        let f = p.log_folding;
        let m_i: u64 = p.log_degree + p.log_inv_rate - i * f;
        proof {
            assert(m_i as int == p.log_domain(i as int)) by (nonlinear_arith)
                requires
                    m_i as int == p.log_degree + p.log_inv_rate - (i as int) * (f as int),
                    p.log_domain(i as int) == p.log_degree + p.log_inv_rate - (i as int) * (
                    f as int),
            ;
        }
        let r_i = ps.squeeze_felt();
        let k_u = pow2_u64(f);
        proof {
            vstd::arithmetic::power2::lemma2_to64();
            if f > 1 {
                vstd::arithmetic::power2::lemma_pow2_strictly_increases(1, f as nat);
            }
            if f < 10 {
                vstd::arithmetic::power2::lemma_pow2_strictly_increases(f as nat, 10);
            }
            assert(2 <= k_u <= 1024);
        }
        let k = k_u as usize;
        // pad the polynomial up to a whole number of cosets
        let ghost coeffs0 = coeffs@;
        let mut coeffs = coeffs;
        let blocks = (coeffs.len() + k - 1) / k;
        proof {
            assert(coeffs@.len() <= blocks * k <= MAX_COEFFS + 1024 && 1 <= blocks && k <= blocks
                * k && (blocks * k) as int % (k as int) == 0) by (nonlinear_arith)
                requires
                    blocks == (coeffs@.len() + k - 1) as int / k as int,
                    1 <= coeffs@.len() <= MAX_COEFFS,
                    2 <= k <= 1024,
            ;
        }
        let target = blocks * k;
        while coeffs.len() < target
            invariant
                coeffs0.len() <= coeffs@.len() <= target <= MAX_COEFFS + 1024,
                coeffs@.subrange(0, coeffs0.len() as int) == coeffs0,
                forall|x: int| coeffs0.len() <= x < coeffs@.len() ==> coeffs@[x] == 0,
                all_in_field(coeffs@),
            decreases target - coeffs@.len(),
        {
            proof {
                assert(coeffs@.push(0u64).subrange(0, coeffs0.len() as int) =~= coeffs@.subrange(
                    0,
                    coeffs0.len() as int,
                ));
            }
            coeffs.push(0);
        }
        proof {
            assert(coeffs@ =~= pad_zeros(coeffs0, k as int));
        }
        let folded = fold_coeffs(&coeffs, r_i, k, matches!(p.fold_type, FoldType::ProverHelps));
        proof {
            assert(folded@.len() >= 1 && folded@.len() <= MAX_COEFFS) by (nonlinear_arith)
                requires
                    folded@.len() == coeffs@.len() as int / k as int,
                    k <= coeffs@.len() <= MAX_COEFFS + 1024,
                    coeffs@.len() as int % k as int == 0,
                    2 <= k <= 1024,
            ;
        }
        let last = i == p.num_rounds - 2;
        let mut next_data: Option<(Vec<Vec<u64>>, MerkleTree)> = None;
        let msg: Vec<u8>;
        if !last {
            proof {
                p.lemma_domain_bounds(i as int + 1);
            }
            let m_next: u64 = m_i - f;
            proof {
                assert(m_next as int == p.log_domain(i as int + 1)) by (nonlinear_arith)
                    requires
                        m_next as int == p.log_domain(i as int) - f,
                        p.log_domain(i as int) == p.log_degree + p.log_inv_rate - (i as int) * (
                        f as int),
                        p.log_domain(i as int + 1) == p.log_degree + p.log_inv_rate - (i as int
                            + 1) * (f as int),
                ;
                vstd::arithmetic::power2::lemma2_to64();
                vstd::arithmetic::power2::lemma2_to64_rest();
                vstd::arithmetic::power2::lemma_pow2_strictly_increases(m_next as nat, 32);
                vstd::arithmetic::power2::lemma_pow2_strictly_increases((m_next - f) as nat, 32);
                vstd::arithmetic::power2::lemma_pow2_adds((m_next - f) as nat, f as nat);
                lemma_pow2_is_pow2(m_next as nat);
                lemma_pow2_is_pow2((m_next - f) as nat);
            }
            let n_next = pow2_u64(m_next) as usize;
            let wrapped = wrap_coeffs(&folded, n_next);
            let w_next = domain_gen(m_next);
            let evals = fft(&wrapped, w_next);
            let cc_next = pow2_u64(m_next - f) as usize;
            let next_leaves = group_cosets(&evals, cc_next, k);
            let next_tree = crate::merkle::commit(&next_leaves);
            let root = next_tree.root();
            proof {
                let ghost oc = oracle_cosets(*p, i as int + 1, folded@);
                assert(cc_next as int == p.coset_count(i as int + 1));
                assert(cosets_view(next_leaves@) =~= oc);
                assert(Seq::new(next_leaves@.len(), |j: int| leaf_hash(next_leaves@[j]@)) =~= Seq::new(
                    oc.len(),
                    |j: int| leaf_hash(oc[j]),
                ));
                assert(root@ == oracle_root(oc));
            }
            msg = root;
            next_data = Some((next_leaves, next_tree));
        } else {
            // terminal transition: the final polynomial travels in the
            // clear, through the transcript
            let mut m: Vec<u8> = Vec::new();
            encode_u64s_le(&folded, &mut m);
            proof {
                assert(m@ =~= u64s_le_bytes(folded@));
            }
            msg = m;
        }
        ps.absorb(&msg);
        let ghost fs2 = ps.fs@;
        // query indices into the current oracle
        proof {
            vstd::arithmetic::power2::lemma_pow2_strictly_increases((m_i - f) as nat, 32);
        }
        let cc = pow2_u64(m_i - f);
        proof {
            assert(cc as int == p.coset_count(i as int));
        }
        let qn: u64 = if p.num_queries <= cc {
            p.num_queries
        } else {
            cc
        };
        proof {
            assert(qn as int == p.queries_for_round_spec(i as int));
        }
        let mut positions: Vec<u64> = Vec::new();
        let mut d: usize = 0;
        while d < prev_q.len()
            invariant
                d <= prev_q@.len(),
                cc >= 1,
                positions@.len() == d,
                forall|x: int|
                    0 <= x < d ==> positions@[x] == (prev_q@[x] as int % cc as int) as u64
                        && positions@[x] < cc,
            decreases prev_q@.len() - d,
        {
            positions.push(prev_q[d] % cc);
            d = d + 1;
        }
        proof {
            assert(positions@ =~= prev_q@.map_values(|q: u64| (q as int % cc as int) as u64));
        }
        let ghost derived = positions@;
        let mut t: u64 = 0;
        while t < qn
            invariant
                t <= qn,
                cc >= 1,
                positions@.len() == derived.len() + t,
                forall|x: int| 0 <= x < positions@.len() ==> positions@[x] < cc,
                ps.narg@ == narg0 + msg@,
                derived + squeezed_indices(fs2, qn as int, cc) =~= positions@ + squeezed_indices(
                    ps.fs@,
                    qn as int - t,
                    cc,
                ),
                fs_after_squeezes(fs2, qn as int) == fs_after_squeezes(ps.fs@, qn as int - t),
            decreases qn - t,
        {
            let idx = ps.squeeze_index(cc);
            positions.push(idx);
            t = t + 1;
        }
        let ghost fs3g = ps.fs@;
        proof {
            assert(squeezed_indices(ps.fs@, 0, cc) =~= Seq::<u64>::empty());
            assert(positions@ =~= derived + squeezed_indices(fs2, qn as int, cc));
            assert(fs3g == fs_after_squeezes(fs2, qn as int));
        }
        // proof of work: the least nonce meeting the round's difficulty
        let ch = ps.squeeze_challenge();
        let nonce = match grind(&ch, p.pow_bits) {
            Some(n) => n,
            None => {
                return Err(ProveError::GrindingExhausted);
            },
        };
        let mut nb: Vec<u8> = Vec::new();
        encode_u64_le(nonce, &mut nb);
        proof {
            assert(nb@ =~= u64_le_bytes(nonce));
        }
        ps.absorb(&nb);
        // open the current oracle at every queried coset
        proof {
            assert(cc as int == cur_tree.leaf_count());
        }
        let mut paths: Vec<Vec<Vec<u8>>> = Vec::new();
        let mut opened: Vec<Vec<u64>> = Vec::new();
        let mut qi: usize = 0;
        while qi < positions.len()
            invariant
                qi <= positions@.len(),
                cur_tree.wf(),
                cur_tree.leaf_count() == cc,
                cur_leaves@.len() == cc,
                cc <= 0x10000000,
                cur_root@ == cur_tree.root_spec(),
                forall|j: int|
                    0 <= j < cur_leaves@.len() ==> cur_tree.leaf_digest(j) == leaf_hash(
                        (#[trigger] cur_leaves@[j])@,
                    ),
                forall|x: int| 0 <= x < positions@.len() ==> positions@[x] < cc,
                paths@.len() == qi,
                opened@.len() == qi,
                forall|j: int|
                    0 <= j < qi ==> (#[trigger] opened@[j])@ == cur_leaves@[positions@[j] as int]@,
                forall|j: int|
                    0 <= j < qi ==> path_ok(
                        cur_root@,
                        positions@[j] as int,
                        opened@[j]@,
                        (#[trigger] paths@[j])@,
                    ),
            decreases positions@.len() - qi,
        {
            let q = positions[qi];
            let qu = q as usize;
            paths.push(crate::merkle::open_path(&cur_tree, qu));
            opened.push(clone_u64s(&cur_leaves[qu]));
            qi = qi + 1;
        }
        let entry = RoundEntry { paths, leaves: opened };
        let ghost ge = entry;
        let ghost written = msg@ + u64_le_bytes(nonce);
        let ghost fs5g = ps.fs@;
        proof {
            assert(ps.narg@ == narg0 + written);
            assert(fs5g == absorb_state(squeeze_next(fs3g), u64_le_bytes(nonce)));
            assert(k as int == p.coset_size());
            assert(folded@ == fold_coeffs_spec(
                pad_zeros(coeffs0, p.coset_size()),
                felt_of_state(fs0),
                p.coset_size(),
            ));
        }
        if !last {
            let root_copy = clone_bytes(&msg);
            let (next_leaves, next_tree) = match next_data {
                Some(x) => x,
                None => {
                    return Err(ProveError::GrindingExhausted);
                },
            };
            let ghost narg1 = ps.narg@;
            let rest = match self.prove_rounds(ps, i + 1, folded, next_leaves, next_tree, root_copy, positions) {
                Ok(v) => v,
                Err(e) => {
                    return Err(e);
                },
            };
            let ghost rest0 = rest@;
            let mut out: Vec<RoundEntry> = Vec::new();
            out.push(entry);
            let mut rest = rest;
            while rest.len() > 0
                invariant
                    out@ + rest@ =~= seq![ge] + rest0,
                    out@.len() >= 1,
                decreases rest@.len(),
            {
                let x = rest.remove(0);
                out.push(x);
            }
            proof {
                assert(out@ =~= seq![ge] + rest0);
                assert(out@.skip(1) =~= rest0);
                let ghost s = ps.narg@.skip(narg0.len() as int);
                assert(narg1 == ps.narg@.subrange(0, narg1.len() as int));
                assert forall|x: int| 0 <= x < written.len() implies s[x] == written[x] by {
                    assert(ps.narg@[narg0.len() + x] == narg1[narg0.len() + x]);
                }
                assert(s.subrange(0, written.len() as int) =~= written);
                assert(s.skip(written.len() as int) =~= ps.narg@.skip(narg1.len() as int));
                assert(narg0.is_prefix_of(ps.narg@)) by {
                    assert(ps.narg@.subrange(0, narg0.len() as int) =~= narg0);
                }
                lemma_honest_intro(
                    *p,
                    i as int,
                    fs0,
                    coeffs0,
                    cosets_view(cur_leaves@),
                    cur_root@,
                    prev_q@,
                    out@,
                    s,
                    folded@,
                    msg@,
                    fs2,
                    fs3g,
                    positions@,
                    nonce,
                    written,
                );
            }
            Ok(out)
        } else {
            let mut out: Vec<RoundEntry> = Vec::new();
            out.push(entry);
            proof {
                let ghost s = ps.narg@.skip(narg0.len() as int);
                assert(s =~= written);
                assert(s.subrange(0, written.len() as int) =~= written);
                assert(out@.len() == 1);
                assert(narg0.is_prefix_of(ps.narg@)) by {
                    assert(ps.narg@.subrange(0, narg0.len() as int) =~= narg0);
                }
                lemma_honest_intro(
                    *p,
                    i as int,
                    fs0,
                    coeffs0,
                    cosets_view(cur_leaves@),
                    cur_root@,
                    prev_q@,
                    out@,
                    s,
                    folded@,
                    msg@,
                    fs2,
                    fs3g,
                    positions@,
                    nonce,
                    written,
                );
            }
            Ok(out)
        }
    }

    /// Produces a proof for the committed witness: one entry per
    /// fold-and-query transition, exactly `num_rounds - 1` of them, with
    /// the transcript string extended by exactly the honest message
    /// bytes of [`honest_rounds`]. The error case is the
    /// practically-unreachable exhaustion of a round's nonce space.
    pub fn prove(&self, ps: &mut ProverState, witness: Witness) -> (r: Result<
        StirProof,
        ProveError,
    >)
        requires
            self.params.wf(),
            witness.wf(self.params),
        ensures
            r is Ok ==> r->Ok_0.merkle_proofs@.len() == self.params.num_rounds - 1
                && old(ps).narg@.is_prefix_of(final(ps).narg@) && honest_rounds(
                self.params,
                0,
                old(ps).fs@,
                witness.coeffs@,
                cosets_view(witness.leaves@),
                witness.root@,
                Seq::empty(),
                r->Ok_0.merkle_proofs@,
                final(ps).narg@.skip(old(ps).narg@.len() as int),
            ),
            r is Err ==> r->Err_0 == ProveError::GrindingExhausted,
    {
        let Witness { coeffs, leaves, tree, root } = witness;
        let pq: Vec<u64> = Vec::new();
        proof {
            reveal_with_fuel(honest_rounds, 1);
            assert(pq@ =~= Seq::<u64>::empty());
        }
        match self.prove_rounds(ps, 0, coeffs, leaves, tree, root, pq) {
            Ok(entries) => Ok(StirProof { merkle_proofs: entries }),
            Err(e) => Err(e),
        }
    }
}

} // verus!
