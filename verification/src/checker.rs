//! The verifier. It replays the prover's transcript schedule on its own
//! state — challenges are re-derived, never read from the prover — then
//! checks every authentication path, recomputes each expected folded
//! evaluation from the opened cosets, checks the proof-of-work nonces,
//! and finally checks the in-the-clear polynomial against the last
//! round's folds and its degree bound (by its length on the wire).
//!
//! `verify` carries an exact functional contract: it accepts precisely
//! when [`spec_verify`] holds of the parameter set, the label, the
//! received message string and the proof object. Everything `verify`
//! computes is a function of those inputs, so two runs on identical
//! inputs always return the identical outcome: verification has no
//! hidden randomness.

use vstd::prelude::*;
use vstd::arithmetic::power2::pow2;
use crate::field::{P, pow64, f_pow};
use crate::codec::{u64_from_le_at, decode_u64_le};
use crate::poly_utils::{
    all_in_field, all_in_field_exec, eval_poly, eval_range, fold_evals_spec, fold_evals,
    coset_points_spec, coset_points, pow2_u64, lemma_pow2_is_pow2,
};
use crate::merkle::{path_ok, path_check, is_pow2};
use crate::parameters::{ParameterSet, seed_spec, make_seed};
use crate::transcript::{
    VerifierState, init_state, absorb_state, squeeze_next, challenge_bytes_of, felt_of_state,
    pow_ok, check_pow, fs_after_squeezes, squeezed_indices,
};
use crate::committer::{domain_gen_spec, domain_gen};
use crate::stir_proof::{StirProof, RoundEntry};

verus! {

/// Rejection is opaque by design: the verifier does not say which check
/// failed.
#[derive(Clone, Copy, Debug, PartialEq, Eq, Structural)]
pub struct VerifyError;

/// The field elements decoded from `n` little-endian words of `s` at
/// `pos`.
pub open spec fn decoded_u64s(s: Seq<u8>, pos: int, n: int) -> Seq<u64> {
    Seq::new(n as nat, |t: int| u64_from_le_at(s, pos + 8 * t) as u64)
}

/// Every opened coset has the round's size, holds field elements, and
/// its authentication path meets the round's root.
pub open spec fn openings_ok(root: Seq<u8>, positions: Seq<u64>, e: RoundEntry, k: int) -> bool {
    forall|j: int|
        0 <= j < positions.len() ==> (#[trigger] e.leaves@[j])@.len() == k && all_in_field(
            e.leaves@[j]@,
        ) && path_ok(root, positions[j] as int, e.leaves@[j]@, e.paths@[j]@)
}

/// The previous round's expected folded values appear inside this
/// round's opened cosets, at the carried positions.
pub open spec fn carry_ok(e: RoundEntry, pq: Seq<u64>, pv: Seq<u64>, cc: int) -> bool {
    forall|j: int| 0 <= j < pq.len() ==> (#[trigger] e.leaves@[j])@[pq[j] as int / cc] == pv[j]
}

/// This round's expected folded values: each opened coset folded by the
/// round's challenge at its own coset points.
pub open spec fn folds_of(e: RoundEntry, positions: Seq<u64>, w_i: u64, eta: u64, k: int, r_i: u64) -> Seq<
    u64,
> {
    Seq::new(
        positions.len(),
        |j: int|
            fold_evals_spec(
                e.leaves@[j]@,
                coset_points_spec(pow64(w_i, positions[j] as nat), eta, k),
                r_i,
            ),
    )
}

/// The terminal check: the received polynomial, evaluated at each
/// derived point, matches the expected folded value there.
pub open spec fn final_ok(fc: Seq<u64>, wfin: u64, positions: Seq<u64>, folds: Seq<u64>) -> bool {
    forall|j: int|
        0 <= j < positions.len() ==> eval_poly(fc, pow64(wfin, (#[trigger] positions[j]) as nat))
            == folds[j]
}

/// One fold-and-query round of verification, from round `i` on. The
/// verifier squeezes the round's folding challenge, reads the round's
/// message (the next committed root, or the final polynomial in the
/// terminal round), re-derives the query positions (carried-over
/// positions from the previous round first, then fresh ones), checks
/// the round's proof-of-work, checks the openings against the current
/// root, ties the previous round's folds to the opened values, and
/// recomputes this round's folds. The terminal round instead evaluates
/// the received polynomial at the derived points and demands the whole
/// message string be consumed.
pub open spec fn verify_rounds(
    p: ParameterSet,
    entries: Seq<RoundEntry>,
    narg: Seq<u8>,
    i: int,
    fs: Seq<u8>,
    pos: int,
    root: Seq<u8>,
    pq: Seq<u64>,
    pv: Seq<u64>,
) -> bool
    decreases p.num_rounds - 2 - i,
{
    let r_i = felt_of_state(fs);
    let fs1 = squeeze_next(fs);
    let flen = p.final_coeff_len();
    let msg_len: int = if i < p.num_rounds - 2 {
        32
    } else {
        8 * flen
    };
    if pos + msg_len > narg.len() {
        false
    } else {
        let msg = narg.subrange(pos, pos + msg_len);
        let fs2 = absorb_state(fs1, msg);
        let pos2 = pos + msg_len;
        let cc = p.coset_count(i) as u64;
        let k = p.coset_size();
        let qn = p.queries_for_round_spec(i);
        let fresh = squeezed_indices(fs2, qn, cc);
        let fs3 = fs_after_squeezes(fs2, qn);
        let positions = pq.map_values(|q: u64| (q as int % cc as int) as u64) + fresh;
        let ch = challenge_bytes_of(fs3);
        let fs4 = squeeze_next(fs3);
        if pos2 + 8 > narg.len() {
            false
        } else {
            let nonce = u64_from_le_at(narg, pos2) as u64;
            let fs5 = absorb_state(fs4, narg.subrange(pos2, pos2 + 8));
            let pos3 = pos2 + 8;
            if !pow_ok(ch, nonce, p.pow_bits) {
                false
            } else {
                let e = entries[i];
                if e.leaves@.len() != positions.len() || e.paths@.len() != positions.len() {
                    false
                } else if !(openings_ok(root, positions, e, k) && carry_ok(
                    e,
                    pq,
                    pv,
                    cc as int,
                )) {
                    false
                } else {
                    let w_i = domain_gen_spec(p.log_domain(i));
                    let eta = pow64(w_i, cc as nat);
                    let folds = folds_of(e, positions, w_i, eta, k, r_i);
                    if i < p.num_rounds - 2 {
                        verify_rounds(p, entries, narg, i + 1, fs5, pos3, msg, positions, folds)
                    } else {
                        let fc = decoded_u64s(narg, pos, flen);
                        let wfin = domain_gen_spec(p.log_domain(i) - p.log_folding);
                        &&& all_in_field(fc)
                        &&& pos3 == narg.len()
                        &&& final_ok(fc, wfin, positions, folds)
                    }
                }
            }
        }
    }
}

/// Acceptance of a proof exchange: the proof has one entry per
/// transition, the message string opens with the committed root, and
/// every round's checks pass.
pub open spec fn spec_verify(p: ParameterSet, label: Seq<u8>, narg: Seq<u8>, pf: &StirProof) -> bool {
    &&& pf.merkle_proofs@.len() == p.num_rounds - 1
    &&& narg.len() >= 32
    &&& {
        let fs0 = init_state(seed_spec(label, p));
        let root0 = narg.subrange(0, 32);
        let fs1 = absorb_state(fs0, root0);
        verify_rounds(p, pf.merkle_proofs@, narg, 0, fs1, 32, root0, Seq::empty(), Seq::empty())
    }
}

/// Transcript determinism: verification has no hidden randomness, so
/// any two verifier runs given the identical parameter set, label,
/// transcript string and proof object reach the identical accept/reject
/// outcome. `verify` ensures each run's outcome equals [`spec_verify`]
/// of its inputs, and this law closes the argument.
pub proof fn lemma_verify_deterministic(
    p: ParameterSet,
    label: Seq<u8>,
    narg: Seq<u8>,
    pf: &StirProof,
    first: bool,
    second: bool,
)
    requires
        first == spec_verify(p, label, narg, pf),
        second == spec_verify(p, label, narg, pf),
    ensures
        first == second,
{
}

fn check_openings(root: &Vec<u8>, positions: &Vec<u64>, e: &RoundEntry, k: usize) -> (r: bool)
    requires
        e.leaves@.len() == positions@.len(),
        e.paths@.len() == positions@.len(),
    ensures
        r == openings_ok(root@, positions@, *e, k as int),
{
    let mut j: usize = 0;
    while j < positions.len()
        invariant
            j <= positions@.len(),
            e.leaves@.len() == positions@.len(),
            e.paths@.len() == positions@.len(),
            forall|j2: int|
                0 <= j2 < j ==> (#[trigger] e.leaves@[j2])@.len() == k && all_in_field(
                    e.leaves@[j2]@,
                ) && path_ok(root@, positions@[j2] as int, e.leaves@[j2]@, e.paths@[j2]@),
        decreases positions@.len() - j,
    {
        let lv = &e.leaves[j];
        if lv.len() != k {
            return false;
        }
        if !all_in_field_exec(lv) {
            return false;
        }
        if !path_check(root, positions[j], lv, &e.paths[j]) {
            return false;
        }
        j = j + 1;
    }
    true
}

fn check_carry(e: &RoundEntry, pq: &Vec<u64>, pv: &Vec<u64>, cc: u64, k: usize, nbound: Ghost<nat>) -> (r:
    bool)
    requires
        pq@.len() == pv@.len(),
        pq@.len() <= e.leaves@.len(),
        cc >= 1,
        k >= 1,
        pow2(nbound@) == cc * k,
        forall|x: int| 0 <= x < pq@.len() ==> pq@[x] < pow2(nbound@),
        forall|x: int| 0 <= x < e.leaves@.len() ==> (#[trigger] e.leaves@[x])@.len() == k,
    ensures
        r == carry_ok(*e, pq@, pv@, cc as int),
{
    let mut j: usize = 0;
    while j < pq.len()
        invariant
            j <= pq@.len(),
            pq@.len() == pv@.len(),
            pq@.len() <= e.leaves@.len(),
            cc >= 1,
            k >= 1,
            pow2(nbound@) == cc * k,
            forall|x: int| 0 <= x < pq@.len() ==> pq@[x] < pow2(nbound@),
            forall|x: int| 0 <= x < e.leaves@.len() ==> (#[trigger] e.leaves@[x])@.len() == k,
            forall|x: int|
                0 <= x < j ==> (#[trigger] e.leaves@[x])@[pq@[x] as int / cc as int] == pv@[x],
        decreases pq@.len() - j,
    {
        proof {
            assert((pq@[j as int] as int / cc as int) < k) by (nonlinear_arith)
                requires
                    pq@[j as int] < pow2(nbound@),
                    pow2(nbound@) == cc * k,
                    cc >= 1,
                    k >= 1,
            ;
        }
        let off = (pq[j] / cc) as usize;
        if e.leaves[j][off] != pv[j] {
            return false;
        }
        j = j + 1;
    }
    true
}

fn compute_folds(e: &RoundEntry, positions: &Vec<u64>, w_i: u64, eta: u64, k: usize, r_i: u64) -> (folds:
    Vec<u64>)
    requires
        e.leaves@.len() == positions@.len(),
        w_i < P,
        eta < P,
        r_i < P,
        k >= 1,
        is_pow2(k as int),
        forall|x: int|
            0 <= x < e.leaves@.len() ==> (#[trigger] e.leaves@[x])@.len() == k && all_in_field(
                e.leaves@[x]@,
            ),
    ensures
        folds@ == folds_of(*e, positions@, w_i, eta, k as int, r_i),
        all_in_field(folds@),
        folds@.len() == positions@.len(),
{
    let mut folds: Vec<u64> = Vec::new();
    let mut j: usize = 0;
    while j < positions.len()
        invariant
            j <= positions@.len(),
            e.leaves@.len() == positions@.len(),
            w_i < P,
            eta < P,
            r_i < P,
            k >= 1,
            is_pow2(k as int),
            forall|x: int|
                0 <= x < e.leaves@.len() ==> (#[trigger] e.leaves@[x])@.len() == k && all_in_field(
                    e.leaves@[x]@,
                ),
            folds@.len() == j,
            forall|x: int|
                0 <= x < j ==> #[trigger] folds@[x] == fold_evals_spec(
                    e.leaves@[x]@,
                    coset_points_spec(pow64(w_i, positions@[x] as nat), eta, k as int),
                    r_i,
                ) && folds@[x] < P,
        decreases positions@.len() - j,
    {
        let x0 = f_pow(w_i, positions[j]);
        let pts = coset_points(x0, eta, k);
        let fv = fold_evals(&e.leaves[j], &pts, r_i);
        folds.push(fv);
        j = j + 1;
    }
    proof {
        assert(folds@ =~= folds_of(*e, positions@, w_i, eta, k as int, r_i));
    }
    folds
}

fn check_final(fc: &Vec<u64>, wfin: u64, positions: &Vec<u64>, folds: &Vec<u64>) -> (r: bool)
    requires
        all_in_field(fc@),
        wfin < P,
        folds@.len() == positions@.len(),
    ensures
        r == final_ok(fc@, wfin, positions@, folds@),
{
    let mut j: usize = 0;
    while j < positions.len()
        invariant
            j <= positions@.len(),
            all_in_field(fc@),
            wfin < P,
            folds@.len() == positions@.len(),
            forall|x: int|
                0 <= x < j ==> eval_poly(fc@, pow64(wfin, (#[trigger] positions@[x]) as nat))
                    == folds@[x],
        decreases positions@.len() - j,
    {
        let xq = f_pow(wfin, positions[j]);
        let v = eval_range(fc, 0, fc.len(), xq);
        proof {
            assert(fc@.subrange(0, fc@.len() as int) =~= fc@);
        }
        if v != folds[j] {
            return false;
        }
        j = j + 1;
    }
    true
}

fn decode_felts(msg: &Vec<u8>, flen: usize) -> (fc: Vec<u64>)
    requires
        msg@.len() == 8 * flen,
    ensures
        fc@ == decoded_u64s(msg@, 0, flen as int),
        fc@.len() == flen,
{
    let msg_n = msg.len();
    let mut fc: Vec<u64> = Vec::new();
    let mut tt: usize = 0;
    while tt < flen
        invariant
            tt <= flen,
            msg_n == msg@.len(),
            msg@.len() == 8 * flen,
            fc@.len() == tt,
            forall|x: int| 0 <= x < tt ==> #[trigger] fc@[x] as int == u64_from_le_at(msg@, 8 * x),
        decreases flen - tt,
    {
        fc.push(decode_u64_le(msg, 8 * tt));
        tt = tt + 1;
    }
    proof {
        assert(fc@ =~= decoded_u64s(msg@, 0, flen as int));
    }
    fc
}

/// Checks proofs against a parameter set.
pub struct Verifier {
    pub params: ParameterSet,
}

impl Verifier {
    pub fn new(params: &ParameterSet) -> (r: Verifier)
        requires
            params.wf(),
        ensures
            r.params == *params,
    {
        Verifier { params: *params }
    }

    /// Verifies one round and everything after it; the exact mirror of
    /// [`verify_rounds`].
    #[verifier::rlimit(100)]
    #[verifier::spinoff_prover]
    fn verify_from(
        &self,
        vs: &mut VerifierState,
        entries: &Vec<RoundEntry>,
        i: u64,
        root: Vec<u8>,
        pq: Vec<u64>,
        pv: Vec<u64>,
    ) -> (r: bool)
        requires
            self.params.wf(),
            0 <= i <= self.params.num_rounds - 2,
            entries@.len() == self.params.num_rounds - 1,
            pq@.len() == pv@.len(),
            forall|x: int|
                0 <= x < pq@.len() ==> pq@[x] < pow2(self.params.log_domain(i as int) as nat),
        ensures
            r == verify_rounds(
                self.params,
                entries@,
                old(vs).narg@,
                i as int,
                old(vs).fs@,
                old(vs).pos as int,
                root@,
                pq@,
                pv@,
            ),
            final(vs).narg@ == old(vs).narg@,
        decreases self.params.num_rounds - 2 - i,
    {
        let p = &self.params;
        proof {
            p.lemma_domain_bounds(i as int);
            p.lemma_coset_count_bound(i as int);
            p.lemma_final_exp();
        }
        let f = p.log_folding;
        let m_i: u64 = p.log_degree + p.log_inv_rate - i * f;
        proof {
            assert(m_i as int == p.log_domain(i as int)) by (nonlinear_arith)
                requires
                    m_i as int == p.log_degree + p.log_inv_rate - (i as int) * (f as int),
                    p.log_domain(i as int) == p.log_degree + p.log_inv_rate - (i as int) * (
                    f as int),
            ;
        }
        let r_i = vs.squeeze_felt();
        let last = i == p.num_rounds - 2;
        let fexp: u64 = p.log_degree - (p.num_rounds - 1) * f;
        proof {
            vstd::arithmetic::power2::lemma2_to64();
            vstd::arithmetic::power2::lemma_pow2_strictly_increases(fexp as nat, 28);
        }
        let flen = pow2_u64(fexp) as usize;
        proof {
            assert(flen == p.final_coeff_len());
        }
        let msg_len: usize = if last {
            8 * flen
        } else {
            32
        };
        let msg = match vs.read_message(msg_len) {
            Some(m) => m,
            None => {
                return false;
            },
        };
        let ghost pos2 = vs.pos as int;
        let ghost fs2 = vs.fs@;
        // re-derive the round's query positions
        proof {
            vstd::arithmetic::power2::lemma_pow2_strictly_increases((m_i - f) as nat, 32);
        }
        let cc = pow2_u64(m_i - f);
        proof {
            assert(cc as int == p.coset_count(i as int));
        }
        let qn: u64 = if p.num_queries <= cc {
            p.num_queries
        } else {
            cc
        };
        proof {
            assert(qn as int == p.queries_for_round_spec(i as int));
        }
        let mut positions: Vec<u64> = Vec::new();
        let mut d: usize = 0;
        while d < pq.len()
            invariant
                d <= pq@.len(),
                cc >= 1,
                positions@.len() == d,
                forall|x: int|
                    0 <= x < d ==> positions@[x] == (pq@[x] as int % cc as int) as u64
                        && positions@[x] < cc,
            decreases pq@.len() - d,
        {
            positions.push(pq[d] % cc);
            d = d + 1;
        }
        proof {
            assert(positions@ =~= pq@.map_values(|q: u64| (q as int % cc as int) as u64));
        }
        let ghost derived = positions@;
        let mut t: u64 = 0;
        while t < qn
            invariant
                t <= qn,
                cc >= 1,
                positions@.len() == derived.len() + t,
                forall|x: int| 0 <= x < positions@.len() ==> positions@[x] < cc,
                vs.narg@ == old(vs).narg@,
                vs.pos == pos2,
                derived + squeezed_indices(fs2, qn as int, cc) =~= positions@ + squeezed_indices(
                    vs.fs@,
                    qn as int - t,
                    cc,
                ),
                fs_after_squeezes(fs2, qn as int) == fs_after_squeezes(vs.fs@, qn as int - t),
            decreases qn - t,
        {
            let idx = vs.squeeze_index(cc);
            positions.push(idx);
            t = t + 1;
        }
        proof {
            assert(squeezed_indices(vs.fs@, 0, cc) =~= Seq::<u64>::empty());
            assert(positions@ =~= derived + squeezed_indices(fs2, qn as int, cc));
            assert(vs.fs@ == fs_after_squeezes(fs2, qn as int));
        }
        // proof of work
        let ch = vs.squeeze_challenge();
        let ghost pos_before_nonce = vs.pos as int;
        let nb = match vs.read_message(8) {
            Some(m) => m,
            None => {
                return false;
            },
        };
        let nonce = decode_u64_le(&nb, 0);
        proof {
            assert(nonce as int == u64_from_le_at(old(vs).narg@, pos_before_nonce)) by {
                assert(nb@ =~= old(vs).narg@.subrange(pos_before_nonce, pos_before_nonce + 8));
            }
        }
        if !check_pow(&ch, nonce, p.pow_bits) {
            return false;
        }
        // authentication paths and opened cosets
        proof {
            vstd::arithmetic::power2::lemma_pow2_strictly_increases(f as nat, 32);
        }
        let k = pow2_u64(f) as usize;
        proof {
            assert(k as int == p.coset_size());
            lemma_pow2_is_pow2(f as nat);
        }
        let e = &entries[i as usize];
        if e.leaves.len() != positions.len() || e.paths.len() != positions.len() {
            return false;
        }
        if !check_openings(&root, &positions, e, k) {
            return false;
        }
        proof {
            vstd::arithmetic::power2::lemma_pow2_adds((m_i - f) as nat, f as nat);
            assert(pow2(m_i as nat) == cc * k);
        }
        if !check_carry(e, &pq, &pv, cc, k, Ghost(m_i as nat)) {
            return false;
        }
        // recompute this round's folds
        let w_i = domain_gen(m_i);
        let eta = f_pow(w_i, cc);
        let folds = compute_folds(e, &positions, w_i, eta, k, r_i);
        if last {
            // the final polynomial: decode, range-check, evaluate at the
            // derived points, and demand the message string be spent
            let fc = decode_felts(&msg, flen);
            proof {
                assert(fc@ =~= decoded_u64s(old(vs).narg@, pos2 - msg_len, flen as int)) by {
                    assert(msg@ =~= old(vs).narg@.subrange(pos2 - msg_len, pos2));
                }
            }
            if !all_in_field_exec(&fc) {
                return false;
            }
            let wfin = domain_gen(m_i - f);
            if !check_final(&fc, wfin, &positions, &folds) {
                return false;
            }
            if !vs.fully_read() {
                return false;
            }
            true
        } else {
            proof {
                assert(pow2(p.log_domain(i as int + 1) as nat) == cc) by (nonlinear_arith)
                    requires
                        cc == pow2((m_i - f) as nat),
                        m_i as int == p.log_domain(i as int),
                        p.log_domain(i as int + 1) == p.log_degree + p.log_inv_rate - (i as int
                            + 1) * (f as int),
                        p.log_domain(i as int) == p.log_degree + p.log_inv_rate - (i as int) * (
                        f as int),
                ;
            }
            let sub = self.verify_from(vs, entries, i + 1, msg, positions, folds);
            sub
        }
    }

    /// Checks a proof exchange: the received message string and the
    /// proof object, under the agreed label. Accepts exactly when
    /// [`spec_verify`] holds; rejection is opaque. The outcome is a
    /// function of the arguments alone, so verification is
    /// deterministic.
    pub fn verify(&self, label: &Vec<u8>, narg: &Vec<u8>, pf: &StirProof) -> (r: Result<
        (),
        VerifyError,
    >)
        requires
            self.params.wf(),
        ensures
            r is Ok <==> spec_verify(self.params, label@, narg@, pf),
    {
        let rounds = self.params.num_rounds;
        if pf.merkle_proofs.len() as u64 != rounds - 1 {
            return Err(VerifyError);
        }
        let seed = make_seed(label, &self.params);
        let narg_copy = crate::merkle::clone_bytes(narg);
        let mut vs = VerifierState::new(&seed, narg_copy);
        let root0 = match vs.read_message(32) {
            Some(m) => m,
            None => {
                return Err(VerifyError);
            },
        };
        let pq: Vec<u64> = Vec::new();
        let pv: Vec<u64> = Vec::new();
        proof {
            assert(pq@ =~= Seq::<u64>::empty());
            assert(pv@ =~= Seq::<u64>::empty());
        }
        let ok = self.verify_from(&mut vs, &pf.merkle_proofs, 0, root0, pq, pv);
        if ok {
            Ok(())
        } else {
            Err(VerifyError)
        }
    }
}

} // verus!
