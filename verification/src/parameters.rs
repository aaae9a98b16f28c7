//! Parameter derivation. From a target security level, a soundness
//! regime, a folding-factor policy, a starting rate and a degree bound,
//! this resolves every per-round quantity the protocol needs: number of
//! rounds, per-round query counts and proof-of-work bits, domain sizes.
//! The derivation is exact: its result equals a spec-level function of
//! the inputs, and it fails precisely on the inputs the contract names.
//!
//! Query counts come from the regime's soundness bound, measured in
//! thousandths of a bit of soundness per query. With rate `2^-l`, a
//! query contributes `l` bits under conjectured list decoding, `l/2`
//! bits under proven list decoding, and `-log2((1 + 2^-l)/2)` bits under
//! unique decoding, which is bounded below by `1 - 1.5 * 2^-l` bits.
//! Proof-of-work bits are subtracted from the per-round target before
//! dividing, so grinding and queries trade off round by round.

use vstd::prelude::*;
use vstd::arithmetic::power2::pow2;
use crate::codec::{u64s_le_bytes, encode_u64s_le, extend_bytes};
use crate::poly_utils::pow2_u64;

verus! {

/// The decoding-radius assumption used to compute query counts.
#[derive(Clone, Copy, Debug, PartialEq, Eq, Structural)]
pub enum SoundnessType {
    UniqueDecoding,
    ProvableList,
    ConjectureList,
}

/// The prover-side folding strategy; both strategies compute the same
/// fold.
#[derive(Clone, Copy, Debug, PartialEq, Eq, Structural)]
pub enum FoldType {
    Naive,
    ProverHelps,
}

/// The folding-factor policy: the log of the coset size per round.
#[derive(Clone, Copy, Debug, PartialEq, Eq, Structural)]
pub enum FoldingFactor {
    Constant(u64),
}

/// Why parameter derivation rejected its inputs.
#[derive(Clone, Copy, Debug, PartialEq, Eq, Structural)]
pub enum ConfigError {
    /// The folding factor is zero or too large to be useful.
    UnsupportedFoldingFactor,
    /// The security level is zero or above what grinding can support.
    SecurityOutOfRange,
    /// The starting rate must blow the domain up by at least a factor
    /// of two.
    RateTooSmall,
    /// Degree and folding factor leave no room for even one committed
    /// round.
    TooFewRounds,
    /// The initial evaluation domain would not fit in memory.
    DomainTooLarge,
    /// More grinding than a round's target soundness can absorb.
    PowTooLarge,
}

/// A fully resolved parameter set.
#[derive(Clone, Copy, Debug, PartialEq, Eq, Structural)]
pub struct ParameterSet {
    pub security_level: u64,
    pub soundness_type: SoundnessType,
    pub fold_type: FoldType,
    /// Log of the coset size: each fold divides the degree by `2^this`.
    pub log_folding: u64,
    /// Log of the inverse rate: the initial domain is `2^this` times the
    /// degree bound.
    pub log_inv_rate: u64,
    /// Log of the degree bound.
    pub log_degree: u64,
    /// Total rounds: one commitment round plus `num_rounds - 1`
    /// fold-and-query transitions.
    pub num_rounds: u64,
    /// Grinding difficulty per transition.
    pub pow_bits: u64,
    /// Fresh query indices squeezed per transition, before the per-round
    /// cap at the round's coset count.
    pub num_queries: u64,
}

/// Thousandths of a bit of soundness that one query contributes under a
/// regime, at rate `2^-ell`.
pub open spec fn query_millibits(st: SoundnessType, ell: u64) -> int {
    match st {
        SoundnessType::ConjectureList => 1000 * ell,
        SoundnessType::ProvableList => 500 * ell,
        SoundnessType::UniqueDecoding => 1000 - ((1500 + pow2(ell as nat) - 1) / pow2(
            ell as nat,
        ) as int),
    }
}

/// The fresh query count per transition: the per-round soundness target
/// that grinding does not cover, divided by the per-query contribution,
/// rounded up.
pub open spec fn derived_queries(security: u64, pow_bits: u64, st: SoundnessType, ell: u64) -> int {
    let eff: int = if security > pow_bits {
        security - pow_bits
    } else {
        1
    };
    let e = query_millibits(st, ell);
    (eff * 1000 + e - 1) / e
}

/// Whether derivation accepts these inputs.
pub open spec fn inputs_ok(
    security: u64,
    folding: u64,
    ell: u64,
    log_degree: u64,
    pow_bits: u64,
) -> bool {
    &&& 1 <= folding <= 10
    &&& 1 <= security <= 256
    &&& ell >= 1
    &&& log_degree as int + ell as int <= 28
    &&& pow_bits <= 32
    &&& log_degree as int / folding as int >= 2
}

/// The parameter set that accepted inputs resolve to.
pub open spec fn derived_params(
    security: u64,
    st: SoundnessType,
    ft: FoldType,
    folding: u64,
    ell: u64,
    log_degree: u64,
    pow_bits: u64,
) -> ParameterSet {
    ParameterSet {
        security_level: security,
        soundness_type: st,
        fold_type: ft,
        log_folding: folding,
        log_inv_rate: ell,
        log_degree,
        num_rounds: (log_degree as int / folding as int) as u64,
        pow_bits,
        num_queries: derived_queries(security, pow_bits, st, ell) as u64,
    }
}

impl ParameterSet {
    /// The invariant every resolved parameter set satisfies.
    pub open spec fn wf(&self) -> bool {
        &&& 1 <= self.log_folding <= 10
        &&& 1 <= self.security_level <= 256
        &&& self.log_inv_rate >= 1
        &&& self.log_degree as int + self.log_inv_rate as int <= 28
        &&& self.pow_bits <= 32
        &&& self.num_rounds == self.log_degree as int / self.log_folding as int
        &&& self.num_rounds >= 2
        &&& 1 <= self.num_queries <= 256000
    }

    /// Log of round `i`'s evaluation domain size.
    pub open spec fn log_domain(&self, i: int) -> int {
        self.log_degree + self.log_inv_rate - i * self.log_folding
    }

    /// Round `i`'s folding-coset count: the leaf count of its tree.
    pub open spec fn coset_count(&self, i: int) -> int {
        pow2((self.log_domain(i) - self.log_folding) as nat) as int
    }

    /// The coset size every fold consumes.
    pub open spec fn coset_size(&self) -> int {
        pow2(self.log_folding as nat) as int
    }

    /// How many coefficients the final, in-the-clear polynomial has.
    pub open spec fn final_coeff_len(&self) -> int {
        pow2((self.log_degree - (self.num_rounds - 1) * self.log_folding) as nat) as int
    }

    /// Fresh queries squeezed in transition `i`, capped at the round's
    /// coset count.
    pub open spec fn queries_for_round_spec(&self, i: int) -> int {
        if self.num_queries <= self.coset_count(i) {
            self.num_queries as int
        } else {
            self.coset_count(i)
        }
    }

    /// Domain exponents stay in machine range across all rounds.
    pub proof fn lemma_domain_bounds(&self, i: int)
        requires
            self.wf(),
            0 <= i <= self.num_rounds - 2,
        ensures
            self.log_folding + 1 <= self.log_domain(i) <= 28,
            self.log_domain(i) - self.log_folding >= 1,
    {
        let f = self.log_folding as int;
        let d = self.log_degree as int;
        let r = self.num_rounds as int;
        assert(r * f <= d) by (nonlinear_arith)
            requires
                r == d / f,
                1 <= f,
                0 <= d,
        ;
        assert(i * f <= (r - 2) * f) by (nonlinear_arith)
            requires
                i <= r - 2,
                f >= 1,
        ;
        assert((r - 2) * f == r * f - 2 * f) by (nonlinear_arith);
    }

    /// The final polynomial's log-length: at least one coefficient, and
    /// small enough for every buffer.
    pub proof fn lemma_final_exp(&self)
        requires
            self.wf(),
        ensures
            (self.num_rounds - 1) * self.log_folding <= self.log_degree,
            1 <= self.log_degree - (self.num_rounds - 1) * self.log_folding <= 19,
    {
        let f = self.log_folding as int;
        let d = self.log_degree as int;
        let r = self.num_rounds as int;
        vstd::arithmetic::div_mod::lemma_fundamental_div_mod(d, f);
        assert(d == f * (d / f) + d % f);
        assert((r - 1) * f == r * f - f) by (nonlinear_arith);
        assert(r * f == f * r) by (nonlinear_arith);
        assert(0 <= d % f < f);
    }

    /// Coset counts stay within machine range across all rounds.
    pub proof fn lemma_coset_count_bound(&self, i: int)
        requires
            self.wf(),
            0 <= i <= self.num_rounds - 2,
        ensures
            1 <= self.coset_count(i) < 268435456,
    {
        self.lemma_domain_bounds(i);
        let e = (self.log_domain(i) - self.log_folding) as nat;
        vstd::arithmetic::power2::lemma_pow2_pos(e);
        vstd::arithmetic::power2::lemma_pow2_strictly_increases(e, 28);
        vstd::arithmetic::power2::lemma2_to64();
    }
}

fn query_millibits_exec(st: SoundnessType, ell: u64) -> (r: u64)
    requires
        1 <= ell <= 27,
    ensures
        r as int == query_millibits(st, ell),
        250 <= r <= 27000,
{
    match st {
        SoundnessType::ConjectureList => 1000 * ell,
        SoundnessType::ProvableList => 500 * ell,
        SoundnessType::UniqueDecoding => {
            let p = pow2_u64(ell);
            proof {
                vstd::arithmetic::power2::lemma_pow2_adds(1, (ell - 1) as nat);
                vstd::arithmetic::power2::lemma_pow2_pos((ell - 1) as nat);
                vstd::arithmetic::power2::lemma2_to64();
                assert(pow2(ell as nat) >= 2);
                assert((1500 + pow2(ell as nat) - 1) / pow2(ell as nat) as int <= 750) by (
                nonlinear_arith)
                    requires
                        pow2(ell as nat) >= 2,
                ;
                assert((1500 + pow2(ell as nat) - 1) / pow2(ell as nat) as int >= 1) by (
                nonlinear_arith)
                    requires
                        pow2(ell as nat) >= 2,
                ;
            }
            1000 - (1500 + p - 1) / p
        },
    }
}

/// Resolves a parameter set, or says exactly why the inputs cannot meet
/// the requested security level. Accepts iff the folding factor is
/// between one and ten, the security level is between one and 256 bits,
/// the rate blows the domain up at least twofold, the initial domain
/// fits in `2^28` points, grinding stays within 32 bits, and degree and
/// folding leave at least one committed round before the final
/// polynomial.
pub fn derive_parameters(
    security_level: u64,
    soundness_type: SoundnessType,
    fold_type: FoldType,
    folding_factor: FoldingFactor,
    log_inv_rate: u64,
    log_degree: u64,
    pow_bits: u64,
) -> (r: Result<ParameterSet, ConfigError>)
    ensures
        ({
            let folding = folding_factor->0;
            &&& r is Ok <==> inputs_ok(security_level, folding, log_inv_rate, log_degree, pow_bits)
            &&& r is Ok ==> r->Ok_0 == derived_params(
                security_level,
                soundness_type,
                fold_type,
                folding,
                log_inv_rate,
                log_degree,
                pow_bits,
            ) && r->Ok_0.wf()
            &&& !(1 <= folding <= 10) ==> r == Result::<ParameterSet, ConfigError>::Err(
                ConfigError::UnsupportedFoldingFactor,
            )
            &&& 1 <= folding <= 10 && !(1 <= security_level <= 256) ==> r == Result::<
                ParameterSet,
                ConfigError,
            >::Err(ConfigError::SecurityOutOfRange)
            &&& 1 <= folding <= 10 && 1 <= security_level <= 256 && log_inv_rate < 1 ==> r
                == Result::<ParameterSet, ConfigError>::Err(ConfigError::RateTooSmall)
            &&& 1 <= folding <= 10 && 1 <= security_level <= 256 && log_inv_rate >= 1
                && log_degree as int + log_inv_rate as int > 28 ==> r == Result::<
                ParameterSet,
                ConfigError,
            >::Err(ConfigError::DomainTooLarge)
            &&& 1 <= folding <= 10 && 1 <= security_level <= 256 && log_inv_rate >= 1
                && log_degree as int + log_inv_rate as int <= 28 && pow_bits > 32 ==> r == Result::<
                ParameterSet,
                ConfigError,
            >::Err(ConfigError::PowTooLarge)
            &&& 1 <= folding <= 10 && 1 <= security_level <= 256 && log_inv_rate >= 1
                && log_degree as int + log_inv_rate as int <= 28 && pow_bits <= 32 && (
            log_degree as int / folding as int) < 2 ==> r == Result::<
                ParameterSet,
                ConfigError,
            >::Err(ConfigError::TooFewRounds)
        }),
{
    let FoldingFactor::Constant(folding) = folding_factor;
    if folding < 1 || folding > 10 {
        return Err(ConfigError::UnsupportedFoldingFactor);
    }
    if security_level < 1 || security_level > 256 {
        return Err(ConfigError::SecurityOutOfRange);
    }
    if log_inv_rate < 1 {
        return Err(ConfigError::RateTooSmall);
    }
    if log_degree > 28 || log_inv_rate > 28 || log_degree + log_inv_rate > 28 {
        return Err(ConfigError::DomainTooLarge);
    }
    if pow_bits > 32 {
        return Err(ConfigError::PowTooLarge);
    }
    let num_rounds = log_degree / folding;
    if num_rounds < 2 {
        return Err(ConfigError::TooFewRounds);
    }
    let eff: u64 = if security_level > pow_bits {
        security_level - pow_bits
    } else {
        1
    };
    let e = query_millibits_exec(soundness_type, log_inv_rate);
    let num_queries = (eff * 1000 + e - 1) / e;
    proof {
        let ghost ei = e as int;
        let ghost effi = eff as int;
        assert(1 <= (effi * 1000 + ei - 1) / ei <= effi * 1000) by (nonlinear_arith)
            requires
                250 <= ei <= 27000,
                1 <= effi <= 256,
        ;
    }
    Ok(
        ParameterSet {
            security_level,
            soundness_type,
            fold_type,
            log_folding: folding,
            log_inv_rate,
            log_degree,
            num_rounds,
            pow_bits,
            num_queries,
        },
    )
}

/// The byte encoding of a parameter set, absorbed into both parties'
/// transcripts before any round.
pub open spec fn params_encoding(p: ParameterSet) -> Seq<u8> {
    u64s_le_bytes(
        seq![
            p.security_level,
            match p.soundness_type {
                SoundnessType::UniqueDecoding => 0u64,
                SoundnessType::ProvableList => 1u64,
                SoundnessType::ConjectureList => 2u64,
            },
            match p.fold_type {
                FoldType::Naive => 0u64,
                FoldType::ProverHelps => 1u64,
            },
            p.log_folding,
            p.log_inv_rate,
            p.log_degree,
            p.num_rounds,
            p.pow_bits,
            p.num_queries,
        ],
    )
}

/// The transcript seed: a domain-separation label followed by the
/// encoded parameters.
pub open spec fn seed_spec(label: Seq<u8>, p: ParameterSet) -> Seq<u8> {
    label + params_encoding(p)
}

/// Builds the transcript seed for a label and a parameter set.
pub fn make_seed(label: &Vec<u8>, p: &ParameterSet) -> (r: Vec<u8>)
    ensures
        r@ == seed_spec(label@, *p),
{
    let mut vals: Vec<u64> = Vec::new();
    vals.push(p.security_level);
    vals.push(
        match p.soundness_type {
            SoundnessType::UniqueDecoding => 0u64,
            SoundnessType::ProvableList => 1u64,
            SoundnessType::ConjectureList => 2u64,
        },
    );
    vals.push(
        match p.fold_type {
            FoldType::Naive => 0u64,
            FoldType::ProverHelps => 1u64,
        },
    );
    vals.push(p.log_folding);
    vals.push(p.log_inv_rate);
    vals.push(p.log_degree);
    vals.push(p.num_rounds);
    vals.push(p.pow_bits);
    vals.push(p.num_queries);
    let mut out: Vec<u8> = Vec::new();
    extend_bytes(&mut out, label);
    proof {
        assert(vals@ =~= seq![
            p.security_level,
            match p.soundness_type {
                SoundnessType::UniqueDecoding => 0u64,
                SoundnessType::ProvableList => 1u64,
                SoundnessType::ConjectureList => 2u64,
            },
            match p.fold_type {
                FoldType::Naive => 0u64,
                FoldType::ProverHelps => 1u64,
            },
            p.log_folding,
            p.log_inv_rate,
            p.log_degree,
            p.num_rounds,
            p.pow_bits,
            p.num_queries,
        ]);
    }
    encode_u64s_le(&vals, &mut out);
    out
}

} // verus!
