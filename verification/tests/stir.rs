//! End-to-end and unit tests for the STIR low-degree test: full
//! prove/verify pipelines across every soundness regime and fold
//! strategy, negative tests for oversized polynomials and tampered
//! proofs, determinism of verification, the round-count law, exact
//! parameter-derivation values, and the field, FFT, Merkle and codec
//! building blocks.

use stir_ldt::checker::Verifier;
use stir_ldt::codec::{decode_u64_le, encode_u64_le};
use stir_ldt::committer::{domain_gen, CommitmentWriter};
use stir_ldt::field::{f_add, f_inv, f_mul, f_pow, OMEGA_32, P};
use stir_ldt::merkle::{bytes_eq, commit, open_path, path_check};
use stir_ldt::parameters::{
    derive_parameters, make_seed, ConfigError, FoldType, FoldingFactor, ParameterSet,
    SoundnessType,
};
use stir_ldt::poly_utils::{eval_range, fft, fold_coeffs};
use stir_ldt::prover::Prover;
use stir_ldt::stir_proof::{stir_proof_size, StirProof};
use stir_ldt::transcript::{check_pow, grind, ProverState};

fn params_for(
    folding_factor: u64,
    log_degree: u64,
    fold_type: FoldType,
    soundness_type: SoundnessType,
    pow_bits: u64,
) -> ParameterSet {
    derive_parameters(
        32,
        soundness_type,
        fold_type,
        FoldingFactor::Constant(folding_factor),
        1,
        log_degree,
        pow_bits,
    )
    .unwrap()
}

/// Runs commit, prove and verify on the given polynomial and returns
/// the parameter set, label, transcript string and proof object.
fn run_pipeline(
    params: ParameterSet,
    label: &[u8],
    coeffs: Vec<u64>,
) -> (Vec<u8>, Vec<u8>, StirProof) {
    let label = label.to_vec();
    let seed = make_seed(&label, &params);
    let mut ps = ProverState::new(&seed);
    let committer = CommitmentWriter::new(params);
    let witness = committer.commit(&mut ps, coeffs);
    let prover = Prover::new(params);
    let proof = prover.prove(&mut ps, witness).unwrap();
    let narg = ps.narg_string().clone();
    (label, narg, proof)
}

fn make_stir_things(
    folding_factor: u64,
    log_degree: u64,
    fold_type: FoldType,
    soundness_type: SoundnessType,
    pow_bits: u64,
) {
    let params = params_for(folding_factor, log_degree, fold_type, soundness_type, pow_bits);
    let num_coeffs = 1usize << log_degree;
    let polynomial = vec![1u64; num_coeffs];
    let (label, narg, proof) = run_pipeline(params, b"stir-ldt-test", polynomial);
    let verifier = Verifier::new(&params);
    assert!(verifier.verify(&label, &narg, &proof).is_ok());
}

#[test]
fn scenario_provable_list_pow5() {
    // degree bound 2^16, folding factor 4, proven list decoding,
    // five bits of grinding, all-ones polynomial: must accept
    make_stir_things(4, 16, FoldType::Naive, SoundnessType::ProvableList, 5);
}

#[test]
fn scenario_unique_decoding_pow0() {
    // folding factor 5, unique decoding, no grinding: must also accept
    make_stir_things(5, 16, FoldType::ProverHelps, SoundnessType::UniqueDecoding, 0);
}

fn large_matrix(folding: u64, st: SoundnessType) {
    // the degree-16 matrix: both fold strategies at every grinding level
    for &ft in &[FoldType::Naive, FoldType::ProverHelps] {
        for &pow_bits in &[0u64, 5, 10] {
            make_stir_things(folding, 16, ft, st, pow_bits);
        }
    }
}

#[test]
fn large_instance_fold4_unique_decoding() {
    large_matrix(4, SoundnessType::UniqueDecoding);
}

#[test]
fn large_instance_fold4_provable_list() {
    large_matrix(4, SoundnessType::ProvableList);
}

#[test]
fn large_instance_fold4_conjecture_list() {
    large_matrix(4, SoundnessType::ConjectureList);
}

#[test]
fn large_instance_fold5_unique_decoding() {
    large_matrix(5, SoundnessType::UniqueDecoding);
}

#[test]
fn large_instance_fold5_provable_list() {
    large_matrix(5, SoundnessType::ProvableList);
}

#[test]
fn large_instance_fold5_conjecture_list() {
    large_matrix(5, SoundnessType::ConjectureList);
}

#[test]
fn completeness_all_regimes_and_fold_types() {
    for &folding in &[4u64, 5] {
        for &st in &[
            SoundnessType::UniqueDecoding,
            SoundnessType::ProvableList,
            SoundnessType::ConjectureList,
        ] {
            for &ft in &[FoldType::Naive, FoldType::ProverHelps] {
                make_stir_things(folding, 11, ft, st, 2);
            }
        }
    }
}

#[test]
fn completeness_nonconstant_polynomial() {
    let params = params_for(4, 10, FoldType::Naive, SoundnessType::ConjectureList, 3);
    let coeffs: Vec<u64> = (0..1024u64).map(|i| (i * i + 7) % P).collect();
    let (label, narg, proof) = run_pipeline(params, b"stir-nonconstant", coeffs);
    let verifier = Verifier::new(&params);
    assert!(verifier.verify(&label, &narg, &proof).is_ok());
}

#[test]
fn soundness_degree_too_high_rejects() {
    // a polynomial one whole folding step past the bound is rejected,
    // over several independent transcripts
    let params = params_for(4, 8, FoldType::Naive, SoundnessType::ProvableList, 0);
    let verifier = Verifier::new(&params);
    for trial in 0u8..5 {
        let coeffs = vec![1u64; 1 << 12];
        let label = [b"stir-soundness-".as_slice(), &[trial]].concat();
        let (label, narg, proof) = run_pipeline(params, &label, coeffs);
        assert!(verifier.verify(&label, &narg, &proof).is_err());
    }
}

#[test]
fn tamper_leaf_value_rejects() {
    let params = params_for(4, 8, FoldType::Naive, SoundnessType::ProvableList, 5);
    let coeffs = vec![1u64; 256];
    let (label, narg, mut proof) = run_pipeline(params, b"stir-tamper-leaf", coeffs);
    let verifier = Verifier::new(&params);
    assert!(verifier.verify(&label, &narg, &proof).is_ok());
    proof.merkle_proofs[0].leaves[0][0] ^= 1;
    assert!(verifier.verify(&label, &narg, &proof).is_err());
}

#[test]
fn tamper_path_node_rejects() {
    let params = params_for(4, 8, FoldType::Naive, SoundnessType::ProvableList, 5);
    let coeffs = vec![1u64; 256];
    let (label, narg, mut proof) = run_pipeline(params, b"stir-tamper-path", coeffs);
    let verifier = Verifier::new(&params);
    assert!(verifier.verify(&label, &narg, &proof).is_ok());
    proof.merkle_proofs[0].paths[0][0][0] ^= 1;
    assert!(verifier.verify(&label, &narg, &proof).is_err());
}

#[test]
fn tamper_pow_nonce_rejects() {
    let params = params_for(4, 8, FoldType::Naive, SoundnessType::ProvableList, 8);
    let coeffs = vec![1u64; 256];
    let (label, narg, proof) = run_pipeline(params, b"stir-tamper-nonce", coeffs);
    let verifier = Verifier::new(&params);
    assert!(verifier.verify(&label, &narg, &proof).is_ok());
    // the last eight transcript bytes are the final round's nonce
    let mut bad = narg.clone();
    let n = bad.len();
    bad[n - 1] ^= 1;
    assert!(verifier.verify(&label, &bad, &proof).is_err());
}

#[test]
fn verification_is_deterministic() {
    let params = params_for(4, 8, FoldType::ProverHelps, SoundnessType::ConjectureList, 2);
    let coeffs = vec![3u64; 256];
    let (label, narg, mut proof) = run_pipeline(params, b"stir-deterministic", coeffs);
    let verifier = Verifier::new(&params);
    let first = verifier.verify(&label, &narg, &proof).is_ok();
    let second = verifier.verify(&label, &narg, &proof).is_ok();
    assert_eq!(first, second);
    assert!(first);
    proof.merkle_proofs[0].leaves[0][0] ^= 1;
    let third = verifier.verify(&label, &narg, &proof).is_ok();
    let fourth = verifier.verify(&label, &narg, &proof).is_ok();
    assert_eq!(third, fourth);
    assert!(!third);
}

#[test]
fn round_count_law() {
    // the proof always holds one entry per round except the last
    for &(folding, log_degree) in &[(4u64, 8u64), (4, 12), (5, 10), (3, 9), (2, 6), (1, 2)] {
        let params = params_for(
            folding,
            log_degree,
            FoldType::Naive,
            SoundnessType::ConjectureList,
            0,
        );
        assert_eq!(params.num_rounds, log_degree / folding);
        let coeffs = vec![1u64; 1 << log_degree];
        let (_, _, proof) = run_pipeline(params, b"stir-round-count", coeffs);
        assert_eq!(proof.merkle_proofs.len() as u64, params.num_rounds - 1);
    }
}

#[test]
fn parameter_derivation_exact_values() {
    let p = params_for(4, 16, FoldType::Naive, SoundnessType::ProvableList, 5);
    // 27 effective bits at 500 millibits per query
    assert_eq!(p.num_queries, 54);
    assert_eq!(p.num_rounds, 4);
    let p = params_for(5, 16, FoldType::Naive, SoundnessType::UniqueDecoding, 0);
    // 32 bits at 250 millibits per query
    assert_eq!(p.num_queries, 128);
    assert_eq!(p.num_rounds, 3);
    let p = derive_parameters(
        32,
        SoundnessType::ConjectureList,
        FoldType::Naive,
        FoldingFactor::Constant(4),
        2,
        16,
        0,
    )
    .unwrap();
    // 32 bits at 2000 millibits per query
    assert_eq!(p.num_queries, 16);
}

#[test]
fn parameter_derivation_errors() {
    let d = |sec, f, ell, deg, pow| {
        derive_parameters(
            sec,
            SoundnessType::ProvableList,
            FoldType::Naive,
            FoldingFactor::Constant(f),
            ell,
            deg,
            pow,
        )
    };
    assert_eq!(d(32, 0, 1, 16, 0).unwrap_err(), ConfigError::UnsupportedFoldingFactor);
    assert_eq!(d(32, 11, 1, 16, 0).unwrap_err(), ConfigError::UnsupportedFoldingFactor);
    assert_eq!(d(0, 4, 1, 16, 0).unwrap_err(), ConfigError::SecurityOutOfRange);
    assert_eq!(d(32, 4, 0, 16, 0).unwrap_err(), ConfigError::RateTooSmall);
    assert_eq!(d(32, 4, 1, 28, 0).unwrap_err(), ConfigError::DomainTooLarge);
    assert_eq!(d(32, 4, 1, 16, 33).unwrap_err(), ConfigError::PowTooLarge);
    assert_eq!(d(32, 4, 1, 7, 0).unwrap_err(), ConfigError::TooFewRounds);
    assert!(d(32, 4, 1, 8, 0).is_ok());
}

#[test]
fn field_arithmetic_exact() {
    assert_eq!(f_add(P - 1, 1), 0);
    assert_eq!(f_mul(1 << 32, 1 << 32), (1 << 32) - 1);
    assert_eq!(f_pow(3, 4), 81);
    assert_eq!(f_mul(f_inv(5), 5), 1);
    // the domain generator has multiplicative order exactly 2^32
    let half = f_pow(OMEGA_32, 1 << 31);
    assert_ne!(half, 1);
    assert_eq!(f_mul(half, half), 1);
}

#[test]
fn fft_matches_direct_evaluation() {
    let coeffs = vec![1u64, 2, 3, 4, 5, 6, 7, 8];
    let w = domain_gen(3);
    let evals = fft(&coeffs, w);
    for p in 0..8u64 {
        let x = f_pow(w, p);
        assert_eq!(evals[p as usize], eval_range(&coeffs, 0, 8, x));
    }
}

#[test]
fn fold_strategies_agree() {
    // the naive and precomputed folding strategies give the same fold
    let coeffs: Vec<u64> = (1..=64u64).collect();
    let naive = fold_coeffs(&coeffs, 12345, 16, false);
    let helped = fold_coeffs(&coeffs, 12345, 16, true);
    assert_eq!(naive, helped);
    assert_eq!(naive.len(), 4);
    // folding a constant block by any challenge sums its powers once
    let ones = vec![1u64, 1];
    let folded = fold_coeffs(&ones, 7, 2, false);
    assert_eq!(folded, vec![8u64]);
}

#[test]
fn merkle_commit_open_check() {
    let leaves = vec![vec![1u64, 2], vec![3, 4], vec![5, 6], vec![7, 8]];
    let tree = commit(&leaves);
    let root = tree.root();
    // the digest layer really hashes: fixed 32-byte output, not an echo
    // of its input
    assert_eq!(root.len(), 32);
    for idx in 0..4usize {
        let path = open_path(&tree, idx);
        assert!(path_check(&root, idx as u64, &leaves[idx], &path));
        // a wrong leaf or wrong index must not authenticate
        assert!(!path_check(&root, idx as u64, &vec![9u64, 9], &path));
        assert!(!path_check(&root, (idx as u64 + 1) % 4, &leaves[idx], &path));
    }
    // the hash layer reacts to its input: different leaves, different root
    let other = commit(&vec![vec![1u64, 2], vec![3, 4], vec![5, 6], vec![7, 9]]);
    assert!(!bytes_eq(&other.root(), &root));
}

#[test]
fn proof_of_work_grind_and_check() {
    let challenge = vec![7u8; 32];
    let nonce = grind(&challenge, 10).unwrap();
    assert!(check_pow(&challenge, nonce, 10));
    assert!(check_pow(&challenge, 12345, 0));
}

#[test]
fn codec_roundtrip() {
    let mut buf: Vec<u8> = Vec::new();
    encode_u64_le(0x0123456789abcdef, &mut buf);
    assert_eq!(buf, vec![0xef, 0xcd, 0xab, 0x89, 0x67, 0x45, 0x23, 0x01]);
    assert_eq!(decode_u64_le(&buf, 0), 0x0123456789abcdef);
}

#[test]
fn proof_size_accounts_transcript_and_entries() {
    let transcript = vec![0u8; 100];
    let empty = StirProof {
        merkle_proofs: Vec::new(),
    };
    assert_eq!(stir_proof_size(&transcript, &empty), 108);
    let params = params_for(4, 8, FoldType::Naive, SoundnessType::ConjectureList, 0);
    let coeffs = vec![1u64; 256];
    let (_, narg, proof) = run_pipeline(params, b"stir-size", coeffs);
    let mut expected = narg.len() + 8;
    for e in &proof.merkle_proofs {
        expected += 16;
        for p in &e.paths {
            expected += 8 + 32 * p.len();
        }
        for l in &e.leaves {
            expected += 8 + 8 * l.len();
        }
    }
    assert_eq!(stir_proof_size(&narg, &proof), expected);
}

#[test]
fn wrong_label_rejects() {
    // both parties must seed the transcript identically
    let params = params_for(4, 8, FoldType::Naive, SoundnessType::ConjectureList, 0);
    let coeffs = vec![1u64; 256];
    let (_, narg, proof) = run_pipeline(params, b"stir-label-a", coeffs);
    let verifier = Verifier::new(&params);
    assert!(verifier.verify(&b"stir-label-b".to_vec(), &narg, &proof).is_err());
}
