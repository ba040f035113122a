use sum_check::field::{sum_fe_vec, Fe, FIELD_MODULUS};
use sum_check::univariate::UnivariatePoly;
use sum_check::multilinear::MultilinearPoly;
use sum_check::sum_check_protocol::{gkr_prove, gkr_verify, prove, verify, Proof};
use sum_check::transcript::Transcript;

fn fe(x: u64) -> Fe {
    Fe::new(x)
}

fn poly_abc() -> MultilinearPoly {
    MultilinearPoly::new(vec![
        fe(0),
        fe(0),
        fe(0),
        fe(2),
        fe(0),
        fe(10),
        fe(0),
        fe(17),
    ])
}

#[test]
fn test_valid_proving_and_verification() {
    let initial_polynomial = poly_abc();

    let proof = prove(&initial_polynomial);

    let is_verified = verify(&initial_polynomial, proof);

    assert_eq!(is_verified, true);
}

#[test]
fn test_invalid_proof_doesnt_verify() {
    let initial_polynomial = MultilinearPoly::new(vec![fe(0), fe(3), fe(2), fe(5)]);

    let false_proof = Proof {
        claimed_sum: fe(20),
        proof_polynomials: vec![vec![fe(3), fe(9)], vec![fe(1), fe(2)]],
    };

    let is_verified = verify(&initial_polynomial, false_proof);

    assert_eq!(is_verified, false);
}

#[test]
fn test_claimed_sum_is_true_sum() {
    let proof = prove(&poly_abc());
    assert_eq!(proof.claimed_sum, fe(29));
}

#[test]
fn test_round_count_matches_variable_count() {
    let proof = prove(&poly_abc());
    assert_eq!(proof.proof_polynomials.len(), 3);
}

#[test]
fn test_first_round_pair_sums_to_claimed() {
    let proof = prove(&poly_abc());
    let pair = &proof.proof_polynomials[0];
    assert_eq!(pair.len(), 2);
    assert_eq!(pair[0].add(pair[1]), proof.claimed_sum);
}

#[test]
fn test_prover_is_deterministic() {
    let p1 = prove(&poly_abc());
    let p2 = prove(&poly_abc());
    assert_eq!(p1.claimed_sum, p2.claimed_sum);
    assert_eq!(p1.proof_polynomials.len(), p2.proof_polynomials.len());
    for i in 0..p1.proof_polynomials.len() {
        assert_eq!(p1.proof_polynomials[i], p2.proof_polynomials[i]);
    }
}

#[test]
fn test_tampered_claimed_sum_rejected() {
    let polynomial = poly_abc();
    let proof = prove(&polynomial);
    let tampered = Proof {
        proof_polynomials: proof.proof_polynomials,
        claimed_sum: proof.claimed_sum.add(fe(1)),
    };
    assert_eq!(verify(&polynomial, tampered), false);
}

#[test]
fn test_tampered_round_polynomial_rejected() {
    let polynomial = poly_abc();
    let good = prove(&polynomial);
    for i in 0..good.proof_polynomials.len() {
        for j in 0..good.proof_polynomials[i].len() {
            let mut rounds = good.proof_polynomials.clone();
            rounds[i][j] = rounds[i][j].add(fe(1));
            let tampered = Proof {
                proof_polynomials: rounds,
                claimed_sum: good.claimed_sum,
            };
            assert_eq!(verify(&polynomial, tampered), false);
        }
    }
}

#[test]
fn test_truncated_proof_rejected() {
    let polynomial = poly_abc();
    let mut proof = prove(&polynomial);
    proof.proof_polynomials.pop();
    assert_eq!(verify(&polynomial, proof), false);
}

#[test]
fn test_single_point_polynomial_round_trip() {
    let polynomial = MultilinearPoly::new(vec![fe(7)]);
    let proof = prove(&polynomial);
    assert_eq!(proof.claimed_sum, fe(7));
    assert_eq!(proof.proof_polynomials.len(), 0);
    assert_eq!(verify(&polynomial, proof), true);
}

#[test]
fn test_field_arithmetic_wraps_at_modulus() {
    assert_eq!(fe(FIELD_MODULUS - 1).add(fe(2)), fe(1));
    assert_eq!(fe(1).sub(fe(3)), fe(FIELD_MODULUS - 2));
    assert_eq!(fe(FIELD_MODULUS), fe(0));
}

#[test]
fn test_multilinear_evaluate_at_hypercube_corner() {
    let polynomial = poly_abc();
    assert_eq!(polynomial.evaluate(vec![fe(1), fe(1), fe(1)]), fe(17));
    assert_eq!(polynomial.evaluate(vec![fe(1), fe(0), fe(1)]), fe(10));
}

#[test]
fn test_interpolate_line() {
    let points = vec![(fe(0), fe(3)), (fe(1), fe(5))];
    let line = UnivariatePoly::interpolate(points);
    assert_eq!(line.coefficient, vec![fe(3), fe(2)]);
    assert_eq!(line.evaluate(fe(4)), fe(11));
}

fn constant_times_multilinear() -> sum_check::composed::SumPoly {
    let constant = MultilinearPoly::new(vec![fe(5), fe(5), fe(5), fe(5)]);
    let varying = MultilinearPoly::new(vec![fe(1), fe(2), fe(3), fe(4)]);
    sum_check::composed::SumPoly {
        terms: vec![vec![constant, varying]],
    }
}

#[test]
fn test_gkr_round_trip_with_constant_factor() {
    let composed = constant_times_multilinear();
    let reduced = composed.reduce();
    let claimed_sum = sum_fe_vec(&reduced);
    assert_eq!(claimed_sum, fe(50));

    let mut prover_transcript = Transcript::new();
    let proof = gkr_prove(claimed_sum, &composed, &mut prover_transcript);
    assert_eq!(proof.proof_polynomials.len(), 2);
    assert_eq!(proof.random_challenges.len(), 2);

    let mut verifier_transcript = Transcript::new();
    let outcome = gkr_verify(
        proof.proof_polynomials,
        proof.claimed_sum,
        &mut verifier_transcript,
    );
    assert_eq!(outcome.verified, true);
    assert_eq!(outcome.random_challenges, proof.random_challenges);
}

#[test]
fn test_gkr_prover_is_deterministic() {
    let composed = constant_times_multilinear();
    let mut t1 = Transcript::new();
    let mut t2 = Transcript::new();
    let p1 = gkr_prove(fe(50), &composed, &mut t1);
    let p2 = gkr_prove(fe(50), &composed, &mut t2);
    assert_eq!(p1.claimed_sum, p2.claimed_sum);
    assert_eq!(p1.proof_polynomials, p2.proof_polynomials);
    assert_eq!(p1.random_challenges, p2.random_challenges);
}

#[test]
fn test_gkr_tampered_sum_rejected() {
    let composed = constant_times_multilinear();
    let mut prover_transcript = Transcript::new();
    let proof = gkr_prove(fe(50), &composed, &mut prover_transcript);

    let mut verifier_transcript = Transcript::new();
    let outcome = gkr_verify(
        proof.proof_polynomials,
        fe(51),
        &mut verifier_transcript,
    );
    assert_eq!(outcome.verified, false);
    assert_eq!(outcome.final_claimed_sum, fe(0));
    assert_eq!(outcome.random_challenges, vec![fe(0)]);
}

#[test]
fn test_gkr_single_factor_constant_agrees_with_plain() {
    // One multilinear factor whose evaluations are all equal: on such a
    // polynomial the single-sample round message determines the round
    // polynomial exactly, and the two variants accept and reject alike.
    let evaluations = vec![fe(3), fe(3), fe(3), fe(3)];
    let plain = MultilinearPoly::new(evaluations.clone());
    let plain_proof = prove(&plain);
    assert_eq!(plain_proof.claimed_sum, fe(12));
    assert_eq!(verify(&plain, plain_proof), true);

    let composed = sum_check::composed::SumPoly {
        terms: vec![vec![MultilinearPoly::new(evaluations)]],
    };
    let mut prover_transcript = Transcript::new();
    let gkr_proof = gkr_prove(fe(12), &composed, &mut prover_transcript);
    let mut verifier_transcript = Transcript::new();
    let accepted = gkr_verify(
        gkr_proof.proof_polynomials.clone(),
        fe(12),
        &mut verifier_transcript,
    );
    assert_eq!(accepted.verified, true);

    // Both variants reject the same tampered claim.
    let plain_again = MultilinearPoly::new(vec![fe(3), fe(3), fe(3), fe(3)]);
    let mut bad_proof = prove(&plain_again);
    bad_proof.claimed_sum = fe(13);
    assert_eq!(verify(&plain_again, bad_proof), false);
    let mut rejecting_transcript = Transcript::new();
    let rejected = gkr_verify(gkr_proof.proof_polynomials, fe(13), &mut rejecting_transcript);
    assert_eq!(rejected.verified, false);
}

#[test]
fn test_gkr_tampered_round_polynomial_rejected() {
    let composed = constant_times_multilinear();
    let mut prover_transcript = Transcript::new();
    let proof = gkr_prove(fe(50), &composed, &mut prover_transcript);

    let mut rounds = proof.proof_polynomials.clone();
    rounds[1][0] = rounds[1][0].add(fe(1));
    let mut verifier_transcript = Transcript::new();
    let outcome = gkr_verify(rounds, proof.claimed_sum, &mut verifier_transcript);
    assert_eq!(outcome.verified, false);
}
