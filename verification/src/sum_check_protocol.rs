//! The sum-check protocol: a prover and verifier pair for the claim that the
//! sum of a multilinear polynomial over the boolean hypercube equals a
//! claimed value, with challenges drawn from a Fiat-Shamir transcript.

use vstd::prelude::*;
use crate::field::{
    Fe, f_add, f_sum, fe_vals, modulus, lemma_f_sum_concat, sum_fe_vec,
};
use crate::multilinear::{
    MultilinearPoly, fe_combine, fix_first, mle_eval, sub_vec, lemma_f_sum_fix_first,
};
use crate::transcript::{
    Transcript, fes_to_bytes, challenge_of, ts_after_challenge, fe_vec_to_bytes,
};
use crate::composed::{SumPoly, sp_fix_first, max_factors, reduce_spec};
use crate::univariate::{UnivariatePoly, interpolate_spec, xs_of, ys_of, poly_eval};
use vstd::arithmetic::power2::{pow2, lemma_pow2_unfold, lemma2_to64};
use vstd::arithmetic::div_mod::{lemma_mod_multiples_basic, lemma_div_multiples_vanish};

verus! {

/// A plain sum-check proof: one round polynomial per variable, each held as
/// its pair of values at 0 and at 1, together with the claimed total sum.
#[derive(Debug, Clone)]
pub struct Proof {
    pub proof_polynomials: Vec<Vec<Fe>>,
    pub claimed_sum: Fe,
}

/// The values of a sequence of round polynomials.
pub open spec fn rounds_vals(s: Seq<Vec<Fe>>) -> Seq<Seq<nat>> {
    Seq::new(s.len(), |i: int| fe_vals(s[i]@))
}

/// One round's message: the sums of the two halves of the evaluation vector,
/// which are the round polynomial's values at 0 and at 1.
pub open spec fn round_pair(e: Seq<nat>) -> Seq<nat> {
    seq![f_sum(e.take(e.len() as int / 2)), f_sum(e.skip(e.len() as int / 2))]
}

/// The transcript state both parties start from: the polynomial's full
/// evaluation vector, then the claimed sum.
pub open spec fn initial_transcript(e: Seq<nat>, claimed: nat) -> Seq<u8> {
    fes_to_bytes(e) + fes_to_bytes(seq![claimed])
}

/// The rounds an honest prover emits from the given evaluation vector and
/// transcript state: each round's pair, then the challenge folded in.
pub open spec fn prove_rounds(e: Seq<nat>, n: nat, ts: Seq<u8>) -> Seq<Seq<nat>>
    decreases n,
{
    if n == 0 {
        Seq::empty()
    } else {
        let pair = round_pair(e);
        let ts1 = ts + fes_to_bytes(pair);
        let r = challenge_of(ts1);
        seq![pair] + prove_rounds(fix_first(e, r), (n - 1) as nat, ts_after_challenge(ts1))
    }
}

/// What the verifier's round loop produces: whether every round check
/// passed, the running expected sum it ended with, the challenges it drew,
/// and the transcript state it reached.
pub ghost struct RoundsOutcome {
    pub ok: bool,
    pub expected: nat,
    pub challenges: Seq<nat>,
    pub ts: Seq<u8>,
}

/// The verifier's walk over the rounds: each round must be a pair summing to
/// the running expectation, which the round's challenge then reduces.
pub open spec fn verify_rounds(rounds: Seq<Seq<nat>>, expected: nat, ts: Seq<u8>) -> RoundsOutcome
    decreases rounds.len(),
{
    if rounds.len() == 0 {
        RoundsOutcome { ok: true, expected, challenges: Seq::empty(), ts }
    } else {
        let pair = rounds[0];
        if pair.len() != 2 || f_add(pair[0], pair[1]) != expected {
            RoundsOutcome { ok: false, expected, challenges: Seq::empty(), ts }
        } else {
            let ts1 = ts + fes_to_bytes(pair);
            let r = challenge_of(ts1);
            let rest = verify_rounds(
                rounds.drop_first(),
                fe_combine(pair[0], pair[1], r),
                ts_after_challenge(ts1),
            );
            RoundsOutcome {
                ok: rest.ok,
                expected: rest.expected,
                challenges: seq![r] + rest.challenges,
                ts: rest.ts,
            }
        }
    }
}

/// Acceptance of a proof against a polynomial: the round count matches the
/// variable count, every round check passes, and the final expectation
/// equals the polynomial evaluated at the drawn challenge point.
pub open spec fn verify_spec(e: Seq<nat>, n: nat, rounds: Seq<Seq<nat>>, claimed: nat) -> bool {
    let o = verify_rounds(rounds, claimed, initial_transcript(e, claimed));
    rounds.len() == n && o.ok && o.expected == mle_eval(e, o.challenges)
}

/// One round's message: the sums of the first and second halves of the
/// current evaluation vector.
fn get_round_partial_polynomial_proof(polynomial: &Vec<Fe>) -> (r: Vec<Fe>)
    ensures
        fe_vals(r@) == round_pair(fe_vals(polynomial@)),
        r@.len() == 2,
{
    let mid_point = polynomial.len() / 2;
    let zeros = sub_vec(polynomial, 0, mid_point);
    let ones = sub_vec(polynomial, mid_point, polynomial.len());
    let s0 = sum_fe_vec(&zeros);
    let s1 = sum_fe_vec(&ones);
    let mut r: Vec<Fe> = Vec::new();
    r.push(s0);
    r.push(s1);
    proof {
        assert(fe_vals(zeros@) =~= fe_vals(polynomial@).take(mid_point as int));
        assert(fe_vals(ones@) =~= fe_vals(polynomial@).skip(mid_point as int));
        assert(fe_vals(r@) =~= round_pair(fe_vals(polynomial@)));
    }
    r
}

/// Produces a sum-check proof for the polynomial's true total sum.
///
/// The proof is a pure function of the polynomial: the claimed sum is the
/// field sum of the evaluation vector, and the rounds are exactly
/// `prove_rounds` from the initial transcript state.
pub fn prove(polynomial: &MultilinearPoly) -> (r: Proof)
    requires
        polynomial.wf(),
    ensures
        r.claimed_sum@ == f_sum(polynomial.vals()),
        rounds_vals(r.proof_polynomials@) == prove_rounds(
            polynomial.vals(),
            polynomial.num_of_vars as nat,
            initial_transcript(polynomial.vals(), f_sum(polynomial.vals())),
        ),
        r.proof_polynomials@.len() == polynomial.num_of_vars,
{
    let mut transcript = Transcript::new();
    let eval_bytes = fe_vec_to_bytes(&polynomial.evaluation);
    transcript.append(&eval_bytes);

    let claimed_sum = sum_fe_vec(&polynomial.evaluation);
    let claimed_vec = vec![claimed_sum];
    proof {
        assert(fe_vals(claimed_vec@) =~= seq![claimed_sum@]);
    }
    let claimed_bytes = fe_vec_to_bytes(&claimed_vec);
    transcript.append(&claimed_bytes);
    let ghost ts0 = initial_transcript(polynomial.vals(), f_sum(polynomial.vals()));
    proof {
        assert(transcript@ =~= ts0);
    }

    let num_rounds = polynomial.num_of_vars;
    let mut proof_polynomials: Vec<Vec<Fe>> = Vec::new();
    let mut current = MultilinearPoly {
        evaluation: sub_vec(&polynomial.evaluation, 0, polynomial.evaluation.len()),
        num_of_vars: polynomial.num_of_vars,
    };
    proof {
        assert(current.evaluation@ =~= polynomial.evaluation@);
        assert(prove_rounds(polynomial.vals(), num_rounds as nat, ts0) =~= rounds_vals(
            proof_polynomials@,
        ) + prove_rounds(current.vals(), num_rounds as nat, transcript@));
    }

    let mut i: usize = 0;
    while i < num_rounds
        invariant
            i <= num_rounds,
            current.wf(),
            current.num_of_vars == num_rounds - i,
            proof_polynomials@.len() == i,
            prove_rounds(polynomial.vals(), num_rounds as nat, ts0) == rounds_vals(
                proof_polynomials@,
            ) + prove_rounds(current.vals(), (num_rounds - i) as nat, transcript@),
        decreases num_rounds - i,
    {
        let ghost pre_rounds = rounds_vals(proof_polynomials@);
        let ghost pre_ts = transcript@;
        let ghost cur_vals = current.vals();

        let proof_poly = get_round_partial_polynomial_proof(&current.evaluation);
        let poly_bytes = fe_vec_to_bytes(&proof_poly);
        transcript.append(&poly_bytes);
        proof_polynomials.push(proof_poly);
        let random_challenge = transcript.get_random_challenge();
        let next = current.partial_evaluate(0, &random_challenge);
        proof {
            let pair = round_pair(cur_vals);
            let ts1 = pre_ts + fes_to_bytes(pair);
            let r = challenge_of(ts1);
            assert(prove_rounds(cur_vals, (num_rounds - i) as nat, pre_ts) == seq![pair]
                + prove_rounds(fix_first(cur_vals, r), (num_rounds - i - 1) as nat,
                ts_after_challenge(ts1)));
            assert(next.vals() == fix_first(cur_vals, r));
            assert(rounds_vals(proof_polynomials@) =~= pre_rounds + seq![pair]);
            assert((pre_rounds + seq![pair]) + prove_rounds(
                next.vals(),
                (num_rounds - i - 1) as nat,
                transcript@,
            ) =~= pre_rounds + (seq![pair] + prove_rounds(
                next.vals(),
                (num_rounds - i - 1) as nat,
                transcript@,
            )));
        }
        current = next;
        i += 1;
    }
    proof {
        assert(prove_rounds(current.vals(), 0, transcript@) =~= Seq::<Seq<nat>>::empty());
        assert(rounds_vals(proof_polynomials@) + Seq::<Seq<nat>>::empty() =~= rounds_vals(
            proof_polynomials@,
        ));
    }
    Proof { proof_polynomials, claimed_sum }
}

/// Checks a sum-check proof against the polynomial: re-runs the transcript
/// schedule, checks every round pair against the running expectation, and
/// finally compares against the polynomial's value at the challenge point.
pub fn verify(polynomial: &MultilinearPoly, prf: Proof) -> (r: bool)
    requires
        polynomial.wf(),
    ensures
        r == verify_spec(
            polynomial.vals(),
            polynomial.num_of_vars as nat,
            rounds_vals(prf.proof_polynomials@),
            prf.claimed_sum@,
        ),
{
    let mut transcript = Transcript::new();
    let eval_bytes = fe_vec_to_bytes(&polynomial.evaluation);
    transcript.append(&eval_bytes);
    let claimed_vec = vec![prf.claimed_sum];
    proof {
        assert(fe_vals(claimed_vec@) =~= seq![prf.claimed_sum@]);
    }
    let claimed_bytes = fe_vec_to_bytes(&claimed_vec);
    transcript.append(&claimed_bytes);

    let ghost rv = rounds_vals(prf.proof_polynomials@);
    let ghost ts0 = initial_transcript(polynomial.vals(), prf.claimed_sum@);
    proof {
        assert(transcript@ =~= ts0);
    }
    let ghost full = verify_rounds(rv, prf.claimed_sum@, ts0);

    if prf.proof_polynomials.len() != polynomial.num_of_vars {
        // The round count must equal the variable count for the final
        // evaluation query to make sense.
        return false;
    }

    let mut random_challenges: Vec<Fe> = Vec::new();
    let mut expected_sum = prf.claimed_sum;
    let mut i: usize = 0;
    proof {
        assert(rv.skip(0) =~= rv);
        assert(fe_vals(random_challenges@) =~= Seq::<nat>::empty());
    }
    while i < prf.proof_polynomials.len()
        invariant
            i <= prf.proof_polynomials@.len(),
            rv == rounds_vals(prf.proof_polynomials@),
            full == verify_rounds(
                rv,
                prf.claimed_sum@,
                initial_transcript(polynomial.vals(), prf.claimed_sum@),
            ),
            random_challenges@.len() == i,
            full.ok == verify_rounds(rv.skip(i as int), expected_sum@, transcript@).ok,
            verify_rounds(rv.skip(i as int), expected_sum@, transcript@).ok ==> {
                let rest = verify_rounds(rv.skip(i as int), expected_sum@, transcript@);
                full.expected == rest.expected && full.challenges == fe_vals(
                    random_challenges@,
                ) + rest.challenges
            },
        decreases prf.proof_polynomials@.len() - i,
    {
        let ghost pre_ts = transcript@;
        let ghost pre_exp = expected_sum@;
        let ghost pre_ch = random_challenges@;
        let ghost head = verify_rounds(rv.skip(i as int), pre_exp, pre_ts);
        let ghost pair = rv.skip(i as int)[0];
        proof {
            assert(pair == fe_vals(prf.proof_polynomials@[i as int]@));
        }
        let poly = &prf.proof_polynomials[i];
        if poly.len() != 2 {
            // A round message must be the pair of values at 0 and at 1.
            proof {
                assert(pair.len() != 2);
                assert(!head.ok);
                assert(!full.ok);
                assert(verify_rounds(
                    rv,
                    prf.claimed_sum@,
                    initial_transcript(polynomial.vals(), prf.claimed_sum@),
                ) == full);
                assert(!verify_spec(
                    polynomial.vals(),
                    polynomial.num_of_vars as nat,
                    rv,
                    prf.claimed_sum@,
                ));
            }
            return false;
        }
        let s = poly[0].add(poly[1]);
        if !s.eq_fe(expected_sum) {
            proof {
                assert(f_add(pair[0], pair[1]) != pre_exp);
                assert(!head.ok);
                assert(!full.ok);
                assert(verify_rounds(
                    rv,
                    prf.claimed_sum@,
                    initial_transcript(polynomial.vals(), prf.claimed_sum@),
                ) == full);
                assert(!verify_spec(
                    polynomial.vals(),
                    polynomial.num_of_vars as nat,
                    rv,
                    prf.claimed_sum@,
                ));
            }
            return false;
        }
        let poly_bytes = fe_vec_to_bytes(poly);
        transcript.append(&poly_bytes);
        let random_challenge = transcript.get_random_challenge();
        let next_expected = poly[0].add(random_challenge.mul(poly[1].sub(poly[0])));
        proof {
            let ts1 = pre_ts + fes_to_bytes(pair);
            let r = challenge_of(ts1);
            let tail = verify_rounds(
                rv.skip(i + 1),
                fe_combine(pair[0], pair[1], r),
                ts_after_challenge(ts1),
            );
            assert(rv.skip(i as int).drop_first() =~= rv.skip(i + 1));
            assert(head.ok == tail.ok);
            assert(head.challenges == seq![r] + tail.challenges);
            assert(random_challenge@ == r);
            assert(next_expected@ == fe_combine(pair[0], pair[1], r));
            assert(transcript@ == ts_after_challenge(ts1));
            assert(fe_vals(pre_ch.push(random_challenge)) =~= fe_vals(pre_ch).push(r));
            assert(fe_vals(pre_ch) + (seq![r] + tail.challenges) =~= fe_vals(pre_ch).push(r)
                + tail.challenges);
        }
        random_challenges.push(random_challenge);
        expected_sum = next_expected;
        i += 1;
    }
    proof {
        assert(rv.skip(i as int) =~= Seq::<Seq<nat>>::empty());
        assert(full.ok);
        assert(full.expected == expected_sum@);
        assert(fe_vals(random_challenges@) + Seq::<nat>::empty() =~= fe_vals(
            random_challenges@,
        ));
        assert(full.challenges == fe_vals(random_challenges@));
    }
    let poly_eval_sum = polynomial.evaluate(random_challenges);
    expected_sum.eq_fe(poly_eval_sum)
}

/// Completeness of one run of rounds: from any transcript state, the rounds
/// an honest prover emits pass every verifier round check, and the final
/// expectation is exactly the polynomial evaluated at the drawn challenges.
pub proof fn lemma_round_trip(e: Seq<nat>, n: nat, ts: Seq<u8>)
    requires
        e.len() == pow2(n),
    ensures
        ({
            let rounds = prove_rounds(e, n, ts);
            let o = verify_rounds(rounds, f_sum(e), ts);
            &&& rounds.len() == n
            &&& o.ok
            &&& o.challenges.len() == n
            &&& o.expected == mle_eval(e, o.challenges)
        }),
    decreases n,
{
    if n == 0 {
        lemma2_to64();
        assert(e.len() == 1);
        assert(e.drop_last() =~= Seq::<nat>::empty());
        assert(f_sum(e) == f_add(0, e[0]));
        let o = verify_rounds(prove_rounds(e, 0, ts), f_sum(e), ts);
        assert(o.challenges =~= Seq::<nat>::empty());
        assert(mle_eval(e, o.challenges) == e[0] % modulus());
    } else {
        lemma_pow2_unfold(n);
        lemma_mod_multiples_basic(pow2((n - 1) as nat) as int, 2);
        assert(e.len() as int == pow2((n - 1) as nat) * 2) by (nonlinear_arith)
            requires
                e.len() == 2 * pow2((n - 1) as nat),
        ;
        assert(e.len() % 2 == 0);
        lemma_div_multiples_vanish(pow2((n - 1) as nat) as int, 2);
        let h = e.len() as int / 2;
        assert(h == pow2((n - 1) as nat));
        let a = e.take(h);
        let b = e.skip(h);
        let pair = round_pair(e);
        assert(a + b =~= e);
        lemma_f_sum_concat(a, b);
        assert(f_add(pair[0], pair[1]) == f_sum(e));

        let ts1 = ts + fes_to_bytes(pair);
        let r = challenge_of(ts1);
        let ts2 = ts_after_challenge(ts1);
        let e2 = fix_first(e, r);
        lemma_f_sum_fix_first(e, r);
        assert(fe_combine(pair[0], pair[1], r) == f_sum(e2));
        assert(e2.len() == pow2((n - 1) as nat));
        lemma_round_trip(e2, (n - 1) as nat, ts2);

        let rounds = prove_rounds(e, n, ts);
        assert(rounds == seq![pair] + prove_rounds(e2, (n - 1) as nat, ts2));
        assert(rounds[0] == pair);
        assert(rounds.drop_first() =~= prove_rounds(e2, (n - 1) as nat, ts2));
        let o = verify_rounds(rounds, f_sum(e), ts);
        let rest = verify_rounds(rounds.drop_first(), f_sum(e2), ts2);
        assert(o.ok == rest.ok);
        assert(o.challenges == seq![r] + rest.challenges);
        assert(o.challenges[0] == r);
        assert(o.challenges.drop_first() =~= rest.challenges);
        assert(mle_eval(e, o.challenges) == mle_eval(e2, rest.challenges));
    }
}

/// Completeness: a proof produced by the honest prover for the true sum is
/// accepted by the verifier, for every polynomial.
pub proof fn lemma_sum_check_completeness(e: Seq<nat>, n: nat)
    requires
        e.len() == pow2(n),
    ensures
        verify_spec(
            e,
            n,
            prove_rounds(e, n, initial_transcript(e, f_sum(e))),
            f_sum(e),
        ),
{
    lemma_round_trip(e, n, initial_transcript(e, f_sum(e)));
}


/// A composed-variant proof: one interpolated coefficient vector per round,
/// the claimed sum, and the challenge sequence the prover derived.
pub struct GkrProof {
    pub proof_polynomials: Vec<Vec<Fe>>,
    pub claimed_sum: Fe,
    pub random_challenges: Vec<Fe>,
}

/// A composed-variant verification outcome: whether every round check
/// passed, the reduced claim after all rounds, and the challenges drawn.
pub struct GkrVerify {
    pub verified: bool,
    pub final_claimed_sum: Fe,
    pub random_challenges: Vec<Fe>,
}

/// The sample abscissas of one composed round: the field elements
/// 0, 1, ..., d - 1.
pub open spec fn gkr_xs(d: nat) -> Seq<nat> {
    Seq::new(d, |i: int| (i as nat) % modulus())
}

/// The sample values of one composed round: the composed polynomial with its
/// leading variable fixed to each abscissa, reduced and summed.
pub open spec fn gkr_ys(q: Seq<Seq<Seq<nat>>>, n: nat, d: nat) -> Seq<nat> {
    Seq::new(
        d,
        |i: int|
            f_sum(reduce_spec(sp_fix_first(q, (i as nat) % modulus()), pow2((n - 1) as nat))),
    )
}

/// One composed round's message: the degree-many samples interpolated into a
/// dense coefficient vector.
pub open spec fn gkr_round_spec(q: Seq<Seq<Seq<nat>>>, n: nat) -> Seq<nat> {
    interpolate_spec(gkr_xs(max_factors(q)), gkr_ys(q, n, max_factors(q)))
}

/// What an honest composed-variant prover emits: the round coefficient
/// vectors, the challenges, and the transcript state reached.
pub ghost struct GkrTrace {
    pub rounds: Seq<Seq<nat>>,
    pub challenges: Seq<nat>,
    pub ts: Seq<u8>,
}

/// The composed-variant prover's rounds as a pure function of the composed
/// polynomial and the incoming transcript state.
pub open spec fn gkr_prove_trace(q: Seq<Seq<Seq<nat>>>, n: nat, ts: Seq<u8>) -> GkrTrace
    decreases n,
{
    if n == 0 {
        GkrTrace { rounds: Seq::empty(), challenges: Seq::empty(), ts }
    } else {
        let coeffs = gkr_round_spec(q, n);
        let ts1 = ts + fes_to_bytes(coeffs);
        let r = challenge_of(ts1);
        let rest = gkr_prove_trace(sp_fix_first(q, r), (n - 1) as nat, ts_after_challenge(ts1));
        GkrTrace {
            rounds: seq![coeffs] + rest.rounds,
            challenges: seq![r] + rest.challenges,
            ts: rest.ts,
        }
    }
}

/// One composed round's message: the restriction to the leading variable
/// sampled at 0, 1, ..., degree - 1 and interpolated into coefficients.
fn get_round_partial_polynomial_proof_gkr(composed_poly: &SumPoly) -> (r: Vec<Fe>)
    requires
        composed_poly.wf(),
        composed_poly.num_vars_spec() > 0,
    ensures
        fe_vals(r@) == gkr_round_spec(composed_poly.vals(), composed_poly.num_vars_spec()),
{
    let degree = composed_poly.get_degree();
    let ghost q = composed_poly.vals();
    let ghost n = composed_poly.num_vars_spec();
    let mut points: Vec<(Fe, Fe)> = Vec::new();
    let mut i: usize = 0;
    proof {
        assert(xs_of(points@) =~= gkr_xs(degree as nat).take(0));
        assert(ys_of(points@) =~= gkr_ys(q, n, degree as nat).take(0));
    }
    while i < degree
        invariant
            i <= degree,
            composed_poly.wf(),
            composed_poly.num_vars_spec() > 0,
            q == composed_poly.vals(),
            n == composed_poly.num_vars_spec(),
            degree as nat == max_factors(q),
            points@.len() == i,
            xs_of(points@) == gkr_xs(degree as nat).take(i as int),
            ys_of(points@) == gkr_ys(q, n, degree as nat).take(i as int),
        decreases degree - i,
    {
        let value = Fe::new(i as u64);
        let partial_poly = composed_poly.partial_evaluate(&value);
        let reduced = partial_poly.reduce();
        let eval = sum_fe_vec(&reduced);
        proof {
            assert(value@ == (i as nat) % modulus());
            assert(partial_poly.vals() == sp_fix_first(q, value@));
            assert(eval@ == gkr_ys(q, n, degree as nat)[i as int]);
        }
        points.push((value, eval));
        proof {
            let xs = gkr_xs(degree as nat);
            let ys = gkr_ys(q, n, degree as nat);
            assert(xs_of(points@) =~= xs.take(i as int).push(xs[i as int]));
            assert(xs.take(i + 1) =~= xs.take(i as int).push(xs[i as int]));
            assert(ys_of(points@) =~= ys.take(i as int).push(ys[i as int]));
            assert(ys.take(i + 1) =~= ys.take(i as int).push(ys[i as int]));
        }
        i += 1;
    }
    proof {
        assert(xs_of(points@) =~= gkr_xs(degree as nat));
        assert(ys_of(points@) =~= gkr_ys(q, n, degree as nat));
    }
    let interpolated = UnivariatePoly::interpolate(points);
    interpolated.coefficient
}

/// Produces a composed-variant proof: the rounds, challenges and final
/// transcript state are exactly `gkr_prove_trace` of the inputs, so two runs
/// from the same transcript state give the same proof.
///
/// The transcript is the caller's, taken by mutable borrow so that one
/// transcript can span the sum-checks of several circuit layers and the
/// caller can inspect its final state.
pub fn gkr_prove(
    claimed_sum: Fe,
    composed_polynomial: &SumPoly,
    transcript: &mut Transcript,
) -> (r: GkrProof)
    requires
        composed_polynomial.wf(),
    ensures
        ({
            let trace = gkr_prove_trace(
                composed_polynomial.vals(),
                composed_polynomial.num_vars_spec(),
                old(transcript)@,
            );
            &&& r.claimed_sum == claimed_sum
            &&& rounds_vals(r.proof_polynomials@) == trace.rounds
            &&& fe_vals(r.random_challenges@) == trace.challenges
            &&& final(transcript)@ == trace.ts
            &&& r.proof_polynomials@.len() == composed_polynomial.num_vars_spec()
            &&& r.random_challenges@.len() == composed_polynomial.num_vars_spec()
        }),
{
    let num_rounds = composed_polynomial.num_of_vars();
    let ghost q0 = composed_polynomial.vals();
    let ghost trace = gkr_prove_trace(q0, num_rounds as nat, old(transcript)@);
    let mut proof_polynomials: Vec<Vec<Fe>> = Vec::new();
    let mut random_challenges: Vec<Fe> = Vec::new();
    let mut current = composed_polynomial.duplicate();
    proof {
        assert(rounds_vals(proof_polynomials@) =~= Seq::<Seq<nat>>::empty());
        assert(fe_vals(random_challenges@) =~= Seq::<nat>::empty());
        assert(Seq::<Seq<nat>>::empty() + trace.rounds =~= trace.rounds);
        assert(Seq::<nat>::empty() + trace.challenges =~= trace.challenges);
    }
    let mut i: usize = 0;
    while i < num_rounds
        invariant
            i <= num_rounds,
            current.wf(),
            current.num_vars_spec() == num_rounds - i,
            trace == gkr_prove_trace(q0, num_rounds as nat, old(transcript)@),
            proof_polynomials@.len() == i,
            random_challenges@.len() == i,
            ({
                let rest = gkr_prove_trace(
                    current.vals(),
                    (num_rounds - i) as nat,
                    transcript@,
                );
                &&& trace.rounds == rounds_vals(proof_polynomials@) + rest.rounds
                &&& trace.challenges == fe_vals(random_challenges@) + rest.challenges
                &&& trace.ts == rest.ts
            }),
        decreases num_rounds - i,
    {
        let ghost pre_rounds = rounds_vals(proof_polynomials@);
        let ghost pre_chals = fe_vals(random_challenges@);
        let ghost pre_ts = transcript@;
        let ghost cur_q = current.vals();
        let ghost cur_n = current.num_vars_spec();

        let proof_poly = get_round_partial_polynomial_proof_gkr(&current);
        let poly_bytes = fe_vec_to_bytes(&proof_poly);
        transcript.append(&poly_bytes);
        proof_polynomials.push(proof_poly);
        let random_challenge = transcript.get_random_challenge();
        random_challenges.push(random_challenge);
        let next = current.partial_evaluate(&random_challenge);
        proof {
            let coeffs = gkr_round_spec(cur_q, cur_n);
            let ts1 = pre_ts + fes_to_bytes(coeffs);
            let r = challenge_of(ts1);
            let rest = gkr_prove_trace(sp_fix_first(cur_q, r), (cur_n - 1) as nat,
                ts_after_challenge(ts1));
            assert(gkr_prove_trace(cur_q, cur_n, pre_ts).rounds == seq![coeffs] + rest.rounds);
            assert(next.vals() == sp_fix_first(cur_q, r));
            assert(rounds_vals(proof_polynomials@) =~= pre_rounds + seq![coeffs]);
            assert((pre_rounds + seq![coeffs]) + rest.rounds =~= pre_rounds + (seq![coeffs]
                + rest.rounds));
            assert(fe_vals(random_challenges@) =~= pre_chals + seq![r]);
            assert((pre_chals + seq![r]) + rest.challenges =~= pre_chals + (seq![r]
                + rest.challenges));
        }
        current = next;
        i += 1;
    }
    proof {
        assert(gkr_prove_trace(current.vals(), 0, transcript@).rounds
            =~= Seq::<Seq<nat>>::empty());
        assert(rounds_vals(proof_polynomials@) + Seq::<Seq<nat>>::empty() =~= rounds_vals(
            proof_polynomials@,
        ));
        assert(fe_vals(random_challenges@) + Seq::<nat>::empty() =~= fe_vals(
            random_challenges@,
        ));
    }
    GkrProof { proof_polynomials, claimed_sum, random_challenges }
}

/// The composed-variant verifier's walk: each round's coefficient vector
/// must satisfy f(0) + f(1) = the running claim, which f at the round's
/// challenge then replaces.
pub open spec fn gkr_verify_rounds(rounds: Seq<Seq<nat>>, claimed: nat, ts: Seq<u8>)
    -> RoundsOutcome
    decreases rounds.len(),
{
    if rounds.len() == 0 {
        RoundsOutcome { ok: true, expected: claimed, challenges: Seq::empty(), ts }
    } else {
        let c = rounds[0];
        if f_add(poly_eval(c, 0), poly_eval(c, 1)) != claimed {
            RoundsOutcome { ok: false, expected: claimed, challenges: Seq::empty(), ts }
        } else {
            let ts1 = ts + fes_to_bytes(c);
            let r = challenge_of(ts1);
            let rest = gkr_verify_rounds(
                rounds.drop_first(),
                poly_eval(c, r),
                ts_after_challenge(ts1),
            );
            RoundsOutcome {
                ok: rest.ok,
                expected: rest.expected,
                challenges: seq![r] + rest.challenges,
                ts: rest.ts,
            }
        }
    }
}

/// Checks a composed-variant proof's rounds against a starting claim: on the
/// first failing round it stops with `verified` false, a zeroed claim and a
/// single zero placeholder challenge; otherwise it hands back the reduced
/// claim and the challenges, for the caller to check against an opening of
/// the composed polynomial at that point.
///
/// The transcript is borrowed mutably, as in `gkr_prove`, so one transcript
/// can span several layers' sum-checks and the caller can inspect its final
/// state after verification.
pub fn gkr_verify(
    round_polys: Vec<Vec<Fe>>,
    claimed_sum: Fe,
    transcript: &mut Transcript,
) -> (result: GkrVerify)
    ensures
        ({
            let o = gkr_verify_rounds(rounds_vals(round_polys@), claimed_sum@, old(transcript)@);
            &&& result.verified == o.ok
            &&& final(transcript)@ == o.ts
            &&& o.ok ==> result.final_claimed_sum@ == o.expected && fe_vals(
                result.random_challenges@,
            ) == o.challenges && result.random_challenges@.len() == round_polys@.len()
            &&& !o.ok ==> result.final_claimed_sum@ == 0 && fe_vals(result.random_challenges@)
                == seq![0nat]
        }),
{
    let ghost rv = rounds_vals(round_polys@);
    let ghost full = gkr_verify_rounds(rv, claimed_sum@, old(transcript)@);
    let mut random_challenges: Vec<Fe> = Vec::new();
    let mut claimed = claimed_sum;
    let mut idx: usize = 0;
    proof {
        assert(rv.skip(0) =~= rv);
        assert(fe_vals(random_challenges@) =~= Seq::<nat>::empty());
    }
    while idx < round_polys.len()
        invariant
            idx <= round_polys@.len(),
            rv == rounds_vals(round_polys@),
            full == gkr_verify_rounds(rv, claimed_sum@, old(transcript)@),
            random_challenges@.len() == idx,
            ({
                let head = gkr_verify_rounds(rv.skip(idx as int), claimed@, transcript@);
                &&& full.ok == head.ok
                &&& full.expected == head.expected
                &&& full.ts == head.ts
                &&& full.challenges == fe_vals(random_challenges@) + head.challenges
            }),
        decreases round_polys@.len() - idx,
    {
        let ghost pre_ts = transcript@;
        let ghost pre_claimed = claimed@;
        let ghost pre_ch = random_challenges@;
        let ghost head = gkr_verify_rounds(rv.skip(idx as int), pre_claimed, pre_ts);
        let ghost pair = rv.skip(idx as int)[0];
        proof {
            assert(pair == fe_vals(round_polys@[idx as int]@));
        }
        let poly = &round_polys[idx];
        let round_poly = UnivariatePoly { coefficient: sub_vec(poly, 0, poly.len()) };
        proof {
            assert(round_poly.coefficient@ =~= poly@);
        }
        let f_b_0 = round_poly.evaluate(Fe::zero());
        let f_b_1 = round_poly.evaluate(Fe::one());
        if !f_b_0.add(f_b_1).eq_fe(claimed) {
            let zero_challenges = vec![Fe::zero()];
            proof {
                assert(f_add(poly_eval(pair, 0), poly_eval(pair, 1)) != pre_claimed);
                assert(!head.ok);
                assert(!full.ok);
                assert(full.ts == pre_ts);
                assert(fe_vals(zero_challenges@) =~= seq![0nat]);
            }
            return GkrVerify {
                verified: false,
                final_claimed_sum: Fe::zero(),
                random_challenges: zero_challenges,
            };
        }
        let poly_bytes = fe_vec_to_bytes(poly);
        transcript.append(&poly_bytes);
        let random_challenge = transcript.get_random_challenge();
        let next_claimed = round_poly.evaluate(random_challenge);
        proof {
            let ts1 = pre_ts + fes_to_bytes(pair);
            let r = challenge_of(ts1);
            let tail = gkr_verify_rounds(rv.skip(idx + 1), poly_eval(pair, r),
                ts_after_challenge(ts1));
            assert(rv.skip(idx as int).drop_first() =~= rv.skip(idx + 1));
            assert(head.ok == tail.ok);
            assert(head.challenges == seq![r] + tail.challenges);
            assert(random_challenge@ == r);
            assert(next_claimed@ == poly_eval(pair, r));
            assert(transcript@ == ts_after_challenge(ts1));
            assert(fe_vals(pre_ch.push(random_challenge)) =~= fe_vals(pre_ch).push(r));
            assert(fe_vals(pre_ch) + (seq![r] + tail.challenges) =~= fe_vals(pre_ch).push(r)
                + tail.challenges);
        }
        random_challenges.push(random_challenge);
        claimed = next_claimed;
        idx += 1;
    }
    proof {
        assert(rv.skip(idx as int) =~= Seq::<Seq<nat>>::empty());
        assert(full.ok);
        assert(fe_vals(random_challenges@) + Seq::<nat>::empty() =~= fe_vals(
            random_challenges@,
        ));
    }
    GkrVerify { verified: true, final_claimed_sum: claimed, random_challenges }
}


/// Round-count invariant: an accepted proof has exactly one round per
/// variable of the polynomial.
pub proof fn lemma_accepted_round_count(e: Seq<nat>, n: nat, rounds: Seq<Seq<nat>>, claimed: nat)
    requires
        verify_spec(e, n, rounds, claimed),
    ensures
        rounds.len() == n,
{
}

/// Linear round check: in an accepted run, every round's pair sums exactly
/// to the running expectation left by the rounds before it.
pub proof fn lemma_accepted_rounds_sum(rounds: Seq<Seq<nat>>, expected: nat, ts: Seq<u8>, i: int)
    requires
        verify_rounds(rounds, expected, ts).ok,
        0 <= i < rounds.len(),
    ensures
        rounds[i].len() == 2,
        f_add(rounds[i][0], rounds[i][1]) == verify_rounds(rounds.take(i), expected, ts).expected,
    decreases i,
{
    let pair = rounds[0];
    assert(pair.len() == 2 && f_add(pair[0], pair[1]) == expected);
    if i == 0 {
        assert(rounds.take(0) =~= Seq::<Seq<nat>>::empty());
    } else {
        let ts1 = ts + fes_to_bytes(pair);
        let r = challenge_of(ts1);
        let e2 = fe_combine(pair[0], pair[1], r);
        let ts2 = ts_after_challenge(ts1);
        assert(verify_rounds(rounds.drop_first(), e2, ts2).ok);
        lemma_accepted_rounds_sum(rounds.drop_first(), e2, ts2, i - 1);
        assert(rounds.drop_first()[i - 1] == rounds[i]);
        let p = rounds.take(i);
        assert(p[0] == pair);
        assert(p.drop_first() =~= rounds.drop_first().take(i - 1));
        assert(verify_rounds(p, expected, ts).expected == verify_rounds(
            rounds.drop_first().take(i - 1),
            e2,
            ts2,
        ).expected);
    }
}

/// Linear round check, stated of an accepted proof: each round pair sums to
/// the expectation reached after the rounds before it, starting from the
/// claimed sum.
pub proof fn lemma_linear_round_check(
    e: Seq<nat>,
    n: nat,
    rounds: Seq<Seq<nat>>,
    claimed: nat,
    i: int,
)
    requires
        verify_spec(e, n, rounds, claimed),
        0 <= i < rounds.len(),
    ensures
        rounds[i].len() == 2,
        f_add(rounds[i][0], rounds[i][1]) == verify_rounds(
            rounds.take(i),
            claimed,
            initial_transcript(e, claimed),
        ).expected,
{
    lemma_accepted_rounds_sum(rounds, claimed, initial_transcript(e, claimed), i);
}

/// Soundness against a tampered claim: whatever the later rounds hold, a
/// proof whose first round is the honest pair is rejected under any claimed
/// sum other than the true one.
pub proof fn lemma_tampered_sum_rejected(e: Seq<nat>, n: nat, rounds: Seq<Seq<nat>>, claimed: nat)
    requires
        n > 0,
        e.len() == pow2(n),
        rounds.len() > 0,
        rounds[0] == round_pair(e),
        claimed != f_sum(e),
    ensures
        !verify_spec(e, n, rounds, claimed),
{
    let h = e.len() as int / 2;
    assert(e.take(h) + e.skip(h) =~= e);
    lemma_f_sum_concat(e.take(h), e.skip(h));
    let pair = rounds[0];
    assert(f_add(pair[0], pair[1]) == f_sum(e));
    assert(!verify_rounds(rounds, claimed, initial_transcript(e, claimed)).ok);
}

} // verus!
