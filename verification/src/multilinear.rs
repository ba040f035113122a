//! Multilinear polynomials over the field, stored as their vector of
//! evaluations over the boolean hypercube in lexicographic variable order.

use vstd::prelude::*;
use crate::field::{
    Fe, f_add, f_mul, f_sub, f_sum, fe_vals, int_sum, modulus,
    lemma_f_sum_is_int_sum, lemma_fe_bound,
};
use vstd::arithmetic::power2::{
    pow2, lemma_pow2_adds, lemma_pow2_unfold, lemma_pow2_strictly_increases, lemma2_to64,
};
use vstd::arithmetic::div_mod::{
    lemma_small_mod, lemma_mod_multiples_basic, lemma_div_multiples_vanish,
    lemma_add_mod_noop, lemma_add_mod_noop_right, lemma_sub_mod_noop, lemma_mul_mod_noop_right,
};
use vstd::arithmetic::mul::lemma_mul_is_distributive_add;

verus! {

/// The degree-one interpolation of `x` (value at 0) and `y` (value at 1),
/// evaluated at `r`.
pub open spec fn fe_combine(x: nat, y: nat, r: nat) -> nat {
    f_add(x, f_mul(r, f_sub(y, x)))
}

/// Pointwise degree-one interpolation of two equally long halves at `r`.
pub open spec fn combine_seq(a: Seq<nat>, b: Seq<nat>, r: nat) -> Seq<nat> {
    Seq::new(a.len(), |i: int| fe_combine(a[i], b[i], r))
}

/// The evaluation vector after fixing the leading variable to `r`.
pub open spec fn fix_first(e: Seq<nat>, r: nat) -> Seq<nat> {
    combine_seq(e.take(e.len() as int / 2), e.skip(e.len() as int / 2), r)
}

/// The evaluation vector after fixing the variable with the given index to
/// `r`: the leading variable directly, a later one within each half.
pub open spec fn partial_eval_seq(e: Seq<nat>, index: nat, r: nat) -> Seq<nat>
    decreases index,
{
    if index == 0 {
        fix_first(e, r)
    } else {
        partial_eval_seq(e.take(e.len() as int / 2), (index - 1) as nat, r) + partial_eval_seq(
            e.skip(e.len() as int / 2),
            (index - 1) as nat,
            r,
        )
    }
}

/// The multilinear extension of `e` evaluated at the point `pts`, by fixing
/// one leading variable after the other.
pub open spec fn mle_eval(e: Seq<nat>, pts: Seq<nat>) -> nat
    decreases pts.len(),
{
    if pts.len() == 0 {
        if e.len() >= 1 {
            e[0] % modulus()
        } else {
            0
        }
    } else {
        mle_eval(fix_first(e, pts[0]), pts.drop_first())
    }
}

/// `fe_combine` is plain modular arithmetic on the two values.
pub proof fn lemma_fe_combine_int(x: nat, y: nat, r: nat)
    ensures
        fe_combine(x, y, r) == (x + r * (y as int - x as int)) % (modulus() as int),
{
    let m = modulus() as int;
    lemma_mul_mod_noop_right(r as int, y as int - x as int, m);
    lemma_add_mod_noop_right(x as int, r * (y as int - x as int), m);
}

/// The field sum of the pointwise combination, in terms of the halves'
/// integer sums.
pub proof fn lemma_f_sum_combine_seq(a: Seq<nat>, b: Seq<nat>, r: nat)
    requires
        a.len() == b.len(),
    ensures
        f_sum(combine_seq(a, b, r)) == (int_sum(a) + r * (int_sum(b) - int_sum(a))) % (
        modulus() as int),
    decreases a.len(),
{
    let m = modulus() as int;
    if a.len() == 0 {
        assert(combine_seq(a, b, r) =~= Seq::<nat>::empty());
        assert(f_sum(combine_seq(a, b, r)) == 0);
        assert(int_sum(a) == 0 && int_sum(b) == 0);
        assert((int_sum(a) + r * (int_sum(b) - int_sum(a))) % m == 0) by {
            assert(r * (0int - 0int) == 0) by (nonlinear_arith);
        }
    } else {
        let a1 = a.drop_last();
        let b1 = b.drop_last();
        let c = combine_seq(a, b, r);
        assert(c.drop_last() =~= combine_seq(a1, b1, r));
        lemma_f_sum_combine_seq(a1, b1, r);
        let x = int_sum(a1) + r * (int_sum(b1) - int_sum(a1));
        let y = a.last() + r * (b.last() as int - a.last() as int);
        lemma_fe_combine_int(a.last(), b.last(), r);
        assert(c.last() == y % m);
        assert(f_sum(c) as int == ((f_sum(c.drop_last()) + c.last()) as int) % m);
        lemma_add_mod_noop(x, y, m);
        lemma_mul_is_distributive_add(
            r as int,
            int_sum(b1) - int_sum(a1),
            b.last() as int - a.last() as int,
        );
        assert(x + y == int_sum(a) + r * (int_sum(b) - int_sum(a)));
        assert(f_sum(c) as int == (x % m + y % m) % m);
        assert((x % m + y % m) % m == (x + y) % m);
        assert(f_sum(c) as int == (int_sum(a) + r * (int_sum(b) - int_sum(a))) % m);
    }
}

/// Summing the combined vector equals combining the halves' field sums: the
/// algebraic heart of one sum-check round.
pub proof fn lemma_f_sum_fix_first(e: Seq<nat>, r: nat)
    requires
        e.len() % 2 == 0,
    ensures
        f_sum(fix_first(e, r)) == fe_combine(
            f_sum(e.take(e.len() as int / 2)),
            f_sum(e.skip(e.len() as int / 2)),
            r,
        ),
{
    let m = modulus() as int;
    let h = e.len() as int / 2;
    let a = e.take(h);
    let b = e.skip(h);
    let sa = int_sum(a);
    let sb = int_sum(b);
    lemma_f_sum_combine_seq(a, b, r);
    lemma_f_sum_is_int_sum(a);
    lemma_f_sum_is_int_sum(b);
    lemma_fe_combine_int(f_sum(a), f_sum(b), r);
    // Both sides reduce to (sa + r * (sb - sa)) % m.
    lemma_sub_mod_noop(sb, sa, m);
    assert((sb % m - sa % m) % m == (sb - sa) % m);
    lemma_mul_mod_noop_right(r as int, sb % m - sa % m, m);
    lemma_mul_mod_noop_right(r as int, sb - sa, m);
    assert((r * (sb % m - sa % m)) % m == (r * (sb - sa)) % m);
    lemma_add_mod_noop_right(sa % m, r * (sb % m - sa % m), m);
    lemma_add_mod_noop_right(sa % m, r * (sb - sa), m);
    assert((sa % m + r * (sb % m - sa % m)) % m == (sa % m + (r * (sb - sa)) % m) % m);
    lemma_add_mod_noop(sa, r * (sb - sa), m);
    lemma_add_mod_noop_right(sa, r * (sb - sa), m);
    assert((sa % m + (r * (sb - sa)) % m) % m == (sa + r * (sb - sa)) % m);
}

/// Copies the elements of `e` with indices in `start .. end`.
pub fn sub_vec(e: &Vec<Fe>, start: usize, end: usize) -> (r: Vec<Fe>)
    requires
        start <= end <= e@.len(),
    ensures
        r@ == e@.subrange(start as int, end as int),
{
    let mut r: Vec<Fe> = Vec::new();
    let mut i: usize = start;
    while i < end
        invariant
            start <= i <= end <= e@.len(),
            r@ == e@.subrange(start as int, i as int),
        decreases end - i,
    {
        r.push(e[i]);
        proof {
            assert(e@.subrange(start as int, i + 1) =~= e@.subrange(start as int, i as int).push(
                e@[i as int],
            ));
        }
        i += 1;
    }
    r
}

/// Fixes the variable with the given index in an evaluation vector.
fn partial_eval_vec(e: &Vec<Fe>, index: usize, value: Fe) -> (r: Vec<Fe>)
    requires
        e@.len() > 0,
        e@.len() % pow2(index as nat + 1) == 0,
    ensures
        fe_vals(r@) == partial_eval_seq(fe_vals(e@), index as nat, value@),
        r@.len() == e@.len() / 2,
    decreases index,
{
    let half = e.len() / 2;
    proof {
        vstd::arithmetic::power2::lemma_pow2_pos(index as nat + 1);
        vstd::arithmetic::power2::lemma_pow2_pos(index as nat);
        lemma_pow2_unfold(index as nat + 1);
        assert(pow2(1) == 2) by {
            lemma2_to64();
        }
        // The length is even, so the two halves are exact.
        let len = e@.len() as int;
        let p2 = pow2(index as nat + 1) as int;
        vstd::arithmetic::div_mod::lemma_fundamental_div_mod(len, p2);
        assert(len == p2 * (len / p2));
        let s = pow2(index as nat) as int;
        let q = len / p2;
        assert(len == (s * q) * 2) by (nonlinear_arith)
            requires
                len == p2 * q,
                p2 == 2 * s,
        ;
        lemma_mod_multiples_basic(s * q, 2);
        vstd::arithmetic::div_mod::lemma_fundamental_div_mod(len, 2);
        assert(len == 2 * half);
    }
    if index == 0 {
        let mut r: Vec<Fe> = Vec::new();
        let mut j: usize = 0;
        while j < half
            invariant
                j <= half,
                e@.len() == 2 * half,
                e@.len() <= usize::MAX,
                fe_vals(r@) == combine_seq(
                    fe_vals(e@).take(half as int),
                    fe_vals(e@).skip(half as int),
                    value@,
                ).take(j as int),
            decreases half - j,
        {
            let x = e[j];
            let y = e[j + half];
            r.push(x.add(value.mul(y.sub(x))));
            proof {
                let full = combine_seq(
                    fe_vals(e@).take(half as int),
                    fe_vals(e@).skip(half as int),
                    value@,
                );
                assert(full.take(j + 1) =~= full.take(j as int).push(full[j as int]));
                assert(fe_vals(r@) =~= full.take(j as int).push(
                    fe_combine(x@, y@, value@),
                ));
            }
            j += 1;
        }
        proof {
            let full = combine_seq(
                fe_vals(e@).take(half as int),
                fe_vals(e@).skip(half as int),
                value@,
            );
            assert(full.take(half as int) =~= full);
            assert(fix_first(fe_vals(e@), value@) == full);
        }
        r
    } else {
        let lo = sub_vec(e, 0, half);
        let hi = sub_vec(e, half, e.len());
        proof {
            // e.len() = q * 2^(index+1), so each half is q * 2^index.
            let p = pow2(index as nat) as int;
            let len = e@.len() as int;
            let q = len / (2 * p);
            vstd::arithmetic::div_mod::lemma_fundamental_div_mod(len, 2 * p);
            assert(len == q * (2 * p));
            assert(len == 2 * (p * q)) by (nonlinear_arith)
                requires
                    len == q * (2 * p),
            ;
            lemma_div_multiples_vanish(p * q, 2);
            assert(len / 2 == p * q);
            lemma_mod_multiples_basic(q, p);
            assert((p * q) % p == 0) by (nonlinear_arith)
                requires
                    (q * p) % p == 0,
            ;
            // The half length is itself even, so the two recursive halves
            // are exact.
            lemma_pow2_unfold(index as nat);
            let s1 = pow2((index - 1) as nat) as int;
            assert(half as int == 2 * (s1 * q)) by (nonlinear_arith)
                requires
                    half as int == p * q,
                    p == 2 * s1,
            ;
            lemma_div_multiples_vanish(s1 * q, 2);
            assert(half as int / 2 == s1 * q);
            assert(lo@.len() % pow2((index - 1) as nat + 1) == 0);
            assert(hi@.len() == e@.len() - half);
            assert(hi@.len() % pow2((index - 1) as nat + 1) == 0);
            assert(lo@.len() > 0);
        }
        let mut left = partial_eval_vec(&lo, index - 1, value);
        let mut right = partial_eval_vec(&hi, index - 1, value);
        let ghost left_vals = fe_vals(left@);
        let ghost right_vals = fe_vals(right@);
        left.append(&mut right);
        proof {
            assert(fe_vals(left@) =~= left_vals + right_vals);
            assert(fe_vals(lo@) =~= fe_vals(e@).take(half as int));
            assert(fe_vals(hi@) =~= fe_vals(e@).skip(half as int));
            assert(fe_vals(e@).len() == e@.len());
        }
        left
    }
}

/// A multilinear polynomial over `num_of_vars` boolean variables, given by
/// its `2^num_of_vars` evaluations over the hypercube.
pub struct MultilinearPoly {
    pub evaluation: Vec<Fe>,
    pub num_of_vars: usize,
}

impl MultilinearPoly {
    /// The evaluation vector's length matches the variable count.
    pub open spec fn wf(&self) -> bool {
        self.evaluation@.len() == pow2(self.num_of_vars as nat)
    }

    /// The polynomial's values over the hypercube.
    pub open spec fn vals(&self) -> Seq<nat> {
        fe_vals(self.evaluation@)
    }

    /// Builds a polynomial from an evaluation vector whose length is a power
    /// of two.
    pub fn new(evaluation: Vec<Fe>) -> (r: MultilinearPoly)
        requires
            exists|n: nat| evaluation@.len() == #[trigger] pow2(n),
        ensures
            r.wf(),
            r.evaluation == evaluation,
    {
        let mut m = evaluation.len();
        let mut num_of_vars: usize = 0;
        proof {
            let n0 = choose|n: nat| evaluation@.len() == #[trigger] pow2(n);
            assert(m == pow2(n0) && evaluation@.len() == pow2(n0 + num_of_vars as nat));
        }
        while m > 1
            invariant
                evaluation@.len() <= usize::MAX,
                exists|j: nat|
                    m == #[trigger] pow2(j) && evaluation@.len() == pow2(j + num_of_vars as nat),
            decreases m,
        {
            proof {
                let j = choose|j: nat|
                    m == #[trigger] pow2(j) && evaluation@.len() == pow2(j + num_of_vars as nat);
                assert(j > 0) by {
                    if j == 0 {
                        assert(pow2(0) == 1) by {
                            lemma2_to64();
                        }
                    }
                }
                lemma_pow2_unfold(j);
                assert(m / 2 == pow2((j - 1) as nat)) by {
                    lemma_div_multiples_vanish(pow2((j - 1) as nat) as int, 2);
                }
                assert(num_of_vars < 64) by {
                    lemma_pow2_adds((j - 1) as nat, 1 + num_of_vars as nat);
                    assert((j - 1) as nat + (1 + num_of_vars as nat) == j + num_of_vars as nat);
                    if num_of_vars as nat + 1 >= 64 {
                        if num_of_vars as nat + 1 > 64 {
                            lemma_pow2_strictly_increases(64, num_of_vars as nat + 1);
                        }
                        lemma2_to64();
                        assert(pow2(1 + num_of_vars as nat) >= 0x10000000000000000);
                        vstd::arithmetic::power2::lemma_pow2_pos((j - 1) as nat);
                        vstd::arithmetic::power2::lemma_pow2_pos(1 + num_of_vars as nat);
                        vstd::arithmetic::mul::lemma_mul_increases(
                            pow2((j - 1) as nat) as int,
                            pow2(1 + num_of_vars as nat) as int,
                        );
                        assert(evaluation@.len() >= 0x10000000000000000);
                        assert(usize::MAX < 0x10000000000000000);
                    }
                }
                assert((j - 1) as nat + (num_of_vars + 1) as nat == j + num_of_vars as nat);
            }
            m = m / 2;
            num_of_vars = num_of_vars + 1;
        }
        proof {
            let j = choose|j: nat|
                m == #[trigger] pow2(j) && evaluation@.len() == pow2(j + num_of_vars as nat);
            assert(j == 0) by {
                if j > 0 {
                    lemma_pow2_strictly_increases(0, j);
                    lemma2_to64();
                }
            }
        }
        MultilinearPoly { evaluation, num_of_vars }
    }

    /// Fixes the variable with the given index to `value`, leaving a
    /// polynomial over one variable fewer.
    pub fn partial_evaluate(&self, index: usize, value: &Fe) -> (r: MultilinearPoly)
        requires
            self.wf(),
            index < self.num_of_vars,
        ensures
            r.wf(),
            r.num_of_vars == self.num_of_vars - 1,
            r.vals() == partial_eval_seq(self.vals(), index as nat, value@),
            r.evaluation@.len() == self.evaluation@.len() / 2,
    {
        proof {
            let n = self.num_of_vars as nat;
            let k = index as nat;
            vstd::arithmetic::power2::lemma_pow2_pos(k + 1);
            vstd::arithmetic::power2::lemma_pow2_pos((n - k - 1) as nat);
            lemma_pow2_adds(k + 1, (n - k - 1) as nat);
            lemma_mod_multiples_basic(pow2((n - k - 1) as nat) as int, pow2(k + 1) as int);
            assert(pow2(k + 1) * pow2((n - k - 1) as nat) == pow2((n - k - 1) as nat) * pow2(
                k + 1,
            )) by (nonlinear_arith);
            vstd::arithmetic::power2::lemma_pow2_pos(n);
            lemma_pow2_unfold(n);
            lemma_div_multiples_vanish(pow2((n - 1) as nat) as int, 2);
        }
        let evaluation = partial_eval_vec(&self.evaluation, index, *value);
        MultilinearPoly { evaluation, num_of_vars: self.num_of_vars - 1 }
    }

    /// Evaluates the multilinear extension at an arbitrary point, one
    /// coordinate per variable.
    pub fn evaluate(&self, points: Vec<Fe>) -> (r: Fe)
        requires
            self.wf(),
            points@.len() == self.num_of_vars,
        ensures
            r@ == mle_eval(self.vals(), fe_vals(points@)),
    {
        let n = self.num_of_vars;
        let mut current = sub_vec(&self.evaluation, 0, self.evaluation.len());
        proof {
            assert(current@ =~= self.evaluation@);
            assert(fe_vals(points@).skip(0) =~= fe_vals(points@));
        }
        let mut i: usize = 0;
        while i < n
            invariant
                i <= n,
                n == self.num_of_vars,
                points@.len() == n,
                self.wf(),
                current@.len() == pow2((n - i) as nat),
                mle_eval(self.vals(), fe_vals(points@)) == mle_eval(
                    fe_vals(current@),
                    fe_vals(points@).skip(i as int),
                ),
            decreases n - i,
        {
            proof {
                lemma_pow2_unfold((n - i) as nat);
                lemma_mod_multiples_basic(pow2((n - i - 1) as nat) as int, 2);
                assert(2 * pow2((n - i - 1) as nat) == pow2((n - i - 1) as nat) * 2)
                    by (nonlinear_arith);
                vstd::arithmetic::power2::lemma_pow2_pos((n - i) as nat);
                assert(pow2(0 + 1) == 2) by {
                    lemma2_to64();
                }
                lemma_div_multiples_vanish(pow2((n - i - 1) as nat) as int, 2);
            }
            let next = partial_eval_vec(&current, 0, points[i]);
            proof {
                let pts = fe_vals(points@);
                assert(pts.skip(i as int)[0] == pts[i as int]);
                assert(pts.skip(i as int).drop_first() =~= pts.skip(i + 1));
                assert(mle_eval(fe_vals(current@), pts.skip(i as int)) == mle_eval(
                    fix_first(fe_vals(current@), pts[i as int]),
                    pts.skip(i + 1),
                ));
            }
            current = next;
            i += 1;
        }
        proof {
            assert(current@.len() == pow2(0));
            lemma2_to64();
            assert(fe_vals(points@).skip(n as int) =~= Seq::<nat>::empty());
            broadcast use lemma_fe_bound;

            lemma_small_mod(current@[0]@, modulus());
        }
        current[0]
    }
}

} // verus!
