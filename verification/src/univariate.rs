//! Dense univariate polynomials over the field: evaluation by Horner's rule
//! and Lagrange interpolation through given points.

use vstd::prelude::*;
use crate::field::{Fe, FIELD_MODULUS, f_add, f_mul, f_sub, fe_vals, modulus};
use vstd::arithmetic::div_mod::{
    lemma_mul_mod_noop_left, lemma_mul_mod_noop_right, lemma_small_mod,
};
use vstd::arithmetic::mul::lemma_mul_is_associative;

verus! {

/// Exponentiation in the field, square-and-multiply shaped.
pub open spec fn f_pow(a: nat, e: nat) -> nat
    decreases e,
{
    if e == 0 {
        1
    } else if e % 2 == 1 {
        f_mul(a, f_pow(f_mul(a, a), e / 2))
    } else {
        f_pow(f_mul(a, a), e / 2)
    }
}

/// The multiplicative inverse of a nonzero element, by Fermat's little
/// theorem.
pub open spec fn f_inv(a: nat) -> nat {
    f_pow(a, (FIELD_MODULUS - 2) as nat)
}

/// A power stays below the modulus.
pub proof fn lemma_f_pow_bound(a: nat, e: nat)
    ensures
        f_pow(a, e) < modulus(),
    decreases e,
{
    if e == 0 {
    } else if e % 2 == 1 {
        lemma_f_pow_bound(f_mul(a, a), e / 2);
    } else {
        lemma_f_pow_bound(f_mul(a, a), e / 2);
    }
}

/// Field multiplication is associative.
pub proof fn lemma_f_mul_assoc(a: nat, b: nat, c: nat)
    ensures
        f_mul(f_mul(a, b), c) == f_mul(a, f_mul(b, c)),
{
    let m = modulus() as int;
    lemma_mul_mod_noop_left(a as int * b as int, c as int, m);
    lemma_mul_mod_noop_right(a as int, b as int * c as int, m);
    lemma_mul_is_associative(a as int, b as int, c as int);
}

/// The value of the polynomial with the given coefficients (constant term
/// first) at `x`.
pub open spec fn poly_eval(c: Seq<nat>, x: nat) -> nat
    decreases c.len(),
{
    if c.len() == 0 {
        0
    } else {
        f_add(c[0], f_mul(x, poly_eval(c.drop_first(), x)))
    }
}

/// The coefficient at `i`, or zero past the end.
pub open spec fn coeff_at(s: Seq<nat>, i: int) -> nat {
    if 0 <= i < s.len() {
        s[i]
    } else {
        0
    }
}

/// Coefficientwise sum of two polynomials.
pub open spec fn poly_add_spec(a: Seq<nat>, b: Seq<nat>) -> Seq<nat> {
    Seq::new(if a.len() >= b.len() { a.len() } else { b.len() },
        |i: int| f_add(coeff_at(a, i), coeff_at(b, i)))
}

/// A polynomial scaled by a constant.
pub open spec fn poly_scale_spec(c: Seq<nat>, k: nat) -> Seq<nat> {
    Seq::new(c.len(), |i: int| f_mul(k, c[i]))
}

/// A polynomial multiplied by the linear factor `x - root`.
pub open spec fn poly_mul_linear_spec(c: Seq<nat>, root: nat) -> Seq<nat> {
    Seq::new(c.len() + 1, |i: int| f_sub(coeff_at(c, i - 1), f_mul(root, coeff_at(c, i))))
}

/// The Lagrange basis numerator for point `i`, after the first `j` other
/// points' linear factors have been multiplied in.
pub open spec fn basis_upto(xs: Seq<nat>, i: int, j: int) -> Seq<nat>
    decreases j,
{
    if j <= 0 {
        seq![1nat]
    } else if j - 1 == i {
        basis_upto(xs, i, j - 1)
    } else {
        poly_mul_linear_spec(basis_upto(xs, i, j - 1), xs[j - 1])
    }
}

/// The Lagrange basis denominator for point `i`, over the first `j` points.
pub open spec fn denom_upto(xs: Seq<nat>, i: int, j: int) -> nat
    decreases j,
{
    if j <= 0 {
        1
    } else if j - 1 == i {
        denom_upto(xs, i, j - 1)
    } else {
        f_mul(denom_upto(xs, i, j - 1), f_sub(xs[i], xs[j - 1]))
    }
}

/// The scaled Lagrange term for point `i`.
pub open spec fn lagrange_term(xs: Seq<nat>, ys: Seq<nat>, i: int) -> Seq<nat> {
    poly_scale_spec(
        basis_upto(xs, i, xs.len() as int),
        f_mul(ys[i], f_inv(denom_upto(xs, i, xs.len() as int))),
    )
}

/// The interpolated polynomial over the first `k` points.
pub open spec fn interp_upto(xs: Seq<nat>, ys: Seq<nat>, k: int) -> Seq<nat>
    decreases k,
{
    if k <= 0 {
        Seq::empty()
    } else {
        poly_add_spec(interp_upto(xs, ys, k - 1), lagrange_term(xs, ys, k - 1))
    }
}

/// The Lagrange interpolation of the given points, as a coefficient vector.
pub open spec fn interpolate_spec(xs: Seq<nat>, ys: Seq<nat>) -> Seq<nat> {
    interp_upto(xs, ys, xs.len() as int)
}

/// The x coordinates of a point list.
pub open spec fn xs_of(s: Seq<(Fe, Fe)>) -> Seq<nat> {
    Seq::new(s.len(), |i: int| s[i].0@)
}

/// The y coordinates of a point list.
pub open spec fn ys_of(s: Seq<(Fe, Fe)>) -> Seq<nat> {
    Seq::new(s.len(), |i: int| s[i].1@)
}

/// Field exponentiation by squaring.
pub fn fe_pow(a: Fe, e: u64) -> (r: Fe)
    ensures
        r@ == f_pow(a@, e as nat),
{
    let mut result = Fe::one();
    let mut base = a;
    let mut exp = e;
    proof {
        lemma_f_pow_bound(a@, e as nat);
        lemma_small_mod(f_pow(a@, e as nat), modulus());
    }
    while exp > 0
        invariant
            f_mul(result@, f_pow(base@, exp as nat)) == f_pow(a@, e as nat),
        decreases exp,
    {
        let ghost pre_r = result@;
        let ghost pre_b = base@;
        let ghost pre_e = exp as nat;
        if exp % 2 == 1 {
            result = result.mul(base);
        }
        base = base.mul(base);
        exp = exp / 2;
        proof {
            if pre_e % 2 == 1 {
                assert(f_pow(pre_b, pre_e) == f_mul(pre_b, f_pow(f_mul(pre_b, pre_b), pre_e
                    / 2)));
                lemma_f_mul_assoc(pre_r, pre_b, f_pow(f_mul(pre_b, pre_b), pre_e / 2));
            } else {
                assert(f_pow(pre_b, pre_e) == f_pow(f_mul(pre_b, pre_b), pre_e / 2));
            }
        }
    }
    proof {
        assert(f_pow(base@, 0) == 1);
        lemma_f_pow_bound(base@, 0);
        vstd::arithmetic::mul::lemma_mul_basics(result@ as int);
        crate::field::lemma_fe_bound(result);
        lemma_small_mod(result@, modulus());
        assert(f_mul(result@, 1) == result@);
    }
    result
}

/// The multiplicative inverse, by Fermat's little theorem.
pub fn fe_inv(a: Fe) -> (r: Fe)
    ensures
        r@ == f_inv(a@),
{
    fe_pow(a, FIELD_MODULUS - 2)
}

/// Coefficientwise sum.
fn poly_add(a: &Vec<Fe>, b: &Vec<Fe>) -> (r: Vec<Fe>)
    ensures
        fe_vals(r@) == poly_add_spec(fe_vals(a@), fe_vals(b@)),
{
    let len = if a.len() >= b.len() {
        a.len()
    } else {
        b.len()
    };
    let mut r: Vec<Fe> = Vec::new();
    let mut i: usize = 0;
    while i < len
        invariant
            i <= len,
            len == if a@.len() >= b@.len() {
                a@.len()
            } else {
                b@.len()
            },
            fe_vals(r@) == poly_add_spec(fe_vals(a@), fe_vals(b@)).take(i as int),
        decreases len - i,
    {
        let va = if i < a.len() {
            a[i]
        } else {
            Fe::zero()
        };
        let vb = if i < b.len() {
            b[i]
        } else {
            Fe::zero()
        };
        r.push(va.add(vb));
        proof {
            let full = poly_add_spec(fe_vals(a@), fe_vals(b@));
            assert(full.take(i + 1) =~= full.take(i as int).push(full[i as int]));
            assert(fe_vals(r@) =~= full.take(i as int).push(f_add(va@, vb@)));
        }
        i += 1;
    }
    proof {
        let full = poly_add_spec(fe_vals(a@), fe_vals(b@));
        assert(full.take(len as int) =~= full);
    }
    r
}

/// A polynomial scaled by a constant.
fn poly_scale(c: &Vec<Fe>, k: Fe) -> (r: Vec<Fe>)
    ensures
        fe_vals(r@) == poly_scale_spec(fe_vals(c@), k@),
{
    let mut r: Vec<Fe> = Vec::new();
    let mut i: usize = 0;
    while i < c.len()
        invariant
            i <= c@.len(),
            fe_vals(r@) == poly_scale_spec(fe_vals(c@), k@).take(i as int),
        decreases c@.len() - i,
    {
        r.push(k.mul(c[i]));
        proof {
            let full = poly_scale_spec(fe_vals(c@), k@);
            assert(full.take(i + 1) =~= full.take(i as int).push(full[i as int]));
            assert(fe_vals(r@) =~= full.take(i as int).push(f_mul(k@, c@[i as int]@)));
        }
        i += 1;
    }
    proof {
        let full = poly_scale_spec(fe_vals(c@), k@);
        assert(full.take(c@.len() as int) =~= full);
    }
    r
}

/// A polynomial multiplied by the linear factor `x - root`.
fn poly_mul_linear(c: &Vec<Fe>, root: Fe) -> (r: Vec<Fe>)
    ensures
        fe_vals(r@) == poly_mul_linear_spec(fe_vals(c@), root@),
{
    let mut r: Vec<Fe> = Vec::new();
    let mut i: usize = 0;
    while i < c.len()
        invariant
            i <= c@.len(),
            fe_vals(r@) == poly_mul_linear_spec(fe_vals(c@), root@).take(i as int),
        decreases c@.len() - i,
    {
        let prev = if i >= 1 {
            c[i - 1]
        } else {
            Fe::zero()
        };
        let curr = c[i];
        r.push(prev.sub(root.mul(curr)));
        proof {
            let full = poly_mul_linear_spec(fe_vals(c@), root@);
            assert(full.take(i + 1) =~= full.take(i as int).push(full[i as int]));
            assert(coeff_at(fe_vals(c@), i as int - 1) == prev@);
            assert(coeff_at(fe_vals(c@), i as int) == curr@);
            assert(fe_vals(r@) =~= full.take(i as int).push(
                f_sub(prev@, f_mul(root@, curr@)),
            ));
        }
        i += 1;
    }
    // The leading coefficient, one past the input's end.
    let last = if c.len() >= 1 {
        c[c.len() - 1]
    } else {
        Fe::zero()
    };
    r.push(last.sub(root.mul(Fe::zero())));
    proof {
        let full = poly_mul_linear_spec(fe_vals(c@), root@);
        assert(coeff_at(fe_vals(c@), c@.len() as int - 1) == last@);
        assert(coeff_at(fe_vals(c@), c@.len() as int) == 0);
        assert(fe_vals(r@) =~= full.take(c@.len() as int).push(full[c@.len() as int]));
        assert(full.take(c@.len() as int).push(full[c@.len() as int]) =~= full);
    }
    r
}

/// A dense univariate polynomial, constant coefficient first.
pub struct UnivariatePoly {
    pub coefficient: Vec<Fe>,
}

impl UnivariatePoly {
    /// The polynomial's value at `x`, by Horner's rule.
    pub fn evaluate(&self, x: Fe) -> (r: Fe)
        ensures
            r@ == poly_eval(fe_vals(self.coefficient@), x@),
    {
        let mut acc = Fe::zero();
        let mut i: usize = self.coefficient.len();
        proof {
            assert(fe_vals(self.coefficient@).skip(i as int) =~= Seq::<nat>::empty());
        }
        while i > 0
            invariant
                i <= self.coefficient@.len(),
                acc@ == poly_eval(fe_vals(self.coefficient@).skip(i as int), x@),
            decreases i,
        {
            i -= 1;
            let next = self.coefficient[i].add(x.mul(acc));
            proof {
                let cv = fe_vals(self.coefficient@);
                assert(cv.skip(i as int)[0] == cv[i as int]);
                assert(cv.skip(i as int).drop_first() =~= cv.skip(i + 1));
                assert(poly_eval(cv.skip(i as int), x@) == f_add(cv[i as int], f_mul(x@,
                    poly_eval(cv.skip(i + 1), x@))));
            }
            acc = next;
        }
        proof {
            assert(fe_vals(self.coefficient@).skip(0) =~= fe_vals(self.coefficient@));
        }
        acc
    }

    /// Lagrange interpolation: the dense coefficient vector of the
    /// polynomial built from the points' scaled basis terms.
    pub fn interpolate(points: Vec<(Fe, Fe)>) -> (r: UnivariatePoly)
        ensures
            fe_vals(r.coefficient@) == interpolate_spec(xs_of(points@), ys_of(points@)),
    {
        let ghost xs = xs_of(points@);
        let ghost ys = ys_of(points@);
        let mut result: Vec<Fe> = Vec::new();
        let mut i: usize = 0;
        proof {
            assert(fe_vals(result@) =~= Seq::<nat>::empty());
            assert(interp_upto(xs, ys, 0) =~= Seq::<nat>::empty());
        }
        while i < points.len()
            invariant
                i <= points@.len(),
                xs == xs_of(points@),
                ys == ys_of(points@),
                fe_vals(result@) == interp_upto(xs, ys, i as int),
            decreases points@.len() - i,
        {
            let mut basis: Vec<Fe> = vec![Fe::one()];
            let mut denom = Fe::one();
            proof {
                assert(fe_vals(basis@) =~= basis_upto(xs, i as int, 0));
            }
            let mut j: usize = 0;
            while j < points.len()
                invariant
                    j <= points@.len(),
                    i < points@.len(),
                    xs == xs_of(points@),
                    fe_vals(basis@) == basis_upto(xs, i as int, j as int),
                    denom@ == denom_upto(xs, i as int, j as int),
                decreases points@.len() - j,
            {
                if j != i {
                    basis = poly_mul_linear(&basis, points[j].0);
                    denom = denom.mul(points[i].0.sub(points[j].0));
                }
                j += 1;
            }
            let scale = points[i].1.mul(fe_inv(denom));
            let term = poly_scale(&basis, scale);
            let next = poly_add(&result, &term);
            proof {
                assert(fe_vals(term@) == lagrange_term(xs, ys, i as int));
                assert(fe_vals(next@) == interp_upto(xs, ys, i + 1));
            }
            result = next;
            i += 1;
        }
        UnivariatePoly { coefficient: result }
    }
}

} // verus!
