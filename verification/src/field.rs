//! The prime field the protocol works over, and sums of field elements.
//!
//! A field element is held as a canonical representative below the modulus;
//! contracts speak of its value as a natural number, and the spec-level
//! operations `f_add`, `f_sub`, `f_mul` are plain modular arithmetic.

use vstd::prelude::*;

verus! {

/// The field modulus: the Mersenne prime 2^61 - 1.
pub const FIELD_MODULUS: u64 = 2305843009213693951;

/// The modulus as a spec-level natural number.
pub open spec fn modulus() -> nat {
    FIELD_MODULUS as nat
}

/// Addition in the field.
pub open spec fn f_add(a: nat, b: nat) -> nat {
    (a + b) % modulus()
}

/// Subtraction in the field (Euclidean remainder, so the result is
/// non-negative even when `b` exceeds `a`).
pub open spec fn f_sub(a: nat, b: nat) -> nat {
    (((a as int) - (b as int)) % (modulus() as int)) as nat
}

/// Multiplication in the field.
pub open spec fn f_mul(a: nat, b: nat) -> nat {
    (a * b) % modulus()
}

/// An element of the prime field, kept as its canonical representative.
#[derive(Clone, Copy, PartialEq, Eq, Structural, Debug)]
pub struct Fe {
    v: u64,
}

impl View for Fe {
    type V = nat;

    closed spec fn view(&self) -> nat {
        (self.v % FIELD_MODULUS) as nat
    }
}

/// The value of a field element is always below the modulus.
pub broadcast proof fn lemma_fe_bound(x: Fe)
    ensures
        #[trigger] x@ < modulus(),
{
}

impl Fe {
    /// The field element with the given residue.
    pub fn new(v: u64) -> (r: Fe)
        ensures
            r@ == v as nat % modulus(),
    {
        let r = Fe { v: v % FIELD_MODULUS };
        proof {
            vstd::arithmetic::div_mod::lemma_mod_twice(v as int, FIELD_MODULUS as int);
        }
        r
    }

    /// The additive identity.
    pub fn zero() -> (r: Fe)
        ensures
            r@ == 0,
    {
        Fe { v: 0 }
    }

    /// The multiplicative identity.
    pub fn one() -> (r: Fe)
        ensures
            r@ == 1,
    {
        Fe { v: 1 }
    }

    /// The canonical representative of the element.
    pub fn to_u64(self) -> (r: u64)
        ensures
            r as nat == self@,
    {
        self.v % FIELD_MODULUS
    }

    /// Field addition.
    pub fn add(self, other: Fe) -> (r: Fe)
        ensures
            r@ == f_add(self@, other@),
    {
        let a = self.v % FIELD_MODULUS;
        let b = other.v % FIELD_MODULUS;
        let r = Fe { v: (a + b) % FIELD_MODULUS };
        proof {
            vstd::arithmetic::div_mod::lemma_mod_twice((a + b) as int, FIELD_MODULUS as int);
        }
        r
    }

    /// Field subtraction.
    pub fn sub(self, other: Fe) -> (r: Fe)
        ensures
            r@ == f_sub(self@, other@),
    {
        let a = self.v % FIELD_MODULUS;
        let b = other.v % FIELD_MODULUS;
        let r = Fe { v: (a + FIELD_MODULUS - b) % FIELD_MODULUS };
        proof {
            vstd::arithmetic::div_mod::lemma_mod_twice(
                (a + FIELD_MODULUS - b) as int,
                FIELD_MODULUS as int,
            );
            vstd::arithmetic::div_mod::lemma_mod_add_multiples_vanish(
                a - b,
                FIELD_MODULUS as int,
            );
        }
        r
    }

    /// Field multiplication.
    pub fn mul(self, other: Fe) -> (r: Fe)
        ensures
            r@ == f_mul(self@, other@),
    {
        let a = (self.v % FIELD_MODULUS) as u128;
        let b = (other.v % FIELD_MODULUS) as u128;
        let m = FIELD_MODULUS as u128;
        proof {
            vstd::arithmetic::mul::lemma_mul_upper_bound(
                a as int,
                FIELD_MODULUS as int - 1,
                b as int,
                FIELD_MODULUS as int - 1,
            );
        }
        let p = (a * b) % m;
        let r = Fe { v: p as u64 };
        proof {
            vstd::arithmetic::div_mod::lemma_mod_twice((a * b) as int, FIELD_MODULUS as int);
        }
        r
    }

    /// Field equality, stated over the elements' values.
    pub fn eq_fe(self, other: Fe) -> (r: bool)
        ensures
            r == (self@ == other@),
    {
        self.v % FIELD_MODULUS == other.v % FIELD_MODULUS
    }
}

/// The values of a sequence of field elements.
pub open spec fn fe_vals(s: Seq<Fe>) -> Seq<nat> {
    Seq::new(s.len(), |i: int| s[i]@)
}

/// The field sum of a sequence of values, folded left to right.
pub open spec fn f_sum(s: Seq<nat>) -> nat
    decreases s.len(),
{
    if s.len() == 0 {
        0
    } else {
        f_add(f_sum(s.drop_last()), s.last())
    }
}

/// The plain integer sum of a sequence of values.
pub open spec fn int_sum(s: Seq<nat>) -> int
    decreases s.len(),
{
    if s.len() == 0 {
        0
    } else {
        int_sum(s.drop_last()) + s.last()
    }
}

/// The field sum is the integer sum reduced by the modulus.
pub proof fn lemma_f_sum_is_int_sum(s: Seq<nat>)
    ensures
        f_sum(s) == int_sum(s) % (modulus() as int),
    decreases s.len(),
{
    if s.len() == 0 {
    } else {
        lemma_f_sum_is_int_sum(s.drop_last());
        vstd::arithmetic::div_mod::lemma_add_mod_noop(
            int_sum(s.drop_last()),
            s.last() as int,
            modulus() as int,
        );
        vstd::arithmetic::div_mod::lemma_mod_twice(s.last() as int, modulus() as int);
        assert((int_sum(s.drop_last()) % (modulus() as int) + (s.last() as int) % (modulus()
            as int)) % (modulus() as int) == int_sum(s) % (modulus() as int));
        assert(f_sum(s) == (f_sum(s.drop_last()) + s.last()) % modulus());
    }
}

/// Integer sums split over concatenation.
pub proof fn lemma_int_sum_concat(a: Seq<nat>, b: Seq<nat>)
    ensures
        int_sum(a + b) == int_sum(a) + int_sum(b),
    decreases b.len(),
{
    if b.len() == 0 {
        assert(a + b =~= a);
    } else {
        lemma_int_sum_concat(a, b.drop_last());
        assert((a + b).drop_last() =~= a + b.drop_last());
        assert((a + b).last() == b.last());
    }
}

/// The field sum of a concatenation is the field sum of the parts' sums.
pub proof fn lemma_f_sum_concat(a: Seq<nat>, b: Seq<nat>)
    ensures
        f_sum(a + b) == f_add(f_sum(a), f_sum(b)),
{
    lemma_f_sum_is_int_sum(a);
    lemma_f_sum_is_int_sum(b);
    lemma_f_sum_is_int_sum(a + b);
    lemma_int_sum_concat(a, b);
    vstd::arithmetic::div_mod::lemma_add_mod_noop(
        int_sum(a),
        int_sum(b),
        modulus() as int,
    );
}

/// Sums an entire vector of field elements.
pub fn sum_fe_vec(v: &Vec<Fe>) -> (r: Fe)
    ensures
        r@ == f_sum(fe_vals(v@)),
{
    let mut acc = Fe::zero();
    let mut i: usize = 0;
    while i < v.len()
        invariant
            i <= v.len(),
            acc@ == f_sum(fe_vals(v@).take(i as int)),
        decreases v.len() - i,
    {
        proof {
            assert(fe_vals(v@).take(i + 1).drop_last() =~= fe_vals(v@).take(i as int));
            assert(fe_vals(v@).take(i + 1).last() == v@[i as int]@);
        }
        acc = acc.add(v[i]);
        i += 1;
    }
    proof {
        assert(fe_vals(v@).take(v@.len() as int) =~= fe_vals(v@));
    }
    acc
}

} // verus!
