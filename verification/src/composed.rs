//! Composed polynomials: a sum of terms, each term a product of multilinear
//! factors over the same variables, as they arise in layered-circuit proofs.

use vstd::prelude::*;
use crate::field::{Fe, f_mul, f_sum, fe_vals};
use crate::multilinear::{MultilinearPoly, fix_first};
use vstd::arithmetic::power2::pow2;

verus! {

/// The field product of a sequence of values, folded left to right.
pub open spec fn f_prod(s: Seq<nat>) -> nat
    decreases s.len(),
{
    if s.len() == 0 {
        1
    } else {
        f_mul(f_prod(s.drop_last()), s.last())
    }
}

/// The largest number of factors in any term: the degree bound of the
/// composed polynomial in each variable.
pub open spec fn max_factors(q: Seq<Seq<Seq<nat>>>) -> nat
    decreases q.len(),
{
    if q.len() == 0 {
        0
    } else {
        let m = max_factors(q.drop_last());
        if q.last().len() > m {
            q.last().len()
        } else {
            m
        }
    }
}

/// Every factor of every term with its leading variable fixed to `r`.
pub open spec fn sp_fix_first(q: Seq<Seq<Seq<nat>>>, r: nat) -> Seq<Seq<Seq<nat>>> {
    Seq::new(q.len(), |t: int| Seq::new(q[t].len(), |f: int| fix_first(q[t][f], r)))
}

/// One term's factors, all read at hypercube point `i`.
pub open spec fn factor_col(fs: Seq<Seq<nat>>, i: int) -> Seq<nat> {
    Seq::new(fs.len(), |f: int| fs[f][i])
}

/// The per-term products at point `i`.
pub open spec fn term_col(q: Seq<Seq<Seq<nat>>>, i: int) -> Seq<nat> {
    Seq::new(q.len(), |t: int| f_prod(factor_col(q[t], i)))
}

/// The combined evaluation vector of the composed polynomial: at each point,
/// the sum over terms of the product of that term's factors.
pub open spec fn reduce_spec(q: Seq<Seq<Seq<nat>>>, len: nat) -> Seq<nat> {
    Seq::new(len, |i: int| f_sum(term_col(q, i)))
}

/// A sum of products of multilinear polynomials, all sharing one variable
/// count.
pub struct SumPoly {
    pub terms: Vec<Vec<MultilinearPoly>>,
}

impl SumPoly {
    /// At least one term, each with at least one factor, all factors
    /// well formed over the same variables.
    pub open spec fn wf(&self) -> bool {
        &&& self.terms@.len() > 0
        &&& forall|t: int| 0 <= t < self.terms@.len() ==> (#[trigger] self.terms@[t]@.len()) > 0
        &&& forall|t: int, f: int|
            0 <= t < self.terms@.len() && 0 <= f < self.terms@[t]@.len() ==> {
                &&& (#[trigger] self.terms@[t]@[f]).wf()
                &&& self.terms@[t]@[f].num_of_vars == self.terms@[0]@[0].num_of_vars
            }
    }

    /// The shared variable count.
    pub open spec fn num_vars_spec(&self) -> nat {
        self.terms@[0]@[0].num_of_vars as nat
    }

    /// The values of every factor of every term.
    pub open spec fn vals(&self) -> Seq<Seq<Seq<nat>>> {
        Seq::new(
            self.terms@.len(),
            |t: int|
                Seq::new(self.terms@[t]@.len(), |f: int| fe_vals(self.terms@[t]@[f].evaluation@)),
        )
    }

    /// The shared variable count.
    pub fn num_of_vars(&self) -> (r: usize)
        requires
            self.wf(),
        ensures
            r as nat == self.num_vars_spec(),
    {
        self.terms[0][0].num_of_vars
    }

    /// The degree bound: the largest number of factors in any term.
    pub fn get_degree(&self) -> (r: usize)
        requires
            self.wf(),
        ensures
            r as nat == max_factors(self.vals()),
    {
        let mut d: usize = 0;
        let mut t: usize = 0;
        proof {
            assert(self.vals().take(0) =~= Seq::<Seq<Seq<nat>>>::empty());
        }
        while t < self.terms.len()
            invariant
                t <= self.terms@.len(),
                d as nat == max_factors(self.vals().take(t as int)),
            decreases self.terms@.len() - t,
        {
            proof {
                assert(self.vals().take(t + 1).drop_last() =~= self.vals().take(t as int));
                assert(self.vals().take(t + 1).last() == self.vals()[t as int]);
                assert(self.vals()[t as int].len() == self.terms@[t as int]@.len());
            }
            if self.terms[t].len() > d {
                d = self.terms[t].len();
            }
            t += 1;
        }
        proof {
            assert(self.vals().take(self.terms@.len() as int) =~= self.vals());
        }
        d
    }

    /// Fixes the leading unbound variable of every factor to `value`.
    pub fn partial_evaluate(&self, value: &Fe) -> (r: SumPoly)
        requires
            self.wf(),
            self.num_vars_spec() > 0,
        ensures
            r.wf(),
            r.num_vars_spec() == self.num_vars_spec() - 1,
            r.terms@.len() == self.terms@.len(),
            r.vals() == sp_fix_first(self.vals(), value@),
    {
        let mut new_terms: Vec<Vec<MultilinearPoly>> = Vec::new();
        let mut t: usize = 0;
        while t < self.terms.len()
            invariant
                self.wf(),
                self.num_vars_spec() > 0,
                t <= self.terms@.len(),
                new_terms@.len() == t,
                forall|u: int|
                    0 <= u < t as int ==> (#[trigger] new_terms@[u]@.len())
                        == self.terms@[u]@.len(),
                forall|u: int, f: int|
                    0 <= u < t as int && 0 <= f < new_terms@[u]@.len() ==> {
                        &&& (#[trigger] new_terms@[u]@[f]).wf()
                        &&& new_terms@[u]@[f].num_of_vars == self.terms@[0]@[0].num_of_vars - 1
                        &&& fe_vals(new_terms@[u]@[f].evaluation@) == fix_first(
                            fe_vals(self.terms@[u]@[f].evaluation@),
                            value@,
                        )
                    },
            decreases self.terms@.len() - t,
        {
            let term = &self.terms[t];
            let mut new_factors: Vec<MultilinearPoly> = Vec::new();
            let mut f: usize = 0;
            while f < term.len()
                invariant
                    self.wf(),
                    self.num_vars_spec() > 0,
                    t < self.terms@.len(),
                    term == self.terms@[t as int],
                    f <= term@.len(),
                    new_factors@.len() == f,
                    forall|k: int|
                        0 <= k < f as int ==> {
                            &&& (#[trigger] new_factors@[k]).wf()
                            &&& new_factors@[k].num_of_vars == self.terms@[0]@[0].num_of_vars
                                - 1
                            &&& fe_vals(new_factors@[k].evaluation@) == fix_first(
                                fe_vals(self.terms@[t as int]@[k].evaluation@),
                                value@,
                            )
                        },
                decreases term@.len() - f,
            {
                let next = term[f].partial_evaluate(0, value);
                proof {
                    assert(next.vals() == fix_first(fe_vals(term@[f as int].evaluation@),
                        value@));
                }
                new_factors.push(next);
                f += 1;
            }
            new_terms.push(new_factors);
            t += 1;
        }
        let r = SumPoly { terms: new_terms };
        proof {
            assert(r.vals() =~~= sp_fix_first(self.vals(), value@));
            assert(r.terms@[0]@[0].num_of_vars == self.terms@[0]@[0].num_of_vars - 1);
        }
        r
    }

    /// An independent copy with the same terms and factors.
    pub fn duplicate(&self) -> (r: SumPoly)
        ensures
            r.terms@.len() == self.terms@.len(),
            forall|t: int, f: int|
                0 <= t < r.terms@.len() && 0 <= f < r.terms@[t]@.len() ==> {
                    &&& (#[trigger] r.terms@[t]@[f]).evaluation@ == self.terms@[t]@[f].evaluation@
                    &&& r.terms@[t]@[f].num_of_vars == self.terms@[t]@[f].num_of_vars
                },
            forall|t: int|
                0 <= t < r.terms@.len() ==> (#[trigger] r.terms@[t]@.len())
                    == self.terms@[t]@.len(),
            r.vals() == self.vals(),
    {
        let mut new_terms: Vec<Vec<MultilinearPoly>> = Vec::new();
        let mut t: usize = 0;
        while t < self.terms.len()
            invariant
                t <= self.terms@.len(),
                new_terms@.len() == t,
                forall|u: int|
                    0 <= u < t as int ==> (#[trigger] new_terms@[u]@.len())
                        == self.terms@[u]@.len(),
                forall|u: int, f: int|
                    0 <= u < t as int && 0 <= f < new_terms@[u]@.len() ==> {
                        &&& (#[trigger] new_terms@[u]@[f]).evaluation@
                            == self.terms@[u]@[f].evaluation@
                        &&& new_terms@[u]@[f].num_of_vars == self.terms@[u]@[f].num_of_vars
                    },
            decreases self.terms@.len() - t,
        {
            let term = &self.terms[t];
            let mut new_factors: Vec<MultilinearPoly> = Vec::new();
            let mut f: usize = 0;
            while f < term.len()
                invariant
                    t < self.terms@.len(),
                    term == self.terms@[t as int],
                    f <= term@.len(),
                    new_factors@.len() == f,
                    forall|k: int|
                        0 <= k < f as int ==> {
                            &&& (#[trigger] new_factors@[k]).evaluation@
                                == self.terms@[t as int]@[k].evaluation@
                            &&& new_factors@[k].num_of_vars
                                == self.terms@[t as int]@[k].num_of_vars
                        },
                decreases term@.len() - f,
            {
                let copy = MultilinearPoly {
                    evaluation: crate::multilinear::sub_vec(
                        &term[f].evaluation,
                        0,
                        term[f].evaluation.len(),
                    ),
                    num_of_vars: term[f].num_of_vars,
                };
                proof {
                    assert(copy.evaluation@ =~= term@[f as int].evaluation@);
                }
                new_factors.push(copy);
                f += 1;
            }
            new_terms.push(new_factors);
            t += 1;
        }
        let r = SumPoly { terms: new_terms };
        proof {
            assert(r.vals() =~~= self.vals());
        }
        r
    }

    /// Collapses the composed polynomial into one evaluation vector: at each
    /// hypercube point, the sum over terms of the product of the term's
    /// factors there.
    pub fn reduce(&self) -> (r: Vec<Fe>)
        requires
            self.wf(),
        ensures
            fe_vals(r@) == reduce_spec(self.vals(), pow2(self.num_vars_spec())),
    {
        let len = self.terms[0][0].evaluation.len();
        let mut out: Vec<Fe> = Vec::new();
        let mut idx: usize = 0;
        let ghost full = reduce_spec(self.vals(), pow2(self.num_vars_spec()));
        proof {
            assert(full.len() == len);
        }
        while idx < len
            invariant
                self.wf(),
                len == pow2(self.num_vars_spec()),
                full == reduce_spec(self.vals(), pow2(self.num_vars_spec())),
                idx <= len,
                fe_vals(out@) == full.take(idx as int),
            decreases len - idx,
        {
            let mut acc = Fe::zero();
            let mut t: usize = 0;
            proof {
                assert(term_col(self.vals(), idx as int).take(0) =~= Seq::<nat>::empty());
            }
            while t < self.terms.len()
                invariant
                    self.wf(),
                    len == pow2(self.num_vars_spec()),
                    idx < len,
                    t <= self.terms@.len(),
                    acc@ == f_sum(term_col(self.vals(), idx as int).take(t as int)),
                decreases self.terms@.len() - t,
            {
                let term = &self.terms[t];
                let mut p = Fe::one();
                let mut f: usize = 0;
                proof {
                    assert(factor_col(self.vals()[t as int], idx as int).take(0)
                        =~= Seq::<nat>::empty());
                }
                while f < term.len()
                    invariant
                        self.wf(),
                        len == pow2(self.num_vars_spec()),
                        idx < len,
                        t < self.terms@.len(),
                        term == self.terms@[t as int],
                        f <= term@.len(),
                        p@ == f_prod(factor_col(self.vals()[t as int], idx as int).take(
                            f as int,
                        )),
                    decreases term@.len() - f,
                {
                    proof {
                        let col = factor_col(self.vals()[t as int], idx as int);
                        assert(col.take(f + 1).drop_last() =~= col.take(f as int));
                        assert(col.take(f + 1).last() == fe_vals(
                            term@[f as int].evaluation@,
                        )[idx as int]);
                    }
                    p = p.mul(term[f].evaluation[idx]);
                    f += 1;
                }
                proof {
                    let col = factor_col(self.vals()[t as int], idx as int);
                    assert(col.take(term@.len() as int) =~= col);
                    let tc = term_col(self.vals(), idx as int);
                    assert(tc.take(t + 1).drop_last() =~= tc.take(t as int));
                    assert(tc.take(t + 1).last() == f_prod(col));
                }
                acc = acc.add(p);
                t += 1;
            }
            proof {
                let tc = term_col(self.vals(), idx as int);
                assert(tc.take(self.terms@.len() as int) =~= tc);
                assert(full[idx as int] == f_sum(tc));
                assert(full.take(idx + 1) =~= full.take(idx as int).push(full[idx as int]));
                assert(fe_vals(out@.push(acc)) =~= full.take(idx as int).push(acc@));
            }
            out.push(acc);
            idx += 1;
        }
        proof {
            assert(full.take(len as int) =~= full);
        }
        out
    }
}

} // verus!
