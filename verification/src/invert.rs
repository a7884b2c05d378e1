use vstd::prelude::*;

use crate::canonicalize::Canonicalized;
use crate::ir::{ty_view, Lifetime, Substitution, Ty, TyView};
use crate::var::{LifetimeInferenceVariable, ParameterKind, TyInferenceVariable, UniverseIndex};
use crate::ParameterInferenceVariable;

verus! {

/// The correspondence table of a canonicalized value.
pub type FreeVars = Seq<(ParameterInferenceVariable, UniverseIndex)>;

/// How many of the first `p` canonical positions hold a type variable.
pub open spec fn fv_ty_before(fv: FreeVars, p: int) -> int
    decreases p,
{
    if p <= 0 {
        0
    } else {
        fv_ty_before(fv, p - 1) + (if fv[p - 1].0 is Ty {
            1int
        } else {
            0int
        })
    }
}

/// How many of the first `p` canonical positions hold a lifetime variable.
pub open spec fn fv_lt_before(fv: FreeVars, p: int) -> int
    decreases p,
{
    if p <= 0 {
        0
    } else {
        fv_lt_before(fv, p - 1) + (if fv[p - 1].0 is Lifetime {
            1int
        } else {
            0int
        })
    }
}

pub proof fn lemma_fv_before_bounds(fv: FreeVars, p: int)
    requires
        0 <= p <= fv.len(),
    ensures
        0 <= fv_ty_before(fv, p) <= p,
        0 <= fv_lt_before(fv, p) <= p,
        fv_ty_before(fv, p) + fv_lt_before(fv, p) == p,
    decreases p,
{
    if p > 0 {
        lemma_fv_before_bounds(fv, p - 1);
    }
}

impl<T> Canonicalized<T> {
    /// Builds the substitution that maps each canonical bound-variable
    /// position back to the original free variable it replaced, translating a
    /// solved canonical answer into the caller's variable space. The
    /// correspondence table is an ordered list, so positions are dense by
    /// construction and inversion cannot fail.
    pub fn invert(&self) -> (r: Substitution)
        ensures
            r.tys@.len() == fv_ty_before(self.free_vars@, self.free_vars@.len() as int),
            r.lifetimes@.len() == fv_lt_before(self.free_vars@, self.free_vars@.len() as int),
            forall|j: int|
                0 <= j < r.tys@.len() ==> {
                    let p = (#[trigger] r.tys@[j]).0.index;
                    &&& p < self.free_vars@.len()
                    &&& self.free_vars@[p as int].0 is Ty
                    &&& fv_ty_before(self.free_vars@, p as int) == j
                    &&& ty_view(r.tys@[j].1) == TyView::Var(
                        self.free_vars@[p as int].0->Ty_0.index as int,
                    )
                },
            forall|j: int|
                0 <= j < r.lifetimes@.len() ==> {
                    let p = (#[trigger] r.lifetimes@[j]).0.index;
                    &&& p < self.free_vars@.len()
                    &&& self.free_vars@[p as int].0 is Lifetime
                    &&& fv_lt_before(self.free_vars@, p as int) == j
                    &&& r.lifetimes@[j].1 == Lifetime::Var(
                        self.free_vars@[p as int].0->Lifetime_0.index,
                    )
                },
    {
        let n = self.free_vars.len();
        let mut tys: Vec<(TyInferenceVariable, Ty)> = Vec::new();
        let mut lifetimes: Vec<(LifetimeInferenceVariable, Lifetime)> = Vec::new();
        let mut p: usize = 0;
        while p < n
            invariant
                p <= n,
                n == self.free_vars@.len(),
                tys@.len() == fv_ty_before(self.free_vars@, p as int),
                lifetimes@.len() == fv_lt_before(self.free_vars@, p as int),
                forall|j: int|
                    0 <= j < tys@.len() ==> {
                        let q = (#[trigger] tys@[j]).0.index;
                        &&& q < n
                        &&& self.free_vars@[q as int].0 is Ty
                        &&& fv_ty_before(self.free_vars@, q as int) == j
                        &&& ty_view(tys@[j].1) == TyView::Var(
                            self.free_vars@[q as int].0->Ty_0.index as int,
                        )
                    },
                forall|j: int|
                    0 <= j < lifetimes@.len() ==> {
                        let q = (#[trigger] lifetimes@[j]).0.index;
                        &&& q < n
                        &&& self.free_vars@[q as int].0 is Lifetime
                        &&& fv_lt_before(self.free_vars@, q as int) == j
                        &&& lifetimes@[j].1 == Lifetime::Var(
                            self.free_vars@[q as int].0->Lifetime_0.index,
                        )
                    },
            decreases n - p,
        {
            proof {
                lemma_fv_before_bounds(self.free_vars@, p as int);
            }
            match &self.free_vars[p].0 {
                ParameterKind::Ty(v) => {
                    tys.push((TyInferenceVariable::from_depth(p), Ty::Var(v.to_usize())));
                }
                ParameterKind::Lifetime(v) => {
                    lifetimes.push(
                        (LifetimeInferenceVariable::from_depth(p), Lifetime::Var(v.to_usize())),
                    );
                }
            }
            p += 1;
        }
        Substitution { tys, lifetimes }
    }
}

} // verus!
