use vstd::prelude::*;

use crate::ir::{
    lemma_ok_apply, lemma_tys_view, term_ok, ty_view, tys_view, ApplicationTy, Lifetime,
    QuantifiedTy, Substitution, Ty, TyView, DEPTH_LIMIT,
};
use crate::var::{
    InferenceValue, LifetimeInferenceVariable, ParameterKind, TyInferenceVariable, UniverseIndex,
};
use crate::{InferenceTable, KindPrefix};

verus! {

/// How many of the first `p` quantifier positions are type positions.
pub open spec fn ty_before(kinds: KindPrefix, p: int) -> int
    decreases p,
{
    if p <= 0 {
        0
    } else {
        ty_before(kinds, p - 1) + (if kinds[p - 1] is Ty {
            1int
        } else {
            0int
        })
    }
}

/// How many of the first `p` quantifier positions are lifetime positions.
pub open spec fn lt_before(kinds: KindPrefix, p: int) -> int
    decreases p,
{
    if p <= 0 {
        0
    } else {
        lt_before(kinds, p - 1) + (if kinds[p - 1] is Lifetime {
            1int
        } else {
            0int
        })
    }
}

/// The counts are monotone in the prefix length.
pub proof fn lemma_before_mono(kinds: KindPrefix, q: int, p: int)
    requires
        0 <= q <= p,
    ensures
        ty_before(kinds, q) <= ty_before(kinds, p),
        lt_before(kinds, q) <= lt_before(kinds, p),
    decreases p - q,
{
    if q < p {
        lemma_before_mono(kinds, q, p - 1);
    }
}

pub proof fn lemma_before_bounds(kinds: KindPrefix, p: int)
    requires
        0 <= p <= kinds.len(),
    ensures
        0 <= ty_before(kinds, p) <= p,
        0 <= lt_before(kinds, p) <= p,
        ty_before(kinds, p) + lt_before(kinds, p) == p,
    decreases p,
{
    if p > 0 {
        lemma_before_bounds(kinds, p - 1);
    }
}

/// Every bound-variable hole of `v` under the quantifier prefix has the Ty
/// kind: the term is well-kinded for type substitution.
pub open spec fn ty_holes_ok(v: TyView, inner: nat, kinds: KindPrefix) -> bool
    decreases v,
{
    match v {
        TyView::Var(d) => inner <= d < inner + kinds.len() ==> kinds[d - inner] is Ty,
        TyView::Apply(_, args) => forall|i: int|
            0 <= i < args.len() ==> ty_holes_ok(#[trigger] args[i], inner, kinds),
        TyView::ForAll(n, body) => ty_holes_ok(*body, (inner + n) as nat, kinds),
    }
}

pub proof fn lemma_holes_apply(
    name: crate::ir::TypeName,
    args: Seq<TyView>,
    inner: nat,
    kinds: KindPrefix,
    i: int,
)
    requires
        0 <= i < args.len(),
        ty_holes_ok(TyView::Apply(name, args), inner, kinds),
    ensures
        ty_holes_ok(args[i], inner, kinds),
{
    let t = TyView::Apply(name, args);
    assert(t->Apply_1 == args);
    assert(ty_holes_ok(t->Apply_1[i], inner, kinds));
}

/// Opens the outermost quantifier prefix: each hole at position `p` becomes
/// the fresh inference variable numbered `base` plus the count of type
/// positions before `p`; deeper references lose the removed binders.
pub open spec fn subst_ty(v: TyView, inner: nat, kinds: KindPrefix, base: int) -> TyView
    decreases v,
{
    match v {
        TyView::Var(d) => if d < inner {
            TyView::Var(d)
        } else if d - inner < kinds.len() {
            TyView::Var(base + ty_before(kinds, d - inner) + inner)
        } else {
            TyView::Var(d - kinds.len())
        },
        TyView::Apply(name, args) => TyView::Apply(name, subst_tys(args, inner, kinds, base)),
        TyView::ForAll(n, body) => TyView::ForAll(
            n,
            Box::new(subst_ty(*body, (inner + n) as nat, kinds, base)),
        ),
    }
}

pub open spec fn subst_tys(s: Seq<TyView>, inner: nat, kinds: KindPrefix, base: int) -> Seq<TyView>
    decreases s,
{
    if s.len() == 0 {
        Seq::empty()
    } else {
        seq![subst_ty(s[0], inner, kinds, base)] + subst_tys(s.drop_first(), inner, kinds, base)
    }
}

pub proof fn lemma_subst_tys(s: Seq<TyView>, inner: nat, kinds: KindPrefix, base: int)
    ensures
        subst_tys(s, inner, kinds, base).len() == s.len(),
        forall|i: int| 0 <= i < s.len() ==> subst_tys(s, inner, kinds, base)[i] == subst_ty(
            #[trigger] s[i],
            inner,
            kinds,
            base,
        ),
    decreases s,
{
    if s.len() > 0 {
        lemma_subst_tys(s.drop_first(), inner, kinds, base);
        assert forall|i: int|
            0 <= i < s.len() implies subst_tys(s, inner, kinds, base)[i] == subst_ty(
            #[trigger] s[i],
            inner,
            kinds,
            base,
        ) by {
            if i > 0 {
                assert(s.drop_first()[i - 1] == s[i]);
            }
        }
    }
}

/// Counts the type positions before `p`, executably.
#[verifier::loop_isolation(false)]
fn count_ty_before(binders: &Vec<ParameterKind<UniverseIndex, UniverseIndex>>, p: usize) -> (r:
    usize)
    requires
        p <= binders@.len(),
        binders@.len() <= DEPTH_LIMIT,
    ensures
        r as int == ty_before(binders@, p as int),
{
    proof {
        lemma_before_bounds(binders@, p as int);
    }
    let mut i: usize = 0;
    let mut count: usize = 0;
    while i < p
        invariant
            i <= p,
            count as int == ty_before(binders@, i as int),
        decreases p - i,
    {
        proof {
            lemma_before_bounds(binders@, i as int);
        }
        if let ParameterKind::Ty(_) = binders[i] {
            count = count + 1;
        }
        i += 1;
    }
    count
}

/// Applies the opening substitution, executably.
#[verifier::loop_isolation(false)]
fn apply_subst(
    v: &Ty,
    inner: usize,
    binders: &Vec<ParameterKind<UniverseIndex, UniverseIndex>>,
    base: usize,
) -> (r: Ty)
    requires
        inner <= DEPTH_LIMIT,
        binders@.len() <= DEPTH_LIMIT,
        base <= DEPTH_LIMIT,
        term_ok(ty_view(*v), inner as nat),
        ty_holes_ok(ty_view(*v), inner as nat, binders@),
    ensures
        ty_view(r) == subst_ty(ty_view(*v), inner as nat, binders@, base as int),
    decreases *v,
{
    match v {
        Ty::Var(d) => {
            if *d < inner {
                Ty::Var(*d)
            } else if *d - inner < binders.len() {
                let c = count_ty_before(binders, *d - inner);
                proof {
                    lemma_before_bounds(binders@, (*d - inner) as int);
                }
                Ty::Var(base + c + inner)
            } else {
                Ty::Var(*d - binders.len())
            }
        }
        Ty::Apply(app) => {
            proof {
                lemma_tys_view(app.parameters@);
                lemma_subst_tys(tys_view(app.parameters@), inner as nat, binders@, base as int);
            }
            let n = app.parameters.len();
            let mut args: Vec<Ty> = Vec::new();
            let mut i: usize = 0;
            while i < n
                invariant
                    i <= n,
                    n == app.parameters@.len(),
                    args@.len() == i as int,
                    forall|j: int| 0 <= j < i ==> ty_view(args@[j]) == subst_ty(
                        tys_view(app.parameters@)[j],
                        inner as nat,
                        binders@,
                        base as int,
                    ),
                decreases n - i,
            {
                proof {
                    lemma_tys_view(app.parameters@);
                    assert(tys_view(app.parameters@)[i as int] == ty_view(
                        app.parameters@[i as int],
                    ));
                    lemma_ok_apply(app.name, tys_view(app.parameters@), inner as nat, 0, i as int);
                    lemma_holes_apply(
                        app.name,
                        tys_view(app.parameters@),
                        inner as nat,
                        binders@,
                        i as int,
                    );
                }
                let c = apply_subst(&app.parameters[i], inner, binders, base);
                args.push(c);
                i += 1;
            }
            proof {
                lemma_tys_view(args@);
                lemma_subst_tys(tys_view(app.parameters@), inner as nat, binders@, base as int);
                assert(tys_view(args@) =~= subst_tys(
                    tys_view(app.parameters@),
                    inner as nat,
                    binders@,
                    base as int,
                ));
            }
            Ty::Apply(ApplicationTy { name: app.name, parameters: args })
        }
        Ty::ForAll(q) => {
            let body = apply_subst(&q.ty, inner + q.num_binders, binders, base);
            Ty::ForAll(Box::new(QuantifiedTy { num_binders: q.num_binders, ty: body }))
        }
    }
}

/// Builds the substitution for an opened prefix: the `j`-th type entry is
/// keyed by the `j`-th type position and maps it to the fresh variable
/// `ty_base + j`; lifetime entries likewise.
fn build_subst(
    binders: &Vec<ParameterKind<UniverseIndex, UniverseIndex>>,
    ty_base: usize,
    lt_base: usize,
) -> (r: Substitution)
    requires
        binders@.len() <= DEPTH_LIMIT,
        ty_base + binders@.len() <= DEPTH_LIMIT,
        lt_base + binders@.len() <= DEPTH_LIMIT,
    ensures
        r.tys@.len() == ty_before(binders@, binders@.len() as int),
        r.lifetimes@.len() == lt_before(binders@, binders@.len() as int),
        forall|j: int|
            0 <= j < r.tys@.len() ==> {
                let p = (#[trigger] r.tys@[j]).0.index;
                &&& p < binders@.len()
                &&& binders@[p as int] is Ty
                &&& ty_before(binders@, p as int) == j
                &&& ty_view(r.tys@[j].1) == TyView::Var(ty_base + j)
            },
        forall|j: int|
            0 <= j < r.lifetimes@.len() ==> {
                let p = (#[trigger] r.lifetimes@[j]).0.index;
                &&& p < binders@.len()
                &&& binders@[p as int] is Lifetime
                &&& lt_before(binders@, p as int) == j
                &&& r.lifetimes@[j].1 == Lifetime::Var((lt_base + j) as usize)
            },
{
    let n = binders.len();
    let mut tys: Vec<(TyInferenceVariable, Ty)> = Vec::new();
    let mut lifetimes: Vec<(LifetimeInferenceVariable, Lifetime)> = Vec::new();
    let mut p: usize = 0;
    while p < n
        invariant
            p <= n,
            n == binders@.len(),
            n <= DEPTH_LIMIT,
            ty_base + n <= DEPTH_LIMIT,
            lt_base + n <= DEPTH_LIMIT,
            tys@.len() == ty_before(binders@, p as int),
            lifetimes@.len() == lt_before(binders@, p as int),
            forall|j: int|
                0 <= j < tys@.len() ==> {
                    let q = (#[trigger] tys@[j]).0.index;
                    &&& q < n
                    &&& binders@[q as int] is Ty
                    &&& ty_before(binders@, q as int) == j
                    &&& ty_view(tys@[j].1) == TyView::Var(ty_base + j)
                },
            forall|j: int|
                0 <= j < lifetimes@.len() ==> {
                    let q = (#[trigger] lifetimes@[j]).0.index;
                    &&& q < n
                    &&& binders@[q as int] is Lifetime
                    &&& lt_before(binders@, q as int) == j
                    &&& lifetimes@[j].1 == Lifetime::Var((lt_base + j) as usize)
                },
        decreases n - p,
    {
        proof {
            lemma_before_bounds(binders@, p as int);
        }
        match &binders[p] {
            ParameterKind::Ty(_) => {
                let idx = tys.len();
                tys.push((TyInferenceVariable::from_depth(p), Ty::Var(ty_base + idx)));
            }
            ParameterKind::Lifetime(_) => {
                let idx = lifetimes.len();
                lifetimes.push(
                    (LifetimeInferenceVariable::from_depth(p), Lifetime::Var(lt_base + idx)),
                );
            }
        }
        p += 1;
    }
    Substitution { tys, lifetimes }
}

impl InferenceTable {
    /// Creates one fresh unbound variable per quantifier position, matching
    /// kind and universe, in order.
    fn create_fresh(&mut self, binders: &Vec<ParameterKind<UniverseIndex, UniverseIndex>>)
        requires
            old(self).wf(),
            binders@.len() <= DEPTH_LIMIT,
            old(self).n_ty_vars() + binders@.len() <= DEPTH_LIMIT,
            old(self).n_lifetime_vars() + binders@.len() <= DEPTH_LIMIT,
        ensures
            final(self).wf(),
            final(self).n_ty_vars() == old(self).n_ty_vars() + ty_before(
                binders@,
                binders@.len() as int,
            ),
            final(self).n_lifetime_vars() == old(self).n_lifetime_vars() + lt_before(
                binders@,
                binders@.len() as int,
            ),
            forall|j: int| 0 <= j < old(self).n_ty_vars() ==> final(self).ty_value(j) == old(self).ty_value(j),
            forall|j: int| 0 <= j < old(self).n_lifetime_vars() ==> final(self).lifetime_value(j)
                == old(self).lifetime_value(j),
            forall|j: int|
                old(self).n_ty_vars() <= j < final(self).n_ty_vars() ==> (#[trigger] final(self).ty_value(j)) is Unbound,
            forall|j: int|
                old(self).n_lifetime_vars() <= j < final(self).n_lifetime_vars() ==> (
                #[trigger] final(self).lifetime_value(j)) is Unbound,
            forall|j: int|
                old(self).n_ty_vars() <= j < final(self).n_ty_vars() ==> (#[trigger] final(self).ty_unify.root_of(j)) == j,
            forall|j: int|
                old(self).n_lifetime_vars() <= j < final(self).n_lifetime_vars() ==> (
                #[trigger] final(self).lifetime_unify.root_of(j)) == j,
    {
        let n = binders.len();
        let mut p: usize = 0;
        while p < n
            invariant
                p <= n,
                n == binders@.len(),
                n <= DEPTH_LIMIT,
                old(self).wf(),
                old(self).n_ty_vars() + n <= DEPTH_LIMIT,
                old(self).n_lifetime_vars() + n <= DEPTH_LIMIT,
                self.wf(),
                self.n_ty_vars() == old(self).n_ty_vars() + ty_before(binders@, p as int),
                self.n_lifetime_vars() == old(self).n_lifetime_vars() + lt_before(
                    binders@,
                    p as int,
                ),
                forall|j: int| 0 <= j < old(self).n_ty_vars() ==> self.ty_value(j) == old(self).ty_value(j),
                forall|j: int| 0 <= j < old(self).n_lifetime_vars() ==> self.lifetime_value(j)
                    == old(self).lifetime_value(j),
                forall|j: int|
                    old(self).n_ty_vars() <= j < self.n_ty_vars() ==> (#[trigger] self.ty_value(
                        j,
                    )) is Unbound,
                forall|j: int|
                    old(self).n_lifetime_vars() <= j < self.n_lifetime_vars() ==> (
                    #[trigger] self.lifetime_value(j)) is Unbound,
                forall|j: int|
                    old(self).n_ty_vars() <= j < self.n_ty_vars() ==> (
                    #[trigger] self.ty_unify.root_of(j)) == j,
                forall|j: int|
                    old(self).n_lifetime_vars() <= j < self.n_lifetime_vars() ==> (
                    #[trigger] self.lifetime_unify.root_of(j)) == j,
            decreases n - p,
        {
            proof {
                lemma_before_bounds(binders@, p as int);
            }
            let ghost pre = *self;
            match &binders[p] {
                ParameterKind::Ty(u) => {
                    let _ = self.new_variable(*u);
                }
                ParameterKind::Lifetime(u) => {
                    let _ = self.new_lifetime_variable(*u);
                }
            }
            proof {
                assert forall|j: int| 0 <= j < old(self).n_ty_vars() implies self.ty_value(j)
                    == old(self).ty_value(j) by {
                    assert(pre.ty_value(j) == old(self).ty_value(j));
                }
                assert forall|j: int|
                    0 <= j < old(self).n_lifetime_vars() implies self.lifetime_value(j) == old(self).lifetime_value(j) by {
                    assert(pre.lifetime_value(j) == old(self).lifetime_value(j));
                }
                assert forall|j: int|
                    old(self).n_ty_vars() <= j < self.n_ty_vars() implies (#[trigger] self.ty_value(
                        j,
                    )) is Unbound by {
                    if j < pre.n_ty_vars() {
                        assert(self.ty_value(j) == pre.ty_value(j));
                    }
                }
                assert forall|j: int|
                    old(self).n_lifetime_vars() <= j < self.n_lifetime_vars() implies (
                #[trigger] self.lifetime_value(j)) is Unbound by {
                    if j < pre.n_lifetime_vars() {
                        assert(self.lifetime_value(j) == pre.lifetime_value(j));
                    }
                }
                assert forall|j: int|
                    old(self).n_ty_vars() <= j < self.n_ty_vars() implies (
                #[trigger] self.ty_unify.root_of(j)) == j by {
                    if j < pre.n_ty_vars() {
                        assert(self.ty_unify.root_of(j) == pre.ty_unify.root_of(j));
                    }
                }
                assert forall|j: int|
                    old(self).n_lifetime_vars() <= j < self.n_lifetime_vars() implies (
                #[trigger] self.lifetime_unify.root_of(j)) == j by {
                    if j < pre.n_lifetime_vars() {
                        assert(self.lifetime_unify.root_of(j) == pre.lifetime_unify.root_of(j));
                    }
                }
            }
            p += 1;
        }
        proof {
            lemma_before_bounds(binders@, n as int);
        }
    }

    /// Opens a quantified term: creates one fresh inference variable per
    /// quantifier position, matching kind and universe, substitutes each
    /// bound-variable occurrence of the opened prefix with its fresh
    /// variable, and returns the substituted term with the substitution used.
    pub fn instantiate(
        &mut self,
        binders: &Vec<ParameterKind<UniverseIndex, UniverseIndex>>,
        value: &Ty,
    ) -> (r: (Ty, Substitution))
        requires
            old(self).wf(),
            term_ok(ty_view(*value), 0),
            ty_holes_ok(ty_view(*value), 0, binders@),
            binders@.len() <= DEPTH_LIMIT,
            old(self).n_ty_vars() + binders@.len() <= DEPTH_LIMIT,
            old(self).n_lifetime_vars() + binders@.len() <= DEPTH_LIMIT,
        ensures
            final(self).wf(),
            final(self).n_ty_vars() == old(self).n_ty_vars() + ty_before(
                binders@,
                binders@.len() as int,
            ),
            final(self).n_lifetime_vars() == old(self).n_lifetime_vars() + lt_before(
                binders@,
                binders@.len() as int,
            ),
            forall|j: int| 0 <= j < old(self).n_ty_vars() ==> final(self).ty_value(j) == old(self).ty_value(j),
            forall|j: int| 0 <= j < old(self).n_lifetime_vars() ==> final(self).lifetime_value(j)
                == old(self).lifetime_value(j),
            forall|j: int|
                old(self).n_ty_vars() <= j < final(self).n_ty_vars() ==> (#[trigger] final(self).ty_value(j)) is Unbound,
            forall|j: int|
                old(self).n_lifetime_vars() <= j < final(self).n_lifetime_vars() ==> (
                #[trigger] final(self).lifetime_value(j)) is Unbound,
            forall|j: int|
                old(self).n_ty_vars() <= j < final(self).n_ty_vars() ==> (#[trigger] final(self).ty_unify.root_of(j)) == j,
            forall|j: int|
                old(self).n_lifetime_vars() <= j < final(self).n_lifetime_vars() ==> (
                #[trigger] final(self).lifetime_unify.root_of(j)) == j,
            ty_view(r.0) == subst_ty(ty_view(*value), 0, binders@, old(self).n_ty_vars() as int),
            r.1.tys@.len() == ty_before(binders@, binders@.len() as int),
            r.1.lifetimes@.len() == lt_before(binders@, binders@.len() as int),
            forall|j: int|
                0 <= j < r.1.tys@.len() ==> {
                    let p = (#[trigger] r.1.tys@[j]).0.index;
                    &&& p < binders@.len()
                    &&& binders@[p as int] is Ty
                    &&& ty_before(binders@, p as int) == j
                    &&& ty_view(r.1.tys@[j].1) == TyView::Var(old(self).n_ty_vars() + j)
                },
            forall|j: int|
                0 <= j < r.1.lifetimes@.len() ==> {
                    let p = (#[trigger] r.1.lifetimes@[j]).0.index;
                    &&& p < binders@.len()
                    &&& binders@[p as int] is Lifetime
                    &&& lt_before(binders@, p as int) == j
                    &&& r.1.lifetimes@[j].1 == Lifetime::Var(
                        (old(self).n_lifetime_vars() + j) as usize,
                    )
                },
    {
        let ty_base = self.ty_unify.key_count();
        let lt_base = self.lifetime_unify.key_count();
        self.create_fresh(binders);
        let subst = build_subst(binders, ty_base, lt_base);
        let out = apply_subst(value, 0, binders, ty_base);
        (out, subst)
    }
}

} // verus!
