use vstd::prelude::*;

use crate::ir::{
    lemma_ok_apply, lemma_tys_view, term_ok, ty_view, tys_view, up_shift_ty, up_ty, view_in_range,
    ApplicationTy, QuantifiedTy, Ty, TyView, DEPTH_LIMIT,
};
use crate::var::InferenceValue;
use crate::InferenceTable;

verus! {

/// Recursively replaces every bound inference-variable occurrence in `v` by
/// its value, shifted to stay valid at its nesting depth. `fuel` bounds how
/// many bindings one resolution path may step through; `None` means the walk
/// gave out, which only happens on cyclically bound variables or on depths
/// past `DEPTH_LIMIT`.
pub open spec fn deep_norm_ty(t: InferenceTable, v: TyView, inner: nat, fuel: nat) -> Option<
    TyView,
>
    decreases fuel, v,
{
    match v {
        TyView::Var(d) => {
            if d < inner {
                Some(TyView::Var(d))
            } else if d - inner >= t.n_ty_vars() {
                Some(TyView::Var(d))
            } else {
                match t.ty_value(d - inner) {
                    InferenceValue::Unbound(_) => Some(TyView::Var(d)),
                    InferenceValue::Bound(w) => {
                        if fuel == 0 {
                            None
                        } else {
                            match deep_norm_ty(t, w, 0, (fuel - 1) as nat) {
                                None => None,
                                Some(u) => {
                                    if term_ok(u, 0) && term_ok(up_ty(u, inner, 0), inner) {
                                        Some(up_ty(u, inner, 0))
                                    } else {
                                        None
                                    }
                                },
                            }
                        }
                    },
                }
            }
        },
        TyView::Apply(name, args) => {
            match deep_norm_tys(t, args, inner, fuel) {
                None => None,
                Some(ns) => Some(TyView::Apply(name, ns)),
            }
        },
        TyView::ForAll(n, body) => {
            if inner + n > DEPTH_LIMIT {
                None
            } else {
                match deep_norm_ty(t, *body, (inner + n) as nat, fuel) {
                    None => None,
                    Some(u) => Some(TyView::ForAll(n, Box::new(u))),
                }
            }
        },
    }
}

pub open spec fn deep_norm_tys(t: InferenceTable, s: Seq<TyView>, inner: nat, fuel: nat) -> Option<
    Seq<TyView>,
>
    decreases fuel, s,
{
    if s.len() == 0 {
        Some(Seq::empty())
    } else {
        match (deep_norm_ty(t, s[0], inner, fuel), deep_norm_tys(t, s.drop_first(), inner, fuel)) {
            (Some(h), Some(tl)) => Some(seq![h] + tl),
            _ => None,
        }
    }
}

pub proof fn lemma_deep_norm_tys(t: InferenceTable, s: Seq<TyView>, inner: nat, fuel: nat)
    ensures
        deep_norm_tys(t, s, inner, fuel) is Some <==> (forall|i: int|
            0 <= i < s.len() ==> deep_norm_ty(t, #[trigger] s[i], inner, fuel) is Some),
        deep_norm_tys(t, s, inner, fuel) matches Some(ns) ==> ns.len() == s.len() && forall|i: int|
            0 <= i < s.len() ==> deep_norm_ty(t, #[trigger] s[i], inner, fuel) == Some(ns[i]),
    decreases s,
{
    if s.len() > 0 {
        lemma_deep_norm_tys(t, s.drop_first(), inner, fuel);
        assert forall|i: int| 0 <= i < s.len() implies s.drop_first()[i - 1] == s[i] || i == 0 by {}
    }
}

/// A term that deep-normalizes to a variable reference names an unbound
/// variable: a bound one would have been resolved away.
pub proof fn lemma_norm_to_var(t: InferenceTable, v: TyView, fuel: nat, x: int)
    requires
        deep_norm_ty(t, v, 0, fuel) == Some(TyView::Var(x)),
        0 <= x < t.n_ty_vars(),
    ensures
        t.ty_value(x) is Unbound,
    decreases fuel, v,
{
    match v {
        TyView::Var(d) => {
            if 0 <= d < t.n_ty_vars() {
                match t.ty_value(d) {
                    InferenceValue::Unbound(_) => {
                        assert(x == d);
                    }
                    InferenceValue::Bound(w) => {
                        assert(fuel > 0);
                        assert(deep_norm_ty(t, w, 0, (fuel - 1) as nat) is Some);
                        let u = deep_norm_ty(t, w, 0, (fuel - 1) as nat)->Some_0;
                        crate::ir::lemma_up_ty_zero(u, 0);
                        assert(u == TyView::Var(x));
                        lemma_norm_to_var(t, w, (fuel - 1) as nat, x);
                    }
                }
            }
        }
        TyView::Apply(name, args) => {
            assert(deep_norm_tys(t, args, 0, fuel) is Some);
        }
        TyView::ForAll(n, body) => {
            assert(deep_norm_ty(t, *body, n, fuel) is Some);
        }
    }
}

/// Each argument of a self-normal constructor application is self-normal.
pub proof fn lemma_norm_self_apply(
    t: InferenceTable,
    name: crate::ir::TypeName,
    args: Seq<TyView>,
    fuel: nat,
    i: int,
)
    requires
        deep_norm_ty(t, TyView::Apply(name, args), 0, fuel) == Some(TyView::Apply(name, args)),
        0 <= i < args.len(),
    ensures
        deep_norm_ty(t, args[i], 0, fuel) == Some(args[i]),
{
    assert(deep_norm_tys(t, args, 0, fuel) is Some);
    let ns = deep_norm_tys(t, args, 0, fuel)->Some_0;
    assert(TyView::Apply(name, ns) == TyView::Apply(name, args));
    assert(ns == args);
    lemma_deep_norm_tys(t, args, 0, fuel);
    assert(deep_norm_ty(t, args[i], 0, fuel) == Some(ns[i]));
}

/// Decides `term_ok` executably.
#[verifier::loop_isolation(false)]
pub fn term_ok_check(v: &Ty, inner: usize) -> (r: bool)
    requires
        inner <= DEPTH_LIMIT,
    ensures
        r == term_ok(ty_view(*v), inner as nat),
    decreases *v,
{
    match v {
        Ty::Var(d) => *d <= DEPTH_LIMIT + inner,
        Ty::Apply(app) => {
            proof {
                lemma_tys_view(app.parameters@);
            }
            let n = app.parameters.len();
            let mut i: usize = 0;
            let mut ok = true;
            while i < n
                invariant
                    i <= n,
                    n == app.parameters@.len(),
                    ok ==> forall|j: int| 0 <= j < i ==> term_ok(
                        tys_view(app.parameters@)[j],
                        inner as nat,
                    ),
                    !ok ==> exists|j: int| 0 <= j < n && !term_ok(
                        tys_view(app.parameters@)[j],
                        inner as nat,
                    ),
                decreases n - i,
            {
                proof {
                    lemma_tys_view(app.parameters@);
                    assert(tys_view(app.parameters@)[i as int] == ty_view(
                        app.parameters@[i as int],
                    ));
                }
                let c = term_ok_check(&app.parameters[i], inner);
                ok = ok && c;
                i += 1;
            }
            proof {
                if ok {
                    assert(ty_view(*v) == TyView::Apply(app.name, tys_view(app.parameters@)));
                    assert forall|i2: int|
                        0 <= i2 < tys_view(app.parameters@).len() implies term_ok(
                        #[trigger] tys_view(app.parameters@)[i2],
                        inner as nat,
                    ) by {}
                } else {
                    let j = choose|j: int|
                        0 <= j < n && !term_ok(tys_view(app.parameters@)[j], inner as nat);
                    lemma_ok_apply(app.name, tys_view(app.parameters@), inner as nat, 0, j);
                }
            }
            ok
        }
        Ty::ForAll(q) => {
            if q.num_binders > DEPTH_LIMIT - inner {
                false
            } else {
                term_ok_check(&q.ty, inner + q.num_binders)
            }
        }
    }
}

impl InferenceTable {
    /// Deep normalization with the fuel made explicit.
    #[verifier::loop_isolation(false)]
    fn normalize_deep_ty(&self, v: &Ty, inner: usize, fuel: usize) -> (r: Option<Ty>)
        requires
            self.wf(),
            inner <= DEPTH_LIMIT,
            term_ok(ty_view(*v), inner as nat),
            view_in_range(ty_view(*v), inner as nat, self.n_ty_vars()),
        ensures
            (r is Some <==> deep_norm_ty(*self, ty_view(*v), inner as nat, fuel as nat) is Some),
            r matches Some(t2) ==> deep_norm_ty(*self, ty_view(*v), inner as nat, fuel as nat)
                == Some(ty_view(t2)) && term_ok(ty_view(t2), inner as nat) && view_in_range(
                ty_view(t2),
                inner as nat,
                self.n_ty_vars(),
            ),
        decreases fuel, *v,
    {
        match v {
            Ty::Var(d) => {
                if *d < inner {
                    Some(Ty::Var(*d))
                } else if *d - inner >= self.ty_unify.key_count() {
                    Some(Ty::Var(*d))
                } else {
                    match self.ty_unify.probe(*d - inner) {
                        InferenceValue::Unbound(_) => Some(Ty::Var(*d)),
                        InferenceValue::Bound(w) => {
                            if fuel == 0 {
                                None
                            } else {
                                match self.normalize_deep_ty(w, 0, fuel - 1) {
                                    None => None,
                                    Some(u) => {
                                        if term_ok_check(&u, 0) {
                                            proof {
                                                crate::ir::lemma_up_in_range(
                                                    ty_view(u),
                                                    inner as nat,
                                                    0,
                                                    self.n_ty_vars(),
                                                );
                                            }
                                            let su = up_shift_ty(&u, inner, 0);
                                            if term_ok_check(&su, inner) {
                                                Some(su)
                                            } else {
                                                None
                                            }
                                        } else {
                                            None
                                        }
                                    },
                                }
                            }
                        },
                    }
                }
            }
            Ty::Apply(app) => {
                proof {
                    lemma_tys_view(app.parameters@);
                    lemma_deep_norm_tys(
                        *self,
                        tys_view(app.parameters@),
                        inner as nat,
                        fuel as nat,
                    );
                }
                let n = app.parameters.len();
                let mut args: Vec<Ty> = Vec::new();
                let mut i: usize = 0;
                while i < n
                    invariant
                        i <= n,
                        n == app.parameters@.len(),
                        args@.len() == i as int,
                        forall|j: int| 0 <= j < i ==> deep_norm_ty(
                            *self,
                            tys_view(app.parameters@)[j],
                            inner as nat,
                            fuel as nat,
                        ) == Some(ty_view(args@[j])) && term_ok(ty_view(args@[j]), inner as nat)
                            && view_in_range(ty_view(args@[j]), inner as nat, self.n_ty_vars()),
                    decreases n - i,
                {
                    proof {
                        lemma_tys_view(app.parameters@);
                        assert(tys_view(app.parameters@)[i as int] == ty_view(
                            app.parameters@[i as int],
                        ));
                        lemma_ok_apply(
                            app.name,
                            tys_view(app.parameters@),
                            inner as nat,
                            self.n_ty_vars(),
                            i as int,
                        );
                    }
                    let c = self.normalize_deep_ty(&app.parameters[i], inner, fuel);
                    match c {
                        None => {
                            proof {
                                lemma_deep_norm_tys(
                                    *self,
                                    tys_view(app.parameters@),
                                    inner as nat,
                                    fuel as nat,
                                );
                            }
                            return None;
                        }
                        Some(t2) => {
                            args.push(t2);
                        }
                    }
                    i += 1;
                }
                proof {
                    lemma_deep_norm_tys(*self, tys_view(app.parameters@), inner as nat, fuel as nat);
                    lemma_tys_view(args@);
                    assert forall|i2: int|
                        0 <= i2 < tys_view(app.parameters@).len() implies deep_norm_ty(
                        *self,
                        #[trigger] tys_view(app.parameters@)[i2],
                        inner as nat,
                        fuel as nat,
                    ) is Some by {}
                    let ns = deep_norm_tys(
                        *self,
                        tys_view(app.parameters@),
                        inner as nat,
                        fuel as nat,
                    )->Some_0;
                    assert forall|i2: int| 0 <= i2 < n as int implies ns[i2] == tys_view(args@)[i2] by {
                        assert(deep_norm_ty(
                            *self,
                            tys_view(app.parameters@)[i2],
                            inner as nat,
                            fuel as nat,
                        ) == Some(ns[i2]));
                        assert(deep_norm_ty(
                            *self,
                            tys_view(app.parameters@)[i2],
                            inner as nat,
                            fuel as nat,
                        ) == Some(ty_view(args@[i2])));
                        assert(tys_view(args@)[i2] == ty_view(args@[i2]));
                    }
                    assert(ns =~= tys_view(args@));
                    let out = TyView::Apply(app.name, tys_view(args@));
                    assert(out->Apply_1 == tys_view(args@));
                    assert forall|i2: int| 0 <= i2 < out->Apply_1.len() implies term_ok(
                        #[trigger] out->Apply_1[i2],
                        inner as nat,
                    ) by {
                        assert(tys_view(args@)[i2] == ty_view(args@[i2]));
                        assert(deep_norm_ty(
                            *self,
                            tys_view(app.parameters@)[i2],
                            inner as nat,
                            fuel as nat,
                        ) == Some(ty_view(args@[i2])) && term_ok(ty_view(args@[i2]), inner as nat));
                    }
                    assert(term_ok(out, inner as nat));
                    assert forall|i2: int| 0 <= i2 < out->Apply_1.len() implies view_in_range(
                        #[trigger] out->Apply_1[i2],
                        inner as nat,
                        self.n_ty_vars(),
                    ) by {
                        assert(tys_view(args@)[i2] == ty_view(args@[i2]));
                        assert(deep_norm_ty(
                            *self,
                            tys_view(app.parameters@)[i2],
                            inner as nat,
                            fuel as nat,
                        ) == Some(ty_view(args@[i2])) && view_in_range(
                            ty_view(args@[i2]),
                            inner as nat,
                            self.n_ty_vars(),
                        ));
                    }
                    assert(view_in_range(out, inner as nat, self.n_ty_vars()));
                }
                Some(Ty::Apply(ApplicationTy { name: app.name, parameters: args }))
            }
            Ty::ForAll(q) => {
                if q.num_binders > DEPTH_LIMIT - inner {
                    None
                } else {
                    match self.normalize_deep_ty(&q.ty, inner + q.num_binders, fuel) {
                        None => None,
                        Some(u) => Some(
                            Ty::ForAll(
                                Box::new(QuantifiedTy { num_binders: q.num_binders, ty: u }),
                            ),
                        ),
                    }
                }
            }
        }
    }

    /// The normalization of `v` against this table, at the fuel the public
    /// entry point uses.
    pub open spec fn deep_norm(self, v: TyView) -> Option<TyView> {
        deep_norm_ty(self, v, 0, self.n_ty_vars() + 1)
    }

    /// Recursively replaces every resolvable inference-variable occurrence in
    /// `ty` by its binding, yielding a term with no resolvable indirection
    /// left; `None` only on cyclically bound variables or on binder nesting
    /// past `DEPTH_LIMIT`.
    pub fn normalize_deep(&mut self, ty: &Ty) -> (r: Option<Ty>)
        requires
            old(self).wf(),
            old(self).n_ty_vars() < usize::MAX,
            term_ok(ty_view(*ty), 0),
            view_in_range(ty_view(*ty), 0, old(self).n_ty_vars()),
        ensures
            *final(self) == *old(self),
            (r is Some <==> old(self).deep_norm(ty_view(*ty)) is Some),
            r matches Some(t2) ==> old(self).deep_norm(ty_view(*ty)) == Some(ty_view(t2))
                && term_ok(ty_view(t2), 0) && view_in_range(ty_view(t2), 0, old(self).n_ty_vars()),
    {
        let fuel = self.ty_unify.key_count() + 1;
        self.normalize_deep_ty(ty, 0, fuel)
    }
}

} // verus!
