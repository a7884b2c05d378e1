use vstd::prelude::*;

use crate::ir::{
    clone_ty, lemma_height_child, term_ok, ty_eq, ty_view, view_height, view_in_range, Lifetime,
    Ty, TyView,
};
use crate::normalize_deep::{deep_norm_ty, lemma_norm_self_apply, lemma_norm_to_var};
use crate::var::{InferenceValue, TyInferenceVariable, UniverseIndex};
use crate::{InferenceTable, UnifyError};

verus! {

/// What a successful unification hands back: lifetime equations deferred to
/// the surrounding solver.
#[derive(Debug, PartialEq, Eq)]
pub struct UnificationResult {
    pub constraints: Vec<(Lifetime, Lifetime)>,
}

/// Every placeholder of `v` lies in a universe `ui` can see, and every free
/// unbound variable of `v` lives in a universe `ui` can see: binding a
/// variable of universe `ui` to `v` lets nothing escape its scope.
pub open spec fn univ_ok(t: InferenceTable, v: TyView, inner: nat, ui: UniverseIndex) -> bool
    decreases v,
{
    match v {
        TyView::Var(d) => d >= inner ==> (t.ty_value(d - inner) matches InferenceValue::Unbound(uv)
            ==> ui.spec_can_see(uv)),
        TyView::Apply(name, args) => (name matches crate::ir::TypeName::ForAll(u)
            ==> ui.spec_can_see(u)) && forall|i: int|
            0 <= i < args.len() ==> univ_ok(t, #[trigger] args[i], inner, ui),
        TyView::ForAll(n, body) => univ_ok(t, *body, inner + n, ui),
    }
}

/// Unfolds the universe condition at a constructor.
pub proof fn lemma_univ_ok_apply(
    t: InferenceTable,
    name: crate::ir::TypeName,
    args: Seq<TyView>,
    inner: nat,
    ui: UniverseIndex,
)
    ensures
        univ_ok(t, TyView::Apply(name, args), inner, ui) <==> ((name matches
            crate::ir::TypeName::ForAll(u) ==> ui.spec_can_see(u)) && (forall|i: int|
            0 <= i < args.len() ==> univ_ok(t, #[trigger] args[i], inner, ui))),
{
    let v = TyView::Apply(name, args);
    assert(v->Apply_1 == args);
    if univ_ok(t, v, inner, ui) {
        assert forall|i: int| 0 <= i < args.len() implies univ_ok(
            t,
            #[trigger] args[i],
            inner,
            ui,
        ) by {
            assert(univ_ok(t, v->Apply_1[i], inner, ui));
        }
    } else {
        if (name matches crate::ir::TypeName::ForAll(u) ==> ui.spec_can_see(u)) && (forall|i: int|
            0 <= i < args.len() ==> univ_ok(t, #[trigger] args[i], inner, ui)) {
            assert forall|i: int| 0 <= i < v->Apply_1.len() implies univ_ok(
                t,
                #[trigger] v->Apply_1[i],
                inner,
                ui,
            ) by {
                assert(v->Apply_1[i] == args[i]);
            }
            assert(univ_ok(t, v, inner, ui));
        }
    }
}

impl InferenceTable {
    /// Checks the universe condition for binding a variable of universe `ui`
    /// to the value `v` seen under `inner` binders.
    #[verifier::loop_isolation(false)]
    fn univ_check(&self, v: &Ty, inner: usize, ui: UniverseIndex) -> (r: bool)
        requires
            self.wf(),
            term_ok(ty_view(*v), inner as nat),
            view_in_range(ty_view(*v), inner as nat, self.n_ty_vars()),
            inner <= crate::ir::DEPTH_LIMIT,
        ensures
            r == univ_ok(*self, ty_view(*v), inner as nat, ui),
        decreases *v,
    {
        match v {
            Ty::Var(d) => {
                proof {
                    assert(ty_view(*v) == TyView::Var(*d as int));
                }
                if *d < inner {
                    true
                } else {
                    let r = match self.ty_unify.probe(*d - inner) {
                        InferenceValue::Unbound(uv) => ui.can_see(*uv),
                        InferenceValue::Bound(_) => true,
                    };
                    proof {
                        assert(self.ty_value(*d - inner) == self.ty_unify.value_view(
                            *d - inner,
                        ));
                    }
                    r
                }
            }
            Ty::Apply(app) => {
                let head_ok = match &app.name {
                    crate::ir::TypeName::ForAll(u) => ui.can_see(*u),
                    crate::ir::TypeName::ItemId(_) => true,
                };
                if !head_ok {
                    proof {
                        crate::ir::lemma_tys_view(app.parameters@);
                        lemma_univ_ok_apply(
                            *self,
                            app.name,
                            crate::ir::tys_view(app.parameters@),
                            inner as nat,
                            ui,
                        );
                    }
                    false
                } else {
                    proof {
                        crate::ir::lemma_tys_view(app.parameters@);
                    }
                    let n = app.parameters.len();
                    let mut i: usize = 0;
                    let mut ok = true;
                    while i < n
                        invariant
                            i <= n,
                            n == app.parameters@.len(),
                            ok ==> forall|j: int| 0 <= j < i ==> univ_ok(
                                *self,
                                crate::ir::tys_view(app.parameters@)[j],
                                inner as nat,
                                ui,
                            ),
                            !ok ==> exists|j: int| 0 <= j < n && !univ_ok(
                                *self,
                                crate::ir::tys_view(app.parameters@)[j],
                                inner as nat,
                                ui,
                            ),
                        decreases n - i,
                    {
                        proof {
                            crate::ir::lemma_tys_view(app.parameters@);
                            assert(ty_view(*v) == TyView::Apply(
                                app.name,
                                crate::ir::tys_view(app.parameters@),
                            ));
                            assert(crate::ir::tys_view(app.parameters@)[i as int] == ty_view(
                                app.parameters@[i as int],
                            ));
                            crate::ir::lemma_ok_apply(
                                app.name,
                                crate::ir::tys_view(app.parameters@),
                                inner as nat,
                                self.n_ty_vars(),
                                i as int,
                            );
                        }
                        let c = self.univ_check(&app.parameters[i], inner, ui);
                        ok = ok && c;
                        i += 1;
                    }
                    proof {
                        lemma_univ_ok_apply(
                            *self,
                            app.name,
                            crate::ir::tys_view(app.parameters@),
                            inner as nat,
                            ui,
                        );
                    }
                    ok
                }
            }
            Ty::ForAll(q) => self.univ_check(&q.ty, inner + q.num_binders, ui),
        }
    }

    /// Binds the class of the unbound type variable `d` to `val`.
    fn bind_ty_var(&mut self, d: usize, val: Ty)
        requires
            old(self).wf(),
            d < old(self).n_ty_vars(),
            old(self).ty_value(d as int) is Unbound,
            term_ok(ty_view(val), 0),
            view_in_range(ty_view(val), 0, old(self).n_ty_vars()),
        ensures
            final(self).wf(),
            final(self).n_ty_vars() == old(self).n_ty_vars(),
            final(self).n_lifetime_vars() == old(self).n_lifetime_vars(),
            final(self).lifetime_unify == old(self).lifetime_unify,
            final(self).lifetime_vars == old(self).lifetime_vars,
            final(self).ty_vars == old(self).ty_vars,
            forall|j: int| 0 <= j < old(self).n_ty_vars() ==> final(self).ty_unify.root_of(j)
                == old(self).ty_unify.root_of(j),
            forall|j: int|
                0 <= j < old(self).n_ty_vars() && old(self).ty_unify.root_of(j) == old(self).ty_unify.root_of(d as int) ==> final(self).ty_value(j)
                    == InferenceValue::<TyView>::Bound(ty_view(val)),
            forall|j: int|
                0 <= j < old(self).n_ty_vars() && old(self).ty_unify.root_of(j) != old(self).ty_unify.root_of(d as int) ==> final(self).ty_value(j) == old(self).ty_value(j),
    {
        let ghost valv = ty_view(val);
        self.ty_unify.set_value(d, InferenceValue::Bound(val));
        proof {
            assert forall|j: int| 0 <= j < self.ty_unify.len() implies ((
            #[trigger] self.ty_unify.value_view(j)) is Bound ==> term_ok(
                self.ty_unify.value_view(j)->Bound_0,
                0,
            ) && view_in_range(self.ty_unify.value_view(j)->Bound_0, 0, self.n_ty_vars())) by {
                if old(self).ty_unify.root_of(j) == old(self).ty_unify.root_of(d as int) {
                    assert(self.ty_unify.value_of(j) == InferenceValue::Bound(val));
                } else {
                    assert(self.ty_unify.value_of(j) == old(self).ty_unify.value_of(j));
                    assert(old(self).ty_unify.value_view(j) is Bound ==> term_ok(
                        old(self).ty_unify.value_view(j)->Bound_0,
                        0,
                    ) && view_in_range(
                        old(self).ty_unify.value_view(j)->Bound_0,
                        0,
                        old(self).n_ty_vars(),
                    ));
                }
            }
        }
    }

    /// Merges the classes of two unbound type variables.
    fn union_ty_vars(&mut self, da: usize, db: usize)
        requires
            old(self).wf(),
            da < old(self).n_ty_vars(),
            db < old(self).n_ty_vars(),
            old(self).ty_value(da as int) is Unbound,
            old(self).ty_value(db as int) is Unbound,
        ensures
            final(self).wf(),
            final(self).n_ty_vars() == old(self).n_ty_vars(),
            final(self).n_lifetime_vars() == old(self).n_lifetime_vars(),
            final(self).lifetime_unify == old(self).lifetime_unify,
            final(self).lifetime_vars == old(self).lifetime_vars,
            final(self).ty_vars == old(self).ty_vars,
            old(self).ty_unify.root_of(da as int) == old(self).ty_unify.root_of(db as int)
                ==> *final(self) == *old(self),
            final(self).ty_unify.root_of(da as int) == final(self).ty_unify.root_of(db as int),
            forall|j: int|
                0 <= j < old(self).n_ty_vars() && (old(self).ty_unify.root_of(j) == old(self).ty_unify.root_of(da as int) || old(self).ty_unify.root_of(j) == old(self).ty_unify.root_of(db as int)) ==> final(self).ty_value(j)
                    == InferenceValue::<TyView>::Unbound(
                    old(self).ty_value(da as int)->Unbound_0.spec_min(
                        old(self).ty_value(db as int)->Unbound_0,
                    ),
                ),
            forall|j: int|
                0 <= j < old(self).n_ty_vars() && old(self).ty_unify.root_of(j) != old(self).ty_unify.root_of(da as int) && old(self).ty_unify.root_of(j) != old(self).ty_unify.root_of(db as int) ==> final(self).ty_value(j) == old(self).ty_value(j),
            forall|j: int|
                0 <= j < old(self).n_ty_vars() && old(self).ty_value(j) is Bound ==> final(self).ty_value(j) == old(self).ty_value(j),
    {
        proof {
            assert(old(self).ty_unify.value_of(da as int) is Unbound);
            assert(old(self).ty_unify.value_of(db as int) is Unbound);
        }
        self.ty_unify.union(da, db);
        proof {
            old(self).ty_unify.lemma_root_of(da as int);
            old(self).ty_unify.lemma_root_of(db as int);
            assert forall|j: int| 0 <= j < self.ty_unify.len() implies ((
            #[trigger] self.ty_unify.value_view(j)) is Bound ==> term_ok(
                self.ty_unify.value_view(j)->Bound_0,
                0,
            ) && view_in_range(self.ty_unify.value_view(j)->Bound_0, 0, self.n_ty_vars())) by {
                if old(self).ty_unify.root_of(j) == old(self).ty_unify.root_of(da as int) || old(self).ty_unify.root_of(j) == old(self).ty_unify.root_of(db as int) {
                } else {
                    assert(self.ty_unify.value_of(j) == old(self).ty_unify.value_of(j));
                    assert(old(self).ty_unify.value_view(j) is Bound ==> term_ok(
                        old(self).ty_unify.value_view(j)->Bound_0,
                        0,
                    ) && view_in_range(
                        old(self).ty_unify.value_view(j)->Bound_0,
                        0,
                        old(self).n_ty_vars(),
                    ));
                }
            }
        }
    }
}

/// The parts of the table a type unification never touches: the lifetime
/// side, the variable lists, the variable counts; and bindings only grow.
pub open spec fn ty_frame(pre: InferenceTable, post: InferenceTable) -> bool {
    &&& post.wf()
    &&& post.n_ty_vars() == pre.n_ty_vars()
    &&& post.n_lifetime_vars() == pre.n_lifetime_vars()
    &&& post.lifetime_unify == pre.lifetime_unify
    &&& post.lifetime_vars == pre.lifetime_vars
    &&& post.ty_vars == pre.ty_vars
    &&& forall|j: int|
        0 <= j < pre.n_ty_vars() && (#[trigger] pre.ty_value(j)) is Bound ==> post.ty_value(j)
            == pre.ty_value(j)
}

/// What one unification step does, stated over the views of the two terms as
/// given: variable-variable pairs merge classes, variable-term pairs bind
/// after the universe check, mismatched constructors fail with the table
/// untouched. Terms whose head is an already-bound variable are resolved
/// first and are covered by the frame alone.
pub open spec fn unify_obs(
    pre: InferenceTable,
    post: InferenceTable,
    a: TyView,
    b: TyView,
    r: Result<(), UnifyError>,
) -> bool {
    let da = a->Var_0;
    let db = b->Var_0;
    &&& (a is Var && b is Var && da < pre.n_ty_vars() && db < pre.n_ty_vars() && pre.ty_value(da)
        is Unbound && pre.ty_value(db) is Unbound ==> {
        &&& r is Ok
        &&& (pre.ty_unify.root_of(da) == pre.ty_unify.root_of(db) ==> post == pre)
        &&& (pre.ty_unify.root_of(da) != pre.ty_unify.root_of(db) ==> {
            &&& post.ty_unify.root_of(da) == post.ty_unify.root_of(db)
            &&& forall|j: int|
                0 <= j < pre.n_ty_vars() && ((#[trigger] pre.ty_unify.root_of(j))
                    == pre.ty_unify.root_of(da) || pre.ty_unify.root_of(j) == pre.ty_unify.root_of(
                    db,
                )) ==> post.ty_value(j) == InferenceValue::<TyView>::Unbound(
                    pre.ty_value(da)->Unbound_0.spec_min(pre.ty_value(db)->Unbound_0),
                )
            &&& forall|j: int|
                0 <= j < pre.n_ty_vars() && (#[trigger] pre.ty_unify.root_of(j))
                    != pre.ty_unify.root_of(da) && pre.ty_unify.root_of(j) != pre.ty_unify.root_of(
                    db,
                ) ==> post.ty_value(j) == pre.ty_value(j)
        })
    })
    &&& (a is Var && da < pre.n_ty_vars() && pre.ty_value(da) is Unbound && (b is Apply || b
        is ForAll) ==> {
        let ua = pre.ty_value(da)->Unbound_0;
        &&& (univ_ok(pre, b, 0, ua) ==> {
            &&& r is Ok
            &&& forall|j: int|
                0 <= j < pre.n_ty_vars() && (#[trigger] pre.ty_unify.root_of(j))
                    == pre.ty_unify.root_of(da) ==> post.ty_value(j)
                    == InferenceValue::<TyView>::Bound(b)
            &&& forall|j: int|
                0 <= j < pre.n_ty_vars() && (#[trigger] pre.ty_unify.root_of(j))
                    != pre.ty_unify.root_of(da) ==> post.ty_value(j) == pre.ty_value(j)
        })
        &&& (!univ_ok(pre, b, 0, ua) ==> r == Result::<(), UnifyError>::Err(
            UnifyError::UniverseViolation,
        ) && post == pre)
    })
    &&& (b is Var && db < pre.n_ty_vars() && pre.ty_value(db) is Unbound && (a is Apply || a
        is ForAll) ==> {
        let ub = pre.ty_value(db)->Unbound_0;
        &&& (univ_ok(pre, a, 0, ub) ==> {
            &&& r is Ok
            &&& forall|j: int|
                0 <= j < pre.n_ty_vars() && (#[trigger] pre.ty_unify.root_of(j))
                    == pre.ty_unify.root_of(db) ==> post.ty_value(j)
                    == InferenceValue::<TyView>::Bound(a)
            &&& forall|j: int|
                0 <= j < pre.n_ty_vars() && (#[trigger] pre.ty_unify.root_of(j))
                    != pre.ty_unify.root_of(db) ==> post.ty_value(j) == pre.ty_value(j)
        })
        &&& (!univ_ok(pre, a, 0, ub) ==> r == Result::<(), UnifyError>::Err(
            UnifyError::UniverseViolation,
        ) && post == pre)
    })
    &&& (a is Apply && b is Apply && (a->Apply_0 != b->Apply_0 || a->Apply_1.len()
        != b->Apply_1.len()) ==> r == Result::<(), UnifyError>::Err(UnifyError::Mismatch) && post
        == pre)
    &&& (a is ForAll && b is ForAll ==> {
        &&& (a == b ==> r is Ok && post == pre)
        &&& (a != b ==> r == Result::<(), UnifyError>::Err(UnifyError::Mismatch) && post == pre)
    })
    &&& ((a is Apply && b is ForAll) || (a is ForAll && b is Apply) ==> r == Result::<
        (),
        UnifyError,
    >::Err(UnifyError::Mismatch) && post == pre)
}

/// The two terms are one and the same and already fully dereferenced in `t`:
/// nothing in them resolves further.
pub open spec fn resolved_eq(t: InferenceTable, a: TyView, b: TyView) -> bool {
    a == b && deep_norm_ty(t, a, 0, t.n_ty_vars() + 1) == Some(a)
}

/// The frame composes across successive steps.
pub proof fn lemma_ty_frame_trans(pre: InferenceTable, mid: InferenceTable, post: InferenceTable)
    requires
        ty_frame(pre, mid),
        ty_frame(mid, post),
    ensures
        ty_frame(pre, post),
{
    assert forall|j: int|
        0 <= j < pre.n_ty_vars() && (#[trigger] pre.ty_value(j)) is Bound implies post.ty_value(j)
        == pre.ty_value(j) by {
        assert(mid.ty_value(j) == pre.ty_value(j));
    }
}

impl InferenceTable {
    /// One unification step with a recursion budget; every recursive call
    /// spends one unit.
    #[verifier::loop_isolation(false)]
    fn unify_ty_rec(&mut self, a: &Ty, b: &Ty, fuel: usize) -> (r: Result<(), UnifyError>)
        requires
            old(self).wf(),
            term_ok(ty_view(*a), 0),
            term_ok(ty_view(*b), 0),
            view_in_range(ty_view(*a), 0, old(self).n_ty_vars()),
            view_in_range(ty_view(*b), 0, old(self).n_ty_vars()),
        ensures
            ty_frame(*old(self), *final(self)),
            unify_obs(*old(self), *final(self), ty_view(*a), ty_view(*b), r),
            resolved_eq(*old(self), ty_view(*a), ty_view(*b)) && view_height(ty_view(*a)) <= fuel
                ==> r is Ok && *final(self) == *old(self),
        decreases fuel,
    {
        let na = self.normalize_shallow(a, 0);
        if let Some(t) = na {
            proof {
                if resolved_eq(*old(self), ty_view(*a), ty_view(*b)) {
                    lemma_norm_to_var(
                        *old(self),
                        ty_view(*a),
                        old(self).n_ty_vars() + 1,
                        ty_view(*a)->Var_0,
                    );
                    assert(false);
                }
            }
            if fuel == 0 {
                return Err(UnifyError::DepthLimit);
            }
            proof {
                crate::ir::lemma_up_ty_zero(
                    old(self).ty_value(ty_view(*a)->Var_0)->Bound_0,
                    0,
                );
            }
            let r = self.unify_ty_rec(&t, b, fuel - 1);
            return r;
        }
        let nb = self.normalize_shallow(b, 0);
        if let Some(t) = nb {
            proof {
                if resolved_eq(*old(self), ty_view(*a), ty_view(*b)) {
                    lemma_norm_to_var(
                        *old(self),
                        ty_view(*b),
                        old(self).n_ty_vars() + 1,
                        ty_view(*b)->Var_0,
                    );
                    assert(false);
                }
            }
            if fuel == 0 {
                return Err(UnifyError::DepthLimit);
            }
            proof {
                crate::ir::lemma_up_ty_zero(
                    old(self).ty_value(ty_view(*b)->Var_0)->Bound_0,
                    0,
                );
            }
            let r = self.unify_ty_rec(a, &t, fuel - 1);
            return r;
        }
        match (a, b) {
            (Ty::Var(da), Ty::Var(db)) => {
                self.union_ty_vars(*da, *db);
                Ok(())
            }
            (Ty::Var(da), _) => {
                let ua = match self.ty_unify.probe(*da) {
                    InferenceValue::Unbound(u) => *u,
                    InferenceValue::Bound(_) => vstd::pervasive::unreached(),
                };
                if self.univ_check(b, 0, ua) {
                    let val = clone_ty(b);
                    self.bind_ty_var(*da, val);
                    Ok(())
                } else {
                    Err(UnifyError::UniverseViolation)
                }
            }
            (_, Ty::Var(db)) => {
                let ub = match self.ty_unify.probe(*db) {
                    InferenceValue::Unbound(u) => *u,
                    InferenceValue::Bound(_) => vstd::pervasive::unreached(),
                };
                if self.univ_check(a, 0, ub) {
                    let val = clone_ty(a);
                    self.bind_ty_var(*db, val);
                    Ok(())
                } else {
                    Err(UnifyError::UniverseViolation)
                }
            }
            (Ty::Apply(a1), Ty::Apply(a2)) => {
                proof {
                    crate::ir::lemma_tys_view(a1.parameters@);
                    crate::ir::lemma_tys_view(a2.parameters@);
                }
                if !(a1.name == a2.name) {
                    return Err(UnifyError::Mismatch);
                }
                if a1.parameters.len() != a2.parameters.len() {
                    return Err(UnifyError::Mismatch);
                }
                let n = a1.parameters.len();
                let mut i: usize = 0;
                while i < n
                    invariant
                        i <= n,
                        n == a1.parameters@.len(),
                        n == a2.parameters@.len(),
                        ty_frame(*old(self), *self),
                        resolved_eq(*old(self), ty_view(*a), ty_view(*b)) && view_height(
                            ty_view(*a),
                        ) <= fuel ==> *self == *old(self),
                    decreases n - i,
                {
                    if fuel == 0 {
                        proof {
                            if resolved_eq(*old(self), ty_view(*a), ty_view(*b)) && view_height(
                                ty_view(*a),
                            ) <= fuel {
                                assert(view_height(ty_view(*a)) >= 1);
                                assert(false);
                            }
                        }
                        return Err(UnifyError::DepthLimit);
                    }
                    proof {
                        crate::ir::lemma_tys_view(a1.parameters@);
                        crate::ir::lemma_tys_view(a2.parameters@);
                        crate::ir::lemma_ok_apply(
                            a1.name,
                            crate::ir::tys_view(a1.parameters@),
                            0,
                            old(self).n_ty_vars(),
                            i as int,
                        );
                        crate::ir::lemma_ok_apply(
                            a2.name,
                            crate::ir::tys_view(a2.parameters@),
                            0,
                            old(self).n_ty_vars(),
                            i as int,
                        );
                        if resolved_eq(*old(self), ty_view(*a), ty_view(*b)) && view_height(
                            ty_view(*a),
                        ) <= fuel {
                            assert(ty_view(*a) == TyView::Apply(
                                a1.name,
                                crate::ir::tys_view(a1.parameters@),
                            ));
                            assert(ty_view(*b) == TyView::Apply(
                                a2.name,
                                crate::ir::tys_view(a2.parameters@),
                            ));
                            assert(crate::ir::tys_view(a1.parameters@) == crate::ir::tys_view(
                                a2.parameters@,
                            ));
                            lemma_norm_self_apply(
                                *old(self),
                                a1.name,
                                crate::ir::tys_view(a1.parameters@),
                                old(self).n_ty_vars() + 1,
                                i as int,
                            );
                            lemma_height_child(crate::ir::tys_view(a1.parameters@), i as int);
                        }
                    }
                    let ghost mid = *self;
                    let step = self.unify_ty_rec(&a1.parameters[i], &a2.parameters[i], fuel - 1);
                    proof {
                        lemma_ty_frame_trans(*old(self), mid, *self);
                        if resolved_eq(*old(self), ty_view(*a), ty_view(*b)) && view_height(
                            ty_view(*a),
                        ) <= fuel {
                            assert(mid == *old(self));
                            assert(ty_view(a1.parameters@[i as int]) == crate::ir::tys_view(
                                a1.parameters@,
                            )[i as int]);
                            assert(ty_view(a2.parameters@[i as int]) == crate::ir::tys_view(
                                a2.parameters@,
                            )[i as int]);
                            assert(resolved_eq(
                                mid,
                                ty_view(a1.parameters@[i as int]),
                                ty_view(a2.parameters@[i as int]),
                            ));
                            assert(view_height(ty_view(a1.parameters@[i as int])) <= fuel - 1);
                            assert(step is Ok && *self == mid);
                        }
                    }
                    match step {
                        Ok(()) => {}
                        Err(e) => {
                            return Err(e);
                        }
                    }
                    i += 1;
                }
                Ok(())
            }
            (Ty::ForAll(q1), Ty::ForAll(q2)) => {
                if q1.num_binders != q2.num_binders {
                    return Err(UnifyError::Mismatch);
                }
                if ty_eq(&q1.ty, &q2.ty) {
                    Ok(())
                } else {
                    Err(UnifyError::Mismatch)
                }
            }
            _ => Err(UnifyError::Mismatch),
        }
    }

    /// Attempts to make the two type terms equal, binding unbound inference
    /// variables and recursing structurally into matching constructors. Two
    /// quantified types unify only when their bodies are structurally equal:
    /// no variable is bound under a binder. Failure may leave earlier
    /// bindings of this attempt in place: callers needing atomicity run it
    /// inside `commit_if_ok`. Beyond the one-step clauses of `unify_obs`,
    /// success is owed, with the table untouched, whenever the two terms are
    /// one and the same fully dereferenced term (`resolved_eq`); for terms
    /// headed by an already-bound variable only the frame is stated.
    pub fn unify(&mut self, a: &Ty, b: &Ty) -> (r: Result<UnificationResult, UnifyError>)
        requires
            old(self).wf(),
            term_ok(ty_view(*a), 0),
            term_ok(ty_view(*b), 0),
            view_in_range(ty_view(*a), 0, old(self).n_ty_vars()),
            view_in_range(ty_view(*b), 0, old(self).n_ty_vars()),
        ensures
            ty_frame(*old(self), *final(self)),
            unify_obs(
                *old(self),
                *final(self),
                ty_view(*a),
                ty_view(*b),
                if r is Ok {
                    Result::<(), UnifyError>::Ok(())
                } else {
                    Result::<(), UnifyError>::Err(r->Err_0)
                },
            ),
            r matches Ok(u) ==> u.constraints@ == Seq::<(Lifetime, Lifetime)>::empty(),
            resolved_eq(*old(self), ty_view(*a), ty_view(*b)) && view_height(ty_view(*a))
                <= usize::MAX ==> r is Ok && *final(self) == *old(self),
    {
        match self.unify_ty_rec(a, b, usize::MAX) {
            Ok(()) => Ok(UnificationResult { constraints: Vec::new() }),
            Err(e) => Err(e),
        }
    }
}

/// The parts of the table a lifetime unification never touches.
pub open spec fn lt_frame(pre: InferenceTable, post: InferenceTable) -> bool {
    &&& post.wf()
    &&& post.n_ty_vars() == pre.n_ty_vars()
    &&& post.n_lifetime_vars() == pre.n_lifetime_vars()
    &&& post.ty_unify == pre.ty_unify
    &&& post.ty_vars == pre.ty_vars
    &&& post.lifetime_vars == pre.lifetime_vars
    &&& forall|j: int|
        0 <= j < pre.n_lifetime_vars() && (#[trigger] pre.lifetime_value(j)) is Bound
            ==> post.lifetime_value(j) == pre.lifetime_value(j)
}

/// What one lifetime unification step does, over the two lifetimes as given.
pub open spec fn lt_obs(
    pre: InferenceTable,
    post: InferenceTable,
    a: Lifetime,
    b: Lifetime,
    r: Result<Option<(Lifetime, Lifetime)>, UnifyError>,
) -> bool {
    let da = a->Var_0;
    let db = b->Var_0;
    &&& (a is Var && b is Var && da < pre.n_lifetime_vars() && db < pre.n_lifetime_vars()
        && pre.lifetime_value(da as int) is Unbound && pre.lifetime_value(db as int) is Unbound
        ==> {
        &&& r == Result::<Option<(Lifetime, Lifetime)>, UnifyError>::Ok(None)
        &&& (pre.lifetime_unify.root_of(da as int) == pre.lifetime_unify.root_of(db as int)
            ==> post == pre)
        &&& (pre.lifetime_unify.root_of(da as int) != pre.lifetime_unify.root_of(db as int)
            ==> {
            &&& post.lifetime_unify.root_of(da as int) == post.lifetime_unify.root_of(db as int)
            &&& forall|j: int|
                0 <= j < pre.n_lifetime_vars() && ((#[trigger] pre.lifetime_unify.root_of(j))
                    == pre.lifetime_unify.root_of(da as int) || pre.lifetime_unify.root_of(j)
                    == pre.lifetime_unify.root_of(db as int)) ==> post.lifetime_value(j)
                    == InferenceValue::<Lifetime>::Unbound(
                    pre.lifetime_value(da as int)->Unbound_0.spec_min(
                        pre.lifetime_value(db as int)->Unbound_0,
                    ),
                )
            &&& forall|j: int|
                0 <= j < pre.n_lifetime_vars() && (#[trigger] pre.lifetime_unify.root_of(j))
                    != pre.lifetime_unify.root_of(da as int) && pre.lifetime_unify.root_of(j)
                    != pre.lifetime_unify.root_of(db as int) ==> post.lifetime_value(j)
                    == pre.lifetime_value(j)
        })
    })
    &&& (a is Var && da < pre.n_lifetime_vars() && pre.lifetime_value(da as int) is Unbound && b
        is ForAll ==> {
        let ua = pre.lifetime_value(da as int)->Unbound_0;
        &&& (ua.spec_can_see(b->ForAll_0) ==> {
            &&& r == Result::<Option<(Lifetime, Lifetime)>, UnifyError>::Ok(None)
            &&& forall|j: int|
                0 <= j < pre.n_lifetime_vars() && (#[trigger] pre.lifetime_unify.root_of(j))
                    == pre.lifetime_unify.root_of(da as int) ==> post.lifetime_value(j)
                    == InferenceValue::<Lifetime>::Bound(b)
            &&& forall|j: int|
                0 <= j < pre.n_lifetime_vars() && (#[trigger] pre.lifetime_unify.root_of(j))
                    != pre.lifetime_unify.root_of(da as int) ==> post.lifetime_value(j)
                    == pre.lifetime_value(j)
        })
        &&& (!ua.spec_can_see(b->ForAll_0) ==> r == Result::<
            Option<(Lifetime, Lifetime)>,
            UnifyError,
        >::Err(UnifyError::UniverseViolation) && post == pre)
    })
    &&& (b is Var && db < pre.n_lifetime_vars() && pre.lifetime_value(db as int) is Unbound && a
        is ForAll ==> {
        let ub = pre.lifetime_value(db as int)->Unbound_0;
        &&& (ub.spec_can_see(a->ForAll_0) ==> {
            &&& r == Result::<Option<(Lifetime, Lifetime)>, UnifyError>::Ok(None)
            &&& forall|j: int|
                0 <= j < pre.n_lifetime_vars() && (#[trigger] pre.lifetime_unify.root_of(j))
                    == pre.lifetime_unify.root_of(db as int) ==> post.lifetime_value(j)
                    == InferenceValue::<Lifetime>::Bound(a)
            &&& forall|j: int|
                0 <= j < pre.n_lifetime_vars() && (#[trigger] pre.lifetime_unify.root_of(j))
                    != pre.lifetime_unify.root_of(db as int) ==> post.lifetime_value(j)
                    == pre.lifetime_value(j)
        })
        &&& (!ub.spec_can_see(a->ForAll_0) ==> r == Result::<
            Option<(Lifetime, Lifetime)>,
            UnifyError,
        >::Err(UnifyError::UniverseViolation) && post == pre)
    })
    &&& (a is ForAll && b is ForAll ==> {
        &&& (a == b ==> r == Result::<Option<(Lifetime, Lifetime)>, UnifyError>::Ok(None) && post
            == pre)
        &&& (a != b ==> r == Result::<Option<(Lifetime, Lifetime)>, UnifyError>::Ok(
            Some((a, b)),
        ) && post == pre)
    })
}

impl InferenceTable {
    /// Binds the class of the unbound lifetime variable `d` to `val`.
    fn bind_lifetime_var(&mut self, d: usize, val: Lifetime)
        requires
            old(self).wf(),
            d < old(self).n_lifetime_vars(),
            old(self).lifetime_value(d as int) is Unbound,
            val matches Lifetime::Var(x) ==> x < old(self).n_lifetime_vars(),
        ensures
            lt_frame(*old(self), *final(self)),
            forall|j: int|
                0 <= j < old(self).n_lifetime_vars() && (#[trigger] old(self).lifetime_unify.root_of(j)) == old(self).lifetime_unify.root_of(d as int)
                    ==> final(self).lifetime_value(j) == InferenceValue::<Lifetime>::Bound(val),
            forall|j: int|
                0 <= j < old(self).n_lifetime_vars() && (#[trigger] old(self).lifetime_unify.root_of(j)) != old(self).lifetime_unify.root_of(d as int)
                    ==> final(self).lifetime_value(j) == old(self).lifetime_value(j),
            forall|j: int| 0 <= j < old(self).n_lifetime_vars() ==> final(self).lifetime_unify.root_of(j) == old(self).lifetime_unify.root_of(j),
    {
        self.lifetime_unify.set_value(d, InferenceValue::Bound(val));
        proof {
            assert forall|j: int| 0 <= j < self.lifetime_unify.len() implies ((
            #[trigger] self.lifetime_unify.value_view(j)) is Bound ==> (
            self.lifetime_unify.value_view(j)->Bound_0 matches Lifetime::Var(x) ==> x
                < self.n_lifetime_vars())) by {
                if old(self).lifetime_unify.root_of(j) == old(self).lifetime_unify.root_of(
                    d as int,
                ) {
                    assert(self.lifetime_unify.value_of(j) == InferenceValue::Bound(val));
                } else {
                    assert(self.lifetime_unify.value_of(j) == old(self).lifetime_unify.value_of(j));
                    assert(old(self).lifetime_unify.value_view(j) is Bound ==> (old(self).lifetime_unify.value_view(j)->Bound_0 matches Lifetime::Var(x) ==> x < old(self).n_lifetime_vars()));
                }
            }
        }
    }

    /// Merges the classes of two unbound lifetime variables.
    fn union_lifetime_vars(&mut self, da: usize, db: usize)
        requires
            old(self).wf(),
            da < old(self).n_lifetime_vars(),
            db < old(self).n_lifetime_vars(),
            old(self).lifetime_value(da as int) is Unbound,
            old(self).lifetime_value(db as int) is Unbound,
        ensures
            lt_frame(*old(self), *final(self)),
            old(self).lifetime_unify.root_of(da as int) == old(self).lifetime_unify.root_of(
                db as int,
            ) ==> *final(self) == *old(self),
            final(self).lifetime_unify.root_of(da as int) == final(self).lifetime_unify.root_of(
                db as int,
            ),
            forall|j: int|
                0 <= j < old(self).n_lifetime_vars() && ((#[trigger] old(self).lifetime_unify.root_of(j)) == old(self).lifetime_unify.root_of(da as int) || old(self).lifetime_unify.root_of(j) == old(self).lifetime_unify.root_of(db as int))
                    ==> final(self).lifetime_value(j) == InferenceValue::<Lifetime>::Unbound(
                    old(self).lifetime_value(da as int)->Unbound_0.spec_min(
                        old(self).lifetime_value(db as int)->Unbound_0,
                    ),
                ),
            forall|j: int|
                0 <= j < old(self).n_lifetime_vars() && (#[trigger] old(self).lifetime_unify.root_of(j)) != old(self).lifetime_unify.root_of(da as int) && old(self).lifetime_unify.root_of(j) != old(self).lifetime_unify.root_of(db as int)
                    ==> final(self).lifetime_value(j) == old(self).lifetime_value(j),
    {
        proof {
            assert(old(self).lifetime_unify.value_of(da as int) is Unbound);
            assert(old(self).lifetime_unify.value_of(db as int) is Unbound);
        }
        self.lifetime_unify.union(da, db);
        proof {
            assert forall|j: int| 0 <= j < self.lifetime_unify.len() implies ((
            #[trigger] self.lifetime_unify.value_view(j)) is Bound ==> (
            self.lifetime_unify.value_view(j)->Bound_0 matches Lifetime::Var(x) ==> x
                < self.n_lifetime_vars())) by {
                if old(self).lifetime_unify.root_of(j) == old(self).lifetime_unify.root_of(
                    da as int,
                ) || old(self).lifetime_unify.root_of(j) == old(self).lifetime_unify.root_of(
                    db as int,
                ) {
                } else {
                    assert(self.lifetime_unify.value_of(j) == old(self).lifetime_unify.value_of(j));
                    assert(old(self).lifetime_unify.value_view(j) is Bound ==> (old(self).lifetime_unify.value_view(j)->Bound_0 matches Lifetime::Var(x) ==> x < old(self).n_lifetime_vars()));
                }
            }
        }
    }

    /// One lifetime unification step with a recursion budget.
    fn unify_lt_rec(&mut self, a: &Lifetime, b: &Lifetime, fuel: usize) -> (r: Result<
        Option<(Lifetime, Lifetime)>,
        UnifyError,
    >)
        requires
            old(self).wf(),
            *a matches Lifetime::Var(d) ==> d < old(self).n_lifetime_vars(),
            *b matches Lifetime::Var(d) ==> d < old(self).n_lifetime_vars(),
        ensures
            lt_frame(*old(self), *final(self)),
            lt_obs(*old(self), *final(self), *a, *b, r),
        decreases fuel,
    {
        let na = self.normalize_lifetime(a);
        if let Some(l) = na {
            if fuel == 0 {
                return Err(UnifyError::DepthLimit);
            }
            let r = self.unify_lt_rec(&l, b, fuel - 1);
            return r;
        }
        let nb = self.normalize_lifetime(b);
        if let Some(l) = nb {
            if fuel == 0 {
                return Err(UnifyError::DepthLimit);
            }
            let r = self.unify_lt_rec(a, &l, fuel - 1);
            return r;
        }
        match (a, b) {
            (Lifetime::Var(da), Lifetime::Var(db)) => {
                self.union_lifetime_vars(*da, *db);
                Ok(None)
            }
            (Lifetime::Var(da), Lifetime::ForAll(u)) => {
                let ua = match self.lifetime_unify.probe(*da) {
                    InferenceValue::Unbound(x) => *x,
                    InferenceValue::Bound(_) => vstd::pervasive::unreached(),
                };
                if ua.can_see(*u) {
                    self.bind_lifetime_var(*da, Lifetime::ForAll(*u));
                    Ok(None)
                } else {
                    Err(UnifyError::UniverseViolation)
                }
            }
            (Lifetime::ForAll(u), Lifetime::Var(db)) => {
                let ub = match self.lifetime_unify.probe(*db) {
                    InferenceValue::Unbound(x) => *x,
                    InferenceValue::Bound(_) => vstd::pervasive::unreached(),
                };
                if ub.can_see(*u) {
                    self.bind_lifetime_var(*db, Lifetime::ForAll(*u));
                    Ok(None)
                } else {
                    Err(UnifyError::UniverseViolation)
                }
            }
            (Lifetime::ForAll(u1), Lifetime::ForAll(u2)) => {
                if *u1 == *u2 {
                    Ok(None)
                } else {
                    Ok(Some((Lifetime::ForAll(*u1), Lifetime::ForAll(*u2))))
                }
            }
        }
    }

    /// Attempts to make two lifetimes equal: variables are bound or merged,
    /// and a pair of distinct placeholders is handed back as a deferred
    /// constraint rather than decided here. For a lifetime headed by an
    /// already-bound variable, the binding is resolved first and only the
    /// frame is stated of the outcome.
    pub fn unify_lifetimes(&mut self, a: &Lifetime, b: &Lifetime) -> (r: Result<
        UnificationResult,
        UnifyError,
    >)
        requires
            old(self).wf(),
            *a matches Lifetime::Var(d) ==> d < old(self).n_lifetime_vars(),
            *b matches Lifetime::Var(d) ==> d < old(self).n_lifetime_vars(),
        ensures
            lt_frame(*old(self), *final(self)),
            r matches Err(e) ==> lt_obs(
                *old(self),
                *final(self),
                *a,
                *b,
                Result::<Option<(Lifetime, Lifetime)>, UnifyError>::Err(e),
            ),
            r matches Ok(u) ==> u.constraints@.len() <= 1 && lt_obs(
                *old(self),
                *final(self),
                *a,
                *b,
                Result::<Option<(Lifetime, Lifetime)>, UnifyError>::Ok(
                    if u.constraints@.len() == 0 {
                        None
                    } else {
                        Some(u.constraints@[0])
                    },
                ),
            ),
    {
        match self.unify_lt_rec(a, b, usize::MAX) {
            Ok(None) => Ok(UnificationResult { constraints: Vec::new() }),
            Ok(Some(c)) => {
                let mut constraints: Vec<(Lifetime, Lifetime)> = Vec::new();
                constraints.push(c);
                Ok(UnificationResult { constraints })
            }
            Err(e) => Err(e),
        }
    }
}

} // verus!
