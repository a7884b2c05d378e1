pub mod canonicalize;
pub mod instantiate;
pub mod invert;
pub mod ir;
pub mod normalize_deep;
pub mod unify;
pub mod store;
pub mod var;

use vstd::prelude::*;

use ir::{clone_ty, lemma_view_in_range_mono, term_ok, ty_view, up_shift_ty, up_ty, view_in_range};
use store::{UnifyStore, ViewClone};

pub use ir::{
    ApplicationTy, ItemId, Lifetime, QuantifiedTy, Substitution, Ty, TyView, TypeName, DEPTH_LIMIT,
};
pub use canonicalize::Canonicalized;
pub use unify::UnificationResult;
pub use var::{
    InferenceValue, LifetimeInferenceVariable, ParameterKind, TyInferenceVariable, UniverseIndex,
};

verus! {

impl View for Ty {
    type V = TyView;

    open spec fn view(&self) -> TyView {
        ty_view(*self)
    }
}

impl ViewClone for Ty {
    fn view_clone(&self) -> (r: Self)
        ensures
            r@ == self@,
    {
        clone_ty(self)
    }
}

impl View for Lifetime {
    type V = Lifetime;

    open spec fn view(&self) -> Lifetime {
        *self
    }
}

impl ViewClone for Lifetime {
    fn view_clone(&self) -> (r: Self)
        ensures
            r@ == self@,
    {
        *self
    }
}

/// Why a unification attempt was rejected.
#[derive(Clone, Copy, Debug, PartialEq, Eq, Structural)]
pub enum UnifyError {
    /// The two terms differ structurally: head or arity mismatch.
    Mismatch,
    /// Binding would let a placeholder escape the universe that scopes it.
    UniverseViolation,
    /// Resolution did not finish within the table's binding count, which can
    /// only happen on cyclically bound variables.
    DepthLimit,
}

/// A variable key of either kind.
pub type ParameterInferenceVariable = ParameterKind<TyInferenceVariable, LifetimeInferenceVariable>;

/// A quantifier prefix: the kind and universe of each bound position.
pub type KindPrefix = Seq<ParameterKind<UniverseIndex, UniverseIndex>>;

/// The inference table: one union-find store and one creation-order list per
/// variable kind.
#[derive(Debug)]
pub struct InferenceTable {
    pub ty_unify: UnifyStore<Ty>,
    pub ty_vars: Vec<TyInferenceVariable>,
    pub lifetime_unify: UnifyStore<Lifetime>,
    pub lifetime_vars: Vec<LifetimeInferenceVariable>,
}

/// A capture of the whole observable state of an `InferenceTable`, consumed
/// once by either `rollback_to` or `commit`.
#[derive(Debug)]
pub struct InferenceSnapshot {
    pub ty_unify_snapshot: UnifyStore<Ty>,
    pub ty_vars: Vec<TyInferenceVariable>,
    pub lifetime_unify_snapshot: UnifyStore<Lifetime>,
    pub lifetime_vars: Vec<LifetimeInferenceVariable>,
}

impl InferenceTable {
    /// Number of type variables created so far.
    pub open spec fn n_ty_vars(self) -> nat {
        self.ty_unify.len()
    }

    /// Number of lifetime variables created so far.
    pub open spec fn n_lifetime_vars(self) -> nat {
        self.lifetime_unify.len()
    }

    /// The value of a type variable's class, as a model.
    pub open spec fn ty_value(self, i: int) -> InferenceValue<TyView> {
        self.ty_unify.value_view(i)
    }

    /// The value of a lifetime variable's class, as a model.
    pub open spec fn lifetime_value(self, i: int) -> InferenceValue<Lifetime> {
        self.lifetime_unify.value_view(i)
    }

    /// Every value a type variable is bound to respects the depth bound and
    /// names only variables the table owns.
    pub open spec fn values_ok(self) -> bool {
        forall|j: int|
            0 <= j < self.ty_unify.len() ==> ((#[trigger] self.ty_unify.value_view(j)) is Bound
                ==> term_ok(self.ty_unify.value_view(j)->Bound_0, 0) && view_in_range(
                self.ty_unify.value_view(j)->Bound_0,
                0,
                self.n_ty_vars(),
            ))
    }

    /// Every value a lifetime variable is bound to names only variables the
    /// table owns.
    pub open spec fn lifetime_values_ok(self) -> bool {
        forall|j: int|
            0 <= j < self.lifetime_unify.len() ==> ((#[trigger] self.lifetime_unify.value_view(j))
                is Bound ==> (self.lifetime_unify.value_view(j)->Bound_0 matches Lifetime::Var(d)
                ==> d < self.n_lifetime_vars()))
    }

    pub open spec fn wf(self) -> bool {
        &&& self.ty_unify.wf()
        &&& self.lifetime_unify.wf()
        &&& self.values_ok()
        &&& self.lifetime_values_ok()
        &&& self.ty_vars@.len() == self.ty_unify.len()
        &&& forall|i: int|
            0 <= i < self.ty_vars@.len() ==> (#[trigger] self.ty_vars@[i]).index == i
        &&& self.lifetime_vars@.len() == self.lifetime_unify.len()
        &&& forall|i: int|
            0 <= i < self.lifetime_vars@.len() ==> (#[trigger] self.lifetime_vars@[i]).index == i
    }

    /// Two tables with the same observable state: same variables, same
    /// union-find partition, same bindings, up to the model of the terms.
    pub open spec fn same_state(self, other: InferenceTable) -> bool {
        &&& self.ty_unify.store_view() == other.ty_unify.store_view()
        &&& self.ty_vars@ == other.ty_vars@
        &&& self.lifetime_unify.store_view() == other.lifetime_unify.store_view()
        &&& self.lifetime_vars@ == other.lifetime_vars@
    }

    pub fn new() -> (r: InferenceTable)
        ensures
            r.wf(),
            r.n_ty_vars() == 0,
            r.n_lifetime_vars() == 0,
    {
        InferenceTable {
            ty_unify: UnifyStore { entries: Vec::new() },
            ty_vars: Vec::new(),
            lifetime_unify: UnifyStore { entries: Vec::new() },
            lifetime_vars: Vec::new(),
        }
    }

    /// Creates a fresh type variable, unbound in the given universe, and
    /// appends it to the creation-order list.
    pub fn new_variable(&mut self, ui: UniverseIndex) -> (v: TyInferenceVariable)
        requires
            old(self).wf(),
        ensures
            final(self).wf(),
            v.index == old(self).n_ty_vars(),
            final(self).n_ty_vars() == old(self).n_ty_vars() + 1,
            final(self).ty_value(v.index as int) == InferenceValue::<TyView>::Unbound(ui),
            final(self).ty_unify.root_of(v.index as int) == v.index as int,
            final(self).ty_vars@ == old(self).ty_vars@.push(v),
            forall|j: int| 0 <= j < old(self).n_ty_vars() ==> final(self).ty_value(j) == old(self).ty_value(j),
            forall|j: int| 0 <= j < old(self).n_ty_vars() ==> final(self).ty_unify.root_of(j)
                == old(self).ty_unify.root_of(j),
            final(self).lifetime_unify == old(self).lifetime_unify,
            final(self).lifetime_vars == old(self).lifetime_vars,
    {
        let idx: usize = self.ty_unify.new_key(ui);
        let v = TyInferenceVariable::from_depth(idx);
        self.ty_vars.push(v);
        proof {
            assert forall|j: int| 0 <= j < self.ty_unify.len() implies ((
            #[trigger] self.ty_unify.value_view(j)) is Bound ==> term_ok(
                self.ty_unify.value_view(j)->Bound_0,
                0,
            ) && view_in_range(self.ty_unify.value_view(j)->Bound_0, 0, self.n_ty_vars())) by {
                if j < old(self).ty_unify.len() {
                    assert(self.ty_unify.value_of(j) == old(self).ty_unify.value_of(j));
                    assert(old(self).ty_unify.value_view(j) is Bound ==> term_ok(
                        old(self).ty_unify.value_view(j)->Bound_0,
                        0,
                    ) && view_in_range(
                        old(self).ty_unify.value_view(j)->Bound_0,
                        0,
                        old(self).n_ty_vars(),
                    ));
                    if self.ty_unify.value_view(j) is Bound {
                        lemma_view_in_range_mono(
                            self.ty_unify.value_view(j)->Bound_0,
                            0,
                            old(self).n_ty_vars(),
                            self.n_ty_vars(),
                        );
                    }
                } else {
                    assert(self.ty_unify.value_of(j) == InferenceValue::<Ty>::Unbound(ui));
                }
            }
        }
        v
    }

    /// Creates a fresh lifetime variable, unbound in the given universe.
    pub fn new_lifetime_variable(&mut self, ui: UniverseIndex) -> (v: LifetimeInferenceVariable)
        requires
            old(self).wf(),
        ensures
            final(self).wf(),
            v.index == old(self).n_lifetime_vars(),
            final(self).n_lifetime_vars() == old(self).n_lifetime_vars() + 1,
            final(self).lifetime_value(v.index as int) == InferenceValue::<Lifetime>::Unbound(ui),
            final(self).lifetime_unify.root_of(v.index as int) == v.index as int,
            final(self).lifetime_vars@ == old(self).lifetime_vars@.push(v),
            forall|j: int| 0 <= j < old(self).n_lifetime_vars() ==> final(self).lifetime_value(j)
                == old(self).lifetime_value(j),
            forall|j: int| 0 <= j < old(self).n_lifetime_vars() ==> final(self).lifetime_unify.root_of(j) == old(self).lifetime_unify.root_of(j),
            final(self).ty_unify == old(self).ty_unify,
            final(self).ty_vars == old(self).ty_vars,
    {
        let idx: usize = self.lifetime_unify.new_key(ui);
        let v = LifetimeInferenceVariable::from_depth(idx);
        self.lifetime_vars.push(v);
        proof {
            assert forall|j: int| 0 <= j < self.lifetime_unify.len() implies ((
            #[trigger] self.lifetime_unify.value_view(j)) is Bound ==> (
            self.lifetime_unify.value_view(j)->Bound_0 matches Lifetime::Var(d) ==> d
                < self.n_lifetime_vars())) by {
                if j < old(self).lifetime_unify.len() {
                    assert(self.lifetime_unify.value_of(j) == old(
                        self,
                    ).lifetime_unify.value_of(j));
                    assert(old(self).lifetime_unify.value_view(j) is Bound ==> (old(
                        self,
                    ).lifetime_unify.value_view(j)->Bound_0 matches Lifetime::Var(d) ==> d < old(
                        self,
                    ).n_lifetime_vars()));
                } else {
                    assert(self.lifetime_unify.value_of(j) == InferenceValue::<Lifetime>::Unbound(
                        ui,
                    ));
                }
            }
        }
        v
    }

    /// Creates a fresh variable of the requested kind, preserving the kind
    /// tag in the result.
    pub fn new_parameter_variable(&mut self, ui: ParameterKind<UniverseIndex, UniverseIndex>) -> (v:
        ParameterInferenceVariable)
        requires
            old(self).wf(),
        ensures
            final(self).wf(),
            ui is Ty <==> v is Ty,
            v matches ParameterKind::Ty(tv) ==> ui matches ParameterKind::Ty(u) && tv.index == old(self).n_ty_vars() && final(self).n_ty_vars() == old(self).n_ty_vars() + 1 && final(self).ty_value(tv.index as int) == InferenceValue::<TyView>::Unbound(u) && final(self).ty_unify.root_of(tv.index as int) == tv.index as int && final(self).lifetime_unify == old(self).lifetime_unify,
            v matches ParameterKind::Lifetime(lv) ==> ui matches ParameterKind::Lifetime(u)
                && lv.index == old(self).n_lifetime_vars() && final(self).n_lifetime_vars() == old(self).n_lifetime_vars() + 1 && final(self).lifetime_value(lv.index as int)
                == InferenceValue::<Lifetime>::Unbound(u) && final(self).lifetime_unify.root_of(lv.index as int) == lv.index as int && final(self).ty_unify == old(self).ty_unify,
    {
        match ui {
            ParameterKind::Ty(u) => ParameterKind::Ty(self.new_variable(u)),
            ParameterKind::Lifetime(u) => ParameterKind::Lifetime(self.new_lifetime_variable(u)),
        }
    }

    /// The type variables in creation order.
    pub fn ty_vars(&self) -> (r: &[TyInferenceVariable])
        ensures
            r@ == self.ty_vars@,
    {
        self.ty_vars.as_slice()
    }

    /// The lifetime variables in creation order.
    pub fn lifetime_vars(&self) -> (r: &[LifetimeInferenceVariable])
        ensures
            r@ == self.lifetime_vars@,
    {
        self.lifetime_vars.as_slice()
    }

    /// Captures the whole observable state, leaving the table unchanged.
    pub fn snapshot(&mut self) -> (snap: InferenceSnapshot)
        requires
            old(self).wf(),
        ensures
            *final(self) == *old(self),
            snap.wf(),
            snap.as_table().same_state(*old(self)),
    {
        let ty_unify_snapshot = self.ty_unify.duplicate();
        let lifetime_unify_snapshot = self.lifetime_unify.duplicate();
        let ty_vars = copy_ty_vars(&self.ty_vars);
        let lifetime_vars = copy_lifetime_vars(&self.lifetime_vars);
        InferenceSnapshot { ty_unify_snapshot, lifetime_unify_snapshot, ty_vars, lifetime_vars }
    }

    /// Restores the table to exactly the captured state, discarding every
    /// binding and every variable creation made since.
    pub fn rollback_to(&mut self, snapshot: InferenceSnapshot)
        requires
            snapshot.wf(),
        ensures
            final(self).wf(),
            final(self).same_state(snapshot.as_table()),
    {
        let InferenceSnapshot { ty_unify_snapshot, ty_vars, lifetime_unify_snapshot, lifetime_vars }
            = snapshot;
        self.ty_unify = ty_unify_snapshot;
        self.ty_vars = ty_vars;
        self.lifetime_unify = lifetime_unify_snapshot;
        self.lifetime_vars = lifetime_vars;
    }

    /// Discards the snapshot, keeping every change made since: the table is
    /// left exactly as it is.
    pub fn commit(&mut self, snapshot: InferenceSnapshot)
        ensures
            *final(self) == *old(self),
    {
        let _ = snapshot;
    }
}

/// Copies a creation-order list of type variables exactly.
fn copy_ty_vars(v: &Vec<TyInferenceVariable>) -> (r: Vec<TyInferenceVariable>)
    ensures
        r@ == v@,
{
    let mut r: Vec<TyInferenceVariable> = Vec::new();
    let mut i: usize = 0;
    while i < v.len()
        invariant
            i <= v@.len(),
            r@ == v@.subrange(0, i as int),
        decreases v@.len() - i,
    {
        r.push(v[i]);
        proof {
            assert(r@ =~= v@.subrange(0, i + 1));
        }
        i += 1;
    }
    proof {
        assert(r@ =~= v@);
    }
    r
}

/// Copies a creation-order list of lifetime variables exactly.
fn copy_lifetime_vars(v: &Vec<LifetimeInferenceVariable>) -> (r: Vec<LifetimeInferenceVariable>)
    ensures
        r@ == v@,
{
    let mut r: Vec<LifetimeInferenceVariable> = Vec::new();
    let mut i: usize = 0;
    while i < v.len()
        invariant
            i <= v@.len(),
            r@ == v@.subrange(0, i as int),
        decreases v@.len() - i,
    {
        r.push(v[i]);
        proof {
            assert(r@ =~= v@.subrange(0, i + 1));
        }
        i += 1;
    }
    proof {
        assert(r@ =~= v@);
    }
    r
}

impl InferenceSnapshot {
    /// The captured state, laid out as a table, for stating what `rollback_to`
    /// restores.
    pub open spec fn as_table(self) -> InferenceTable {
        InferenceTable {
            ty_unify: self.ty_unify_snapshot,
            ty_vars: self.ty_vars,
            lifetime_unify: self.lifetime_unify_snapshot,
            lifetime_vars: self.lifetime_vars,
        }
    }

    pub open spec fn wf(self) -> bool {
        self.as_table().wf()
    }
}

impl InferenceTable {
    /// The result of resolving `leaf` one step under `binders` binders: the
    /// shifted binding of the inference variable it denotes, if any.
    pub open spec fn shallow_resolved(self, leaf: TyView, binders: nat) -> Option<TyView> {
        match leaf {
            TyView::Var(d) => if d < binders {
                None
            } else {
                match self.ty_value(d - binders) {
                    InferenceValue::Unbound(_) => None,
                    InferenceValue::Bound(v) => Some(up_ty(v, binders, 0)),
                }
            },
            _ => None,
        }
    }

    /// The result of resolving a lifetime one step.
    pub open spec fn lifetime_resolved(self, leaf: Lifetime) -> Option<Lifetime> {
        match leaf {
            Lifetime::Var(d) => match self.lifetime_value(d as int) {
                InferenceValue::Unbound(_) => None,
                InferenceValue::Bound(l) => Some(l),
            },
            Lifetime::ForAll(_) => None,
        }
    }

    /// If `leaf` is a free inference variable under `binders` binders and
    /// that variable is bound, returns its value shifted up by `binders` so
    /// that it stays valid at the original nesting depth; otherwise nothing.
    pub fn normalize_shallow(&mut self, leaf: &Ty, binders: usize) -> (r: Option<Ty>)
        requires
            old(self).wf(),
            binders <= DEPTH_LIMIT,
            ty_view(*leaf) matches TyView::Var(d) ==> (d >= binders ==> d - binders < old(
                self,
            ).n_ty_vars()),
        ensures
            *final(self) == *old(self),
            (r is Some <==> old(self).shallow_resolved(ty_view(*leaf), binders as nat) is Some),
            r matches Some(t) ==> old(self).shallow_resolved(ty_view(*leaf), binders as nat)
                matches Some(tv) && ty_view(t) == tv,
    {
        match leaf {
            Ty::Var(depth) => {
                if *depth < binders {
                    None
                } else {
                    let var = TyInferenceVariable::from_depth(*depth - binders);
                    match self.ty_unify.probe(var.to_usize()) {
                        InferenceValue::Unbound(_) => None,
                        InferenceValue::Bound(val) => Some(up_shift_ty(val, binders, 0)),
                    }
                }
            }
            _ => None,
        }
    }

    /// Resolves a lifetime variable one step, if it is bound.
    pub(crate) fn normalize_lifetime(&mut self, leaf: &Lifetime) -> (r: Option<Lifetime>)
        requires
            old(self).wf(),
            *leaf matches Lifetime::Var(d) ==> d < old(self).n_lifetime_vars(),
        ensures
            *final(self) == *old(self),
            r == old(self).lifetime_resolved(*leaf),
    {
        match leaf {
            Lifetime::Var(v) => self.probe_lifetime_var(LifetimeInferenceVariable::from_depth(*v)),
            Lifetime::ForAll(_) => None,
        }
    }

    /// The binding of `var`, with no shift adjustment: only valid when the
    /// reference is not nested under binders relative to the table's frame.
    pub fn probe_var(&mut self, var: TyInferenceVariable) -> (r: Option<Ty>)
        requires
            old(self).wf(),
            var.index < old(self).n_ty_vars(),
        ensures
            *final(self) == *old(self),
            (r is Some <==> old(self).ty_value(var.index as int) is Bound),
            r matches Some(t) ==> ty_view(t) == old(self).ty_value(var.index as int)->Bound_0,
    {
        match self.ty_unify.probe(var.to_usize()) {
            InferenceValue::Unbound(_) => None,
            InferenceValue::Bound(val) => Some(clone_ty(val)),
        }
    }

    /// The binding of a lifetime variable.
    pub fn probe_lifetime_var(&mut self, var: LifetimeInferenceVariable) -> (r: Option<Lifetime>)
        requires
            old(self).wf(),
            var.index < old(self).n_lifetime_vars(),
        ensures
            *final(self) == *old(self),
            (r is Some <==> old(self).lifetime_value(var.index as int) is Bound),
            r matches Some(l) ==> l == old(self).lifetime_value(var.index as int)->Bound_0,
    {
        match self.lifetime_unify.probe(var.to_usize()) {
            InferenceValue::Unbound(_) => None,
            InferenceValue::Bound(val) => Some(*val),
        }
    }

    /// Runs `op` on the table; on success keeps its outcome, on failure
    /// leaves the table exactly as it was. `op` receives a table in the same
    /// observable state as this one.
    pub fn commit_if_ok<R, F: FnOnce(InferenceTable) -> (InferenceTable, Result<
        R,
        UnifyError,
    >)>(&mut self, op: F) -> (r: Result<R, UnifyError>)
        requires
            old(self).wf(),
            forall|t: InferenceTable| t.wf() && t.same_state(*old(self)) ==> call_requires(
                op,
                (t,),
            ),
        ensures
            r is Err ==> *final(self) == *old(self),
            r matches Err(e) ==> exists|t1: InferenceTable, t2: InferenceTable|
                t1.wf() && t1.same_state(*old(self)) && call_ensures(
                    op,
                    (t1,),
                    (t2, Result::<R, UnifyError>::Err(e)),
                ),
            r matches Ok(v) ==> exists|t1: InferenceTable, t2: InferenceTable|
                t1.wf() && t1.same_state(*old(self)) && call_ensures(
                    op,
                    (t1,),
                    (t2, Result::<R, UnifyError>::Ok(v)),
                ) && *final(self) == t2,
    {
        let t1 = InferenceTable {
            ty_unify: self.ty_unify.duplicate(),
            ty_vars: copy_ty_vars(&self.ty_vars),
            lifetime_unify: self.lifetime_unify.duplicate(),
            lifetime_vars: copy_lifetime_vars(&self.lifetime_vars),
        };
        proof {
            assert forall|j: int| 0 <= j < t1.ty_unify.len() implies ((
            #[trigger] t1.ty_unify.value_view(j)) is Bound ==> term_ok(
                t1.ty_unify.value_view(j)->Bound_0,
                0,
            )) by {
                assert(t1.ty_unify.value_view(j) == old(self).ty_unify.value_view(j));
            }
            assert(t1.wf());
            assert(t1.same_state(*old(self)));
        }
        let (t2, res) = op(t1);
        match res {
            Ok(v) => {
                *self = t2;
                Ok(v)
            }
            Err(e) => Err(e),
        }
    }
}

impl Ty {
    /// If this is a variable reference, its depth.
    pub fn var(&self) -> (r: Option<usize>)
        ensures
            (r is Some <==> ty_view(*self) is Var),
            r matches Some(d) ==> ty_view(*self) == TyView::Var(d as int),
    {
        if let Ty::Var(depth) = self {
            Some(*depth)
        } else {
            None
        }
    }

    /// If this is a variable reference, the inference variable it denotes;
    /// only meaningful when it sits under no binders.
    pub fn inference_var(&self) -> (r: Option<TyInferenceVariable>)
        ensures
            (r is Some <==> ty_view(*self) is Var),
            r matches Some(v) ==> ty_view(*self) == TyView::Var(v.index as int),
    {
        match self.var() {
            Some(d) => Some(TyInferenceVariable::from_depth(d)),
            None => None,
        }
    }
}

impl Lifetime {
    /// If this is a variable reference, its depth.
    pub fn var(&self) -> (r: Option<usize>)
        ensures
            (r is Some <==> *self is Var),
            r matches Some(d) ==> *self == Lifetime::Var(d),
    {
        if let Lifetime::Var(depth) = self {
            Some(*depth)
        } else {
            None
        }
    }

    /// If this is a variable reference, the inference variable it denotes.
    pub fn inference_var(&self) -> (r: Option<LifetimeInferenceVariable>)
        ensures
            (r is Some <==> *self is Var),
            r matches Some(v) ==> *self == Lifetime::Var(v.index),
    {
        match self.var() {
            Some(d) => Some(LifetimeInferenceVariable::from_depth(d)),
            None => None,
        }
    }
}

impl Substitution {
    /// Every variable named by an entry exists in the table.
    pub open spec fn vars_in_range(self, t: InferenceTable) -> bool {
        &&& forall|i: int|
            0 <= i < self.tys@.len() ==> ((#[trigger] ty_view(self.tys@[i].1)) matches TyView::Var(
                d,
            ) ==> d < t.n_ty_vars())
        &&& forall|i: int|
            0 <= i < self.lifetimes@.len() ==> ((#[trigger] self.lifetimes@[i].1) matches
                Lifetime::Var(d) ==> d < t.n_lifetime_vars())
    }

    /// The identity condition: every entry that is a variable reference is
    /// still unbound, so applying the substitution resolves nothing new.
    pub open spec fn spec_trivial_within(self, t: InferenceTable) -> bool {
        &&& forall|i: int|
            0 <= i < self.tys@.len() ==> ((#[trigger] ty_view(self.tys@[i].1)) matches TyView::Var(
                d,
            ) ==> t.ty_value(d) is Unbound)
        &&& forall|i: int|
            0 <= i < self.lifetimes@.len() ==> ((#[trigger] self.lifetimes@[i].1) matches
                Lifetime::Var(d) ==> t.lifetime_value(d as int) is Unbound)
    }

    /// True exactly when this substitution is the identity in the given
    /// inference context: every type and lifetime entry is either not a
    /// variable reference or an inference variable that is still unbound.
    #[verifier::loop_isolation(false)]
    pub fn is_trivial_within(&self, in_infer: &mut InferenceTable) -> (r: bool)
        requires
            old(in_infer).wf(),
            self.vars_in_range(*old(in_infer)),
        ensures
            *final(in_infer) == *old(in_infer),
            r == self.spec_trivial_within(*old(in_infer)),
    {
        let mut i: usize = 0;
        while i < self.tys.len()
            invariant
                i <= self.tys@.len(),
                *in_infer == *old(in_infer),
                forall|j: int|
                    0 <= j < i ==> ((#[trigger] ty_view(self.tys@[j].1)) matches TyView::Var(d)
                        ==> in_infer.ty_value(d) is Unbound),
            decreases self.tys@.len() - i,
        {
            if let Some(var) = self.tys[i].1.inference_var() {
                if in_infer.probe_var(var).is_some() {
                    return false;
                }
            }
            i += 1;
        }
        let mut k: usize = 0;
        while k < self.lifetimes.len()
            invariant
                k <= self.lifetimes@.len(),
                *in_infer == *old(in_infer),
                forall|j: int|
                    0 <= j < k ==> ((#[trigger] self.lifetimes@[j].1) matches Lifetime::Var(d)
                        ==> in_infer.lifetime_value(d as int) is Unbound),
            decreases self.lifetimes@.len() - k,
        {
            if let Some(var) = self.lifetimes[k].1.inference_var() {
                if in_infer.probe_lifetime_var(var).is_some() {
                    return false;
                }
            }
            k += 1;
        }
        true
    }
}

} // verus!
