use infer::ApplicationTy;
use infer::InferenceTable;
use infer::ItemId;
use infer::Lifetime;
use infer::LifetimeInferenceVariable;
use infer::ParameterKind;
use infer::Substitution;
use infer::Ty;
use infer::TyInferenceVariable;
use infer::TypeName;
use infer::UniverseIndex;

fn u(counter: usize) -> UniverseIndex {
    UniverseIndex { counter }
}

fn list_of(depth: usize) -> Ty {
    Ty::Apply(ApplicationTy {
        name: TypeName::ItemId(ItemId { index: 100 }),
        parameters: vec![Ty::Var(depth)],
    })
}

#[test]
fn fresh_variables_are_unbound_and_listed_in_order() {
    let mut table = InferenceTable::new();
    let a = table.new_variable(u(0));
    let b = table.new_variable(u(1));
    assert_eq!(a.to_usize(), 0);
    assert_eq!(b.to_usize(), 1);
    assert_eq!(table.ty_vars().len(), 2);
    assert_eq!(table.ty_vars()[0], a);
    assert_eq!(table.ty_vars()[1], b);
    assert_eq!(table.probe_var(a), None);
    assert_eq!(table.probe_var(b), None);
}

#[test]
fn lifetime_variables_are_independent_of_type_variables() {
    let mut table = InferenceTable::new();
    let _a = table.new_variable(u(0));
    let l = table.new_lifetime_variable(u(0));
    assert_eq!(l.to_usize(), 0);
    assert_eq!(table.lifetime_vars().len(), 1);
    assert_eq!(table.ty_vars().len(), 1);
    assert_eq!(table.probe_lifetime_var(l), None);
}

#[test]
fn parameter_variable_dispatches_by_kind() {
    let mut table = InferenceTable::new();
    let v = table.new_parameter_variable(ParameterKind::Ty(u(0)));
    match v {
        ParameterKind::Ty(tv) => assert_eq!(tv.to_usize(), 0),
        ParameterKind::Lifetime(_) => panic!("expected a type variable"),
    }
    let w = table.new_parameter_variable(ParameterKind::Lifetime(u(2)));
    match w {
        ParameterKind::Lifetime(lv) => assert_eq!(lv.to_usize(), 0),
        ParameterKind::Ty(_) => panic!("expected a lifetime variable"),
    }
}

#[test]
fn rollback_restores_counts_and_probes() {
    let mut table = InferenceTable::new();
    let a = table.new_variable(u(0));
    let snapshot = table.snapshot();
    let b = table.new_variable(u(0));
    let r = table.unify(&Ty::Var(a.to_usize()), &list_of(b.to_usize()));
    assert!(r.is_ok());
    assert_eq!(table.probe_var(a), Some(list_of(b.to_usize())));
    assert_eq!(table.ty_vars().len(), 2);
    table.rollback_to(snapshot);
    assert_eq!(table.ty_vars().len(), 1);
    assert_eq!(table.probe_var(a), None);
}

#[test]
fn rollback_restores_lifetime_state() {
    let mut table = InferenceTable::new();
    let l = table.new_lifetime_variable(u(0));
    let snapshot = table.snapshot();
    let r = table.unify_lifetimes(&Lifetime::Var(l.to_usize()), &Lifetime::ForAll(u(0)));
    assert!(r.is_ok());
    assert_eq!(table.probe_lifetime_var(l), Some(Lifetime::ForAll(u(0))));
    table.rollback_to(snapshot);
    assert_eq!(table.probe_lifetime_var(l), None);
    assert_eq!(table.lifetime_vars().len(), 1);
}

#[test]
fn commit_keeps_changes() {
    let mut table = InferenceTable::new();
    let a = table.new_variable(u(0));
    let snapshot = table.snapshot();
    let b = table.new_variable(u(0));
    let r = table.unify(&Ty::Var(a.to_usize()), &list_of(b.to_usize()));
    assert!(r.is_ok());
    table.commit(snapshot);
    assert_eq!(table.ty_vars().len(), 2);
    assert_eq!(table.probe_var(a), Some(list_of(b.to_usize())));
    assert_eq!(table.probe_var(b), None);
}

#[test]
fn commit_if_ok_keeps_successful_bindings() {
    let mut table = InferenceTable::new();
    let a = table.new_variable(u(0));
    let b = table.new_variable(u(0));
    let av = a.to_usize();
    let bv = b.to_usize();
    let r: Result<(), infer::UnifyError> = table.commit_if_ok(move |mut t: InferenceTable| {
        let res = t.unify(&Ty::Var(av), &list_of(bv)).map(|_| ());
        (t, res)
    });
    assert!(r.is_ok());
    assert_eq!(table.probe_var(a), Some(list_of(bv)));
}

#[test]
fn commit_if_ok_rolls_back_failed_attempts() {
    let mut table = InferenceTable::new();
    let a = table.new_variable(u(0));
    let b = table.new_variable(u(0));
    let av = a.to_usize();
    let bv = b.to_usize();
    let r: Result<(), infer::UnifyError> = table.commit_if_ok(move |mut t: InferenceTable| {
        // Bind a partway, then fail on a structural mismatch.
        let first = t.unify(&Ty::Var(av), &list_of(bv)).map(|_| ());
        assert!(first.is_ok());
        let second = t
            .unify(
                &Ty::Apply(ApplicationTy {
                    name: TypeName::ItemId(ItemId { index: 1 }),
                    parameters: vec![],
                }),
                &Ty::Apply(ApplicationTy {
                    name: TypeName::ItemId(ItemId { index: 2 }),
                    parameters: vec![],
                }),
            )
            .map(|_| ());
        (t, second)
    });
    // The operation's own error comes back unchanged.
    assert_eq!(r, Err(infer::UnifyError::Mismatch));
    // The partial binding of `a` is not observable after the failure.
    assert_eq!(table.probe_var(a), None);
    assert_eq!(table.probe_var(b), None);
}

#[test]
fn normalize_shallow_shifts_by_binder_depth() {
    let mut table = InferenceTable::new();
    let a = table.new_variable(u(0));
    let b = table.new_variable(u(0));
    let r = table.unify(&Ty::Var(a.to_usize()), &list_of(b.to_usize()));
    assert!(r.is_ok());
    // Under 2 binders, variable `a` is written depth a + 2; its binding
    // List<b> comes back with b shifted up by 2.
    let leaf = Ty::Var(a.to_usize() + 2);
    let out = table.normalize_shallow(&leaf, 2);
    assert_eq!(out, Some(list_of(b.to_usize() + 2)));
    // A reference bound by an enclosing binder is not an inference variable.
    assert_eq!(table.normalize_shallow(&Ty::Var(1), 2), None);
    // An unbound variable resolves to nothing.
    assert_eq!(table.normalize_shallow(&Ty::Var(b.to_usize() + 2), 2), None);
}

#[test]
fn var_and_inference_var_reinterpret_depths() {
    let t = Ty::Var(7);
    assert_eq!(t.var(), Some(7));
    assert_eq!(t.inference_var(), Some(TyInferenceVariable::from_depth(7)));
    let l = Lifetime::Var(3);
    assert_eq!(l.var(), Some(3));
    assert_eq!(
        l.inference_var(),
        Some(LifetimeInferenceVariable::from_depth(3))
    );
    let app = list_of(0);
    assert_eq!(app.var(), None);
    assert_eq!(app.inference_var(), None);
    assert_eq!(Lifetime::ForAll(UniverseIndex { counter: 0 }).var(), None);
    assert_eq!(TyInferenceVariable::from_depth(9).to_usize(), 9);
}

#[test]
fn trivial_substitution_detection() {
    let mut table = InferenceTable::new();
    let a = table.new_variable(u(0));
    let b = table.new_variable(u(0));
    let l = table.new_lifetime_variable(u(0));
    let subst = Substitution {
        tys: vec![
            (TyInferenceVariable::from_depth(0), Ty::Var(a.to_usize())),
            (TyInferenceVariable::from_depth(1), Ty::Var(b.to_usize())),
        ],
        lifetimes: vec![(
            LifetimeInferenceVariable::from_depth(0),
            Lifetime::Var(l.to_usize()),
        )],
    };
    assert!(subst.is_trivial_within(&mut table));
    let r = table.unify(&Ty::Var(b.to_usize()), &list_of(a.to_usize()));
    assert!(r.is_ok());
    assert!(!subst.is_trivial_within(&mut table));
}

#[test]
fn non_variable_entries_do_not_defeat_triviality() {
    let mut table = InferenceTable::new();
    let subst = Substitution {
        tys: vec![(
            TyInferenceVariable::from_depth(0),
            Ty::Apply(ApplicationTy {
                name: TypeName::ItemId(ItemId { index: 4 }),
                parameters: vec![],
            }),
        )],
        lifetimes: vec![(
            LifetimeInferenceVariable::from_depth(0),
            Lifetime::ForAll(u(0)),
        )],
    };
    assert!(subst.is_trivial_within(&mut table));
}
