use infer::ApplicationTy;
use infer::InferenceTable;
use infer::ItemId;
use infer::Lifetime;
use infer::QuantifiedTy;
use infer::Ty;
use infer::TypeName;
use infer::UnifyError;
use infer::UniverseIndex;

fn u(counter: usize) -> UniverseIndex {
    UniverseIndex { counter }
}

fn apply(item: usize, parameters: Vec<Ty>) -> Ty {
    Ty::Apply(ApplicationTy {
        name: TypeName::ItemId(ItemId { index: item }),
        parameters,
    })
}

#[test]
fn unify_variable_with_structure_binds_it() {
    // Two type variables in universe 0; unifying `a` with `List<b>` binds
    // `a` and leaves `b` unbound; rolling back erases the binding.
    let mut table = InferenceTable::new();
    let a = table.new_variable(u(0));
    let b = table.new_variable(u(0));
    let snapshot = table.snapshot();
    let list_b = apply(100, vec![Ty::Var(b.to_usize())]);
    let r = table.unify(&Ty::Var(a.to_usize()), &list_b);
    assert!(r.is_ok());
    assert_eq!(
        table.probe_var(a),
        Some(apply(100, vec![Ty::Var(b.to_usize())]))
    );
    assert_eq!(table.probe_var(b), None);
    table.rollback_to(snapshot);
    assert_eq!(table.probe_var(a), None);
}

#[test]
fn unify_rejects_universe_escape() {
    // A variable in universe 1 must not be bound to a term that references a
    // placeholder scoped to universe 2.
    let mut table = InferenceTable::new();
    let v = table.new_variable(u(1));
    let placeholder = Ty::Apply(ApplicationTy {
        name: TypeName::ForAll(u(2)),
        parameters: vec![],
    });
    let term = apply(7, vec![placeholder]);
    let r = table.unify(&Ty::Var(v.to_usize()), &term);
    assert_eq!(r.unwrap_err(), UnifyError::UniverseViolation);
    assert_eq!(table.probe_var(v), None);
}

#[test]
fn unify_accepts_placeholder_in_visible_universe() {
    let mut table = InferenceTable::new();
    let v = table.new_variable(u(2));
    let placeholder = Ty::Apply(ApplicationTy {
        name: TypeName::ForAll(u(1)),
        parameters: vec![],
    });
    let r = table.unify(&Ty::Var(v.to_usize()), &placeholder);
    assert!(r.is_ok());
    assert_eq!(table.probe_var(v), Some(placeholder));
}

#[test]
fn unify_variables_merges_classes() {
    let mut table = InferenceTable::new();
    let a = table.new_variable(u(3));
    let b = table.new_variable(u(1));
    let r = table.unify(&Ty::Var(a.to_usize()), &Ty::Var(b.to_usize()));
    assert!(r.is_ok());
    // Binding one now binds the other.
    let concrete = apply(9, vec![]);
    let r2 = table.unify(&Ty::Var(b.to_usize()), &concrete);
    assert!(r2.is_ok());
    assert_eq!(table.probe_var(a), Some(apply(9, vec![])));
    assert_eq!(table.probe_var(b), Some(apply(9, vec![])));
}

#[test]
fn unify_recurses_into_matching_constructors() {
    let mut table = InferenceTable::new();
    let a = table.new_variable(u(0));
    let b = table.new_variable(u(0));
    let left = apply(5, vec![Ty::Var(a.to_usize()), apply(6, vec![])]);
    let right = apply(5, vec![apply(8, vec![]), Ty::Var(b.to_usize())]);
    let r = table.unify(&left, &right);
    assert!(r.is_ok());
    assert_eq!(table.probe_var(a), Some(apply(8, vec![])));
    assert_eq!(table.probe_var(b), Some(apply(6, vec![])));
}

#[test]
fn unify_reports_head_and_arity_mismatch() {
    let mut table = InferenceTable::new();
    let r = table.unify(&apply(1, vec![]), &apply(2, vec![]));
    assert_eq!(r.unwrap_err(), UnifyError::Mismatch);
    let r2 = table.unify(&apply(1, vec![apply(2, vec![])]), &apply(1, vec![]));
    assert_eq!(r2.unwrap_err(), UnifyError::Mismatch);
    let r3 = table.unify(
        &apply(1, vec![]),
        &Ty::ForAll(Box::new(QuantifiedTy {
            num_binders: 1,
            ty: Ty::Var(0),
        })),
    );
    assert_eq!(r3.unwrap_err(), UnifyError::Mismatch);
}

#[test]
fn unify_resolves_bound_variables_first() {
    let mut table = InferenceTable::new();
    let a = table.new_variable(u(0));
    let r = table.unify(&Ty::Var(a.to_usize()), &apply(4, vec![]));
    assert!(r.is_ok());
    // `a` is now bound to item 4; unifying it against item 5 must fail, and
    // against item 4 must succeed without changing anything.
    let r2 = table.unify(&Ty::Var(a.to_usize()), &apply(5, vec![]));
    assert_eq!(r2.unwrap_err(), UnifyError::Mismatch);
    let r3 = table.unify(&Ty::Var(a.to_usize()), &apply(4, vec![]));
    assert!(r3.is_ok());
    assert_eq!(table.probe_var(a), Some(apply(4, vec![])));
}

#[test]
fn unify_equal_quantified_types_succeeds() {
    let mut table = InferenceTable::new();
    let q1 = Ty::ForAll(Box::new(QuantifiedTy {
        num_binders: 2,
        ty: apply(3, vec![Ty::Var(0), Ty::Var(1)]),
    }));
    let q2 = Ty::ForAll(Box::new(QuantifiedTy {
        num_binders: 2,
        ty: apply(3, vec![Ty::Var(0), Ty::Var(1)]),
    }));
    assert!(table.unify(&q1, &q2).is_ok());
    let q3 = Ty::ForAll(Box::new(QuantifiedTy {
        num_binders: 1,
        ty: apply(3, vec![]),
    }));
    assert_eq!(table.unify(&q1, &q3).unwrap_err(), UnifyError::Mismatch);
}

#[test]
fn unify_lifetime_variable_with_placeholder() {
    let mut table = InferenceTable::new();
    let l = table.new_lifetime_variable(u(2));
    let r = table.unify_lifetimes(&Lifetime::Var(l.to_usize()), &Lifetime::ForAll(u(1)));
    let result = r.unwrap();
    assert!(result.constraints.is_empty());
    assert_eq!(table.probe_lifetime_var(l), Some(Lifetime::ForAll(u(1))));
}

#[test]
fn unify_lifetime_variable_universe_violation() {
    let mut table = InferenceTable::new();
    let l = table.new_lifetime_variable(u(1));
    let r = table.unify_lifetimes(&Lifetime::Var(l.to_usize()), &Lifetime::ForAll(u(2)));
    assert_eq!(r.unwrap_err(), UnifyError::UniverseViolation);
    assert_eq!(table.probe_lifetime_var(l), None);
}

#[test]
fn unify_lifetime_variables_then_bind_both() {
    let mut table = InferenceTable::new();
    let l1 = table.new_lifetime_variable(u(0));
    let l2 = table.new_lifetime_variable(u(0));
    let r = table.unify_lifetimes(&Lifetime::Var(l1.to_usize()), &Lifetime::Var(l2.to_usize()));
    assert!(r.unwrap().constraints.is_empty());
    let r2 = table.unify_lifetimes(&Lifetime::Var(l2.to_usize()), &Lifetime::ForAll(u(0)));
    assert!(r2.is_ok());
    assert_eq!(table.probe_lifetime_var(l1), Some(Lifetime::ForAll(u(0))));
}

#[test]
fn distinct_lifetime_placeholders_defer_a_constraint() {
    let mut table = InferenceTable::new();
    let r = table.unify_lifetimes(&Lifetime::ForAll(u(1)), &Lifetime::ForAll(u(2)));
    let result = r.unwrap();
    assert_eq!(
        result.constraints,
        vec![(Lifetime::ForAll(u(1)), Lifetime::ForAll(u(2)))]
    );
    let r2 = table.unify_lifetimes(&Lifetime::ForAll(u(1)), &Lifetime::ForAll(u(1)));
    assert!(r2.unwrap().constraints.is_empty());
}

#[test]
fn universe_visibility_is_reflexive_and_ordered() {
    assert!(u(0).can_see(u(0)));
    assert!(u(2).can_see(u(1)));
    assert!(!u(1).can_see(u(2)));
    assert_eq!(UniverseIndex::root(), u(0));
}

#[test]
fn unify_identical_resolved_terms_changes_nothing() {
    let mut table = InferenceTable::new();
    let a = table.new_variable(u(0));
    // A fully dereferenced term equal to itself unifies successfully and
    // leaves every variable as it was.
    let term = apply(3, vec![apply(4, vec![]), Ty::Var(a.to_usize())]);
    let r = table.unify(&term, &apply(3, vec![apply(4, vec![]), Ty::Var(a.to_usize())]));
    assert!(r.is_ok());
    assert_eq!(table.probe_var(a), None);
    assert_eq!(table.ty_vars().len(), 1);
}
