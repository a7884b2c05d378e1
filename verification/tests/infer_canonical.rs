use infer::ApplicationTy;
use infer::InferenceTable;
use infer::ItemId;
use infer::Lifetime;
use infer::ParameterKind;
use infer::Ty;
use infer::TyInferenceVariable;
use infer::TypeName;
use infer::UniverseIndex;

fn u(counter: usize) -> UniverseIndex {
    UniverseIndex { counter }
}

fn apply(item: usize, parameters: Vec<Ty>) -> Ty {
    Ty::Apply(ApplicationTy {
        name: TypeName::ItemId(ItemId { index: item }),
        parameters,
    })
}

#[test]
fn normalize_deep_resolves_chains() {
    let mut table = InferenceTable::new();
    let a = table.new_variable(u(0));
    let b = table.new_variable(u(0));
    // a := List<b>, then b := Item9; deep normalization of Pair<a, b>
    // resolves both levels.
    assert!(table
        .unify(&Ty::Var(a.to_usize()), &apply(100, vec![Ty::Var(b.to_usize())]))
        .is_ok());
    assert!(table.unify(&Ty::Var(b.to_usize()), &apply(9, vec![])).is_ok());
    let term = apply(5, vec![Ty::Var(a.to_usize()), Ty::Var(b.to_usize())]);
    let normed = table.normalize_deep(&term).unwrap();
    assert_eq!(
        normed,
        apply(5, vec![apply(100, vec![apply(9, vec![])]), apply(9, vec![])])
    );
}

#[test]
fn normalize_deep_is_idempotent_on_normal_forms() {
    let mut table = InferenceTable::new();
    let a = table.new_variable(u(0));
    let term = apply(5, vec![Ty::Var(a.to_usize()), apply(6, vec![])]);
    let once = table.normalize_deep(&term).unwrap();
    let twice = table.normalize_deep(&once).unwrap();
    assert_eq!(once, twice);
    assert_eq!(once, term);
}

#[test]
fn canonicalize_numbers_variables_in_first_occurrence_order() {
    let mut table = InferenceTable::new();
    let _pad = table.new_variable(u(0));
    let x = table.new_variable(u(1));
    let y = table.new_variable(u(2));
    // Pair<y, x, y>: first occurrence order is y then x.
    let term = apply(
        7,
        vec![
            Ty::Var(y.to_usize()),
            Ty::Var(x.to_usize()),
            Ty::Var(y.to_usize()),
        ],
    );
    let c = table.canonicalize(&term).unwrap();
    assert_eq!(c.value, apply(7, vec![Ty::Var(0), Ty::Var(1), Ty::Var(0)]));
    assert_eq!(c.free_vars.len(), 2);
    assert_eq!(c.free_vars[0].0, ParameterKind::Ty(y));
    assert_eq!(c.free_vars[0].1, u(2));
    assert_eq!(c.free_vars[1].0, ParameterKind::Ty(x));
    assert_eq!(c.free_vars[1].1, u(1));
}

#[test]
fn canonicalize_is_independent_of_variable_identity() {
    // Two tables, structurally equal terms built from differently numbered
    // variables: identical canonical output.
    let mut t1 = InferenceTable::new();
    let a1 = t1.new_variable(u(0));
    let b1 = t1.new_variable(u(0));
    let c1 = t1
        .canonicalize(&apply(3, vec![Ty::Var(a1.to_usize()), Ty::Var(b1.to_usize())]))
        .unwrap();

    let mut t2 = InferenceTable::new();
    let _pad1 = t2.new_variable(u(0));
    let _pad2 = t2.new_variable(u(0));
    let a2 = t2.new_variable(u(0));
    let b2 = t2.new_variable(u(0));
    let c2 = t2
        .canonicalize(&apply(3, vec![Ty::Var(a2.to_usize()), Ty::Var(b2.to_usize())]))
        .unwrap();

    assert_eq!(c1.value, c2.value);
    assert_eq!(c1.free_vars.len(), c2.free_vars.len());
}

#[test]
fn canonicalize_resolves_bindings_first() {
    let mut table = InferenceTable::new();
    let a = table.new_variable(u(0));
    let b = table.new_variable(u(0));
    assert!(table.unify(&Ty::Var(a.to_usize()), &apply(9, vec![])).is_ok());
    let c = table
        .canonicalize(&apply(3, vec![Ty::Var(a.to_usize()), Ty::Var(b.to_usize())]))
        .unwrap();
    // The bound variable disappears; only `b` remains free.
    assert_eq!(c.value, apply(3, vec![apply(9, vec![]), Ty::Var(0)]));
    assert_eq!(c.free_vars.len(), 1);
    assert_eq!(c.free_vars[0].0, ParameterKind::Ty(b));
}

#[test]
fn canonicalize_keeps_quantified_references_apart() {
    let mut table = InferenceTable::new();
    let x = table.new_variable(u(0));
    // forall<1>. Pair<Var(0) bound, x free at depth 1>.
    let term = Ty::ForAll(Box::new(infer::QuantifiedTy {
        num_binders: 1,
        ty: apply(4, vec![Ty::Var(0), Ty::Var(x.to_usize() + 1)]),
    }));
    let c = table.canonicalize(&term).unwrap();
    assert_eq!(
        c.value,
        Ty::ForAll(Box::new(infer::QuantifiedTy {
            num_binders: 1,
            ty: apply(4, vec![Ty::Var(0), Ty::Var(1)]),
        }))
    );
    assert_eq!(c.free_vars.len(), 1);
    assert_eq!(c.free_vars[0].0, ParameterKind::Ty(x));
}

#[test]
fn instantiate_opens_a_quantifier_with_fresh_variables() {
    let mut table = InferenceTable::new();
    let binders = vec![ParameterKind::Ty(u(1)), ParameterKind::Ty(u(2))];
    // Body under the prefix: Pair<hole 0, hole 1>.
    let body = apply(8, vec![Ty::Var(0), Ty::Var(1)]);
    let (opened, subst) = table.instantiate(&binders, &body);
    assert_eq!(opened, apply(8, vec![Ty::Var(0), Ty::Var(1)]));
    assert_eq!(table.ty_vars().len(), 2);
    assert_eq!(table.probe_var(TyInferenceVariable::from_depth(0)), None);
    assert_eq!(table.probe_var(TyInferenceVariable::from_depth(1)), None);
    assert_eq!(subst.tys.len(), 2);
    assert_eq!(subst.tys[0].0, TyInferenceVariable::from_depth(0));
    assert_eq!(subst.tys[0].1, Ty::Var(0));
    assert_eq!(subst.tys[1].0, TyInferenceVariable::from_depth(1));
    assert_eq!(subst.tys[1].1, Ty::Var(1));
    assert!(subst.lifetimes.is_empty());
    // Fresh instantiation binds nothing: the substitution is trivial.
    assert!(subst.is_trivial_within(&mut table));
}

#[test]
fn instantiate_mixes_kinds_and_skips_inner_binders() {
    let mut table = InferenceTable::new();
    let _pad = table.new_variable(u(0));
    let binders = vec![ParameterKind::Lifetime(u(0)), ParameterKind::Ty(u(0))];
    // forall<1>. Pair<inner bound var, hole 1 seen under one binder>.
    let body = Ty::ForAll(Box::new(infer::QuantifiedTy {
        num_binders: 1,
        ty: apply(2, vec![Ty::Var(0), Ty::Var(2)]),
    }));
    let (opened, subst) = table.instantiate(&binders, &body);
    // The fresh type variable has index 1 (one existed before); under one
    // binder it is written depth 2.
    assert_eq!(
        opened,
        Ty::ForAll(Box::new(infer::QuantifiedTy {
            num_binders: 1,
            ty: apply(2, vec![Ty::Var(0), Ty::Var(2)]),
        }))
    );
    assert_eq!(subst.tys.len(), 1);
    assert_eq!(subst.tys[0].0, TyInferenceVariable::from_depth(1));
    assert_eq!(subst.tys[0].1, Ty::Var(1));
    assert_eq!(subst.lifetimes.len(), 1);
    assert_eq!(
        subst.lifetimes[0].0,
        infer::LifetimeInferenceVariable::from_depth(0)
    );
    assert_eq!(subst.lifetimes[0].1, Lifetime::Var(0));
    assert_eq!(table.lifetime_vars().len(), 1);
}

#[test]
fn instantiating_a_canonical_term_then_canonicalizing_restores_it() {
    // Round trip: canonicalize, open the canonical term with fresh
    // variables, canonicalize again: the canonical term comes back.
    let mut table = InferenceTable::new();
    let x = table.new_variable(u(0));
    let y = table.new_variable(u(0));
    let term = apply(
        6,
        vec![Ty::Var(x.to_usize()), Ty::Var(y.to_usize()), Ty::Var(x.to_usize())],
    );
    let canonical = table.canonicalize(&term).unwrap();

    let mut other = InferenceTable::new();
    let binders: Vec<_> = canonical
        .free_vars
        .iter()
        .map(|(_, ui)| ParameterKind::Ty(*ui))
        .collect();
    let (opened, _subst) = other.instantiate(&binders, &canonical.value);
    let again = other.canonicalize(&opened).unwrap();
    assert_eq!(again.value, canonical.value);
    assert_eq!(again.free_vars.len(), canonical.free_vars.len());
}

#[test]
fn invert_maps_canonical_positions_back_to_originals() {
    let mut table = InferenceTable::new();
    let _pad = table.new_variable(u(0));
    let x = table.new_variable(u(1));
    let y = table.new_variable(u(0));
    let term = apply(6, vec![Ty::Var(y.to_usize()), Ty::Var(x.to_usize())]);
    let canonical = table.canonicalize(&term).unwrap();
    let subst = canonical.invert();
    assert_eq!(subst.tys.len(), 2);
    // Canonical position 0 was y, position 1 was x.
    assert_eq!(subst.tys[0].0, TyInferenceVariable::from_depth(0));
    assert_eq!(subst.tys[0].1, Ty::Var(y.to_usize()));
    assert_eq!(subst.tys[1].0, TyInferenceVariable::from_depth(1));
    assert_eq!(subst.tys[1].1, Ty::Var(x.to_usize()));
    assert!(subst.lifetimes.is_empty());
    // The inverted substitution maps to unbound variables, so it is trivial.
    assert!(subst.is_trivial_within(&mut table));
}

#[test]
fn cyclic_bindings_make_normalization_give_out() {
    // Without an occurs check, two variables can be bound through each
    // other; resolution then cannot finish and deep normalization reports
    // that by returning nothing.
    let mut table = InferenceTable::new();
    let x = table.new_variable(u(0));
    let y = table.new_variable(u(0));
    assert!(table
        .unify(&Ty::Var(x.to_usize()), &apply(1, vec![Ty::Var(y.to_usize())]))
        .is_ok());
    assert!(table
        .unify(&Ty::Var(y.to_usize()), &apply(1, vec![Ty::Var(x.to_usize())]))
        .is_ok());
    assert_eq!(table.normalize_deep(&Ty::Var(x.to_usize())), None);
    assert!(table.canonicalize(&Ty::Var(x.to_usize())).is_none());
}
