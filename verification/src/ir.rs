use vstd::prelude::*;

use crate::var::UniverseIndex;

verus! {

/// Bound on every de-Bruijn depth and binder count accepted by the library,
/// so that depth arithmetic (shifting by a binder count) cannot overflow.
pub const DEPTH_LIMIT: usize = usize::MAX / 4;

/// Names a concrete item (a type constructor) of the surrounding program.
#[derive(Clone, Copy, Debug, PartialEq, Eq, Hash, Structural)]
pub struct ItemId {
    pub index: usize,
}

/// The head of an applied type: either a concrete constructor, or a
/// placeholder scoped to the universe it was introduced in.
#[derive(Clone, Copy, Debug, PartialEq, Eq, Structural)]
pub enum TypeName {
    ItemId(ItemId),
    ForAll(UniverseIndex),
}

/// A type term. `Var(d)` is a de-Bruijn index: under `b` enclosing binders,
/// depths below `b` refer to those binders and depths `d >= b` refer to the
/// inference variable `d - b`.
#[derive(Debug, PartialEq, Eq)]
pub enum Ty {
    Var(usize),
    Apply(ApplicationTy),
    ForAll(Box<QuantifiedTy>),
}

/// A constructor applied to type arguments.
#[derive(Debug, PartialEq, Eq)]
pub struct ApplicationTy {
    pub name: TypeName,
    pub parameters: Vec<Ty>,
}

/// A type under `num_binders` quantified binders.
#[derive(Debug, PartialEq, Eq)]
pub struct QuantifiedTy {
    pub num_binders: usize,
    pub ty: Ty,
}

/// A lifetime term: a de-Bruijn / inference-variable reference, or a
/// placeholder scoped to a universe. Lifetimes are atomic to the unifier.
#[derive(Clone, Copy, Debug, PartialEq, Eq, Structural)]
pub enum Lifetime {
    Var(usize),
    ForAll(UniverseIndex),
}

/// A mapping from bound-variable positions back to terms, separated by
/// kind; positions are numbered densely in quantifier order and keyed by the
/// position reinterpreted as a variable.
#[derive(Debug, PartialEq, Eq)]
pub struct Substitution {
    pub tys: Vec<(crate::var::TyInferenceVariable, Ty)>,
    pub lifetimes: Vec<(crate::var::LifetimeInferenceVariable, Lifetime)>,
}

/// The mathematical model of a type term: the same tree with mathematical
/// integers for depths and sequences for argument lists.
pub enum TyView {
    Var(int),
    Apply(TypeName, Seq<TyView>),
    ForAll(nat, Box<TyView>),
}

/// Maps a type term to its mathematical model.
pub open spec fn ty_view(t: Ty) -> TyView
    decreases t,
{
    match t {
        Ty::Var(d) => TyView::Var(d as int),
        Ty::Apply(app) => TyView::Apply(app.name, tys_view(app.parameters@)),
        Ty::ForAll(q) => TyView::ForAll(q.num_binders as nat, Box::new(ty_view(q.ty))),
    }
}

pub open spec fn tys_view(s: Seq<Ty>) -> Seq<TyView>
    decreases s,
{
    if s.len() == 0 {
        Seq::empty()
    } else {
        seq![ty_view(s[0])] + tys_view(s.drop_first())
    }
}

/// The view of a sequence of terms is the sequence of their views.
pub proof fn lemma_tys_view(s: Seq<Ty>)
    ensures
        tys_view(s).len() == s.len(),
        forall|i: int| 0 <= i < s.len() ==> tys_view(s)[i] == ty_view(s[i]),
    decreases s,
{
    if s.len() > 0 {
        lemma_tys_view(s.drop_first());
    }
}

/// Seen under `inner` enclosing binders: every depth stays small enough that
/// shifting it by a binder count cannot overflow, and binder nesting counted
/// from the term handed to the library stays at or below `DEPTH_LIMIT`.
pub open spec fn term_ok(t: TyView, inner: nat) -> bool
    decreases t,
{
    match t {
        TyView::Var(d) => 0 <= d <= DEPTH_LIMIT + inner,
        TyView::Apply(_, args) => forall|i: int|
            0 <= i < args.len() ==> term_ok(#[trigger] args[i], inner),
        TyView::ForAll(n, body) => inner + n <= DEPTH_LIMIT && term_ok(*body, inner + n),
    }
}

/// Every free variable of `t`, seen under `inner` enclosing binders, is a
/// key below `n`.
pub open spec fn view_in_range(t: TyView, inner: nat, n: nat) -> bool
    decreases t,
{
    match t {
        TyView::Var(d) => d < inner + n,
        TyView::Apply(_, args) => forall|i: int|
            0 <= i < args.len() ==> view_in_range(#[trigger] args[i], inner, n),
        TyView::ForAll(k, body) => view_in_range(*body, inner + k, n),
    }
}

/// A term in range for a larger table stays in range.
pub proof fn lemma_view_in_range_mono(t: TyView, inner: nat, n1: nat, n2: nat)
    requires
        view_in_range(t, inner, n1),
        n1 <= n2,
    ensures
        view_in_range(t, inner, n2),
    decreases t,
{
    match t {
        TyView::Var(_) => {}
        TyView::Apply(name, args) => {
            assert forall|i: int| 0 <= i < args.len() implies view_in_range(
                #[trigger] args[i],
                inner,
                n2,
            ) by {
                lemma_view_in_range_mono(args[i], inner, n1, n2);
            }
        }
        TyView::ForAll(k, body) => {
            lemma_view_in_range_mono(*body, inner + k, n1, n2);
        }
    }
}

/// A constructor's arguments inherit its bounds.
pub proof fn lemma_ok_apply(name: TypeName, args: Seq<TyView>, inner: nat, n: nat, i: int)
    requires
        0 <= i < args.len(),
    ensures
        term_ok(TyView::Apply(name, args), inner) ==> term_ok(args[i], inner),
        view_in_range(TyView::Apply(name, args), inner, n) ==> view_in_range(args[i], inner, n),
{
    let t = TyView::Apply(name, args);
    assert(t->Apply_1 == args);
    if term_ok(t, inner) {
        assert(term_ok(t->Apply_1[i], inner));
    }
    if view_in_range(t, inner, n) {
        assert(view_in_range(t->Apply_1[i], inner, n));
    }
}

/// The height of a term tree.
pub open spec fn view_height(v: TyView) -> nat
    decreases v,
{
    match v {
        TyView::Var(_) => 1,
        TyView::Apply(_, args) => 1 + heights_max(args),
        TyView::ForAll(_, body) => 1 + view_height(*body),
    }
}

pub open spec fn heights_max(s: Seq<TyView>) -> nat
    decreases s,
{
    if s.len() == 0 {
        0
    } else {
        let rest = heights_max(s.drop_first());
        if view_height(s[0]) > rest {
            view_height(s[0])
        } else {
            rest
        }
    }
}

/// No element of a sequence is taller than the sequence's maximum.
pub proof fn lemma_height_child(s: Seq<TyView>, i: int)
    requires
        0 <= i < s.len(),
    ensures
        view_height(s[i]) <= heights_max(s),
    decreases s,
{
    if i > 0 {
        lemma_height_child(s.drop_first(), i - 1);
        assert(s.drop_first()[i - 1] == s[i]);
    }
}

/// Shifts every variable reference at or above `inner` up by `amount`,
/// leaving references bound inside the term itself untouched.
pub open spec fn up_ty(t: TyView, amount: nat, inner: nat) -> TyView
    decreases t,
{
    match t {
        TyView::Var(d) => if d < inner {
            TyView::Var(d)
        } else {
            TyView::Var(d + amount)
        },
        TyView::Apply(name, args) => TyView::Apply(name, up_tys(args, amount, inner)),
        TyView::ForAll(n, body) => TyView::ForAll(n, Box::new(up_ty(*body, amount, (inner + n) as nat))),
    }
}

pub open spec fn up_tys(s: Seq<TyView>, amount: nat, inner: nat) -> Seq<TyView>
    decreases s,
{
    if s.len() == 0 {
        Seq::empty()
    } else {
        seq![up_ty(s[0], amount, inner)] + up_tys(s.drop_first(), amount, inner)
    }
}

pub proof fn lemma_up_tys(s: Seq<TyView>, amount: nat, inner: nat)
    ensures
        up_tys(s, amount, inner).len() == s.len(),
        forall|i: int| 0 <= i < s.len() ==> up_tys(s, amount, inner)[i] == up_ty(s[i], amount, inner),
    decreases s,
{
    if s.len() > 0 {
        lemma_up_tys(s.drop_first(), amount, inner);
    }
}

/// Shifting keeps a term in range, at the deeper position.
pub proof fn lemma_up_in_range(u: TyView, b: nat, i: nat, n: nat)
    requires
        view_in_range(u, i, n),
    ensures
        view_in_range(up_ty(u, b, i), (i + b) as nat, n),
    decreases u,
{
    match u {
        TyView::Var(_) => {}
        TyView::Apply(name, args) => {
            lemma_up_tys(args, b, i);
            let out = up_ty(u, b, i);
            assert(out->Apply_1 == up_tys(args, b, i));
            assert forall|k: int| 0 <= k < out->Apply_1.len() implies view_in_range(
                #[trigger] out->Apply_1[k],
                (i + b) as nat,
                n,
            ) by {
                lemma_ok_apply(name, args, i, n, k);
                lemma_up_in_range(args[k], b, i, n);
            }
        }
        TyView::ForAll(k, body) => {
            lemma_up_in_range(*body, b, (i + k) as nat, n);
        }
    }
}

/// Shifting by zero is the identity.
pub proof fn lemma_up_ty_zero(t: TyView, inner: nat)
    ensures
        up_ty(t, 0, inner) == t,
    decreases t,
{
    match t {
        TyView::Var(_) => {}
        TyView::Apply(name, args) => {
            lemma_up_tys(args, 0, inner);
            assert forall|i: int| 0 <= i < args.len() implies up_tys(args, 0, inner)[i]
                == #[trigger] args[i] by {
                lemma_up_ty_zero(args[i], inner);
            }
            assert(up_tys(args, 0, inner) =~= args);
        }
        TyView::ForAll(n, body) => {
            lemma_up_ty_zero(*body, (inner + n) as nat);
        }
    }
}

/// Shifts a term, in executable form: the model of the result is the shifted
/// model of the argument.
#[verifier::loop_isolation(false)]
pub fn up_shift_ty(t: &Ty, amount: usize, inner: usize) -> (r: Ty)
    requires
        term_ok(ty_view(*t), inner as nat),
        amount <= DEPTH_LIMIT,
        inner <= DEPTH_LIMIT,
    ensures
        ty_view(r) == up_ty(ty_view(*t), amount as nat, inner as nat),
    decreases *t,
{
    match t {
        Ty::Var(d) => {
            if *d < inner {
                Ty::Var(*d)
            } else {
                Ty::Var(*d + amount)
            }
        }
        Ty::Apply(app) => {
            let mut args: Vec<Ty> = Vec::new();
            let n = app.parameters.len();
            proof {
                lemma_tys_view(app.parameters@);
            }
            let mut i: usize = 0;
            while i < n
                invariant
                    i <= n,
                    n == app.parameters@.len(),
                    args@.len() == i as int,
                    term_ok(ty_view(Ty::Apply(*app)), inner as nat),
                    amount <= DEPTH_LIMIT,
                    inner <= DEPTH_LIMIT,
                    forall|j: int| 0 <= j < i ==> ty_view(args@[j])
                        == up_ty(tys_view(app.parameters@)[j], amount as nat, inner as nat),
                decreases n - i,
            {
                proof {
                    lemma_tys_view(app.parameters@);
                    assert(tys_view(app.parameters@)[i as int] == ty_view(app.parameters@[i as int]));
                }
                let shifted = up_shift_ty(&app.parameters[i], amount, inner);
                args.push(shifted);
                i += 1;
            }
            proof {
                lemma_up_tys(tys_view(app.parameters@), amount as nat, inner as nat);
                lemma_tys_view(args@);
                assert(tys_view(args@) =~= up_tys(
                    tys_view(app.parameters@),
                    amount as nat,
                    inner as nat,
                ));
            }
            Ty::Apply(ApplicationTy { name: app.name, parameters: args })
        }
        Ty::ForAll(q) => {
            let body = up_shift_ty(&q.ty, amount, inner + q.num_binders);
            Ty::ForAll(Box::new(QuantifiedTy { num_binders: q.num_binders, ty: body }))
        }
    }
}

/// Clones a term exactly: the model is preserved.
#[verifier::loop_isolation(false)]
pub fn clone_ty(t: &Ty) -> (r: Ty)
    ensures
        ty_view(r) == ty_view(*t),
    decreases *t,
{
    match t {
        Ty::Var(d) => Ty::Var(*d),
        Ty::Apply(app) => {
            let mut args: Vec<Ty> = Vec::new();
            let n = app.parameters.len();
            let mut i: usize = 0;
            while i < n
                invariant
                    i <= n,
                    n == app.parameters@.len(),
                    args@.len() == i as int,
                    forall|j: int| 0 <= j < i ==> ty_view(args@[j]) == ty_view(app.parameters@[j]),
                decreases n - i,
            {
                let c = clone_ty(&app.parameters[i]);
                args.push(c);
                i += 1;
            }
            proof {
                lemma_tys_view(args@);
                lemma_tys_view(app.parameters@);
                assert(tys_view(args@) =~= tys_view(app.parameters@));
            }
            Ty::Apply(ApplicationTy { name: app.name, parameters: args })
        }
        Ty::ForAll(q) => {
            let body = clone_ty(&q.ty);
            Ty::ForAll(Box::new(QuantifiedTy { num_binders: q.num_binders, ty: body }))
        }
    }
}

/// Structural equality of the models, decided executably.
#[verifier::loop_isolation(false)]
pub fn ty_eq(a: &Ty, b: &Ty) -> (r: bool)
    ensures
        r == (ty_view(*a) == ty_view(*b)),
    decreases *a,
{
    match (a, b) {
        (Ty::Var(d1), Ty::Var(d2)) => *d1 == *d2,
        (Ty::Apply(a1), Ty::Apply(a2)) => {
            proof {
                lemma_tys_view(a1.parameters@);
                lemma_tys_view(a2.parameters@);
            }
            if !(a1.name == a2.name) {
                false
            } else if a1.parameters.len() != a2.parameters.len() {
                false
            } else {
                let n = a1.parameters.len();
                let mut i: usize = 0;
                let mut same = true;
                while i < n
                    invariant
                        i <= n,
                        n == a1.parameters@.len(),
                        n == a2.parameters@.len(),
                        same ==> forall|j: int| 0 <= j < i ==> ty_view(a1.parameters@[j])
                            == ty_view(a2.parameters@[j]),
                        !same ==> exists|j: int| 0 <= j < n && ty_view(a1.parameters@[j])
                            != ty_view(a2.parameters@[j]),
                    decreases n - i,
                {
                    let e = ty_eq(&a1.parameters[i], &a2.parameters[i]);
                    same = same && e;
                    i += 1;
                }
                proof {
                    lemma_tys_view(a1.parameters@);
                    lemma_tys_view(a2.parameters@);
                    if same {
                        assert(tys_view(a1.parameters@) =~= tys_view(a2.parameters@));
                    } else {
                        let j = choose|j: int|
                            0 <= j < n && ty_view(a1.parameters@[j]) != ty_view(a2.parameters@[j]);
                        assert(tys_view(a1.parameters@)[j] != tys_view(a2.parameters@)[j]);
                    }
                }
                same
            }
        }
        (Ty::ForAll(q1), Ty::ForAll(q2)) => {
            if q1.num_binders != q2.num_binders {
                false
            } else {
                ty_eq(&q1.ty, &q2.ty)
            }
        }
        _ => {
            false
        }
    }
}

} // verus!
