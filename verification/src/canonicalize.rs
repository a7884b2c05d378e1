use vstd::prelude::*;

use crate::ir::{
    lemma_ok_apply, lemma_tys_view, term_ok, ty_view, tys_view, view_in_range, ApplicationTy,
    QuantifiedTy, Ty, TyView, DEPTH_LIMIT,
};
use crate::var::{InferenceValue, TyInferenceVariable, UniverseIndex};
use crate::{InferenceTable, ParameterInferenceVariable, ParameterKind};

verus! {

/// A value whose free inference variables have been replaced by bound
/// variables numbered in first-occurrence order, beside the ordered list
/// pairing each new index with the variable and universe it replaced.
#[derive(Debug)]
pub struct Canonicalized<T> {
    pub value: T,
    pub free_vars: Vec<(ParameterInferenceVariable, UniverseIndex)>,
}

/// The free-variable keys of `v` in left-to-right, outer-to-inner first
/// occurrence order, appended to `acc` without duplicates.
pub open spec fn canon_collect(v: TyView, inner: nat, acc: Seq<int>) -> Seq<int>
    decreases v,
{
    match v {
        TyView::Var(d) => if d < inner {
            acc
        } else if acc.contains(d - inner) {
            acc
        } else {
            acc.push(d - inner)
        },
        TyView::Apply(_, args) => canon_collect_seq(args, inner, acc),
        TyView::ForAll(n, body) => canon_collect(*body, (inner + n) as nat, acc),
    }
}

pub open spec fn canon_collect_seq(s: Seq<TyView>, inner: nat, acc: Seq<int>) -> Seq<int>
    decreases s,
{
    if s.len() == 0 {
        acc
    } else {
        canon_collect_seq(s.drop_first(), inner, canon_collect(s[0], inner, acc))
    }
}

/// Collection only appends: everything in `acc` stays, in place.
pub proof fn lemma_collect_mono(v: TyView, inner: nat, acc: Seq<int>)
    ensures
        acc.len() <= canon_collect(v, inner, acc).len(),
        forall|j: int| 0 <= j < acc.len() ==> canon_collect(v, inner, acc)[j] == acc[j],
    decreases v,
{
    match v {
        TyView::Var(d) => {}
        TyView::Apply(_, args) => {
            lemma_collect_seq_mono(args, inner, acc);
        }
        TyView::ForAll(n, body) => {
            lemma_collect_mono(*body, (inner + n) as nat, acc);
        }
    }
}

pub proof fn lemma_collect_seq_mono(s: Seq<TyView>, inner: nat, acc: Seq<int>)
    ensures
        acc.len() <= canon_collect_seq(s, inner, acc).len(),
        forall|j: int| 0 <= j < acc.len() ==> canon_collect_seq(s, inner, acc)[j] == acc[j],
    decreases s,
{
    if s.len() > 0 {
        lemma_collect_mono(s[0], inner, acc);
        lemma_collect_seq_mono(s.drop_first(), inner, canon_collect(s[0], inner, acc));
    }
}

/// Every free variable of `v` is listed in `keys`.
pub open spec fn all_in(v: TyView, inner: nat, keys: Seq<int>) -> bool
    decreases v,
{
    match v {
        TyView::Var(d) => d >= inner ==> keys.contains(d - inner),
        TyView::Apply(_, args) => forall|i: int|
            0 <= i < args.len() ==> all_in(#[trigger] args[i], inner, keys),
        TyView::ForAll(n, body) => all_in(*body, (inner + n) as nat, keys),
    }
}

/// A longer key list still covers the term.
pub proof fn lemma_all_in_mono(v: TyView, inner: nat, k1: Seq<int>, k2: Seq<int>)
    requires
        all_in(v, inner, k1),
        k1.len() <= k2.len(),
        forall|j: int| 0 <= j < k1.len() ==> k2[j] == k1[j],
    ensures
        all_in(v, inner, k2),
    decreases v,
{
    match v {
        TyView::Var(d) => {
            if d >= inner {
                let j = choose|j: int| 0 <= j < k1.len() && k1[j] == d - inner;
                assert(k2[j] == d - inner);
            }
        }
        TyView::Apply(name, args) => {
            assert forall|i: int| 0 <= i < args.len() implies all_in(
                #[trigger] args[i],
                inner,
                k2,
            ) by {
                lemma_all_in_mono(args[i], inner, k1, k2);
            }
        }
        TyView::ForAll(n, body) => {
            lemma_all_in_mono(*body, (inner + n) as nat, k1, k2);
        }
    }
}

/// The keys collected from a term cover it.
pub proof fn lemma_collect_all_in(v: TyView, inner: nat, acc: Seq<int>)
    ensures
        all_in(v, inner, canon_collect(v, inner, acc)),
    decreases v,
{
    match v {
        TyView::Var(d) => {
            if d >= inner && !acc.contains(d - inner) {
                assert(canon_collect(v, inner, acc) == acc.push(d - inner));
                assert(canon_collect(v, inner, acc)[acc.len() as int] == d - inner);
            }
        }
        TyView::Apply(name, args) => {
            lemma_collect_seq_all_in(args, inner, acc);
            let out = canon_collect(v, inner, acc);
            assert(v->Apply_1 == args);
        }
        TyView::ForAll(n, body) => {
            lemma_collect_all_in(*body, (inner + n) as nat, acc);
        }
    }
}

pub proof fn lemma_collect_seq_all_in(s: Seq<TyView>, inner: nat, acc: Seq<int>)
    ensures
        forall|i: int| 0 <= i < s.len() ==> all_in(
            #[trigger] s[i],
            inner,
            canon_collect_seq(s, inner, acc),
        ),
    decreases s,
{
    if s.len() > 0 {
        let mid = canon_collect(s[0], inner, acc);
        let out = canon_collect_seq(s, inner, acc);
        lemma_collect_all_in(s[0], inner, acc);
        lemma_collect_seq_mono(s.drop_first(), inner, mid);
        lemma_all_in_mono(s[0], inner, mid, out);
        lemma_collect_seq_all_in(s.drop_first(), inner, mid);
        assert forall|i: int| 0 <= i < s.len() implies all_in(#[trigger] s[i], inner, out) by {
            if i > 0 {
                assert(s.drop_first()[i - 1] == s[i]);
            }
        }
    }
}

/// Everything collected from an in-range term is an in-range key.
pub proof fn lemma_collect_range(v: TyView, inner: nat, acc: Seq<int>, n: nat)
    requires
        view_in_range(v, inner, n),
    ensures
        forall|j: int|
            0 <= j < canon_collect(v, inner, acc).len() ==> (j < acc.len() && canon_collect(
                v,
                inner,
                acc,
            )[j] == acc[j]) || (0 <= #[trigger] canon_collect(v, inner, acc)[j] < n),
    decreases v,
{
    let out = canon_collect(v, inner, acc);
    match v {
        TyView::Var(d) => {
            assert forall|j: int| 0 <= j < canon_collect(v, inner, acc).len() implies (j
                < acc.len() && canon_collect(v, inner, acc)[j] == acc[j]) || (0 <= canon_collect(
                v,
                inner,
                acc,
            )[j] < n) by {
                if d >= inner && !acc.contains(d - inner) {
                    assert(canon_collect(v, inner, acc) == acc.push(d - inner));
                    if j < acc.len() {
                        assert(canon_collect(v, inner, acc)[j] == acc[j]);
                    } else {
                        assert(canon_collect(v, inner, acc)[j] == d - inner);
                    }
                } else {
                    assert(canon_collect(v, inner, acc) == acc);
                }
            }
        }
        TyView::Apply(name, args) => {
            lemma_collect_seq_range(args, inner, acc, n, name);
            assert(canon_collect(v, inner, acc) == canon_collect_seq(args, inner, acc));
        }
        TyView::ForAll(k, body) => {
            lemma_collect_range(*body, (inner + k) as nat, acc, n);
            assert(canon_collect(v, inner, acc) == canon_collect(*body, (inner + k) as nat, acc));
        }
    }
}

pub proof fn lemma_collect_seq_range(
    s: Seq<TyView>,
    inner: nat,
    acc: Seq<int>,
    n: nat,
    name: crate::ir::TypeName,
)
    requires
        forall|i: int| 0 <= i < s.len() ==> view_in_range(#[trigger] s[i], inner, n),
    ensures
        forall|j: int|
            0 <= j < canon_collect_seq(s, inner, acc).len() ==> (j < acc.len()
                && canon_collect_seq(s, inner, acc)[j] == acc[j]) || (0
                <= #[trigger] canon_collect_seq(s, inner, acc)[j] < n),
    decreases s,
{
    if s.len() > 0 {
        let mid = canon_collect(s[0], inner, acc);
        let out = canon_collect_seq(s, inner, acc);
        lemma_collect_range(s[0], inner, acc, n);
        assert forall|i: int| 0 <= i < s.drop_first().len() implies view_in_range(
            #[trigger] s.drop_first()[i],
            inner,
            n,
        ) by {
            assert(s.drop_first()[i] == s[i + 1]);
        }
        lemma_collect_seq_range(s.drop_first(), inner, mid, n, name);
        lemma_collect_mono(s[0], inner, acc);
        assert(out == canon_collect_seq(s.drop_first(), inner, mid));
        assert forall|j: int|
            0 <= j < canon_collect_seq(s, inner, acc).len() implies (j < acc.len()
            && canon_collect_seq(s, inner, acc)[j] == acc[j]) || (0 <= canon_collect_seq(
            s,
            inner,
            acc,
        )[j] < n) by {
            assert(canon_collect_seq(s.drop_first(), inner, mid)[j] == canon_collect_seq(
                s,
                inner,
                acc,
            )[j]);
            if j < mid.len() && canon_collect_seq(s, inner, acc)[j] == mid[j] {
                if j < acc.len() && mid[j] == acc[j] {
                } else {
                    assert(0 <= mid[j] < n);
                }
            }
        }
    }
}

/// The position of `k` in `keys` (first occurrence).
pub open spec fn idx_of(keys: Seq<int>, k: int) -> int
    decreases keys.len(),
{
    if keys.len() == 0 {
        0
    } else if keys[0] == k {
        0
    } else {
        1 + idx_of(keys.drop_first(), k)
    }
}

/// An index that comes with "no earlier match" evidence is the position.
pub proof fn lemma_idx_of_unique(keys: Seq<int>, k: int, i: int)
    requires
        0 <= i < keys.len(),
        keys[i] == k,
        forall|j: int| 0 <= j < i ==> keys[j] != k,
    ensures
        idx_of(keys, k) == i,
    decreases keys.len(),
{
    if i > 0 {
        assert(keys.drop_first()[i - 1] == k);
        assert forall|j: int| 0 <= j < i - 1 implies keys.drop_first()[j] != k by {
            assert(keys.drop_first()[j] == keys[j + 1]);
        }
        lemma_idx_of_unique(keys.drop_first(), k, i - 1);
    }
}

/// The term with each free variable replaced by its canonical index.
pub open spec fn canon_ty(v: TyView, inner: nat, keys: Seq<int>) -> TyView
    decreases v,
{
    match v {
        TyView::Var(d) => if d < inner {
            TyView::Var(d)
        } else {
            TyView::Var(idx_of(keys, d - inner) + inner)
        },
        TyView::Apply(name, args) => TyView::Apply(name, canon_tys(args, inner, keys)),
        TyView::ForAll(n, body) => TyView::ForAll(
            n,
            Box::new(canon_ty(*body, (inner + n) as nat, keys)),
        ),
    }
}

pub open spec fn canon_tys(s: Seq<TyView>, inner: nat, keys: Seq<int>) -> Seq<TyView>
    decreases s,
{
    if s.len() == 0 {
        Seq::empty()
    } else {
        seq![canon_ty(s[0], inner, keys)] + canon_tys(s.drop_first(), inner, keys)
    }
}

pub proof fn lemma_canon_tys(s: Seq<TyView>, inner: nat, keys: Seq<int>)
    ensures
        canon_tys(s, inner, keys).len() == s.len(),
        forall|i: int| 0 <= i < s.len() ==> canon_tys(s, inner, keys)[i] == canon_ty(
            #[trigger] s[i],
            inner,
            keys,
        ),
    decreases s,
{
    if s.len() > 0 {
        lemma_canon_tys(s.drop_first(), inner, keys);
        assert forall|i: int| 0 <= i < s.len() implies canon_tys(s, inner, keys)[i] == canon_ty(
            #[trigger] s[i],
            inner,
            keys,
        ) by {
            if i > 0 {
                assert(s.drop_first()[i - 1] == s[i]);
            }
        }
    }
}

/// The model of an executable key list.
pub open spec fn keys_view(s: Seq<usize>) -> Seq<int> {
    Seq::new(s.len(), |i: int| s[i] as int)
}

/// Appends the free variables of `v` to `acc` in first-occurrence order.
#[verifier::loop_isolation(false)]
fn collect_vars(v: &Ty, inner: usize, acc: &mut Vec<usize>)
    requires
        inner <= DEPTH_LIMIT,
        term_ok(ty_view(*v), inner as nat),
    ensures
        keys_view(final(acc)@) == canon_collect(ty_view(*v), inner as nat, keys_view(old(acc)@)),
    decreases *v,
{
    match v {
        Ty::Var(d) => {
            if *d < inner {
            } else {
                let k = *d - inner;
                let mut i: usize = 0;
                let mut found = false;
                let n = acc.len();
                while i < n
                    invariant
                        i <= n,
                        n == acc@.len(),
                        *acc == *old(acc),
                        found ==> keys_view(acc@).contains(k as int),
                        !found ==> forall|j: int| 0 <= j < i ==> keys_view(acc@)[j] != k as int,
                    decreases n - i,
                {
                    if acc[i] == k {
                        proof {
                            assert(keys_view(acc@)[i as int] == k as int);
                        }
                        found = true;
                    }
                    i += 1;
                }
                if !found {
                    proof {
                        assert(!keys_view(acc@).contains(k as int));
                    }
                    acc.push(k);
                    proof {
                        assert(keys_view(acc@) =~= keys_view(old(acc)@).push(k as int));
                    }
                } else {
                    proof {
                        assert(keys_view(acc@).contains(k as int));
                    }
                }
            }
        }
        Ty::Apply(app) => {
            proof {
                lemma_tys_view(app.parameters@);
            }
            let n = app.parameters.len();
            let mut i: usize = 0;
            while i < n
                invariant
                    i <= n,
                    n == app.parameters@.len(),
                    keys_view(acc@) == canon_collect_seq(
                        tys_view(app.parameters@).take(i as int),
                        inner as nat,
                        keys_view(old(acc)@),
                    ),
                decreases n - i,
            {
                proof {
                    lemma_tys_view(app.parameters@);
                    assert(tys_view(app.parameters@)[i as int] == ty_view(
                        app.parameters@[i as int],
                    ));
                    lemma_ok_apply(app.name, tys_view(app.parameters@), inner as nat, 0, i as int);
                }
                let ghost before = keys_view(acc@);
                collect_vars(&app.parameters[i], inner, acc);
                proof {
                    lemma_collect_take_step(
                        tys_view(app.parameters@),
                        inner as nat,
                        keys_view(old(acc)@),
                        i as int,
                    );
                }
                i += 1;
            }
            proof {
                assert(tys_view(app.parameters@).take(n as int) =~= tys_view(app.parameters@));
            }
        }
        Ty::ForAll(q) => {
            collect_vars(&q.ty, inner + q.num_binders, acc);
        }
    }
}

/// One step of collecting over an argument list.
pub proof fn lemma_collect_take_step(s: Seq<TyView>, inner: nat, acc: Seq<int>, i: int)
    requires
        0 <= i < s.len(),
    ensures
        canon_collect_seq(s.take(i + 1), inner, acc) == canon_collect(
            s[i],
            inner,
            canon_collect_seq(s.take(i), inner, acc),
        ),
    decreases i,
{
    if i == 0 {
        assert(s.take(1).len() == 1);
        assert(s.take(1)[0] == s[0]);
        assert(s.take(1).drop_first() =~= Seq::<TyView>::empty());
        assert(s.take(0) =~= Seq::<TyView>::empty());
        assert(canon_collect_seq(s.take(1), inner, acc) == canon_collect_seq(
            s.take(1).drop_first(),
            inner,
            canon_collect(s.take(1)[0], inner, acc),
        ));
        assert(canon_collect_seq(Seq::<TyView>::empty(), inner, canon_collect(s[0], inner, acc))
            == canon_collect(s[0], inner, acc));
        assert(canon_collect_seq(s.take(0), inner, acc) == acc);
    } else {
        let mid = canon_collect(s[0], inner, acc);
        assert(s.take(i + 1).len() == i + 1);
        assert(s.take(i + 1)[0] == s[0]);
        assert(s.take(i + 1).drop_first() =~= s.drop_first().take(i));
        assert(s.take(i).len() == i);
        assert(s.take(i)[0] == s[0]);
        assert(s.take(i).drop_first() =~= s.drop_first().take(i - 1));
        assert(s.drop_first()[i - 1] == s[i]);
        lemma_collect_take_step(s.drop_first(), inner, mid, i - 1);
        assert(canon_collect_seq(s.take(i + 1), inner, acc) == canon_collect_seq(
            s.drop_first().take(i),
            inner,
            mid,
        ));
        assert(canon_collect_seq(s.take(i), inner, acc) == canon_collect_seq(
            s.drop_first().take(i - 1),
            inner,
            mid,
        ));
    }
}

/// Finds the position of `k` in `keys`.
#[verifier::loop_isolation(false)]
fn find_key(keys: &Vec<usize>, k: usize) -> (idx: usize)
    requires
        keys_view(keys@).contains(k as int),
    ensures
        idx as int == idx_of(keys_view(keys@), k as int),
        idx < keys@.len(),
{
    let n = keys.len();
    let mut i: usize = 0;
    while i < n
        invariant
            i <= n,
            n == keys@.len(),
            forall|j: int| 0 <= j < i ==> keys_view(keys@)[j] != k as int,
        decreases n - i,
    {
        if keys[i] == k {
            proof {
                assert(keys_view(keys@)[i as int] == k as int);
                lemma_idx_of_unique(keys_view(keys@), k as int, i as int);
            }
            return i;
        }
        proof {
            assert(keys_view(keys@)[i as int] != k as int);
        }
        i += 1;
    }
    proof {
        let j = choose|j: int| 0 <= j < keys@.len() && keys_view(keys@)[j] == k as int;
        assert(false);
    }
    vstd::pervasive::unreached()
}

/// Rebuilds `v` with each free variable replaced by its canonical index.
#[verifier::loop_isolation(false)]
fn canon_build(v: &Ty, inner: usize, keys: &Vec<usize>) -> (r: Ty)
    requires
        inner <= DEPTH_LIMIT,
        keys@.len() <= DEPTH_LIMIT,
        term_ok(ty_view(*v), inner as nat),
        all_in(ty_view(*v), inner as nat, keys_view(keys@)),
    ensures
        ty_view(r) == canon_ty(ty_view(*v), inner as nat, keys_view(keys@)),
    decreases *v,
{
    match v {
        Ty::Var(d) => {
            if *d < inner {
                Ty::Var(*d)
            } else {
                let idx = find_key(keys, *d - inner);
                Ty::Var(idx + inner)
            }
        }
        Ty::Apply(app) => {
            proof {
                lemma_tys_view(app.parameters@);
                lemma_canon_tys(tys_view(app.parameters@), inner as nat, keys_view(keys@));
            }
            let n = app.parameters.len();
            let mut args: Vec<Ty> = Vec::new();
            let mut i: usize = 0;
            while i < n
                invariant
                    i <= n,
                    n == app.parameters@.len(),
                    args@.len() == i as int,
                    forall|j: int| 0 <= j < i ==> ty_view(args@[j]) == canon_ty(
                        tys_view(app.parameters@)[j],
                        inner as nat,
                        keys_view(keys@),
                    ),
                decreases n - i,
            {
                proof {
                    lemma_tys_view(app.parameters@);
                    assert(tys_view(app.parameters@)[i as int] == ty_view(
                        app.parameters@[i as int],
                    ));
                    lemma_ok_apply(app.name, tys_view(app.parameters@), inner as nat, 0, i as int);
                    lemma_all_in_apply(
                        app.name,
                        tys_view(app.parameters@),
                        inner as nat,
                        keys_view(keys@),
                        i as int,
                    );
                }
                let c = canon_build(&app.parameters[i], inner, keys);
                args.push(c);
                i += 1;
            }
            proof {
                lemma_tys_view(args@);
                lemma_canon_tys(tys_view(app.parameters@), inner as nat, keys_view(keys@));
                assert(tys_view(args@) =~= canon_tys(
                    tys_view(app.parameters@),
                    inner as nat,
                    keys_view(keys@),
                ));
            }
            Ty::Apply(ApplicationTy { name: app.name, parameters: args })
        }
        Ty::ForAll(q) => {
            let body = canon_build(&q.ty, inner + q.num_binders, keys);
            Ty::ForAll(Box::new(QuantifiedTy { num_binders: q.num_binders, ty: body }))
        }
    }
}

/// A constructor's arguments inherit coverage.
pub proof fn lemma_all_in_apply(
    name: crate::ir::TypeName,
    args: Seq<TyView>,
    inner: nat,
    keys: Seq<int>,
    i: int,
)
    requires
        0 <= i < args.len(),
        all_in(TyView::Apply(name, args), inner, keys),
    ensures
        all_in(args[i], inner, keys),
{
    let t = TyView::Apply(name, args);
    assert(t->Apply_1 == args);
    assert(all_in(t->Apply_1[i], inner, keys));
}

/// Canonicalization is deterministic: two terms that are equal after deep
/// normalization canonicalize to the same canonical term and the same key
/// order, whatever the numeric identity of the terms they came from. (The
/// stronger statement, equality up to a renaming of free variables, is not
/// proved here.)
pub proof fn lemma_canonical_deterministic(t: InferenceTable, a: TyView, b: TyView)
    requires
        t.deep_norm(a) == t.deep_norm(b),
    ensures
        t.deep_norm(a) matches Some(na) ==> {
            let nb = t.deep_norm(b)->Some_0;
            &&& canon_collect(na, 0, Seq::empty()) == canon_collect(nb, 0, Seq::empty())
            &&& canon_ty(na, 0, canon_collect(na, 0, Seq::empty())) == canon_ty(
                nb,
                0,
                canon_collect(nb, 0, Seq::empty()),
            )
        },
{
}

impl InferenceTable {
    /// The universe a free variable was created in, read off the table.
    pub open spec fn universe_of(self, k: int) -> UniverseIndex {
        match self.ty_value(k) {
            InferenceValue::Unbound(u) => u,
            InferenceValue::Bound(_) => UniverseIndex { counter: 0 },
        }
    }

    /// Deep-normalizes `ty`, then replaces each remaining free inference
    /// variable by a bound variable numbered in first-occurrence order,
    /// returning the canonical term and the ordered variable/universe table.
    /// `None` only where normalization itself gives out.
    pub fn canonicalize(&mut self, ty: &Ty) -> (r: Option<Canonicalized<Ty>>)
        requires
            old(self).wf(),
            old(self).n_ty_vars() < usize::MAX,
            term_ok(ty_view(*ty), 0),
            view_in_range(ty_view(*ty), 0, old(self).n_ty_vars()),
        ensures
            *final(self) == *old(self),
            old(self).deep_norm(ty_view(*ty)) is None ==> r is None,
            old(self).deep_norm(ty_view(*ty)) matches Some(nv) ==> {
                let keys = canon_collect(nv, 0, Seq::empty());
                &&& (keys.len() > DEPTH_LIMIT ==> r is None)
                &&& (keys.len() <= DEPTH_LIMIT ==> (r matches Some(c) && ty_view(c.value)
                    == canon_ty(nv, 0, keys) && c.free_vars@.len() == keys.len() && (forall|i: int|
                    0 <= i < keys.len() ==> (#[trigger] c.free_vars@[i]).0
                        == ParameterKind::<TyInferenceVariable, crate::LifetimeInferenceVariable>::Ty(
                        TyInferenceVariable { index: keys[i] as usize },
                    ) && c.free_vars@[i].1 == old(self).universe_of(keys[i]))))
            },
    {
        let normed = match self.normalize_deep(ty) {
            None => {
                return None;
            },
            Some(t) => t,
        };
        let mut keys: Vec<usize> = Vec::new();
        proof {
            assert(keys_view(keys@) =~= Seq::<int>::empty());
        }
        collect_vars(&normed, 0, &mut keys);
        if keys.len() > DEPTH_LIMIT {
            return None;
        }
        proof {
            lemma_collect_all_in(ty_view(normed), 0, Seq::empty());
            lemma_collect_range(ty_view(normed), 0, Seq::empty(), self.n_ty_vars());
            assert forall|j: int| 0 <= j < keys@.len() implies keys@[j] < self.n_ty_vars() by {
                assert(keys_view(keys@)[j] == keys@[j] as int);
                assert(canon_collect(ty_view(normed), 0, Seq::empty())[j] == keys_view(keys@)[j]);
            }
        }
        let value = canon_build(&normed, 0, &keys);
        let mut free_vars: Vec<(ParameterInferenceVariable, UniverseIndex)> = Vec::new();
        let n = keys.len();
        let mut i: usize = 0;
        #[verifier::loop_isolation(false)]
        while i < n
            invariant
                i <= n,
                free_vars@.len() == i as int,
                forall|j: int| 0 <= j < keys@.len() ==> keys@[j] < self.n_ty_vars(),
                forall|j: int| 0 <= j < i ==> (#[trigger] free_vars@[j]).0
                    == ParameterKind::<TyInferenceVariable, crate::LifetimeInferenceVariable>::Ty(
                    TyInferenceVariable { index: keys@[j] },
                ) && free_vars@[j].1 == self.universe_of(keys@[j] as int),
            decreases n - i,
        {
            let k = keys[i];
            let u = match self.ty_unify.probe(k) {
                InferenceValue::Unbound(u) => *u,
                InferenceValue::Bound(_) => UniverseIndex { counter: 0 },
            };
            free_vars.push((ParameterKind::Ty(TyInferenceVariable::from_depth(k)), u));
            i += 1;
        }
        proof {
            assert forall|i2: int| 0 <= i2 < keys_view(keys@).len() implies keys_view(keys@)[i2]
                == keys@[i2] as int by {}
        }
        Some(Canonicalized { value, free_vars })
    }
}

} // verus!
