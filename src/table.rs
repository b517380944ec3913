//! The unification table: inference variables and their solutions.
use vstd::prelude::*;
use crate::subst::{
    all_vars, bindings_view, clause_vars, deep_clone, lemma_receiver_free_erase, occurs, occurs_in,
    other_than, receiver_free, sub_clause, sub_leaf, sub_ty, substitute, ty_eq, is_receiver_free, Sub,
    Subst,
};
use crate::ty::{AliasTy, ClauseM, Ty, TyM, WhereClause};

verus! {

// ---------------------------------------------------------------------------
// The model of a table
// ---------------------------------------------------------------------------

/// Variable `w` exists in `b` and has no solution yet.
pub open spec fn unbound(b: Seq<Option<TyM>>, w: u64) -> bool {
    w < b.len() && b[w as int] is None
}

pub open spec fn unbound_in(b: Seq<Option<TyM>>) -> spec_fn(u64) -> bool {
    |w: u64| unbound(b, w)
}

pub open spec fn below(n: nat) -> spec_fn(u64) -> bool {
    |w: u64| w < n
}

/// Every variable of `t` is unbound in `b`: `t` is fully resolved.
pub open spec fn closed(b: Seq<Option<TyM>>, t: TyM) -> bool {
    all_vars(t, unbound_in(b))
}

/// Every variable of `t` was created by a table of `n` variables.
pub open spec fn scoped(n: nat, t: TyM) -> bool {
    all_vars(t, below(n))
}

/// Solutions are themselves fully resolved.
pub open spec fn wf_bindings(b: Seq<Option<TyM>>) -> bool {
    forall|i: int| 0 <= i < b.len() && (#[trigger] b[i]) is Some ==> closed(b, b[i]->0)
}

/// `t` with every solved variable replaced by its solution.
pub open spec fn apply(b: Seq<Option<TyM>>, t: TyM) -> TyM {
    sub_ty(t, Sub::Table(b))
}

/// The table after variable `v` is solved as `s`.
pub open spec fn bind_spec(b: Seq<Option<TyM>>, v: u64, s: TyM) -> Seq<Option<TyM>> {
    Seq::new(
        b.len(),
        |i: int|
            if i == v {
                Some(s)
            } else {
                match b[i] {
                    Some(t) => Some(sub_ty(t, Sub::Var(v, s))),
                    None => None,
                }
            },
    )
}

/// Number of unsolved variables.
pub open spec fn count_unbound(b: Seq<Option<TyM>>) -> nat
    decreases b.len(),
{
    if b.len() == 0 {
        0
    } else {
        count_unbound(b.drop_last()) + if b.last() is None { 1nat } else { 0nat }
    }
}

/// Every equation that holds under `b1` still holds under `b2`.
pub open spec fn keeps(b1: Seq<Option<TyM>>, b2: Seq<Option<TyM>>) -> bool {
    forall|x: TyM, y: TyM|
        apply(b1, x) == apply(b1, y) ==> #[trigger] apply(b2, x) == #[trigger] apply(b2, y)
}

/// Every variable solved in `b1` is solved in `b2`.
pub open spec fn solved_stay(b1: Seq<Option<TyM>>, b2: Seq<Option<TyM>>) -> bool {
    &&& b1.len() == b2.len()
    &&& forall|i: int| 0 <= i < b1.len() && (#[trigger] b1[i]) is Some ==> b2[i] is Some
}

/// One substitution after another equals a third, on every variable.
pub open spec fn composes(f: Sub, g: Sub, h: Sub) -> bool {
    &&& !(f is Receiver)
    &&& !(g is Receiver)
    &&& !(h is Receiver)
    &&& forall|w: u64| #[trigger] sub_leaf(TyM::Var(w), h) == sub_ty(sub_leaf(TyM::Var(w), f), g)
}

/// `f` leaves every variable satisfying `p` (and the receiver) as it is.
pub open spec fn fixes(f: Sub, p: spec_fn(u64) -> bool) -> bool {
    &&& !(f is Receiver)
    &&& forall|w: u64| p(w) ==> #[trigger] sub_leaf(TyM::Var(w), f) == TyM::Var(w)
}

/// Whatever `f` puts in place of a variable satisfying `p` has only
/// variables satisfying `q`.
pub open spec fn maps_vars(f: Sub, p: spec_fn(u64) -> bool, q: spec_fn(u64) -> bool) -> bool {
    &&& (f is Receiver ==> all_vars(f->Receiver_0, q))
    &&& forall|w: u64| p(w) ==> all_vars(#[trigger] sub_leaf(TyM::Var(w), f), q)
}

// ---------------------------------------------------------------------------
// Lemmas over terms
// ---------------------------------------------------------------------------

pub proof fn lemma_compose(t: TyM, f: Sub, g: Sub, h: Sub)
    requires
        composes(f, g, h),
    ensures
        sub_ty(sub_ty(t, f), g) == sub_ty(t, h),
    decreases t,
{
    match t {
        TyM::Adt(id, xs) => {
            assert forall|i: int| 0 <= i < xs.len() implies sub_ty(sub_ty(xs[i], f), g) == sub_ty(xs[i], h) by {
                lemma_compose(xs[i], f, g, h);
            }
            assert(sub_ty(sub_ty(t, f), g)->Adt_1 =~= sub_ty(t, h)->Adt_1);
        },
        TyM::Ref(m, b) => {
            lemma_compose(*b, f, g, h);
        },
        TyM::Tuple(xs) => {
            assert forall|i: int| 0 <= i < xs.len() implies sub_ty(sub_ty(xs[i], f), g) == sub_ty(xs[i], h) by {
                lemma_compose(xs[i], f, g, h);
            }
            assert(sub_ty(sub_ty(t, f), g)->Tuple_0 =~= sub_ty(t, h)->Tuple_0);
        },
        TyM::Function(n, sig, xs) => {
            assert forall|i: int| 0 <= i < xs.len() implies sub_ty(sub_ty(xs[i], f), g) == sub_ty(xs[i], h) by {
                lemma_compose(xs[i], f, g, h);
            }
            assert(sub_ty(sub_ty(t, f), g)->Function_2 =~= sub_ty(t, h)->Function_2);
        },
        TyM::Closure(id, b) => {
            lemma_compose(*b, f, g, h);
        },
        TyM::Dyn(n, cs) => {
            assert forall|i: int| 0 <= i < cs.len() implies sub_clause(sub_clause(cs[i], f), g) == sub_clause(cs[i], h) by {
                lemma_compose_clause(cs[i], f, g, h);
            }
            assert(sub_ty(sub_ty(t, f), g)->Dyn_1 =~= sub_ty(t, h)->Dyn_1);
        },
        TyM::Var(w) => {
            assert(sub_leaf(TyM::Var(w), h) == sub_ty(sub_leaf(TyM::Var(w), f), g));
        },
        _ => {},
    }
}

pub proof fn lemma_compose_clause(c: ClauseM, f: Sub, g: Sub, h: Sub)
    requires
        composes(f, g, h),
    ensures
        sub_clause(sub_clause(c, f), g) == sub_clause(c, h),
    decreases c,
{
    match c {
        ClauseM::Implemented(id, xs) => {
            assert forall|i: int| 0 <= i < xs.len() implies sub_ty(sub_ty(xs[i], f), g) == sub_ty(xs[i], h) by {
                lemma_compose(xs[i], f, g, h);
            }
            assert(sub_clause(sub_clause(c, f), g)->Implemented_1 =~= sub_clause(c, h)->Implemented_1);
        },
        ClauseM::ProjectionEq(id, xs, t) => {
            assert forall|i: int| 0 <= i < xs.len() implies sub_ty(sub_ty(xs[i], f), g) == sub_ty(xs[i], h) by {
                lemma_compose(xs[i], f, g, h);
            }
            assert(sub_clause(sub_clause(c, f), g)->ProjectionEq_1 =~= sub_clause(c, h)->ProjectionEq_1);
            lemma_compose(t, f, g, h);
        },
        ClauseM::OpaqueEq(id, t) => {
            lemma_compose(t, f, g, h);
        },
        ClauseM::Outlives(t) => {
            lemma_compose(t, f, g, h);
        },
    }
}

pub proof fn lemma_fixes(t: TyM, f: Sub, p: spec_fn(u64) -> bool)
    requires
        fixes(f, p),
        all_vars(t, p),
    ensures
        sub_ty(t, f) == t,
    decreases t,
{
    match t {
        TyM::Adt(id, xs) => {
            assert forall|i: int| 0 <= i < xs.len() implies sub_ty(xs[i], f) == xs[i] by {
                lemma_fixes(xs[i], f, p);
            }
            assert(sub_ty(t, f)->Adt_1 =~= xs);
        },
        TyM::Ref(m, b) => {
            lemma_fixes(*b, f, p);
        },
        TyM::Tuple(xs) => {
            assert forall|i: int| 0 <= i < xs.len() implies sub_ty(xs[i], f) == xs[i] by {
                lemma_fixes(xs[i], f, p);
            }
            assert(sub_ty(t, f)->Tuple_0 =~= xs);
        },
        TyM::Function(n, sig, xs) => {
            assert forall|i: int| 0 <= i < xs.len() implies sub_ty(xs[i], f) == xs[i] by {
                lemma_fixes(xs[i], f, p);
            }
            assert(sub_ty(t, f)->Function_2 =~= xs);
        },
        TyM::Closure(id, b) => {
            lemma_fixes(*b, f, p);
        },
        TyM::Dyn(n, cs) => {
            assert forall|i: int| 0 <= i < cs.len() implies sub_clause(cs[i], f) == cs[i] by {
                lemma_fixes_clause(cs[i], f, p);
            }
            assert(sub_ty(t, f)->Dyn_1 =~= cs);
        },
        TyM::Var(w) => {
            assert(sub_leaf(TyM::Var(w), f) == TyM::Var(w));
        },
        _ => {},
    }
}

pub proof fn lemma_fixes_clause(c: ClauseM, f: Sub, p: spec_fn(u64) -> bool)
    requires
        fixes(f, p),
        clause_vars(c, p),
    ensures
        sub_clause(c, f) == c,
    decreases c,
{
    match c {
        ClauseM::Implemented(id, xs) => {
            assert forall|i: int| 0 <= i < xs.len() implies sub_ty(xs[i], f) == xs[i] by {
                lemma_fixes(xs[i], f, p);
            }
            assert(sub_clause(c, f)->Implemented_1 =~= xs);
        },
        ClauseM::ProjectionEq(id, xs, t) => {
            assert forall|i: int| 0 <= i < xs.len() implies sub_ty(xs[i], f) == xs[i] by {
                lemma_fixes(xs[i], f, p);
            }
            assert(sub_clause(c, f)->ProjectionEq_1 =~= xs);
            lemma_fixes(t, f, p);
        },
        ClauseM::OpaqueEq(id, t) => {
            lemma_fixes(t, f, p);
        },
        ClauseM::Outlives(t) => {
            lemma_fixes(t, f, p);
        },
    }
}

pub proof fn lemma_mono(t: TyM, p: spec_fn(u64) -> bool, q: spec_fn(u64) -> bool, r: spec_fn(u64) -> bool)
    requires
        all_vars(t, p),
        all_vars(t, q),
        forall|w: u64| p(w) && q(w) ==> #[trigger] r(w),
    ensures
        all_vars(t, r),
    decreases t,
{
    match t {
        TyM::Adt(id, xs) => {
            assert forall|i: int| 0 <= i < xs.len() implies all_vars(#[trigger] xs[i], r) by {
                lemma_mono(xs[i], p, q, r);
            }
        },
        TyM::Ref(m, b) => {
            lemma_mono(*b, p, q, r);
        },
        TyM::Tuple(xs) => {
            assert forall|i: int| 0 <= i < xs.len() implies all_vars(#[trigger] xs[i], r) by {
                lemma_mono(xs[i], p, q, r);
            }
        },
        TyM::Function(n, sig, xs) => {
            assert forall|i: int| 0 <= i < xs.len() implies all_vars(#[trigger] xs[i], r) by {
                lemma_mono(xs[i], p, q, r);
            }
        },
        TyM::Closure(id, b) => {
            lemma_mono(*b, p, q, r);
        },
        TyM::Dyn(n, cs) => {
            assert forall|i: int| 0 <= i < cs.len() implies clause_vars(#[trigger] cs[i], r) by {
                lemma_mono_clause(cs[i], p, q, r);
            }
        },
        _ => {},
    }
}

pub proof fn lemma_mono_clause(
    c: ClauseM,
    p: spec_fn(u64) -> bool,
    q: spec_fn(u64) -> bool,
    r: spec_fn(u64) -> bool,
)
    requires
        clause_vars(c, p),
        clause_vars(c, q),
        forall|w: u64| p(w) && q(w) ==> #[trigger] r(w),
    ensures
        clause_vars(c, r),
    decreases c,
{
    match c {
        ClauseM::Implemented(id, xs) => {
            assert forall|i: int| 0 <= i < xs.len() implies all_vars(#[trigger] xs[i], r) by {
                lemma_mono(xs[i], p, q, r);
            }
        },
        ClauseM::ProjectionEq(id, xs, t) => {
            assert forall|i: int| 0 <= i < xs.len() implies all_vars(#[trigger] xs[i], r) by {
                lemma_mono(xs[i], p, q, r);
            }
            lemma_mono(t, p, q, r);
        },
        ClauseM::OpaqueEq(id, t) => {
            lemma_mono(t, p, q, r);
        },
        ClauseM::Outlives(t) => {
            lemma_mono(t, p, q, r);
        },
    }
}

pub proof fn lemma_vars(t: TyM, f: Sub, p: spec_fn(u64) -> bool, q: spec_fn(u64) -> bool)
    requires
        maps_vars(f, p, q),
        all_vars(t, p),
    ensures
        all_vars(sub_ty(t, f), q),
    decreases t,
{
    match t {
        TyM::Adt(id, xs) => {
            assert forall|i: int| 0 <= i < xs.len() implies all_vars(#[trigger] sub_ty(t, f)->Adt_1[i], q) by {
                lemma_vars(xs[i], f, p, q);
            }
        },
        TyM::Ref(m, b) => {
            lemma_vars(*b, f, p, q);
        },
        TyM::Tuple(xs) => {
            assert forall|i: int| 0 <= i < xs.len() implies all_vars(#[trigger] sub_ty(t, f)->Tuple_0[i], q) by {
                lemma_vars(xs[i], f, p, q);
            }
        },
        TyM::Function(n, sig, xs) => {
            assert forall|i: int| 0 <= i < xs.len() implies all_vars(#[trigger] sub_ty(t, f)->Function_2[i], q) by {
                lemma_vars(xs[i], f, p, q);
            }
        },
        TyM::Closure(id, b) => {
            lemma_vars(*b, f, p, q);
        },
        TyM::Dyn(n, cs) => {
            if f is Receiver {
                assert forall|w: u64| p(w) && p(w) implies #[trigger] q(w) by {
                    assert(all_vars(sub_leaf(TyM::Var(w), f), q));
                }
                lemma_mono(t, p, p, q);
            } else {
                assert forall|i: int| 0 <= i < cs.len() implies clause_vars(#[trigger] sub_ty(t, f)->Dyn_1[i], q) by {
                    lemma_vars_clause(cs[i], f, p, q);
                }
            }
        },
        TyM::Var(w) => {
            assert(all_vars(sub_leaf(TyM::Var(w), f), q));
        },
        _ => {},
    }
}

pub proof fn lemma_vars_clause(c: ClauseM, f: Sub, p: spec_fn(u64) -> bool, q: spec_fn(u64) -> bool)
    requires
        maps_vars(f, p, q),
        clause_vars(c, p),
    ensures
        clause_vars(sub_clause(c, f), q),
    decreases c,
{
    match c {
        ClauseM::Implemented(id, xs) => {
            assert forall|i: int| 0 <= i < xs.len() implies all_vars(#[trigger] sub_clause(c, f)->Implemented_1[i], q) by {
                lemma_vars(xs[i], f, p, q);
            }
        },
        ClauseM::ProjectionEq(id, xs, t) => {
            assert forall|i: int| 0 <= i < xs.len() implies all_vars(#[trigger] sub_clause(c, f)->ProjectionEq_1[i], q) by {
                lemma_vars(xs[i], f, p, q);
            }
            lemma_vars(t, f, p, q);
        },
        ClauseM::OpaqueEq(id, t) => {
            lemma_vars(t, f, p, q);
        },
        ClauseM::Outlives(t) => {
            lemma_vars(t, f, p, q);
        },
    }
}

/// No solution holds a stray receiver.
pub open spec fn bindings_receiver_free(b: Seq<Option<TyM>>) -> bool {
    forall|i: int| 0 <= i < b.len() && (#[trigger] b[i]) is Some ==> receiver_free(b[i]->0)
}

/// What `f` puts in place of a variable or the receiver holds no stray
/// receiver.
pub open spec fn sub_receiver_free(f: Sub) -> bool {
    match f {
        Sub::Keep => true,
        Sub::Var(_, s) => receiver_free(s),
        Sub::Receiver(s) => receiver_free(s),
        Sub::Table(b) => bindings_receiver_free(b),
    }
}

pub proof fn lemma_sub_receiver_free(t: TyM, f: Sub)
    requires
        receiver_free(t),
        sub_receiver_free(f),
    ensures
        receiver_free(sub_ty(t, f)),
    decreases t,
{
    match t {
        TyM::Adt(id, xs) => {
            assert forall|i: int| 0 <= i < xs.len() implies receiver_free(#[trigger] sub_ty(t, f)->Adt_1[i]) by {
                lemma_sub_receiver_free(xs[i], f);
            }
        },
        TyM::Ref(m, b) => {
            lemma_sub_receiver_free(*b, f);
        },
        TyM::Tuple(xs) => {
            assert forall|i: int| 0 <= i < xs.len() implies receiver_free(#[trigger] sub_ty(t, f)->Tuple_0[i]) by {
                lemma_sub_receiver_free(xs[i], f);
            }
        },
        TyM::Function(n, sig, xs) => {
            assert forall|i: int| 0 <= i < xs.len() implies receiver_free(#[trigger] sub_ty(t, f)->Function_2[i]) by {
                lemma_sub_receiver_free(xs[i], f);
            }
        },
        TyM::Closure(id, b) => {
            lemma_sub_receiver_free(*b, f);
        },
        TyM::Var(w) => {
            match f {
                Sub::Table(b) => {
                    if w < b.len() && b[w as int] is Some {
                        assert(receiver_free(b[w as int]->0));
                    }
                },
                _ => {},
            }
        },
        _ => {},
    }
}

/// Resolving and erasing the receiver commute when no solution holds a
/// stray receiver.
pub proof fn lemma_erase_apply_commute(b: Seq<Option<TyM>>, t: TyM)
    requires
        bindings_receiver_free(b),
    ensures
        sub_ty(apply(b, t), Sub::Receiver(TyM::Error)) == apply(b, sub_ty(t, Sub::Receiver(TyM::Error))),
    decreases t,
{
    let e = Sub::Receiver(TyM::Error);
    let f = Sub::Table(b);
    match t {
        TyM::Adt(id, xs) => {
            assert forall|i: int| 0 <= i < xs.len() implies sub_ty(sub_ty(xs[i], f), e) == sub_ty(sub_ty(xs[i], e), f) by {
                lemma_erase_apply_commute(b, xs[i]);
            }
            assert(sub_ty(sub_ty(t, f), e)->Adt_1 =~= sub_ty(sub_ty(t, e), f)->Adt_1);
        },
        TyM::Ref(m, x) => {
            lemma_erase_apply_commute(b, *x);
        },
        TyM::Tuple(xs) => {
            assert forall|i: int| 0 <= i < xs.len() implies sub_ty(sub_ty(xs[i], f), e) == sub_ty(sub_ty(xs[i], e), f) by {
                lemma_erase_apply_commute(b, xs[i]);
            }
            assert(sub_ty(sub_ty(t, f), e)->Tuple_0 =~= sub_ty(sub_ty(t, e), f)->Tuple_0);
        },
        TyM::Function(n, sig, xs) => {
            assert forall|i: int| 0 <= i < xs.len() implies sub_ty(sub_ty(xs[i], f), e) == sub_ty(sub_ty(xs[i], e), f) by {
                lemma_erase_apply_commute(b, xs[i]);
            }
            assert(sub_ty(sub_ty(t, f), e)->Function_2 =~= sub_ty(sub_ty(t, e), f)->Function_2);
        },
        TyM::Closure(id, x) => {
            lemma_erase_apply_commute(b, *x);
        },
        TyM::Var(w) => {
            if w < b.len() && b[w as int] is Some {
                lemma_receiver_free_erase(b[w as int]->0, TyM::Error);
            }
        },
        _ => {},
    }
}

pub proof fn lemma_erase_apply_commute_clause(b: Seq<Option<TyM>>, c: ClauseM)
    requires
        bindings_receiver_free(b),
    ensures
        sub_clause(sub_clause(c, Sub::Table(b)), Sub::Receiver(TyM::Error)) == sub_clause(
            sub_clause(c, Sub::Receiver(TyM::Error)),
            Sub::Table(b),
        ),
{
    let e = Sub::Receiver(TyM::Error);
    let f = Sub::Table(b);
    match c {
        ClauseM::Implemented(id, xs) => {
            assert forall|i: int| 0 <= i < xs.len() implies sub_ty(sub_ty(xs[i], f), e) == sub_ty(sub_ty(xs[i], e), f) by {
                lemma_erase_apply_commute(b, xs[i]);
            }
            assert(sub_clause(sub_clause(c, f), e)->Implemented_1 =~= sub_clause(sub_clause(c, e), f)->Implemented_1);
        },
        ClauseM::ProjectionEq(id, xs, t) => {
            assert forall|i: int| 0 <= i < xs.len() implies sub_ty(sub_ty(xs[i], f), e) == sub_ty(sub_ty(xs[i], e), f) by {
                lemma_erase_apply_commute(b, xs[i]);
            }
            assert(sub_clause(sub_clause(c, f), e)->ProjectionEq_1 =~= sub_clause(sub_clause(c, e), f)->ProjectionEq_1);
            lemma_erase_apply_commute(b, t);
        },
        ClauseM::OpaqueEq(id, t) => {
            lemma_erase_apply_commute(b, t);
        },
        ClauseM::Outlives(t) => {
            lemma_erase_apply_commute(b, t);
        },
    }
}

// ---------------------------------------------------------------------------
// Lemmas over tables
// ---------------------------------------------------------------------------

/// A fully resolved term is left as it is.
pub proof fn lemma_apply_closed(b: Seq<Option<TyM>>, t: TyM)
    requires
        closed(b, t),
    ensures
        apply(b, t) == t,
{
    lemma_fixes(t, Sub::Table(b), unbound_in(b));
}

/// Resolving gives a fully resolved term.
pub proof fn lemma_apply_resolves(b: Seq<Option<TyM>>, t: TyM)
    requires
        wf_bindings(b),
        scoped(b.len(), t),
    ensures
        closed(b, apply(b, t)),
{
    assert forall|w: u64| #[trigger] below(b.len())(w) implies all_vars(
        sub_leaf(TyM::Var(w), Sub::Table(b)),
        unbound_in(b),
    ) by {
        if b[w as int] is None {
            assert(unbound_in(b)(w));
        }
    }
    lemma_vars(t, Sub::Table(b), below(b.len()), unbound_in(b));
}

/// Resolving under the extended table is resolving under the old one and
/// then replacing the newly solved variable.
pub proof fn lemma_bind_apply(b: Seq<Option<TyM>>, v: u64, s: TyM, t: TyM)
    requires
        unbound(b, v),
    ensures
        apply(bind_spec(b, v, s), t) == sub_ty(apply(b, t), Sub::Var(v, s)),
{
    let b2 = bind_spec(b, v, s);
    assert forall|w: u64| #[trigger] sub_leaf(TyM::Var(w), Sub::Table(b2)) == sub_ty(
        sub_leaf(TyM::Var(w), Sub::Table(b)),
        Sub::Var(v, s),
    ) by {
        if w < b.len() && b[w as int] is Some {
            assert(b2[w as int] == Some(sub_ty(b[w as int]->0, Sub::Var(v, s))));
        }
    }
    lemma_compose(t, Sub::Table(b), Sub::Var(v, s), Sub::Table(b2));
}

pub proof fn lemma_bind_keeps(b: Seq<Option<TyM>>, v: u64, s: TyM)
    requires
        unbound(b, v),
    ensures
        keeps(b, bind_spec(b, v, s)),
        solved_stay(b, bind_spec(b, v, s)),
{
    let b2 = bind_spec(b, v, s);
    assert forall|x: TyM, y: TyM| apply(b, x) == apply(b, y) implies #[trigger] apply(b2, x) == #[trigger] apply(
        b2,
        y,
    ) by {
        lemma_bind_apply(b, v, s, x);
        lemma_bind_apply(b, v, s, y);
    }
}

pub proof fn lemma_bind_wf(b: Seq<Option<TyM>>, v: u64, s: TyM)
    requires
        wf_bindings(b),
        unbound(b, v),
        closed(b, s),
        !occurs_in(s, v),
    ensures
        wf_bindings(bind_spec(b, v, s)),
{
    let b2 = bind_spec(b, v, s);
    assert forall|w: u64| unbound(b, w) && other_than(v)(w) implies #[trigger] unbound_in(b2)(w) by {}
    assert(forall|w: u64| unbound_in(b)(w) && other_than(v)(w) ==> #[trigger] unbound_in(b2)(w));
    lemma_mono(s, unbound_in(b), other_than(v), unbound_in(b2));
    assert forall|w: u64| #[trigger] unbound_in(b)(w) implies all_vars(
        sub_leaf(TyM::Var(w), Sub::Var(v, s)),
        unbound_in(b2),
    ) by {
        if w != v {
            assert(unbound_in(b2)(w));
        }
    }
    assert forall|i: int| 0 <= i < b2.len() && (#[trigger] b2[i]) is Some implies closed(b2, b2[i]->0) by {
        if i != v {
            lemma_vars(b[i]->0, Sub::Var(v, s), unbound_in(b), unbound_in(b2));
        }
    }
}

pub proof fn lemma_count_same(b1: Seq<Option<TyM>>, b2: Seq<Option<TyM>>)
    requires
        b1.len() == b2.len(),
        forall|i: int| 0 <= i < b1.len() ==> ((#[trigger] b1[i]) is None <==> b2[i] is None),
    ensures
        count_unbound(b1) == count_unbound(b2),
    decreases b1.len(),
{
    if b1.len() > 0 {
        lemma_count_same(b1.drop_last(), b2.drop_last());
    }
}

pub proof fn lemma_count_bind(b1: Seq<Option<TyM>>, b2: Seq<Option<TyM>>, v: int)
    requires
        b1.len() == b2.len(),
        0 <= v < b1.len(),
        b1[v] is None,
        b2[v] is Some,
        forall|i: int| 0 <= i < b1.len() && i != v ==> ((#[trigger] b1[i]) is None <==> b2[i] is None),
    ensures
        count_unbound(b2) + 1 == count_unbound(b1),
    decreases b1.len(),
{
    if v == b1.len() - 1 {
        lemma_count_same(b1.drop_last(), b2.drop_last());
    } else {
        lemma_count_bind(b1.drop_last(), b2.drop_last(), v);
    }
}

// ---------------------------------------------------------------------------
// Lemmas for most general unifiers
// ---------------------------------------------------------------------------

/// `b2` keeps every equation of `b`, and no solution of `b2` holds a stray
/// receiver.
pub open spec fn extends(b: Seq<Option<TyM>>, b2: Seq<Option<TyM>>) -> bool {
    keeps(b, b2) && bindings_receiver_free(b2)
}

/// Some well-formed table that keeps every equation and every solution of
/// `b` makes `x` and `y` equal.
pub open spec fn unifiable(b: Seq<Option<TyM>>, x: TyM, y: TyM) -> bool {
    exists|b2: Seq<Option<TyM>>|
        wf_bindings(b2) && bindings_receiver_free(b2) && keeps(b, b2) && solved_stay(b, b2)
            && #[trigger] apply(b2, x) == apply(b2, y)
}

/// Resolving twice is resolving once.
pub proof fn lemma_apply_idem(b: Seq<Option<TyM>>, t: TyM)
    requires
        wf_bindings(b),
    ensures
        apply(b, apply(b, t)) == apply(b, t),
    decreases t,
{
    let f = Sub::Table(b);
    match t {
        TyM::Adt(id, xs) => {
            assert forall|i: int| 0 <= i < xs.len() implies sub_ty(sub_ty(xs[i], f), f) == sub_ty(xs[i], f) by {
                lemma_apply_idem(b, xs[i]);
            }
            assert(sub_ty(sub_ty(t, f), f)->Adt_1 =~= sub_ty(t, f)->Adt_1);
        },
        TyM::Ref(m, x) => {
            lemma_apply_idem(b, *x);
        },
        TyM::Tuple(xs) => {
            assert forall|i: int| 0 <= i < xs.len() implies sub_ty(sub_ty(xs[i], f), f) == sub_ty(xs[i], f) by {
                lemma_apply_idem(b, xs[i]);
            }
            assert(sub_ty(sub_ty(t, f), f)->Tuple_0 =~= sub_ty(t, f)->Tuple_0);
        },
        TyM::Function(n, sig, xs) => {
            assert forall|i: int| 0 <= i < xs.len() implies sub_ty(sub_ty(xs[i], f), f) == sub_ty(xs[i], f) by {
                lemma_apply_idem(b, xs[i]);
            }
            assert(sub_ty(sub_ty(t, f), f)->Function_2 =~= sub_ty(t, f)->Function_2);
        },
        TyM::Closure(id, x) => {
            lemma_apply_idem(b, *x);
        },
        TyM::Dyn(n, cs) => {
            assert forall|i: int| 0 <= i < cs.len() implies sub_clause(sub_clause(cs[i], f), f) == sub_clause(cs[i], f) by {
                lemma_apply_idem_clause(b, cs[i]);
            }
            assert(sub_ty(sub_ty(t, f), f)->Dyn_1 =~= sub_ty(t, f)->Dyn_1);
        },
        TyM::Var(w) => {
            if w < b.len() && b[w as int] is Some {
                lemma_apply_closed(b, b[w as int]->0);
            }
        },
        _ => {},
    }
}

pub proof fn lemma_apply_idem_clause(b: Seq<Option<TyM>>, c: ClauseM)
    requires
        wf_bindings(b),
    ensures
        sub_clause(sub_clause(c, Sub::Table(b)), Sub::Table(b)) == sub_clause(c, Sub::Table(b)),
    decreases c,
{
    let f = Sub::Table(b);
    match c {
        ClauseM::Implemented(id, xs) => {
            assert forall|i: int| 0 <= i < xs.len() implies sub_ty(sub_ty(xs[i], f), f) == sub_ty(xs[i], f) by {
                lemma_apply_idem(b, xs[i]);
            }
            assert(sub_clause(sub_clause(c, f), f)->Implemented_1 =~= sub_clause(c, f)->Implemented_1);
        },
        ClauseM::ProjectionEq(id, xs, t) => {
            assert forall|i: int| 0 <= i < xs.len() implies sub_ty(sub_ty(xs[i], f), f) == sub_ty(xs[i], f) by {
                lemma_apply_idem(b, xs[i]);
            }
            assert(sub_clause(sub_clause(c, f), f)->ProjectionEq_1 =~= sub_clause(c, f)->ProjectionEq_1);
            lemma_apply_idem(b, t);
        },
        ClauseM::OpaqueEq(id, t) => {
            lemma_apply_idem(b, t);
        },
        ClauseM::Outlives(t) => {
            lemma_apply_idem(b, t);
        },
    }
}

/// Where `b2` equates `v` and `s`, replacing `v` by `s` is invisible to it.
pub proof fn lemma_replace_invisible(b2: Seq<Option<TyM>>, v: u64, s: TyM, t: TyM)
    requires
        apply(b2, TyM::Var(v)) == apply(b2, s),
    ensures
        apply(b2, sub_ty(t, Sub::Var(v, s))) == apply(b2, t),
    decreases t,
{
    let f = Sub::Var(v, s);
    let g = Sub::Table(b2);
    match t {
        TyM::Adt(id, xs) => {
            assert forall|i: int| 0 <= i < xs.len() implies sub_ty(sub_ty(xs[i], f), g) == sub_ty(xs[i], g) by {
                lemma_replace_invisible(b2, v, s, xs[i]);
            }
            assert(sub_ty(sub_ty(t, f), g)->Adt_1 =~= sub_ty(t, g)->Adt_1);
        },
        TyM::Ref(m, x) => {
            lemma_replace_invisible(b2, v, s, *x);
        },
        TyM::Tuple(xs) => {
            assert forall|i: int| 0 <= i < xs.len() implies sub_ty(sub_ty(xs[i], f), g) == sub_ty(xs[i], g) by {
                lemma_replace_invisible(b2, v, s, xs[i]);
            }
            assert(sub_ty(sub_ty(t, f), g)->Tuple_0 =~= sub_ty(t, g)->Tuple_0);
        },
        TyM::Function(n, sig, xs) => {
            assert forall|i: int| 0 <= i < xs.len() implies sub_ty(sub_ty(xs[i], f), g) == sub_ty(xs[i], g) by {
                lemma_replace_invisible(b2, v, s, xs[i]);
            }
            assert(sub_ty(sub_ty(t, f), g)->Function_2 =~= sub_ty(t, g)->Function_2);
        },
        TyM::Closure(id, x) => {
            lemma_replace_invisible(b2, v, s, *x);
        },
        TyM::Dyn(n, cs) => {
            assert forall|i: int| 0 <= i < cs.len() implies sub_clause(sub_clause(cs[i], f), g) == sub_clause(cs[i], g) by {
                lemma_replace_invisible_clause(b2, v, s, cs[i]);
            }
            assert(sub_ty(sub_ty(t, f), g)->Dyn_1 =~= sub_ty(t, g)->Dyn_1);
        },
        _ => {},
    }
}

pub proof fn lemma_replace_invisible_clause(b2: Seq<Option<TyM>>, v: u64, s: TyM, c: ClauseM)
    requires
        apply(b2, TyM::Var(v)) == apply(b2, s),
    ensures
        sub_clause(sub_clause(c, Sub::Var(v, s)), Sub::Table(b2)) == sub_clause(c, Sub::Table(b2)),
    decreases c,
{
    let f = Sub::Var(v, s);
    let g = Sub::Table(b2);
    match c {
        ClauseM::Implemented(id, xs) => {
            assert forall|i: int| 0 <= i < xs.len() implies sub_ty(sub_ty(xs[i], f), g) == sub_ty(xs[i], g) by {
                lemma_replace_invisible(b2, v, s, xs[i]);
            }
            assert(sub_clause(sub_clause(c, f), g)->Implemented_1 =~= sub_clause(c, g)->Implemented_1);
        },
        ClauseM::ProjectionEq(id, xs, t) => {
            assert forall|i: int| 0 <= i < xs.len() implies sub_ty(sub_ty(xs[i], f), g) == sub_ty(xs[i], g) by {
                lemma_replace_invisible(b2, v, s, xs[i]);
            }
            assert(sub_clause(sub_clause(c, f), g)->ProjectionEq_1 =~= sub_clause(c, g)->ProjectionEq_1);
            lemma_replace_invisible(b2, v, s, t);
        },
        ClauseM::OpaqueEq(id, t) => {
            lemma_replace_invisible(b2, v, s, t);
        },
        ClauseM::Outlives(t) => {
            lemma_replace_invisible(b2, v, s, t);
        },
    }
}

/// A table that keeps `b`'s equations and equates `v` with `s` keeps those
/// of `b` with `v` solved as `s`: the binding is most general.
pub proof fn lemma_keeps_bind(b: Seq<Option<TyM>>, v: u64, s: TyM, b2: Seq<Option<TyM>>)
    requires
        wf_bindings(b),
        unbound(b, v),
        keeps(b, b2),
        apply(b2, TyM::Var(v)) == apply(b2, s),
    ensures
        keeps(bind_spec(b, v, s), b2),
{
    let b1 = bind_spec(b, v, s);
    assert forall|x: TyM| #[trigger] apply(b2, apply(b1, x)) == apply(b2, x) by {
        lemma_bind_apply(b, v, s, x);
        lemma_replace_invisible(b2, v, s, apply(b, x));
        lemma_apply_idem(b, x);
        assert(apply(b, apply(b, x)) == apply(b, x));
        assert(apply(b2, apply(b, x)) == apply(b2, x));
    }
    assert forall|x: TyM, y: TyM| apply(b1, x) == apply(b1, y) implies #[trigger] apply(b2, x) == #[trigger] apply(
        b2,
        y,
    ) by {
        assert(apply(b2, apply(b1, x)) == apply(b2, x));
        assert(apply(b2, apply(b1, y)) == apply(b2, y));
    }
}

/// A variable that occurs strictly inside `t` stands, after any
/// substitution, strictly inside `t`'s image.
pub proof fn lemma_occurs_grows(t: TyM, v: u64, f: Sub)
    requires
        occurs_in(t, v),
        !(t is Var),
        !(f is Receiver),
    ensures
        decreases_to!(sub_ty(t, f) => sub_leaf(TyM::Var(v), f)),
    decreases t,
{
    let p = other_than(v);
    match t {
        TyM::Adt(id, xs) => {
            let i = choose|i: int| 0 <= i < xs.len() && !all_vars(#[trigger] xs[i], p);
            let st = sub_ty(t, f);
            assert(st->Adt_1[i] == sub_ty(xs[i], f));
            assert(decreases_to!(st => st->Adt_1));
            assert(decreases_to!(st->Adt_1 => st->Adt_1[i]));
            if !(xs[i] is Var) {
                lemma_occurs_grows(xs[i], v, f);
            }
        },
        TyM::Tuple(xs) => {
            let i = choose|i: int| 0 <= i < xs.len() && !all_vars(#[trigger] xs[i], p);
            let st = sub_ty(t, f);
            assert(st->Tuple_0[i] == sub_ty(xs[i], f));
            assert(decreases_to!(st => st->Tuple_0));
            assert(decreases_to!(st->Tuple_0 => st->Tuple_0[i]));
            if !(xs[i] is Var) {
                lemma_occurs_grows(xs[i], v, f);
            }
        },
        TyM::Function(n, sig, xs) => {
            let i = choose|i: int| 0 <= i < xs.len() && !all_vars(#[trigger] xs[i], p);
            let st = sub_ty(t, f);
            assert(st->Function_2[i] == sub_ty(xs[i], f));
            assert(decreases_to!(st => st->Function_2));
            assert(decreases_to!(st->Function_2 => st->Function_2[i]));
            if !(xs[i] is Var) {
                lemma_occurs_grows(xs[i], v, f);
            }
        },
        TyM::Ref(m, x) => {
            let st = sub_ty(t, f);
            assert(decreases_to!(st => *st->Ref_1));
            if !(*x is Var) {
                lemma_occurs_grows(*x, v, f);
            }
        },
        TyM::Closure(id, x) => {
            let st = sub_ty(t, f);
            assert(decreases_to!(st => *st->Closure_1));
            if !(*x is Var) {
                lemma_occurs_grows(*x, v, f);
            }
        },
        TyM::Dyn(n, cs) => {
            let i = choose|i: int| 0 <= i < cs.len() && !clause_vars(#[trigger] cs[i], p);
            let st = sub_ty(t, f);
            assert(st->Dyn_1[i] == sub_clause(cs[i], f));
            assert(decreases_to!(st => st->Dyn_1));
            assert(decreases_to!(st->Dyn_1 => st->Dyn_1[i]));
            lemma_occurs_grows_clause(cs[i], v, f);
        },
        _ => {},
    }
}

pub proof fn lemma_occurs_grows_clause(c: ClauseM, v: u64, f: Sub)
    requires
        !clause_vars(c, other_than(v)),
        !(f is Receiver),
    ensures
        decreases_to!(sub_clause(c, f) => sub_leaf(TyM::Var(v), f)),
    decreases c,
{
    let p = other_than(v);
    let sc = sub_clause(c, f);
    match c {
        ClauseM::Implemented(id, xs) => {
            let i = choose|i: int| 0 <= i < xs.len() && !all_vars(#[trigger] xs[i], p);
            assert(sc->Implemented_1[i] == sub_ty(xs[i], f));
            assert(decreases_to!(sc => sc->Implemented_1));
            assert(decreases_to!(sc->Implemented_1 => sc->Implemented_1[i]));
            if !(xs[i] is Var) {
                lemma_occurs_grows(xs[i], v, f);
            }
        },
        ClauseM::ProjectionEq(id, xs, t) => {
            if exists|i: int| 0 <= i < xs.len() && !all_vars(#[trigger] xs[i], p) {
                let i = choose|i: int| 0 <= i < xs.len() && !all_vars(#[trigger] xs[i], p);
                assert(sc->ProjectionEq_1[i] == sub_ty(xs[i], f));
                assert(decreases_to!(sc => sc->ProjectionEq_1));
                assert(decreases_to!(sc->ProjectionEq_1 => sc->ProjectionEq_1[i]));
                if !(xs[i] is Var) {
                    lemma_occurs_grows(xs[i], v, f);
                }
            } else {
                assert(decreases_to!(sc => sc->ProjectionEq_2));
                if !(t is Var) {
                    lemma_occurs_grows(t, v, f);
                }
            }
        },
        ClauseM::OpaqueEq(id, t) => {
            assert(decreases_to!(sc => sc->OpaqueEq_1));
            if !(t is Var) {
                lemma_occurs_grows(t, v, f);
            }
        },
        ClauseM::Outlives(t) => {
            assert(decreases_to!(sc => sc->Outlives_0));
            if !(t is Var) {
                lemma_occurs_grows(t, v, f);
            }
        },
    }
}

/// No table makes a variable equal to a term in which it occurs strictly.
pub proof fn lemma_occurs_not_unifier(b2: Seq<Option<TyM>>, v: u64, t: TyM)
    requires
        occurs_in(t, v),
        !(t is Var),
    ensures
        apply(b2, TyM::Var(v)) != apply(b2, t),
{
    lemma_occurs_grows(t, v, Sub::Table(b2));
}

/// The component types of a where-clause, in order.
pub open spec fn kids(c: ClauseM) -> Seq<TyM> {
    match c {
        ClauseM::Implemented(_, xs) => xs,
        ClauseM::ProjectionEq(_, xs, t) => xs.push(t),
        ClauseM::OpaqueEq(_, t) => seq![t],
        ClauseM::Outlives(t) => seq![t],
    }
}

/// Two clauses of one kind, over the same item, with as many components.
pub open spec fn same_shape(c: ClauseM, d: ClauseM) -> bool {
    match (c, d) {
        (ClauseM::Implemented(i, xs), ClauseM::Implemented(j, ys)) => i == j && xs.len() == ys.len(),
        (ClauseM::ProjectionEq(i, xs, _), ClauseM::ProjectionEq(j, ys, _)) => i == j && xs.len() == ys.len(),
        (ClauseM::OpaqueEq(i, _), ClauseM::OpaqueEq(j, _)) => i == j,
        (ClauseM::Outlives(_), ClauseM::Outlives(_)) => true,
        _ => false,
    }
}

pub open spec fn kids_agree(b: Seq<Option<TyM>>, c: ClauseM, d: ClauseM) -> bool {
    kids(c).len() == kids(d).len() && forall|j: int|
        0 <= j < kids(c).len() ==> apply(b, #[trigger] kids(c)[j]) == apply(b, kids(d)[j])
}

/// Resolved clauses are equal exactly when they have one shape and their
/// components resolve equally.
pub proof fn lemma_clause_eq(b: Seq<Option<TyM>>, c: ClauseM, d: ClauseM)
    ensures
        sub_clause(c, Sub::Table(b)) == sub_clause(d, Sub::Table(b)) <==> (same_shape(c, d) && kids_agree(b, c, d)),
{
    let f = Sub::Table(b);
    let sc = sub_clause(c, f);
    let sd = sub_clause(d, f);
    match (c, d) {
        (ClauseM::Implemented(i, xs), ClauseM::Implemented(j, ys)) => {
            if same_shape(c, d) && kids_agree(b, c, d) {
                assert forall|k: int| 0 <= k < xs.len() implies sc->Implemented_1[k] == sd->Implemented_1[k] by {
                    assert(kids(c)[k] == xs[k]);
                    assert(kids(d)[k] == ys[k]);
                }
                assert(sc->Implemented_1 =~= sd->Implemented_1);
            }
            if sc == sd {
                assert(sc->Implemented_1.len() == xs.len());
                assert(sd->Implemented_1.len() == ys.len());
                assert forall|k: int| 0 <= k < kids(c).len() implies apply(b, #[trigger] kids(c)[k]) == apply(b, kids(d)[k]) by {
                    assert(sc->Implemented_1[k] == sub_ty(xs[k], f));
                    assert(sd->Implemented_1[k] == sub_ty(ys[k], f));
                }
            }
        },
        (ClauseM::ProjectionEq(i, xs, t), ClauseM::ProjectionEq(j, ys, u)) => {
            if same_shape(c, d) && kids_agree(b, c, d) {
                assert forall|k: int| 0 <= k < xs.len() implies sc->ProjectionEq_1[k] == sd->ProjectionEq_1[k] by {
                    assert(kids(c)[k] == xs[k]);
                    assert(kids(d)[k] == ys[k]);
                }
                assert(sc->ProjectionEq_1 =~= sd->ProjectionEq_1);
                assert(kids(c)[xs.len() as int] == t);
                assert(kids(d)[xs.len() as int] == u);
            }
            if sc == sd {
                assert(sc->ProjectionEq_1.len() == xs.len());
                assert(sd->ProjectionEq_1.len() == ys.len());
                assert forall|k: int| 0 <= k < kids(c).len() implies apply(b, #[trigger] kids(c)[k]) == apply(b, kids(d)[k]) by {
                    if k < xs.len() {
                        assert(sc->ProjectionEq_1[k] == sub_ty(xs[k], f));
                        assert(sd->ProjectionEq_1[k] == sub_ty(ys[k], f));
                        assert(kids(c)[k] == xs[k]);
                        assert(kids(d)[k] == ys[k]);
                    } else {
                        assert(kids(c)[k] == t);
                        assert(kids(d)[k] == u);
                    }
                }
            }
        },
        (ClauseM::OpaqueEq(i, t), ClauseM::OpaqueEq(j, u)) => {
            if sc == sd {
                assert forall|k: int| 0 <= k < kids(c).len() implies apply(b, #[trigger] kids(c)[k]) == apply(b, kids(d)[k]) by {}
            }
            if same_shape(c, d) && kids_agree(b, c, d) {
                assert(apply(b, kids(c)[0]) == apply(b, kids(d)[0]));
            }
        },
        (ClauseM::Outlives(t), ClauseM::Outlives(u)) => {
            if sc == sd {
                assert forall|k: int| 0 <= k < kids(c).len() implies apply(b, #[trigger] kids(c)[k]) == apply(b, kids(d)[k]) by {}
            }
            if same_shape(c, d) && kids_agree(b, c, d) {
                assert(apply(b, kids(c)[0]) == apply(b, kids(d)[0]));
            }
        },
        _ => {},
    }
}

/// Each component of a clause lies strictly inside it.
pub proof fn lemma_kids_below(c: ClauseM)
    ensures
        forall|j: int| 0 <= j < kids(c).len() ==> decreases_to!(c => #[trigger] kids(c)[j]),
{
    match c {
        ClauseM::Implemented(i, xs) => {
            assert forall|j: int| 0 <= j < kids(c).len() implies decreases_to!(c => #[trigger] kids(c)[j]) by {
                assert(decreases_to!(c => c->Implemented_1));
                assert(decreases_to!(c->Implemented_1 => c->Implemented_1[j]));
            }
        },
        ClauseM::ProjectionEq(i, xs, t) => {
            assert forall|j: int| 0 <= j < kids(c).len() implies decreases_to!(c => #[trigger] kids(c)[j]) by {
                if j < xs.len() {
                    assert(kids(c)[j] == xs[j]);
                    assert(decreases_to!(c => c->ProjectionEq_1));
                    assert(decreases_to!(c->ProjectionEq_1 => c->ProjectionEq_1[j]));
                } else {
                    assert(kids(c)[j] == t);
                    assert(decreases_to!(c => c->ProjectionEq_2));
                }
            }
        },
        ClauseM::OpaqueEq(i, t) => {
            assert forall|j: int| 0 <= j < kids(c).len() implies decreases_to!(c => #[trigger] kids(c)[j]) by {
                assert(decreases_to!(c => c->OpaqueEq_1));
            }
        },
        ClauseM::Outlives(t) => {
            assert forall|j: int| 0 <= j < kids(c).len() implies decreases_to!(c => #[trigger] kids(c)[j]) by {
                assert(decreases_to!(c => c->Outlives_0));
            }
        },
    }
}

/// Under receiver-free solutions, a stray receiver survives resolution.
pub proof fn lemma_receiver_survives(b2: Seq<Option<TyM>>, t: TyM)
    requires
        bindings_receiver_free(b2),
        !receiver_free(t),
    ensures
        !receiver_free(apply(b2, t)),
    decreases t,
{
    let f = Sub::Table(b2);
    match t {
        TyM::Adt(id, xs) => {
            let i = choose|i: int| 0 <= i < xs.len() && !receiver_free(#[trigger] xs[i]);
            lemma_receiver_survives(b2, xs[i]);
            assert(sub_ty(t, f)->Adt_1[i] == sub_ty(xs[i], f));
        },
        TyM::Tuple(xs) => {
            let i = choose|i: int| 0 <= i < xs.len() && !receiver_free(#[trigger] xs[i]);
            lemma_receiver_survives(b2, xs[i]);
            assert(sub_ty(t, f)->Tuple_0[i] == sub_ty(xs[i], f));
        },
        TyM::Function(n, sig, xs) => {
            let i = choose|i: int| 0 <= i < xs.len() && !receiver_free(#[trigger] xs[i]);
            lemma_receiver_survives(b2, xs[i]);
            assert(sub_ty(t, f)->Function_2[i] == sub_ty(xs[i], f));
        },
        TyM::Ref(m, x) => {
            lemma_receiver_survives(b2, *x);
        },
        TyM::Closure(id, x) => {
            lemma_receiver_survives(b2, *x);
        },
        _ => {},
    }
}

pub open spec fn pairwise_eq(b: Seq<Option<TyM>>, xs: Seq<Ty>, ys: Seq<Ty>) -> bool {
    xs.len() == ys.len() && forall|k: int| 0 <= k < xs.len() ==> apply(b, (#[trigger] xs[k])@) == apply(b, ys[k]@)
}

/// The components of a clause whose variables satisfy `p` satisfy it too.
pub proof fn lemma_kids_vars(c: ClauseM, p: spec_fn(u64) -> bool)
    requires
        clause_vars(c, p),
    ensures
        forall|j: int| 0 <= j < kids(c).len() ==> all_vars(#[trigger] kids(c)[j], p),
{
    match c {
        ClauseM::ProjectionEq(i, xs, t) => {
            assert forall|j: int| 0 <= j < kids(c).len() implies all_vars(#[trigger] kids(c)[j], p) by {
                if j < xs.len() {
                    assert(kids(c)[j] == xs[j]);
                }
            }
        },
        _ => {},
    }
}

/// Elements of a resolved sequence are resolved and scoped.
pub proof fn lemma_closed_scoped_all(b: Seq<Option<TyM>>, xs: Seq<Ty>, ms: Seq<TyM>)
    requires
        xs.len() == ms.len(),
        forall|k: int| 0 <= k < xs.len() ==> (#[trigger] xs[k])@ == ms[k],
        forall|k: int| 0 <= k < ms.len() ==> all_vars(#[trigger] ms[k], unbound_in(b)),
    ensures
        forall|k: int| 0 <= k < xs.len() ==> closed(b, (#[trigger] xs[k])@),
        forall|k: int| 0 <= k < xs.len() ==> scoped(b.len(), (#[trigger] xs[k])@),
{
    assert forall|w: u64| unbound_in(b)(w) && unbound_in(b)(w) implies #[trigger] below(b.len())(w) by {}
    assert forall|k: int| 0 <= k < xs.len() implies scoped(b.len(), (#[trigger] xs[k])@) by {
        assert(all_vars(ms[k], unbound_in(b)));
        lemma_mono(xs[k]@, unbound_in(b), unbound_in(b), below(b.len()));
    }
}

/// A table that keeps `b`'s equations resolves `x` as it resolves `x`
/// resolved by `b`.
pub proof fn lemma_resolve_invisible(b: Seq<Option<TyM>>, b2: Seq<Option<TyM>>, x: TyM)
    requires
        wf_bindings(b),
        keeps(b, b2),
    ensures
        apply(b2, apply(b, x)) == apply(b2, x),
{
    lemma_apply_idem(b, x);
    assert(apply(b, apply(b, x)) == apply(b, x));
}

/// Whether two clauses have one shape.
fn same_shape_exec(c: &WhereClause, d: &WhereClause) -> (r: bool)
    ensures
        r == same_shape(c@, d@),
{
    match (c, d) {
        (
            WhereClause::Implemented { trait_id: i, substitution: xs },
            WhereClause::Implemented { trait_id: j, substitution: ys },
        ) => *i == *j && xs.len() == ys.len(),
        (WhereClause::AliasEq { alias: al, .. }, WhereClause::AliasEq { alias: bl, .. }) => match (al, bl) {
            (
                AliasTy::Projection { associated_ty_id: i, substitution: xs },
                AliasTy::Projection { associated_ty_id: j, substitution: ys },
            ) => *i == *j && xs.len() == ys.len(),
            (AliasTy::Opaque(i), AliasTy::Opaque(j)) => *i == *j,
            _ => false,
        },
        (WhereClause::TypeOutlives(_), WhereClause::TypeOutlives(_)) => true,
        _ => false,
    }
}

fn clone_tys(xs: &Vec<Ty>) -> (r: Vec<Ty>)
    ensures
        r@.len() == xs@.len(),
        forall|k: int| 0 <= k < xs@.len() ==> (#[trigger] r@[k])@ == xs@[k]@,
{
    let mut out: Vec<Ty> = Vec::new();
    let mut k: usize = 0;
    while k < xs.len()
        invariant
            k <= xs@.len(),
            out@.len() == k,
            forall|j: int| 0 <= j < k ==> (#[trigger] out@[j])@ == xs@[j]@,
        decreases xs@.len() - k,
    {
        out.push(deep_clone(&xs[k]));
        k = k + 1;
    }
    out
}

/// The component types of a clause.
fn clause_kids(c: &WhereClause) -> (r: Vec<Ty>)
    ensures
        r@.len() == kids(c@).len(),
        forall|k: int| 0 <= k < r@.len() ==> (#[trigger] r@[k])@ == kids(c@)[k],
{
    match c {
        WhereClause::Implemented { substitution, .. } => {
            let r = clone_tys(substitution);
            assert(forall|k: int| #![trigger r@[k]] 0 <= k < r@.len() ==> c@->Implemented_1[k] == substitution@[k]@);
            r
        },
        WhereClause::AliasEq { alias, ty } => match alias {
            AliasTy::Projection { substitution, .. } => {
                let mut r = clone_tys(substitution);
                r.push(deep_clone(ty));
                assert(forall|k: int| #![trigger substitution@[k]] 0 <= k < substitution@.len() ==> c@->ProjectionEq_1[k] == substitution@[k]@);
                assert forall|k: int| 0 <= k < r@.len() implies (#[trigger] r@[k])@ == kids(c@)[k] by {
                    if k < substitution@.len() {
                        assert(r@[k]@ == substitution@[k]@);
                    }
                }
                r
            },
            AliasTy::Opaque(_) => {
                let mut r: Vec<Ty> = Vec::new();
                r.push(deep_clone(ty));
                r
            },
        },
        WhereClause::TypeOutlives(ty) => {
            let mut r: Vec<Ty> = Vec::new();
            r.push(deep_clone(ty));
            r
        },
    }
}

/// Unifiability does not change when the sides are resolved first.
pub proof fn lemma_unifiable_resolved(b: Seq<Option<TyM>>, x: TyM, y: TyM)
    requires
        wf_bindings(b),
    ensures
        unifiable(b, x, y) <==> unifiable(b, apply(b, x), apply(b, y)),
{
    if unifiable(b, x, y) {
        let b2 = choose|b2: Seq<Option<TyM>>|
            wf_bindings(b2) && bindings_receiver_free(b2) && keeps(b, b2) && solved_stay(b, b2)
                && #[trigger] apply(b2, x) == apply(b2, y);
        lemma_resolve_invisible(b, b2, x);
        lemma_resolve_invisible(b, b2, y);
        assert(apply(b2, apply(b, x)) == apply(b2, apply(b, y)));
    }
    if unifiable(b, apply(b, x), apply(b, y)) {
        let b2 = choose|b2: Seq<Option<TyM>>|
            wf_bindings(b2) && bindings_receiver_free(b2) && keeps(b, b2) && solved_stay(b, b2)
                && #[trigger] apply(b2, apply(b, x)) == apply(b2, apply(b, y));
        lemma_resolve_invisible(b, b2, x);
        lemma_resolve_invisible(b, b2, y);
        assert(apply(b2, x) == apply(b2, y));
    }
}

/// When a coercion succeeds: the resolved sides are equal; a closure meets a
/// function pointer its signature unifies with; a dynamic type is expected
/// and the actual side is known; an exclusive reference meets a shared one to
/// a unifiable target; or else the sides unify.
pub open spec fn coercible(b: Seq<Option<TyM>>, actual: TyM, expected: TyM) -> bool {
    let a = apply(b, actual);
    let e = apply(b, expected);
    if a == e {
        true
    } else if a is Closure && e is Function {
        unifiable(b, *a->Closure_1, e)
    } else if e is Dyn && !(a is Var) {
        true
    } else if a is Ref && e is Ref && a->Ref_0 && !e->Ref_0 {
        unifiable(b, *a->Ref_1, *e->Ref_1)
    } else {
        unifiable(b, a, e)
    }
}

// ---------------------------------------------------------------------------
// The table
// ---------------------------------------------------------------------------

/// The two sides of a unification or coercion do not match.
#[derive(PartialEq, Eq, Structural, Clone, Copy, Debug)]
pub struct TypeMismatch;

/// The inference variables of one inference pass and their solutions.
/// A solution is always fully resolved: it mentions only unsolved variables.
#[derive(Debug)]
pub struct InferenceTable {
    bindings: Vec<Option<Ty>>,
}

impl View for InferenceTable {
    type V = Seq<Option<TyM>>;

    closed spec fn view(&self) -> Seq<Option<TyM>> {
        bindings_view(self.bindings@)
    }
}

/// Adjustments that a coercion may make: none, a closure to a function
/// pointer, unsizing to a dynamic type, an exclusive reference to a shared one.
pub open spec fn coerces(a: TyM, e: TyM) -> bool {
    ||| a == e
    ||| (a is Closure && e is Function && *a->Closure_1 == e)
    ||| (e is Dyn && !(a is Var))
    ||| (a is Ref && e is Ref && a->Ref_0 && !e->Ref_0 && a->Ref_1 == e->Ref_1)
}

impl InferenceTable {
    pub open spec fn wf(&self) -> bool {
        wf_bindings(self@) && bindings_receiver_free(self@)
    }

    /// An empty table.
    pub fn new() -> (r: InferenceTable)
        ensures
            r@ == Seq::<Option<TyM>>::empty(),
            r.wf(),
    {
        let r = InferenceTable { bindings: Vec::new() };
        assert(r@ =~= Seq::<Option<TyM>>::empty());
        r
    }

    /// Number of variables created so far.
    pub fn len(&self) -> (r: usize)
        ensures
            r == self@.len(),
    {
        self.bindings.len()
    }

    /// A new, unsolved inference variable.
    pub fn fresh_variable(&mut self) -> (r: Ty)
        requires
            old(self).wf(),
            old(self)@.len() < u64::MAX,
        ensures
            final(self).wf(),
            final(self)@ == old(self)@.push(None),
            r@ == TyM::Var(old(self)@.len() as u64),
    {
        let ghost b = self@;
        let v = self.bindings.len() as u64;
        self.bindings.push(None);
        assert(self@ =~= b.push(None));
        proof {
            let b2 = self@;
            assert(forall|w: u64| unbound_in(b)(w) && unbound_in(b)(w) ==> #[trigger] unbound_in(b2)(w));
            assert forall|i: int| 0 <= i < b2.len() && (#[trigger] b2[i]) is Some implies closed(b2, b2[i]->0) by {
                assert(b2[i] == b[i]);
                lemma_mono(b[i]->0, unbound_in(b), unbound_in(b), unbound_in(b2));
            }
            assert forall|i: int| 0 <= i < b2.len() && (#[trigger] b2[i]) is Some implies receiver_free(b2[i]->0) by {
                assert(b2[i] == b[i]);
            }
        }
        Ty::Var(v)
    }

    /// `t` with every solved variable replaced by its solution.
    pub fn resolve(&self, t: &Ty) -> (r: Ty)
        requires
            self.wf(),
            scoped(self@.len(), t@),
        ensures
            r@ == apply(self@, t@),
            closed(self@, r@),
            receiver_free(t@) ==> receiver_free(r@),
    {
        proof {
            lemma_apply_resolves(self@, t@);
            if receiver_free(t@) {
                lemma_sub_receiver_free(t@, Sub::Table(self@));
            }
        }
        substitute(t, &Subst::Table(&self.bindings))
    }

    fn snapshot(&self) -> (r: Vec<Option<Ty>>)
        ensures
            bindings_view(r@) == self@,
    {
        let mut out: Vec<Option<Ty>> = Vec::new();
        let mut i: usize = 0;
        while i < self.bindings.len()
            invariant
                i <= self.bindings@.len(),
                out@.len() == i,
                forall|j: int| 0 <= j < i ==> bindings_view(out@)[j] == #[trigger] self@[j],
            decreases self.bindings@.len() - i,
        {
            match &self.bindings[i] {
                Some(t) => out.push(Some(deep_clone(t))),
                None => out.push(None),
            }
            i = i + 1;
        }
        assert(bindings_view(out@) =~= self@);
        out
    }

    /// Solves variable `v` as `s`, and rewrites the other solutions.
    fn bind(&mut self, v: u64, s: &Ty)
        requires
            old(self).wf(),
            unbound(old(self)@, v),
            closed(old(self)@, s@),
            !occurs_in(s@, v),
            receiver_free(s@),
        ensures
            final(self)@ == bind_spec(old(self)@, v, s@),
            final(self).wf(),
    {
        let ghost b = self@;
        let mut out: Vec<Option<Ty>> = Vec::new();
        let mut i: usize = 0;
        while i < self.bindings.len()
            invariant
                self@ == b,
                i <= self.bindings@.len(),
                out@.len() == i,
                forall|j: int| 0 <= j < i ==> bindings_view(out@)[j] == #[trigger] bind_spec(b, v, s@)[j],
            decreases self.bindings@.len() - i,
        {
            if i as u64 == v {
                out.push(Some(deep_clone(s)));
            } else {
                match &self.bindings[i] {
                    Some(t) => out.push(Some(substitute(t, &Subst::Var(v, s)))),
                    None => out.push(None),
                }
            }
            i = i + 1;
        }
        self.bindings = out;
        assert(self@ =~= bind_spec(b, v, s@));
        proof {
            lemma_bind_wf(b, v, s@);
            let b2 = bind_spec(b, v, s@);
            assert forall|i: int| 0 <= i < b2.len() && (#[trigger] b2[i]) is Some implies receiver_free(b2[i]->0) by {
                if i != v {
                    lemma_sub_receiver_free(b[i]->0, Sub::Var(v, s@));
                }
            }
        }
    }

    /// Unifies two fully resolved terms. On failure the table may have
    /// moved on; `unify` puts it back. The result is most general: every
    /// table that extends the old one and makes the terms equal extends the
    /// new one.
    fn unify_resolved(&mut self, a: &Ty, b: &Ty, Ghost(budget): Ghost<nat>) -> (r: bool)
        requires
            old(self).wf(),
            budget == count_unbound(old(self)@),
            closed(old(self)@, a@),
            closed(old(self)@, b@),
        ensures
            final(self).wf(),
            keeps(old(self)@, final(self)@),
            solved_stay(old(self)@, final(self)@),
            count_unbound(final(self)@) <= count_unbound(old(self)@),
            count_unbound(final(self)@) == count_unbound(old(self)@) ==> final(self)@ == old(self)@,
            r ==> apply(final(self)@, a@) == apply(final(self)@, b@),
            a@ == b@ ==> r && final(self)@ == old(self)@,
            forall|b2: Seq<Option<TyM>>|
                #[trigger] extends(old(self)@, b2) && apply(b2, a@) == apply(b2, b@) ==> r && extends(
                    final(self)@,
                    b2,
                ),
        decreases budget, a@, 2nat,
    {
        let ghost b0 = self@;
        if ty_eq(a, b) {
            return true;
        }
        match (a, b) {
            (Ty::Var(v), _) => {
                if occurs(b, *v) {
                    proof {
                        assert forall|b2: Seq<Option<TyM>>| #[trigger] extends(b0, b2) && apply(b2, a@) == apply(b2, b@)
                            implies false by {
                            lemma_occurs_not_unifier(b2, *v, b@);
                        }
                    }
                    return false;
                }
                if !is_receiver_free(b) {
                    proof {
                        assert forall|b2: Seq<Option<TyM>>| #[trigger] extends(b0, b2) && apply(b2, a@) == apply(b2, b@)
                            implies false by {
                            lemma_receiver_survives(b2, b@);
                            if *v < b2.len() && b2[*v as int] is Some {
                                assert(receiver_free(b2[*v as int]->0));
                            }
                        }
                    }
                    return false;
                }
                self.bind_checked(*v, b);
                proof {
                    assert forall|b2: Seq<Option<TyM>>| #[trigger] extends(b0, b2) && apply(b2, a@) == apply(b2, b@)
                        implies extends(self@, b2) by {
                        lemma_keeps_bind(b0, *v, b@, b2);
                    }
                }
                true
            },
            (_, Ty::Var(v)) => {
                if occurs(a, *v) {
                    proof {
                        assert forall|b2: Seq<Option<TyM>>| #[trigger] extends(b0, b2) && apply(b2, a@) == apply(b2, b@)
                            implies false by {
                            lemma_occurs_not_unifier(b2, *v, a@);
                        }
                    }
                    return false;
                }
                if !is_receiver_free(a) {
                    proof {
                        assert forall|b2: Seq<Option<TyM>>| #[trigger] extends(b0, b2) && apply(b2, a@) == apply(b2, b@)
                            implies false by {
                            lemma_receiver_survives(b2, a@);
                            if *v < b2.len() && b2[*v as int] is Some {
                                assert(receiver_free(b2[*v as int]->0));
                            }
                        }
                    }
                    return false;
                }
                self.bind_checked(*v, a);
                proof {
                    assert forall|b2: Seq<Option<TyM>>| #[trigger] extends(b0, b2) && apply(b2, a@) == apply(b2, b@)
                        implies extends(self@, b2) by {
                        lemma_keeps_bind(b0, *v, a@, b2);
                    }
                }
                true
            },
            (Ty::Ref(m, x), Ty::Ref(n, y)) => {
                if *m != *n {
                    return false;
                }
                proof {
                    assert(decreases_to!(a@ => *a@->Ref_1));
                }
                let r = self.unify_resolved(x, y, Ghost(budget));
                proof {
                    assert forall|b2: Seq<Option<TyM>>| #[trigger] extends(b0, b2) && apply(b2, a@) == apply(b2, b@)
                        implies r && extends(self@, b2) by {
                        assert(apply(b2, x@) == apply(b2, y@));
                    }
                }
                r
            },
            (Ty::Closure(i, x), Ty::Closure(j, y)) => {
                if *i != *j {
                    return false;
                }
                proof {
                    assert(decreases_to!(a@ => *a@->Closure_1));
                }
                let r = self.unify_resolved(x, y, Ghost(budget));
                proof {
                    assert forall|b2: Seq<Option<TyM>>| #[trigger] extends(b0, b2) && apply(b2, a@) == apply(b2, b@)
                        implies r && extends(self@, b2) by {
                        assert(apply(b2, x@) == apply(b2, y@));
                    }
                }
                r
            },
            (Ty::Tuple(xs), Ty::Tuple(ys)) => {
                if xs.len() != ys.len() {
                    proof {
                        assert forall|b2: Seq<Option<TyM>>| #[trigger] extends(b0, b2) && apply(b2, a@) == apply(b2, b@)
                            implies false by {
                            assert(apply(b2, a@)->Tuple_0.len() == xs@.len());
                            assert(apply(b2, b@)->Tuple_0.len() == ys@.len());
                        }
                    }
                    return false;
                }
                proof {
                    assert forall|k: int| 0 <= k < xs@.len() implies decreases_to!(a@ => (#[trigger] xs@[k])@) by {
                        assert(decreases_to!(a@ => a@->Tuple_0));
                        assert(decreases_to!(a@->Tuple_0 => a@->Tuple_0[k]));
                    }
                    assert(forall|k: int| #![trigger xs@[k]] 0 <= k < xs@.len() ==> a@->Tuple_0[k] == xs@[k]@);
                    assert(forall|k: int| #![trigger ys@[k]] 0 <= k < ys@.len() ==> b@->Tuple_0[k] == ys@[k]@);
                    lemma_closed_scoped_all(b0, xs@, a@->Tuple_0);
                    lemma_closed_scoped_all(b0, ys@, b@->Tuple_0);
                }
                let r = self.unify_seq(xs, ys, Ghost(budget), Ghost(a@));
                proof {
                    if r {
                        assert(apply(self@, a@)->Tuple_0 =~= apply(self@, b@)->Tuple_0);
                    }
                    assert forall|b2: Seq<Option<TyM>>| #[trigger] extends(b0, b2) && apply(b2, a@) == apply(b2, b@)
                        implies r && extends(self@, b2) by {
                        assert forall|k: int| 0 <= k < xs@.len() implies apply(b2, (#[trigger] xs@[k])@) == apply(b2, ys@[k]@) by {
                            assert(apply(b2, a@)->Tuple_0[k] == apply(b2, b@)->Tuple_0[k]);
                        }
                        assert(pairwise_eq(b2, xs@, ys@));
                    }
                }
                r
            },
            (Ty::Adt(i, xs), Ty::Adt(j, ys)) => {
                if *i != *j || xs.len() != ys.len() {
                    proof {
                        assert forall|b2: Seq<Option<TyM>>| #[trigger] extends(b0, b2) && apply(b2, a@) == apply(b2, b@)
                            implies false by {
                            assert(apply(b2, a@)->Adt_1.len() == xs@.len());
                            assert(apply(b2, b@)->Adt_1.len() == ys@.len());
                        }
                    }
                    return false;
                }
                proof {
                    assert forall|k: int| 0 <= k < xs@.len() implies decreases_to!(a@ => (#[trigger] xs@[k])@) by {
                        assert(decreases_to!(a@ => a@->Adt_1));
                        assert(decreases_to!(a@->Adt_1 => a@->Adt_1[k]));
                    }
                    assert(forall|k: int| #![trigger xs@[k]] 0 <= k < xs@.len() ==> a@->Adt_1[k] == xs@[k]@);
                    assert(forall|k: int| #![trigger ys@[k]] 0 <= k < ys@.len() ==> b@->Adt_1[k] == ys@[k]@);
                    lemma_closed_scoped_all(b0, xs@, a@->Adt_1);
                    lemma_closed_scoped_all(b0, ys@, b@->Adt_1);
                }
                let r = self.unify_seq(xs, ys, Ghost(budget), Ghost(a@));
                proof {
                    if r {
                        assert(apply(self@, a@)->Adt_1 =~= apply(self@, b@)->Adt_1);
                    }
                    assert forall|b2: Seq<Option<TyM>>| #[trigger] extends(b0, b2) && apply(b2, a@) == apply(b2, b@)
                        implies r && extends(self@, b2) by {
                        assert forall|k: int| 0 <= k < xs@.len() implies apply(b2, (#[trigger] xs@[k])@) == apply(b2, ys@[k]@) by {
                            assert(apply(b2, a@)->Adt_1[k] == apply(b2, b@)->Adt_1[k]);
                        }
                        assert(pairwise_eq(b2, xs@, ys@));
                    }
                }
                r
            },
            (Ty::Function(f), Ty::Function(g)) => {
                if f.num_binders != g.num_binders || f.sig != g.sig
                    || f.substitution.len() != g.substitution.len() {
                    proof {
                        assert forall|b2: Seq<Option<TyM>>| #[trigger] extends(b0, b2) && apply(b2, a@) == apply(b2, b@)
                            implies false by {
                            assert(apply(b2, a@)->Function_2.len() == f.substitution@.len());
                            assert(apply(b2, b@)->Function_2.len() == g.substitution@.len());
                        }
                    }
                    return false;
                }
                proof {
                    assert forall|k: int| 0 <= k < f.substitution@.len() implies decreases_to!(a@ => (#[trigger] f.substitution@[k])@) by {
                        assert(decreases_to!(a@ => a@->Function_2));
                        assert(decreases_to!(a@->Function_2 => a@->Function_2[k]));
                    }
                    assert(forall|k: int| #![trigger f.substitution@[k]] 0 <= k < f.substitution@.len() ==> a@->Function_2[k] == f.substitution@[k]@);
                    assert(forall|k: int| #![trigger g.substitution@[k]] 0 <= k < g.substitution@.len() ==> b@->Function_2[k] == g.substitution@[k]@);
                    lemma_closed_scoped_all(b0, f.substitution@, a@->Function_2);
                    lemma_closed_scoped_all(b0, g.substitution@, b@->Function_2);
                }
                let r = self.unify_seq(&f.substitution, &g.substitution, Ghost(budget), Ghost(a@));
                proof {
                    if r {
                        assert(apply(self@, a@)->Function_2 =~= apply(self@, b@)->Function_2);
                    }
                    assert forall|b2: Seq<Option<TyM>>| #[trigger] extends(b0, b2) && apply(b2, a@) == apply(b2, b@)
                        implies r && extends(self@, b2) by {
                        assert forall|k: int| 0 <= k < f.substitution@.len() implies apply(b2, (#[trigger] f.substitution@[k])@) == apply(b2, g.substitution@[k]@) by {
                            assert(apply(b2, a@)->Function_2[k] == apply(b2, b@)->Function_2[k]);
                        }
                        assert(pairwise_eq(b2, f.substitution@, g.substitution@));
                    }
                }
                r
            },
            (Ty::Dyn(d), Ty::Dyn(e)) => {
                if d.num_binders != e.num_binders || d.bounds.len() != e.bounds.len() {
                    proof {
                        assert forall|b2: Seq<Option<TyM>>| #[trigger] extends(b0, b2) && apply(b2, a@) == apply(b2, b@)
                            implies false by {
                            assert(apply(b2, a@)->Dyn_1.len() == d.bounds@.len());
                            assert(apply(b2, b@)->Dyn_1.len() == e.bounds@.len());
                        }
                    }
                    return false;
                }
                let ghost cs = a@->Dyn_1;
                let ghost ds = b@->Dyn_1;
                assert(forall|k: int| #![trigger d.bounds@[k]] 0 <= k < d.bounds@.len() ==> cs[k] == d.bounds@[k]@);
                assert(forall|k: int| #![trigger e.bounds@[k]] 0 <= k < e.bounds@.len() ==> ds[k] == e.bounds@[k]@);
                let mut k: usize = 0;
                while k < d.bounds.len()
                    invariant
                        self.wf(),
                        *a == Ty::Dyn(*d),
                        *b == Ty::Dyn(*e),
                        a@ != b@,
                        d.bounds@.len() == e.bounds@.len(),
                        d.num_binders == e.num_binders,
                        cs == a@->Dyn_1,
                        ds == b@->Dyn_1,
                        k <= d.bounds@.len(),
                        b0 == old(self)@,
                        budget == count_unbound(b0),
                        closed(b0, a@),
                        closed(b0, b@),
                        keeps(b0, self@),
                        solved_stay(b0, self@),
                        count_unbound(self@) <= budget,
                        count_unbound(self@) == budget ==> self@ == b0,
                        forall|j: int| 0 <= j < k ==> sub_clause(#[trigger] cs[j], Sub::Table(self@)) == sub_clause(
                            ds[j],
                            Sub::Table(self@),
                        ),
                        forall|b2: Seq<Option<TyM>>|
                            #[trigger] extends(b0, b2) && apply(b2, a@) == apply(b2, b@) ==> extends(self@, b2),
                    decreases d.bounds@.len() - k,
                {
                    let ghost before = self@;
                    let ghost c = cs[k as int];
                    let ghost dd = ds[k as int];
                    proof {
                        assert forall|b2: Seq<Option<TyM>>| #[trigger] extends(b0, b2) && apply(b2, a@) == apply(b2, b@)
                            implies sub_clause(c, Sub::Table(b2)) == sub_clause(dd, Sub::Table(b2)) by {
                            assert(apply(b2, a@)->Dyn_1[k as int] == apply(b2, b@)->Dyn_1[k as int]);
                        }
                    }
                    if !same_shape_exec(&d.bounds[k], &e.bounds[k]) {
                        proof {
                            assert forall|b2: Seq<Option<TyM>>| #[trigger] extends(b0, b2) && apply(b2, a@) == apply(b2, b@)
                                implies false by {
                                lemma_clause_eq(b2, c, dd);
                            }
                        }
                        return false;
                    }
                    let xs = clause_kids(&d.bounds[k]);
                    let ys = clause_kids(&e.bounds[k]);
                    proof {
                        lemma_kids_below(c);
                        assert(decreases_to!(a@ => cs));
                        assert(decreases_to!(cs => cs[k as int]));
                        assert forall|j: int| 0 <= j < xs@.len() implies decreases_to!(a@ => (#[trigger] xs@[j])@) by {
                            assert(decreases_to!(c => kids(c)[j]));
                        }
                        assert(clause_vars(c, unbound_in(b0)));
                        assert(clause_vars(dd, unbound_in(b0)));
                        lemma_kids_vars(c, unbound_in(b0));
                        lemma_kids_vars(dd, unbound_in(b0));
                        lemma_closed_scoped_all(b0, xs@, kids(c));
                        lemma_closed_scoped_all(b0, ys@, kids(dd));
                        lemma_clause_eq(before, c, dd);
                    }
                    let ok = self.unify_seq(&xs, &ys, Ghost(budget), Ghost(a@));
                    proof {
                        assert forall|b2: Seq<Option<TyM>>| #[trigger] extends(b0, b2) && apply(b2, a@) == apply(b2, b@)
                            implies ok && extends(self@, b2) by {
                            lemma_clause_eq(b2, c, dd);
                            assert forall|j: int| 0 <= j < xs@.len() implies apply(b2, (#[trigger] xs@[j])@) == apply(b2, ys@[j]@) by {
                                assert(apply(b2, kids(c)[j]) == apply(b2, kids(dd)[j]));
                            }
                            assert(pairwise_eq(b2, xs@, ys@));
                            assert(extends(before, b2));
                        }
                        assert forall|p: TyM, q: TyM| apply(b0, p) == apply(b0, q) implies #[trigger] apply(self@, p)
                            == #[trigger] apply(self@, q) by {
                            assert(apply(before, p) == apply(before, q));
                        }
                        assert(solved_stay(b0, self@));
                    }
                    if !ok {
                        return false;
                    }
                    proof {
                        assert forall|j: int| 0 <= j < kids(c).len() implies apply(self@, #[trigger] kids(c)[j]) == apply(self@, kids(dd)[j]) by {
                            assert(apply(self@, xs@[j]@) == apply(self@, ys@[j]@));
                        }
                        lemma_clause_eq(self@, c, dd);
                        assert forall|j: int| 0 <= j < k + 1 implies sub_clause(#[trigger] cs[j], Sub::Table(self@)) == sub_clause(
                            ds[j],
                            Sub::Table(self@),
                        ) by {
                            if j < k {
                                lemma_clause_eq(before, cs[j], ds[j]);
                                assert forall|i: int| 0 <= i < kids(cs[j]).len() implies apply(self@, #[trigger] kids(cs[j])[i])
                                    == apply(self@, kids(ds[j])[i]) by {
                                    assert(apply(before, kids(cs[j])[i]) == apply(before, kids(ds[j])[i]));
                                }
                                lemma_clause_eq(self@, cs[j], ds[j]);
                            }
                        }
                    }
                    k = k + 1;
                }
                proof {
                    assert(apply(self@, a@)->Dyn_1 =~= apply(self@, b@)->Dyn_1);
                }
                true
            },
            _ => false,
        }
    }

    /// `bind`, with what a caller of `unify_resolved` needs to know after it.
    fn bind_checked(&mut self, v: u64, s: &Ty)
        requires
            old(self).wf(),
            unbound(old(self)@, v),
            closed(old(self)@, s@),
            !occurs_in(s@, v),
            receiver_free(s@),
        ensures
            final(self).wf(),
            final(self)@ == bind_spec(old(self)@, v, s@),
            keeps(old(self)@, final(self)@),
            solved_stay(old(self)@, final(self)@),
            count_unbound(final(self)@) < count_unbound(old(self)@),
            apply(final(self)@, TyM::Var(v)) == s@,
            apply(final(self)@, s@) == s@,
    {
        let ghost b0 = self@;
        self.bind(v, s);
        proof {
            lemma_bind_keeps(b0, v, s@);
            lemma_count_bind(b0, self@, v as int);
            lemma_bind_apply(b0, v, s@, s@);
            lemma_apply_closed(b0, s@);
            lemma_fixes(s@, Sub::Var(v, s@), other_than(v));
        }
    }

    /// Unifies `xs` with `ys` element by element. `parent` holds each `xs`
    /// strictly inside it while the table is as `budget` counts it.
    fn unify_seq(&mut self, xs: &Vec<Ty>, ys: &Vec<Ty>, Ghost(budget): Ghost<nat>, Ghost(parent): Ghost<TyM>) -> (r: bool)
        requires
            old(self).wf(),
            count_unbound(old(self)@) <= budget,
            xs@.len() == ys@.len(),
            forall|k: int| 0 <= k < xs@.len() ==> scoped(old(self)@.len(), (#[trigger] xs@[k])@),
            forall|k: int| 0 <= k < ys@.len() ==> scoped(old(self)@.len(), (#[trigger] ys@[k])@),
            count_unbound(old(self)@) == budget ==> forall|k: int|
                0 <= k < xs@.len() ==> closed(old(self)@, (#[trigger] xs@[k])@),
            forall|k: int| 0 <= k < xs@.len() ==> decreases_to!(parent => (#[trigger] xs@[k])@),
        ensures
            final(self).wf(),
            keeps(old(self)@, final(self)@),
            solved_stay(old(self)@, final(self)@),
            count_unbound(final(self)@) <= count_unbound(old(self)@),
            count_unbound(final(self)@) == count_unbound(old(self)@) ==> final(self)@ == old(self)@,
            r ==> pairwise_eq(final(self)@, xs@, ys@),
            forall|b2: Seq<Option<TyM>>|
                #[trigger] extends(old(self)@, b2) && pairwise_eq(b2, xs@, ys@) ==> r && extends(final(self)@, b2),
        decreases budget, parent, 0nat,
    {
        let ghost entry = self@;
        let mut i: usize = 0;
        while i < xs.len()
            invariant
                self.wf(),
                entry == old(self)@,
                count_unbound(entry) <= budget,
                xs@.len() == ys@.len(),
                i <= xs@.len(),
                forall|k: int| 0 <= k < xs@.len() ==> scoped(entry.len(), (#[trigger] xs@[k])@),
                forall|k: int| 0 <= k < ys@.len() ==> scoped(entry.len(), (#[trigger] ys@[k])@),
                count_unbound(entry) == budget ==> forall|k: int|
                    0 <= k < xs@.len() ==> closed(entry, (#[trigger] xs@[k])@),
                forall|k: int| 0 <= k < xs@.len() ==> decreases_to!(parent => (#[trigger] xs@[k])@),
                keeps(entry, self@),
                solved_stay(entry, self@),
                count_unbound(self@) <= count_unbound(entry),
                count_unbound(self@) == count_unbound(entry) ==> self@ == entry,
                forall|k: int| 0 <= k < i ==> apply(self@, (#[trigger] xs@[k])@) == apply(self@, ys@[k]@),
                forall|b2: Seq<Option<TyM>>|
                    #[trigger] extends(entry, b2) && pairwise_eq(b2, xs@, ys@) ==> extends(self@, b2),
            decreases xs@.len() - i,
        {
            let ghost before = self@;
            let x = self.resolve(&xs[i]);
            let y = self.resolve(&ys[i]);
            proof {
                if count_unbound(self@) == budget {
                    lemma_apply_closed(entry, xs@[i as int]@);
                    assert(x@ == xs@[i as int]@);
                    assert(decreases_to!(parent => x@));
                    assert(decreases_to!(budget, parent, 0nat => count_unbound(self@), x@, 2nat));
                } else {
                    assert(decreases_to!(budget, parent, 0nat => count_unbound(self@), x@, 2nat));
                }
                lemma_apply_idem(before, xs@[i as int]@);
                lemma_apply_idem(before, ys@[i as int]@);
            }
            let ok = self.unify_resolved(&x, &y, Ghost(count_unbound(self@)));
            proof {
                assert forall|b2: Seq<Option<TyM>>| #[trigger] extends(entry, b2) && pairwise_eq(b2, xs@, ys@)
                    implies ok && extends(self@, b2) by {
                    assert(extends(before, b2));
                    assert(apply(b2, x@) == apply(b2, xs@[i as int]@));
                    assert(apply(b2, y@) == apply(b2, ys@[i as int]@));
                }
                assert forall|p: TyM, q: TyM| apply(entry, p) == apply(entry, q) implies #[trigger] apply(self@, p)
                    == #[trigger] apply(self@, q) by {
                    assert(apply(before, p) == apply(before, q));
                }
                assert(solved_stay(entry, self@));
            }
            if !ok {
                return false;
            }
            proof {
                assert(apply(self@, xs@[i as int]@) == apply(self@, x@));
                assert(apply(self@, ys@[i as int]@) == apply(self@, y@));
                assert forall|k: int| 0 <= k < i + 1 implies apply(self@, (#[trigger] xs@[k])@) == apply(self@, ys@[k]@) by {
                    if k < i {
                        assert(apply(before, xs@[k]@) == apply(before, ys@[k]@));
                    }
                }
            }
            i = i + 1;
        }
        true
    }

    /// Makes `a` and `b` equal by solving variables. On failure the table is
    /// left as it was.
    pub fn unify(&mut self, a: &Ty, b: &Ty) -> (r: Result<(), TypeMismatch>)
        requires
            old(self).wf(),
            scoped(old(self)@.len(), a@),
            scoped(old(self)@.len(), b@),
            receiver_free(a@),
            receiver_free(b@),
        ensures
            final(self).wf(),
            keeps(old(self)@, final(self)@),
            solved_stay(old(self)@, final(self)@),
            r is Ok ==> apply(final(self)@, a@) == apply(final(self)@, b@),
            r is Err ==> final(self)@ == old(self)@,
            apply(old(self)@, a@) == apply(old(self)@, b@) ==> r is Ok && final(self)@ == old(self)@,
            r is Ok <==> unifiable(old(self)@, a@, b@),
            forall|b2: Seq<Option<TyM>>|
                #[trigger] extends(old(self)@, b2) && apply(b2, a@) == apply(b2, b@) ==> extends(final(self)@, b2),
    {
        let ghost b0 = self@;
        let x = self.resolve(a);
        let y = self.resolve(b);
        proof {
            lemma_apply_closed(b0, x@);
            lemma_apply_closed(b0, y@);
        }
        if ty_eq(&x, &y) {
            assert(apply(b0, a@) == apply(b0, b@));
            return Ok(());
        }
        let saved = self.snapshot();
        let ok = self.unify_resolved(&x, &y, Ghost(count_unbound(self@)));
        proof {
            assert forall|b2: Seq<Option<TyM>>| #[trigger] extends(b0, b2) && apply(b2, a@) == apply(b2, b@)
                implies ok && extends(self@, b2) by {
                lemma_resolve_invisible(b0, b2, a@);
                lemma_resolve_invisible(b0, b2, b@);
                assert(apply(b2, x@) == apply(b2, y@));
            }
            if unifiable(b0, a@, b@) {
                let b2 = choose|b2: Seq<Option<TyM>>|
                    wf_bindings(b2) && bindings_receiver_free(b2) && keeps(b0, b2) && solved_stay(b0, b2)
                        && #[trigger] apply(b2, a@) == apply(b2, b@);
                lemma_resolve_invisible(b0, b2, a@);
                lemma_resolve_invisible(b0, b2, b@);
                assert(extends(b0, b2));
                assert(apply(b2, x@) == apply(b2, y@));
            }
        }
        if ok {
            assert(apply(self@, a@) == apply(self@, x@));
            assert(apply(self@, b@) == apply(self@, y@));
            assert(apply(self@, a@) == apply(self@, b@));
            Ok(())
        } else {
            self.bindings = saved;
            Err(TypeMismatch)
        }
    }

    /// Coerces `actual` to `expected`: adjusts where a built-in rule applies,
    /// and unifies otherwise. On failure the table is left as it was.
    pub fn coerce(&mut self, actual: &Ty, expected: &Ty) -> (r: Result<(), TypeMismatch>)
        requires
            old(self).wf(),
            scoped(old(self)@.len(), actual@),
            scoped(old(self)@.len(), expected@),
            receiver_free(actual@),
            receiver_free(expected@),
        ensures
            final(self).wf(),
            keeps(old(self)@, final(self)@),
            solved_stay(old(self)@, final(self)@),
            r is Ok ==> coerces(apply(final(self)@, actual@), apply(final(self)@, expected@)),
            r is Err ==> final(self)@ == old(self)@,
            apply(old(self)@, expected@) is Dyn && !(apply(old(self)@, actual@) is Var)
                ==> r is Ok && final(self)@ == old(self)@,
            coerces(apply(old(self)@, actual@), apply(old(self)@, expected@)) ==> r is Ok && final(self)@
                == old(self)@,
            apply(old(self)@, expected@) is Var && r is Ok ==> apply(final(self)@, actual@) == apply(
                final(self)@,
                expected@,
            ),
            r is Ok <==> coercible(old(self)@, actual@, expected@),
            unifiable(old(self)@, actual@, expected@) ==> r is Ok,
            apply(old(self)@, actual@) is Closure && apply(old(self)@, expected@) is Function && unifiable(
                old(self)@,
                *apply(old(self)@, actual@)->Closure_1,
                expected@,
            ) ==> r is Ok,
            forall|b2: Seq<Option<TyM>>|
                #[trigger] extends(old(self)@, b2) && apply(b2, actual@) == apply(b2, expected@) ==> extends(
                    final(self)@,
                    b2,
                ),
            apply(old(self)@, actual@) is Closure && apply(old(self)@, expected@) is Function ==> forall|
                b2: Seq<Option<TyM>>,
            |
                #[trigger] extends(old(self)@, b2) && apply(b2, *apply(old(self)@, actual@)->Closure_1) == apply(
                    b2,
                    expected@,
                ) ==> extends(final(self)@, b2),
    {
        let ghost b0 = self@;
        let a = self.resolve(actual);
        let e = self.resolve(expected);
        proof {
            lemma_apply_closed(b0, a@);
            lemma_apply_closed(b0, e@);
            assert forall|w: u64| unbound_in(b0)(w) && unbound_in(b0)(w) implies #[trigger] below(b0.len())(w) by {}
            lemma_mono(a@, unbound_in(b0), unbound_in(b0), below(b0.len()));
            lemma_mono(e@, unbound_in(b0), unbound_in(b0), below(b0.len()));
            lemma_unifiable_resolved(b0, actual@, expected@);
            lemma_apply_idem(b0, expected@);
            assert(apply(b0, e@) == e@);
            if a@ is Closure {
                lemma_apply_closed(b0, *a@->Closure_1);
                lemma_unifiable_resolved(b0, *a@->Closure_1, expected@);
            }
            if a@ is Ref && e@ is Ref {
                lemma_apply_closed(b0, *a@->Ref_1);
                lemma_apply_closed(b0, *e@->Ref_1);
            }
            assert forall|b2: Seq<Option<TyM>>| #[trigger] extends(b0, b2) implies apply(b2, a@) == apply(b2, actual@)
                && apply(b2, e@) == apply(b2, expected@) by {
                lemma_resolve_invisible(b0, b2, actual@);
                lemma_resolve_invisible(b0, b2, expected@);
            }
            if unifiable(b0, a@, e@) {
                let b2 = choose|b2: Seq<Option<TyM>>|
                    wf_bindings(b2) && bindings_receiver_free(b2) && keeps(b0, b2) && solved_stay(b0, b2)
                        && #[trigger] apply(b2, a@) == apply(b2, e@);
                assert(apply(b2, a@) == apply(b2, e@));
            }
        }
        if ty_eq(&a, &e) {
            return Ok(());
        }
        match (&a, &e) {
            (Ty::Closure(_, sig), Ty::Function(_)) => {
                proof {
                    assert(all_vars(*a@->Closure_1, below(b0.len())));
                }
                let r = self.unify(sig, &e);
                proof {
                    if r is Ok {
                        assert(apply(self@, actual@) == apply(self@, a@));
                        assert(apply(self@, expected@) == apply(self@, e@));
                    }
                }
                r
            },
            (Ty::Closure(_, _), Ty::Dyn(_)) | (Ty::Function(_), Ty::Dyn(_)) | (Ty::Adt(_, _), Ty::Dyn(_))
            | (Ty::Ref(_, _), Ty::Dyn(_)) | (Ty::Tuple(_), Ty::Dyn(_)) | (Ty::Scalar(_), Ty::Dyn(_))
            | (Ty::Error, Ty::Dyn(_)) | (Ty::Dyn(_), Ty::Dyn(_)) | (Ty::Bound(_), Ty::Dyn(_))
            | (Ty::DynSelf, Ty::Dyn(_)) => {
                Ok(())
            },
            (Ty::Ref(true, x), Ty::Ref(false, y)) => {
                let r = self.unify(x, y);
                proof {
                    if r is Ok {
                        assert(apply(self@, actual@) == apply(self@, a@));
                        assert(apply(self@, expected@) == apply(self@, e@));
                    }
                }
                r
            },
            _ => {
                let r = self.unify(&a, &e);
                proof {
                    if r is Ok {
                        assert(apply(self@, actual@) == apply(self@, a@));
                        assert(apply(self@, expected@) == apply(self@, e@));
                    }
                }
                r
            },
        }
    }
}

} // verus!
