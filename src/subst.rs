//! Substitution, variable occurrence and structural equality on type terms.
use vstd::prelude::*;
use crate::ty::{AliasTy, ClauseM, DynTy, FnPointer, Ty, TyM, WhereClause};

verus! {

/// What a substitution replaces.
pub enum Sub {
    /// Nothing: the term is rebuilt unchanged.
    Keep,
    /// One inference variable.
    Var(u64, TyM),
    /// The erased receiver `DynSelf`.
    Receiver(TyM),
    /// Every inference variable that the table binds.
    Table(Seq<Option<TyM>>),
}

/// Executable counterpart of `Sub`.
pub enum Subst<'a> {
    Keep,
    Var(u64, &'a Ty),
    Receiver(&'a Ty),
    Table(&'a Vec<Option<Ty>>),
}

pub open spec fn opt_view(o: Option<Ty>) -> Option<TyM> {
    match o {
        Some(t) => Some(t@),
        None => None,
    }
}

pub open spec fn bindings_view(b: Seq<Option<Ty>>) -> Seq<Option<TyM>> {
    b.map_values(|o: Option<Ty>| opt_view(o))
}

impl<'a> View for Subst<'a> {
    type V = Sub;

    open spec fn view(&self) -> Sub {
        match self {
            Subst::Keep => Sub::Keep,
            Subst::Var(v, s) => Sub::Var(*v, s@),
            Subst::Receiver(s) => Sub::Receiver(s@),
            Subst::Table(b) => Sub::Table(bindings_view(b@)),
        }
    }
}

pub open spec fn sub_leaf(t: TyM, f: Sub) -> TyM {
    match t {
        TyM::Var(v) => match f {
            Sub::Var(w, s) => if v == w { s } else { t },
            Sub::Table(b) => if v < b.len() && b[v as int] is Some { b[v as int]->0 } else { t },
            _ => t,
        },
        TyM::DynSelf => match f {
            Sub::Receiver(s) => s,
            _ => t,
        },
        _ => t,
    }
}

/// `0` for the substitution that replaces nothing, `1` otherwise.
pub open spec fn sub_rank(f: Sub) -> nat {
    if f is Keep { 0 } else { 1 }
}

/// The term `t` with `f` applied to every variable (or receiver) it holds.
pub open spec fn sub_ty(t: TyM, f: Sub) -> TyM
    decreases t,
{
    match t {
        TyM::Adt(id, xs) => TyM::Adt(
            id,
            Seq::new(xs.len(), |i: int| if 0 <= i < xs.len() { sub_ty(xs[i], f) } else { TyM::Error }),
        ),
        TyM::Ref(m, b) => TyM::Ref(m, Box::new(sub_ty(*b, f))),
        TyM::Tuple(xs) => TyM::Tuple(
            Seq::new(xs.len(), |i: int| if 0 <= i < xs.len() { sub_ty(xs[i], f) } else { TyM::Error }),
        ),
        TyM::Function(n, sig, xs) => TyM::Function(
            n,
            sig,
            Seq::new(xs.len(), |i: int| if 0 <= i < xs.len() { sub_ty(xs[i], f) } else { TyM::Error }),
        ),
        TyM::Closure(id, b) => TyM::Closure(id, Box::new(sub_ty(*b, f))),
        // A nested dynamic type binds its own receiver.
        TyM::Dyn(n, cs) => if f is Receiver {
            t
        } else {
            TyM::Dyn(
                n,
                Seq::new(
                    cs.len(),
                    |i: int| if 0 <= i < cs.len() { sub_clause(cs[i], f) } else { ClauseM::Outlives(TyM::Error) },
                ),
            )
        },
        _ => sub_leaf(t, f),
    }
}

pub open spec fn sub_clause(c: ClauseM, f: Sub) -> ClauseM
    decreases c,
{
    match c {
        ClauseM::Implemented(id, xs) => ClauseM::Implemented(
            id,
            Seq::new(xs.len(), |i: int| if 0 <= i < xs.len() { sub_ty(xs[i], f) } else { TyM::Error }),
        ),
        ClauseM::ProjectionEq(id, xs, t) => ClauseM::ProjectionEq(
            id,
            Seq::new(xs.len(), |i: int| if 0 <= i < xs.len() { sub_ty(xs[i], f) } else { TyM::Error }),
            sub_ty(t, f),
        ),
        ClauseM::OpaqueEq(id, t) => ClauseM::OpaqueEq(id, sub_ty(t, f)),
        ClauseM::Outlives(t) => ClauseM::Outlives(sub_ty(t, f)),
    }
}

/// Every inference variable in `t` satisfies `p`.
pub open spec fn all_vars(t: TyM, p: spec_fn(u64) -> bool) -> bool
    decreases t,
{
    match t {
        TyM::Var(v) => p(v),
        TyM::Adt(_, xs) => forall|i: int| 0 <= i < xs.len() ==> all_vars(#[trigger] xs[i], p),
        TyM::Ref(_, b) => all_vars(*b, p),
        TyM::Tuple(xs) => forall|i: int| 0 <= i < xs.len() ==> all_vars(#[trigger] xs[i], p),
        TyM::Function(_, _, xs) => forall|i: int| 0 <= i < xs.len() ==> all_vars(#[trigger] xs[i], p),
        TyM::Closure(_, b) => all_vars(*b, p),
        TyM::Dyn(_, cs) => forall|i: int| 0 <= i < cs.len() ==> clause_vars(#[trigger] cs[i], p),
        _ => true,
    }
}

pub open spec fn clause_vars(c: ClauseM, p: spec_fn(u64) -> bool) -> bool
    decreases c,
{
    match c {
        ClauseM::Implemented(_, xs) => forall|i: int| 0 <= i < xs.len() ==> all_vars(#[trigger] xs[i], p),
        ClauseM::ProjectionEq(_, xs, t) => (forall|i: int|
            0 <= i < xs.len() ==> all_vars(#[trigger] xs[i], p)) && all_vars(t, p),
        ClauseM::OpaqueEq(_, t) => all_vars(t, p),
        ClauseM::Outlives(t) => all_vars(t, p),
    }
}

/// No erased receiver stands outside a dynamic type's bounds.
pub open spec fn receiver_free(t: TyM) -> bool
    decreases t,
{
    match t {
        TyM::DynSelf => false,
        TyM::Adt(_, xs) => forall|i: int| 0 <= i < xs.len() ==> receiver_free(#[trigger] xs[i]),
        TyM::Ref(_, b) => receiver_free(*b),
        TyM::Tuple(xs) => forall|i: int| 0 <= i < xs.len() ==> receiver_free(#[trigger] xs[i]),
        TyM::Function(_, _, xs) => forall|i: int| 0 <= i < xs.len() ==> receiver_free(#[trigger] xs[i]),
        TyM::Closure(_, b) => receiver_free(*b),
        _ => true,
    }
}

/// A term without a stray receiver is left as it is by erasing the receiver.
pub proof fn lemma_receiver_free_erase(t: TyM, s: TyM)
    requires
        receiver_free(t),
    ensures
        sub_ty(t, Sub::Receiver(s)) == t,
    decreases t,
{
    match t {
        TyM::Adt(id, xs) => {
            assert forall|i: int| 0 <= i < xs.len() implies sub_ty(xs[i], Sub::Receiver(s)) == xs[i] by {
                lemma_receiver_free_erase(xs[i], s);
            }
            assert(sub_ty(t, Sub::Receiver(s))->Adt_1 =~= xs);
        },
        TyM::Ref(m, b) => {
            lemma_receiver_free_erase(*b, s);
        },
        TyM::Tuple(xs) => {
            assert forall|i: int| 0 <= i < xs.len() implies sub_ty(xs[i], Sub::Receiver(s)) == xs[i] by {
                lemma_receiver_free_erase(xs[i], s);
            }
            assert(sub_ty(t, Sub::Receiver(s))->Tuple_0 =~= xs);
        },
        TyM::Function(n, sig, xs) => {
            assert forall|i: int| 0 <= i < xs.len() implies sub_ty(xs[i], Sub::Receiver(s)) == xs[i] by {
                lemma_receiver_free_erase(xs[i], s);
            }
            assert(sub_ty(t, Sub::Receiver(s))->Function_2 =~= xs);
        },
        TyM::Closure(id, b) => {
            lemma_receiver_free_erase(*b, s);
        },
        _ => {},
    }
}

/// Erasing the receiver with a receiver-free term leaves none.
pub proof fn lemma_erase_receiver_free(t: TyM, s: TyM)
    requires
        receiver_free(s),
    ensures
        receiver_free(sub_ty(t, Sub::Receiver(s))),
    decreases t,
{
    match t {
        TyM::Adt(id, xs) => {
            assert forall|i: int| 0 <= i < xs.len() implies receiver_free(#[trigger] sub_ty(t, Sub::Receiver(s))->Adt_1[i]) by {
                lemma_erase_receiver_free(xs[i], s);
            }
        },
        TyM::Ref(m, b) => {
            lemma_erase_receiver_free(*b, s);
        },
        TyM::Tuple(xs) => {
            assert forall|i: int| 0 <= i < xs.len() implies receiver_free(#[trigger] sub_ty(t, Sub::Receiver(s))->Tuple_0[i]) by {
                lemma_erase_receiver_free(xs[i], s);
            }
        },
        TyM::Function(n, sig, xs) => {
            assert forall|i: int| 0 <= i < xs.len() implies receiver_free(#[trigger] sub_ty(t, Sub::Receiver(s))->Function_2[i]) by {
                lemma_erase_receiver_free(xs[i], s);
            }
        },
        TyM::Closure(id, b) => {
            lemma_erase_receiver_free(*b, s);
        },
        _ => {},
    }
}

/// The variables other than `v`.
pub open spec fn other_than(v: u64) -> spec_fn(u64) -> bool {
    |w: u64| w != v
}

/// Variable `v` occurs in `t`.
pub open spec fn occurs_in(t: TyM, v: u64) -> bool {
    !all_vars(t, other_than(v))
}

// ---------------------------------------------------------------------------
// Lemmas
// ---------------------------------------------------------------------------

/// Rebuilding a term without replacing anything gives the term back.
pub proof fn lemma_keep_ty(t: TyM)
    ensures
        sub_ty(t, Sub::Keep) == t,
    decreases t,
{
    match t {
        TyM::Adt(id, xs) => {
            assert forall|i: int| 0 <= i < xs.len() implies sub_ty(xs[i], Sub::Keep) == xs[i] by {
                lemma_keep_ty(xs[i]);
            }
            assert(sub_ty(t, Sub::Keep)->Adt_1 =~= xs);
        },
        TyM::Ref(m, b) => {
            lemma_keep_ty(*b);
        },
        TyM::Tuple(xs) => {
            assert forall|i: int| 0 <= i < xs.len() implies sub_ty(xs[i], Sub::Keep) == xs[i] by {
                lemma_keep_ty(xs[i]);
            }
            assert(sub_ty(t, Sub::Keep)->Tuple_0 =~= xs);
        },
        TyM::Function(n, sig, xs) => {
            assert forall|i: int| 0 <= i < xs.len() implies sub_ty(xs[i], Sub::Keep) == xs[i] by {
                lemma_keep_ty(xs[i]);
            }
            assert(sub_ty(t, Sub::Keep)->Function_2 =~= xs);
        },
        TyM::Closure(id, b) => {
            lemma_keep_ty(*b);
        },
        TyM::Dyn(n, cs) => {
            assert forall|i: int| 0 <= i < cs.len() implies sub_clause(cs[i], Sub::Keep) == cs[i] by {
                lemma_keep_clause(cs[i]);
            }
            assert(sub_ty(t, Sub::Keep)->Dyn_1 =~= cs);
        },
        _ => {},
    }
}

pub proof fn lemma_keep_clause(c: ClauseM)
    ensures
        sub_clause(c, Sub::Keep) == c,
    decreases c,
{
    match c {
        ClauseM::Implemented(id, xs) => {
            assert forall|i: int| 0 <= i < xs.len() implies sub_ty(xs[i], Sub::Keep) == xs[i] by {
                lemma_keep_ty(xs[i]);
            }
            assert(sub_clause(c, Sub::Keep)->Implemented_1 =~= xs);
        },
        ClauseM::ProjectionEq(id, xs, t) => {
            assert forall|i: int| 0 <= i < xs.len() implies sub_ty(xs[i], Sub::Keep) == xs[i] by {
                lemma_keep_ty(xs[i]);
            }
            assert(sub_clause(c, Sub::Keep)->ProjectionEq_1 =~= xs);
            lemma_keep_ty(t);
        },
        ClauseM::OpaqueEq(id, t) => {
            lemma_keep_ty(t);
        },
        ClauseM::Outlives(t) => {
            lemma_keep_ty(t);
        },
    }
}

// ---------------------------------------------------------------------------
// Executable substitution
// ---------------------------------------------------------------------------

/// A copy of `t` with the same model.
pub fn deep_clone(t: &Ty) -> (r: Ty)
    ensures
        r@ == t@,
{
    let r = substitute(t, &Subst::Keep);
    proof {
        lemma_keep_ty(t@);
    }
    r
}

/// Applies `f` to `t`.
pub fn substitute(t: &Ty, f: &Subst) -> (r: Ty)
    ensures
        r@ == sub_ty(t@, f@),
    decreases sub_rank(f@), *t, 1nat,
{
    match t {
        Ty::Var(v) => match f {
            Subst::Var(w, s) => if *v == *w {
                proof {
                    lemma_keep_ty(s@);
                }
                substitute(s, &Subst::Keep)
            } else {
                Ty::Var(*v)
            },
            Subst::Table(b) => {
                if (*v as u128) < (b.len() as u128) {
                    match &b[*v as usize] {
                        Some(s) => {
                            proof {
                                lemma_keep_ty(s@);
                            }
                            substitute(s, &Subst::Keep)
                        },
                        None => Ty::Var(*v),
                    }
                } else {
                    Ty::Var(*v)
                }
            },
            _ => Ty::Var(*v),
        },
        Ty::Bound(i) => Ty::Bound(*i),
        Ty::DynSelf => match f {
            Subst::Receiver(s) => {
                proof {
                    lemma_keep_ty(s@);
                }
                substitute(s, &Subst::Keep)
            },
            _ => Ty::DynSelf,
        },
        Ty::Error => Ty::Error,
        Ty::Scalar(s) => Ty::Scalar(*s),
        Ty::Adt(id, xs) => {
            proof {
                assert(decreases_to!(*t => (*t)->Adt_1));
            }
            let ys = substitute_tys(xs, f);
            let r = Ty::Adt(*id, ys);
            assert(r@->Adt_1 =~= sub_ty(t@, f@)->Adt_1);
            r
        },
        Ty::Ref(m, b) => {
            let r = Ty::Ref(*m, Box::new(substitute(b, f)));
            r
        },
        Ty::Tuple(xs) => {
            proof {
                assert(decreases_to!(*t => (*t)->Tuple_0));
            }
            let ys = substitute_tys(xs, f);
            let r = Ty::Tuple(ys);
            assert(r@->Tuple_0 =~= sub_ty(t@, f@)->Tuple_0);
            r
        },
        Ty::Function(fp) => {
            proof {
                assert(decreases_to!(*t => (*t)->Function_0));
                assert(decreases_to!(*fp => fp.substitution));
            }
            let ys = substitute_tys(&fp.substitution, f);
            let r = Ty::Function(FnPointer { num_binders: fp.num_binders, sig: fp.sig, substitution: ys });
            assert(r@->Function_2 =~= sub_ty(t@, f@)->Function_2);
            r
        },
        Ty::Closure(id, b) => Ty::Closure(*id, Box::new(substitute(b, f))),
        Ty::Dyn(d) => {
            if let Subst::Receiver(_) = f {
                proof {
                    lemma_keep_ty(t@);
                }
                return substitute(t, &Subst::Keep);
            }
            proof {
                assert(decreases_to!(*t => (*t)->Dyn_0));
                assert(decreases_to!(*d => d.bounds));
            }
            let cs = substitute_clauses(&d.bounds, f);
            let r = Ty::Dyn(DynTy { num_binders: d.num_binders, bounds: cs });
            assert(r@->Dyn_1 =~= sub_ty(t@, f@)->Dyn_1);
            r
        },
    }
}

/// Applies `f` to every element of `xs`.
pub fn substitute_tys(xs: &Vec<Ty>, f: &Subst) -> (r: Vec<Ty>)
    ensures
        r@.len() == xs@.len(),
        forall|i: int| 0 <= i < xs@.len() ==> (#[trigger] r@[i])@ == sub_ty(xs@[i]@, f@),
    decreases sub_rank(f@), *xs, 0nat,
{
    let mut out: Vec<Ty> = Vec::new();
    let mut i: usize = 0;
    while i < xs.len()
        invariant
            i <= xs@.len(),
            out@.len() == i,
            forall|j: int| 0 <= j < i ==> (#[trigger] out@[j])@ == sub_ty(xs@[j]@, f@),
        decreases xs@.len() - i,
    {
        proof {
            assert(decreases_to!(*xs => xs@));
            assert(decreases_to!(xs@ => xs@[i as int]));
        }
        let y = substitute(&xs[i], f);
        out.push(y);
        i = i + 1;
    }
    out
}

/// Applies `f` to a where-clause.
pub fn substitute_clause(c: &WhereClause, f: &Subst) -> (r: WhereClause)
    ensures
        r@ == sub_clause(c@, f@),
    decreases sub_rank(f@), *c, 1nat,
{
    match c {
        WhereClause::Implemented { trait_id, substitution } => {
            proof {
                assert(decreases_to!(*c => (*c)->Implemented_substitution));
            }
            let ys = substitute_tys(substitution, f);
            let r = WhereClause::Implemented { trait_id: *trait_id, substitution: ys };
            assert(r@->Implemented_1 =~= sub_clause(c@, f@)->Implemented_1);
            r
        },
        WhereClause::AliasEq { alias, ty } => {
            let ty2 = Box::new(substitute(ty, f));
            match alias {
                AliasTy::Projection { associated_ty_id, substitution } => {
                    proof {
                        assert(decreases_to!(*c => (*c)->AliasEq_alias));
                        assert(decreases_to!(*alias => (*alias)->Projection_substitution));
                    }
                    let ys = substitute_tys(substitution, f);
                    let r = WhereClause::AliasEq {
                        alias: AliasTy::Projection { associated_ty_id: *associated_ty_id, substitution: ys },
                        ty: ty2,
                    };
                    assert(r@->ProjectionEq_1 =~= sub_clause(c@, f@)->ProjectionEq_1);
                    r
                },
                AliasTy::Opaque(id) => WhereClause::AliasEq { alias: AliasTy::Opaque(*id), ty: ty2 },
            }
        },
        WhereClause::TypeOutlives(ty) => WhereClause::TypeOutlives(Box::new(substitute(ty, f))),
    }
}

/// Applies `f` to every clause of `cs`.
pub fn substitute_clauses(cs: &Vec<WhereClause>, f: &Subst) -> (r: Vec<WhereClause>)
    ensures
        r@.len() == cs@.len(),
        forall|i: int| 0 <= i < cs@.len() ==> (#[trigger] r@[i])@ == sub_clause(cs@[i]@, f@),
    decreases sub_rank(f@), *cs, 0nat,
{
    let mut out: Vec<WhereClause> = Vec::new();
    let mut i: usize = 0;
    while i < cs.len()
        invariant
            i <= cs@.len(),
            out@.len() == i,
            forall|j: int| 0 <= j < i ==> (#[trigger] out@[j])@ == sub_clause(cs@[j]@, f@),
        decreases cs@.len() - i,
    {
        proof {
            assert(decreases_to!(*cs => cs@));
            assert(decreases_to!(cs@ => cs@[i as int]));
        }
        let y = substitute_clause(&cs[i], f);
        out.push(y);
        i = i + 1;
    }
    out
}

// ---------------------------------------------------------------------------
// Occurrence and equality
// ---------------------------------------------------------------------------

/// Whether inference variable `v` occurs in `t`.
pub fn occurs(t: &Ty, v: u64) -> (r: bool)
    ensures
        r == occurs_in(t@, v),
    decreases *t, 1nat,
{
    match t {
        Ty::Var(w) => {
            assert(all_vars(t@, other_than(v)) == other_than(v)(*w));
            *w == v
        },
        Ty::Adt(_, xs) => {
            proof {
                assert(decreases_to!(*t => (*t)->Adt_1));
            }
            assert(forall|j: int| #![trigger t@->Adt_1[j]] #![trigger xs@[j]] 0 <= j < xs@.len() ==> t@->Adt_1[j] == xs@[j]@);
            occurs_tys(xs, v)
        },
        Ty::Tuple(xs) => {
            proof {
                assert(decreases_to!(*t => (*t)->Tuple_0));
            }
            assert(forall|j: int| #![trigger t@->Tuple_0[j]] #![trigger xs@[j]] 0 <= j < xs@.len() ==> t@->Tuple_0[j] == xs@[j]@);
            occurs_tys(xs, v)
        },
        Ty::Function(fp) => {
            proof {
                assert(decreases_to!(*t => (*t)->Function_0));
                assert(decreases_to!(*fp => fp.substitution));
            }
            assert(forall|j: int| #![trigger t@->Function_2[j]] #![trigger fp.substitution@[j]] 0 <= j < fp.substitution@.len() ==> t@->Function_2[j] == fp.substitution@[j]@);
            occurs_tys(&fp.substitution, v)
        },
        Ty::Ref(_, b) => occurs(b, v),
        Ty::Closure(_, b) => occurs(b, v),
        Ty::Dyn(d) => {
            proof {
                assert(decreases_to!(*t => (*t)->Dyn_0));
                assert(decreases_to!(*d => d.bounds));
            }
            let mut i: usize = 0;
            while i < d.bounds.len()
                invariant
                    *t == Ty::Dyn(*d),
                    i <= d.bounds@.len(),
                    forall|j: int| 0 <= j < i ==> clause_vars(#[trigger] d.bounds@[j]@, other_than(v)),
                decreases d.bounds@.len() - i,
            {
                proof {
                    assert(decreases_to!(d.bounds => d.bounds@));
                    assert(decreases_to!(d.bounds@ => d.bounds@[i as int]));
                }
                if occurs_clause(&d.bounds[i], v) {
                    assert(t@->Dyn_1[i as int] == d.bounds@[i as int]@);
                    return true;
                }
                i = i + 1;
            }
            assert forall|j: int| 0 <= j < t@->Dyn_1.len() implies clause_vars(
                #[trigger] t@->Dyn_1[j],
                other_than(v),
            ) by {
                assert(t@->Dyn_1[j] == d.bounds@[j]@);
            }
            false
        },
        _ => false,
    }
}

/// Whether `v` occurs in some element of `xs`.
pub fn occurs_tys(xs: &Vec<Ty>, v: u64) -> (r: bool)
    ensures
        r == !(forall|i: int| 0 <= i < xs@.len() ==> all_vars(#[trigger] xs@[i]@, other_than(v))),
    decreases *xs, 0nat,
{
    let mut i: usize = 0;
    while i < xs.len()
        invariant
            i <= xs@.len(),
            forall|j: int| 0 <= j < i ==> all_vars(#[trigger] xs@[j]@, other_than(v)),
        decreases xs@.len() - i,
    {
        proof {
            assert(decreases_to!(*xs => xs@));
            assert(decreases_to!(xs@ => xs@[i as int]));
        }
        if occurs(&xs[i], v) {
            return true;
        }
        i = i + 1;
    }
    false
}

/// Whether `v` occurs in the where-clause `c`.
pub fn occurs_clause(c: &WhereClause, v: u64) -> (r: bool)
    ensures
        r == !clause_vars(c@, other_than(v)),
    decreases *c, 1nat,
{
    match c {
        WhereClause::Implemented { substitution, .. } => {
            proof {
                assert(decreases_to!(*c => (*c)->Implemented_substitution));
            }
            let r = occurs_tys(substitution, v);
            assert(forall|j: int| #![trigger c@->Implemented_1[j]] #![trigger substitution@[j]] 0 <= j < substitution@.len() ==> c@->Implemented_1[j] == substitution@[j]@);
            r
        },
        WhereClause::AliasEq { alias, ty } => {
            if occurs(ty, v) {
                return true;
            }
            match alias {
                AliasTy::Projection { substitution, .. } => {
                    proof {
                        assert(decreases_to!(*c => (*c)->AliasEq_alias));
                        assert(decreases_to!(*alias => (*alias)->Projection_substitution));
                    }
                    let r = occurs_tys(substitution, v);
                    assert(forall|j: int| #![trigger c@->ProjectionEq_1[j]] #![trigger substitution@[j]] 0 <= j < substitution@.len() ==> c@->ProjectionEq_1[j] == substitution@[j]@);
                    r
                },
                AliasTy::Opaque(_) => false,
            }
        },
        WhereClause::TypeOutlives(ty) => occurs(ty, v),
    }
}

/// Structural equality of two terms.
pub fn ty_eq(a: &Ty, b: &Ty) -> (r: bool)
    ensures
        r == (a@ == b@),
    decreases *a, 1nat,
{
    match (a, b) {
        (Ty::Var(x), Ty::Var(y)) => *x == *y,
        (Ty::Bound(x), Ty::Bound(y)) => *x == *y,
        (Ty::DynSelf, Ty::DynSelf) => true,
        (Ty::Error, Ty::Error) => true,
        (Ty::Scalar(x), Ty::Scalar(y)) => *x == *y,
        (Ty::Adt(i, xs), Ty::Adt(j, ys)) => {
            proof {
                assert(decreases_to!(*a => (*a)->Adt_1));
            }
            if *i != *j {
                return false;
            }
            let r = tys_eq(xs, ys);
            if r {
                assert(a@->Adt_1 =~= b@->Adt_1);
            } else {
                proof {
                    if a@ == b@ {
                        assert(a@->Adt_1.len() == xs@.len());
                        assert(b@->Adt_1.len() == ys@.len());
                        assert forall|k: int| 0 <= k < xs@.len() implies (#[trigger] xs@[k])@ == ys@[k]@ by {
                            assert(a@->Adt_1[k] == xs@[k]@);
                            assert(b@->Adt_1[k] == ys@[k]@);
                        }
                    }
                }
            }
            r
        },
        (Ty::Ref(m, x), Ty::Ref(n, y)) => *m == *n && ty_eq(x, y),
        (Ty::Tuple(xs), Ty::Tuple(ys)) => {
            proof {
                assert(decreases_to!(*a => (*a)->Tuple_0));
            }
            let r = tys_eq(xs, ys);
            if r {
                assert(a@->Tuple_0 =~= b@->Tuple_0);
            } else {
                proof {
                    if a@ == b@ {
                        assert(a@->Tuple_0.len() == xs@.len());
                        assert(b@->Tuple_0.len() == ys@.len());
                        assert forall|k: int| 0 <= k < xs@.len() implies (#[trigger] xs@[k])@ == ys@[k]@ by {
                            assert(a@->Tuple_0[k] == xs@[k]@);
                            assert(b@->Tuple_0[k] == ys@[k]@);
                        }
                    }
                }
            }
            r
        },
        (Ty::Function(f), Ty::Function(g)) => {
            proof {
                assert(decreases_to!(*a => (*a)->Function_0));
                assert(decreases_to!(*f => f.substitution));
            }
            if f.num_binders != g.num_binders || f.sig != g.sig {
                return false;
            }
            let r = tys_eq(&f.substitution, &g.substitution);
            if r {
                assert(a@->Function_2 =~= b@->Function_2);
            } else {
                proof {
                    if a@ == b@ {
                        assert(a@->Function_2.len() == f.substitution@.len());
                        assert(b@->Function_2.len() == g.substitution@.len());
                        assert forall|k: int| 0 <= k < f.substitution@.len() implies (#[trigger] f.substitution@[k])@ == g.substitution@[k]@ by {
                            assert(a@->Function_2[k] == f.substitution@[k]@);
                            assert(b@->Function_2[k] == g.substitution@[k]@);
                        }
                    }
                }
            }
            r
        },
        (Ty::Closure(i, x), Ty::Closure(j, y)) => *i == *j && ty_eq(x, y),
        (Ty::Dyn(d), Ty::Dyn(e)) => {
            proof {
                assert(decreases_to!(*a => (*a)->Dyn_0));
                assert(decreases_to!(*d => d.bounds));
            }
            if d.num_binders != e.num_binders || d.bounds.len() != e.bounds.len() {
                assert(a@->Dyn_1.len() == d.bounds@.len());
                assert(b@->Dyn_1.len() == e.bounds@.len());
                return false;
            }
            let mut i: usize = 0;
            while i < d.bounds.len()
                invariant
                    *a == Ty::Dyn(*d),
                    *b == Ty::Dyn(*e),
                    d.bounds@.len() == e.bounds@.len(),
                    i <= d.bounds@.len(),
                    forall|k: int| 0 <= k < i ==> (#[trigger] d.bounds@[k])@ == e.bounds@[k]@,
                decreases d.bounds@.len() - i,
            {
                proof {
                    assert(decreases_to!(d.bounds => d.bounds@));
                    assert(decreases_to!(d.bounds@ => d.bounds@[i as int]));
                }
                if !clause_eq(&d.bounds[i], &e.bounds[i]) {
                    assert(a@->Dyn_1[i as int] != b@->Dyn_1[i as int]);
                    return false;
                }
                i = i + 1;
            }
            assert(a@->Dyn_1 =~= b@->Dyn_1);
            true
        },
        _ => false,
    }
}

/// Element-wise structural equality.
pub fn tys_eq(xs: &Vec<Ty>, ys: &Vec<Ty>) -> (r: bool)
    ensures
        r == (xs@.len() == ys@.len() && forall|i: int| 0 <= i < xs@.len() ==> (#[trigger] xs@[i])@ == ys@[i]@),
    decreases *xs, 0nat,
{
    if xs.len() != ys.len() {
        return false;
    }
    let mut i: usize = 0;
    while i < xs.len()
        invariant
            xs@.len() == ys@.len(),
            i <= xs@.len(),
            forall|k: int| 0 <= k < i ==> (#[trigger] xs@[k])@ == ys@[k]@,
        decreases xs@.len() - i,
    {
        proof {
            assert(decreases_to!(*xs => xs@));
            assert(decreases_to!(xs@ => xs@[i as int]));
        }
        if !ty_eq(&xs[i], &ys[i]) {
            return false;
        }
        i = i + 1;
    }
    true
}

/// Structural equality of two where-clauses.
pub fn clause_eq(c: &WhereClause, d: &WhereClause) -> (r: bool)
    ensures
        r == (c@ == d@),
    decreases *c, 1nat,
{
    match (c, d) {
        (
            WhereClause::Implemented { trait_id: i, substitution: xs },
            WhereClause::Implemented { trait_id: j, substitution: ys },
        ) => {
            proof {
                assert(decreases_to!(*c => (*c)->Implemented_substitution));
            }
            if *i != *j {
                return false;
            }
            let r = tys_eq(xs, ys);
            if r {
                assert(c@->Implemented_1 =~= d@->Implemented_1);
            } else {
                proof {
                    if c@ == d@ {
                        assert(c@->Implemented_1.len() == xs@.len());
                        assert(d@->Implemented_1.len() == ys@.len());
                        assert forall|k: int| 0 <= k < xs@.len() implies (#[trigger] xs@[k])@ == ys@[k]@ by {
                            assert(c@->Implemented_1[k] == xs@[k]@);
                            assert(d@->Implemented_1[k] == ys@[k]@);
                        }
                    }
                }
            }
            r
        },
        (WhereClause::AliasEq { alias: al, ty: t }, WhereClause::AliasEq { alias: bl, ty: u }) => {
            if !ty_eq(t, u) {
                return false;
            }
            match (al, bl) {
                (
                    AliasTy::Projection { associated_ty_id: i, substitution: xs },
                    AliasTy::Projection { associated_ty_id: j, substitution: ys },
                ) => {
                    proof {
                        assert(decreases_to!(*c => (*c)->AliasEq_alias));
                        assert(decreases_to!(*al => (*al)->Projection_substitution));
                    }
                    if *i != *j {
                        return false;
                    }
                    let r = tys_eq(xs, ys);
                    if r {
                        assert(c@->ProjectionEq_1 =~= d@->ProjectionEq_1);
                    } else {
                        proof {
                            if c@ == d@ {
                                assert(c@->ProjectionEq_1.len() == xs@.len());
                                assert(d@->ProjectionEq_1.len() == ys@.len());
                                assert forall|k: int| 0 <= k < xs@.len() implies (#[trigger] xs@[k])@ == ys@[k]@ by {
                                    assert(c@->ProjectionEq_1[k] == xs@[k]@);
                                    assert(d@->ProjectionEq_1[k] == ys@[k]@);
                                }
                            }
                        }
                    }
                    r
                },
                (AliasTy::Opaque(i), AliasTy::Opaque(j)) => *i == *j,
                _ => false,
            }
        },
        (WhereClause::TypeOutlives(t), WhereClause::TypeOutlives(u)) => ty_eq(t, u),
        _ => false,
    }
}

/// Whether no erased receiver stands outside a dynamic type's bounds in `t`.
pub fn is_receiver_free(t: &Ty) -> (r: bool)
    ensures
        r == receiver_free(t@),
    decreases *t,
{
    match t {
        Ty::DynSelf => false,
        Ty::Ref(_, b) => is_receiver_free(b),
        Ty::Closure(_, b) => is_receiver_free(b),
        Ty::Adt(_, xs) => {
            proof {
                assert(decreases_to!(*t => (*t)->Adt_1));
            }
            let r = all_receiver_free(xs);
            assert(forall|j: int| #![trigger t@->Adt_1[j]] #![trigger xs@[j]] 0 <= j < xs@.len() ==> t@->Adt_1[j] == xs@[j]@);
            r
        },
        Ty::Tuple(xs) => {
            proof {
                assert(decreases_to!(*t => (*t)->Tuple_0));
            }
            let r = all_receiver_free(xs);
            assert(forall|j: int| #![trigger t@->Tuple_0[j]] #![trigger xs@[j]] 0 <= j < xs@.len() ==> t@->Tuple_0[j] == xs@[j]@);
            r
        },
        Ty::Function(fp) => {
            proof {
                assert(decreases_to!(*t => (*t)->Function_0));
                assert(decreases_to!(*fp => fp.substitution));
            }
            let r = all_receiver_free(&fp.substitution);
            assert(forall|j: int| #![trigger t@->Function_2[j]] #![trigger fp.substitution@[j]] 0 <= j < fp.substitution@.len() ==> t@->Function_2[j] == fp.substitution@[j]@);
            r
        },
        _ => true,
    }
}

fn all_receiver_free(xs: &Vec<Ty>) -> (r: bool)
    ensures
        r == (forall|i: int| 0 <= i < xs@.len() ==> receiver_free(#[trigger] xs@[i]@)),
    decreases *xs,
{
    let mut i: usize = 0;
    while i < xs.len()
        invariant
            i <= xs@.len(),
            forall|j: int| 0 <= j < i ==> receiver_free(#[trigger] xs@[j]@),
        decreases xs@.len() - i,
    {
        proof {
            assert(decreases_to!(*xs => xs@));
            assert(decreases_to!(xs@ => xs@[i as int]));
        }
        if !is_receiver_free(&xs[i]) {
            return false;
        }
        i = i + 1;
    }
    true
}

} // verus!
