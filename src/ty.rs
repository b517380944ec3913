//! Type terms, where-clauses and their mathematical models.
use vstd::prelude::*;

verus! {

/// Built-in scalar types.
#[derive(PartialEq, Eq, Structural, Clone, Copy, Debug)]
pub enum Scalar {
    Bool,
    Char,
    I32,
    I64,
    U32,
    U64,
    Usize,
    Str,
}

/// A type term.
#[derive(Debug, PartialEq, Eq)]
pub enum Ty {
    /// An inference variable, numbered by the table that created it.
    Var(u64),
    /// A placeholder bound by an enclosing binder.
    Bound(u32),
    /// The erased receiver of a dynamic type's bound list.
    DynSelf,
    /// The unknown / error type.
    Error,
    Scalar(Scalar),
    /// A nominal type with its generic arguments.
    Adt(u32, Vec<Ty>),
    /// A reference; `true` for an exclusive one.
    Ref(bool, Box<Ty>),
    Tuple(Vec<Ty>),
    Function(FnPointer),
    /// A closure: its identity and its in-progress signature type.
    Closure(u32, Box<Ty>),
    Dyn(DynTy),
}

/// A function pointer: parameter types followed by the return type in
/// `substitution`, wrapped in `num_binders` still-open placeholder slots.
#[derive(Debug, PartialEq, Eq)]
pub struct FnPointer {
    pub num_binders: u32,
    pub sig: FnSig,
    pub substitution: Vec<Ty>,
}

/// Calling-convention markers of a function pointer.
#[derive(PartialEq, Eq, Structural, Clone, Copy, Debug)]
pub struct FnSig {
    pub safe: bool,
    pub variadic: bool,
}

/// A dynamic trait-object type: an ordered bound list under a binder of
/// rank `num_binders`; the receiver inside the bounds is `Ty::DynSelf`.
#[derive(Debug, PartialEq, Eq)]
pub struct DynTy {
    pub num_binders: u32,
    pub bounds: Vec<WhereClause>,
}

#[derive(Debug, PartialEq, Eq)]
pub enum AliasTy {
    /// `<subst[0] as Trait<subst[1..]>>::Assoc`
    Projection { associated_ty_id: u32, substitution: Vec<Ty> },
    Opaque(u32),
}

#[derive(Debug, PartialEq, Eq)]
pub enum WhereClause {
    Implemented { trait_id: u32, substitution: Vec<Ty> },
    /// `alias == ty`
    AliasEq { alias: AliasTy, ty: Box<Ty> },
    TypeOutlives(Box<Ty>),
}

// ---------------------------------------------------------------------------
// Models
// ---------------------------------------------------------------------------

/// Mathematical model of a type term.
pub enum TyM {
    Var(u64),
    Bound(u32),
    DynSelf,
    Error,
    Scalar(Scalar),
    Adt(u32, Seq<TyM>),
    Ref(bool, Box<TyM>),
    Tuple(Seq<TyM>),
    /// rank, markers, parameters followed by the return type
    Function(u32, FnSig, Seq<TyM>),
    Closure(u32, Box<TyM>),
    /// rank, bound list
    Dyn(u32, Seq<ClauseM>),
}

/// Mathematical model of a where-clause.
pub enum ClauseM {
    Implemented(u32, Seq<TyM>),
    ProjectionEq(u32, Seq<TyM>, TyM),
    OpaqueEq(u32, TyM),
    Outlives(TyM),
}

pub open spec fn ty_model(t: Ty) -> TyM
    decreases t,
{
    match t {
        Ty::Var(v) => TyM::Var(v),
        Ty::Bound(i) => TyM::Bound(i),
        Ty::DynSelf => TyM::DynSelf,
        Ty::Error => TyM::Error,
        Ty::Scalar(s) => TyM::Scalar(s),
        Ty::Adt(id, xs) => TyM::Adt(
            id,
            Seq::new(xs@.len(), |i: int| if 0 <= i < xs@.len() { ty_model(xs@[i]) } else { TyM::Error }),
        ),
        Ty::Ref(m, b) => TyM::Ref(m, Box::new(ty_model(*b))),
        Ty::Tuple(xs) => TyM::Tuple(
            Seq::new(xs@.len(), |i: int| if 0 <= i < xs@.len() { ty_model(xs@[i]) } else { TyM::Error }),
        ),
        Ty::Function(f) => TyM::Function(
            f.num_binders,
            f.sig,
            Seq::new(
                f.substitution@.len(),
                |i: int|
                    if 0 <= i < f.substitution@.len() {
                        ty_model(f.substitution@[i])
                    } else {
                        TyM::Error
                    },
            ),
        ),
        Ty::Closure(id, b) => TyM::Closure(id, Box::new(ty_model(*b))),
        Ty::Dyn(d) => TyM::Dyn(
            d.num_binders,
            Seq::new(
                d.bounds@.len(),
                |i: int|
                    if 0 <= i < d.bounds@.len() {
                        clause_model(d.bounds@[i])
                    } else {
                        ClauseM::Outlives(TyM::Error)
                    },
            ),
        ),
    }
}

pub open spec fn clause_model(c: WhereClause) -> ClauseM
    decreases c,
{
    match c {
        WhereClause::Implemented { trait_id, substitution } => ClauseM::Implemented(
            trait_id,
            Seq::new(
                substitution@.len(),
                |i: int|
                    if 0 <= i < substitution@.len() {
                        ty_model(substitution@[i])
                    } else {
                        TyM::Error
                    },
            ),
        ),
        WhereClause::AliasEq { alias, ty } => match alias {
            AliasTy::Projection { associated_ty_id, substitution } => ClauseM::ProjectionEq(
                associated_ty_id,
                Seq::new(
                    substitution@.len(),
                    |i: int|
                        if 0 <= i < substitution@.len() {
                            ty_model(substitution@[i])
                        } else {
                            TyM::Error
                        },
                ),
                ty_model(*ty),
            ),
            AliasTy::Opaque(id) => ClauseM::OpaqueEq(id, ty_model(*ty)),
        },
        WhereClause::TypeOutlives(ty) => ClauseM::Outlives(ty_model(*ty)),
    }
}

impl View for Ty {
    type V = TyM;

    open spec fn view(&self) -> TyM {
        ty_model(*self)
    }
}

impl View for WhereClause {
    type V = ClauseM;

    open spec fn view(&self) -> ClauseM {
        clause_model(*self)
    }
}

impl FnPointer {
    /// The function-pointer type term made of this pointer.
    pub open spec fn ty_view(&self) -> TyM {
        ty_model(Ty::Function(*self))
    }
}

impl DynTy {
    pub open spec fn ty_view(&self) -> TyM {
        ty_model(Ty::Dyn(*self))
    }
}

} // verus!
