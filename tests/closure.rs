use closure_deduce::closure::{Expectation, FnTraitItems, InferenceContext, TraitEnv};
use closure_deduce::table::{InferenceTable, TypeMismatch};
use closure_deduce::ty::{AliasTy, DynTy, FnPointer, FnSig, Scalar, Ty, WhereClause};

const FN: u32 = 1;
const FN_MUT: u32 = 2;
const FN_ONCE: u32 = 3;
const OTHER_TRAIT: u32 = 9;
const OUTPUT: u32 = 10;
const OTHER_ASSOC: u32 = 11;

fn i32_ty() -> Ty {
    Ty::Scalar(Scalar::I32)
}

fn bool_ty() -> Ty {
    Ty::Scalar(Scalar::Bool)
}

fn safe() -> FnSig {
    FnSig { safe: true, variadic: false }
}

fn fn_ptr(rank: u32, params: Vec<Ty>, ret: Ty) -> FnPointer {
    let mut substitution = params;
    substitution.push(ret);
    FnPointer { num_binders: rank, sig: safe(), substitution }
}

fn env() -> TraitEnv {
    TraitEnv {
        fn_items: FnTraitItems { fn_: Some(FN), fn_mut: Some(FN_MUT), fn_once: Some(FN_ONCE) },
        assoc_owners: vec![(OUTPUT, FN_ONCE), (OTHER_ASSOC, OTHER_TRAIT)],
    }
}

/// `<Self as Trait<arg>>::Assoc == ret`, with the associated type `assoc`.
fn eq_bound(assoc: u32, arg: Ty, ret: Ty) -> WhereClause {
    WhereClause::AliasEq {
        alias: AliasTy::Projection { associated_ty_id: assoc, substitution: vec![Ty::DynSelf, arg] },
        ty: Box::new(ret),
    }
}

fn implemented(trait_id: u32, arg: Ty) -> WhereClause {
    WhereClause::Implemented { trait_id, substitution: vec![Ty::DynSelf, arg] }
}

fn ctx() -> InferenceContext {
    InferenceContext { table: InferenceTable::new(), env: env() }
}

#[test]
fn first_match_wins() {
    // `Fn`'s own output (by reference) first, then `FnOnce::Output` (by value).
    let by_ref_output: u32 = 12;
    let e = TraitEnv {
        fn_items: FnTraitItems { fn_: Some(FN), fn_mut: Some(FN_MUT), fn_once: Some(FN_ONCE) },
        assoc_owners: vec![(by_ref_output, FN), (OUTPUT, FN_ONCE)],
    };
    let c = InferenceContext { table: InferenceTable::new(), env: e };
    let d = DynTy {
        num_binders: 0,
        bounds: vec![
            eq_bound(by_ref_output, Ty::Tuple(vec![i32_ty()]), bool_ty()),
            eq_bound(OUTPUT, Ty::Tuple(vec![i32_ty(), i32_ty()]), i32_ty()),
        ],
    };
    assert_eq!(c.deduce_sig_from_dyn_ty(&d), Some(fn_ptr(0, vec![i32_ty()], bool_ty())));
}

#[test]
fn noncallable_equality_aborts() {
    let c = ctx();
    let d = DynTy {
        num_binders: 0,
        bounds: vec![
            eq_bound(OTHER_ASSOC, Ty::Tuple(vec![]), i32_ty()),
            eq_bound(OUTPUT, Ty::Tuple(vec![i32_ty(), bool_ty()]), bool_ty()),
        ],
    };
    assert_eq!(c.deduce_sig_from_dyn_ty(&d), None);
    // The second bound alone would match.
    let alone = DynTy { num_binders: 0, bounds: vec![eq_bound(OUTPUT, Ty::Tuple(vec![i32_ty(), bool_ty()]), bool_ty())] };
    assert_eq!(c.deduce_sig_from_dyn_ty(&alone), Some(fn_ptr(0, vec![i32_ty(), bool_ty()], bool_ty())));
}

#[test]
fn unknown_declaring_trait_aborts() {
    let c = ctx();
    let d = DynTy {
        num_binders: 0,
        bounds: vec![
            eq_bound(77, Ty::Tuple(vec![i32_ty()]), i32_ty()),
            eq_bound(OUTPUT, Ty::Tuple(vec![i32_ty()]), i32_ty()),
        ],
    };
    assert_eq!(c.deduce_sig_from_dyn_ty(&d), None);
}

#[test]
fn argument_must_be_a_tuple() {
    let mut c = ctx();
    let v = c.table.fresh_variable();
    let d = DynTy { num_binders: 0, bounds: vec![eq_bound(OUTPUT, v, bool_ty())] };
    assert_eq!(c.deduce_sig_from_dyn_ty(&d), None);
    let missing = DynTy {
        num_binders: 0,
        bounds: vec![WhereClause::AliasEq {
            alias: AliasTy::Projection { associated_ty_id: OUTPUT, substitution: vec![Ty::DynSelf] },
            ty: Box::new(bool_ty()),
        }],
    };
    assert_eq!(c.deduce_sig_from_dyn_ty(&missing), None);
}

#[test]
fn non_equality_bounds_are_skipped() {
    let c = ctx();
    let d = DynTy {
        num_binders: 0,
        bounds: vec![
            implemented(FN, Ty::Tuple(vec![i32_ty()])),
            WhereClause::TypeOutlives(Box::new(Ty::DynSelf)),
            WhereClause::AliasEq { alias: AliasTy::Opaque(4), ty: Box::new(i32_ty()) },
            eq_bound(OUTPUT, Ty::Tuple(vec![i32_ty()]), Ty::Tuple(vec![])),
        ],
    };
    assert_eq!(c.deduce_sig_from_dyn_ty(&d), Some(fn_ptr(0, vec![i32_ty()], Ty::Tuple(vec![]))));
}

#[test]
fn empty_bounds_deduce_nothing() {
    let c = ctx();
    let d = DynTy { num_binders: 0, bounds: vec![] };
    assert_eq!(c.deduce_sig_from_dyn_ty(&d), None);
    let only_implemented = DynTy { num_binders: 0, bounds: vec![implemented(FN, Ty::Tuple(vec![]))] };
    assert_eq!(c.deduce_sig_from_dyn_ty(&only_implemented), None);
}

#[test]
fn signature_keeps_binder_rank() {
    let c = ctx();
    let d = DynTy {
        num_binders: 2,
        bounds: vec![eq_bound(OUTPUT, Ty::Tuple(vec![Ty::Bound(0)]), Ty::Bound(1))],
    };
    let sig = c.deduce_sig_from_dyn_ty(&d).unwrap();
    assert_eq!(sig.num_binders, 2);
    assert_eq!(sig, fn_ptr(2, vec![Ty::Bound(0)], Ty::Bound(1)));
}

#[test]
fn receiver_is_erased_in_signature() {
    let c = ctx();
    let d = DynTy {
        num_binders: 0,
        bounds: vec![eq_bound(OUTPUT, Ty::Tuple(vec![Ty::Ref(false, Box::new(Ty::DynSelf))]), Ty::DynSelf)],
    };
    assert_eq!(
        c.deduce_sig_from_dyn_ty(&d),
        Some(fn_ptr(0, vec![Ty::Ref(false, Box::new(Ty::Error))], Ty::Error))
    );
}

#[test]
fn nested_dynamic_type_keeps_its_receiver() {
    let c = ctx();
    let inner = Ty::Dyn(DynTy { num_binders: 0, bounds: vec![implemented(OTHER_TRAIT, Ty::DynSelf)] });
    let inner_copy = Ty::Dyn(DynTy { num_binders: 0, bounds: vec![implemented(OTHER_TRAIT, Ty::DynSelf)] });
    let d = DynTy { num_binders: 0, bounds: vec![eq_bound(OUTPUT, Ty::Tuple(vec![inner]), bool_ty())] };
    assert_eq!(c.deduce_sig_from_dyn_ty(&d), Some(fn_ptr(0, vec![inner_copy], bool_ty())));
}

fn dyn_fn_once(params: Vec<Ty>, ret: Ty) -> Ty {
    Ty::Dyn(DynTy {
        num_binders: 0,
        bounds: vec![implemented(FN_ONCE, Ty::Tuple(vec![])), eq_bound(OUTPUT, Ty::Tuple(params), ret)],
    })
}

/// A closure whose signature is `fn(?a, ?b) -> ?c` over three fresh variables.
fn closure_with_fresh_sig(c: &mut InferenceContext) -> (Ty, Ty, Vec<Ty>) {
    let a = c.table.fresh_variable();
    let b = c.table.fresh_variable();
    let r = c.table.fresh_variable();
    let vars = vec![Ty::Var(0), Ty::Var(1), Ty::Var(2)];
    let sig = Ty::Function(fn_ptr(0, vec![a, b], r));
    let sig_copy = Ty::Function(fn_ptr(0, vec![Ty::Var(0), Ty::Var(1)], Ty::Var(2)));
    (Ty::Closure(0, Box::new(sig_copy)), sig, vars)
}

#[test]
fn end_to_end_dyn_fn_once() {
    let mut c = ctx();
    let (closure, sig, vars) = closure_with_fresh_sig(&mut c);
    let expected = Expectation::HasType(dyn_fn_once(vec![i32_ty(), bool_ty()], bool_ty()));
    c.deduce_closure_type_from_expectations(&closure, &sig, &expected);
    assert_eq!(c.table.resolve(&vars[0]), i32_ty());
    assert_eq!(c.table.resolve(&vars[1]), bool_ty());
    assert_eq!(c.table.resolve(&vars[2]), bool_ty());
    let concrete = Ty::Function(fn_ptr(0, vec![i32_ty(), bool_ty()], bool_ty()));
    assert_eq!(c.table.unify(&sig, &concrete), Ok(()));
    for v in &vars {
        assert!(!matches!(c.table.resolve(v), Ty::Var(_)));
    }
}

#[test]
fn no_expectation_changes_nothing() {
    let mut c = ctx();
    let (closure, sig, vars) = closure_with_fresh_sig(&mut c);
    c.deduce_closure_type_from_expectations(&closure, &sig, &Expectation::Absent);
    assert_eq!(c.table.len(), 3);
    for v in &vars {
        assert_eq!(&c.table.resolve(v), v);
    }
}

#[test]
fn deducing_twice_is_deducing_once() {
    let mut once = ctx();
    let (closure, sig, vars) = closure_with_fresh_sig(&mut once);
    let expected = || Expectation::HasType(dyn_fn_once(vec![i32_ty(), bool_ty()], bool_ty()));
    once.deduce_closure_type_from_expectations(&closure, &sig, &expected());
    let mut twice = ctx();
    let (closure2, sig2, _) = closure_with_fresh_sig(&mut twice);
    twice.deduce_closure_type_from_expectations(&closure2, &sig2, &expected());
    twice.deduce_closure_type_from_expectations(&closure2, &sig2, &expected());
    for v in &vars {
        assert_eq!(once.table.resolve(v), twice.table.resolve(v));
    }
}

#[test]
fn earlier_solutions_are_kept() {
    let mut c = ctx();
    let (closure, sig, vars) = closure_with_fresh_sig(&mut c);
    assert_eq!(c.table.unify(&vars[0], &i32_ty()), Ok(()));
    // The expectation disagrees on the first parameter: nothing is weakened.
    let expected = Expectation::HasType(dyn_fn_once(vec![bool_ty(), bool_ty()], bool_ty()));
    c.deduce_closure_type_from_expectations(&closure, &sig, &expected);
    assert_eq!(c.table.resolve(&vars[0]), i32_ty());
    assert_eq!(c.table.resolve(&vars[1]), Ty::Var(1));
    assert_eq!(c.table.resolve(&vars[2]), Ty::Var(2));
}

#[test]
fn expected_fn_pointer_is_reached_by_coercion() {
    let mut c = ctx();
    let (closure, sig, vars) = closure_with_fresh_sig(&mut c);
    let expected = Expectation::HasType(Ty::Function(fn_ptr(0, vec![bool_ty(), i32_ty()], i32_ty())));
    c.deduce_closure_type_from_expectations(&closure, &sig, &expected);
    assert_eq!(c.table.resolve(&vars[0]), bool_ty());
    assert_eq!(c.table.resolve(&vars[1]), i32_ty());
    assert_eq!(c.table.resolve(&vars[2]), i32_ty());
}

#[test]
fn expectation_is_resolved_through_the_table() {
    let mut c = ctx();
    let (closure, sig, vars) = closure_with_fresh_sig(&mut c);
    let hole = c.table.fresh_variable();
    assert_eq!(c.table.unify(&hole, &dyn_fn_once(vec![i32_ty(), i32_ty()], bool_ty())), Ok(()));
    c.deduce_closure_type_from_expectations(&closure, &sig, &Expectation::HasType(Ty::Var(3)));
    assert_eq!(c.table.resolve(&vars[1]), i32_ty());
    assert_eq!(c.table.resolve(&vars[2]), bool_ty());
}

#[test]
fn other_expected_types_deduce_nothing_from_bounds() {
    let mut c = ctx();
    let (closure, sig, vars) = closure_with_fresh_sig(&mut c);
    c.deduce_closure_type_from_expectations(&closure, &sig, &Expectation::HasType(i32_ty()));
    for v in &vars {
        assert_eq!(&c.table.resolve(v), v);
    }
}

#[test]
fn to_option_resolves() {
    let mut t = InferenceTable::new();
    let v = t.fresh_variable();
    assert!(Expectation::Absent.to_option(&t).is_none());
    assert_eq!(t.unify(&v, &bool_ty()), Ok(()));
    assert_eq!(Expectation::HasType(Ty::Tuple(vec![Ty::Var(0)])).to_option(&t), Some(Ty::Tuple(vec![bool_ty()])));
}

#[test]
fn missing_callable_traits() {
    let none = FnTraitItems { fn_: None, fn_mut: None, fn_once: None };
    let c = InferenceContext { table: InferenceTable::new(), env: TraitEnv { fn_items: none, assoc_owners: vec![(OUTPUT, FN_ONCE)] } };
    let d = DynTy { num_binders: 0, bounds: vec![eq_bound(OUTPUT, Ty::Tuple(vec![]), i32_ty())] };
    assert_eq!(c.deduce_sig_from_dyn_ty(&d), None);
    let only_once = FnTraitItems { fn_: None, fn_mut: None, fn_once: Some(FN_ONCE) };
    let c = InferenceContext { table: InferenceTable::new(), env: TraitEnv { fn_items: only_once, assoc_owners: vec![(OUTPUT, FN_ONCE)] } };
    assert_eq!(c.deduce_sig_from_dyn_ty(&d), Some(fn_ptr(0, vec![], i32_ty())));
}

#[test]
fn associated_ty_trait_first_pair_counts() {
    let e = TraitEnv {
        fn_items: FnTraitItems { fn_: None, fn_mut: None, fn_once: None },
        assoc_owners: vec![(5, 1), (6, 2), (5, 3)],
    };
    assert_eq!(e.associated_ty_trait(5), Some(1));
    assert_eq!(e.associated_ty_trait(6), Some(2));
    assert_eq!(e.associated_ty_trait(7), None);
}

#[test]
fn unify_binds_and_rolls_back() {
    let mut t = InferenceTable::new();
    let a = t.fresh_variable();
    let b = t.fresh_variable();
    let pair = Ty::Tuple(vec![a, b]);
    assert_eq!(t.unify(&pair, &Ty::Tuple(vec![i32_ty(), Ty::Var(0)])), Ok(()));
    assert_eq!(t.resolve(&pair), Ty::Tuple(vec![i32_ty(), i32_ty()]));
    let mut u = InferenceTable::new();
    let x = u.fresh_variable();
    let y = u.fresh_variable();
    // The first element would bind ?0, the second fails: nothing stays bound.
    let lhs = Ty::Tuple(vec![x, i32_ty()]);
    let rhs = Ty::Tuple(vec![bool_ty(), bool_ty()]);
    assert_eq!(u.unify(&lhs, &rhs), Err(TypeMismatch));
    assert_eq!(u.resolve(&Ty::Var(0)), Ty::Var(0));
    assert_eq!(u.resolve(&y), Ty::Var(1));
}

#[test]
fn unify_occurs_check_fails() {
    let mut t = InferenceTable::new();
    let a = t.fresh_variable();
    let boxed = Ty::Adt(7, vec![Ty::Var(0)]);
    assert_eq!(t.unify(&a, &boxed), Err(TypeMismatch));
    assert_eq!(t.unify(&Ty::Var(0), &Ty::Var(0)), Ok(()));
    assert_eq!(t.resolve(&Ty::Var(0)), Ty::Var(0));
}

#[test]
fn unify_mismatches() {
    let mut t = InferenceTable::new();
    assert_eq!(t.unify(&i32_ty(), &bool_ty()), Err(TypeMismatch));
    assert_eq!(t.unify(&Ty::Tuple(vec![i32_ty()]), &Ty::Tuple(vec![])), Err(TypeMismatch));
    assert_eq!(t.unify(&Ty::Ref(true, Box::new(i32_ty())), &Ty::Ref(false, Box::new(i32_ty()))), Err(TypeMismatch));
    assert_eq!(t.unify(&Ty::Error, &i32_ty()), Err(TypeMismatch));
    assert_eq!(t.unify(&Ty::Adt(1, vec![]), &Ty::Adt(1, vec![])), Ok(()));
}

#[test]
fn chained_variables_resolve_fully() {
    let mut t = InferenceTable::new();
    let a = t.fresh_variable();
    let b = t.fresh_variable();
    assert_eq!(t.unify(&a, &b), Ok(()));
    assert_eq!(t.unify(&Ty::Var(1), &bool_ty()), Ok(()));
    assert_eq!(t.resolve(&Ty::Var(0)), bool_ty());
    assert_eq!(t.resolve(&Ty::Var(1)), bool_ty());
}

#[test]
fn coerce_rules() {
    let mut t = InferenceTable::new();
    let v = t.fresh_variable();
    let closure = Ty::Closure(3, Box::new(Ty::Function(fn_ptr(0, vec![Ty::Var(0)], Ty::Tuple(vec![])))));
    let target = Ty::Function(fn_ptr(0, vec![i32_ty()], Ty::Tuple(vec![])));
    assert_eq!(t.coerce(&closure, &target), Ok(()));
    assert_eq!(t.resolve(&v), i32_ty());
    // Unsizing to a dynamic type adds no constraint.
    assert_eq!(t.coerce(&i32_ty(), &dyn_fn_once(vec![], i32_ty())), Ok(()));
    // An exclusive reference coerces to a shared one, not back.
    assert_eq!(t.coerce(&Ty::Ref(true, Box::new(i32_ty())), &Ty::Ref(false, Box::new(i32_ty()))), Ok(()));
    assert_eq!(t.coerce(&Ty::Ref(false, Box::new(i32_ty())), &Ty::Ref(true, Box::new(i32_ty()))), Err(TypeMismatch));
}

#[test]
fn dynamic_types_unify_structurally() {
    let mut t = InferenceTable::new();
    let v = t.fresh_variable();
    let with_var = dyn_fn_once(vec![v], bool_ty());
    let concrete = dyn_fn_once(vec![i32_ty()], bool_ty());
    assert_eq!(t.unify(&with_var, &concrete), Ok(()));
    assert_eq!(t.resolve(&Ty::Var(0)), i32_ty());
    let other = dyn_fn_once(vec![i32_ty(), i32_ty()], bool_ty());
    assert_eq!(t.unify(&concrete, &other), Err(TypeMismatch));
}

#[test]
fn unify_function_pointers_with_variable_slots() {
    let mut t = InferenceTable::new();
    let a = t.fresh_variable();
    let b = t.fresh_variable();
    let f = Ty::Function(fn_ptr(0, vec![a, i32_ty()], b));
    let g = Ty::Function(fn_ptr(0, vec![bool_ty(), Ty::Var(0)], i32_ty()));
    // `?0` appears in both the first and the second parameter slot.
    assert_eq!(t.unify(&f, &g), Err(TypeMismatch));
    let h = Ty::Function(fn_ptr(0, vec![bool_ty(), i32_ty()], Ty::Tuple(vec![])));
    assert_eq!(t.unify(&Ty::Function(fn_ptr(0, vec![Ty::Var(0), i32_ty()], Ty::Var(1))), &h), Ok(()));
    assert_eq!(t.resolve(&Ty::Var(0)), bool_ty());
    assert_eq!(t.resolve(&Ty::Var(1)), Ty::Tuple(vec![]));
}

#[test]
fn closure_coerced_to_fn_pointer_keeps_signature_bindings() {
    let mut c = ctx();
    let (closure, sig, vars) = closure_with_fresh_sig(&mut c);
    let expected = Expectation::HasType(Ty::Function(fn_ptr(0, vec![i32_ty(), i32_ty()], bool_ty())));
    c.deduce_closure_type_from_expectations(&closure, &sig, &expected);
    assert_eq!(c.table.resolve(&vars[0]), i32_ty());
    assert_eq!(c.table.resolve(&vars[1]), i32_ty());
    assert_eq!(c.table.resolve(&vars[2]), bool_ty());
}
