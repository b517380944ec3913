//! Deduction of a closure's signature from the type expected at its use site.
use vstd::prelude::*;
use smallvec::SmallVec;
use crate::subst::{
    all_vars, clause_vars, deep_clone, lemma_erase_receiver_free, receiver_free, sub_clause, sub_ty,
    substitute_clauses, Sub, Subst,
};
use crate::table::{
    apply, below, closed, coerces, keeps, lemma_apply_closed, lemma_apply_resolves,
    lemma_erase_apply_commute_clause, lemma_mono, lemma_mono_clause, lemma_unifiable_resolved,
    lemma_vars_clause, scoped, solved_stay, unbound_in, unifiable, coercible, extends, wf_bindings,
    InferenceTable,
};
use crate::ty::{AliasTy, ClauseM, DynTy, FnPointer, FnSig, Ty, TyM, WhereClause};

verus! {

// ---------------------------------------------------------------------------
// The callable-trait set
// ---------------------------------------------------------------------------

/// The callable-trait set of one compilation unit, held inline in a small
/// vector as the set has at most three members.
#[verifier::external_body]
pub struct TraitIdSet {
    ids: SmallVec<[u32; 3]>,
}

/// The trait identifiers that a set holds, in order.
pub uninterp spec fn trait_ids(v: TraitIdSet) -> Seq<u32>;

impl TraitIdSet {
    /// Relies on `SmallVec::new`: an empty vector.
    #[verifier::external_body]
    fn new() -> (r: TraitIdSet)
        ensures
            trait_ids(r) == Seq::<u32>::empty(),
    {
        TraitIdSet { ids: SmallVec::new() }
    }

    /// Relies on `SmallVec::push`: appends one item; it panics only when the
    /// length would overflow `usize`.
    #[verifier::external_body]
    fn push(&mut self, x: u32)
        requires
            trait_ids(*old(self)).len() < usize::MAX,
        ensures
            trait_ids(*final(self)) == trait_ids(*old(self)).push(x),
    {
        self.ids.push(x)
    }

    /// Relies on `SmallVec`'s deref to a slice and `slice::contains`.
    #[verifier::external_body]
    fn contains(&self, x: u32) -> (r: bool)
        ensures
            r == trait_ids(*self).contains(x),
    {
        self.ids.contains(&x)
    }
}

/// The callable traits of one compilation unit, one per receiver-capture
/// mode; a unit may lack any of them.
#[derive(Clone, Copy, Debug)]
pub struct FnTraitItems {
    pub fn_: Option<u32>,
    pub fn_mut: Option<u32>,
    pub fn_once: Option<u32>,
}

pub open spec fn opt_seq(o: Option<u32>) -> Seq<u32> {
    match o {
        Some(t) => seq![t],
        None => Seq::empty(),
    }
}

impl FnTraitItems {
    /// The present traits, by reference, by mutable reference, by value.
    pub open spec fn ids(&self) -> Seq<u32> {
        opt_seq(self.fn_) + opt_seq(self.fn_mut) + opt_seq(self.fn_once)
    }

    /// The callable-trait set, in capture-mode order.
    pub fn fn_traits(&self) -> (r: TraitIdSet)
        ensures
            trait_ids(r) == self.ids(),
    {
        let mut v = TraitIdSet::new();
        if let Some(t) = self.fn_ {
            v.push(t);
        }
        if let Some(t) = self.fn_mut {
            v.push(t);
        }
        if let Some(t) = self.fn_once {
            v.push(t);
        }
        assert(trait_ids(v) =~= self.ids());
        v
    }
}

/// What deduction reads of the surrounding program: the callable traits and
/// which trait declares each associated type.
#[derive(Debug)]
pub struct TraitEnv {
    pub fn_items: FnTraitItems,
    /// `(associated type, declaring trait)` pairs; the first pair for a
    /// given associated type counts.
    pub assoc_owners: Vec<(u32, u32)>,
}

/// The trait that declares associated type `assoc`, if known.
pub open spec fn owner_of(owners: Seq<(u32, u32)>, assoc: u32) -> Option<u32>
    decreases owners.len(),
{
    if owners.len() == 0 {
        None
    } else if owners[0].0 == assoc {
        Some(owners[0].1)
    } else {
        owner_of(owners.drop_first(), assoc)
    }
}

impl TraitEnv {
    /// The trait that declares associated type `assoc`.
    pub fn associated_ty_trait(&self, assoc: u32) -> (r: Option<u32>)
        ensures
            r == owner_of(self.assoc_owners@, assoc),
    {
        let mut i: usize = 0;
        assert(self.assoc_owners@.skip(0) =~= self.assoc_owners@);
        while i < self.assoc_owners.len()
            invariant
                i <= self.assoc_owners@.len(),
                owner_of(self.assoc_owners@, assoc) == owner_of(self.assoc_owners@.skip(i as int), assoc),
            decreases self.assoc_owners@.len() - i,
        {
            let (a, t) = self.assoc_owners[i];
            assert(self.assoc_owners@.skip(i as int).drop_first() =~= self.assoc_owners@.skip(i + 1));
            if a == assoc {
                return Some(t);
            }
            i = i + 1;
        }
        None
    }
}

// ---------------------------------------------------------------------------
// The scan over a dynamic type's bounds
// ---------------------------------------------------------------------------

/// Calling-convention markers of a deduced signature: safe, not variadic.
pub open spec fn default_sig() -> FnSig {
    FnSig { safe: true, variadic: false }
}

/// What one bound contributes to the scan.
pub enum ScanStep {
    /// Not an associated-type equality: look further.
    Skip,
    /// An equality that does not pin a callable signature: give up.
    Abort,
    /// The signature, as a function-pointer term.
    Found(TyM),
}

pub open spec fn scan_step(c: ClauseM, rank: u32, traits: Seq<u32>, owners: Seq<(u32, u32)>) -> ScanStep {
    match c {
        ClauseM::ProjectionEq(assoc, subst, ret) => match owner_of(owners, assoc) {
            Some(t) => if !traits.contains(t) {
                ScanStep::Abort
            } else if subst.len() > 1 && subst[1] is Tuple {
                ScanStep::Found(TyM::Function(rank, default_sig(), subst[1]->Tuple_0.push(ret)))
            } else {
                ScanStep::Abort
            },
            None => ScanStep::Abort,
        },
        _ => ScanStep::Skip,
    }
}

/// The first bound from index `i` on that decides the scan.
pub open spec fn scan_from(
    cs: Seq<ClauseM>,
    i: int,
    rank: u32,
    traits: Seq<u32>,
    owners: Seq<(u32, u32)>,
) -> Option<TyM>
    decreases cs.len() - i,
{
    if i < 0 || i >= cs.len() {
        None
    } else {
        match scan_step(cs[i], rank, traits, owners) {
            ScanStep::Skip => scan_from(cs, i + 1, rank, traits, owners),
            ScanStep::Abort => None,
            ScanStep::Found(f) => Some(f),
        }
    }
}

/// The bounds with the erased receiver replaced by the error type.
pub open spec fn erased_bounds(cs: Seq<ClauseM>) -> Seq<ClauseM> {
    cs.map_values(|c: ClauseM| sub_clause(c, Sub::Receiver(TyM::Error)))
}

/// The signature that a dynamic type `Dyn(rank, cs)` pins down, if any.
pub open spec fn sig_of_bounds(rank: u32, cs: Seq<ClauseM>, traits: Seq<u32>, owners: Seq<(u32, u32)>) -> Option<TyM> {
    scan_from(erased_bounds(cs), 0, rank, traits, owners)
}

pub open spec fn sig_of_dyn(d: TyM, traits: Seq<u32>, owners: Seq<(u32, u32)>) -> Option<TyM> {
    match d {
        TyM::Dyn(rank, cs) => sig_of_bounds(rank, cs, traits, owners),
        _ => None,
    }
}

pub open spec fn opt_fn_view(r: Option<FnPointer>) -> Option<TyM> {
    match r {
        Some(f) => Some(f.ty_view()),
        None => None,
    }
}

/// A signature found in scoped bounds is scoped.
pub proof fn lemma_scan_scoped(n: nat, cs: Seq<ClauseM>, i: int, rank: u32, traits: Seq<u32>, owners: Seq<(u32, u32)>)
    requires
        forall|k: int| 0 <= k < cs.len() ==> clause_vars(#[trigger] cs[k], below(n)),
        scan_from(cs, i, rank, traits, owners) is Some,
    ensures
        scoped(n, scan_from(cs, i, rank, traits, owners)->0),
    decreases cs.len() - i,
{
    if 0 <= i < cs.len() {
        match scan_step(cs[i], rank, traits, owners) {
            ScanStep::Skip => lemma_scan_scoped(n, cs, i + 1, rank, traits, owners),
            ScanStep::Found(f) => {
                let c = cs[i];
                assert(clause_vars(c, below(n)));
                let subst = c->ProjectionEq_1;
                let elems = subst[1]->Tuple_0;
                assert(all_vars(subst[1], below(n)));
                let s = elems.push(c->ProjectionEq_2);
                assert forall|k: int| 0 <= k < s.len() implies all_vars(#[trigger] s[k], below(n)) by {
                    if k < elems.len() {
                        assert(all_vars(elems[k], below(n)));
                    }
                }
            },
            ScanStep::Abort => {},
        }
    }
}

/// A signature found in erased bounds holds no stray receiver.
pub proof fn lemma_scan_receiver_free(cs: Seq<ClauseM>, i: int, rank: u32, traits: Seq<u32>, owners: Seq<(u32, u32)>)
    requires
        scan_from(erased_bounds(cs), i, rank, traits, owners) is Some,
    ensures
        receiver_free(scan_from(erased_bounds(cs), i, rank, traits, owners)->0),
    decreases cs.len() - i,
{
    let ecs = erased_bounds(cs);
    if 0 <= i < ecs.len() {
        match scan_step(ecs[i], rank, traits, owners) {
            ScanStep::Skip => lemma_scan_receiver_free(cs, i + 1, rank, traits, owners),
            ScanStep::Found(f) => {
                let c = cs[i];
                assert(ecs[i] == sub_clause(c, Sub::Receiver(TyM::Error)));
                let arg = c->ProjectionEq_1[1];
                assert(ecs[i]->ProjectionEq_1[1] == sub_ty(arg, Sub::Receiver(TyM::Error)));
                lemma_erase_receiver_free(arg, TyM::Error);
                lemma_erase_receiver_free(c->ProjectionEq_2, TyM::Error);
                let elems = ecs[i]->ProjectionEq_1[1]->Tuple_0;
                let sq = elems.push(ecs[i]->ProjectionEq_2);
                assert forall|k: int| 0 <= k < sq.len() implies receiver_free(#[trigger] sq[k]) by {
                    if k < elems.len() {
                        assert(receiver_free(elems[k]));
                    }
                }
            },
            ScanStep::Abort => {},
        }
    }
}

/// The bounds with every solved variable replaced by its solution.
pub open spec fn apply_clauses(b: Seq<Option<TyM>>, cs: Seq<ClauseM>) -> Seq<ClauseM> {
    cs.map_values(|c: ClauseM| sub_clause(c, Sub::Table(b)))
}

/// Resolving the bounds resolves the signature they pin.
pub proof fn lemma_scan_apply(
    b: Seq<Option<TyM>>,
    cs: Seq<ClauseM>,
    i: int,
    rank: u32,
    traits: Seq<u32>,
    owners: Seq<(u32, u32)>,
)
    requires
        scan_from(cs, i, rank, traits, owners) is Some,
    ensures
        scan_from(apply_clauses(b, cs), i, rank, traits, owners) == Some(
            apply(b, scan_from(cs, i, rank, traits, owners)->0),
        ),
    decreases cs.len() - i,
{
    let acs = apply_clauses(b, cs);
    if 0 <= i < cs.len() {
        let c = cs[i];
        assert(acs[i] == sub_clause(c, Sub::Table(b)));
        match scan_step(c, rank, traits, owners) {
            ScanStep::Skip => {
                lemma_scan_apply(b, cs, i + 1, rank, traits, owners);
            },
            ScanStep::Found(f) => {
                let arg = c->ProjectionEq_1[1];
                let elems = arg->Tuple_0;
                assert(acs[i]->ProjectionEq_1[1] == sub_ty(arg, Sub::Table(b)));
                let applied = sub_ty(arg, Sub::Table(b))->Tuple_0.push(sub_ty(c->ProjectionEq_2, Sub::Table(b)));
                assert(apply(b, f)->Function_2 =~= applied);
            },
            ScanStep::Abort => {},
        }
    }
}

// ---------------------------------------------------------------------------
// Expectations and the deducer
// ---------------------------------------------------------------------------

/// What type, if any, the context of an expression expects.
#[derive(Debug)]
pub enum Expectation {
    Absent,
    HasType(Ty),
}

impl Expectation {
    /// The expected type, resolved as far as the table knows.
    pub fn to_option(&self, table: &InferenceTable) -> (r: Option<Ty>)
        requires
            table.wf(),
            self is HasType ==> scoped(table@.len(), self->HasType_0@),
        ensures
            self is Absent ==> r is None,
            self is HasType ==> r is Some && r->0@ == apply(table@, self->HasType_0@),
            self is HasType ==> closed(table@, r->0@),
            self is HasType && receiver_free(self->HasType_0@) ==> receiver_free(r->0@),
    {
        match self {
            Expectation::Absent => None,
            Expectation::HasType(t) => Some(table.resolve(t)),
        }
    }
}

/// One inference pass: its table and what it reads of the program.
#[derive(Debug)]
pub struct InferenceContext {
    pub table: InferenceTable,
    pub env: TraitEnv,
}

/// The constraints of one deduction already hold in table `b`, so that
/// running it changes nothing.
pub open spec fn settled(
    b: Seq<Option<TyM>>,
    closure: TyM,
    sig: TyM,
    expectation: Option<TyM>,
    traits: Seq<u32>,
    owners: Seq<(u32, u32)>,
) -> bool {
    match expectation {
        None => true,
        Some(t) => {
            let e = apply(b, t);
            &&& coerces(apply(b, closure), e)
            &&& match sig_of_dyn(e, traits, owners) {
                Some(f) => apply(b, sig) == apply(b, f),
                None => true,
            }
        },
    }
}

pub open spec fn expectation_view(e: Expectation) -> Option<TyM> {
    match e {
        Expectation::Absent => None,
        Expectation::HasType(t) => Some(t@),
    }
}

/// What one deduction does to the table, from `b0` to `b1`:
/// - with no expectation, nothing;
/// - with an expected dynamic type whose bounds pin a signature `f`, the
///   in-progress signature is unified with `f` when it can be, binding no
///   more than every such unifier does, and nothing changes when it cannot;
/// - with an expected dynamic type that pins nothing, nothing;
/// - with another expected type, the closure type is coerced to it when it
///   can be, binding no more than every solution does, and nothing changes
///   when it cannot;
/// and constraints that already hold are left as they are.
pub open spec fn deduce_post(
    b0: Seq<Option<TyM>>,
    b1: Seq<Option<TyM>>,
    closure: TyM,
    sig: TyM,
    expectation: Option<TyM>,
    traits: Seq<u32>,
    owners: Seq<(u32, u32)>,
) -> bool {
    &&& (settled(b0, closure, sig, expectation, traits, owners) ==> b1 == b0)
    &&& (b1 == b0 || settled(b1, closure, sig, expectation, traits, owners))
    &&& match expectation {
        None => b1 == b0,
        Some(t) => {
            let e = apply(b0, t);
            if e is Dyn {
                match sig_of_dyn(e, traits, owners) {
                    Some(f) => {
                        &&& (unifiable(b0, sig, f) ==> apply(b1, sig) == apply(b1, f))
                        &&& (!unifiable(b0, sig, f) ==> b1 == b0)
                        &&& forall|b2: Seq<Option<TyM>>|
                            #[trigger] extends(b0, b2) && apply(b2, sig) == apply(b2, f) ==> extends(b1, b2)
                    },
                    None => b1 == b0,
                }
            } else {
                &&& (coercible(b0, closure, t) ==> coerces(apply(b1, closure), apply(b1, t)))
                &&& (!coercible(b0, closure, t) ==> b1 == b0)
                &&& forall|b2: Seq<Option<TyM>>|
                    #[trigger] extends(b0, b2) && apply(b2, closure) == apply(b2, t) ==> extends(b1, b2)
                &&& (e is Function ==> forall|b2: Seq<Option<TyM>>|
                    #[trigger] extends(b0, b2) && apply(b2, *apply(b0, closure)->Closure_1) == apply(b2, t)
                        ==> extends(b1, b2))
            }
        },
    }
}

/// Deducing twice is deducing once: a second deduction with the same
/// arguments, from the table the first one left, leaves that table as it is.
pub proof fn lemma_deduce_idempotent(
    b0: Seq<Option<TyM>>,
    b1: Seq<Option<TyM>>,
    b2: Seq<Option<TyM>>,
    closure: TyM,
    sig: TyM,
    expectation: Option<TyM>,
    traits: Seq<u32>,
    owners: Seq<(u32, u32)>,
)
    requires
        closure is Closure,
        deduce_post(b0, b1, closure, sig, expectation, traits, owners),
        deduce_post(b1, b2, closure, sig, expectation, traits, owners),
    ensures
        b2 == b1,
{
    if b1 == b0 {
        match expectation {
            None => {},
            Some(t) => {
                let e = apply(b0, t);
                if e is Dyn {
                    match sig_of_dyn(e, traits, owners) {
                        Some(f) => {
                            if unifiable(b0, sig, f) {
                                assert(!(apply(b0, closure) is Var));
                                assert(settled(b0, closure, sig, expectation, traits, owners));
                            }
                        },
                        None => {},
                    }
                } else {
                    if coercible(b0, closure, t) {
                        assert(settled(b0, closure, sig, expectation, traits, owners));
                    }
                }
            },
        }
    }
}

impl InferenceContext {
    /// Searches the bounds of `dyn_ty` for an associated-type equality of a
    /// callable trait, `<Self as FnX<(A, ..)>>::Output == R`, and returns
    /// the signature `(A, ..) -> R` at the rank of the bound list. The first
    /// equality decides: one of a non-callable trait, or whose argument is
    /// missing or not a tuple, ends the search with nothing.
    pub fn deduce_sig_from_dyn_ty(&self, dyn_ty: &DynTy) -> (r: Option<FnPointer>)
        ensures
            opt_fn_view(r) == sig_of_dyn(dyn_ty.ty_view(), self.env.fn_items.ids(), self.env.assoc_owners@),
    {
        let fn_traits = self.env.fn_items.fn_traits();
        let ghost traits = self.env.fn_items.ids();
        let ghost owners = self.env.assoc_owners@;
        let ghost rank = dyn_ty.num_binders;
        let ghost cs = dyn_ty.ty_view()->Dyn_1;
        let self_ty = Ty::Error;
        let bounds = substitute_clauses(&dyn_ty.bounds, &Subst::Receiver(&self_ty));
        let ghost ecs = erased_bounds(cs);
        assert(forall|k: int| #![trigger bounds@[k]] 0 <= k < bounds@.len() ==> bounds@[k]@ == ecs[k]);
        let mut i: usize = 0;
        while i < bounds.len()
            invariant
                bounds@.len() == ecs.len(),
                forall|k: int| #![trigger bounds@[k]] 0 <= k < bounds@.len() ==> bounds@[k]@ == ecs[k],
                i <= bounds@.len(),
                trait_ids(fn_traits) == traits,
                traits == self.env.fn_items.ids(),
                owners == self.env.assoc_owners@,
                rank == dyn_ty.num_binders,
                sig_of_bounds(rank, cs, traits, owners) == scan_from(ecs, i as int, rank, traits, owners),
                sig_of_dyn(dyn_ty.ty_view(), traits, owners) == sig_of_bounds(rank, cs, traits, owners),
            decreases bounds@.len() - i,
        {
            let ghost c = ecs[i as int];
            match &bounds[i] {
                WhereClause::AliasEq { alias: AliasTy::Projection { associated_ty_id, substitution }, ty } => {
                    match self.env.associated_ty_trait(*associated_ty_id) {
                        None => return None,
                        Some(t) => {
                            if !fn_traits.contains(t) {
                                return None;
                            }
                        },
                    }
                    // Skip `Self`, take the argument tuple.
                    if substitution.len() < 2 {
                        return None;
                    }
                    assert(c->ProjectionEq_1[1] == substitution@[1]@);
                    match &substitution[1] {
                        Ty::Tuple(elems) => {
                            let mut sig_tys: Vec<Ty> = Vec::new();
                            let mut j: usize = 0;
                            while j < elems.len()
                                invariant
                                    j <= elems@.len(),
                                    sig_tys@.len() == j,
                                    forall|k: int| 0 <= k < j ==> (#[trigger] sig_tys@[k])@ == elems@[k]@,
                                decreases elems@.len() - j,
                            {
                                sig_tys.push(deep_clone(&elems[j]));
                                j = j + 1;
                            }
                            sig_tys.push(deep_clone(ty));
                            let r = FnPointer {
                                num_binders: dyn_ty.num_binders,
                                sig: FnSig { safe: true, variadic: false },
                                substitution: sig_tys,
                            };
                            assert(r.ty_view()->Function_2 =~= c->ProjectionEq_1[1]->Tuple_0.push(c->ProjectionEq_2));
                            return Some(r);
                        },
                        _ => return None,
                    }
                },
                _ => {},
            }
            i = i + 1;
        }
        None
    }

    /// Refines a closure's in-progress signature `sig_ty` from what its use
    /// site expects. Coerces the closure type `closure_ty` to the expected
    /// type; when that type is dynamic and its bounds pin a signature,
    /// unifies `sig_ty` with it. Nothing fails: a mismatch leaves the table
    /// as the step before left it.
    pub fn deduce_closure_type_from_expectations(
        &mut self,
        closure_ty: &Ty,
        sig_ty: &Ty,
        expectation: &Expectation,
    )
        requires
            old(self).table.wf(),
            scoped(old(self).table@.len(), closure_ty@),
            scoped(old(self).table@.len(), sig_ty@),
            expectation is HasType ==> scoped(old(self).table@.len(), expectation->HasType_0@),
            receiver_free(closure_ty@),
            receiver_free(sig_ty@),
            expectation is HasType ==> receiver_free(expectation->HasType_0@),
            closure_ty@ is Closure,
        ensures
            final(self).table.wf(),
            final(self).env == old(self).env,
            keeps(old(self).table@, final(self).table@),
            solved_stay(old(self).table@, final(self).table@),
            deduce_post(
                old(self).table@,
                final(self).table@,
                closure_ty@,
                sig_ty@,
                expectation_view(*expectation),
                old(self).env.fn_items.ids(),
                old(self).env.assoc_owners@,
            ),
            expectation is HasType && unifiable(old(self).table@, closure_ty@, expectation->HasType_0@)
                ==> coerces(
                apply(final(self).table@, closure_ty@),
                apply(final(self).table@, expectation->HasType_0@),
            ),
    {
        let ghost b0 = self.table@;
        let expected_ty = match expectation.to_option(&self.table) {
            Some(ty) => ty,
            None => return ,
        };
        proof {
            lemma_apply_closed(b0, expected_ty@);
            assert forall|w: u64| unbound_in(b0)(w) && unbound_in(b0)(w) implies #[trigger] below(b0.len())(w) by {}
            lemma_mono(
                expected_ty@,
                unbound_in(b0),
                unbound_in(b0),
                below(b0.len()),
            );
        }
        // Deduction from where-clauses in scope and coercion to a function
        // pointer happen here.
        let coerced = self.table.coerce(closure_ty, &expected_ty);
        let ghost b1 = self.table@;
        proof {
            let t = expectation->HasType_0@;
            assert(apply(b0, t) == apply(b0, expected_ty@));
            assert(apply(b1, t) == apply(b1, expected_ty@));
            assert(coercible(b0, closure_ty@, t) == coercible(b0, closure_ty@, expected_ty@));
            lemma_unifiable_resolved(b0, closure_ty@, t);
            lemma_unifiable_resolved(b0, closure_ty@, expected_ty@);
            assert(unifiable(b0, closure_ty@, t) == unifiable(b0, closure_ty@, expected_ty@));
            assert forall|b2: Seq<Option<TyM>>| #[trigger] extends(b0, b2) implies apply(b2, expected_ty@) == apply(
                b2,
                t,
            ) by {
                crate::table::lemma_resolve_invisible(b0, b2, t);
            }
        }
        // Deduction from an expected dynamic type is done separately.
        if let Ty::Dyn(dyn_ty) = &expected_ty {
            let sig = self.deduce_sig_from_dyn_ty(dyn_ty);
            match sig {
                Some(sig) => {
                    proof {
                        assert(closed(b0, expected_ty@));
                        let cs = expected_ty@->Dyn_1;
                        let ecs = erased_bounds(cs);
                        assert forall|k: int| 0 <= k < ecs.len() implies clause_vars(#[trigger] ecs[k], below(b0.len())) by {
                            assert(clause_vars(cs[k], below(b0.len()))) by {
                                lemma_mono_clause(
                                    cs[k],
                                    unbound_in(b0),
                                    unbound_in(b0),
                                    below(b0.len()),
                                );
                            }
                            lemma_vars_clause(cs[k], Sub::Receiver(TyM::Error), below(b0.len()), below(b0.len()));
                        }
                        lemma_scan_scoped(b0.len(), ecs, 0, dyn_ty.num_binders, self.env.fn_items.ids(), self.env.assoc_owners@);
                        lemma_scan_receiver_free(
                            expected_ty@->Dyn_1,
                            0,
                            dyn_ty.num_binders,
                            self.env.fn_items.ids(),
                            self.env.assoc_owners@,
                        );
                    }
                    let expected_sig_ty = Ty::Function(sig);
                    let unified = self.table.unify(sig_ty, &expected_sig_ty);
                    assert(unified is Ok <==> unifiable(b0, sig_ty@, expected_sig_ty@));
                    proof {
                        if unified is Ok {
                            let bt = self.table@;
                            let t = expectation->HasType_0@;
                            let e = expected_ty@;
                            let cs = e->Dyn_1;
                            let f = expected_sig_ty@;
                            let traits = self.env.fn_items.ids();
                            let owners = self.env.assoc_owners@;
                            assert(apply(b0, t) == apply(b0, e));
                            assert(apply(bt, t) == apply(bt, e));
                            let ae = apply(bt, e);
                            assert(ae is Dyn);
                            assert forall|k: int| 0 <= k < cs.len() implies #[trigger] erased_bounds(ae->Dyn_1)[k]
                                == apply_clauses(bt, erased_bounds(cs))[k] by {
                                lemma_erase_apply_commute_clause(bt, cs[k]);
                            }
                            assert(erased_bounds(ae->Dyn_1) =~= apply_clauses(bt, erased_bounds(cs)));
                            lemma_scan_apply(bt, erased_bounds(cs), 0, e->Dyn_0, traits, owners);
                            assert(sig_of_dyn(ae, traits, owners) == Some(apply(bt, f)));
                            lemma_apply_resolves(bt, f);
                            lemma_apply_closed(bt, apply(bt, f));
                        }
                    }
                },
                None => {},
            }
        }
    }
}

// ---------------------------------------------------------------------------
// Laws
// ---------------------------------------------------------------------------

/// The index of the first associated-type equality of a projection in `cs`
/// is `k`.
pub open spec fn first_equality_at(cs: Seq<ClauseM>, k: int) -> bool {
    &&& 0 <= k < cs.len()
    &&& cs[k] is ProjectionEq
    &&& forall|j: int| 0 <= j < k ==> !(#[trigger] cs[j] is ProjectionEq)
}

proof fn lemma_scan_reaches(cs: Seq<ClauseM>, i: int, k: int, rank: u32, traits: Seq<u32>, owners: Seq<(u32, u32)>)
    requires
        0 <= i <= k,
        first_equality_at(cs, k),
    ensures
        scan_from(cs, i, rank, traits, owners) == scan_from(cs, k, rank, traits, owners),
    decreases k - i,
{
    if i < k {
        assert(!(cs[i] is ProjectionEq));
        lemma_scan_reaches(cs, i + 1, k, rank, traits, owners);
    }
}

/// The first associated-type equality among the bounds decides the
/// deduction alone: the bounds before it are skipped, and none after it is
/// looked at.
pub proof fn lemma_first_equality_decides(
    rank: u32,
    cs: Seq<ClauseM>,
    traits: Seq<u32>,
    owners: Seq<(u32, u32)>,
    k: int,
)
    requires
        first_equality_at(cs, k),
    ensures
        sig_of_bounds(rank, cs, traits, owners) == match scan_step(
            erased_bounds(cs)[k],
            rank,
            traits,
            owners,
        ) {
            ScanStep::Found(f) => Some(f),
            _ => None,
        },
{
    let ecs = erased_bounds(cs);
    assert forall|j: int| 0 <= j < k implies !(#[trigger] ecs[j] is ProjectionEq) by {
        assert(!(cs[j] is ProjectionEq));
    }
    assert(first_equality_at(ecs, k));
    lemma_scan_reaches(ecs, 0, k, rank, traits, owners);
}

/// First match wins: when the first equality is of a callable trait and its
/// argument is a tuple, its signature is the result, whatever follows.
pub proof fn lemma_first_match_wins(
    rank: u32,
    cs: Seq<ClauseM>,
    traits: Seq<u32>,
    owners: Seq<(u32, u32)>,
    k: int,
)
    requires
        first_equality_at(cs, k),
        owner_of(owners, cs[k]->ProjectionEq_0) is Some,
        traits.contains(owner_of(owners, cs[k]->ProjectionEq_0)->0),
        cs[k]->ProjectionEq_1.len() > 1,
        cs[k]->ProjectionEq_1[1] is Tuple,
    ensures
        sig_of_bounds(rank, cs, traits, owners) == Some(
            TyM::Function(
                rank,
                default_sig(),
                erased_bounds(cs)[k]->ProjectionEq_1[1]->Tuple_0.push(erased_bounds(cs)[k]->ProjectionEq_2),
            ),
        ),
{
    lemma_first_equality_decides(rank, cs, traits, owners, k);
    assert(erased_bounds(cs)[k]->ProjectionEq_1[1] == sub_ty(cs[k]->ProjectionEq_1[1], Sub::Receiver(TyM::Error)));
}

/// A non-callable equality aborts: when the first equality's trait is not a
/// callable trait (or unknown), nothing is deduced, even if a later bound
/// would match.
pub proof fn lemma_noncallable_aborts(
    rank: u32,
    cs: Seq<ClauseM>,
    traits: Seq<u32>,
    owners: Seq<(u32, u32)>,
    k: int,
)
    requires
        first_equality_at(cs, k),
        !(owner_of(owners, cs[k]->ProjectionEq_0) is Some && traits.contains(
            owner_of(owners, cs[k]->ProjectionEq_0)->0,
        )),
    ensures
        sig_of_bounds(rank, cs, traits, owners) is None,
{
    lemma_first_equality_decides(rank, cs, traits, owners, k);
}

/// The argument must be a tuple: when the first equality's argument is
/// missing or not a tuple, nothing is deduced.
pub proof fn lemma_argument_must_be_tuple(
    rank: u32,
    cs: Seq<ClauseM>,
    traits: Seq<u32>,
    owners: Seq<(u32, u32)>,
    k: int,
)
    requires
        first_equality_at(cs, k),
        !(cs[k]->ProjectionEq_1.len() > 1 && cs[k]->ProjectionEq_1[1] is Tuple),
    ensures
        sig_of_bounds(rank, cs, traits, owners) is None,
{
    lemma_first_equality_decides(rank, cs, traits, owners, k);
    if cs[k]->ProjectionEq_1.len() > 1 {
        assert(erased_bounds(cs)[k]->ProjectionEq_1[1] == sub_ty(cs[k]->ProjectionEq_1[1], Sub::Receiver(TyM::Error)));
    }
}

proof fn lemma_scan_rank(cs: Seq<ClauseM>, i: int, rank: u32, traits: Seq<u32>, owners: Seq<(u32, u32)>)
    ensures
        scan_from(cs, i, rank, traits, owners) is Some ==> scan_from(cs, i, rank, traits, owners)->0 is Function
            && scan_from(cs, i, rank, traits, owners)->0->Function_0 == rank,
    decreases cs.len() - i,
{
    if 0 <= i < cs.len() {
        lemma_scan_rank(cs, i + 1, rank, traits, owners);
    }
}

/// A deduced signature is wrapped at the rank of the bound list it came
/// from.
pub proof fn lemma_sig_keeps_rank(rank: u32, cs: Seq<ClauseM>, traits: Seq<u32>, owners: Seq<(u32, u32)>)
    ensures
        sig_of_bounds(rank, cs, traits, owners) is Some ==> sig_of_bounds(rank, cs, traits, owners)->0 is Function
            && sig_of_bounds(rank, cs, traits, owners)->0->Function_0 == rank,
{
    lemma_scan_rank(erased_bounds(cs), 0, rank, traits, owners);
}

/// Deduction never weakens a solution: when the table after a deduction
/// keeps every equation of the table before (as the deducer ensures), a
/// variable solved before is solved after, and resolves as its old
/// solution does.
pub proof fn lemma_solutions_kept(before: Seq<Option<TyM>>, after: Seq<Option<TyM>>, v: u64)
    requires
        wf_bindings(before),
        keeps(before, after),
        solved_stay(before, after),
        v < before.len(),
        before[v as int] is Some,
    ensures
        after[v as int] is Some,
        apply(after, TyM::Var(v)) == apply(after, before[v as int]->0),
{
    let s = before[v as int]->0;
    lemma_apply_closed(before, s);
    assert(apply(before, TyM::Var(v)) == s);
    assert(apply(before, TyM::Var(v)) == apply(before, s));
}

} // verus!
