//! Queries of components: which component types a view of entities reads
//! and which it changes.

use core::marker::PhantomData;
use vstd::prelude::*;
use crate::component::archetype::storage::contains_id;
use crate::component::Component;
use crate::entity::Entity;
use crate::query::validate::{ClaimId, single_claim, QueryValidator, QueryValidatorEntryState};
use crate::util::claims::{join_maps, merged, Claim};

pub mod filter;

pub use filter::{
    And, ComponentFilter, ComponentFilterGroup, False, Nand, Nor, Not, Or, True, With, Without,
    Xnor, Xor,
};

verus! {

/// A query that asks for components of entities.
pub trait ComponentQuery {
    /// Whether an archetype with these component types has everything that
    /// the query cannot do without.
    spec fn subset(column_types: Seq<u64>) -> bool;

    /// The component types that the query accesses, each with the way it does.
    spec fn claims() -> Map<ClaimId, QueryValidatorEntryState>;

    /// The component types that the query accesses, in the order in which
    /// its validator lists them, each with its name and the way it is
    /// accessed.
    spec fn component_entries() -> Seq<Claim<QueryValidatorEntryState>>;

    /// Whether the query changes no component: a view for it takes its
    /// archetypes for reading, and shares them with other such views.
    spec fn reads_only() -> bool;

    /// Returns `true` if an archetype with these component types has
    /// everything that the query cannot do without.
    /// Returns `true` if the query changes no component.
    fn is_read_only() -> (b: bool)
        ensures
            b == Self::reads_only(),
    ;

    fn is_subset_of_archetype(column_types: &Vec<u64>) -> (b: bool)
        ensures
            b == Self::subset(column_types@),
    ;

    /// The validator of the query: the join of what its parts ask for.
    fn validate() -> (validator: QueryValidator)
        ensures
            validator.wf(),
            validator@ == Self::claims(),
            validator.component_entries() == Self::component_entries(),
            validator.resource_entries() == Seq::<Claim<QueryValidatorEntryState>>::empty(),
    ;
}

/// A query of components that only reads.
pub trait ReadOnlyComponentQuery: ComponentQuery {
    /// Every component type that the query accesses is only read, and the
    /// query says so.
    proof fn lemma_read_only()
        ensures
            Self::reads_only(),
            forall|id: ClaimId| #[trigger]
                Self::claims().dom().contains(id) ==> Self::claims()[id] is Immutable,
    ;
}

/// No component types at all.
pub open spec fn no_claims() -> Map<ClaimId, QueryValidatorEntryState> {
    Map::<ClaimId, QueryValidatorEntryState>::empty()
}

impl ComponentQuery for () {
    open spec fn subset(column_types: Seq<u64>) -> bool {
        true
    }

    open spec fn reads_only() -> bool {
        true
    }

    open spec fn component_entries() -> Seq<Claim<QueryValidatorEntryState>> {
        Seq::empty()
    }

    open spec fn claims() -> Map<ClaimId, QueryValidatorEntryState> {
        no_claims()
    }

    fn is_read_only() -> (b: bool) {
        true
    }

    fn is_subset_of_archetype(column_types: &Vec<u64>) -> (b: bool) {
        true
    }

    fn validate() -> (validator: QueryValidator) {
        QueryValidator::empty()
    }
}

impl ReadOnlyComponentQuery for () {
    proof fn lemma_read_only() {
    }
}

impl ComponentQuery for Entity {
    open spec fn subset(column_types: Seq<u64>) -> bool {
        true
    }

    open spec fn reads_only() -> bool {
        true
    }

    open spec fn component_entries() -> Seq<Claim<QueryValidatorEntryState>> {
        Seq::empty()
    }

    open spec fn claims() -> Map<ClaimId, QueryValidatorEntryState> {
        no_claims()
    }

    fn is_read_only() -> (b: bool) {
        true
    }

    fn is_subset_of_archetype(column_types: &Vec<u64>) -> (b: bool) {
        true
    }

    fn validate() -> (validator: QueryValidator) {
        QueryValidator::empty()
    }
}

impl ReadOnlyComponentQuery for Entity {
    proof fn lemma_read_only() {
    }
}

impl<'a, C: Component> ComponentQuery for &'a C {
    open spec fn subset(column_types: Seq<u64>) -> bool {
        column_types.contains(C::spec_type_info().type_id)
    }

    open spec fn reads_only() -> bool {
        true
    }

    open spec fn component_entries() -> Seq<Claim<QueryValidatorEntryState>> {
        seq![
            Claim { id: C::spec_type_info().type_id, name: C::spec_type_info().name,
                state: QueryValidatorEntryState::Immutable },
        ]
    }

    open spec fn claims() -> Map<ClaimId, QueryValidatorEntryState> {
        single_claim(ClaimId::Component(C::spec_type_info().type_id),
            QueryValidatorEntryState::Immutable)
    }

    fn is_read_only() -> (b: bool) {
        true
    }

    fn is_subset_of_archetype(column_types: &Vec<u64>) -> (b: bool) {
        contains_id(column_types, C::type_info().type_id)
    }

    fn validate() -> (validator: QueryValidator) {
        let info = C::type_info();
        QueryValidator::of_immutable(info.type_id, info.name)
    }
}

impl<'a, C: Component> ReadOnlyComponentQuery for &'a C {
    proof fn lemma_read_only() {
    }
}

impl<'a, C: Component> ComponentQuery for &'a mut C {
    open spec fn subset(column_types: Seq<u64>) -> bool {
        column_types.contains(C::spec_type_info().type_id)
    }

    open spec fn reads_only() -> bool {
        false
    }

    open spec fn component_entries() -> Seq<Claim<QueryValidatorEntryState>> {
        seq![
            Claim { id: C::spec_type_info().type_id, name: C::spec_type_info().name,
                state: QueryValidatorEntryState::Mutable },
        ]
    }

    open spec fn claims() -> Map<ClaimId, QueryValidatorEntryState> {
        single_claim(ClaimId::Component(C::spec_type_info().type_id),
            QueryValidatorEntryState::Mutable)
    }

    fn is_read_only() -> (b: bool) {
        false
    }

    fn is_subset_of_archetype(column_types: &Vec<u64>) -> (b: bool) {
        contains_id(column_types, C::type_info().type_id)
    }

    fn validate() -> (validator: QueryValidator) {
        let info = C::type_info();
        QueryValidator::of_mutable(info.type_id, info.name)
    }
}

impl<Q: ComponentQuery> ComponentQuery for Option<Q> {
    open spec fn subset(column_types: Seq<u64>) -> bool {
        true
    }

    open spec fn reads_only() -> bool {
        Q::reads_only()
    }

    open spec fn component_entries() -> Seq<Claim<QueryValidatorEntryState>> {
        Q::component_entries()
    }

    open spec fn claims() -> Map<ClaimId, QueryValidatorEntryState> {
        Q::claims()
    }

    fn is_read_only() -> (b: bool) {
        Q::is_read_only()
    }

    fn is_subset_of_archetype(column_types: &Vec<u64>) -> (b: bool) {
        true
    }

    fn validate() -> (validator: QueryValidator) {
        Q::validate()
    }
}

impl<T0: ComponentQuery> ComponentQuery for (T0,) {
    open spec fn subset(column_types: Seq<u64>) -> bool {
        T0::subset(column_types)
    }

    open spec fn reads_only() -> bool {
        T0::reads_only()
    }

    open spec fn component_entries() -> Seq<Claim<QueryValidatorEntryState>> {
        merged(Seq::empty(), T0::component_entries())
    }

    open spec fn claims() -> Map<ClaimId, QueryValidatorEntryState> {
        join_maps(no_claims(), T0::claims())
    }

    fn is_read_only() -> (b: bool) {
        T0::is_read_only()
    }

    fn is_subset_of_archetype(column_types: &Vec<u64>) -> (b: bool) {
        T0::is_subset_of_archetype(column_types)
    }

    fn validate() -> (validator: QueryValidator) {
        let mut qv = QueryValidator::empty();
        qv = QueryValidator::join(qv, T0::validate());
        qv
    }
}

impl<T0: ComponentQuery, T1: ComponentQuery> ComponentQuery for (T0, T1) {
    open spec fn subset(column_types: Seq<u64>) -> bool {
        T0::subset(column_types) && T1::subset(column_types)
    }

    open spec fn reads_only() -> bool {
        T0::reads_only() && T1::reads_only()
    }

    open spec fn component_entries() -> Seq<Claim<QueryValidatorEntryState>> {
        merged(merged(Seq::empty(), T0::component_entries()), T1::component_entries())
    }

    open spec fn claims() -> Map<ClaimId, QueryValidatorEntryState> {
        join_maps(join_maps(no_claims(), T0::claims()), T1::claims())
    }

    fn is_read_only() -> (b: bool) {
        T0::is_read_only() && T1::is_read_only()
    }

    fn is_subset_of_archetype(column_types: &Vec<u64>) -> (b: bool) {
        T0::is_subset_of_archetype(column_types) && T1::is_subset_of_archetype(column_types)
    }

    fn validate() -> (validator: QueryValidator) {
        let mut qv = QueryValidator::empty();
        qv = QueryValidator::join(qv, T0::validate());
        qv = QueryValidator::join(qv, T1::validate());
        qv
    }
}

impl<T0: ComponentQuery, T1: ComponentQuery, T2: ComponentQuery> ComponentQuery for (T0, T1, T2) {
    open spec fn subset(column_types: Seq<u64>) -> bool {
        T0::subset(column_types) && T1::subset(column_types) && T2::subset(column_types)
    }

    open spec fn reads_only() -> bool {
        T0::reads_only() && T1::reads_only() && T2::reads_only()
    }

    open spec fn component_entries() -> Seq<Claim<QueryValidatorEntryState>> {
        merged(merged(merged(Seq::empty(), T0::component_entries()), T1::component_entries()),
            T2::component_entries())
    }

    open spec fn claims() -> Map<ClaimId, QueryValidatorEntryState> {
        join_maps(join_maps(join_maps(no_claims(), T0::claims()), T1::claims()), T2::claims())
    }

    fn is_read_only() -> (b: bool) {
        T0::is_read_only() && T1::is_read_only() && T2::is_read_only()
    }

    fn is_subset_of_archetype(column_types: &Vec<u64>) -> (b: bool) {
        T0::is_subset_of_archetype(column_types) && T1::is_subset_of_archetype(column_types)
            && T2::is_subset_of_archetype(column_types)
    }

    fn validate() -> (validator: QueryValidator) {
        let mut qv = QueryValidator::empty();
        qv = QueryValidator::join(qv, T0::validate());
        qv = QueryValidator::join(qv, T1::validate());
        qv = QueryValidator::join(qv, T2::validate());
        qv
    }
}

impl<
    T0: ComponentQuery,
    T1: ComponentQuery,
    T2: ComponentQuery,
    T3: ComponentQuery,
> ComponentQuery for (T0, T1, T2, T3) {
    open spec fn subset(column_types: Seq<u64>) -> bool {
        T0::subset(column_types) && T1::subset(column_types) && T2::subset(column_types)
            && T3::subset(column_types)
    }

    open spec fn reads_only() -> bool {
        T0::reads_only() && T1::reads_only() && T2::reads_only() && T3::reads_only()
    }

    open spec fn component_entries() -> Seq<Claim<QueryValidatorEntryState>> {
        merged(
            merged(merged(merged(Seq::empty(), T0::component_entries()), T1::component_entries()),
                T2::component_entries()),
            T3::component_entries(),
        )
    }

    open spec fn claims() -> Map<ClaimId, QueryValidatorEntryState> {
        join_maps(
            join_maps(join_maps(join_maps(no_claims(), T0::claims()), T1::claims()), T2::claims()),
            T3::claims(),
        )
    }

    fn is_read_only() -> (b: bool) {
        T0::is_read_only() && T1::is_read_only() && T2::is_read_only() && T3::is_read_only()
    }

    fn is_subset_of_archetype(column_types: &Vec<u64>) -> (b: bool) {
        T0::is_subset_of_archetype(column_types) && T1::is_subset_of_archetype(column_types)
            && T2::is_subset_of_archetype(column_types) && T3::is_subset_of_archetype(column_types)
    }

    fn validate() -> (validator: QueryValidator) {
        let mut qv = QueryValidator::empty();
        qv = QueryValidator::join(qv, T0::validate());
        qv = QueryValidator::join(qv, T1::validate());
        qv = QueryValidator::join(qv, T2::validate());
        qv = QueryValidator::join(qv, T3::validate());
        qv
    }
}

/// A query whose parts only read only reads.
pub proof fn lemma_join_read_only(
    a: Map<ClaimId, QueryValidatorEntryState>,
    b: Map<ClaimId, QueryValidatorEntryState>,
)
    requires
        forall|id: ClaimId| #[trigger] a.dom().contains(id) ==> a[id] is Immutable,
        forall|id: ClaimId| #[trigger] b.dom().contains(id) ==> b[id] is Immutable,
    ensures
        forall|id: ClaimId| #[trigger]
            join_maps(a, b).dom().contains(id) ==> join_maps(a, b)[id] is Immutable,
{
    assert forall|id: ClaimId| #[trigger] join_maps(a, b).dom().contains(id) implies join_maps(
        a,
        b,
    )[id] is Immutable by {
        if a.dom().contains(id) {
            assert(a[id] is Immutable);
        }
        if b.dom().contains(id) {
            assert(b[id] is Immutable);
        }
    }
}

impl<Q: ReadOnlyComponentQuery> ReadOnlyComponentQuery for Option<Q> {
    proof fn lemma_read_only() {
        Q::lemma_read_only();
    }
}

impl<T0: ReadOnlyComponentQuery> ReadOnlyComponentQuery for (T0,) {
    proof fn lemma_read_only() {
        T0::lemma_read_only();
        lemma_join_read_only(no_claims(), T0::claims());
    }
}

impl<T0: ReadOnlyComponentQuery, T1: ReadOnlyComponentQuery> ReadOnlyComponentQuery for (T0, T1) {
    proof fn lemma_read_only() {
        T0::lemma_read_only();
        T1::lemma_read_only();
        lemma_join_read_only(no_claims(), T0::claims());
        lemma_join_read_only(join_maps(no_claims(), T0::claims()), T1::claims());
    }
}

impl<
    T0: ReadOnlyComponentQuery,
    T1: ReadOnlyComponentQuery,
    T2: ReadOnlyComponentQuery,
> ReadOnlyComponentQuery for (T0, T1, T2) {
    proof fn lemma_read_only() {
        T0::lemma_read_only();
        T1::lemma_read_only();
        T2::lemma_read_only();
        lemma_join_read_only(no_claims(), T0::claims());
        lemma_join_read_only(join_maps(no_claims(), T0::claims()), T1::claims());
        lemma_join_read_only(
            join_maps(join_maps(no_claims(), T0::claims()), T1::claims()),
            T2::claims(),
        );
    }
}

impl<
    T0: ReadOnlyComponentQuery,
    T1: ReadOnlyComponentQuery,
    T2: ReadOnlyComponentQuery,
    T3: ReadOnlyComponentQuery,
> ReadOnlyComponentQuery for (T0, T1, T2, T3) {
    proof fn lemma_read_only() {
        T0::lemma_read_only();
        T1::lemma_read_only();
        T2::lemma_read_only();
        T3::lemma_read_only();
        lemma_join_read_only(no_claims(), T0::claims());
        lemma_join_read_only(join_maps(no_claims(), T0::claims()), T1::claims());
        lemma_join_read_only(
            join_maps(join_maps(no_claims(), T0::claims()), T1::claims()),
            T2::claims(),
        );
        lemma_join_read_only(
            join_maps(join_maps(join_maps(no_claims(), T0::claims()), T1::claims()), T2::claims()),
            T3::claims(),
        );
    }
}

} // verus!
