//! Filters: which archetypes a query of entities looks at.
//!
//! A filter looks at the component types of an archetype, never at single
//! rows: it lets every entity of an archetype through, or none.

use core::marker::PhantomData;
use vstd::prelude::*;
use crate::component::archetype::storage::contains_id;
use crate::component::Component;

verus! {

/// A filter on the component types of an archetype.
pub trait ComponentFilter {
    /// Whether the filter lets through the archetype with these component types.
    spec fn matches(column_types: Seq<u64>) -> bool;

    /// Returns `true` if the filter lets through the archetype with these
    /// component types.
    fn archetype_matches(column_types: &Vec<u64>) -> (b: bool)
        ensures
            b == Self::matches(column_types@),
    ;
}

/// Lets through the entities that have a component of type `C`.
pub struct With<C: Component> {
    marker: PhantomData<C>,
}

impl<C: Component> ComponentFilter for With<C> {
    open spec fn matches(column_types: Seq<u64>) -> bool {
        column_types.contains(C::spec_type_info().type_id)
    }

    fn archetype_matches(column_types: &Vec<u64>) -> (b: bool) {
        contains_id(column_types, C::type_info().type_id)
    }
}

/// Lets through the entities that have no component of type `C`.
pub struct Without<C: Component> {
    marker: PhantomData<C>,
}

impl<C: Component> ComponentFilter for Without<C> {
    open spec fn matches(column_types: Seq<u64>) -> bool {
        !column_types.contains(C::spec_type_info().type_id)
    }

    fn archetype_matches(column_types: &Vec<u64>) -> (b: bool) {
        !contains_id(column_types, C::type_info().type_id)
    }
}

/// Lets every entity through.
pub struct True {
    _private: (),
}

impl ComponentFilter for True {
    open spec fn matches(column_types: Seq<u64>) -> bool {
        true
    }

    fn archetype_matches(column_types: &Vec<u64>) -> (b: bool) {
        true
    }
}

/// Lets no entity through.
pub struct False {
    _private: (),
}

impl ComponentFilter for False {
    open spec fn matches(column_types: Seq<u64>) -> bool {
        false
    }

    fn archetype_matches(column_types: &Vec<u64>) -> (b: bool) {
        false
    }
}

/// Lets through what `F` holds back.
pub struct Not<F: ComponentFilter> {
    marker: PhantomData<F>,
}

impl<F: ComponentFilter> ComponentFilter for Not<F> {
    open spec fn matches(column_types: Seq<u64>) -> bool {
        !F::matches(column_types)
    }

    fn archetype_matches(column_types: &Vec<u64>) -> (b: bool) {
        !F::archetype_matches(column_types)
    }
}

/// Lets through what all filters of the group let through.
pub struct And<F: ComponentFilterGroup> {
    marker: PhantomData<F>,
}

impl<F: ComponentFilterGroup> ComponentFilter for And<F> {
    open spec fn matches(column_types: Seq<u64>) -> bool {
        F::matches_all(column_types)
    }

    fn archetype_matches(column_types: &Vec<u64>) -> (b: bool) {
        F::archetype_matches_all(column_types)
    }
}

/// Lets through what some filter of the group holds back.
pub struct Nand<F: ComponentFilterGroup> {
    marker: PhantomData<F>,
}

impl<F: ComponentFilterGroup> ComponentFilter for Nand<F> {
    open spec fn matches(column_types: Seq<u64>) -> bool {
        !F::matches_all(column_types)
    }

    fn archetype_matches(column_types: &Vec<u64>) -> (b: bool) {
        !F::archetype_matches_all(column_types)
    }
}

/// Lets through what some filter of the group lets through.
pub struct Or<F: ComponentFilterGroup> {
    marker: PhantomData<F>,
}

impl<F: ComponentFilterGroup> ComponentFilter for Or<F> {
    open spec fn matches(column_types: Seq<u64>) -> bool {
        F::matches_any(column_types)
    }

    fn archetype_matches(column_types: &Vec<u64>) -> (b: bool) {
        F::archetype_matches_any(column_types)
    }
}

/// Lets through what all filters of the group hold back.
pub struct Nor<F: ComponentFilterGroup> {
    marker: PhantomData<F>,
}

impl<F: ComponentFilterGroup> ComponentFilter for Nor<F> {
    open spec fn matches(column_types: Seq<u64>) -> bool {
        !F::matches_any(column_types)
    }

    fn archetype_matches(column_types: &Vec<u64>) -> (b: bool) {
        !F::archetype_matches_any(column_types)
    }
}

/// Lets through what exactly one filter of the group lets through.
pub struct Xor<F: ComponentFilterGroup> {
    marker: PhantomData<F>,
}

impl<F: ComponentFilterGroup> ComponentFilter for Xor<F> {
    open spec fn matches(column_types: Seq<u64>) -> bool {
        F::matches_one(column_types)
    }

    fn archetype_matches(column_types: &Vec<u64>) -> (b: bool) {
        F::archetype_matches_one(column_types)
    }
}

/// Lets through what none, or more than one, of the filters of the group lets through.
pub struct Xnor<F: ComponentFilterGroup> {
    marker: PhantomData<F>,
}

impl<F: ComponentFilterGroup> ComponentFilter for Xnor<F> {
    open spec fn matches(column_types: Seq<u64>) -> bool {
        !F::matches_one(column_types)
    }

    fn archetype_matches(column_types: &Vec<u64>) -> (b: bool) {
        !F::archetype_matches_one(column_types)
    }
}

/// A group of filters: one filter, or a tuple of groups.
pub trait ComponentFilterGroup {
    /// Whether all filters of the group let the archetype through.
    spec fn matches_all(column_types: Seq<u64>) -> bool;

    /// Whether some filter of the group lets the archetype through.
    spec fn matches_any(column_types: Seq<u64>) -> bool;

    /// Whether exactly one member of the group lets the archetype through,
    /// where a member that is a group does so when exactly one of its own
    /// members does.
    spec fn matches_one(column_types: Seq<u64>) -> bool;

    /// Returns `true` if all filters of the group let the archetype through.
    fn archetype_matches_all(column_types: &Vec<u64>) -> (b: bool)
        ensures
            b == Self::matches_all(column_types@),
    ;

    /// Returns `true` if some filter of the group lets the archetype through.
    fn archetype_matches_any(column_types: &Vec<u64>) -> (b: bool)
        ensures
            b == Self::matches_any(column_types@),
    ;

    /// Returns `true` if exactly one member of the group lets the archetype through.
    fn archetype_matches_one(column_types: &Vec<u64>) -> (b: bool)
        ensures
            b == Self::matches_one(column_types@),
    ;
}

impl<F: ComponentFilter> ComponentFilterGroup for F {
    open spec fn matches_all(column_types: Seq<u64>) -> bool {
        F::matches(column_types)
    }

    open spec fn matches_any(column_types: Seq<u64>) -> bool {
        F::matches(column_types)
    }

    open spec fn matches_one(column_types: Seq<u64>) -> bool {
        F::matches(column_types)
    }

    fn archetype_matches_all(column_types: &Vec<u64>) -> (b: bool) {
        F::archetype_matches(column_types)
    }

    fn archetype_matches_any(column_types: &Vec<u64>) -> (b: bool) {
        F::archetype_matches(column_types)
    }

    fn archetype_matches_one(column_types: &Vec<u64>) -> (b: bool) {
        F::archetype_matches(column_types)
    }
}

/// One for `true`, nothing for `false`.
pub open spec fn one_if(b: bool) -> nat {
    if b {
        1
    } else {
        0
    }
}

/// One for `true`, nothing for `false`.
pub fn count_if(b: bool) -> (n: u8)
    ensures
        n == one_if(b),
{
    if b {
        1
    } else {
        0
    }
}

impl<T0: ComponentFilterGroup> ComponentFilterGroup for (T0,) {
    open spec fn matches_all(column_types: Seq<u64>) -> bool {
        T0::matches_all(column_types)
    }

    open spec fn matches_any(column_types: Seq<u64>) -> bool {
        T0::matches_any(column_types)
    }

    open spec fn matches_one(column_types: Seq<u64>) -> bool {
        one_if(T0::matches_one(column_types)) == 1
    }

    fn archetype_matches_all(column_types: &Vec<u64>) -> (b: bool) {
        T0::archetype_matches_all(column_types)
    }

    fn archetype_matches_any(column_types: &Vec<u64>) -> (b: bool) {
        T0::archetype_matches_any(column_types)
    }

    fn archetype_matches_one(column_types: &Vec<u64>) -> (b: bool) {
        count_if(T0::archetype_matches_one(column_types)) == 1
    }
}

impl<T0: ComponentFilterGroup, T1: ComponentFilterGroup> ComponentFilterGroup for (T0, T1) {
    open spec fn matches_all(column_types: Seq<u64>) -> bool {
        T0::matches_all(column_types) && T1::matches_all(column_types)
    }

    open spec fn matches_any(column_types: Seq<u64>) -> bool {
        T0::matches_any(column_types) || T1::matches_any(column_types)
    }

    open spec fn matches_one(column_types: Seq<u64>) -> bool {
        one_if(T0::matches_one(column_types)) + one_if(T1::matches_one(column_types)) == 1
    }

    fn archetype_matches_all(column_types: &Vec<u64>) -> (b: bool) {
        T0::archetype_matches_all(column_types) && T1::archetype_matches_all(column_types)
    }

    fn archetype_matches_any(column_types: &Vec<u64>) -> (b: bool) {
        T0::archetype_matches_any(column_types) || T1::archetype_matches_any(column_types)
    }

    fn archetype_matches_one(column_types: &Vec<u64>) -> (b: bool) {
        count_if(T0::archetype_matches_one(column_types)) + count_if(
            T1::archetype_matches_one(column_types),
        ) == 1
    }
}

impl<
    T0: ComponentFilterGroup,
    T1: ComponentFilterGroup,
    T2: ComponentFilterGroup,
> ComponentFilterGroup for (T0, T1, T2) {
    open spec fn matches_all(column_types: Seq<u64>) -> bool {
        T0::matches_all(column_types) && T1::matches_all(column_types) && T2::matches_all(
            column_types,
        )
    }

    open spec fn matches_any(column_types: Seq<u64>) -> bool {
        T0::matches_any(column_types) || T1::matches_any(column_types) || T2::matches_any(
            column_types,
        )
    }

    open spec fn matches_one(column_types: Seq<u64>) -> bool {
        one_if(T0::matches_one(column_types)) + one_if(T1::matches_one(column_types)) + one_if(
            T2::matches_one(column_types),
        ) == 1
    }

    fn archetype_matches_all(column_types: &Vec<u64>) -> (b: bool) {
        T0::archetype_matches_all(column_types) && T1::archetype_matches_all(column_types)
            && T2::archetype_matches_all(column_types)
    }

    fn archetype_matches_any(column_types: &Vec<u64>) -> (b: bool) {
        T0::archetype_matches_any(column_types) || T1::archetype_matches_any(column_types)
            || T2::archetype_matches_any(column_types)
    }

    fn archetype_matches_one(column_types: &Vec<u64>) -> (b: bool) {
        count_if(T0::archetype_matches_one(column_types)) + count_if(
            T1::archetype_matches_one(column_types),
        ) + count_if(T2::archetype_matches_one(column_types)) == 1
    }
}

impl<
    T0: ComponentFilterGroup,
    T1: ComponentFilterGroup,
    T2: ComponentFilterGroup,
    T3: ComponentFilterGroup,
> ComponentFilterGroup for (T0, T1, T2, T3) {
    open spec fn matches_all(column_types: Seq<u64>) -> bool {
        T0::matches_all(column_types) && T1::matches_all(column_types) && T2::matches_all(
            column_types,
        ) && T3::matches_all(column_types)
    }

    open spec fn matches_any(column_types: Seq<u64>) -> bool {
        T0::matches_any(column_types) || T1::matches_any(column_types) || T2::matches_any(
            column_types,
        ) || T3::matches_any(column_types)
    }

    open spec fn matches_one(column_types: Seq<u64>) -> bool {
        one_if(T0::matches_one(column_types)) + one_if(T1::matches_one(column_types)) + one_if(
            T2::matches_one(column_types),
        ) + one_if(T3::matches_one(column_types)) == 1
    }

    fn archetype_matches_all(column_types: &Vec<u64>) -> (b: bool) {
        T0::archetype_matches_all(column_types) && T1::archetype_matches_all(column_types)
            && T2::archetype_matches_all(column_types) && T3::archetype_matches_all(column_types)
    }

    fn archetype_matches_any(column_types: &Vec<u64>) -> (b: bool) {
        T0::archetype_matches_any(column_types) || T1::archetype_matches_any(column_types)
            || T2::archetype_matches_any(column_types) || T3::archetype_matches_any(column_types)
    }

    fn archetype_matches_one(column_types: &Vec<u64>) -> (b: bool) {
        count_if(T0::archetype_matches_one(column_types)) + count_if(
            T1::archetype_matches_one(column_types),
        ) + count_if(T2::archetype_matches_one(column_types)) + count_if(
            T3::archetype_matches_one(column_types),
        ) == 1
    }
}

} // verus!
