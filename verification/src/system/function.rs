//! Systems made of a body and the queries that the body is run with.

use core::marker::PhantomData;
use vstd::prelude::*;
use crate::util::claims::{merged, Claim};
use crate::query::validate::{ClaimId, QueryValidator, QueryValidatorEntryState};
use crate::query::{Query, QueryAcquireResult, ReadOnlyQuery};
use crate::system::{IntoReadOnlySystem, IntoSystem, ReadOnlySystem, System, SystemId};
use crate::world::World;
use crate::Poll;

verus! {

/// The body of a system: what is done with the item of the query `Q` and
/// with what was passed to the system.
///
/// A body runs while the system holds what its query acquired. It may
/// change the world through the item, and it leaves every latch as it
/// found it.
pub trait SystemBody<V, Q: Query<V>, Passed, Return> {
    /// Whether this body, the world `after`, `item_after` and `out` are
    /// what one run with `passed` makes of the body `before`, the world
    /// `world` and `item`.
    spec fn is_run_of(
        &self,
        after: &World<V>,
        item_after: Q::Item,
        out: Return,
        before: &Self,
        world: &World<V>,
        item: Q::Item,
        passed: Passed,
    ) -> bool;

    /// Runs the body once.
    fn run(&mut self, world: &mut World<V>, item: &mut Q::Item, passed: Passed) -> (out: Return)
        requires
            old(world).wf(),
            Q::can_release(old(world).locks(), *old(item)),
        ensures
            final(world).wf(),
            final(world).locks() == old(world).locks(),
            Q::can_release(final(world).locks(), *final(item)),
            Q::released(final(world).locks(), *final(item)) == Q::released(
                old(world).locks(),
                *old(item),
            ),
            final(self).is_run_of(
                final(world),
                *final(item),
                out,
                old(self),
                old(world),
                *old(item),
                passed,
            ),
    ;
}

/// A body with the query that it is run with, not yet made into a system.
pub struct IntoFunctionSystem<V, Q, B, Passed> {
    id: u64,
    source: &'static str,
    function: B,
    marker: PhantomData<(V, Q, Passed)>,
}

/// A system made of a body and the query that the body is run with.
pub struct FunctionSystem<V, Q: Query<V>, B, Passed> {
    id: u64,
    source: &'static str,
    function: B,
    query_states: Q::State,
    input: Option<Passed>,
    marker: PhantomData<V>,
}

impl<V, Q, B, Passed> IntoFunctionSystem<V, Q, B, Passed> {
    /// The identity that the system will have.
    pub closed spec fn identity(&self) -> u64 {
        self.id
    }

    /// The name that the system will have, for messages.
    pub closed spec fn name(&self) -> &'static str {
        self.source
    }

    /// The body.
    pub closed spec fn body(&self) -> B {
        self.function
    }
}

/// The body `function`, to be made into a system with the identity `id`,
/// whose name for messages is `source`.
pub fn into_function_system<V, Q, B, Passed>(id: u64, source: &'static str, function: B) -> (into: IntoFunctionSystem<
    V,
    Q,
    B,
    Passed,
>)
    ensures
        into.identity() == id,
        into.name() == source,
        into.body() == function,
{
    IntoFunctionSystem { id, source, function, marker: PhantomData }
}

impl<V, Q: Query<V>, B, Passed> FunctionSystem<V, Q, B, Passed> {
    /// What the system was started with, while it has not run.
    pub closed spec fn input(&self) -> Option<Passed> {
        self.input
    }

    /// The identity of the system.
    pub closed spec fn identity(&self) -> u64 {
        self.id
    }

    /// The name of the system, for messages.
    pub closed spec fn name(&self) -> &'static str {
        self.source
    }

    /// The body of the system.
    pub closed spec fn body(&self) -> B {
        self.function
    }

    /// The state of the query of the system.
    pub closed spec fn query_state(&self) -> Q::State {
        self.query_states
    }

    /// Whether this system is `before` but for what it was started with.
    pub open spec fn same_but_input(&self, before: &Self) -> bool {
        &&& self.identity() == before.identity()
        &&& self.name() == before.name()
        &&& self.body() == before.body()
        &&& self.query_state() == before.query_state()
    }

    /// The name of the system, for messages.
    pub fn source(&self) -> (source: &'static str)
        ensures
            source == self.name(),
    {
        self.source
    }
}

impl<V, Q: Query<V>, B, Passed> FunctionSystem<V, Q, B, Passed> {
    /// Whether this system, the world `after` and `res` are what running the
    /// body of the system `before` makes of it, of the world `world` and of
    /// the state `state` of its query, which has acquired `item`: the body
    /// runs with `item` and with what the system was started with, the
    /// item is given back, and the world notes that the system has run.
    pub open spec fn is_run_with<Return>(
        &self,
        after: &World<V>,
        res: Poll<QueryAcquireResult<Return>>,
        before: &Self,
        world: World<V>,
        state: Q::State,
        item: Q::Item,
    ) -> bool where B: SystemBody<V, Q, Passed, Return> {
        &&& before.input() is Some
        &&& self.input() is None
        &&& res is Ready
        &&& res->Ready_0 is Ready
        &&& exists|w1: World<V>, item1: Q::Item, w2: World<V>| #[trigger]
            self.body().is_run_of(
                &w1,
                item1,
                res->Ready_0->Ready_0,
                &before.body(),
                &world,
                item,
                before.input()->0,
            ) && #[trigger] Q::is_release_of(w2, self.query_state(), w1, state, item1)
                && after.is_mark_ran_of(&w2, before.identity())
    }
}

impl<V, Q: Query<V>, B, Passed, Return> System<V, Return> for FunctionSystem<V, Q, B, Passed> where
    B: SystemBody<V, Q, Passed, Return>,
 {
    type Passed = Passed;

    open spec fn is_running(&self) -> bool {
        self.input() is Some
    }

    open spec fn spec_readers(&self) -> nat {
        Q::spec_readers()
    }

    open spec fn is_cancel_of(&self, before: &Self) -> bool {
        self.same_but_input(before) && self.input() is None
    }

    open spec fn is_start_of(&self, before: &Self, passed: Self::Passed) -> bool {
        self.same_but_input(before) && self.input() == Some(passed)
    }

    open spec fn is_poll_of(
        &self,
        after: &World<V>,
        res: Poll<QueryAcquireResult<Return>>,
        before: &Self,
        world: &World<V>,
    ) -> bool {
        &&& self.identity() == before.identity()
        &&& self.name() == before.name()
        &&& exists|w0: World<V>, s0: Q::State, found: Poll<QueryAcquireResult<Q::Item>>| #[trigger]
            Q::is_acquire_of(w0, s0, found, *world, before.query_state()) && match found {
                Poll::Ready(QueryAcquireResult::Ready(item)) => self.is_run_with(
                    after,
                    res,
                    before,
                    w0,
                    s0,
                    item,
                ),
                Poll::Ready(QueryAcquireResult::DoesNotExist { name }) => *after == w0
                    && self.query_state() == s0 && self.body() == before.body() && self.input()
                    is None && res == Poll::<QueryAcquireResult<Return>>::Ready(
                    QueryAcquireResult::DoesNotExist { name },
                ),
                Poll::Pending => *after == w0 && self.query_state() == s0 && self.body()
                    == before.body() && self.input() == before.input() && res is Pending,
            }
    }

    fn readers(&self) -> (n: u32) {
        Q::readers()
    }

    fn running(&self) -> (b: bool) {
        self.input.is_some()
    }

    fn cancel(&mut self) {
        self.input = None;
    }

    fn start(&mut self, passed: Self::Passed) {
        self.input = Some(passed);
    }

    fn poll(&mut self, world: &mut World<V>) -> (res: Poll<QueryAcquireResult<Return>>)
        ensures
            res matches Poll::Ready(QueryAcquireResult::Ready(_)) ==> final(world).ran().contains(
                old(self).identity(),
            ),
    {
        let found = Q::acquire(world, &mut self.query_states);
        let ghost got = found;
        let ghost w0 = *world;
        let ghost s0 = self.query_states;
        proof {
            assert(Q::is_acquire_of(w0, s0, got, *old(world), old(self).query_state()));
        }
        match found {
            Poll::Ready(QueryAcquireResult::Ready(item)) => {
                let ghost item0 = item;
                let mut item = item;
                let passed = self.input.take().unwrap();
                let out = self.function.run(world, &mut item, passed);
                let ghost w1 = *world;
                let ghost item1 = item;
                Q::release(world, &mut self.query_states, item);
                let ghost w2 = *world;
                let ghost released = world.locks();
                world.mark_ran(self.id);
                proof {
                    assert(world.locks().archetypes =~= released.archetypes);
                    assert(world.locks().resources =~= released.resources);
                    let res = Poll::Ready(QueryAcquireResult::Ready(out));
                    assert(self.body().is_run_of(
                        &w1,
                        item1,
                        res->Ready_0->Ready_0,
                        &old(self).body(),
                        &w0,
                        item0,
                        old(self).input()->0,
                    ));
                    assert(Q::is_release_of(w2, self.query_state(), w1, s0, item1));
                }
                Poll::Ready(QueryAcquireResult::Ready(out))
            },
            Poll::Ready(QueryAcquireResult::DoesNotExist { name }) => {
                self.input = None;
                Poll::Ready(QueryAcquireResult::DoesNotExist { name })
            },
            Poll::Pending => Poll::Pending,
        }
    }
}

impl<V, Q: Query<V>, B, Passed, Return> IntoSystem<V, Return> for IntoFunctionSystem<
    V,
    Q,
    B,
    Passed,
> where B: SystemBody<V, Q, Passed, Return> {
    type System = FunctionSystem<V, Q, B, Passed>;

    open spec fn component_entries() -> Seq<Claim<QueryValidatorEntryState>> {
        Q::component_entries()
    }

    open spec fn resource_entries() -> Seq<Claim<QueryValidatorEntryState>> {
        Q::resource_entries()
    }

    open spec fn claims() -> Map<ClaimId, QueryValidatorEntryState> {
        Q::claims()
    }

    open spec fn is_system_of(
        &self,
        system: Self::System,
        after: &World<V>,
        before: &World<V>,
        system_id: Option<SystemId>,
    ) -> bool {
        &&& system.identity() == self.identity()
        &&& system.name() == self.name()
        &&& system.body() == self.body()
        &&& system.input() is None
        &&& Q::is_init_of(*after, system.query_state(), *before, system_id)
    }

    fn validate() -> (validator: QueryValidator) {
        Q::validate()
    }

    fn into_system(self, world: &mut World<V>, system_id: Option<SystemId>) -> (system: Self::System) {
        let validator = Q::validate();
        proof {
            validator.lemma_violation();
        }
        validator.panic_on_violation();
        self.into_system_unchecked(world, system_id)
    }

    fn into_system_unchecked(self, world: &mut World<V>, system_id: Option<SystemId>) -> (system: Self::System) {
        let query_states = Q::init_state(world, system_id);
        FunctionSystem {
            id: self.id,
            source: self.source,
            function: self.function,
            query_states,
            input: None,
            marker: PhantomData,
        }
    }
}

impl<V, Q: ReadOnlyQuery<V>, B, Passed, Return> ReadOnlySystem<V, Return> for FunctionSystem<
    V,
    Q,
    B,
    Passed,
> where B: SystemBody<V, Q, Passed, Return> {

}

impl<V, Q: ReadOnlyQuery<V>, B, Passed, Return> IntoReadOnlySystem<V, Return> for IntoFunctionSystem<
    V,
    Q,
    B,
    Passed,
> where B: SystemBody<V, Q, Passed, Return> {

}

} // verus!
