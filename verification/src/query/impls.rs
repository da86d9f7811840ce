//! The queries that every world answers: nothing, an optional query, and
//! tuples of queries.

use vstd::prelude::*;
use crate::query::validate::{ClaimId, QueryValidator, QueryValidatorEntryState};
use crate::query::{not_ready, Query, QueryAcquireResult, ReadOnlyQuery};
use crate::system::SystemId;
use crate::util::claims::{join_maps, merged, Claim};
use crate::world::{LockView, World};
use crate::Poll;

verus! {

impl<V> Query<V> for () {
    type Item = ();

    type State = ();

    open spec fn component_entries() -> Seq<Claim<QueryValidatorEntryState>> {
        Seq::empty()
    }

    open spec fn resource_entries() -> Seq<Claim<QueryValidatorEntryState>> {
        Seq::empty()
    }

    open spec fn claims() -> Map<ClaimId, QueryValidatorEntryState> {
        Map::empty()
    }

    open spec fn spec_readers() -> nat {
        0
    }

    open spec fn can_release(locks: LockView, item: Self::Item) -> bool {
        true
    }

    open spec fn released(locks: LockView, item: Self::Item) -> LockView {
        locks
    }

    open spec fn is_init_of(
        after: World<V>,
        state: Self::State,
        before: World<V>,
        system_id: Option<SystemId>,
    ) -> bool {
        after == before
    }

    open spec fn is_acquire_of(
        after: World<V>,
        state_after: Self::State,
        res: Poll<QueryAcquireResult<Self::Item>>,
        before: World<V>,
        state_before: Self::State,
    ) -> bool {
        after == before && res == Poll::<QueryAcquireResult<()>>::Ready(
            QueryAcquireResult::Ready(()),
        )
    }

    open spec fn is_release_of(
        after: World<V>,
        state_after: Self::State,
        before: World<V>,
        state_before: Self::State,
        item: Self::Item,
    ) -> bool {
        after == before
    }

    fn readers() -> (n: u32) {
        0
    }

    fn init_state(world: &mut World<V>, system_id: Option<SystemId>) -> (state: Self::State) {
        ()
    }

    fn acquire(world: &mut World<V>, state: &mut Self::State) -> (res: Poll<
        QueryAcquireResult<Self::Item>,
    >) {
        Poll::Ready(QueryAcquireResult::Ready(()))
    }

    fn release(world: &mut World<V>, state: &mut Self::State, item: Self::Item) {
    }

    fn validate() -> (validator: QueryValidator) {
        QueryValidator::empty()
    }
}

impl<V> ReadOnlyQuery<V> for () {
    proof fn lemma_read_only() {
    }
}

impl<V, Q: Query<V>> Query<V> for Option<Q> {
    type Item = Option<Q::Item>;

    type State = Q::State;

    open spec fn component_entries() -> Seq<Claim<QueryValidatorEntryState>> {
        Q::component_entries()
    }

    open spec fn resource_entries() -> Seq<Claim<QueryValidatorEntryState>> {
        Q::resource_entries()
    }

    open spec fn claims() -> Map<ClaimId, QueryValidatorEntryState> {
        Q::claims()
    }

    open spec fn spec_readers() -> nat {
        Q::spec_readers()
    }

    open spec fn can_release(locks: LockView, item: Self::Item) -> bool {
        match item {
            Some(inner) => Q::can_release(locks, inner),
            None => true,
        }
    }

    open spec fn released(locks: LockView, item: Self::Item) -> LockView {
        match item {
            Some(inner) => Q::released(locks, inner),
            None => locks,
        }
    }

    open spec fn is_init_of(
        after: World<V>,
        state: Self::State,
        before: World<V>,
        system_id: Option<SystemId>,
    ) -> bool {
        Q::is_init_of(after, state, before, system_id)
    }

    open spec fn is_acquire_of(
        after: World<V>,
        state_after: Self::State,
        res: Poll<QueryAcquireResult<Self::Item>>,
        before: World<V>,
        state_before: Self::State,
    ) -> bool {
        match res {
            Poll::Ready(QueryAcquireResult::Ready(Some(item))) => Q::is_acquire_of(
                after,
                state_after,
                Poll::Ready(QueryAcquireResult::Ready(item)),
                before,
                state_before,
            ),
            Poll::Ready(QueryAcquireResult::Ready(None)) => exists|name: &'static str| #[trigger]
                Q::is_acquire_of(
                    after,
                    state_after,
                    Poll::Ready(QueryAcquireResult::DoesNotExist { name }),
                    before,
                    state_before,
                ),
            Poll::Ready(QueryAcquireResult::DoesNotExist { .. }) => false,
            Poll::Pending => Q::is_acquire_of(
                after,
                state_after,
                Poll::Pending,
                before,
                state_before,
            ),
        }
    }

    open spec fn is_release_of(
        after: World<V>,
        state_after: Self::State,
        before: World<V>,
        state_before: Self::State,
        item: Self::Item,
    ) -> bool {
        match item {
            Some(inner) => Q::is_release_of(after, state_after, before, state_before, inner),
            None => after == before && state_after == state_before,
        }
    }

    fn readers() -> (n: u32) {
        Q::readers()
    }

    fn init_state(world: &mut World<V>, system_id: Option<SystemId>) -> (state: Self::State) {
        Q::init_state(world, system_id)
    }

    fn acquire(world: &mut World<V>, state: &mut Self::State) -> (res: Poll<
        QueryAcquireResult<Self::Item>,
    >) {
        match Q::acquire(world, state) {
            Poll::Ready(QueryAcquireResult::Ready(out)) => Poll::Ready(
                QueryAcquireResult::Ready(Some(out)),
            ),
            Poll::Ready(QueryAcquireResult::DoesNotExist { name }) => {
                assert(Q::is_acquire_of(
                    *world,
                    *state,
                    Poll::Ready(QueryAcquireResult::DoesNotExist { name }),
                    *old(world),
                    *old(state),
                ));
                Poll::Ready(QueryAcquireResult::Ready(None))
            },
            Poll::Pending => Poll::Pending,
        }
    }

    fn release(world: &mut World<V>, state: &mut Self::State, item: Self::Item) {
        match item {
            Some(inner) => Q::release(world, state, inner),
            None => {},
        }
    }

    fn validate() -> (validator: QueryValidator) {
        Q::validate()
    }
}

impl<V, Q: ReadOnlyQuery<V>> ReadOnlyQuery<V> for Option<Q> {
    proof fn lemma_read_only() {
        Q::lemma_read_only();
    }
}

impl<V, T0: Query<V>> Query<V> for (T0,) {
    type Item = (T0::Item,);

    type State = (T0::State,);

    open spec fn component_entries() -> Seq<Claim<QueryValidatorEntryState>> {
        merged(Seq::empty(), T0::component_entries())
    }

    open spec fn resource_entries() -> Seq<Claim<QueryValidatorEntryState>> {
        merged(Seq::empty(), T0::resource_entries())
    }

    open spec fn claims() -> Map<ClaimId, QueryValidatorEntryState> {
        join_maps(Map::empty(), T0::claims())
    }

    open spec fn spec_readers() -> nat {
        T0::spec_readers()
    }

    open spec fn can_release(locks: LockView, item: Self::Item) -> bool {
        T0::can_release(locks, item.0)
    }

    open spec fn released(locks: LockView, item: Self::Item) -> LockView {
        T0::released(locks, item.0)
    }

    open spec fn is_init_of(
        after: World<V>,
        state: Self::State,
        before: World<V>,
        system_id: Option<SystemId>,
    ) -> bool {
        T0::is_init_of(after, state.0, before, system_id)
    }

    open spec fn is_acquire_of(
        after: World<V>,
        state_after: Self::State,
        res: Poll<QueryAcquireResult<Self::Item>>,
        before: World<V>,
        state_before: Self::State,
    ) -> bool {
        exists|r0: Poll<QueryAcquireResult<T0::Item>>| #[trigger]
            T0::is_acquire_of(after, state_after.0, r0, before, state_before.0) && res == match r0 {
                Poll::Ready(QueryAcquireResult::Ready(i0)) => Poll::Ready(
                    QueryAcquireResult::Ready((i0,)),
                ),
                _ => not_ready(r0),
            }
    }

    open spec fn is_release_of(
        after: World<V>,
        state_after: Self::State,
        before: World<V>,
        state_before: Self::State,
        item: Self::Item,
    ) -> bool {
        T0::is_release_of(after, state_after.0, before, state_before.0, item.0)
    }

    fn readers() -> (n: u32) {
        T0::readers()
    }

    fn init_state(world: &mut World<V>, system_id: Option<SystemId>) -> (state: Self::State) {
        (T0::init_state(world, system_id),)
    }

    fn acquire(world: &mut World<V>, state: &mut Self::State) -> (res: Poll<
        QueryAcquireResult<Self::Item>,
    >) {
        let r0 = T0::acquire(world, &mut state.0);
        let ghost g0 = r0;
        proof {
            assert(T0::is_acquire_of(*world, state.0, g0, *old(world), old(state).0));
        }
        match r0 {
            Poll::Ready(QueryAcquireResult::Ready(out)) => Poll::Ready(
                QueryAcquireResult::Ready((out,)),
            ),
            Poll::Ready(QueryAcquireResult::DoesNotExist { name }) => Poll::Ready(
                QueryAcquireResult::DoesNotExist { name },
            ),
            Poll::Pending => Poll::Pending,
        }
    }

    fn release(world: &mut World<V>, state: &mut Self::State, item: Self::Item) {
        T0::release(world, &mut state.0, item.0);
    }

    fn validate() -> (validator: QueryValidator) {
        let mut qv = QueryValidator::empty();
        qv = QueryValidator::join(qv, T0::validate());
        qv
    }
}

impl<V, T0: Query<V>, T1: Query<V>> Query<V> for (T0, T1) {
    type Item = (T0::Item, T1::Item);

    type State = (T0::State, T1::State);

    open spec fn component_entries() -> Seq<Claim<QueryValidatorEntryState>> {
        merged(merged(Seq::empty(), T0::component_entries()), T1::component_entries())
    }

    open spec fn resource_entries() -> Seq<Claim<QueryValidatorEntryState>> {
        merged(merged(Seq::empty(), T0::resource_entries()), T1::resource_entries())
    }

    open spec fn claims() -> Map<ClaimId, QueryValidatorEntryState> {
        join_maps(join_maps(Map::empty(), T0::claims()), T1::claims())
    }

    open spec fn spec_readers() -> nat {
        T0::spec_readers() + T1::spec_readers()
    }

    open spec fn can_release(locks: LockView, item: Self::Item) -> bool {
        T1::can_release(locks, item.1) && T0::can_release(T1::released(locks, item.1), item.0)
    }

    open spec fn released(locks: LockView, item: Self::Item) -> LockView {
        T0::released(T1::released(locks, item.1), item.0)
    }

    open spec fn is_init_of(
        after: World<V>,
        state: Self::State,
        before: World<V>,
        system_id: Option<SystemId>,
    ) -> bool {
        exists|w0: World<V>| #[trigger]
            T0::is_init_of(w0, state.0, before, system_id) && T1::is_init_of(
                after,
                state.1,
                w0,
                system_id,
            )
    }

    open spec fn is_acquire_of(
        after: World<V>,
        state_after: Self::State,
        res: Poll<QueryAcquireResult<Self::Item>>,
        before: World<V>,
        state_before: Self::State,
    ) -> bool {
        exists|w0: World<V>, s0: T0::State, r0: Poll<QueryAcquireResult<T0::Item>>| #[trigger]
            T0::is_acquire_of(w0, s0, r0, before, state_before.0) && match r0 {
                Poll::Ready(QueryAcquireResult::Ready(i0)) => exists|
                    w1: World<V>,
                    r1: Poll<QueryAcquireResult<T1::Item>>,
                | #[trigger]
                    T1::is_acquire_of(w1, state_after.1, r1, w0, state_before.1) && match r1 {
                        Poll::Ready(QueryAcquireResult::Ready(i1)) => after == w1 && state_after.0
                            == s0 && res == Poll::Ready(QueryAcquireResult::Ready((i0, i1))),
                        _ => T0::is_release_of(after, state_after.0, w1, s0, i0) && res
                            == not_ready::<T1::Item, Self::Item>(r1),
                    },
                _ => after == w0 && state_after.0 == s0 && state_after.1 == state_before.1 && res
                    == not_ready::<T0::Item, Self::Item>(r0),
            }
    }

    open spec fn is_release_of(
        after: World<V>,
        state_after: Self::State,
        before: World<V>,
        state_before: Self::State,
        item: Self::Item,
    ) -> bool {
        exists|w1: World<V>| #[trigger]
            T1::is_release_of(w1, state_after.1, before, state_before.1, item.1)
                && T0::is_release_of(after, state_after.0, w1, state_before.0, item.0)
    }

    fn readers() -> (n: u32) {
        T0::readers().saturating_add(T1::readers())
    }

    fn init_state(world: &mut World<V>, system_id: Option<SystemId>) -> (state: Self::State) {
        let s0 = T0::init_state(world, system_id);
        let ghost w0 = *world;
        let s1 = T1::init_state(world, system_id);
        proof {
            assert(T0::is_init_of(w0, s0, *old(world), system_id));
            assert(T1::is_init_of(*world, s1, w0, system_id));
            let state = (s0, s1);
            assert(T0::is_init_of(w0, state.0, *old(world), system_id));
        }
        (s0, s1)
    }

    fn acquire(world: &mut World<V>, state: &mut Self::State) -> (res: Poll<
        QueryAcquireResult<Self::Item>,
    >) {
        let ghost start = old(world).locks();
        proof {
            assert(start.reader_room(T1::spec_readers() + T0::spec_readers()));
        }
        let r0 = T0::acquire(world, &mut state.0);
        let ghost g0 = r0;
        let ghost w0 = *world;
        let ghost s0 = state.0;
        proof {
            assert(T0::is_acquire_of(w0, s0, g0, *old(world), old(state).0));
        }
        let i0 = match r0 {
            Poll::Ready(QueryAcquireResult::Ready(out)) => out,
            Poll::Ready(QueryAcquireResult::DoesNotExist { name }) => {
                return Poll::Ready(QueryAcquireResult::DoesNotExist { name });
            },
            Poll::Pending => {
                return Poll::Pending;
            },
        };
        let ghost after0 = world.locks();
        proof {
            assert(after0.reader_room(T1::spec_readers()));
            assert forall|n: nat| start.reader_room(n + Self::spec_readers()) implies (
            #[trigger] after0.reader_room(n + T1::spec_readers())) by {
                assert(start.reader_room((n + T1::spec_readers()) + T0::spec_readers()));
            }
        }
        let r1 = T1::acquire(world, &mut state.1);
        let ghost g1 = r1;
        let ghost w1 = *world;
        proof {
            assert(T1::is_acquire_of(w1, state.1, g1, w0, old(state).1));
        }
        match r1 {
            Poll::Ready(QueryAcquireResult::Ready(i1)) => Poll::Ready(
                QueryAcquireResult::Ready((i0, i1)),
            ),
            Poll::Ready(QueryAcquireResult::DoesNotExist { name }) => {
                T0::release(world, &mut state.0, i0);
                proof {
                    assert(T1::is_acquire_of(w1, state.1, g1, w0, old(state).1));
                }
                Poll::Ready(QueryAcquireResult::DoesNotExist { name })
            },
            Poll::Pending => {
                T0::release(world, &mut state.0, i0);
                proof {
                    assert(T1::is_acquire_of(w1, state.1, g1, w0, old(state).1));
                }
                Poll::Pending
            },
        }
    }

    fn release(world: &mut World<V>, state: &mut Self::State, item: Self::Item) {
        T1::release(world, &mut state.1, item.1);
        let ghost w1 = *world;
        T0::release(world, &mut state.0, item.0);
        proof {
            assert(T1::is_release_of(w1, state.1, *old(world), old(state).1, item.1));
        }
    }

    fn validate() -> (validator: QueryValidator) {
        let mut qv = QueryValidator::empty();
        qv = QueryValidator::join(qv, T0::validate());
        qv = QueryValidator::join(qv, T1::validate());
        qv
    }
}

impl<V, T0: Query<V>, T1: Query<V>, T2: Query<V>> Query<V> for (T0, T1, T2) {
    type Item = (T0::Item, T1::Item, T2::Item);

    type State = (T0::State, T1::State, T2::State);

    open spec fn component_entries() -> Seq<Claim<QueryValidatorEntryState>> {
        merged(merged(merged(Seq::empty(), T0::component_entries()), T1::component_entries()),
            T2::component_entries())
    }

    open spec fn resource_entries() -> Seq<Claim<QueryValidatorEntryState>> {
        merged(merged(merged(Seq::empty(), T0::resource_entries()), T1::resource_entries()),
            T2::resource_entries())
    }

    open spec fn claims() -> Map<ClaimId, QueryValidatorEntryState> {
        join_maps(join_maps(join_maps(Map::empty(), T0::claims()), T1::claims()), T2::claims())
    }

    open spec fn spec_readers() -> nat {
        T0::spec_readers() + T1::spec_readers() + T2::spec_readers()
    }

    open spec fn can_release(locks: LockView, item: Self::Item) -> bool {
        &&& T2::can_release(locks, item.2)
        &&& T1::can_release(T2::released(locks, item.2), item.1)
        &&& T0::can_release(T1::released(T2::released(locks, item.2), item.1), item.0)
    }

    open spec fn released(locks: LockView, item: Self::Item) -> LockView {
        T0::released(T1::released(T2::released(locks, item.2), item.1), item.0)
    }

    open spec fn is_init_of(
        after: World<V>,
        state: Self::State,
        before: World<V>,
        system_id: Option<SystemId>,
    ) -> bool {
        exists|w0: World<V>| #[trigger]
            T0::is_init_of(w0, state.0, before, system_id) && exists|w1: World<V>| #[trigger]
                T1::is_init_of(w1, state.1, w0, system_id) && T2::is_init_of(
                    after,
                    state.2,
                    w1,
                    system_id,
                )
    }

    open spec fn is_acquire_of(
        after: World<V>,
        state_after: Self::State,
        res: Poll<QueryAcquireResult<Self::Item>>,
        before: World<V>,
        state_before: Self::State,
    ) -> bool {
        exists|w0: World<V>, s0: T0::State, r0: Poll<QueryAcquireResult<T0::Item>>| #[trigger]
            T0::is_acquire_of(w0, s0, r0, before, state_before.0) && match r0 {
                Poll::Ready(QueryAcquireResult::Ready(i0)) => exists|
                    w1: World<V>,
                    s1: T1::State,
                    r1: Poll<QueryAcquireResult<T1::Item>>,
                | #[trigger]
                    T1::is_acquire_of(w1, s1, r1, w0, state_before.1) && match r1 {
                        Poll::Ready(QueryAcquireResult::Ready(i1)) => exists|
                            w2: World<V>,
                            r2: Poll<QueryAcquireResult<T2::Item>>,
                        | #[trigger]
                            T2::is_acquire_of(w2, state_after.2, r2, w1, state_before.2)
                                && match r2 {
                                Poll::Ready(QueryAcquireResult::Ready(i2)) => after == w2
                                    && state_after.0 == s0 && state_after.1 == s1 && res
                                    == Poll::Ready(QueryAcquireResult::Ready((i0, i1, i2))),
                                _ => res == not_ready::<T2::Item, Self::Item>(r2) && exists|
                                    w3: World<V>,
                                | #[trigger]
                                    T1::is_release_of(w3, state_after.1, w2, s1, i1)
                                        && T0::is_release_of(after, state_after.0, w3, s0, i0),
                            },
                        _ => T0::is_release_of(after, state_after.0, w1, s0, i0) && state_after.1
                            == s1 && state_after.2 == state_before.2 && res == not_ready::<
                            T1::Item,
                            Self::Item,
                        >(r1),
                    },
                _ => after == w0 && state_after.0 == s0 && state_after.1 == state_before.1
                    && state_after.2 == state_before.2 && res == not_ready::<T0::Item, Self::Item>(
                    r0,
                ),
            }
    }

    open spec fn is_release_of(
        after: World<V>,
        state_after: Self::State,
        before: World<V>,
        state_before: Self::State,
        item: Self::Item,
    ) -> bool {
        exists|w2: World<V>| #[trigger]
            T2::is_release_of(w2, state_after.2, before, state_before.2, item.2) && exists|
                w1: World<V>,
            | #[trigger]
                T1::is_release_of(w1, state_after.1, w2, state_before.1, item.1)
                    && T0::is_release_of(after, state_after.0, w1, state_before.0, item.0)
    }

    fn readers() -> (n: u32) {
        T0::readers().saturating_add(T1::readers()).saturating_add(T2::readers())
    }

    fn init_state(world: &mut World<V>, system_id: Option<SystemId>) -> (state: Self::State) {
        let s0 = T0::init_state(world, system_id);
        let ghost w0 = *world;
        let s1 = T1::init_state(world, system_id);
        let ghost w1 = *world;
        let s2 = T2::init_state(world, system_id);
        proof {
            let state = (s0, s1, s2);
            assert(T2::is_init_of(*world, state.2, w1, system_id));
            assert(T1::is_init_of(w1, state.1, w0, system_id));
            assert(T0::is_init_of(w0, state.0, *old(world), system_id));
        }
        (s0, s1, s2)
    }

    fn acquire(world: &mut World<V>, state: &mut Self::State) -> (res: Poll<
        QueryAcquireResult<Self::Item>,
    >) {
        let ghost start = old(world).locks();
        proof {
            assert(start.reader_room((T1::spec_readers() + T2::spec_readers()) + T0::spec_readers()));
        }
        let r0 = T0::acquire(world, &mut state.0);
        let ghost g0 = r0;
        let ghost w0 = *world;
        let ghost s0 = state.0;
        proof {
            assert(T0::is_acquire_of(w0, s0, g0, *old(world), old(state).0));
        }
        let i0 = match r0 {
            Poll::Ready(QueryAcquireResult::Ready(out)) => out,
            Poll::Ready(QueryAcquireResult::DoesNotExist { name }) => {
                return Poll::Ready(QueryAcquireResult::DoesNotExist { name });
            },
            Poll::Pending => {
                return Poll::Pending;
            },
        };
        let ghost after0 = world.locks();
        proof {
            assert(after0.reader_room(T1::spec_readers() + T2::spec_readers()));
            assert(after0.reader_room(T2::spec_readers() + T1::spec_readers()));
            assert forall|n: nat| start.reader_room(n + Self::spec_readers()) implies (
            #[trigger] after0.reader_room(n + T1::spec_readers() + T2::spec_readers())) by {
                assert(start.reader_room(
                    (n + T1::spec_readers() + T2::spec_readers()) + T0::spec_readers(),
                ));
            }
        }
        let r1 = T1::acquire(world, &mut state.1);
        let ghost g1 = r1;
        let ghost w1 = *world;
        let ghost s1 = state.1;
        proof {
            assert(T1::is_acquire_of(w1, s1, g1, w0, old(state).1));
        }
        let i1 = match r1 {
            Poll::Ready(QueryAcquireResult::Ready(out)) => out,
            Poll::Ready(QueryAcquireResult::DoesNotExist { name }) => {
                T0::release(world, &mut state.0, i0);
                return Poll::Ready(QueryAcquireResult::DoesNotExist { name });
            },
            Poll::Pending => {
                T0::release(world, &mut state.0, i0);
                return Poll::Pending;
            },
        };
        let ghost after1 = world.locks();
        proof {
            assert(after1.reader_room(T2::spec_readers()));
            assert forall|n: nat| start.reader_room(n + Self::spec_readers()) implies (
            #[trigger] after1.reader_room(n + T2::spec_readers())) by {
                assert(after0.reader_room(n + T1::spec_readers() + T2::spec_readers()));
                assert(after0.reader_room((n + T2::spec_readers()) + T1::spec_readers()));
            }
        }
        let r2 = T2::acquire(world, &mut state.2);
        let ghost g2 = r2;
        let ghost w2 = *world;
        proof {
            assert(T2::is_acquire_of(w2, state.2, g2, w1, old(state).2));
        }
        match r2 {
            Poll::Ready(QueryAcquireResult::Ready(i2)) => Poll::Ready(
                QueryAcquireResult::Ready((i0, i1, i2)),
            ),
            Poll::Ready(QueryAcquireResult::DoesNotExist { name }) => {
                T1::release(world, &mut state.1, i1);
                let ghost w3 = *world;
                T0::release(world, &mut state.0, i0);
                proof {
                    assert(T2::is_acquire_of(w2, state.2, g2, w1, old(state).2));
                    assert(T1::is_release_of(w3, state.1, w2, s1, i1));
                }
                Poll::Ready(QueryAcquireResult::DoesNotExist { name })
            },
            Poll::Pending => {
                T1::release(world, &mut state.1, i1);
                let ghost w3 = *world;
                T0::release(world, &mut state.0, i0);
                proof {
                    assert(T2::is_acquire_of(w2, state.2, g2, w1, old(state).2));
                    assert(T1::is_release_of(w3, state.1, w2, s1, i1));
                }
                Poll::Pending
            },
        }
    }

    fn release(world: &mut World<V>, state: &mut Self::State, item: Self::Item) {
        T2::release(world, &mut state.2, item.2);
        let ghost w2 = *world;
        T1::release(world, &mut state.1, item.1);
        let ghost w1 = *world;
        T0::release(world, &mut state.0, item.0);
        proof {
            assert(T1::is_release_of(w1, state.1, w2, old(state).1, item.1));
            assert(T2::is_release_of(w2, state.2, *old(world), old(state).2, item.2));
        }
    }

    fn validate() -> (validator: QueryValidator) {
        let mut qv = QueryValidator::empty();
        qv = QueryValidator::join(qv, T0::validate());
        qv = QueryValidator::join(qv, T1::validate());
        qv = QueryValidator::join(qv, T2::validate());
        qv
    }
}

impl<V, T0: ReadOnlyQuery<V>> ReadOnlyQuery<V> for (T0,) {
    proof fn lemma_read_only() {
        T0::lemma_read_only();
        crate::component::query::lemma_join_read_only(Map::empty(), T0::claims());
    }
}

impl<V, T0: ReadOnlyQuery<V>, T1: ReadOnlyQuery<V>> ReadOnlyQuery<V> for (T0, T1) {
    proof fn lemma_read_only() {
        T0::lemma_read_only();
        T1::lemma_read_only();
        crate::component::query::lemma_join_read_only(Map::empty(), T0::claims());
        crate::component::query::lemma_join_read_only(
            join_maps(Map::empty(), T0::claims()),
            T1::claims(),
        );
    }
}

impl<V, T0: ReadOnlyQuery<V>, T1: ReadOnlyQuery<V>, T2: ReadOnlyQuery<V>> ReadOnlyQuery<V> for (
    T0,
    T1,
    T2,
) {
    proof fn lemma_read_only() {
        T0::lemma_read_only();
        T1::lemma_read_only();
        T2::lemma_read_only();
        crate::component::query::lemma_join_read_only(Map::empty(), T0::claims());
        crate::component::query::lemma_join_read_only(
            join_maps(Map::empty(), T0::claims()),
            T1::claims(),
        );
        crate::component::query::lemma_join_read_only(
            join_maps(join_maps(Map::empty(), T0::claims()), T1::claims()),
            T2::claims(),
        );
    }
}

impl<V> Query<V> for crate::world::Commands {
    type Item = crate::world::Commands;

    type State = ();

    open spec fn component_entries() -> Seq<Claim<QueryValidatorEntryState>> {
        Seq::empty()
    }

    open spec fn resource_entries() -> Seq<Claim<QueryValidatorEntryState>> {
        Seq::empty()
    }

    open spec fn claims() -> Map<ClaimId, QueryValidatorEntryState> {
        Map::empty()
    }

    open spec fn spec_readers() -> nat {
        0
    }

    open spec fn can_release(locks: LockView, item: Self::Item) -> bool {
        true
    }

    open spec fn released(locks: LockView, item: Self::Item) -> LockView {
        locks
    }

    open spec fn is_init_of(
        after: World<V>,
        state: Self::State,
        before: World<V>,
        system_id: Option<SystemId>,
    ) -> bool {
        after == before
    }

    open spec fn is_acquire_of(
        after: World<V>,
        state_after: Self::State,
        res: Poll<QueryAcquireResult<Self::Item>>,
        before: World<V>,
        state_before: Self::State,
    ) -> bool {
        after == before && res is Ready && res->Ready_0 is Ready
    }

    open spec fn is_release_of(
        after: World<V>,
        state_after: Self::State,
        before: World<V>,
        state_before: Self::State,
        item: Self::Item,
    ) -> bool {
        after == before
    }

    fn readers() -> (n: u32) {
        0
    }

    fn init_state(world: &mut World<V>, system_id: Option<SystemId>) -> (state: Self::State) {
        ()
    }

    fn acquire(world: &mut World<V>, state: &mut Self::State) -> (res: Poll<
        QueryAcquireResult<Self::Item>,
    >) {
        Poll::Ready(QueryAcquireResult::Ready(crate::world::Commands::new()))
    }

    fn release(world: &mut World<V>, state: &mut Self::State, item: Self::Item) {
    }

    fn validate() -> (validator: QueryValidator) {
        QueryValidator::empty()
    }
}

impl<V, E: crate::query::event::Event> Query<V> for crate::query::event::EventWriter<E> {
    type Item = crate::query::event::EventWriter<E>;

    type State = ();

    open spec fn component_entries() -> Seq<Claim<QueryValidatorEntryState>> {
        Seq::empty()
    }

    open spec fn resource_entries() -> Seq<Claim<QueryValidatorEntryState>> {
        Seq::empty()
    }

    open spec fn claims() -> Map<ClaimId, QueryValidatorEntryState> {
        Map::empty()
    }

    open spec fn spec_readers() -> nat {
        0
    }

    open spec fn can_release(locks: LockView, item: Self::Item) -> bool {
        true
    }

    open spec fn released(locks: LockView, item: Self::Item) -> LockView {
        locks
    }

    open spec fn is_init_of(
        after: World<V>,
        state: Self::State,
        before: World<V>,
        system_id: Option<SystemId>,
    ) -> bool {
        &&& after.same_but_events(&before)
        &&& after.spec_events().is_channel_of(&before.spec_events(), E::spec_event_id())
    }

    open spec fn is_acquire_of(
        after: World<V>,
        state_after: Self::State,
        res: Poll<QueryAcquireResult<Self::Item>>,
        before: World<V>,
        state_before: Self::State,
    ) -> bool {
        after == before && res is Ready && res->Ready_0 is Ready
    }

    open spec fn is_release_of(
        after: World<V>,
        state_after: Self::State,
        before: World<V>,
        state_before: Self::State,
        item: Self::Item,
    ) -> bool {
        after == before
    }

    fn readers() -> (n: u32) {
        0
    }

    fn init_state(world: &mut World<V>, system_id: Option<SystemId>) -> (state: Self::State) {
        let _ = world.events_mut().writer::<E>();
        proof {
            assert(world.locks().archetypes =~= old(world).locks().archetypes);
            assert(world.locks().resources =~= old(world).locks().resources);
        }
    }

    fn acquire(world: &mut World<V>, state: &mut Self::State) -> (res: Poll<
        QueryAcquireResult<Self::Item>,
    >) {
        Poll::Ready(QueryAcquireResult::Ready(crate::query::event::EventWriter::new()))
    }

    fn release(world: &mut World<V>, state: &mut Self::State, item: Self::Item) {
    }

    fn validate() -> (validator: QueryValidator) {
        QueryValidator::empty()
    }
}

impl<V, E: crate::query::event::Event> Query<V> for crate::query::event::EventReader<E> {
    type Item = crate::query::event::EventReader<E>;

    type State = crate::query::event::EventReader<E>;

    open spec fn component_entries() -> Seq<Claim<QueryValidatorEntryState>> {
        Seq::empty()
    }

    open spec fn resource_entries() -> Seq<Claim<QueryValidatorEntryState>> {
        Seq::empty()
    }

    open spec fn claims() -> Map<ClaimId, QueryValidatorEntryState> {
        Map::empty()
    }

    open spec fn spec_readers() -> nat {
        0
    }

    open spec fn can_release(locks: LockView, item: Self::Item) -> bool {
        true
    }

    open spec fn released(locks: LockView, item: Self::Item) -> LockView {
        locks
    }

    open spec fn is_init_of(
        after: World<V>,
        state: Self::State,
        before: World<V>,
        system_id: Option<SystemId>,
    ) -> bool {
        &&& after.same_but_events(&before)
        &&& after.spec_events().is_reader_of(&before.spec_events(), E::spec_event_id())
        &&& state.index() == before.spec_events().queues(E::spec_event_id()).len()
    }

    open spec fn is_acquire_of(
        after: World<V>,
        state_after: Self::State,
        res: Poll<QueryAcquireResult<Self::Item>>,
        before: World<V>,
        state_before: Self::State,
    ) -> bool {
        &&& after == before
        &&& state_after.index() == state_before.index()
        &&& res matches Poll::Ready(QueryAcquireResult::Ready(reader)) && reader.index()
            == state_before.index()
    }

    open spec fn is_release_of(
        after: World<V>,
        state_after: Self::State,
        before: World<V>,
        state_before: Self::State,
        item: Self::Item,
    ) -> bool {
        after == before && state_after.index() == state_before.index()
    }

    fn readers() -> (n: u32) {
        0
    }

    fn init_state(world: &mut World<V>, system_id: Option<SystemId>) -> (state: Self::State) {
        let reader = world.events_mut().reader::<E>();
        proof {
            assert(world.locks().archetypes =~= old(world).locks().archetypes);
            assert(world.locks().resources =~= old(world).locks().resources);
        }
        reader
    }

    fn acquire(world: &mut World<V>, state: &mut Self::State) -> (res: Poll<
        QueryAcquireResult<Self::Item>,
    >) {
        Poll::Ready(QueryAcquireResult::Ready(state.share()))
    }

    fn release(world: &mut World<V>, state: &mut Self::State, item: Self::Item) {
    }

    fn validate() -> (validator: QueryValidator) {
        QueryValidator::empty()
    }
}

} // verus!
