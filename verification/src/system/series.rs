//! Systems in series: the second runs when the first is done.

use vstd::prelude::*;
use crate::query::validate::{ClaimId, QueryValidator, QueryValidatorEntryState};
use crate::query::{not_ready, QueryAcquireResult};
use crate::system::piped::lemma_room_less;
use crate::system::{IntoSystem, ReadOnlySystem, System, SystemId};
use crate::util::claims::{join_maps, merged, Claim};
use crate::world::World;
use crate::Poll;

verus! {

/// Two things that turn into systems, to be run in series.
pub struct IntoSeriesSystem<A, B> {
    pub a: A,
    pub b: B,
}

/// Two systems in series.
pub struct SeriesSystem<A, B> {
    a: A,
    b: B,
}

impl<A, B> SeriesSystem<A, B> {
    /// The first system.
    pub closed spec fn first(&self) -> A {
        self.a
    }

    /// The second system.
    pub closed spec fn second(&self) -> B {
        self.b
    }
}

impl<V, Return, A, B> System<V, Return> for SeriesSystem<A, B> where
    A: System<V, ()>,
    B: System<V, Return, Passed = ()>,
 {
    type Passed = A::Passed;

    open spec fn is_running(&self) -> bool {
        self.first().is_running() || self.second().is_running()
    }

    open spec fn spec_readers(&self) -> nat {
        if self.first().spec_readers() >= self.second().spec_readers() {
            self.first().spec_readers()
        } else {
            self.second().spec_readers()
        }
    }

    open spec fn is_cancel_of(&self, before: &Self) -> bool {
        self.first().is_cancel_of(&before.first()) && self.second().is_cancel_of(&before.second())
    }

    open spec fn is_start_of(&self, before: &Self, passed: Self::Passed) -> bool {
        self.first().is_start_of(&before.first(), passed) && self.second() == before.second()
    }

    open spec fn is_poll_of(
        &self,
        after: &World<V>,
        res: Poll<QueryAcquireResult<Return>>,
        before: &Self,
        world: &World<V>,
    ) -> bool {
        if before.second().is_running() {
            self.first().is_cancel_of(&before.first()) && self.second().is_poll_of(
                after,
                res,
                &before.second(),
                world,
            )
        } else {
            exists|w0: World<V>, found: Poll<QueryAcquireResult<()>>| #[trigger]
                self.first().is_poll_of(&w0, found, &before.first(), world) && match found {
                    Poll::Ready(QueryAcquireResult::Ready(out)) => exists|b0: B| #[trigger]
                        b0.is_start_of(&before.second(), ()) && self.second().is_poll_of(
                            after,
                            res,
                            &b0,
                            &w0,
                        ),
                    _ => *after == w0 && self.second() == before.second() && res == not_ready::<
                        (),
                        Return,
                    >(found),
                }
        }
    }

    fn readers(&self) -> (n: u32) {
        let a = self.a.readers();
        let b = self.b.readers();
        if a >= b {
            a
        } else {
            b
        }
    }

    fn running(&self) -> (b: bool) {
        self.a.running() || self.b.running()
    }

    fn cancel(&mut self) {
        self.a.cancel();
        self.b.cancel();
    }

    fn start(&mut self, passed: Self::Passed) {
        self.a.start(passed);
    }

    fn poll(&mut self, world: &mut World<V>) -> (res: Poll<QueryAcquireResult<Return>>) {
        proof {
            lemma_room_less(old(world).locks(), old(self).spec_readers(), self.a.spec_readers());
            lemma_room_less(old(world).locks(), old(self).spec_readers(), self.b.spec_readers());
        }
        if !self.b.running() {
            let found = self.a.poll(world);
            let ghost w0 = *world;
            proof {
                assert(self.first().is_poll_of(&w0, found, &old(self).first(), old(world)));
            }
            match found {
                Poll::Ready(QueryAcquireResult::Ready(_)) => {
                    self.b.start(());
                },
                Poll::Ready(QueryAcquireResult::DoesNotExist { name }) => {
                    return Poll::Ready(QueryAcquireResult::DoesNotExist { name });
                },
                Poll::Pending => {
                    return Poll::Pending;
                },
            }
        } else {
            self.a.cancel();
        }
        let ghost b0 = self.b;
        let ghost w0 = *world;
        let res = self.b.poll(world);
        proof {
            assert(self.second().is_poll_of(world, res, &b0, &w0));
        }
        res
    }
}

impl<V, Return, A, B> IntoSystem<V, Return> for IntoSeriesSystem<A, B> where
    A: IntoSystem<V, ()>,
    B: IntoSystem<V, Return>,
    B::System: System<V, Return, Passed = ()>,
 {
    type System = SeriesSystem<A::System, B::System>;

    open spec fn component_entries() -> Seq<Claim<QueryValidatorEntryState>> {
        merged(A::component_entries(), B::component_entries())
    }

    open spec fn resource_entries() -> Seq<Claim<QueryValidatorEntryState>> {
        merged(A::resource_entries(), B::resource_entries())
    }

    open spec fn claims() -> Map<ClaimId, QueryValidatorEntryState> {
        join_maps(A::claims(), B::claims())
    }

    open spec fn is_system_of(
        &self,
        system: Self::System,
        after: &World<V>,
        before: &World<V>,
        system_id: Option<SystemId>,
    ) -> bool {
        exists|middle: World<V>| #[trigger]
            self.a.is_system_of(system.first(), &middle, before, system_id)
                && self.b.is_system_of(system.second(), after, &middle, system_id)
    }

    fn validate() -> (validator: QueryValidator) {
        QueryValidator::join(A::validate(), B::validate())
    }

    fn into_system(self, world: &mut World<V>, system_id: Option<SystemId>) -> (system: Self::System) {
        self.into_system_unchecked(world, system_id)
    }

    fn into_system_unchecked(self, world: &mut World<V>, system_id: Option<SystemId>) -> (system: Self::System) {
        let a = self.a.into_system_unchecked(world, system_id);
        let ghost middle = *world;
        let b = self.b.into_system_unchecked(world, system_id);
        proof {
            assert(self.a.is_system_of(a, &middle, old(world), system_id));
        }
        SeriesSystem { a, b }
    }
}

/// The system that runs `a` to its end and then `b`.
pub fn then<A, B>(a: A, b: B) -> (series: IntoSeriesSystem<A, B>)
    ensures
        series.a == a,
        series.b == b,
{
    IntoSeriesSystem { a, b }
}

impl<V, Return, A, B> ReadOnlySystem<V, Return> for SeriesSystem<A, B> where
    A: ReadOnlySystem<V, ()>,
    B: ReadOnlySystem<V, Return, Passed = ()>,
 {

}

} // verus!
