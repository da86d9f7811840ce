//! Systems side by side: both are polled until both are done.

use vstd::prelude::*;
use crate::query::validate::{ClaimId, QueryValidator, QueryValidatorEntryState};
use crate::query::QueryAcquireResult;
use crate::system::piped::lemma_room_less;
use crate::system::{IntoSystem, ReadOnlySystem, System, SystemId};
use crate::util::claims::{join_maps, merged, Claim};
use crate::world::World;
use crate::Poll;

verus! {

/// Two things that turn into systems, to be run side by side.
pub struct IntoParallelSystem<A, B> {
    pub a: A,
    pub b: B,
}

/// Two systems side by side.
pub struct ParallelSystem<A, B> {
    a: A,
    b: B,
}

impl<A, B> ParallelSystem<A, B> {
    /// The one system.
    pub closed spec fn first(&self) -> A {
        self.a
    }

    /// The other system.
    pub closed spec fn second(&self) -> B {
        self.b
    }
}

/// Whether the system `after`, the world `world_after` and `res` are what
/// the turn of one of two systems side by side makes of the system `before`
/// and the world `world`: a system that is running is polled, and one that
/// is not is passed over.
pub open spec fn is_turn_of<V, S: System<V, ()>>(
    after: S,
    world_after: World<V>,
    res: Poll<QueryAcquireResult<()>>,
    before: S,
    world: World<V>,
) -> bool {
    if before.is_running() {
        after.is_poll_of(&world_after, res, &before, &world)
    } else {
        after == before && world_after == world && res == Poll::<QueryAcquireResult<()>>::Ready(
            QueryAcquireResult::Ready(()),
        )
    }
}

impl<V, A, B> System<V, ()> for ParallelSystem<A, B> where
    A: System<V, (), Passed = ()>,
    B: System<V, (), Passed = ()>,
 {
    type Passed = ();

    open spec fn is_running(&self) -> bool {
        self.first().is_running() || self.second().is_running()
    }

    open spec fn spec_readers(&self) -> nat {
        if self.first().spec_readers() >= self.second().spec_readers() {
            self.first().spec_readers()
        } else {
            self.second().spec_readers()
        }
    }

    open spec fn is_cancel_of(&self, before: &Self) -> bool {
        self.first().is_cancel_of(&before.first()) && self.second().is_cancel_of(&before.second())
    }

    open spec fn is_start_of(&self, before: &Self, passed: Self::Passed) -> bool {
        exists|a0: A, b0: B| #[trigger]
            a0.is_cancel_of(&before.first()) && #[trigger] b0.is_cancel_of(&before.second())
                && self.first().is_start_of(&a0, ()) && self.second().is_start_of(&b0, ())
    }

    open spec fn is_poll_of(
        &self,
        after: &World<V>,
        res: Poll<QueryAcquireResult<()>>,
        before: &Self,
        world: &World<V>,
    ) -> bool {
        exists|a1: A, w0: World<V>, ra: Poll<QueryAcquireResult<()>>| #[trigger]
            is_turn_of(a1, w0, ra, before.first(), *world) && if ra matches Poll::Ready(
                QueryAcquireResult::DoesNotExist { .. },
            ) {
                self.first() == a1 && self.second().is_cancel_of(&before.second()) && *after == w0
                    && res == ra
            } else {
                exists|rb: Poll<QueryAcquireResult<()>>| #[trigger]
                    is_turn_of(self.second(), *after, rb, before.second(), w0)
                        && if rb matches Poll::Ready(QueryAcquireResult::DoesNotExist { .. }) {
                        self.first().is_cancel_of(&a1) && res == rb
                    } else {
                        self.first() == a1 && res == if !self.first().is_running()
                            && !self.second().is_running() {
                            Poll::<QueryAcquireResult<()>>::Ready(QueryAcquireResult::Ready(()))
                        } else {
                            Poll::<QueryAcquireResult<()>>::Pending
                        }
                    }
            }
    }

    fn readers(&self) -> (n: u32) {
        let a = self.a.readers();
        let b = self.b.readers();
        if a >= b {
            a
        } else {
            b
        }
    }

    fn running(&self) -> (b: bool) {
        self.a.running() || self.b.running()
    }

    fn cancel(&mut self) {
        self.a.cancel();
        self.b.cancel();
    }

    fn start(&mut self, passed: Self::Passed) {
        self.a.cancel();
        self.b.cancel();
        let ghost a0 = self.a;
        let ghost b0 = self.b;
        self.a.start(());
        self.b.start(());
        proof {
            assert(a0.is_cancel_of(&old(self).first()));
            assert(b0.is_cancel_of(&old(self).second()));
        }
    }

    fn poll(&mut self, world: &mut World<V>) -> (res: Poll<QueryAcquireResult<()>>) {
        proof {
            lemma_room_less(old(world).locks(), old(self).spec_readers(), self.a.spec_readers());
            lemma_room_less(old(world).locks(), old(self).spec_readers(), self.b.spec_readers());
        }
        let ghost mut ra = Poll::<QueryAcquireResult<()>>::Ready(QueryAcquireResult::Ready(()));
        if self.a.running() {
            let found = self.a.poll(world);
            proof {
                ra = found;
            }
            match found {
                Poll::Ready(QueryAcquireResult::DoesNotExist { name }) => {
                    self.b.cancel();
                    proof {
                        assert(is_turn_of(
                            self.first(),
                            *world,
                            ra,
                            old(self).first(),
                            *old(world),
                        ));
                    }
                    return Poll::Ready(QueryAcquireResult::DoesNotExist { name });
                },
                _ => {},
            }
        }
        let ghost a1 = self.a;
        let ghost w0 = *world;
        let ghost mut rb = Poll::<QueryAcquireResult<()>>::Ready(QueryAcquireResult::Ready(()));
        if self.b.running() {
            let found = self.b.poll(world);
            proof {
                rb = found;
            }
            match found {
                Poll::Ready(QueryAcquireResult::DoesNotExist { name }) => {
                    self.a.cancel();
                    proof {
                        assert(is_turn_of(a1, w0, ra, old(self).first(), *old(world)));
                        assert(is_turn_of(self.second(), *world, rb, old(self).second(), w0));
                    }
                    return Poll::Ready(QueryAcquireResult::DoesNotExist { name });
                },
                _ => {},
            }
        }
        proof {
            assert(is_turn_of(a1, w0, ra, old(self).first(), *old(world)));
            assert(is_turn_of(self.second(), *world, rb, old(self).second(), w0));
        }
        if !self.a.running() && !self.b.running() {
            Poll::Ready(QueryAcquireResult::Ready(()))
        } else {
            Poll::Pending
        }
    }
}

impl<V, A, B> IntoSystem<V, ()> for IntoParallelSystem<A, B> where
    A: IntoSystem<V, ()>,
    B: IntoSystem<V, ()>,
    A::System: System<V, (), Passed = ()>,
    B::System: System<V, (), Passed = ()>,
 {
    type System = ParallelSystem<A::System, B::System>;

    open spec fn component_entries() -> Seq<Claim<QueryValidatorEntryState>> {
        merged(A::component_entries(), B::component_entries())
    }

    open spec fn resource_entries() -> Seq<Claim<QueryValidatorEntryState>> {
        merged(A::resource_entries(), B::resource_entries())
    }

    open spec fn claims() -> Map<ClaimId, QueryValidatorEntryState> {
        join_maps(A::claims(), B::claims())
    }

    open spec fn is_system_of(
        &self,
        system: Self::System,
        after: &World<V>,
        before: &World<V>,
        system_id: Option<SystemId>,
    ) -> bool {
        exists|middle: World<V>| #[trigger]
            self.a.is_system_of(system.first(), &middle, before, system_id)
                && self.b.is_system_of(system.second(), after, &middle, system_id)
    }

    fn validate() -> (validator: QueryValidator) {
        QueryValidator::join(A::validate(), B::validate())
    }

    fn into_system(self, world: &mut World<V>, system_id: Option<SystemId>) -> (system: Self::System) {
        self.into_system_unchecked(world, system_id)
    }

    fn into_system_unchecked(self, world: &mut World<V>, system_id: Option<SystemId>) -> (system: Self::System) {
        let a = self.a.into_system_unchecked(world, system_id);
        let ghost middle = *world;
        let b = self.b.into_system_unchecked(world, system_id);
        proof {
            assert(self.a.is_system_of(a, &middle, old(world), system_id));
        }
        ParallelSystem { a, b }
    }
}

/// The system that runs `a` and `b` side by side.
pub fn parallel<A, B>(a: A, b: B) -> (both: IntoParallelSystem<A, B>)
    ensures
        both.a == a,
        both.b == b,
{
    IntoParallelSystem { a, b }
}

impl<V, A, B> ReadOnlySystem<V, ()> for ParallelSystem<A, B> where
    A: ReadOnlySystem<V, (), Passed = ()>,
    B: ReadOnlySystem<V, (), Passed = ()>,
 {

}

} // verus!
