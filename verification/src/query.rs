//! Queries: typed descriptions of what to borrow from the world.
//!
//! A query acquires in one atomic step: it is ready with everything it
//! asks for, or it has taken nothing. What it has taken is given back with
//! `release`.

use vstd::prelude::*;
use crate::system::SystemId;
use crate::util::unqualified::{unqualified, unqualify};
use crate::world::{LockView, World};
use crate::Poll;
use vstd::string::StringExecFns;

pub mod event;
pub mod impls;
pub mod scoped;
pub mod state;
pub mod validate;

pub use event::{Event, EventBus, EventReader, EventWriter};
pub use scoped::Scoped;
pub use state::{PersistentQueryState, QueryAcquireFuture};
pub use validate::{ClaimId, QueryValidator, QueryValidatorEntryState};

verus! {

/// What a query found.
pub enum QueryAcquireResult<T> {
    /// The query acquired what it asked for.
    Ready(T),
    /// What the query asked for does not exist.
    DoesNotExist {
        /// The name of the type of the value that does not exist.
        name: &'static str,
    },
}

/// The message about a query that asked for a value that does not exist.
pub open spec fn missing_message(name: Seq<char>) -> Seq<char> {
    "Query requested non-existant "@ + unqualified(name)
}

impl<T> QueryAcquireResult<T> {
    /// Whether the query acquired what it asked for.
    pub fn is_ready(&self) -> (b: bool)
        ensures
            b == (*self is Ready),
    {
        match self {
            QueryAcquireResult::Ready(_) => true,
            QueryAcquireResult::DoesNotExist { .. } => false,
        }
    }

    /// What the query acquired. A query that found nothing has nothing to
    /// give: see [`QueryAcquireResult::missing`] for its message.
    pub fn unwrap(self) -> (item: T)
        requires
            self is Ready,
        ensures
            self == QueryAcquireResult::Ready(item),
    {
        match self {
            QueryAcquireResult::Ready(item) => item,
            QueryAcquireResult::DoesNotExist { .. } => vstd::pervasive::unreached(),
        }
    }

    /// What the query acquired, without a test.
    pub fn unwrap_unchecked(self) -> (item: T)
        requires
            self is Ready,
        ensures
            self == QueryAcquireResult::Ready(item),
    {
        self.unwrap()
    }

    /// The message about a query that found nothing, `None` for one that
    /// acquired what it asked for.
    pub fn missing(&self) -> (message: Option<String>)
        ensures
            message is Some == (*self is DoesNotExist),
            message matches Some(text) ==> text@ == missing_message(self->name@),
    {
        match self {
            QueryAcquireResult::Ready(_) => None,
            QueryAcquireResult::DoesNotExist { name } => {
                let mut text = String::from_str("Query requested non-existant ");
                let short = unqualify(name);
                text.append(short.as_str());
                Some(text)
            },
        }
    }
}

/// What a query returns whose part returned `res` without being ready:
/// what the part found to be missing is missing for the whole, and a
/// pending part makes the whole pending.
pub open spec fn not_ready<A, B>(res: Poll<QueryAcquireResult<A>>) -> Poll<QueryAcquireResult<B>> {
    match res {
        Poll::Ready(QueryAcquireResult::DoesNotExist { name }) => Poll::Ready(
            QueryAcquireResult::DoesNotExist { name },
        ),
        _ => Poll::Pending,
    }
}

/// Whether `n` stands for the number `readers`: it is that number, or
/// the largest number that fits where `readers` does not fit.
pub open spec fn counts(n: u32, readers: nat) -> bool {
    n == readers || (n == u32::MAX && readers >= u32::MAX)
}

/// Room for the readers that `n` stands for is room for `readers`, and
/// the other way round.
pub proof fn lemma_counted_room(locks: LockView, n: u32, readers: nat)
    requires
        counts(n, readers),
    ensures
        locks.reader_room(n as nat) == locks.reader_room(readers),
{
    if n != readers {
        if locks.reader_room(n as nat) {
            assert forall|a: int| 0 <= a < locks.archetypes.len() implies (
            #[trigger] locks.archetypes[a]).reader_room(readers) by {
                assert(locks.archetypes[a].reader_room(n as nat));
            }
            assert forall|id: u64| locks.resources.dom().contains(id) implies (
            #[trigger] locks.resources[id]).reader_room(readers) by {
                assert(locks.resources[id].reader_room(n as nat));
            }
        }
        if locks.reader_room(readers) {
            assert forall|a: int| 0 <= a < locks.archetypes.len() implies (
            #[trigger] locks.archetypes[a]).reader_room(n as nat) by {
                assert(locks.archetypes[a].reader_room(readers));
            }
            assert forall|id: u64| locks.resources.dom().contains(id) implies (
            #[trigger] locks.resources[id]).reader_room(n as nat) by {
                assert(locks.resources[id].reader_room(readers));
            }
        }
    }
}

/// A typed description of what to borrow from a world whose values are of
/// type `V`.
pub trait Query<V>: Sized {
    /// What the query hands to its holder.
    type Item;

    /// What the query keeps from one acquisition to the next.
    type State;

    /// The values that the query accesses, each with the way it does.
    spec fn claims() -> Map<crate::query::validate::ClaimId,
        crate::query::validate::QueryValidatorEntryState>;

    /// The component types that the query accesses, in the order in which
    /// its validator lists them, each with its name and the way it is
    /// accessed.
    spec fn component_entries() -> Seq<crate::util::claims::Claim<QueryValidatorEntryState>>;

    /// The resource types that the query accesses, in the order in which
    /// its validator lists them, each with its name and the way it is
    /// accessed.
    spec fn resource_entries() -> Seq<crate::util::claims::Claim<QueryValidatorEntryState>>;

    /// The number of readers that an acquisition may add to one latch.
    spec fn spec_readers() -> nat;

    /// Whether `item` can be given back to a world with these locks.
    spec fn can_release(locks: LockView, item: Self::Item) -> bool;

    /// The locks of the world after `item` was given back.
    spec fn released(locks: LockView, item: Self::Item) -> LockView;

    /// Whether the world `after` and `state` are what making the state of
    /// the query for the holder `system_id` makes of the world `before`.
    spec fn is_init_of(
        after: World<V>,
        state: Self::State,
        before: World<V>,
        system_id: Option<SystemId>,
    ) -> bool;

    /// Whether the world `after`, `state_after` and `res` are what one
    /// attempt to acquire makes of the world `before` and `state_before`.
    spec fn is_acquire_of(
        after: World<V>,
        state_after: Self::State,
        res: Poll<QueryAcquireResult<Self::Item>>,
        before: World<V>,
        state_before: Self::State,
    ) -> bool;

    /// Whether the world `after` and `state_after` are what giving `item`
    /// back makes of the world `before` and `state_before`.
    spec fn is_release_of(
        after: World<V>,
        state_after: Self::State,
        before: World<V>,
        state_before: Self::State,
        item: Self::Item,
    ) -> bool;

    /// The number of readers that an acquisition may add to one latch, for
    /// whoever has to make room before it asks.
    fn readers() -> (n: u32)
        ensures
            counts(n, Self::spec_readers()),
    ;

    /// Makes the state of the query, once for each holder.
    fn init_state(world: &mut World<V>, system_id: Option<SystemId>) -> (state: Self::State)
        requires
            old(world).wf(),
        ensures
            final(world).wf(),
            final(world).locks() == old(world).locks(),
            Self::is_init_of(*final(world), state, *old(world), system_id),
    ;

    /// Tries to acquire what the query asks for.
    ///
    /// The step is atomic: unless it is ready with an item, no latch of the
    /// world has changed. After it was ready, giving the item back makes the
    /// locks what they were.
    fn acquire(world: &mut World<V>, state: &mut Self::State) -> (res: Poll<
        QueryAcquireResult<Self::Item>,
    >)
        requires
            old(world).wf(),
            old(world).locks().reader_room(Self::spec_readers()),
        ensures
            final(world).wf(),
            forall|n: nat|
                old(world).locks().reader_room(n + Self::spec_readers())
                    ==> #[trigger] final(world).locks().reader_room(n),
            res matches Poll::Ready(QueryAcquireResult::Ready(item)) ==> Self::can_release(
                final(world).locks(),
                item,
            ) && Self::released(final(world).locks(), item) == old(world).locks(),
            !(res matches Poll::Ready(QueryAcquireResult::Ready(_))) ==> final(world).locks()
                == old(world).locks(),
            Self::is_acquire_of(*final(world), *final(state), res, *old(world), *old(state)),
    ;

    /// Gives back what an acquisition took.
    fn release(world: &mut World<V>, state: &mut Self::State, item: Self::Item)
        requires
            old(world).wf(),
            Self::can_release(old(world).locks(), item),
        ensures
            final(world).wf(),
            final(world).locks() == Self::released(old(world).locks(), item),
            Self::is_release_of(*final(world), *final(state), *old(world), *old(state), item),
    ;

    /// The validator of the query: the join of what its parts ask for.
    fn validate() -> (validator: QueryValidator)
        ensures
            validator.wf(),
            validator@ == Self::claims(),
            validator.component_entries() == Self::component_entries(),
            validator.resource_entries() == Self::resource_entries(),
    ;
}

/// A query that reads only.
pub trait ReadOnlyQuery<V>: Query<V> {
    /// Every value that the query accesses is only read.
    proof fn lemma_read_only()
        ensures
            forall|id: ClaimId| #[trigger]
                Self::claims().dom().contains(id) ==> Self::claims()[id] is Immutable,
    ;
}

} // verus!
