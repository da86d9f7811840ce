//! A multi-reader, single-writer latch that gives up fairness for speed.
//!
//! The latch is a counter and a count of waiting writers. Every operation is
//! one atomic step on that pair, so a run of concurrent tasks is a sequence
//! of calls on the same latch. A guard is a token: it proves that a step
//! succeeded, gives access to the value behind the latch, and is handed back
//! to the latch when its holder is done.

use vstd::prelude::*;
use crate::Poll;

verus! {

/// The counter value that stands for "one writer holds the latch".
pub const WRITE_LOCKED: u32 = 0xffff_ffff;

/// The value and the lock state of a [`RwLock`].
pub struct RwLockInner<T> {
    value: T,
    state: u32,
    waiting_writes: u32,
}

/// A latch around one value.
pub struct RwLock<T> {
    inner: RwLockInner<T>,
}

/// Proof that one reader is counted on a latch.
pub struct RwLockReadGuard {
    _private: (),
}

/// Proof that the single writer of a latch is held.
pub struct RwLockWriteGuard {
    _private: (),
}

/// A reader that has not been admitted yet.
pub struct PendingRwLockRead {
    _private: (),
}

/// A writer that has announced itself and keeps new readers out.
pub struct PendingRwLockWrite {
    _private: (),
}

/// A reader that has announced it wants to become the writer.
pub struct PendingRwLockUpgrade {
    _private: (),
}

/// A latch that is being taken apart for the value in it.
pub struct PendingRwLockOwn<T> {
    lock: Option<RwLockInner<T>>,
}

impl<T> RwLockInner<T> {
    /// The value behind the latch.
    pub closed spec fn value(&self) -> T {
        self.value
    }

    /// The counter: `0` idle, `WRITE_LOCKED` one writer, else the number of readers.
    pub closed spec fn state(&self) -> u32 {
        self.state
    }

    /// The number of writers that wait and keep new readers out.
    pub closed spec fn waiting_writes(&self) -> u32 {
        self.waiting_writes
    }

    /// Nobody holds the latch.
    pub open spec fn is_idle(&self) -> bool {
        self.state() == 0
    }

    /// One writer holds the latch.
    pub open spec fn is_write_locked(&self) -> bool {
        self.state() == WRITE_LOCKED
    }

    /// The number of readers that hold the latch.
    pub open spec fn readers(&self) -> nat {
        if self.is_write_locked() {
            0
        } else {
            self.state() as nat
        }
    }

    /// A reader would be admitted now.
    pub open spec fn can_read(&self) -> bool {
        self.waiting_writes() == 0 && self.state() < WRITE_LOCKED
    }

    /// The reader count cannot grow any further.
    pub open spec fn is_saturated(&self) -> bool {
        self.state() == WRITE_LOCKED - 1
    }

    /// The same latch with another counter value.
    pub open spec fn with_state(&self, state: u32) -> Self {
        RwLockInner::make(self.value(), state, self.waiting_writes())
    }

    /// The same latch with another number of waiting writers.
    pub open spec fn with_waiting(&self, waiting_writes: u32) -> Self {
        RwLockInner::make(self.value(), self.state(), waiting_writes)
    }

    /// The latch with the given parts.
    pub closed spec fn make(value: T, state: u32, waiting_writes: u32) -> Self {
        RwLockInner { value, state, waiting_writes }
    }

    /// A latch is its three parts.
    pub broadcast proof fn lemma_make(value: T, state: u32, waiting_writes: u32)
        ensures
            (#[trigger] Self::make(value, state, waiting_writes)).value() == value,
            Self::make(value, state, waiting_writes).state() == state,
            Self::make(value, state, waiting_writes).waiting_writes() == waiting_writes,
    {
    }

    /// Taking an idle latch for writing and giving it back leaves it as it was.
    pub proof fn lemma_write_release(self)
        requires
            self.is_idle(),
        ensures
            self.with_state(WRITE_LOCKED).with_state(0) == self,
            self.with_state(WRITE_LOCKED).value() == self.value(),
            self.with_state(WRITE_LOCKED).is_write_locked(),
    {
    }

    /// Counting one more reader on a latch and giving the reader up leaves
    /// the latch as it was.
    pub proof fn lemma_read_release(self)
        requires
            self.can_read(),
            !self.is_saturated(),
        ensures
            self.with_state((self.state() + 1) as u32).with_state(
                self.with_state((self.state() + 1) as u32).state().wrapping_sub(1),
            ) == self,
            self.with_state((self.state() + 1) as u32).value() == self.value(),
            self.with_state((self.state() + 1) as u32).state() == self.state() + 1,
    {
    }

    /// A latch is made of its own parts.
    pub broadcast proof fn lemma_make_self(self)
        ensures
            #[trigger] Self::make(self.value(), self.state(), self.waiting_writes()) == self,
    {
    }

    /// The value, for a step on what lies behind latches of its own.
    pub(crate) fn peek(&self) -> (value: &T)
        ensures
            *value == self.value(),
    {
        &self.value
    }

    /// The value, for a step on what lies behind latches of its own.
    pub(crate) fn peek_mut(&mut self) -> (value: &mut T)
        ensures
            *value == old(self).value(),
            *final(self) == RwLockInner::make(
                *final(value),
                old(self).state(),
                old(self).waiting_writes(),
            ),
    {
        &mut self.value
    }

    /// Takes back a write that this crate took in the same step.
    pub(crate) fn undo_write(&mut self)
        ensures
            *final(self) == old(self).with_state(0),
    {
        self.state = 0;
    }

    /// Takes back a read that this crate took in the same step.
    pub(crate) fn undo_read(&mut self)
        ensures
            *final(self) == old(self).with_state(old(self).state().wrapping_sub(1)),
    {
        self.state = self.state.wrapping_sub(1);
    }

    /// Whether a reader would be admitted now.
    pub fn readable(&self) -> (b: bool)
        ensures
            b == self.can_read(),
    {
        self.waiting_writes == 0 && self.state < WRITE_LOCKED
    }

    /// Whether `n` more readers can be counted without exhausting the counter.
    pub fn has_reader_room(&self, n: u32) -> (b: bool)
        ensures
            b == (self.state() == WRITE_LOCKED || self.state() + n < WRITE_LOCKED - 1),
    {
        self.state == WRITE_LOCKED || (n < WRITE_LOCKED - 1 && self.state < WRITE_LOCKED - 1 - n)
    }

    /// Whether the reader count cannot grow any further.
    pub fn saturated(&self) -> (b: bool)
        ensures
            b == self.is_saturated(),
    {
        self.state == WRITE_LOCKED - 1
    }

    /// Whether nobody holds the latch.
    pub fn idle(&self) -> (b: bool)
        ensures
            b == self.is_idle(),
    {
        self.state == 0
    }

    /// Whether one writer holds the latch.
    pub fn write_locked(&self) -> (b: bool)
        ensures
            b == self.is_write_locked(),
    {
        self.state == WRITE_LOCKED
    }

    /// Tries to count one more reader.
    ///
    /// The reader is admitted exactly when no writer waits and no writer
    /// holds the latch. A latch whose reader count is exhausted cannot be
    /// asked.
    pub fn try_read(&mut self) -> (res: Poll<RwLockReadGuard>)
        requires
            old(self).can_read() ==> !old(self).is_saturated(),
        ensures
            (res is Ready) == old(self).can_read(),
            res is Ready ==> *final(self) == old(self).with_state((old(self).state() + 1) as u32),
            res is Pending ==> *final(self) == *old(self),
    {
        if self.waiting_writes > 0 {
            return Poll::Pending;
        }
        if self.state < WRITE_LOCKED {
            self.state = self.state + 1;
            Poll::Ready(RwLockReadGuard { _private: () })
        } else {
            Poll::Pending
        }
    }

    /// A reader that will ask again until it is admitted.
    pub fn read(&self) -> (pending: PendingRwLockRead) {
        PendingRwLockRead { _private: () }
    }

    /// Tries to become the writer, which succeeds exactly on an idle latch.
    pub fn try_write(&mut self) -> (res: Poll<RwLockWriteGuard>)
        ensures
            (res is Ready) == old(self).is_idle(),
            res is Ready ==> *final(self) == old(self).with_state(WRITE_LOCKED),
            res is Pending ==> *final(self) == *old(self),
    {
        if self.state == 0 {
            self.state = WRITE_LOCKED;
            Poll::Ready(RwLockWriteGuard { _private: () })
        } else {
            Poll::Pending
        }
    }

    /// Announces a writer: from now on no new reader is admitted.
    pub fn write(&mut self) -> (pending: PendingRwLockWrite)
        ensures
            *final(self) == old(self).with_waiting(old(self).waiting_writes().wrapping_add(1)),
    {
        self.waiting_writes = self.waiting_writes.wrapping_add(1);
        PendingRwLockWrite { _private: () }
    }

    /// The writer's guard of a latch that was made write-locked.
    pub fn write_unchecked(&self) -> (guard: RwLockWriteGuard)
        requires
            self.is_write_locked(),
    {
        RwLockWriteGuard { _private: () }
    }
}

impl<T> RwLock<T> {
    /// What is behind this handle.
    pub closed spec fn view(&self) -> RwLockInner<T> {
        self.inner
    }

    /// Handles on the same latch are the same handle.
    pub proof fn lemma_view_ext(self, other: Self)
        requires
            self@ == other@,
        ensures
            self == other,
    {
    }

    /// An idle latch around `value`.
    pub fn new(value: T) -> (lock: Self)
        ensures
            lock@ == RwLockInner::make(value, 0, 0),
            lock@.value() == value,
            lock@.is_idle(),
            lock@.waiting_writes() == 0,
    {
        RwLock { inner: RwLockInner { value, state: 0, waiting_writes: 0 } }
    }

    /// A latch around `value` that is born write-locked; its maker gets the
    /// guard from [`RwLockInner::write_unchecked`].
    pub fn new_writing(value: T) -> (lock: Self)
        ensures
            lock@ == RwLockInner::make(value, WRITE_LOCKED, 0),
            lock@.value() == value,
            lock@.is_write_locked(),
            lock@.waiting_writes() == 0,
    {
        RwLock { inner: RwLockInner { value, state: WRITE_LOCKED, waiting_writes: 0 } }
    }

    /// The latch itself, to look at.
    pub fn inner(&self) -> (inner: &RwLockInner<T>)
        ensures
            *inner == self@,
    {
        &self.inner
    }

    /// The latch itself, to take a step on.
    pub fn inner_mut(&mut self) -> (inner: &mut RwLockInner<T>)
        ensures
            *inner == old(self)@,
            final(self)@ == *final(inner),
    {
        &mut self.inner
    }

    /// The value of a latch that this crate has taken out of use.
    pub(crate) fn into_value(self) -> (value: T)
        ensures
            value == self@.value(),
    {
        self.inner.value
    }

    /// Starts taking the latch apart.
    pub fn into_inner(self) -> (own: PendingRwLockOwn<T>)
        ensures
            own.pending() == Some(self@),
    {
        PendingRwLockOwn { lock: Some(self.inner) }
    }

    /// Takes the value out of an idle latch; a latch in use is handed back.
    pub fn try_into_inner(self) -> (res: Result<T, RwLock<T>>)
        ensures
            self@.is_idle() ==> res == Ok::<T, RwLock<T>>(self@.value()),
            !self@.is_idle() ==> res == Err::<T, RwLock<T>>(self),
    {
        if self.inner.state == 0 {
            Ok(self.inner.value)
        } else {
            Err(self)
        }
    }
}

impl PendingRwLockRead {
    /// Asks the latch once more; see [`RwLockInner::try_read`].
    pub fn try_read<T>(&self, lock: &mut RwLockInner<T>) -> (res: Poll<RwLockReadGuard>)
        requires
            old(lock).can_read() ==> !old(lock).is_saturated(),
        ensures
            (res is Ready) == old(lock).can_read(),
            res is Ready ==> *final(lock) == old(lock).with_state((old(lock).state() + 1) as u32),
            res is Pending ==> *final(lock) == *old(lock),
    {
        lock.try_read()
    }
}

impl RwLockReadGuard {
    /// The value, shared.
    pub fn get_ref<'a, T>(&self, lock: &'a RwLockInner<T>) -> (value: &'a T)
        ensures
            *value == lock.value(),
    {
        &lock.value
    }

    /// Gives the reader's place back.
    pub fn release<T>(self, lock: &mut RwLockInner<T>)
        ensures
            *final(lock) == old(lock).with_state(old(lock).state().wrapping_sub(1)),
    {
        lock.state = lock.state.wrapping_sub(1);
    }

    /// Turns the only reader into the writer. With other readers about, the
    /// guard comes back unchanged.
    pub fn try_upgrade<T>(guard: Self, lock: &mut RwLockInner<T>) -> (res: Result<
        RwLockWriteGuard,
        RwLockReadGuard,
    >)
        ensures
            (res is Ok) == (old(lock).state() == 1),
            res is Ok ==> *final(lock) == old(lock).with_state(WRITE_LOCKED),
            res is Err ==> *final(lock) == *old(lock),
    {
        if lock.state == 1 {
            lock.state = WRITE_LOCKED;
            Ok(RwLockWriteGuard { _private: () })
        } else {
            Err(guard)
        }
    }

    /// Announces that this reader wants to write; new readers stay out.
    pub fn upgrade<T>(guard: Self, lock: &mut RwLockInner<T>) -> (pending: PendingRwLockUpgrade)
        ensures
            *final(lock) == old(lock).with_waiting(old(lock).waiting_writes().wrapping_add(1)),
    {
        lock.waiting_writes = lock.waiting_writes.wrapping_add(1);
        PendingRwLockUpgrade { _private: () }
    }
}

impl PendingRwLockWrite {
    /// Asks the latch once more; see [`RwLockInner::try_write`].
    pub fn try_write<T>(&self, lock: &mut RwLockInner<T>) -> (res: Poll<RwLockWriteGuard>)
        ensures
            (res is Ready) == old(lock).is_idle(),
            res is Ready ==> *final(lock) == old(lock).with_state(WRITE_LOCKED),
            res is Pending ==> *final(lock) == *old(lock),
    {
        lock.try_write()
    }

    /// Stops waiting, with or without the guard: readers may come again.
    pub fn release<T>(self, lock: &mut RwLockInner<T>)
        ensures
            *final(lock) == old(lock).with_waiting(old(lock).waiting_writes().wrapping_sub(1)),
    {
        lock.waiting_writes = lock.waiting_writes.wrapping_sub(1);
    }
}

impl PendingRwLockUpgrade {
    /// Becomes the writer once this reader is the only one left.
    pub fn try_write<T>(&self, lock: &mut RwLockInner<T>) -> (res: Poll<RwLockWriteGuard>)
        ensures
            (res is Ready) == (old(lock).state() == 1),
            res is Ready ==> *final(lock) == old(lock).with_state(WRITE_LOCKED),
            res is Pending ==> *final(lock) == *old(lock),
    {
        if lock.state == 1 {
            lock.state = WRITE_LOCKED;
            Poll::Ready(RwLockWriteGuard { _private: () })
        } else {
            Poll::Pending
        }
    }

    /// Stops waiting, with or without the guard: readers may come again.
    pub fn release<T>(self, lock: &mut RwLockInner<T>)
        ensures
            *final(lock) == old(lock).with_waiting(old(lock).waiting_writes().wrapping_sub(1)),
    {
        lock.waiting_writes = lock.waiting_writes.wrapping_sub(1);
    }
}

impl RwLockWriteGuard {
    /// The value, shared.
    pub fn get_ref<'a, T>(&self, lock: &'a RwLockInner<T>) -> (value: &'a T)
        ensures
            *value == lock.value(),
    {
        &lock.value
    }

    /// The value, to change.
    pub fn get_mut<'a, T>(&self, lock: &'a mut RwLockInner<T>) -> (value: &'a mut T)
        ensures
            *value == old(lock).value(),
            *final(lock) == RwLockInner::make(
                *final(value),
                old(lock).state(),
                old(lock).waiting_writes(),
            ),
    {
        &mut lock.value
    }

    /// Gives the latch back: it is idle again.
    pub fn release<T>(self, lock: &mut RwLockInner<T>)
        ensures
            *final(lock) == old(lock).with_state(0),
    {
        lock.state = 0;
    }

    /// Turns the writer into the only reader.
    pub fn downgrade<T>(guard: Self, lock: &mut RwLockInner<T>) -> (read: RwLockReadGuard)
        ensures
            *final(lock) == old(lock).with_state(1),
    {
        lock.state = 1;
        RwLockReadGuard { _private: () }
    }
}

impl<T> PendingRwLockOwn<T> {
    /// The latch that is still to be taken apart, if any.
    pub closed spec fn pending(&self) -> Option<RwLockInner<T>> {
        self.lock
    }

    /// Takes the value once a single holder is left on the latch.
    pub fn try_into_inner(&mut self) -> (res: Poll<T>)
        requires
            old(self).pending() is Some,
        ensures
            (res is Ready) == (old(self).pending()->0.state() == 1),
            res matches Poll::Ready(value) ==> value == old(self).pending()->0.value()
                && final(self).pending() is None,
            res is Pending ==> *final(self) == *old(self),
    {
        let lock = self.lock.take().unwrap();
        if lock.state == 1 {
            Poll::Ready(lock.value)
        } else {
            self.lock = Some(lock);
            Poll::Pending
        }
    }
}

/// While a writer holds a latch, nobody else gets in; while readers hold it,
/// no writer does. So of a reader and a writer of one value, one at a time
/// runs.
pub proof fn lemma_mutual_exclusion<T>(lock: RwLockInner<T>)
    ensures
        lock.is_write_locked() ==> !lock.can_read() && !lock.is_idle(),
        lock.readers() > 0 ==> !lock.is_idle(),
        lock.waiting_writes() > 0 ==> !lock.can_read(),
{
}

} // verus!
