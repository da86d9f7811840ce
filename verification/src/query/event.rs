//! Events: values that writers send to every reader that listens.
//!
//! Every reader has a queue of its own. A writer puts an event at the end
//! of each queue that exists when it sends; a reader takes events from the
//! front of its queue.

use core::marker::PhantomData;
use vstd::prelude::*;

verus! {

/// A type of event. The id tells event types apart.
pub trait Event {
    /// The id of the event type.
    spec fn spec_event_id() -> u64;

    /// The id of the event type.
    fn event_id() -> (id: u64)
        ensures
            id == Self::spec_event_id(),
    ;
}

/// The queues of the readers of one type of event.
pub struct EventChannel<P> {
    type_id: u64,
    queues: Vec<Vec<P>>,
}

/// The channels of a world, one for each type of event that was asked for.
pub struct EventBus<P> {
    channels: Vec<EventChannel<P>>,
}

/// The sending end of the channel of the events of type `E`.
pub struct EventWriter<E: Event> {
    marker: PhantomData<E>,
}

/// The receiving end of one reader's queue of events of type `E`.
pub struct EventReader<E: Event> {
    index: usize,
    marker: PhantomData<E>,
}

impl<E: Event> EventWriter<E> {
    /// The type of event that the writer sends.
    pub open spec fn event_type(&self) -> u64 {
        E::spec_event_id()
    }
}

impl<E: Event> EventWriter<E> {
    /// A sending end for the events of type `E`.
    pub fn new() -> Self {
        EventWriter { marker: PhantomData }
    }
}

impl<E: Event> EventReader<E> {
    /// One more handle on the same queue.
    pub fn share(&self) -> (reader: Self)
        ensures
            reader.index() == self.index(),
    {
        EventReader { index: self.index, marker: PhantomData }
    }

    /// The type of event that the reader listens to.
    pub open spec fn event_type(&self) -> u64 {
        E::spec_event_id()
    }

    /// The number of the reader's queue among the queues of its channel.
    pub closed spec fn index(&self) -> int {
        self.index as int
    }
}

impl<P> EventBus<P> {
    /// The types of event that have a channel, in the order in which they were asked for.
    pub closed spec fn types(&self) -> Seq<u64> {
        Seq::new(self.channels@.len(), |k: int| self.channels@[k].type_id)
    }

    /// The queues of the channel at `k`: for each reader the events that wait for it.
    pub closed spec fn queues_at(&self, k: int) -> Seq<Seq<P>> {
        Seq::new(self.channels@[k].queues@.len(), |r: int| self.channels@[k].queues@[r]@)
    }

    /// No type of event has two channels.
    pub open spec fn wf(&self) -> bool {
        self.types().no_duplicates()
    }

    /// Whether the type of event has a channel.
    pub open spec fn has_channel(&self, type_id: u64) -> bool {
        self.types().contains(type_id)
    }

    /// Where the channel of the type of event stands.
    pub open spec fn channel_of(&self, type_id: u64) -> int {
        choose|k: int| 0 <= k < self.types().len() && self.types()[k] == type_id
    }

    /// The queues of the channel of the type of event; none where it has no channel.
    pub open spec fn queues(&self, type_id: u64) -> Seq<Seq<P>> {
        if self.has_channel(type_id) {
            self.queues_at(self.channel_of(type_id))
        } else {
            Seq::empty()
        }
    }

    /// Whether this bus is `old` but for the queues of one type of event.
    pub open spec fn same_but(&self, old: &Self, type_id: u64) -> bool {
        forall|other: u64| other != type_id ==> #[trigger] self.queues(other) == old.queues(other)
    }

    /// The types of event that have a channel once `type_id` has one: a
    /// type that had none comes behind the others.
    pub open spec fn types_with(&self, type_id: u64) -> Seq<u64> {
        if self.has_channel(type_id) {
            self.types()
        } else {
            self.types().push(type_id)
        }
    }

    /// Whether this bus is `old` with a channel for the type of event, and
    /// every queue as it was.
    pub open spec fn is_channel_of(&self, old: &Self, type_id: u64) -> bool {
        &&& self.types() == old.types_with(type_id)
        &&& forall|other: u64| #[trigger] self.queues(other) == old.queues(other)
    }

    /// Whether this bus is `old` with a channel for the type of event and
    /// one more queue in it, which is empty.
    pub open spec fn is_reader_of(&self, old: &Self, type_id: u64) -> bool {
        &&& self.types() == old.types_with(type_id)
        &&& self.queues(type_id) == old.queues(type_id).push(Seq::<P>::empty())
        &&& self.same_but(old, type_id)
    }

    /// A bus without channels.
    pub fn new() -> (bus: Self)
        ensures
            bus.wf(),
            forall|type_id: u64| #[trigger] bus.queues(type_id) == Seq::<Seq<P>>::empty(),
    {
        let bus = EventBus { channels: Vec::new() };
        assert(bus.types() =~= Seq::<u64>::empty());
        bus
    }

    /// Where the channel of the type of event stands, if it has one.
    fn position(&self, type_id: u64) -> (found: Option<usize>)
        requires
            self.wf(),
        ensures
            found is Some == self.has_channel(type_id),
            found matches Some(k) ==> k == self.channel_of(type_id) && k < self.types().len(),
    {
        let mut k: usize = 0;
        while k < self.channels.len()
            invariant
                self.wf(),
                k <= self.channels@.len(),
                forall|j: int| 0 <= j < k ==> self.types()[j] != type_id,
            decreases self.channels@.len() - k,
        {
            if self.channels[k].type_id == type_id {
                assert(self.types()[k as int] == type_id);
                return Some(k);
            }
            k += 1;
        }
        None
    }

    /// The channel of the type of event, made where there is none.
    fn channel(&mut self, type_id: u64) -> (k: usize)
        requires
            old(self).wf(),
        ensures
            final(self).wf(),
            final(self).has_channel(type_id),
            final(self).types() == old(self).types_with(type_id),
            k == final(self).channel_of(type_id),
            k < final(self).types().len(),
            forall|other: u64| #[trigger] final(self).queues(other) == old(self).queues(other),
            final(self).channels@.len() > k,
    {
        match self.position(type_id) {
            Some(k) => k,
            None => {
                let k = self.channels.len();
                self.channels.push(EventChannel { type_id, queues: Vec::new() });
                proof {
                    assert(self.types() =~= old(self).types().push(type_id));
                    assert(self.types()[k as int] == type_id);
                    assert(self.queues_at(k as int) =~= Seq::<Seq<P>>::empty());
                    assert forall|other: u64| #[trigger] self.queues(other) == old(self).queues(
                        other,
                    ) by {
                        if other != type_id {
                            if old(self).has_channel(other) {
                                let j = old(self).channel_of(other);
                                assert(self.types()[j] == other);
                                assert(self.queues_at(j) =~= old(self).queues_at(j));
                            }
                            if self.has_channel(other) {
                                let j = self.channel_of(other);
                                assert(old(self).types()[j] == other);
                            }
                        }
                    }
                }
                k
            },
        }
    }

    /// A sending end for the type of event.
    pub fn writer<E: Event>(&mut self) -> (writer: EventWriter<E>)
        requires
            old(self).wf(),
        ensures
            final(self).wf(),
            final(self).is_channel_of(old(self), E::spec_event_id()),
    {
        let _ = self.channel(E::event_id());
        EventWriter { marker: PhantomData }
    }

    /// A new reader of the type of event. Its queue is empty: it hears what
    /// is sent from now on.
    pub fn reader<E: Event>(&mut self) -> (reader: EventReader<E>)
        requires
            old(self).wf(),
        ensures
            final(self).wf(),
            reader.index() == old(self).queues(E::spec_event_id()).len(),
            final(self).is_reader_of(old(self), E::spec_event_id()),
    {
        let type_id = E::event_id();
        let k = self.channel(type_id);
        let ghost middle = *self;
        let index = self.channels[k].queues.len();
        self.channels[k].queues.push(Vec::new());
        proof {
            assert(self.types() =~= middle.types());
            assert(self.queues_at(k as int) =~= middle.queues_at(k as int).push(Seq::<P>::empty()));
            assert forall|other: u64| other != type_id implies #[trigger] self.queues(other)
                == old(self).queues(other) by {
                if middle.has_channel(other) {
                    let j = middle.channel_of(other);
                    assert(self.queues_at(j) =~= middle.queues_at(j));
                }
                assert(middle.queues(other) == old(self).queues(other));
            }
            assert(middle.queues(type_id) == old(self).queues(type_id));
        }
        EventReader { index, marker: PhantomData }
    }

    /// Takes the event at the front of the reader's queue, if one waits.
    pub fn try_read<E: Event>(&mut self, reader: &EventReader<E>) -> (event: Option<P>)
        requires
            old(self).wf(),
        ensures
            final(self).wf(),
            final(self).same_but(old(self), reader.event_type()),
            ({
                let queues = old(self).queues(reader.event_type());
                if 0 <= reader.index() < queues.len() && queues[reader.index()].len() > 0 {
                    event == Some(queues[reader.index()][0]) && final(self).queues(
                        reader.event_type(),
                    ) == queues.update(reader.index(), queues[reader.index()].skip(1))
                } else {
                    event is None && final(self).queues(reader.event_type()) == queues
                }
            }),
    {
        match self.position(E::event_id()) {
            Some(k) => {
                if reader.index < self.channels[k].queues.len()
                    && self.channels[k].queues[reader.index].len() > 0 {
                    let event = self.channels[k].queues[reader.index].remove(0);
                    proof {
                        let queues = old(self).queues(reader.event_type());
                        assert(self.types() =~= old(self).types());
                        assert(self.queues_at(k as int) =~= queues.update(
                            reader.index(),
                            queues[reader.index()].skip(1),
                        ));
                        assert forall|other: u64|
                            other != E::spec_event_id() implies #[trigger] self.queues(other)
                                == old(self).queues(other) by {
                            if old(self).has_channel(other) {
                                let j = old(self).channel_of(other);
                                assert(self.queues_at(j) =~= old(self).queues_at(j));
                            }
                        }
                    }
                    Some(event)
                } else {
                    None
                }
            },
            None => None,
        }
    }
}

/// Every queue of `queues` with `event` at its end.
pub open spec fn sent<P>(queues: Seq<Seq<P>>, event: P) -> Seq<Seq<P>> {
    Seq::new(queues.len(), |r: int| queues[r].push(event))
}

/// Every queue of `queues` with `events` at its end.
pub open spec fn sent_batch<P>(queues: Seq<Seq<P>>, events: Seq<P>) -> Seq<Seq<P>> {
    Seq::new(queues.len(), |r: int| queues[r] + events)
}

impl<P: Copy> EventBus<P> {
    /// Sends an event: it is put at the end of the queue of every reader
    /// of its type.
    pub fn send<E: Event>(&mut self, writer: &EventWriter<E>, event: P)
        requires
            old(self).wf(),
        ensures
            final(self).wf(),
            final(self).same_but(old(self), writer.event_type()),
            final(self).queues(writer.event_type()) == sent(
                old(self).queues(writer.event_type()),
                event,
            ),
    {
        match self.position(E::event_id()) {
            Some(k) => {
                let n = self.channels[k].queues.len();
                let mut r: usize = 0;
                while r < n
                    invariant
                        r <= n,
                        k < self.channels@.len(),
                        self.channels@.len() == old(self).channels@.len(),
                        n == self.channels@[k as int].queues@.len(),
                        n == old(self).channels@[k as int].queues@.len(),
                        forall|j: int|
                            0 <= j < self.channels@.len() ==> (#[trigger] self.channels@[j]).type_id
                                == old(self).channels@[j].type_id,
                        forall|j: int|
                            0 <= j < self.channels@.len() && j != k ==> (
                            #[trigger] self.channels@[j]).queues@ == old(self).channels@[j].queues@,
                        forall|q: int|
                            0 <= q < n ==> (#[trigger] self.channels@[k as int].queues@[q])@ == if q
                                < r {
                                old(self).channels@[k as int].queues@[q]@.push(event)
                            } else {
                                old(self).channels@[k as int].queues@[q]@
                            },
                    decreases n - r,
                {
                    self.channels[k].queues[r].push(event);
                    r += 1;
                }
                proof {
                    assert(self.types() =~= old(self).types());
                    assert(self.queues_at(k as int) =~= sent(old(self).queues_at(k as int), event));
                    assert forall|other: u64|
                        other != E::spec_event_id() implies #[trigger] self.queues(other)
                            == old(self).queues(other) by {
                        if old(self).has_channel(other) {
                            let j = old(self).channel_of(other);
                            assert(self.queues_at(j) =~= old(self).queues_at(j));
                        }
                    }
                }
            },
            None => {
                proof {
                    assert(sent(old(self).queues(writer.event_type()), event) =~= Seq::<
                        Seq<P>,
                    >::empty());
                }
            },
        }
    }

    /// Sends the events in order, each to every reader of its type.
    pub fn send_batch<E: Event>(&mut self, writer: &EventWriter<E>, events: &Vec<P>)
        requires
            old(self).wf(),
        ensures
            final(self).wf(),
            final(self).same_but(old(self), writer.event_type()),
            final(self).queues(writer.event_type()) == sent_batch(
                old(self).queues(writer.event_type()),
                events@,
            ),
    {
        let mut i: usize = 0;
        proof {
            let queues = old(self).queues(writer.event_type());
            assert(sent_batch(queues, events@.take(0)) =~= queues) by {
                assert forall|r: int| 0 <= r < queues.len() implies queues[r] + events@.take(0)
                    =~= queues[r] by {}
            }
        }
        while i < events.len()
            invariant
                i <= events@.len(),
                self.wf(),
                self.same_but(old(self), writer.event_type()),
                self.queues(writer.event_type()) == sent_batch(
                    old(self).queues(writer.event_type()),
                    events@.take(i as int),
                ),
            decreases events@.len() - i,
        {
            let ghost before = *self;
            self.send(writer, events[i]);
            proof {
                let queues = old(self).queues(writer.event_type());
                assert(events@.take(i + 1) =~= events@.take(i as int).push(events@[i as int]));
                assert(sent(sent_batch(queues, events@.take(i as int)), events@[i as int])
                    =~= sent_batch(queues, events@.take(i + 1))) by {
                    assert forall|r: int| 0 <= r < queues.len() implies (queues[r]
                        + events@.take(i as int)).push(events@[i as int]) =~= queues[r]
                        + events@.take(i + 1) by {}
                }
                assert forall|other: u64|
                    other != writer.event_type() implies #[trigger] self.queues(other)
                        == old(self).queues(other) by {
                    assert(before.queues(other) == old(self).queues(other));
                }
            }
            i += 1;
        }
        proof {
            assert(events@.take(events@.len() as int) == events@);
        }
    }
}

impl<E: Event> EventWriter<E> {
    /// Sends an event to every reader of its type; see [`EventBus::send`].
    pub fn send<P: Copy>(&self, bus: &mut EventBus<P>, event: P)
        requires
            old(bus).wf(),
        ensures
            final(bus).wf(),
            final(bus).same_but(old(bus), E::spec_event_id()),
            final(bus).queues(E::spec_event_id()) == sent(old(bus).queues(E::spec_event_id()),
                event),
    {
        bus.send(self, event)
    }

    /// Sends the events in order; see [`EventBus::send_batch`].
    pub fn send_batch<P: Copy>(&self, bus: &mut EventBus<P>, events: &Vec<P>)
        requires
            old(bus).wf(),
        ensures
            final(bus).wf(),
            final(bus).same_but(old(bus), E::spec_event_id()),
            final(bus).queues(E::spec_event_id()) == sent_batch(
                old(bus).queues(E::spec_event_id()),
                events@,
            ),
    {
        bus.send_batch(self, events)
    }
}

impl<E: Event> EventReader<E> {
    /// Takes the event at the front of the reader's queue, if one waits;
    /// see [`EventBus::try_read`].
    pub fn try_read<P>(&self, bus: &mut EventBus<P>) -> (event: Option<P>)
        requires
            old(bus).wf(),
        ensures
            final(bus).wf(),
            final(bus).same_but(old(bus), E::spec_event_id()),
            ({
                let queues = old(bus).queues(E::spec_event_id());
                if 0 <= self.index() < queues.len() && queues[self.index()].len() > 0 {
                    event == Some(queues[self.index()][0]) && final(bus).queues(
                        E::spec_event_id(),
                    ) == queues.update(self.index(), queues[self.index()].skip(1))
                } else {
                    event is None && final(bus).queues(E::spec_event_id()) == queues
                }
            }),
    {
        bus.try_read(self)
    }
}

} // verus!
