//! Lookup events, queued by the threads that run programs.
use crate::bytecode::byte_contents;
use crate::keys::{RawKey, RuntimeCacheKey};
use alloy_primitives::Bytes;
use crossbeam_queue::ArrayQueue;
use std::sync::Arc;
use vstd::prelude::*;

verus! {

/// `crossbeam_queue::ArrayQueue`, a bounded queue between threads.
#[verifier::external_type_specification]
#[verifier::external_body]
#[verifier::reject_recursive_types(T)]
pub struct ExArrayQueue<T>(ArrayQueue<T>);

/// One lookup of a program.
pub struct LookupRequest {
    /// The key that was looked up.
    pub key: RuntimeCacheKey,
    /// The bytecode where no program was resident; empty where one was.
    pub code: Bytes,
}

impl LookupRequest {
    /// The event as plain values: the flattened key and the bytes of the code.
    pub open spec fn view(&self) -> (RawKey, Seq<u8>) {
        (self.key.spec_raw(), byte_contents(self.code))
    }
}

/// The handle through which events are taken off a queue. There is one for each queue, and it cannot
/// be copied: events leave the queue through it alone.
#[verifier::external_body]
pub struct EventSource {
    queue: Arc<ArrayQueue<LookupRequest>>,
}

/// A handle through which events are put into a queue, on whatever thread. It takes none off.
#[verifier::external_body]
pub struct EventSender {
    queue: Arc<ArrayQueue<LookupRequest>>,
}

/// The events that were taken off the queue of a source so far, in order.
pub uninterp spec fn taken(source: EventSource) -> Seq<(RawKey, Seq<u8>)>;

/// Every event that the queue of a source holds at some time, be it in the past or in the future, in
/// the order in which they came in. The contents of a queue change; this does not.
pub uninterp spec fn arrivals(source: EventSource) -> Seq<(RawKey, Seq<u8>)>;

/// The numbers of events taken off at which the queue of a source is found empty at some time.
pub uninterp spec fn found_empty_after(source: EventSource) -> Set<nat>;

/// The [`arrivals`] of the queue that a sender puts events into.
pub uninterp spec fn sent(sender: EventSender) -> Seq<(RawKey, Seq<u8>)>;

/// `Arc::new` of an `ArrayQueue`, which nobody else has a handle to then. Nothing was taken off
/// through it yet.
#[verifier::external_body]
fn queue_own(queue: ArrayQueue<LookupRequest>) -> (source: EventSource)
    ensures
        taken(source).len() == 0,
{
    EventSource { queue: Arc::new(queue) }
}

/// `Arc::clone`: a further handle to the same queue, which only puts events in.
#[verifier::external_body]
fn queue_share(source: &EventSource) -> (sender: EventSender)
    ensures
        sent(sender) == arrivals(*source),
{
    EventSender { queue: Arc::clone(&source.queue) }
}

/// `ArrayQueue::push`: puts an event in, which is then one of those that the queue holds at some
/// time, or hands it back where the queue is full. Whether it is full depends on the other threads,
/// and is left open.
#[verifier::external_body]
fn queue_push(sender: &EventSender, event: LookupRequest) -> (r: Result<(), LookupRequest>)
    ensures
        r is Ok ==> sent(*sender).contains(event@),
        r matches Err(returned) ==> returned == event,
{
    sender.queue.push(event)
}

/// `ArrayQueue::pop`: takes the oldest event off, so that the events taken off are the first that
/// came in, and hands it out. Where it hands out nothing it found the queue empty. Other threads put
/// events in at the same time, so whether there is one is left open.
#[verifier::external_body]
fn pop(source: &mut EventSource) -> (popped: Option<LookupRequest>)
    ensures
        taken(*final(source)) == (match popped {
            Some(event) => taken(*old(source)).push(event@),
            None => taken(*old(source)),
        }),
        arrivals(*final(source)) == arrivals(*old(source)),
        popped matches Some(event) ==> {
            &&& taken(*old(source)).len() < arrivals(*old(source)).len()
            &&& arrivals(*old(source))[taken(*old(source)).len() as int] == event@
        },
        found_empty_after(*final(source)) == found_empty_after(*old(source)),
        popped is None ==> found_empty_after(*final(source)).contains(taken(*old(source)).len()),
{
    source.queue.pop()
}

impl EventSource {
    /// The taking end of a queue.
    pub fn new(queue: ArrayQueue<LookupRequest>) -> (r: EventSource)
        ensures
            taken(r) == Seq::<(RawKey, Seq<u8>)>::empty(),
    {
        let r = queue_own(queue);
        assert(taken(r) =~= Seq::<(RawKey, Seq<u8>)>::empty());
        r
    }

    /// A putting end of the same queue.
    pub fn sender(&self) -> (r: EventSender)
        ensures
            sent(r) == arrivals(*self),
    {
        queue_share(self)
    }
}

impl EventSender {
    /// Puts an event in, or hands it back where the queue is full.
    pub fn push(&self, event: LookupRequest) -> (r: Result<(), LookupRequest>)
        ensures
            r is Ok ==> sent(*self).contains(event@),
            r matches Err(returned) ==> returned == event,
    {
        queue_push(self, event)
    }
}

/// Adds an event that came off a queue to those that did before, and says whether there was one.
pub fn collect(events: &mut Vec<LookupRequest>, popped: Option<LookupRequest>) -> (found: bool)
    ensures
        found == (popped is Some),
        final(events)@ == (match popped {
            Some(event) => old(events)@.push(event),
            None => old(events)@,
        }),
{
    match popped {
        Some(event) => {
            events.push(event);
            true
        },
        None => false,
    }
}

/// Events as plain values.
pub open spec fn event_values(events: Seq<LookupRequest>) -> Seq<(RawKey, Seq<u8>)> {
    events.map_values(|event: LookupRequest| event@)
}

/// Whether `events`, at most `limit` of them, is all that was taken off a queue on the way from
/// `before` to `after`, oldest first: they are the events that came in next after those taken before,
/// none is left out, and they are fewer than the limit only where the queue was found empty after
/// them. What came in later stays queued.
pub open spec fn drained(
    before: EventSource,
    after: EventSource,
    limit: usize,
    events: Seq<LookupRequest>,
) -> bool {
    &&& events.len() <= limit
    &&& taken(after) == taken(before) + event_values(events)
    &&& arrivals(after) == arrivals(before)
    &&& events.len() > 0 ==> taken(after).len() <= arrivals(after).len()
    &&& forall|i: int|
        0 <= i < events.len() ==> arrivals(before)[taken(before).len() + i] == (
        #[trigger] events[i])@
    &&& found_empty_after(after) == found_empty_after(before)
    &&& events.len() < limit ==> found_empty_after(after).contains(taken(after).len())
}

/// Takes up to `limit` events off a queue, oldest first, stopping short of that only where it is
/// found empty.
pub fn drain(source: &mut EventSource, limit: usize) -> (events: Vec<LookupRequest>)
    ensures
        drained(*old(source), *final(source), limit, events@),
{
    let mut events: Vec<LookupRequest> = Vec::new();
    assert(taken(*source) =~= taken(*source) + event_values(events@));
    while events.len() < limit
        invariant
            events@.len() <= limit,
            taken(*source) == taken(*old(source)) + event_values(events@),
            arrivals(*source) == arrivals(*old(source)),
            events@.len() > 0 ==> taken(*source).len() <= arrivals(*source).len(),
            forall|i: int|
                0 <= i < events@.len() ==> arrivals(*old(source))[taken(*old(source)).len() + i] == (
                #[trigger] events@[i])@,
            found_empty_after(*source) == found_empty_after(*old(source)),
        ensures
            events@.len() < limit ==> found_empty_after(*source).contains(taken(*source).len()),
        decreases limit - events@.len(),
    {
        let ghost before = events@;
        let popped = pop(source);
        if !collect(&mut events, popped) {
            break;
        }
        proof {
            let event = events@.last();
            assert(event_values(events@) =~= event_values(before).push(event@));
            assert(taken(*source) =~= taken(*old(source)) + event_values(events@));
        }
    }
    events
}

/// Whether what was taken off the queue of a source so far is what came in first, in order.
pub open spec fn in_order(source: EventSource) -> bool {
    &&& taken(source).len() <= arrivals(source).len()
    &&& taken(source) == arrivals(source).take(taken(source).len() as int)
}

/// Events leave a queue in the order in which they came in, and none is left out: a fresh source
/// took nothing off, and every drain goes on where the last one stopped.
pub proof fn law_events_leave_in_order(
    before: EventSource,
    after: EventSource,
    limit: usize,
    events: Seq<LookupRequest>,
)
    requires
        in_order(before) || taken(before).len() == 0,
        drained(before, after, limit, events),
    ensures
        in_order(after),
        event_values(events) == arrivals(after).subrange(
            taken(before).len() as int,
            taken(after).len() as int,
        ),
{
    assert(taken(before) =~= arrivals(before).take(taken(before).len() as int));
    assert forall|i: int| 0 <= i < event_values(events).len() implies #[trigger] event_values(
        events,
    )[i] == arrivals(after)[taken(before).len() + i] by {
        assert(event_values(events)[i] == events[i]@);
    }
    assert(event_values(events) =~= arrivals(after).subrange(
        taken(before).len() as int,
        taken(after).len() as int,
    ));
    assert(taken(after) =~= arrivals(after).take(taken(after).len() as int));
}

/// What a drain hands out is what left the queue, with key and code as they were put in, at most the
/// limit of it, and less than the limit only where the queue was found empty after it. What the queue
/// holds over time is not changed by it.
pub proof fn law_drains_hand_out_what_left(
    before: EventSource,
    after: EventSource,
    limit: usize,
    events: Seq<LookupRequest>,
)
    requires
        drained(before, after, limit, events),
    ensures
        events.len() <= limit,
        events.len() < limit ==> found_empty_after(after).contains(taken(after).len()),
        found_empty_after(after) == found_empty_after(before),
        arrivals(after) == arrivals(before),
        taken(after).len() == taken(before).len() + events.len(),
        forall|i: int| 0 <= i < taken(before).len() ==> #[trigger] taken(after)[i] == taken(before)[i],
        forall|i: int|
            0 <= i < events.len() ==> {
                let event = #[trigger] events[i];
                &&& taken(after)[taken(before).len() + i] == (
                    event.key.spec_raw(),
                    byte_contents(event.code),
                )
                &&& arrivals(before)[taken(before).len() + i] == (
                    event.key.spec_raw(),
                    byte_contents(event.code),
                )
            },
{
    assert forall|i: int| 0 <= i < events.len() implies {
        let event = #[trigger] events[i];
        &&& taken(after)[taken(before).len() + i] == (
            event.key.spec_raw(),
            byte_contents(event.code),
        )
        &&& arrivals(before)[taken(before).len() + i] == (
            event.key.spec_raw(),
            byte_contents(event.code),
        )
    } by {
        assert(event_values(events)[i] == events[i]@);
    }
}

} // verus!
