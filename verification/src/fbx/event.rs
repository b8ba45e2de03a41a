//! The flat event stream under the tree, and a cursor over it.

use fbx_direct::common::OwnedProperty;
use fbx_direct::reader::EventReader;
use fbx_direct::reader::FbxEvent;
use vstd::prelude::*;

verus! {

/// One low-level event of an interchange stream.
#[derive(Debug)]
pub enum Event {
    /// The stream's header has been read.
    StartFbx,
    /// The stream's last node has ended.
    EndFbx,
    /// A node opens, with its name and raw properties.
    StartNode { name: String, properties: Vec<OwnedProperty> },
    /// The node opened last, and still open, ends.
    EndNode,
    /// A comment, which only a textual stream can hold.
    Comment(String),
}

/// The model of an [`Event`].
pub enum EventView {
    StartFbx,
    EndFbx,
    StartNode { name: Seq<char>, properties: Seq<OwnedProperty> },
    EndNode,
    Comment(Seq<char>),
}

impl View for Event {
    type V = EventView;

    open spec fn view(&self) -> EventView {
        match *self {
            Event::StartFbx => EventView::StartFbx,
            Event::EndFbx => EventView::EndFbx,
            Event::StartNode { name, properties } => EventView::StartNode {
                name: name@,
                properties: properties@,
            },
            Event::EndNode => EventView::EndNode,
            Event::Comment(text) => EventView::Comment(text@),
        }
    }
}

/// The models of a sequence of events, in the same order.
pub open spec fn events_view(events: Seq<Event>) -> Seq<EventView> {
    Seq::new(events.len(), |i: int| events[i]@)
}

/// `fbx_direct::reader::Error`: why the decoder gave up. Nothing is read
/// out of it.
#[verifier::external_type_specification]
#[verifier::external_body]
pub struct ExDecodeError(fbx_direct::reader::Error);

/// The events that the decoder reads from a byte stream, from the first up
/// to the one that ends the stream; `None` where the decoder reports an
/// error at any point.
pub uninterp spec fn fbx_events(bytes: Seq<u8>) -> Option<Seq<EventView>>;

/// Runs `EventReader::new(bytes).into_iter()` to its end and hands each
/// event over variant by variant. Trusted: the events are those that
/// [`fbx_events`] names, and the first error that the decoder reports is
/// returned in place of them.
///
/// The decoder indexes into the first line it has read, so a stream that
/// starts with a line feed is kept out. It also reserves memory for as many
/// items as a record announces before it reads them. Where a stream
/// announces more than can be reserved the reservation panics or aborts; as
/// with any allocation, the contract does not cover that.
#[verifier::external_body]
pub(crate) fn decode_events(bytes: &[u8]) -> (r: Result<Vec<Event>, fbx_direct::reader::Error>)
    requires
        bytes@.len() > 0 ==> bytes@[0] != 0x0a,
    ensures
        match fbx_events(bytes@) {
            Some(events) => r matches Ok(decoded) && events_view(decoded@) == events,
            None => r is Err,
        },
{
    EventReader::new(bytes).into_iter().map(|event| event.map(|e| match e {
        FbxEvent::StartFbx(_) => Event::StartFbx,
        FbxEvent::EndFbx => Event::EndFbx,
        FbxEvent::StartNode { name, properties } => Event::StartNode { name, properties },
        FbxEvent::EndNode => Event::EndNode,
        FbxEvent::Comment(text) => Event::Comment(text),
    })).collect()
}

/// A cursor over a sequence of events: it hands them out once each, in
/// order.
pub struct EventQueue {
    /// The events still to come, last one first.
    reversed: Vec<Event>,
}

impl View for EventQueue {
    type V = Seq<EventView>;

    /// The events still to come, next one first.
    closed spec fn view(&self) -> Seq<EventView> {
        events_view(self.reversed@.reverse())
    }
}

impl EventQueue {
    /// A cursor that stands before the first of the given events.
    pub fn new(events: Vec<Event>) -> (queue: EventQueue)
        ensures
            queue@ == events_view(events@),
    {
        let ghost all = events@;
        let mut events = events;
        let mut reversed: Vec<Event> = Vec::with_capacity(events.len());
        while events.len() > 0
            invariant
                events@.len() <= all.len(),
                events@ == all.take(events@.len() as int),
                reversed@.len() + events@.len() == all.len(),
                forall|i: int|
                    0 <= i < reversed@.len() ==> reversed@[i] == all[all.len() - 1 - i],
            decreases events@.len(),
        {
            let event = events.pop().unwrap();
            reversed.push(event);
        }
        let queue = EventQueue { reversed };
        assert(queue.reversed@.reverse() =~= all);
        queue
    }

    /// How many events are still to come.
    pub fn len(&self) -> (n: usize)
        ensures
            n == self@.len(),
    {
        self.reversed.len()
    }

    /// Hands out the next event, if one is left.
    pub fn next(&mut self) -> (event: Option<Event>)
        ensures
            old(self)@.len() == 0 ==> event is None && final(self)@ == old(self)@,
            old(self)@.len() > 0 ==> (event matches Some(e) && e@ == old(self)@[0]),
            old(self)@.len() > 0 ==> final(self)@ == old(self)@.skip(1),
    {
        let event = self.reversed.pop();
        proof {
            if old(self).reversed@.len() > 0 {
                assert(self.reversed@.reverse() =~= old(self).reversed@.reverse().skip(1));
                assert(self@ =~= old(self)@.skip(1));
            }
        }
        event
    }
}

} // verus!
