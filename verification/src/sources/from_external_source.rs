use vstd::prelude::*;
use crate::{Source, SourceView};
use crate::events::{Event, EventView, events_view};

verus! {

/// The relay between an external source and the stream takes items, created and
/// completed keys and the end of the stream; it refuses pull requests and forwarded
/// key events.
pub open spec fn relay_accepts<W>(e: EventView<W>) -> bool {
    e is PushItem || e is KeyCreated || e is KeyCompleted || e is Completed
}

/// What the relay emits for one event: the event itself.
pub open spec fn relay_spec<W>(e: EventView<W>) -> Seq<EventView<W>> {
    seq![e]
}

/// Handles one event that an external source sends and returns what enters the stream.
pub fn relay_event<V: View>(event: Event<V>) -> (out: Vec<Event<V>>)
    requires
        relay_accepts(event@),
    ensures
        events_view(out@) == relay_spec(event@),
{
    let mut out: Vec<Event<V>> = Vec::new();
    out.push(event);
    assert(events_view(out@) =~= relay_spec(event@));
    out
}


/// The external source with host index `index`: what it sends enters the stream through
/// the relay.
pub fn from_external_source(index: i64) -> (r: Source)
    ensures
        r@ == (SourceView { origin: index, ops: Seq::empty() }),
{
    Source::external(index)
}

} // verus!
