use vstd::prelude::*;
use crate::{OperatorKind, OperatorView};
use crate::events::{Event, EventView, events_view};

verus! {

/// `forward` takes items and the end of the stream; it refuses everything else.
pub open spec fn forward_accepts<W>(e: EventView<W>) -> bool {
    e is PushItem || e is Completed
}

/// What `forward` emits for one event: the event itself.
pub open spec fn forward_spec<W>(e: EventView<W>) -> Seq<EventView<W>> {
    seq![e]
}

/// Handles one event of the `forward` operator and returns what it emits.
pub fn forward_event<V: View>(event: Event<V>) -> (out: Vec<Event<V>>)
    requires
        forward_accepts(event@),
    ensures
        events_view(out@) == forward_spec(event@),
{
    let mut out: Vec<Event<V>> = Vec::new();
    out.push(event);
    assert(events_view(out@) =~= forward_spec(event@));
    out
}


/// A `forward` operator.
pub fn forward() -> (r: OperatorKind)
    ensures
        r@ == OperatorView::Forward,
{
    OperatorKind::Forward
}

} // verus!
