use vstd::prelude::*;
use crate::events::{Event, EventView, Item, events_view};

verus! {

/// What a source made of `values` emits once subscribed: each value in order under
/// the key `[0]`, then the end of the stream.
pub open spec fn from_iterable_spec<W>(values: Seq<W>) -> Seq<EventView<W>> {
    values.map_values(|v: W| EventView::PushItem(seq![0usize], v)).push(EventView::Completed)
}

/// A source made of `vs` emits one item per value and then ends: the i-th event is an
/// item under the key `[0]` carrying `vs[i]`, and the event after the last value is the
/// end of the stream.
pub proof fn lemma_from_iterable_items<W>(vs: Seq<W>)
    ensures
        from_iterable_spec(vs).len() == vs.len() + 1,
        forall|i: int|
            0 <= i < vs.len() ==> #[trigger] from_iterable_spec(vs)[i] == EventView::PushItem(
                seq![0usize],
                vs[i],
            ),
        from_iterable_spec(vs)[vs.len() as int] == EventView::<W>::Completed,
{
}

/// The events of a source made of `values`, once subscribed: an item under the key
/// `[0]` for each value, in order, then the end of the stream.
pub fn from_iterable<V: View>(values: Vec<V>) -> (out: Vec<Event<V>>)
    ensures
        events_view(out@) == from_iterable_spec(values@.map_values(|v: V| v@)),
        out@.len() == values@.len() + 1,
        forall|i: int|
            0 <= i < values@.len() ==> #[trigger] out@[i]@ == EventView::PushItem(
                seq![0usize],
                values@[i]@,
            ),
        out@[values@.len() as int]@ == EventView::<V::V>::Completed,
{
    let ghost vs = values@;
    let mut values = values;
    let mut out: Vec<Event<V>> = Vec::new();
    // the values are taken out from the back and put back in order
    let mut reversed: Vec<V> = Vec::new();
    while values.len() > 0
        invariant
            values@.len() + reversed@.len() == vs.len(),
            forall|j: int| 0 <= j < values@.len() ==> values@[j] == vs[j],
            forall|j: int|
                0 <= j < reversed@.len() ==> reversed@[j] == vs[vs.len() - 1 - j],
        decreases values@.len(),
    {
        let v = values.pop().unwrap();
        reversed.push(v);
    }
    while reversed.len() > 0
        invariant
            reversed@.len() + out@.len() == vs.len(),
            forall|j: int|
                0 <= j < reversed@.len() ==> reversed@[j] == vs[vs.len() - 1 - j],
            events_view(out@) == from_iterable_spec(vs.map_values(|v: V| v@)).subrange(
                0,
                out@.len() as int,
            ),
        decreases reversed@.len(),
    {
        let v = reversed.pop().unwrap();
        let mut key: Vec<usize> = Vec::new();
        key.push(0);
        assert(key@ =~= seq![0usize]);
        out.push(Event::PushItem(Item { key: key, value: v }));
        assert(events_view(out@) =~= from_iterable_spec(vs.map_values(|v: V| v@)).subrange(
            0,
            out@.len() as int,
        ));
    }
    let ghost spec = from_iterable_spec(vs.map_values(|v: V| v@));
    assert(spec.subrange(0, vs.len() as int) =~= vs.map_values(|v: V| v@).map_values(
        |v: V::V| EventView::PushItem(seq![0usize], v),
    ));
    out.push(Event::Completed);
    assert(events_view(out@) =~= from_iterable_spec(vs.map_values(|v: V| v@)));
    proof {
        lemma_from_iterable_items(vs.map_values(|v: V| v@));
        assert forall|i: int| 0 <= i < vs.len() implies #[trigger] out@[i]@ == EventView::PushItem(
            seq![0usize],
            vs[i]@,
        ) by {
            assert(events_view(out@)[i] == out@[i]@);
        }
        assert(events_view(out@)[vs.len() as int] == out@[vs.len() as int]@);
    }
    out
}

} // verus!
