use vstd::prelude::*;
use crate::{OperatorKind, OperatorView};
use crate::events::{Event, EventView, Item, events_view};

verus! {

/// The host's map function at `index` can be called on every value.
pub open spec fn map_fn_callable<V, M: Fn(i32, V) -> V>(m: M, index: i32) -> bool {
    forall|v: V| #[trigger] call_requires(m, (index, v))
}

/// `m` may answer `w` (a value's view) when called at `index` on a value of view `v`.
pub open spec fn map_answers<V: View, M: Fn(i32, V) -> V>(m: M, index: i32, v: V::V, w: V::V) -> bool {
    exists|a: V, r: V| #[trigger] call_ensures(m, (index, a), r) && a@ == v && r@ == w
}

/// `map` takes items and the end of the stream; it refuses everything else.
pub open spec fn map_accepts<W>(e: EventView<W>) -> bool {
    e is PushItem || e is Completed
}

/// What a `map` operator emits for one event, when the host's function answered `w`
/// for its item: an item keeps its key and gets `w`; the end of the stream passes.
pub open spec fn map_spec<W>(e: EventView<W>, w: W) -> Seq<EventView<W>> {
    match e {
        EventView::PushItem(k, _) => seq![EventView::PushItem(k, w)],
        EventView::Completed => seq![EventView::Completed],
        _ => Seq::empty(),
    }
}

/// Handles one event of a `map` operator whose host function is `m` at `index`, and
/// returns what it emits: for an item, `m` is called once on its value, and the item
/// goes on under its key with what `m` returned.
pub fn map_event<V: View, M: Fn(i32, V) -> V>(index: i32, event: Event<V>, m: &M) -> (out: Vec<
    Event<V>,
>)
    requires
        map_accepts(event@),
        map_fn_callable(*m, index),
    ensures
        match event {
            Event::PushItem(item) => exists|r: V|
                call_ensures(*m, (index, item.value), r) && #[trigger] events_view(out@) == map_spec(
                    event@,
                    r@,
                ),
            _ => events_view(out@) == seq![EventView::<V::V>::Completed],
        },
{
    let ghost ev = event;
    let mut out: Vec<Event<V>> = Vec::new();
    match event {
        Event::PushItem(item) => {
            let value = m(index, item.value);
            out.push(Event::PushItem(Item { key: item.key, value: value }));
            assert(events_view(out@) =~= map_spec(ev@, value@));
        },
        _ => {
            out.push(Event::Completed);
            assert(events_view(out@) =~= seq![EventView::<V::V>::Completed]);
        },
    }
    out
}

/// A `map` operator whose function is the host's function at `index`.
pub fn map(index: i32) -> (r: OperatorKind)
    ensures
        r@ == OperatorView::MapValues(index),
{
    OperatorKind::MapValues(index)
}

} // verus!
