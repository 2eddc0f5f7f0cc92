use vstd::prelude::*;
use crate::{OperatorKind, OperatorView};
use crate::events::{Event, EventView, Item, events_view};

verus! {

/// `pop_key` refuses pull requests; every other event is handled.
pub open spec fn pop_key_accepts<W>(e: EventView<W>) -> bool {
    !(e is PollItem)
}

/// What `pop_key` emits for one event: items leave their innermost key index behind,
/// forwarded key events become plain key events again, plain key events are dropped,
/// and the end of the stream passes.
pub open spec fn pop_key_spec<W>(e: EventView<W>) -> Seq<EventView<W>> {
    match e {
        EventView::PushItem(k, v) => seq![
            EventView::PushItem(if k.len() > 0 { k.drop_last() } else { k }, v),
        ],
        EventView::Completed => seq![EventView::Completed],
        EventView::ForwardKeyCreated(k) => seq![EventView::KeyCreated(k)],
        EventView::ForwardKeyCompleted(k) => seq![EventView::KeyCompleted(k)],
        _ => Seq::empty(),
    }
}

/// Handles one event of the `pop_key` operator and returns what it emits.
pub fn pop_key_event<V: View>(event: Event<V>) -> (out: Vec<Event<V>>)
    requires
        pop_key_accepts(event@),
    ensures
        events_view(out@) == pop_key_spec(event@),
{
    let mut out: Vec<Event<V>> = Vec::new();
    match event {
        Event::PushItem(data) => {
            let mut key = data.key;
            key.pop();
            out.push(Event::PushItem(Item { key: key, value: data.value }));
        },
        Event::Completed => {
            out.push(Event::Completed);
        },
        Event::ForwardKeyCreated(key) => {
            out.push(Event::KeyCreated(key));
        },
        Event::ForwardKeyCompleted(key) => {
            out.push(Event::KeyCompleted(key));
        },
        Event::KeyCreated(_) => {},
        Event::KeyCompleted(_) => {},
        Event::PollItem => {},
    }
    assert(events_view(out@) =~= pop_key_spec(event@));
    out
}


/// A `pop_key` operator.
pub fn pop_key() -> (r: OperatorKind)
    ensures
        r@ == OperatorView::PopKey,
{
    OperatorKind::PopKey
}


/// What `pop_key` emits for a sequence of events, in order.
pub open spec fn pop_key_run<W>(evs: Seq<EventView<W>>) -> Seq<EventView<W>>
    decreases evs.len(),
{
    if evs.len() == 0 {
        Seq::empty()
    } else {
        pop_key_spec(evs[0]) + pop_key_run(evs.drop_first())
    }
}

/// `pop_key` handles joined sequences piece by piece.
pub proof fn lemma_pop_key_run_append<W>(a: Seq<EventView<W>>, b: Seq<EventView<W>>)
    ensures
        pop_key_run(a + b) == pop_key_run(a) + pop_key_run(b),
    decreases a.len(),
{
    if a.len() == 0 {
        assert(a + b =~= b);
        assert(pop_key_run(a) + pop_key_run(b) =~= pop_key_run(b));
    } else {
        assert((a + b)[0] == a[0]);
        assert((a + b).drop_first() =~= a.drop_first() + b);
        lemma_pop_key_run_append(a.drop_first(), b);
        assert(pop_key_spec(a[0]) + (pop_key_run(a.drop_first()) + pop_key_run(b)) =~= (pop_key_spec(
            a[0],
        ) + pop_key_run(a.drop_first())) + pop_key_run(b));
    }
}

} // verus!
