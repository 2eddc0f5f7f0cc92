use vstd::prelude::*;
use crate::events::{Event, EventView};

verus! {

/// A `for_each` sink takes items and the end of the stream; it refuses everything else.
pub open spec fn for_each_accepts<W>(e: EventView<W>) -> bool {
    e is PushItem || e is Completed
}

/// Handles one event of a `for_each` sink: the value that its function is to be
/// called with, or `None` at the end of the stream.
pub fn for_each_event<V: View>(event: Event<V>) -> (r: Option<V>)
    requires
        for_each_accepts(event@),
    ensures
        match event {
            Event::PushItem(item) => r == Some(item.value),
            _ => r is None,
        },
{
    match event {
        Event::PushItem(item) => Some(item.value),
        _ => None,
    }
}


/// The values of the items among `evs`, in order.
pub open spec fn item_values<V>(evs: Seq<Event<V>>) -> Seq<V>
    decreases evs.len(),
{
    if evs.len() == 0 {
        Seq::empty()
    } else {
        (match evs[0] {
            Event::PushItem(item) => seq![item.value],
            _ => Seq::empty(),
        }) + item_values(evs.drop_first())
    }
}

/// How many of `evs` end the stream.
pub open spec fn ends_in<V>(evs: Seq<Event<V>>) -> nat
    decreases evs.len(),
{
    if evs.len() == 0 {
        0
    } else {
        (if evs[0] is Completed {
            1nat
        } else {
            0nat
        }) + ends_in(evs.drop_first())
    }
}

/// No more ends than events.
proof fn lemma_ends_in_len<V>(evs: Seq<Event<V>>)
    ensures
        ends_in(evs) <= evs.len(),
    decreases evs.len(),
{
    if evs.len() > 0 {
        lemma_ends_in_len(evs.drop_first());
    }
}

/// A `for_each` sink subscribed to a stream of items and ends: its function `f` is
/// called, one item after the other, on the value of each item; the result is how many
/// times the stream ended (each is reported to the host).
pub fn for_each<V: View, F: Fn(V)>(events: Vec<Event<V>>, f: &F) -> (ends: usize)
    requires
        forall|i: int| 0 <= i < events@.len() ==> for_each_accepts(#[trigger] events@[i]@),
        forall|v: V| #[trigger] call_requires(*f, (v,)),
    ensures
        forall|i: int|
            0 <= i < item_values(events@).len() ==> call_ensures(*f, (#[trigger] item_values(events@)[i],), ()),
        ends == ends_in(events@),
{
    let ghost evs0 = events@;
    let ghost mut done: Seq<V> = Seq::empty();
    let mut pending = events;
    let mut ends: usize = 0;
    proof {
        lemma_ends_in_len(evs0);
    }
    let n = pending.len();
    while pending.len() > 0
        invariant
            evs0 == events@,
            forall|i: int| 0 <= i < pending@.len() ==> for_each_accepts(#[trigger] pending@[i]@),
            forall|v: V| #[trigger] call_requires(*f, (v,)),
            item_values(evs0) == done + item_values(pending@),
            forall|i: int| 0 <= i < done.len() ==> call_ensures(*f, (#[trigger] done[i],), ()),
            ends + ends_in(pending@) == ends_in(evs0),
            ends_in(evs0) <= evs0.len(),
            evs0.len() == n,
        decreases pending@.len(),
    {
        let ghost before = pending@;
        let event = pending.remove(0);
        assert(before[0] == event);
        assert(before.drop_first() =~= pending@);
        assert(for_each_accepts(before[0]@));
        assert forall|i: int| 0 <= i < pending@.len() implies for_each_accepts(#[trigger] pending@[i]@) by {
            assert(pending@[i] == before[i + 1]);
        }
        match for_each_event(event) {
            Some(value) => {
                let ghost v = value;
                f(value);
                proof {
                    assert(item_values(before) == seq![v] + item_values(pending@));
                    assert(done + (seq![v] + item_values(pending@)) =~= done.push(v) + item_values(pending@));
                    done = done.push(v);
                }
            },
            None => {
                assert(before[0] is Completed);
                assert(ends_in(before) == 1 + ends_in(pending@));
                proof {
                    assert(item_values(before) == Seq::<V>::empty() + item_values(pending@));
                    assert(Seq::<V>::empty() + item_values(pending@) =~= item_values(pending@));
                }
                ends = ends + 1;
            },
        }
    }
    assert(done =~= item_values(evs0));
    ends
}

} // verus!
