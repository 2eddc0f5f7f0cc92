use vstd::prelude::*;

verus! {

/// A key: the path of nested key indices that an item belongs to, outermost first.
pub type Key = Vec<usize>;

/// A value travelling under a key.
pub struct Item<V> {
    pub key: Key,
    pub value: V,
}

/// What one stage of a stream hands the next.
pub enum Event<V> {
    /// A key starts.
    KeyCreated(Key),
    /// A key ends.
    KeyCompleted(Key),
    /// A key start that a later stage turns back into `KeyCreated`.
    ForwardKeyCreated(Key),
    /// A key end that a later stage turns back into `KeyCompleted`.
    ForwardKeyCompleted(Key),
    /// An item.
    PushItem(Item<V>),
    /// A request to pull an item (push-only stages refuse it).
    PollItem,
    /// The end of the stream.
    Completed,
}

/// An event as contracts see it; `W` is the view of the values.
pub enum EventView<W> {
    KeyCreated(Seq<usize>),
    KeyCompleted(Seq<usize>),
    ForwardKeyCreated(Seq<usize>),
    ForwardKeyCompleted(Seq<usize>),
    PushItem(Seq<usize>, W),
    PollItem,
    Completed,
}

impl<V: View> View for Event<V> {
    type V = EventView<V::V>;

    open spec fn view(&self) -> EventView<V::V> {
        match self {
            Event::KeyCreated(k) => EventView::KeyCreated(k@),
            Event::KeyCompleted(k) => EventView::KeyCompleted(k@),
            Event::ForwardKeyCreated(k) => EventView::ForwardKeyCreated(k@),
            Event::ForwardKeyCompleted(k) => EventView::ForwardKeyCompleted(k@),
            Event::PushItem(item) => EventView::PushItem(item.key@, item.value@),
            Event::PollItem => EventView::PollItem,
            Event::Completed => EventView::Completed,
        }
    }
}

/// The views of a sequence of events.
pub open spec fn events_view<V: View>(evs: Seq<Event<V>>) -> Seq<EventView<V::V>> {
    evs.map_values(|e: Event<V>| e@)
}

/// A copy of a key.
pub fn copy_key(key: &Key) -> (r: Key)
    ensures
        r@ == key@,
{
    let mut r: Vec<usize> = Vec::new();
    let mut i: usize = 0;
    while i < key.len()
        invariant
            i <= key@.len(),
            r@ == key@.subrange(0, i as int),
        decreases key@.len() - i,
    {
        r.push(key[i]);
        i = i + 1;
        assert(r@ =~= key@.subrange(0, i as int));
    }
    assert(r@ =~= key@);
    r
}

/// The key with one more, innermost index appended.
pub fn extend_key(key: &Key, index: usize) -> (r: Key)
    ensures
        r@ == key@.push(index),
{
    let mut r = copy_key(key);
    r.push(index);
    r
}

} // verus!
