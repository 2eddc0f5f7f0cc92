use vstd::prelude::*;
use crate::{OperatorKind, OperatorView};
use crate::events::{Event, EventView, Item, events_view, copy_key, extend_key};
use crate::operators::pop_key::pop_key_run;
use crate::state::{MemoryState, Slot, State, slots_after_create};

verus! {

/// The host's key function at `index` can be called on every value.
pub open spec fn key_fn_callable<V, K: Fn(i32, &V) -> i64>(k: K, index: i32) -> bool {
    forall|v: V| #[trigger] call_requires(k, (index, &v))
}

/// `k` may answer `n` when called at `index` on a value of view `v`.
pub open spec fn key_answers<V: View, K: Fn(i32, &V) -> i64>(k: K, index: i32, v: V::V, n: i64) -> bool {
    exists|a: V| #[trigger] call_ensures(k, (index, &a), n) && a@ == v
}

/// A running `push_key_split` operator: the host index of its key function and,
/// for each key (by its innermost index), the split key of the last item.
pub struct KeySplitState {
    index: i32,
    state: MemoryState<i64>,
}

/// A running `push_key_split` operator as contracts see it.
pub struct KeySplitView {
    pub index: i32,
    pub slots: Seq<Slot<i64>>,
}

impl View for KeySplitState {
    type V = KeySplitView;

    closed spec fn view(&self) -> KeySplitView {
        KeySplitView { index: self.index, slots: self.state.view_slots() }
    }
}

/// The events that `push_key_split` handles: an item must have a key that exists,
/// a created key must be at least the last index of the table, a completed key must
/// be in the table, and pull requests are refused.
pub open spec fn push_key_split_accepts<W>(s: KeySplitView, e: EventView<W>) -> bool {
    match e {
        EventView::PushItem(key, _) => {
            &&& key.len() > 0
            &&& key.last() < s.slots.len()
            &&& !(s.slots[key.last() as int] is Cleared)
        },
        EventView::KeyCreated(keys) => keys.len() > 0 ==> {
            &&& keys.last() < usize::MAX
            &&& s.slots.len() <= keys.last() + 1
        },
        EventView::KeyCompleted(keys) => keys.len() > 0 ==> keys.last() < s.slots.len(),
        EventView::PollItem => false,
        _ => true,
    }
}

/// What `push_key_split` does with one event, where `new_key` is the split key that
/// the key function gave for the item: its new state and what it emits. Items move to
/// a nested key (index 0 under their own); when an item's split key differs from the
/// previous one under the same key, the nested key is completed and created again
/// first. A created or completed key also creates or completes the nested key, and
/// is forwarded to be restored later.
pub open spec fn push_key_split_spec<W>(s: KeySplitView, e: EventView<W>, new_key: i64) -> (
    KeySplitView,
    Seq<EventView<W>>,
) {
    match e {
        EventView::PushItem(key, v) => {
            let k = key.last() as int;
            let split = key.push(0);
            let s2 = KeySplitView { slots: s.slots.update(k, Slot::Value(new_key)), ..s };
            match s.slots[k] {
                Slot::Value(current) => if current != new_key {
                    (
                        s2,
                        seq![
                            EventView::KeyCompleted(split),
                            EventView::KeyCreated(split),
                            EventView::PushItem(split, v),
                        ],
                    )
                } else {
                    (s, seq![EventView::PushItem(split, v)])
                },
                _ => (s2, seq![EventView::PushItem(split, v)]),
            }
        },
        EventView::KeyCreated(keys) => if keys.len() == 0 {
            (s, Seq::empty())
        } else {
            (
                KeySplitView { slots: slots_after_create(s.slots, keys.last() as nat), ..s },
                seq![EventView::KeyCreated(keys.push(0)), EventView::ForwardKeyCreated(keys)],
            )
        },
        EventView::KeyCompleted(keys) => if keys.len() == 0 {
            (s, Seq::empty())
        } else {
            (
                KeySplitView { slots: s.slots.update(keys.last() as int, Slot::Cleared), ..s },
                seq![EventView::KeyCompleted(keys.push(0)), EventView::ForwardKeyCompleted(keys)],
            )
        },
        EventView::ForwardKeyCreated(k) => (s, seq![EventView::ForwardKeyCreated(k)]),
        EventView::ForwardKeyCompleted(k) => (s, seq![EventView::ForwardKeyCompleted(k)]),
        EventView::Completed => (s, seq![EventView::Completed]),
        EventView::PollItem => (s, Seq::empty()),
    }
}

impl KeySplitState {
    /// The state's representation is consistent.
    pub closed spec fn inv(&self) -> bool {
        self.state.well_formed()
    }

    /// A `push_key_split` operator with host index `index` that starts from the
    /// given (empty) state.
    pub fn new(index: i32, state: MemoryState<i64>) -> (r: Self)
        requires
            state.well_formed(),
        ensures
            r.inv(),
            r@ == (KeySplitView { index, slots: state.view_slots() }),
    {
        KeySplitState { index, state }
    }

    /// The host index of the key function.
    pub fn index(&self) -> (r: i32)
        ensures
            r == self@.index,
    {
        self.index
    }

    /// Whether the operator handles `event` (see `push_key_split_accepts`).
    pub fn accepts<V: View>(&self, event: &Event<V>) -> (r: bool)
        requires
            self.inv(),
        ensures
            r == push_key_split_accepts(self@, event@),
    {
        match event {
            Event::PushItem(item) => {
                let len = item.key.len();
                len > 0 && item.key[len - 1] < self.state.len() && self.state.has_key(item.key[len - 1])
            },
            Event::KeyCreated(keys) => {
                let len = keys.len();
                len == 0 || (keys[len - 1] < usize::MAX && self.state.len() <= keys[len - 1] + 1)
            },
            Event::KeyCompleted(keys) => {
                let len = keys.len();
                len == 0 || keys[len - 1] < self.state.len()
            },
            Event::PollItem => false,
            _ => true,
        }
    }

    /// Handles one event, given the split key that the key function gave for its item,
    /// and returns what the operator emits.
    pub fn on_event_with_key<V: View>(&mut self, event: Event<V>, new_key: i64) -> (out: Vec<Event<V>>)
        requires
            old(self).inv(),
            push_key_split_accepts(old(self)@, event@),
        ensures
            final(self).inv(),
            (final(self)@, events_view(out@)) == push_key_split_spec(old(self)@, event@, new_key),
    {
        let mut out: Vec<Event<V>> = Vec::new();
        match event {
            Event::PushItem(item) => {
                let len = item.key.len();
                let k = item.key[len - 1];
                let split_key = extend_key(&item.key, 0);
                match self.state.get(k) {
                    Some(current_key) => {
                        if current_key != new_key {
                            self.state.set(k, new_key);
                            out.push(Event::KeyCompleted(copy_key(&split_key)));
                            out.push(Event::KeyCreated(copy_key(&split_key)));
                        }
                    },
                    None => {
                        self.state.set(k, new_key);
                    },
                }
                out.push(Event::PushItem(Item { key: split_key, value: item.value }));
            },
            Event::KeyCreated(keys) => {
                let len = keys.len();
                if len > 0 {
                    self.state.create_key(keys[len - 1]);
                    let split_key = extend_key(&keys, 0);
                    out.push(Event::KeyCreated(split_key));
                    out.push(Event::ForwardKeyCreated(keys));
                }
            },
            Event::KeyCompleted(keys) => {
                let len = keys.len();
                if len > 0 {
                    let split_key = extend_key(&keys, 0);
                    out.push(Event::KeyCompleted(split_key));
                    self.state.delete_key(keys[len - 1]);
                    out.push(Event::ForwardKeyCompleted(keys));
                }
            },
            Event::ForwardKeyCreated(k) => {
                out.push(Event::ForwardKeyCreated(k));
            },
            Event::ForwardKeyCompleted(k) => {
                out.push(Event::ForwardKeyCompleted(k));
            },
            Event::Completed => {
                out.push(Event::Completed);
            },
            Event::PollItem => {},
        }
        assert(events_view(out@) =~= push_key_split_spec(old(self)@, event@, new_key).1);
        out
    }

    /// Handles one event, asking the host's key function `k` (once) for the split key
    /// of an item, and returns what the operator emits.
    pub fn on_event<V: View, K: Fn(i32, &V) -> i64>(&mut self, event: Event<V>, k: &K) -> (out: Vec<
        Event<V>,
    >)
        requires
            old(self).inv(),
            push_key_split_accepts(old(self)@, event@),
            key_fn_callable::<V, K>(*k, old(self)@.index),
        ensures
            final(self).inv(),
            match event {
                Event::PushItem(item) => exists|n: i64|
                    call_ensures(*k, (old(self)@.index, &item.value), n) && #[trigger] push_key_split_spec(
                        old(self)@,
                        event@,
                        n,
                    ) == (final(self)@, events_view(out@)),
                _ => (final(self)@, events_view(out@)) == push_key_split_spec(old(self)@, event@, 0),
            },
    {
        let new_key: i64 = match &event {
            Event::PushItem(item) => k(self.index, &item.value),
            _ => 0,
        };
        self.on_event_with_key(event, new_key)
    }
}

/// A `push_key_split` operator whose key function is the host's function at `index`.
pub fn push_key_split(index: i32) -> (r: OperatorKind)
    ensures
        r@ == OperatorView::PushKeySplit(index),
{
    OperatorKind::PushKeySplit(index)
}


/// An event that comes from upstream of a key split: an item, a created or completed
/// key with at least one index, or the end of the stream.
pub open spec fn plain_event<W>(e: EventView<W>) -> bool {
    match e {
        EventView::PushItem(_, _) => true,
        EventView::KeyCreated(k) => k.len() > 0,
        EventView::KeyCompleted(k) => k.len() > 0,
        EventView::Completed => true,
        _ => false,
    }
}

/// `pop_key` undoes `push_key_split`: what `push_key_split` emits for a plain event,
/// handled by `pop_key`, is that event again.
pub proof fn lemma_pop_key_undoes_push_key_split<W>(s: KeySplitView, e: EventView<W>, new_key: i64)
    requires
        push_key_split_accepts(s, e),
        plain_event(e),
    ensures
        pop_key_run(push_key_split_spec(s, e, new_key).1) == seq![e],
{
    reveal_with_fuel(pop_key_run, 4);
    let out = push_key_split_spec(s, e, new_key).1;
    match e {
        EventView::PushItem(key, v) => {
            assert(key.push(0).drop_last() =~= key);
        },
        _ => {},
    }
    assert(pop_key_run(out) =~= seq![e]);
}

} // verus!
