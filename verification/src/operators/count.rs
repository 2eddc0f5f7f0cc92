use vstd::prelude::*;
use crate::{OperatorKind, OperatorView};
use std::rc::Rc;
use crate::events::{Event, EventView, Item, events_view, copy_key};
use crate::flextuple::{FlexSchema, FlexTuple, FieldView, SchemaView, TupleView};
use crate::state::{MemoryState, Slot, State, read_slot, slots_after_create};

verus! {

/// A running `count` operator: the schema of the tuples it emits, whether it reduces
/// (emits one count when a key completes) or not (emits the running count with every
/// item), and the count of each key, kept by the key's innermost index.
pub struct CountState {
    schema: Rc<FlexSchema>,
    reduce: bool,
    state: MemoryState<i64>,
}

/// A running `count` operator as contracts see it.
pub struct CountView {
    pub schema: SchemaView,
    pub reduce: bool,
    pub slots: Seq<Slot<i64>>,
}

impl View for CountState {
    type V = CountView;

    closed spec fn view(&self) -> CountView {
        CountView { schema: self.schema@, reduce: self.reduce, slots: self.state.view_slots() }
    }
}

/// The tuple that carries the count `n`: one 64-bit integer under the given schema.
pub open spec fn count_tuple(schema: SchemaView, n: i64) -> TupleView {
    TupleView { schema, values: seq![FieldView::Int64(n)] }
}

/// The count of a key after one more item: one more than before, or one.
pub open spec fn next_count(s: Slot<i64>) -> int {
    match s {
        Slot::Value(n) => n + 1,
        _ => 1,
    }
}

/// The count that a reducing `count` emits when a key completes: the key's count, or 0.
pub open spec fn final_count(s: Slot<i64>) -> i64 {
    match read_slot(s) {
        Some(n) => n,
        None => 0,
    }
}

/// The events that `count` handles: an item or a completed key must address a key
/// that exists (a completed key only where it reduces), the count must stay within
/// `i64`, a created key must be at least the last index of the table, and pull
/// requests are refused. Keys without an index are let through.
pub open spec fn count_accepts<W>(c: CountView, e: EventView<W>) -> bool {
    match e {
        EventView::PushItem(key, _) => key.len() > 0 ==> {
            let k = key.last() as int;
            &&& k < c.slots.len()
            &&& !(c.slots[k] is Cleared)
            &&& next_count(c.slots[k]) <= i64::MAX
        },
        EventView::KeyCreated(keys) => keys.len() > 0 ==> {
            &&& keys.last() < usize::MAX
            &&& c.slots.len() <= keys.last() + 1
        },
        EventView::KeyCompleted(keys) => keys.len() > 0 ==> {
            &&& keys.last() < c.slots.len()
            &&& (c.reduce ==> !(c.slots[keys.last() as int] is Cleared))
        },
        EventView::PollItem => false,
        _ => true,
    }
}

/// What `count` does with one event: its new state and what it emits.
pub open spec fn count_spec<W>(c: CountView, e: EventView<W>) -> (CountView, Seq<EventView<TupleView>>) {
    match e {
        EventView::PushItem(key, _) => if key.len() == 0 {
            (c, Seq::empty())
        } else {
            let k = key.last() as int;
            let n = next_count(c.slots[k]) as i64;
            let c2 = CountView { slots: c.slots.update(k, Slot::Value(n)), ..c };
            if c.reduce {
                (c2, Seq::empty())
            } else {
                (c2, seq![EventView::PushItem(key, count_tuple(c.schema, n))])
            }
        },
        EventView::KeyCreated(keys) => if keys.len() == 0 {
            (c, seq![EventView::KeyCreated(keys)])
        } else {
            (
                CountView { slots: slots_after_create(c.slots, keys.last() as nat), ..c },
                seq![EventView::KeyCreated(keys)],
            )
        },
        EventView::KeyCompleted(keys) => if keys.len() == 0 {
            (c, seq![EventView::KeyCompleted(keys)])
        } else {
            let k = keys.last() as int;
            let c2 = CountView { slots: c.slots.update(k, Slot::Cleared), ..c };
            if c.reduce {
                (
                    c2,
                    seq![
                        EventView::PushItem(keys, count_tuple(c.schema, final_count(c.slots[k]))),
                        EventView::KeyCompleted(keys),
                    ],
                )
            } else {
                (c2, seq![EventView::KeyCompleted(keys)])
            }
        },
        EventView::ForwardKeyCreated(k) => (c, seq![EventView::ForwardKeyCreated(k)]),
        EventView::ForwardKeyCompleted(k) => (c, seq![EventView::ForwardKeyCompleted(k)]),
        EventView::Completed => (c, seq![EventView::Completed]),
        EventView::PollItem => (c, Seq::empty()),
    }
}

impl CountState {
    /// The state's representation is consistent.
    pub closed spec fn inv(&self) -> bool {
        self.state.well_formed()
    }

    /// A `count` operator that starts from the given (empty) state.
    pub fn new(schema: Rc<FlexSchema>, reduce: bool, state: MemoryState<i64>) -> (r: Self)
        requires
            state.well_formed(),
        ensures
            r.inv(),
            r@ == (CountView { schema: schema@, reduce, slots: state.view_slots() }),
    {
        CountState { schema, reduce, state }
    }

    /// Whether the operator handles `event` (see `count_accepts`).
    pub fn accepts<V: View>(&self, event: &Event<V>) -> (r: bool)
        requires
            self.inv(),
        ensures
            r == count_accepts(self@, event@),
    {
        match event {
            Event::PushItem(item) => {
                let len = item.key.len();
                if len == 0 {
                    true
                } else {
                    let k = item.key[len - 1];
                    if k >= self.state.len() || !self.state.has_key(k) {
                        false
                    } else {
                        match self.state.get(k) {
                            Some(n) => n < i64::MAX,
                            None => true,
                        }
                    }
                }
            },
            Event::KeyCreated(keys) => {
                let len = keys.len();
                len == 0 || (keys[len - 1] < usize::MAX && self.state.len() <= keys[len - 1] + 1)
            },
            Event::KeyCompleted(keys) => {
                let len = keys.len();
                len == 0 || (keys[len - 1] < self.state.len() && (!self.reduce || self.state.has_key(
                    keys[len - 1],
                )))
            },
            Event::PollItem => false,
            _ => true,
        }
    }

    /// The tuple that carries `n`.
    fn tuple_of(&self, n: i64) -> (r: Rc<FlexTuple>)
        ensures
            r@ == count_tuple(self@.schema, n),
    {
        let mut ft = FlexTuple::new(crate::shared::share(&self.schema));
        ft.add_int64(n);
        assert(ft@.values =~= seq![FieldView::Int64(n)]);
        Rc::new(ft)
    }

    /// Handles one event and returns what the operator emits.
    pub fn on_event<V: View>(&mut self, event: Event<V>) -> (out: Vec<Event<Rc<FlexTuple>>>)
        requires
            old(self).inv(),
            count_accepts(old(self)@, event@),
        ensures
            final(self).inv(),
            (final(self)@, events_view(out@)) == count_spec(old(self)@, event@),
    {
        let mut out: Vec<Event<Rc<FlexTuple>>> = Vec::new();
        match event {
            Event::PushItem(item) => {
                let len = item.key.len();
                if len > 0 {
                    let k = item.key[len - 1];
                    let value: i64 = match self.state.get(k) {
                        Some(value) => value + 1,
                        None => 1,
                    };
                    self.state.set(k, value);
                    if !self.reduce {
                        let ft = self.tuple_of(value);
                        out.push(Event::PushItem(Item { key: item.key, value: ft }));
                    }
                }
            },
            Event::KeyCreated(keys) => {
                let len = keys.len();
                if len > 0 {
                    self.state.create_key(keys[len - 1]);
                }
                out.push(Event::KeyCreated(keys));
            },
            Event::KeyCompleted(keys) => {
                let len = keys.len();
                if len > 0 {
                    let k = keys[len - 1];
                    if self.reduce {
                        let value: i64 = match self.state.get(k) {
                            Some(value) => value,
                            None => 0,
                        };
                        let ft = self.tuple_of(value);
                        out.push(Event::PushItem(Item { key: copy_key(&keys), value: ft }));
                    }
                    self.state.delete_key(k);
                }
                out.push(Event::KeyCompleted(keys));
            },
            Event::ForwardKeyCreated(k) => {
                out.push(Event::ForwardKeyCreated(k));
            },
            Event::ForwardKeyCompleted(k) => {
                out.push(Event::ForwardKeyCompleted(k));
            },
            Event::Completed => {
                out.push(Event::Completed);
            },
            Event::PollItem => {},
        }
        assert(events_view(out@) =~= count_spec(old(self)@, event@).1);
        out
    }
}


/// A `count` operator that emits tuples of `schema` (one 64-bit integer each); with
/// `reduce` it emits one count per completed key, else the running count with every item.
pub fn count(schema: Rc<FlexSchema>, reduce: bool) -> (r: OperatorKind)
    ensures
        r@ == OperatorView::Count(schema@, reduce),
{
    OperatorKind::Count(schema, reduce)
}


/// What `count` does with a sequence of events, one after the other: its final state
/// and all it emits, in order.
pub open spec fn count_run<W>(c: CountView, evs: Seq<EventView<W>>) -> (CountView, Seq<EventView<TupleView>>)
    decreases evs.len(),
{
    if evs.len() == 0 {
        (c, Seq::empty())
    } else {
        let (c1, o1) = count_spec(c, evs[0]);
        let (c2, o2) = count_run(c1, evs.drop_first());
        (c2, o1 + o2)
    }
}

/// Whether `count` handles every event of a sequence, in the states it passes through.
pub open spec fn count_run_accepts<W>(c: CountView, evs: Seq<EventView<W>>) -> bool
    decreases evs.len(),
{
    evs.len() == 0 || (count_accepts(c, evs[0]) && count_run_accepts(count_spec(c, evs[0]).0, evs.drop_first()))
}

/// The items carrying `vals`, in order, all under the key `ks`.
pub open spec fn items_under<W>(ks: Seq<usize>, vals: Seq<W>) -> Seq<EventView<W>> {
    vals.map_values(|v: W| EventView::PushItem(ks, v))
}

/// The count a key holds now: its value, or 0 if it has none.
pub open spec fn current_count(s: Slot<i64>) -> int {
    match s {
        Slot::Value(n) => n as int,
        _ => 0,
    }
}

/// The running counts `start + 1` to `start + n` under the key `ks`.
pub open spec fn running_counts(ks: Seq<usize>, schema: SchemaView, start: int, n: nat) -> Seq<
    EventView<TupleView>,
> {
    Seq::new(n, |j: int| EventView::PushItem(ks, count_tuple(schema, (start + j + 1) as i64)))
}

/// The state of `count` after `n` more items under the key at index `k`.
pub open spec fn counted(c: CountView, k: int, n: nat) -> CountView {
    if n == 0 {
        c
    } else {
        CountView { slots: c.slots.update(k, Slot::Value((current_count(c.slots[k]) + n) as i64)), ..c }
    }
}

/// A `count` that does not reduce answers the `n` items of an existing key with the
/// running counts: the j-th of them carries the key's count plus j, and the key then
/// holds its count plus `n`.
pub proof fn lemma_count_emits_running_counts<W>(c: CountView, ks: Seq<usize>, vals: Seq<W>)
    requires
        !c.reduce,
        ks.len() > 0,
        ks.last() < c.slots.len(),
        !(c.slots[ks.last() as int] is Cleared),
        current_count(c.slots[ks.last() as int]) + vals.len() <= i64::MAX,
    ensures
        count_run_accepts(c, items_under(ks, vals)),
        count_run(c, items_under(ks, vals)) == (
            counted(c, ks.last() as int, vals.len()),
            running_counts(ks, c.schema, current_count(c.slots[ks.last() as int]), vals.len()),
        ),
    decreases vals.len(),
{
    let k = ks.last() as int;
    let evs = items_under(ks, vals);
    let cur = current_count(c.slots[k]);
    if vals.len() == 0 {
        assert(running_counts(ks, c.schema, cur, 0) =~= Seq::<EventView<TupleView>>::empty());
    } else {
        assert(evs[0] == EventView::<W>::PushItem(ks, vals[0]));
        let (c1, o1) = count_spec(c, evs[0]);
        assert(current_count(c1.slots[k]) == cur + 1);
        assert(evs.drop_first() =~= items_under(ks, vals.drop_first()));
        lemma_count_emits_running_counts(c1, ks, vals.drop_first());
        assert(o1 + running_counts(ks, c.schema, cur + 1, (vals.len() - 1) as nat) =~= running_counts(
            ks,
            c.schema,
            cur,
            vals.len(),
        ));
        if vals.len() > 1 {
            assert(counted(c1, k, (vals.len() - 1) as nat).slots =~= counted(c, k, vals.len()).slots);
        }
    }
}

/// Items under an existing key change nothing but its count in a reducing `count`,
/// which emits nothing for them.
proof fn lemma_reducing_count_is_silent<W>(c: CountView, ks: Seq<usize>, vals: Seq<W>)
    requires
        c.reduce,
        ks.len() > 0,
        ks.last() < c.slots.len(),
        !(c.slots[ks.last() as int] is Cleared),
        current_count(c.slots[ks.last() as int]) + vals.len() <= i64::MAX,
    ensures
        count_run_accepts(c, items_under(ks, vals)),
        count_run(c, items_under(ks, vals)) == (counted(c, ks.last() as int, vals.len()), Seq::<
            EventView<TupleView>,
        >::empty()),
    decreases vals.len(),
{
    let k = ks.last() as int;
    let evs = items_under(ks, vals);
    if vals.len() > 0 {
        assert(evs[0] == EventView::<W>::PushItem(ks, vals[0]));
        let (c1, o1) = count_spec(c, evs[0]);
        assert(evs.drop_first() =~= items_under(ks, vals.drop_first()));
        lemma_reducing_count_is_silent(c1, ks, vals.drop_first());
        assert(o1 + Seq::<EventView<TupleView>>::empty() =~= Seq::<EventView<TupleView>>::empty());
        if vals.len() > 1 {
            assert(counted(c1, k, (vals.len() - 1) as nat).slots =~= counted(c, k, vals.len()).slots);
        }
    }
}

/// `count` handling one sequence after another is `count` handling them joined.
proof fn lemma_count_run_append<W>(c: CountView, a: Seq<EventView<W>>, b: Seq<EventView<W>>)
    ensures
        ({
            let (ca, oa) = count_run(c, a);
            let (cb, ob) = count_run(ca, b);
            count_run(c, a + b) == (cb, oa + ob)
        }),
        count_run_accepts(c, a + b) == (count_run_accepts(c, a) && count_run_accepts(count_run(c, a).0, b)),
    decreases a.len(),
{
    if a.len() == 0 {
        assert(a + b =~= b);
        let (cb, ob) = count_run(c, b);
        assert(Seq::<EventView<TupleView>>::empty() + ob =~= ob);
    } else {
        let (c1, o1) = count_spec(c, a[0]);
        assert((a + b)[0] == a[0]);
        assert((a + b).drop_first() =~= a.drop_first() + b);
        lemma_count_run_append(c1, a.drop_first(), b);
        let (ca, oa) = count_run(c1, a.drop_first());
        let (cb, ob) = count_run(ca, b);
        assert(o1 + (oa + ob) =~= (o1 + oa) + ob);
    }
}

/// A reducing `count` answers the `n` items of an existing key and its completion with
/// one item that carries the key's count plus `n`, then the completion; the key is
/// then cleared.
pub proof fn lemma_reducing_count_emits_total<W>(c: CountView, ks: Seq<usize>, vals: Seq<W>)
    requires
        c.reduce,
        ks.len() > 0,
        ks.last() < c.slots.len(),
        !(c.slots[ks.last() as int] is Cleared),
        current_count(c.slots[ks.last() as int]) + vals.len() <= i64::MAX,
    ensures
        count_run_accepts(c, items_under(ks, vals).push(EventView::KeyCompleted(ks))),
        count_run(c, items_under(ks, vals).push(EventView::KeyCompleted(ks))) == (
            CountView { slots: c.slots.update(ks.last() as int, Slot::Cleared), ..c },
            seq![
                EventView::PushItem(
                    ks,
                    count_tuple(c.schema, (current_count(c.slots[ks.last() as int]) + vals.len()) as i64),
                ),
                EventView::KeyCompleted(ks),
            ],
        ),
{
    let k = ks.last() as int;
    let items = items_under(ks, vals);
    let done = seq![EventView::<W>::KeyCompleted(ks)];
    assert(items.push(EventView::KeyCompleted(ks)) =~= items + done);
    lemma_reducing_count_is_silent(c, ks, vals);
    lemma_count_run_append(c, items, done);
    let ca = counted(c, k, vals.len());
    assert(final_count(ca.slots[k]) == (current_count(c.slots[k]) + vals.len()) as i64);
    assert(done[0] == EventView::<W>::KeyCompleted(ks));
    assert(done.drop_first() =~= Seq::<EventView<W>>::empty());
    assert(ca.slots.len() == c.slots.len());
    assert(!(ca.slots[k] is Cleared));
    assert(count_accepts(ca, done[0]));
    let (c1, o1) = count_spec(ca, done[0]);
    assert(count_run(c1, done.drop_first()) == (c1, Seq::<EventView<TupleView>>::empty()));
    assert(count_run_accepts(c1, done.drop_first()));
    let (cb, ob) = count_run(ca, done);
    assert(o1 + Seq::<EventView<TupleView>>::empty() =~= o1);
    assert(cb.slots =~= c.slots.update(k, Slot::Cleared));
    assert(Seq::<EventView<TupleView>>::empty() + ob =~= ob);
}

/// The innermost index of the key that an event is about (an item, a created or a
/// completed key), or -1 where there is none.
pub open spec fn event_index<W>(e: EventView<W>) -> int {
    match e {
        EventView::PushItem(k, _) => if k.len() > 0 { k.last() as int } else { -1 },
        EventView::KeyCreated(k) => if k.len() > 0 { k.last() as int } else { -1 },
        EventView::KeyCompleted(k) => if k.len() > 0 { k.last() as int } else { -1 },
        _ => -1,
    }
}

/// The count that `count` holds at index `l`: 0 where it holds none.
pub open spec fn count_at(c: CountView, l: int) -> int {
    if 0 <= l < c.slots.len() {
        current_count(c.slots[l])
    } else {
        0
    }
}

/// How the count of index `l` moves with one event: one more for an item under a key
/// ending in `l`, back to 0 when such a key is created or completed.
pub open spec fn count_step<W>(n: int, e: EventView<W>, l: int) -> int {
    match e {
        EventView::PushItem(k, _) => if k.len() > 0 && k.last() == l { n + 1 } else { n },
        EventView::KeyCreated(k) => if k.len() > 0 && k.last() == l { 0 } else { n },
        EventView::KeyCompleted(k) => if k.len() > 0 && k.last() == l { 0 } else { n },
        _ => n,
    }
}

/// The count of index `l` before the `j`-th event of a stream: the number of its items
/// since its key was last created (or completed), or, where neither happened, its
/// count at the start plus its items since.
pub open spec fn items_since_created<W>(c: CountView, evs: Seq<EventView<W>>, j: int, l: int) -> int
    decreases j,
{
    if j <= 0 {
        count_at(c, l)
    } else {
        count_step(items_since_created(c, evs, j - 1, l), evs[j - 1], l)
    }
}

/// What `count` emits for one event when the count of the event's key stands at `n`:
/// an item gets the count with it included (nothing where it reduces); a completed key
/// gets its count first where it reduces; everything else passes.
pub open spec fn count_event_out<W>(schema: SchemaView, reduce: bool, n: int, e: EventView<W>) -> Seq<
    EventView<TupleView>,
> {
    match e {
        EventView::PushItem(k, _) => if k.len() == 0 || reduce {
            Seq::empty()
        } else {
            seq![EventView::PushItem(k, count_tuple(schema, (n + 1) as i64))]
        },
        EventView::KeyCreated(k) => seq![EventView::KeyCreated(k)],
        EventView::KeyCompleted(k) => if k.len() > 0 && reduce {
            seq![EventView::PushItem(k, count_tuple(schema, n as i64)), EventView::KeyCompleted(k)]
        } else {
            seq![EventView::KeyCompleted(k)]
        },
        EventView::ForwardKeyCreated(k) => seq![EventView::ForwardKeyCreated(k)],
        EventView::ForwardKeyCompleted(k) => seq![EventView::ForwardKeyCompleted(k)],
        EventView::Completed => seq![EventView::Completed],
        EventView::PollItem => Seq::empty(),
    }
}

/// What `count` emits for a stream from its `j`-th event on: each event's output with
/// the count of its key as it stands before it.
pub open spec fn count_stream<W>(c: CountView, evs: Seq<EventView<W>>, j: int) -> Seq<EventView<TupleView>>
    decreases evs.len() - j,
{
    if j < 0 || j >= evs.len() {
        Seq::empty()
    } else {
        count_event_out(c.schema, c.reduce, items_since_created(c, evs, j, event_index(evs[j])), evs[j])
            + count_stream(c, evs, j + 1)
    }
}

/// One step of `count` in terms of counts.
proof fn lemma_count_step<W>(c: CountView, e: EventView<W>)
    requires
        count_accepts(c, e),
    ensures
        count_spec(c, e).1 == count_event_out(c.schema, c.reduce, count_at(c, event_index(e)), e),
        count_spec(c, e).0.schema == c.schema,
        count_spec(c, e).0.reduce == c.reduce,
        forall|l: int| #[trigger] count_at(count_spec(c, e).0, l) == count_step(count_at(c, l), e, l),
{
    let (c1, o1) = count_spec(c, e);
    match e {
        EventView::PushItem(k, v) => {
            if k.len() > 0 {
                let i = k.last() as int;
                assert(next_count(c.slots[i]) == current_count(c.slots[i]) + 1);
                assert(o1 =~= count_event_out(c.schema, c.reduce, count_at(c, event_index(e)), e));
            }
        },
        EventView::KeyCompleted(k) => {
            if k.len() > 0 && c.reduce {
                let i = k.last() as int;
                assert(final_count(c.slots[i]) == current_count(c.slots[i]) as i64);
            }
        },
        _ => {},
    }
}

/// Past the first event, the counts are those after it.
proof fn lemma_items_since_created_shift<W>(c: CountView, evs: Seq<EventView<W>>, j: int, l: int)
    requires
        evs.len() > 0,
        count_accepts(c, evs[0]),
        0 <= j < evs.len(),
    ensures
        items_since_created(c, evs, j + 1, l) == items_since_created(
            count_spec(c, evs[0]).0,
            evs.drop_first(),
            j,
            l,
        ),
    decreases j,
{
    lemma_count_step(c, evs[0]);
    reveal_with_fuel(items_since_created, 2);
    if j > 0 {
        lemma_items_since_created_shift(c, evs, j - 1, l);
        assert(evs.drop_first()[j - 1] == evs[j]);
    } else {
        assert(count_at(count_spec(c, evs[0]).0, l) == count_step(count_at(c, l), evs[0], l));
    }
}

/// Past the first event, what is emitted is what the state after it emits.
proof fn lemma_count_stream_shift<W>(c: CountView, evs: Seq<EventView<W>>, j: int)
    requires
        evs.len() > 0,
        count_accepts(c, evs[0]),
        0 <= j <= evs.len() - 1,
    ensures
        count_stream(c, evs, j + 1) == count_stream(count_spec(c, evs[0]).0, evs.drop_first(), j),
    decreases evs.len() - j,
{
    lemma_count_step(c, evs[0]);
    if j + 1 < evs.len() {
        lemma_count_stream_shift(c, evs, j + 1);
        assert(evs.drop_first()[j] == evs[j + 1]);
        lemma_items_since_created_shift(c, evs, j, event_index(evs[j + 1]));
    }
}

/// `count` on any stream it accepts, with key events and items of any keys interleaved:
/// each item under a key gets, where it does not reduce, the number of that key's items
/// since the key was last created (this one included); where it reduces, a completed
/// key gets that number first; the key's count starts again from 0 when it is created
/// or completed; all else passes. In the end each index holds its count so far.
pub proof fn lemma_count_stream<W>(c: CountView, evs: Seq<EventView<W>>)
    requires
        count_run_accepts(c, evs),
    ensures
        count_run(c, evs).1 == count_stream(c, evs, 0),
        forall|l: int| #[trigger] count_at(count_run(c, evs).0, l) == items_since_created(c, evs, evs.len() as int, l),
    decreases evs.len(),
{
    if evs.len() == 0 {
        assert(count_stream(c, evs, 0) =~= Seq::<EventView<TupleView>>::empty());
    } else {
        let e = evs[0];
        let rest = evs.drop_first();
        let c1 = count_spec(c, e).0;
        lemma_count_step(c, e);
        lemma_count_stream(c1, rest);
        lemma_count_stream_shift(c, evs, 0);
        assert forall|l: int| #[trigger] count_at(count_run(c, evs).0, l) == items_since_created(
            c,
            evs,
            evs.len() as int,
            l,
        ) by {
            lemma_items_since_created_shift(c, evs, evs.len() - 1, l);
        }
    }
}

} // verus!
