pub mod chain;
pub mod events;
pub mod flextuple;
pub mod operators;
pub mod sinks;
pub mod sources;
pub mod state;
mod shared;

pub use crate::events::{Event, EventView, Item, Key};
use crate::events::events_view;

use vstd::prelude::*;
use std::rc::Rc;
use crate::chain::{
    HostAnswer,
    Stage,
    StageView,
    Value,
    answer_allowed,
    chain_callable,
    chain_may_refuse,
    chain_outcome,
    chain_run,
    creations_only,
    lemma_chain_keeps_creations,
    lemma_creations_reach_no_host,
    lemma_outcomes_join_all,
    run_chain,
    stage_accepts,
    stage_callable,
    stage_spec,
    stages_inv,
    stages_view,
};
use crate::flextuple::{FlexSchema, FlexTuple, SchemaView, TupleView};
use crate::operators::count::{CountState, CountView};
use crate::operators::map::{map_answers, map_fn_callable};
use crate::operators::push_key_split::{KeySplitState, KeySplitView, key_answers, key_fn_callable};
use crate::state::{MemoryState, MemoryStateRc, MemoryStateStore};

verus! {

/// What an operator of a pipeline is, before it runs.
pub enum OperatorKind {
    /// Maps each item's value with the host's function at the given index.
    MapValues(i32),
    /// Counts the items of each key, emitting tuples of the given schema; the flag
    /// says whether it reduces (one count per completed key).
    Count(Rc<FlexSchema>, bool),
    /// Moves items back out of their innermost key.
    PopKey,
    /// Splits each key by the host's key function at the given index.
    PushKeySplit(i32),
    /// Passes items and the end of the stream on.
    Forward,
}

/// An operator kind as contracts see it.
pub enum OperatorView {
    MapValues(i32),
    Count(SchemaView, bool),
    PopKey,
    PushKeySplit(i32),
    Forward,
}

impl View for OperatorKind {
    type V = OperatorView;

    open spec fn view(&self) -> OperatorView {
        match self {
            OperatorKind::MapValues(i) => OperatorView::MapValues(*i),
            OperatorKind::Count(schema, reduce) => OperatorView::Count(schema@, *reduce),
            OperatorKind::PopKey => OperatorView::PopKey,
            OperatorKind::PushKeySplit(i) => OperatorView::PushKeySplit(*i),
            OperatorKind::Forward => OperatorView::Forward,
        }
    }
}

impl OperatorKind {
    /// A copy of the operator kind.
    pub fn duplicate(&self) -> (r: Self)
        ensures
            r@ == self@,
    {
        match self {
            OperatorKind::MapValues(i) => OperatorKind::MapValues(*i),
            OperatorKind::Count(schema, reduce) => OperatorKind::Count(
                crate::shared::share(schema),
                *reduce,
            ),
            OperatorKind::PopKey => OperatorKind::PopKey,
            OperatorKind::PushKeySplit(i) => OperatorKind::PushKeySplit(*i),
            OperatorKind::Forward => OperatorKind::Forward,
        }
    }
}

/// An operator that a pipeline applies.
pub struct Operator {
    op: OperatorKind,
}

impl View for Operator {
    type V = OperatorView;

    closed spec fn view(&self) -> OperatorView {
        self.op@
    }
}

impl Operator {
    /// The operator of the given kind.
    pub fn new(op: OperatorKind) -> (r: Self)
        ensures
            r@ == op@,
    {
        Operator { op: op }
    }
}

/// A source: an external source (by its host index) with the operators applied to it.
pub struct Source {
    origin: i64,
    ops: Vec<OperatorKind>,
}

/// A source as contracts see it.
pub struct SourceView {
    pub origin: i64,
    pub ops: Seq<OperatorView>,
}

/// The views of a sequence of operator kinds.
pub open spec fn ops_view(ops: Seq<OperatorKind>) -> Seq<OperatorView> {
    ops.map_values(|o: OperatorKind| o@)
}

impl View for Source {
    type V = SourceView;

    closed spec fn view(&self) -> SourceView {
        SourceView { origin: self.origin, ops: ops_view(self.ops@) }
    }
}

impl Source {
    /// The external source with host index `index`, with no operator applied yet.
    pub fn external(index: i64) -> (r: Self)
        ensures
            r@ == (SourceView { origin: index, ops: Seq::empty() }),
    {
        let r = Source { origin: index, ops: Vec::new() };
        assert(r@.ops =~= Seq::<OperatorView>::empty());
        r
    }

    /// The host index of the external source.
    pub fn origin(&self) -> (r: i64)
        ensures
            r == self@.origin,
    {
        self.origin
    }

    /// The source with one more operator applied.
    pub fn apply(self, op: OperatorKind) -> (r: Self)
        ensures
            r@ == (SourceView { origin: self@.origin, ops: self@.ops.push(op@) }),
    {
        let mut s = self;
        s.ops.push(op);
        assert(ops_view(s.ops@) =~= self@.ops.push(op@));
        s
    }
}

/// A source handed to a pipeline.
pub struct SourceOp {
    src: Source,
}

impl View for SourceOp {
    type V = SourceView;

    closed spec fn view(&self) -> SourceView {
        self.src@
    }
}

impl SourceOp {
    /// Wraps a source.
    pub fn new(src: Source) -> (r: Self)
        ensures
            r@ == src@,
    {
        SourceOp { src: src }
    }

    /// The host index of the external source.
    pub fn origin(&self) -> (r: i64)
        ensures
            r == self@.origin,
    {
        self.src.origin()
    }
}

/// A state store shared by the pipelines subscribed with it.
pub struct StateStore {
    store: Rc<MemoryStateStore>,
}

impl StateStore {
    /// The store that the states come from.
    pub closed spec fn store_view(&self) -> MemoryStateStore {
        *self.store
    }

    /// Wraps a store.
    pub fn new(store: Rc<MemoryStateStore>) -> (r: Self)
        ensures
            r.store_view() == *store,
    {
        StateStore { store: store }
    }
}

impl crate::state::StateStore for StateStore {
    fn create_state_i64(&self, name: &str) -> (r: MemoryState<i64>) {
        self.store.create_state_i64(name)
    }

    fn create_state_i32(&self, name: &str) -> (r: MemoryState<i32>) {
        self.store.create_state_i32(name)
    }

    fn create_state_ft(&self, name: &str) -> (r: MemoryStateRc<FlexTuple>) {
        self.store.create_state_ft(name)
    }
}

/// The running stage that an operator becomes when a pipeline is subscribed: stateful
/// operators start with no key.
pub open spec fn stage_of(op: OperatorView) -> StageView {
    match op {
        OperatorView::MapValues(i) => StageView::MapValues(i),
        OperatorView::Count(schema, reduce) => StageView::Count(
            CountView { schema, reduce, slots: Seq::empty() },
        ),
        OperatorView::PopKey => StageView::PopKey,
        OperatorView::PushKeySplit(i) => StageView::PushKeySplit(
            KeySplitView { index: i, slots: Seq::empty() },
        ),
        OperatorView::Forward => StageView::Forward,
    }
}

/// The stages of a subscription to a source with the given operators: the external
/// source's relay, each operator in order, then `forward` and the subscriber.
pub open spec fn subscribed_stages(ops: Seq<OperatorView>) -> Seq<StageView> {
    seq![StageView::Relay] + ops.map_values(|o: OperatorView| stage_of(o)) + seq![
        StageView::Forward,
        StageView::Subscriber,
    ]
}

/// A subscription lays its stages out in a fixed frame: the relay first, then one stage
/// per operator in the operators' order, then `forward` and the subscriber last.
pub proof fn lemma_subscribed_stages_frame(ops: Seq<OperatorView>)
    ensures
        subscribed_stages(ops).len() == ops.len() + 3,
        subscribed_stages(ops)[0] == StageView::Relay,
        forall|p: int| 0 <= p < ops.len() ==> #[trigger] subscribed_stages(ops)[p + 1] == stage_of(ops[p]),
        subscribed_stages(ops)[ops.len() + 1int] == StageView::Forward,
        subscribed_stages(ops).last() == StageView::Subscriber,
{
    let ss = subscribed_stages(ops);
    let mid = ops.map_values(|o: OperatorView| stage_of(o));
    assert forall|p: int| 0 <= p < ops.len() implies #[trigger] ss[p + 1] == stage_of(ops[p]) by {
        assert(ss[p + 1] == mid[p]);
    }
    assert(ss[ops.len() + 1int] == seq![StageView::Forward, StageView::Subscriber][0]);
    assert(ss[ops.len() + 2int] == seq![StageView::Forward, StageView::Subscriber][1]);
}

/// A `map(i)` operator, once subscribed, is a stage that calls the host's map function
/// `i`: it takes every item, emits exactly one item under the same key carrying what the
/// host answered, keeps no state, and the answers it may get are exactly those that
/// function `i` may return on the item's value.
pub proof fn lemma_subscribed_map_calls_its_function<
    M: Fn(i32, Value) -> Value,
    K: Fn(i32, &Value) -> i64,
>(m: M, k: K, ops: Seq<OperatorView>, p: int, i: i32, key: Seq<usize>, v: TupleView, a: HostAnswer)
    requires
        0 <= p < ops.len(),
        ops[p] == OperatorView::MapValues(i),
    ensures
        subscribed_stages(ops)[p + 1] == StageView::MapValues(i),
        stage_accepts(subscribed_stages(ops)[p + 1], EventView::PushItem(key, v)),
        stage_spec(subscribed_stages(ops)[p + 1], EventView::PushItem(key, v), a) == (
            StageView::MapValues(i),
            seq![EventView::PushItem(key, a.mapped)],
        ),
        answer_allowed(m, k, subscribed_stages(ops)[p + 1], EventView::PushItem(key, v), a)
            <==> map_answers::<Value, M>(m, i, v, a.mapped),
        stage_callable(m, k, subscribed_stages(ops)[p + 1]) <==> map_fn_callable::<Value, M>(m, i),
{
    lemma_subscribed_stages_frame(ops);
    assert(subscribed_stages(ops)[p + 1] == stage_of(ops[p]));
}

/// A `push_key_split(i)` operator, once subscribed, is a stage that calls the host's key
/// function `i`: it starts with no key, the split keys it may get for an item are exactly
/// those that function `i` may return on the item's value, and whatever it handles, it
/// keeps calling function `i`.
pub proof fn lemma_subscribed_split_calls_its_function<
    M: Fn(i32, Value) -> Value,
    K: Fn(i32, &Value) -> i64,
>(m: M, k: K, ops: Seq<OperatorView>, p: int, i: i32, key: Seq<usize>, v: TupleView, a: HostAnswer)
    requires
        0 <= p < ops.len(),
        ops[p] == OperatorView::PushKeySplit(i),
    ensures
        subscribed_stages(ops)[p + 1] == StageView::PushKeySplit(KeySplitView { index: i, slots: Seq::empty() }),
        answer_allowed(m, k, subscribed_stages(ops)[p + 1], EventView::PushItem(key, v), a)
            <==> key_answers::<Value, K>(k, i, v, a.split_key),
        stage_callable(m, k, subscribed_stages(ops)[p + 1]) <==> key_fn_callable::<Value, K>(k, i),
{
    lemma_subscribed_stages_frame(ops);
    assert(subscribed_stages(ops)[p + 1] == stage_of(ops[p]));
}

/// A `push_key_split` stage keeps the host index of its key function through every event
/// it handles, whatever the host answers.
pub proof fn lemma_split_keeps_its_function(s: KeySplitView, e: EventView<TupleView>, a: HostAnswer)
    ensures
        stage_spec(StageView::PushKeySplit(s), e, a).0 matches StageView::PushKeySplit(t) && t.index == s.index,
{
}

/// A sequence of operators to apply to sources.
pub struct Pipeline {
    value: u32,
    ops: Vec<Box<Operator>>,
}

impl Pipeline {
    /// The operators, in the order they apply.
    pub closed spec fn ops_view(&self) -> Seq<OperatorView> {
        self.ops@.map_values(|o: Box<Operator>| o@)
    }

    /// The pipeline's tag.
    pub closed spec fn value_view(&self) -> u32 {
        self.value
    }

    /// An empty pipeline (tagged 42).
    pub fn new() -> (r: Self)
        ensures
            r.ops_view() == Seq::<OperatorView>::empty(),
            r.value_view() == 42,
    {
        let r = Pipeline { value: 42, ops: Vec::new() };
        assert(r.ops_view() =~= Seq::<OperatorView>::empty());
        r
    }

    /// Appends an operator.
    pub fn add_operator(&mut self, op: Box<Operator>)
        ensures
            final(self).ops_view() == old(self).ops_view().push(op@),
            final(self).value_view() == old(self).value_view(),
    {
        self.ops.push(op);
        assert(self.ops_view() =~= old(self).ops_view().push(op@));
    }

    /// The source with the pipeline's operators applied after its own.
    fn compose(&self, source: Source) -> (r: Source)
        ensures
            r@ == (SourceView { origin: source@.origin, ops: source@.ops + self.ops_view() }),
    {
        let mut callbag = source;
        let mut i: usize = 0;
        while i < self.ops.len()
            invariant
                i <= self.ops@.len(),
                callbag@ == (SourceView {
                    origin: source@.origin,
                    ops: source@.ops + self.ops_view().take(i as int),
                }),
            decreases self.ops@.len() - i,
        {
            let op = self.ops[i].op.duplicate();
            callbag = callbag.apply(op);
            i = i + 1;
            assert(source@.ops + self.ops_view().take(i as int) =~= (source@.ops + self.ops_view().take(
                i - 1,
            )).push(self.ops@[i - 1]@));
        }
        assert(self.ops_view().take(i as int) =~= self.ops_view());
        callbag
    }

    /// The source with the pipeline's operators applied.
    pub fn run(&self, source: Box<SourceOp>) -> (r: Source)
        ensures
            r@ == (SourceView { origin: source@.origin, ops: source@.ops + self.ops_view() }),
    {
        let source = source.src;
        self.compose(source)
    }

    /// The running stages of a subscription to `source` through the pipeline: the
    /// stateful operators take fresh states from `state`.
    pub fn subscribe<S: crate::state::StateStore>(&self, source: Box<SourceOp>, state: &S) -> (r: Vec<Stage>)
        ensures
            stages_inv(r@),
            stages_view(r@) == subscribed_stages(source@.ops + self.ops_view()),
    {
        let source = source.src;
        let callbag = self.compose(source);
        let ghost ops = callbag@.ops;
        let mut stages: Vec<Stage> = Vec::new();
        stages.push(Stage::Relay);
        let mut i: usize = 0;
        while i < callbag.ops.len()
            invariant
                i <= callbag.ops@.len(),
                ops == callbag@.ops,
                stages_inv(stages@),
                stages_view(stages@) == seq![StageView::Relay] + ops.take(i as int).map_values(
                    |o: OperatorView| stage_of(o),
                ),
            decreases callbag.ops@.len() - i,
        {
            let stage = match &callbag.ops[i] {
                OperatorKind::MapValues(index) => Stage::MapValues(*index),
                OperatorKind::Count(schema, reduce) => {
                    let st = state.create_state_i64("count");
                    Stage::Count(CountState::new(crate::shared::share(schema), *reduce, st))
                },
                OperatorKind::PopKey => Stage::PopKey,
                OperatorKind::PushKeySplit(index) => {
                    let st = state.create_state_i64("push_key_split");
                    Stage::PushKeySplit(KeySplitState::new(*index, st))
                },
                OperatorKind::Forward => Stage::Forward,
            };
            assert(stage@ == stage_of(ops[i as int]));
            let ghost prev = stages_view(stages@);
            let ghost sv = stage@;
            stages.push(stage);
            assert(stages_view(stages@) =~= prev.push(sv));
            i = i + 1;
            assert(ops.take(i as int) =~= ops.take(i - 1).push(ops[i - 1]));
            assert(stages_view(stages@) =~= seq![StageView::Relay] + ops.take(i as int).map_values(
                |o: OperatorView| stage_of(o),
            ));
        }
        stages.push(Stage::Forward);
        stages.push(Stage::Subscriber);
        assert(ops.take(i as int) =~= ops);
        assert(stages_view(stages@) =~= subscribed_stages(ops));
        stages
    }
}

/// What an external source starts a subscription with: the key `[0]` is created.
pub open spec fn opening_events() -> Seq<EventView<TupleView>> {
    seq![EventView::KeyCreated(seq![0usize])]
}

/// What an external source sends for a value `v`: an item under the key `[0]`.
pub open spec fn next_events(v: TupleView) -> Seq<EventView<TupleView>> {
    seq![EventView::PushItem(seq![0usize], v)]
}

/// What an external source sends first when it ends: the key `[0]` completes.
pub open spec fn closing_key_events() -> Seq<EventView<TupleView>> {
    seq![EventView::KeyCompleted(seq![0usize])]
}

/// What an external source sends last when it ends: the end of the stream.
pub open spec fn closing_stream_events() -> Seq<EventView<TupleView>> {
    seq![EventView::Completed]
}

/// All that an external source sends over a subscription with the values `xs`: the key
/// `[0]` is created, each value comes under it in order, the key completes, the stream
/// ends.
pub open spec fn subscription_events(xs: Seq<TupleView>) -> Seq<EventView<TupleView>> {
    opening_events() + xs.map_values(|x: TupleView| EventView::PushItem(seq![0usize], x)) + closing_key_events()
        + closing_stream_events()
}

/// What the calls of a subscription send, call by call: `new`, `on_next` for each value,
/// and the two sends of `on_completed`.
pub open spec fn subscription_pieces(xs: Seq<TupleView>) -> Seq<Seq<EventView<TupleView>>> {
    seq![opening_events()] + xs.map_values(|x: TupleView| next_events(x)) + seq![
        closing_key_events(),
        closing_stream_events(),
    ]
}

/// The values sent one by one, joined, are the values' items in order.
proof fn lemma_next_events_flatten(xs: Seq<TupleView>)
    ensures
        xs.map_values(|x: TupleView| next_events(x)).flatten() == xs.map_values(
            |x: TupleView| EventView::PushItem(seq![0usize], x),
        ),
    decreases xs.len(),
{
    let p = xs.map_values(|x: TupleView| next_events(x));
    if xs.len() > 0 {
        lemma_next_events_flatten(xs.drop_first());
        assert(p.drop_first() =~= xs.drop_first().map_values(|x: TupleView| next_events(x)));
        assert(xs.map_values(|x: TupleView| EventView::PushItem(seq![0usize], x)) =~= seq![
            EventView::PushItem(seq![0usize], xs[0]),
        ] + xs.drop_first().map_values(|x: TupleView| EventView::PushItem(seq![0usize], x)));
    } else {
        assert(p =~= Seq::<Seq<EventView<TupleView>>>::empty());
        assert(xs.map_values(|x: TupleView| EventView::PushItem(seq![0usize], x)) =~= Seq::<
            EventView<TupleView>,
        >::empty());
    }
}

/// A whole subscription is one run: when `new` (from `states[0]`), `on_next` with each of
/// the values `xs` and `on_completed` gave these outcomes in turn (as their contracts
/// state), the stages went from `states[0]` to the last state by one run over all that
/// the source sent, `subscription_events(xs)`, emitting what the calls emitted, in order.
pub proof fn lemma_subscription_run<M: Fn(i32, Value) -> Value, K: Fn(i32, &Value) -> i64>(
    m: M,
    k: K,
    xs: Seq<TupleView>,
    states: Seq<Seq<StageView>>,
    outs: Seq<Seq<EventView<TupleView>>>,
)
    requires
        states.len() == xs.len() + 4,
        outs.len() == xs.len() + 3,
        forall|i: int|
            #![trigger subscription_pieces(xs)[i]]
            0 <= i < xs.len() + 3 ==> chain_outcome(
                m,
                k,
                states[i],
                subscription_pieces(xs)[i],
                states[i + 1],
                outs[i],
            ),
    ensures
        chain_outcome(m, k, states[0], subscription_events(xs), states[xs.len() + 3int], outs.flatten()),
{
    let pieces = subscription_pieces(xs);
    let mid = xs.map_values(|x: TupleView| next_events(x));
    lemma_outcomes_join_all(m, k, pieces, states, outs);
    vstd::seq_lib::lemma_flatten_concat(seq![opening_events()] + mid, seq![closing_key_events(), closing_stream_events()]);
    vstd::seq_lib::lemma_flatten_concat(seq![opening_events()], mid);
    lemma_next_events_flatten(xs);
    reveal_with_fuel(Seq::flatten, 3);
    assert(seq![opening_events()].flatten() =~= opening_events());
    assert(seq![closing_key_events(), closing_stream_events()].drop_first() =~= seq![closing_stream_events()]);
    assert(seq![closing_stream_events()].drop_first() =~= Seq::<Seq<EventView<TupleView>>>::empty());
    assert(seq![closing_key_events(), closing_stream_events()].flatten() =~= closing_key_events()
        + closing_stream_events());
    assert(pieces.flatten() =~= subscription_events(xs));
}

/// Subscribing delivers no item and no end of the stream: whatever the stages, their
/// states and the host's answers, all that comes out of what an external source sends
/// when subscribed creates keys, and a subscriber at the end hands its host nothing.
pub proof fn lemma_opening_delivers_nothing<M: Fn(i32, Value) -> Value, K: Fn(i32, &Value) -> i64>(
    m: M,
    k: K,
    stages: Seq<StageView>,
    stages2: Seq<StageView>,
    out: Seq<EventView<TupleView>>,
)
    requires
        chain_outcome(m, k, stages, opening_events(), stages2, out),
    ensures
        creations_only(out),
        stages.len() > 0 && stages.last() is Subscriber ==> out == Seq::<EventView<TupleView>>::empty(),
{
    let ans = choose|ans: Seq<Seq<HostAnswer>>|
        #![trigger chain_run(stages, opening_events(), ans)]
        crate::chain::chain_fits(stages, opening_events(), ans) && crate::chain::chain_allowed(
            m,
            k,
            stages,
            opening_events(),
            ans,
        ) && crate::chain::chain_accepts(stages, opening_events(), ans) && chain_run(stages, opening_events(), ans)
            == (stages2, out);
    assert(creations_only(opening_events()));
    lemma_chain_keeps_creations(stages, opening_events(), ans);
    if stages.len() > 0 && stages.last() is Subscriber {
        lemma_creations_reach_no_host(stages, opening_events(), ans);
    }
}

/// An external source's subscription to the running stages of a pipeline.
pub struct SourceSubscription {
    sink: Vec<Stage>,
    user_index: i64,
}

impl SourceSubscription {
    /// The running stages, as contracts see them.
    pub closed spec fn stages(&self) -> Seq<StageView> {
        stages_view(self.sink@)
    }

    /// The host index of the external source.
    pub closed spec fn user_index_view(&self) -> i64 {
        self.user_index
    }

    /// The stages are consistent.
    pub closed spec fn inv(&self) -> bool {
        stages_inv(self.sink@)
    }

    /// The key `[0]`.
    fn root_key() -> (r: Key)
        ensures
            r@ == seq![0usize],
    {
        let mut key: Vec<usize> = Vec::new();
        key.push(0);
        assert(key@ =~= seq![0usize]);
        key
    }

    /// Subscribes the external source with host index `user_index` to `sink`: the key
    /// `[0]` is created. Returns the subscription and what reaches the subscriber, or
    /// `None` when a stage refuses what reaches it.
    pub fn new<M: Fn(i32, Value) -> Value, K: Fn(i32, &Value) -> i64>(
        sink: Vec<Stage>,
        user_index: i64,
        m: &M,
        k: &K,
    ) -> (r: Option<(SourceSubscription, Vec<Event<Value>>)>)
        requires
            stages_inv(sink@),
            chain_callable(*m, *k, stages_view(sink@)),
        ensures
            match r {
                Some((sub, out)) => {
                    &&& sub.inv()
                    &&& sub.user_index_view() == user_index
                    &&& chain_callable(*m, *k, sub.stages())
                    &&& chain_outcome(
                        *m,
                        *k,
                        stages_view(sink@),
                        opening_events(),
                        sub.stages(),
                        events_view(out@),
                    )
                    &&& creations_only(events_view(out@))
                    &&& (stages_view(sink@).len() > 0 && stages_view(sink@).last() is Subscriber ==> out@.len() == 0)
                },
                None => chain_may_refuse(*m, *k, stages_view(sink@), opening_events()),
            },
    {
        let mut sink = sink;
        let mut events: Vec<Event<Value>> = Vec::new();
        events.push(Event::KeyCreated(Self::root_key()));
        assert(events_view(events@) =~= opening_events());
        let ghost before = stages_view(sink@);
        match run_chain(&mut sink, events, m, k) {
            Some(out) => {
                proof {
                    lemma_opening_delivers_nothing(*m, *k, before, stages_view(sink@), events_view(out@));
                }
                Some((SourceSubscription { sink: sink, user_index: user_index }, out))
            },
            None => None,
        }
    }

    /// Sends the value `i` under the key `[0]`; returns what reaches the subscriber,
    /// or `None` when a stage refuses what reaches it.
    pub fn on_next<M: Fn(i32, Value) -> Value, K: Fn(i32, &Value) -> i64>(
        &mut self,
        i: Value,
        m: &M,
        k: &K,
    ) -> (r: Option<Vec<Event<Value>>>)
        requires
            old(self).inv(),
            chain_callable(*m, *k, old(self).stages()),
        ensures
            final(self).inv(),
            final(self).user_index_view() == old(self).user_index_view(),
            chain_callable(*m, *k, final(self).stages()),
            match r {
                Some(out) => chain_outcome(
                    *m,
                    *k,
                    old(self).stages(),
                    next_events(i@),
                    final(self).stages(),
                    events_view(out@),
                ),
                None => chain_may_refuse(*m, *k, old(self).stages(), next_events(i@)),
            },
    {
        let mut events: Vec<Event<Value>> = Vec::new();
        events.push(Event::PushItem(Item { key: Self::root_key(), value: i }));
        assert(events_view(events@) =~= next_events(i@));
        run_chain(&mut self.sink, events, m, k)
    }

    /// Ends the source: the key `[0]` completes, then the stream, each sent through the
    /// stages in turn. Returns what reaches the subscriber, or `None` when a stage refuses
    /// what reaches it.
    pub fn on_completed<M: Fn(i32, Value) -> Value, K: Fn(i32, &Value) -> i64>(
        &mut self,
        m: &M,
        k: &K,
    ) -> (r: Option<Vec<Event<Value>>>)
        requires
            old(self).inv(),
            chain_callable(*m, *k, old(self).stages()),
        ensures
            final(self).inv(),
            final(self).user_index_view() == old(self).user_index_view(),
            chain_callable(*m, *k, final(self).stages()),
            match r {
                Some(out) => exists|s1: Seq<StageView>, o1: Seq<EventView<TupleView>>, o2: Seq<EventView<TupleView>>|
                    #![trigger chain_outcome(*m, *k, old(self).stages(), closing_key_events(), s1, o1), chain_outcome(*m, *k, s1, closing_stream_events(), final(self).stages(), o2)]
                    chain_outcome(*m, *k, old(self).stages(), closing_key_events(), s1, o1) && chain_outcome(
                        *m,
                        *k,
                        s1,
                        closing_stream_events(),
                        final(self).stages(),
                        o2,
                    ) && events_view(out@) == o1 + o2,
                None => chain_may_refuse(*m, *k, old(self).stages(), closing_key_events()) || exists|
                    s1: Seq<StageView>,
                    o1: Seq<EventView<TupleView>>,
                |
                    #![trigger chain_outcome(*m, *k, old(self).stages(), closing_key_events(), s1, o1)]
                    chain_outcome(*m, *k, old(self).stages(), closing_key_events(), s1, o1) && chain_may_refuse(
                        *m,
                        *k,
                        s1,
                        closing_stream_events(),
                    ),
            },
    {
        let ghost st0 = self.stages();
        let mut events: Vec<Event<Value>> = Vec::new();
        events.push(Event::KeyCompleted(Self::root_key()));
        assert(events_view(events@) =~= closing_key_events());
        let mut out = match run_chain(&mut self.sink, events, m, k) {
            Some(out) => out,
            None => {
                return None;
            },
        };
        let ghost st1 = self.stages();
        let ghost out1 = out@;
        let mut events2: Vec<Event<Value>> = Vec::new();
        events2.push(Event::Completed);
        assert(events_view(events2@) =~= closing_stream_events());
        match run_chain(&mut self.sink, events2, m, k) {
            Some(out2) => {
                let mut out2 = out2;
                let ghost o2 = out2@;
                out.append(&mut out2);
                assert(events_view(out@) =~= events_view(out1) + events_view(o2));
                assert(chain_outcome(*m, *k, st0, closing_key_events(), st1, events_view(out1)));
                Some(out)
            },
            None => {
                assert(chain_outcome(*m, *k, st0, closing_key_events(), st1, events_view(out1)));
                None
            },
        }
    }
}

/// A schema shared with the host.
pub struct FlexSchemaWrap {
    schema: Rc<FlexSchema>,
}

impl View for FlexSchemaWrap {
    type V = SchemaView;

    closed spec fn view(&self) -> SchemaView {
        self.schema@
    }
}

impl FlexSchemaWrap {
    /// Wraps a schema.
    pub fn new(schema: Rc<FlexSchema>) -> (r: Self)
        ensures
            r@ == schema@,
    {
        FlexSchemaWrap { schema: schema }
    }

    /// Another pointer to the schema.
    pub fn schema(&self) -> (r: Rc<FlexSchema>)
        ensures
            r@ == self@,
    {
        crate::shared::share(&self.schema)
    }
}

/// A tuple shared with the host.
pub struct FlexTupleWrap {
    ft: Rc<FlexTuple>,
}

impl View for FlexTupleWrap {
    type V = TupleView;

    closed spec fn view(&self) -> TupleView {
        self.ft@
    }
}

impl FlexTupleWrap {
    /// Wraps a tuple.
    pub fn new(ft: Rc<FlexTuple>) -> (r: Self)
        ensures
            r@ == ft@,
    {
        FlexTupleWrap { ft: ft }
    }
}

} // verus!
