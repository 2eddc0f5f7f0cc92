use vstd::prelude::*;
use std::rc::Rc;
use crate::events::{Event, EventView, events_view};
use crate::flextuple::{FlexTuple, TupleView};
use crate::operators::count::{CountState, CountView, count_accepts, count_spec, event_index};
use crate::state::Slot;
use crate::operators::forward::{forward_accepts, forward_event, forward_spec};
use crate::operators::map::{map_accepts, map_answers, map_event, map_fn_callable, map_spec};
use crate::operators::pop_key::{
    lemma_pop_key_run_append,
    pop_key_accepts,
    pop_key_event,
    pop_key_run,
    pop_key_spec,
};
use crate::operators::push_key_split::{
    KeySplitState,
    KeySplitView,
    key_answers,
    key_fn_callable,
    lemma_pop_key_undoes_push_key_split,
    plain_event,
    push_key_split_accepts,
    push_key_split_spec,
};
use crate::sources::from_external_source::{relay_accepts, relay_event, relay_spec};

verus! {

/// The values that travel through a pipeline.
pub type Value = Rc<FlexTuple>;

/// One running stage of a subscribed pipeline, with the state it keeps.
pub enum Stage {
    /// The relay behind an external source.
    Relay,
    /// A `map` operator with the host index of its function.
    MapValues(i32),
    /// A `count` operator.
    Count(CountState),
    /// A `pop_key` operator.
    PopKey,
    /// A `push_key_split` operator.
    PushKeySplit(KeySplitState),
    /// A `forward` operator.
    Forward,
    /// The subscriber at the end: it receives items and the end of the stream.
    Subscriber,
}

/// A running stage as contracts see it.
pub enum StageView {
    Relay,
    MapValues(i32),
    Count(CountView),
    PopKey,
    PushKeySplit(KeySplitView),
    Forward,
    Subscriber,
}

impl View for Stage {
    type V = StageView;

    open spec fn view(&self) -> StageView {
        match self {
            Stage::Relay => StageView::Relay,
            Stage::MapValues(i) => StageView::MapValues(*i),
            Stage::Count(c) => StageView::Count(c@),
            Stage::PopKey => StageView::PopKey,
            Stage::PushKeySplit(p) => StageView::PushKeySplit(p@),
            Stage::Forward => StageView::Forward,
            Stage::Subscriber => StageView::Subscriber,
        }
    }
}

/// The subscriber takes items, key events and the end of the stream; it refuses pull
/// requests and forwarded key events.
pub open spec fn subscriber_accepts<W>(e: EventView<W>) -> bool {
    e is PushItem || e is KeyCreated || e is KeyCompleted || e is Completed
}

/// What reaches the subscriber's host: items and the end of the stream; key events
/// stop here.
pub open spec fn subscriber_spec<W>(e: EventView<W>) -> Seq<EventView<W>> {
    match e {
        EventView::PushItem(_, _) => seq![e],
        EventView::Completed => seq![e],
        _ => Seq::empty(),
    }
}

/// What the host answered while a stage handled one event: the value its map function
/// returned and the key its key function returned. Only a `map` stage reads the first
/// and only a `push_key_split` stage the second, and each only for an item.
pub struct HostAnswer {
    pub mapped: TupleView,
    pub split_key: i64,
}

/// An answer for an event on which no host function is called.
pub open spec fn no_answer() -> HostAnswer {
    HostAnswer { mapped: vstd::pervasive::arbitrary(), split_key: 0 }
}

/// The host functions that a stage calls can be called on every value.
pub open spec fn stage_callable<M: Fn(i32, Value) -> Value, K: Fn(i32, &Value) -> i64>(
    m: M,
    k: K,
    s: StageView,
) -> bool {
    match s {
        StageView::MapValues(i) => map_fn_callable::<Value, M>(m, i),
        StageView::PushKeySplit(p) => key_fn_callable::<Value, K>(k, p.index),
        _ => true,
    }
}

/// The host functions that the stages of a chain call can be called on every value.
pub open spec fn chain_callable<M: Fn(i32, Value) -> Value, K: Fn(i32, &Value) -> i64>(
    m: M,
    k: K,
    stages: Seq<StageView>,
) -> bool {
    forall|j: int| 0 <= j < stages.len() ==> #[trigger] stage_callable(m, k, stages[j])
}

/// The host may have given the answer `a` to stage `s` handling `e`: for an item, a
/// `map` stage's function may return `a.mapped` on its value, and a `push_key_split`
/// stage's function may return `a.split_key`.
pub open spec fn answer_allowed<M: Fn(i32, Value) -> Value, K: Fn(i32, &Value) -> i64>(
    m: M,
    k: K,
    s: StageView,
    e: EventView<TupleView>,
    a: HostAnswer,
) -> bool {
    match e {
        EventView::PushItem(_, v) => match s {
            StageView::MapValues(i) => map_answers::<Value, M>(m, i, v, a.mapped),
            StageView::PushKeySplit(p) => key_answers::<Value, K>(k, p.index, v, a.split_key),
            _ => true,
        },
        _ => true,
    }
}

/// Whether a stage handles an event.
pub open spec fn stage_accepts(s: StageView, e: EventView<TupleView>) -> bool {
    match s {
        StageView::Relay => relay_accepts(e),
        StageView::MapValues(_) => map_accepts(e),
        StageView::Count(c) => count_accepts(c, e),
        StageView::PopKey => pop_key_accepts(e),
        StageView::PushKeySplit(p) => push_key_split_accepts(p, e),
        StageView::Forward => forward_accepts(e),
        StageView::Subscriber => subscriber_accepts(e),
    }
}

/// What a stage does with one event, given the host's answer: its new state and what it
/// emits.
pub open spec fn stage_spec(s: StageView, e: EventView<TupleView>, a: HostAnswer) -> (
    StageView,
    Seq<EventView<TupleView>>,
) {
    match s {
        StageView::Relay => (s, relay_spec(e)),
        StageView::MapValues(_) => (s, map_spec(e, a.mapped)),
        StageView::Count(c) => {
            let (c2, o) = count_spec(c, e);
            (StageView::Count(c2), o)
        },
        StageView::PopKey => (s, pop_key_spec(e)),
        StageView::PushKeySplit(p) => {
            let (p2, o) = push_key_split_spec(p, e, a.split_key);
            (StageView::PushKeySplit(p2), o)
        },
        StageView::Forward => (s, forward_spec(e)),
        StageView::Subscriber => (s, subscriber_spec(e)),
    }
}

/// What a stage does with a sequence of events, one after the other, where `ans[i]` is
/// the host's answer for the i-th: its final state and all it emits, in order.
pub open spec fn stage_run(s: StageView, evs: Seq<EventView<TupleView>>, ans: Seq<HostAnswer>) -> (
    StageView,
    Seq<EventView<TupleView>>,
)
    decreases evs.len(),
{
    if evs.len() == 0 {
        (s, Seq::empty())
    } else {
        let (s1, o1) = stage_spec(s, evs[0], ans[0]);
        let (s2, o2) = stage_run(s1, evs.drop_first(), ans.drop_first());
        (s2, o1 + o2)
    }
}

/// Whether a stage handles every event of a sequence, in the states it passes through.
pub open spec fn stage_run_accepts(s: StageView, evs: Seq<EventView<TupleView>>, ans: Seq<HostAnswer>) -> bool
    decreases evs.len(),
{
    evs.len() == 0 || (stage_accepts(s, evs[0]) && stage_run_accepts(
        stage_spec(s, evs[0], ans[0]).0,
        evs.drop_first(),
        ans.drop_first(),
    ))
}

/// The host may have given the answers `ans` to a stage handling `evs`: every event
/// that the stage handles, up to the first it refuses, got an answer it may have given.
pub open spec fn stage_run_allowed<M: Fn(i32, Value) -> Value, K: Fn(i32, &Value) -> i64>(
    m: M,
    k: K,
    s: StageView,
    evs: Seq<EventView<TupleView>>,
    ans: Seq<HostAnswer>,
) -> bool
    decreases evs.len(),
{
    evs.len() == 0 || (stage_accepts(s, evs[0]) ==> (answer_allowed(m, k, s, evs[0], ans[0])
        && stage_run_allowed(m, k, stage_spec(s, evs[0], ans[0]).0, evs.drop_first(), ans.drop_first())))
}

/// What a chain of stages does with a sequence of events, where `ans[j]` are the host's
/// answers to stage `j`: each stage handles all that the one before it emitted. The
/// result is the stages' new states and what the last one emits.
pub open spec fn chain_run(
    stages: Seq<StageView>,
    evs: Seq<EventView<TupleView>>,
    ans: Seq<Seq<HostAnswer>>,
) -> (Seq<StageView>, Seq<EventView<TupleView>>)
    decreases stages.len(),
{
    if stages.len() == 0 {
        (stages, evs)
    } else {
        let (s0, o) = stage_run(stages[0], evs, ans[0]);
        let (rest, out) = chain_run(stages.drop_first(), o, ans.drop_first());
        (seq![s0] + rest, out)
    }
}

/// Whether every stage of a chain handles all that reaches it.
pub open spec fn chain_accepts(
    stages: Seq<StageView>,
    evs: Seq<EventView<TupleView>>,
    ans: Seq<Seq<HostAnswer>>,
) -> bool
    decreases stages.len(),
{
    stages.len() == 0 || (stage_run_accepts(stages[0], evs, ans[0]) && chain_accepts(
        stages.drop_first(),
        stage_run(stages[0], evs, ans[0]).1,
        ans.drop_first(),
    ))
}

/// The host may have given the answers `ans` to a chain handling `evs`: each stage's
/// answers are allowed, up to the first stage that refuses something.
pub open spec fn chain_allowed<M: Fn(i32, Value) -> Value, K: Fn(i32, &Value) -> i64>(
    m: M,
    k: K,
    stages: Seq<StageView>,
    evs: Seq<EventView<TupleView>>,
    ans: Seq<Seq<HostAnswer>>,
) -> bool
    decreases stages.len(),
{
    stages.len() == 0 || (stage_run_allowed(m, k, stages[0], evs, ans[0]) && (stage_run_accepts(
        stages[0],
        evs,
        ans[0],
    ) ==> chain_allowed(m, k, stages.drop_first(), stage_run(stages[0], evs, ans[0]).1, ans.drop_first())))
}

/// The answers fit the chain: one sequence per stage, one answer per event reaching it.
pub open spec fn chain_fits(stages: Seq<StageView>, evs: Seq<EventView<TupleView>>, ans: Seq<Seq<HostAnswer>>) -> bool
    decreases stages.len(),
{
    &&& ans.len() == stages.len()
    &&& (stages.len() == 0 || (ans[0].len() == evs.len() && chain_fits(
        stages.drop_first(),
        stage_run(stages[0], evs, ans[0]).1,
        ans.drop_first(),
    )))
}

/// Answers that fit a chain, where no host answer matters.
pub open spec fn filler_answers(stages: Seq<StageView>, evs: Seq<EventView<TupleView>>) -> Seq<Seq<HostAnswer>>
    decreases stages.len(),
{
    if stages.len() == 0 {
        Seq::empty()
    } else {
        let a0 = Seq::new(evs.len(), |i: int| no_answer());
        seq![a0] + filler_answers(stages.drop_first(), stage_run(stages[0], evs, a0).1)
    }
}

/// The answers of two runs of a chain, joined stage by stage.
pub open spec fn join_answers(x: Seq<Seq<HostAnswer>>, y: Seq<Seq<HostAnswer>>) -> Seq<Seq<HostAnswer>> {
    Seq::new(x.len(), |j: int| x[j] + y[j])
}

/// A run of a chain over `evs` that the host's functions `m` and `k` may have produced:
/// it ends in `stages2`, emits `out`, and every stage handled all that reached it.
pub open spec fn chain_outcome<M: Fn(i32, Value) -> Value, K: Fn(i32, &Value) -> i64>(
    m: M,
    k: K,
    stages: Seq<StageView>,
    evs: Seq<EventView<TupleView>>,
    stages2: Seq<StageView>,
    out: Seq<EventView<TupleView>>,
) -> bool {
    exists|ans: Seq<Seq<HostAnswer>>|
        #![trigger chain_run(stages, evs, ans)]
        chain_fits(stages, evs, ans) && chain_allowed(m, k, stages, evs, ans) && chain_accepts(stages, evs, ans)
            && chain_run(stages, evs, ans) == (stages2, out)
}

/// A chain over `evs` may refuse, given what the host's functions `m` and `k` may answer:
/// some stage refuses what reaches it.
pub open spec fn chain_may_refuse<M: Fn(i32, Value) -> Value, K: Fn(i32, &Value) -> i64>(
    m: M,
    k: K,
    stages: Seq<StageView>,
    evs: Seq<EventView<TupleView>>,
) -> bool {
    exists|ans: Seq<Seq<HostAnswer>>|
        #![trigger chain_allowed(m, k, stages, evs, ans)]
        chain_fits(stages, evs, ans) && chain_allowed(m, k, stages, evs, ans) && !chain_accepts(stages, evs, ans)
}

/// The views of a sequence of stages.
pub open spec fn stages_view(stages: Seq<Stage>) -> Seq<StageView> {
    stages.map_values(|s: Stage| s@)
}

/// Every stage of a sequence is consistent.
pub open spec fn stages_inv(stages: Seq<Stage>) -> bool {
    forall|j: int| 0 <= j < stages.len() ==> #[trigger] stages[j].inv()
}

impl Stage {
    /// The stage's representation is consistent.
    pub open spec fn inv(&self) -> bool {
        match self {
            Stage::Count(c) => c.inv(),
            Stage::PushKeySplit(p) => p.inv(),
            _ => true,
        }
    }

    /// Whether the stage handles `event` in its present state.
    pub fn accepts(&self, event: &Event<Value>) -> (r: bool)
        requires
            self.inv(),
        ensures
            r == stage_accepts(self@, event@),
    {
        match self {
            Stage::Relay => match event {
                Event::PushItem(_) => true,
                Event::KeyCreated(_) => true,
                Event::KeyCompleted(_) => true,
                Event::Completed => true,
                _ => false,
            },
            Stage::MapValues(_) => match event {
                Event::PushItem(_) => true,
                Event::Completed => true,
                _ => false,
            },
            Stage::Count(c) => c.accepts(event),
            Stage::PopKey => match event {
                Event::PollItem => false,
                _ => true,
            },
            Stage::PushKeySplit(p) => p.accepts(event),
            Stage::Forward => match event {
                Event::PushItem(_) => true,
                Event::Completed => true,
                _ => false,
            },
            Stage::Subscriber => match event {
                Event::PushItem(_) => true,
                Event::KeyCreated(_) => true,
                Event::KeyCompleted(_) => true,
                Event::Completed => true,
                _ => false,
            },
        }
    }

    /// Handles one event and returns what the stage emits; `m` and `k` are the host's
    /// map and key functions, called (once) only by a `map` or `push_key_split` stage
    /// for an item.
    pub fn step<M: Fn(i32, Value) -> Value, K: Fn(i32, &Value) -> i64>(
        &mut self,
        event: Event<Value>,
        m: &M,
        k: &K,
    ) -> (out: Vec<Event<Value>>)
        requires
            old(self).inv(),
            stage_accepts(old(self)@, event@),
            stage_callable(*m, *k, old(self)@),
        ensures
            final(self).inv(),
            stage_callable(*m, *k, final(self)@),
            exists|a: HostAnswer|
                answer_allowed(*m, *k, old(self)@, event@, a) && #[trigger] stage_spec(old(self)@, event@, a) == (
                    final(self)@,
                    events_view(out@),
                ),
    {
        let ghost ev = event;
        let ghost s0 = self@;
        match self {
            Stage::Relay => {
                let out = relay_event(event);
                assert(stage_spec(s0, ev@, no_answer()) == (self@, events_view(out@)));
                out
            },
            Stage::MapValues(i) => {
                let index = *i;
                let out = map_event(index, event, m);
                proof {
                    match ev {
                        Event::PushItem(item) => {
                            let r = choose|r: Value|
                                call_ensures(*m, (index, item.value), r) && #[trigger] events_view(out@)
                                    == map_spec(ev@, r@);
                            assert(call_ensures(*m, (index, item.value), r));
                            let a = HostAnswer { mapped: r@, split_key: 0 };
                            assert(answer_allowed(*m, *k, s0, ev@, a));
                            assert(stage_spec(s0, ev@, a) == (self@, events_view(out@)));
                        },
                        _ => {
                            assert(stage_spec(s0, ev@, no_answer()) == (self@, events_view(out@)));
                        },
                    }
                }
                out
            },
            Stage::Count(c) => {
                let out = c.on_event(event);
                assert(stage_spec(s0, ev@, no_answer()) == (self@, events_view(out@)));
                out
            },
            Stage::PopKey => {
                let out = pop_key_event(event);
                assert(stage_spec(s0, ev@, no_answer()) == (self@, events_view(out@)));
                out
            },
            Stage::PushKeySplit(p) => {
                let ghost p0 = p@;
                let out = p.on_event(event, k);
                proof {
                    match ev {
                        Event::PushItem(item) => {
                            let n = choose|n: i64|
                                call_ensures(*k, (p0.index, &item.value), n) && #[trigger] push_key_split_spec(
                                    p0,
                                    ev@,
                                    n,
                                ) == (p@, events_view(out@));
                            assert(call_ensures(*k, (p0.index, &item.value), n));
                            let a = HostAnswer { mapped: vstd::pervasive::arbitrary(), split_key: n };
                            assert(answer_allowed(*m, *k, s0, ev@, a));
                            assert(stage_spec(s0, ev@, a) == (self@, events_view(out@)));
                        },
                        _ => {
                            assert(stage_spec(s0, ev@, no_answer()) == (self@, events_view(out@)));
                        },
                    }
                }
                out
            },
            Stage::Forward => {
                let out = forward_event(event);
                assert(stage_spec(s0, ev@, no_answer()) == (self@, events_view(out@)));
                out
            },
            Stage::Subscriber => {
                let mut out: Vec<Event<Value>> = Vec::new();
                match event {
                    Event::PushItem(item) => {
                        out.push(Event::PushItem(item));
                    },
                    Event::Completed => {
                        out.push(Event::Completed);
                    },
                    _ => {},
                }
                assert(events_view(out@) =~= subscriber_spec(ev@));
                assert(stage_spec(s0, ev@, no_answer()) == (self@, events_view(out@)));
                out
            },
        }
    }
}


/// The views of two joined event sequences are the joined views.
proof fn lemma_events_view_add(a: Seq<Event<Value>>, b: Seq<Event<Value>>)
    ensures
        events_view(a + b) == events_view(a) + events_view(b),
{
    assert(events_view(a + b) =~= events_view(a) + events_view(b));
}

/// A stage that handles two sequences of events one after the other ends where it ends
/// handling them joined, and emits the same: handling a stream in pieces changes
/// nothing. The same holds of whether the stage accepts them and of which host
/// answers it may have been given.
pub proof fn lemma_stage_run_append<M: Fn(i32, Value) -> Value, K: Fn(i32, &Value) -> i64>(
    m: M,
    k: K,
    s: StageView,
    a: Seq<EventView<TupleView>>,
    b: Seq<EventView<TupleView>>,
    aa: Seq<HostAnswer>,
    ab: Seq<HostAnswer>,
)
    requires
        aa.len() == a.len(),
    ensures
        ({
            let (sa, oa) = stage_run(s, a, aa);
            let (sb, ob) = stage_run(sa, b, ab);
            stage_run(s, a + b, aa + ab) == (sb, oa + ob)
        }),
        stage_run_accepts(s, a + b, aa + ab) == (stage_run_accepts(s, a, aa) && stage_run_accepts(
            stage_run(s, a, aa).0,
            b,
            ab,
        )),
        stage_run_allowed(m, k, s, a + b, aa + ab) == (stage_run_allowed(m, k, s, a, aa) && (
        stage_run_accepts(s, a, aa) ==> stage_run_allowed(m, k, stage_run(s, a, aa).0, b, ab))),
    decreases a.len(),
{
    if a.len() == 0 {
        assert(a + b =~= b);
        assert(aa + ab =~= ab);
        let (sb, ob) = stage_run(s, b, ab);
        assert(Seq::<EventView<TupleView>>::empty() + ob =~= ob);
    } else {
        let (s1, o1) = stage_spec(s, a[0], aa[0]);
        assert((a + b)[0] == a[0]);
        assert((aa + ab)[0] == aa[0]);
        assert((a + b).drop_first() =~= a.drop_first() + b);
        assert((aa + ab).drop_first() =~= aa.drop_first() + ab);
        lemma_stage_run_append(m, k, s1, a.drop_first(), b, aa.drop_first(), ab);
        let (sa, oa_rest) = stage_run(s1, a.drop_first(), aa.drop_first());
        let (sb, ob) = stage_run(sa, b, ab);
        assert(o1 + (oa_rest + ob) =~= (o1 + oa_rest) + ob);
    }
}

/// A chain made of two chains one after the other does what the first does, then the
/// second with what the first emitted.
pub proof fn lemma_chain_stages_append<M: Fn(i32, Value) -> Value, K: Fn(i32, &Value) -> i64>(
    m: M,
    k: K,
    p: Seq<StageView>,
    q: Seq<StageView>,
    evs: Seq<EventView<TupleView>>,
    ap: Seq<Seq<HostAnswer>>,
    aq: Seq<Seq<HostAnswer>>,
)
    requires
        ap.len() == p.len(),
    ensures
        ({
            let (sp, op) = chain_run(p, evs, ap);
            let (sq, oq) = chain_run(q, op, aq);
            &&& chain_run(p + q, evs, ap + aq) == (sp + sq, oq)
            &&& chain_accepts(p + q, evs, ap + aq) == (chain_accepts(p, evs, ap) && chain_accepts(q, op, aq))
            &&& chain_allowed(m, k, p + q, evs, ap + aq) == (chain_allowed(m, k, p, evs, ap) && (
            chain_accepts(p, evs, ap) ==> chain_allowed(m, k, q, op, aq)))
            &&& chain_fits(p + q, evs, ap + aq) == (chain_fits(p, evs, ap) && chain_fits(q, op, aq))
        }),
    decreases p.len(),
{
    if p.len() == 0 {
        assert(p + q =~= q);
        assert(ap + aq =~= aq);
        let (sq, oq) = chain_run(q, evs, aq);
        assert(p + sq =~= sq);
    } else {
        assert((p + q)[0] == p[0]);
        assert((ap + aq)[0] == ap[0]);
        assert((p + q).drop_first() =~= p.drop_first() + q);
        assert((ap + aq).drop_first() =~= ap.drop_first() + aq);
        let (s0, o0) = stage_run(p[0], evs, ap[0]);
        lemma_chain_stages_append(m, k, p.drop_first(), q, o0, ap.drop_first(), aq);
        let (sp1, op) = chain_run(p.drop_first(), o0, ap.drop_first());
        let (sq, oq) = chain_run(q, op, aq);
        assert(seq![s0] + (sp1 + sq) =~= (seq![s0] + sp1) + sq);
    }
}

/// The filler answers fit.
pub proof fn lemma_filler_answers_fit(stages: Seq<StageView>, evs: Seq<EventView<TupleView>>)
    ensures
        chain_fits(stages, evs, filler_answers(stages, evs)),
    decreases stages.len(),
{
    if stages.len() > 0 {
        let a0 = Seq::new(evs.len(), |i: int| no_answer());
        let rest = filler_answers(stages.drop_first(), stage_run(stages[0], evs, a0).1);
        lemma_filler_answers_fit(stages.drop_first(), stage_run(stages[0], evs, a0).1);
        assert((seq![a0] + rest).drop_first() =~= rest);
    }
}

/// A chain keeps its number of stages.
pub proof fn lemma_chain_run_len(stages: Seq<StageView>, evs: Seq<EventView<TupleView>>, ans: Seq<Seq<HostAnswer>>)
    ensures
        chain_run(stages, evs, ans).0.len() == stages.len(),
    decreases stages.len(),
{
    if stages.len() > 0 {
        let (s0, o) = stage_run(stages[0], evs, ans[0]);
        lemma_chain_run_len(stages.drop_first(), o, ans.drop_first());
    }
}

/// A chain that accepts two sequences of events handled one after the other ends where
/// it ends handling them joined, and emits the same, when each stage is given its
/// answers of the two runs joined: pushing events through the chain one at a time gives
/// what pushing them all at once gives. The joined run is accepted too, and its answers
/// are allowed exactly when those of the two runs are.
pub proof fn lemma_chain_run_append<M: Fn(i32, Value) -> Value, K: Fn(i32, &Value) -> i64>(
    m: M,
    k: K,
    stages: Seq<StageView>,
    a: Seq<EventView<TupleView>>,
    b: Seq<EventView<TupleView>>,
    aa: Seq<Seq<HostAnswer>>,
    ab: Seq<Seq<HostAnswer>>,
)
    requires
        chain_fits(stages, a, aa),
        chain_fits(chain_run(stages, a, aa).0, b, ab),
        chain_accepts(stages, a, aa),
        chain_accepts(chain_run(stages, a, aa).0, b, ab),
    ensures
        ({
            let (sa, oa) = chain_run(stages, a, aa);
            let (sb, ob) = chain_run(sa, b, ab);
            &&& chain_run(stages, a + b, join_answers(aa, ab)) == (sb, oa + ob)
            &&& chain_accepts(stages, a + b, join_answers(aa, ab))
            &&& chain_fits(stages, a + b, join_answers(aa, ab))
            &&& chain_allowed(m, k, stages, a + b, join_answers(aa, ab)) == (chain_allowed(
                m,
                k,
                stages,
                a,
                aa,
            ) && chain_allowed(m, k, sa, b, ab))
        }),
    decreases stages.len(),
{
    let j = join_answers(aa, ab);
    lemma_chain_run_len(stages, a, aa);
    if stages.len() > 0 {
        lemma_stage_run_append(m, k, stages[0], a, b, aa[0], ab[0]);
        let (s_a, o_a) = stage_run(stages[0], a, aa[0]);
        let (s_ab, o_b) = stage_run(s_a, b, ab[0]);
        let rest = stages.drop_first();
        let (rest_a, out_a) = chain_run(rest, o_a, aa.drop_first());
        let sa = seq![s_a] + rest_a;
        assert(sa[0] == s_a);
        assert(sa.drop_first() =~= rest_a);
        assert(j[0] == aa[0] + ab[0]);
        assert(j.drop_first() =~= join_answers(aa.drop_first(), ab.drop_first()));
        lemma_chain_run_append(m, k, rest, o_a, o_b, aa.drop_first(), ab.drop_first());
        let (rest_b, out_b) = chain_run(rest_a, o_b, ab.drop_first());
        assert(stage_run(stages[0], a + b, j[0]).1 == o_a + o_b);
        assert(seq![s_ab] + rest_b =~= seq![s_ab] + rest_b);
    } else {
        assert(j =~= Seq::<Seq<HostAnswer>>::empty());
        assert(chain_run(stages, a + b, j) == (stages, a + b));
    }
}

/// A `pop_key` stage keeps no state: it handles a sequence as `pop_key_run` says, and
/// accepts it when no pull request is in it.
proof fn lemma_pop_key_stage(evs: Seq<EventView<TupleView>>, ans: Seq<HostAnswer>)
    ensures
        stage_run(StageView::PopKey, evs, ans) == (StageView::PopKey, pop_key_run(evs)),
        stage_run_accepts(StageView::PopKey, evs, ans) == (forall|i: int|
            0 <= i < evs.len() ==> !(#[trigger] evs[i] is PollItem)),
    decreases evs.len(),
{
    if evs.len() > 0 {
        lemma_pop_key_stage(evs.drop_first(), ans.drop_first());
        assert forall|i: int| 0 <= i < evs.drop_first().len() implies evs.drop_first()[i] == evs[i + 1] by {}
        if (forall|i: int| 0 <= i < evs.len() ==> !(#[trigger] evs[i] is PollItem)) {
            assert(!(evs[0] is PollItem));
        }
        if !(evs[0] is PollItem) && (forall|i: int|
            0 <= i < evs.drop_first().len() ==> !(#[trigger] evs.drop_first()[i] is PollItem)) {
            assert forall|i: int| 0 <= i < evs.len() implies !(#[trigger] evs[i] is PollItem) by {
                if i > 0 {
                    assert(evs[i] == evs.drop_first()[i - 1]);
                }
            }
        }
    }
}

/// `pop_key` after `push_key_split` gives back the stream: every plain event that the
/// split handled comes out of `pop_key` as it went in, in order, whatever split keys
/// the host's function gave.
pub proof fn lemma_pop_key_restores_stream(
    p: KeySplitView,
    evs: Seq<EventView<TupleView>>,
    ans: Seq<HostAnswer>,
    ans2: Seq<HostAnswer>,
)
    requires
        stage_run_accepts(StageView::PushKeySplit(p), evs, ans),
        forall|i: int| 0 <= i < evs.len() ==> plain_event(#[trigger] evs[i]),
    ensures
        ({
            let split = stage_run(StageView::PushKeySplit(p), evs, ans).1;
            stage_run_accepts(StageView::PopKey, split, ans2) && stage_run(StageView::PopKey, split, ans2).1
                == evs
        }),
    decreases evs.len(),
{
    let split = stage_run(StageView::PushKeySplit(p), evs, ans).1;
    lemma_pop_key_stage(split, ans2);
    if evs.len() == 0 {
        assert(pop_key_run(split) =~= evs);
    } else {
        let e = evs[0];
        assert(plain_event(e));
        let key = ans[0].split_key;
        let (p1, o1) = push_key_split_spec(p, e, key);
        let rest = evs.drop_first();
        assert forall|i: int| 0 <= i < rest.len() implies plain_event(#[trigger] rest[i]) by {
            assert(rest[i] == evs[i + 1]);
        }
        lemma_pop_key_restores_stream(p1, rest, ans.drop_first(), ans2);
        let rest_split = stage_run(StageView::PushKeySplit(p1), rest, ans.drop_first()).1;
        lemma_pop_key_stage(rest_split, ans2);
        assert(split == o1 + rest_split);
        lemma_pop_key_run_append(o1, rest_split);
        lemma_pop_key_undoes_push_key_split(p, e, key);
        assert(seq![e] + rest =~= evs);
        assert forall|i: int| 0 <= i < split.len() implies !(#[trigger] split[i] is PollItem) by {
            if i < o1.len() {
                assert(split[i] == o1[i]);
            } else {
                assert(split[i] == rest_split[i - o1.len()]);
            }
        }
    }
}

/// Runs one stage over `events`, in order. `None` when the stage refuses one of them;
/// otherwise all it emits. Either way the result is one that the host's answers may
/// have produced.
pub fn run_stage<M: Fn(i32, Value) -> Value, K: Fn(i32, &Value) -> i64>(
    stage: &mut Stage,
    events: Vec<Event<Value>>,
    m: &M,
    k: &K,
) -> (r: Option<Vec<Event<Value>>>)
    requires
        old(stage).inv(),
        stage_callable(*m, *k, old(stage)@),
    ensures
        final(stage).inv(),
        stage_callable(*m, *k, final(stage)@),
        match r {
            Some(out) => exists|ans: Seq<HostAnswer>|
                #![trigger stage_run(old(stage)@, events_view(events@), ans)]
                ans.len() == events_view(events@).len() && stage_run_allowed(
                    *m,
                    *k,
                    old(stage)@,
                    events_view(events@),
                    ans,
                ) && stage_run_accepts(old(stage)@, events_view(events@), ans) && stage_run(
                    old(stage)@,
                    events_view(events@),
                    ans,
                ) == (final(stage)@, events_view(out@)),
            None => exists|ans: Seq<HostAnswer>|
                #![trigger stage_run_allowed(*m, *k, old(stage)@, events_view(events@), ans)]
                ans.len() == events_view(events@).len() && stage_run_allowed(
                    *m,
                    *k,
                    old(stage)@,
                    events_view(events@),
                    ans,
                ) && !stage_run_accepts(old(stage)@, events_view(events@), ans),
        },
{
    let ghost evs0 = events_view(events@);
    let ghost s0 = stage@;
    let ghost mut done: Seq<EventView<TupleView>> = Seq::empty();
    let ghost mut ans: Seq<HostAnswer> = Seq::empty();
    let mut pending = events;
    let mut out: Vec<Event<Value>> = Vec::new();
    assert(done + events_view(pending@) =~= evs0);
    while pending.len() > 0
        invariant
            stage.inv(),
            stage_callable(*m, *k, stage@),
            s0 == old(stage)@,
            evs0 == events_view(events@),
            evs0 == done + events_view(pending@),
            ans.len() == done.len(),
            stage_run_allowed(*m, *k, s0, done, ans),
            stage_run_accepts(s0, done, ans),
            stage_run(s0, done, ans) == (stage@, events_view(out@)),
        decreases pending@.len(),
    {
        let ghost before = pending@;
        let ghost s_before = stage@;
        let event = pending.remove(0);
        assert(events_view(before)[0] == event@);
        assert(events_view(before).drop_first() =~= events_view(pending@));
        assert(events_view(before) =~= seq![event@] + events_view(pending@));
        if !stage.accepts(&event) {
            proof {
                let pad = Seq::new(events_view(before).len(), |i: int| no_answer());
                lemma_stage_run_append(*m, *k, s0, done, events_view(before), ans, pad);
                assert(done + events_view(before) =~= evs0);
                assert(!stage_run_accepts(s_before, events_view(before), pad));
                assert(stage_run_allowed(*m, *k, s_before, events_view(before), pad));
                assert(stage_run_allowed(*m, *k, s0, evs0, ans + pad));
            }
            return None;
        }
        let mut emitted = stage.step(event, m, k);
        let ghost emitted_all = emitted@;
        let ghost out_before = out@;
        out.append(&mut emitted);
        proof {
            let a = choose|a: HostAnswer|
                answer_allowed(*m, *k, s_before, event@, a) && #[trigger] stage_spec(s_before, event@, a) == (
                    stage@,
                    events_view(emitted_all),
                );
            let one = seq![event@];
            lemma_stage_run_append(*m, *k, s0, done, one, ans, seq![a]);
            lemma_stage_run_single(*m, *k, s_before, event@, a);
            lemma_events_view_add(out_before, emitted_all);
            done = done + one;
            ans = ans + seq![a];
            assert(done + events_view(pending@) =~= evs0);
        }
    }
    assert(done =~= evs0);
    Some(out)
}


/// A stage run over one event is a step.
proof fn lemma_stage_run_single<M: Fn(i32, Value) -> Value, K: Fn(i32, &Value) -> i64>(
    m: M,
    k: K,
    s: StageView,
    e: EventView<TupleView>,
    a: HostAnswer,
)
    ensures
        stage_run(s, seq![e], seq![a]) == stage_spec(s, e, a),
        stage_run_accepts(s, seq![e], seq![a]) == stage_accepts(s, e),
        stage_run_allowed(m, k, s, seq![e], seq![a]) == (stage_accepts(s, e) ==> answer_allowed(m, k, s, e, a)),
{
    let one = seq![e];
    let aa = seq![a];
    assert(one[0] == e);
    assert(aa[0] == a);
    assert(one.drop_first() =~= Seq::<EventView<TupleView>>::empty());
    assert(aa.drop_first() =~= Seq::<HostAnswer>::empty());
    let (s1, o1) = stage_spec(s, e, a);
    assert(stage_run(s1, one.drop_first(), aa.drop_first()) == (s1, Seq::<EventView<TupleView>>::empty()));
    assert(stage_run_accepts(s1, one.drop_first(), aa.drop_first()));
    assert(stage_run_allowed(m, k, s1, one.drop_first(), aa.drop_first()));
    assert(o1 + Seq::<EventView<TupleView>>::empty() =~= o1);
}

/// A chain of one stage does what the stage does.
proof fn lemma_chain_single<M: Fn(i32, Value) -> Value, K: Fn(i32, &Value) -> i64>(
    m: M,
    k: K,
    s: StageView,
    evs: Seq<EventView<TupleView>>,
    a: Seq<HostAnswer>,
)
    ensures
        chain_run(seq![s], evs, seq![a]) == (seq![stage_run(s, evs, a).0], stage_run(s, evs, a).1),
        chain_accepts(seq![s], evs, seq![a]) == stage_run_accepts(s, evs, a),
        chain_allowed(m, k, seq![s], evs, seq![a]) == stage_run_allowed(m, k, s, evs, a),
        chain_fits(seq![s], evs, seq![a]) == (a.len() == evs.len()),
{
    let st = seq![s];
    let aa = seq![a];
    assert(st[0] == s);
    assert(aa[0] == a);
    assert(st.drop_first() =~= Seq::<StageView>::empty());
    assert(aa.drop_first() =~= Seq::<Seq<HostAnswer>>::empty());
    let (s1, o1) = stage_run(s, evs, a);
    assert(chain_run(st.drop_first(), o1, aa.drop_first()) == (Seq::<StageView>::empty(), o1));
    assert(chain_accepts(st.drop_first(), o1, aa.drop_first()));
    assert(chain_allowed(m, k, st.drop_first(), o1, aa.drop_first()));
    assert(chain_fits(st.drop_first(), o1, aa.drop_first()));
    assert(seq![s1] + Seq::<StageView>::empty() =~= seq![s1]);
}

/// Runs a chain of stages over `events`: each stage handles, in order, all that the
/// stage before it emitted. `None` when some stage refuses an event that reaches it;
/// otherwise what the last stage emits. Either way the result is one that the host's
/// answers may have produced.
pub fn run_chain<M: Fn(i32, Value) -> Value, K: Fn(i32, &Value) -> i64>(
    stages: &mut Vec<Stage>,
    events: Vec<Event<Value>>,
    m: &M,
    k: &K,
) -> (r: Option<Vec<Event<Value>>>)
    requires
        stages_inv(old(stages)@),
        chain_callable(*m, *k, stages_view(old(stages)@)),
    ensures
        stages_inv(final(stages)@),
        final(stages)@.len() == old(stages)@.len(),
        chain_callable(*m, *k, stages_view(final(stages)@)),
        match r {
            Some(out) => chain_outcome(
                *m,
                *k,
                stages_view(old(stages)@),
                events_view(events@),
                stages_view(final(stages)@),
                events_view(out@),
            ),
            None => chain_may_refuse(*m, *k, stages_view(old(stages)@), events_view(events@)),
        },
{
    let ghost sv0 = stages_view(stages@);
    let ghost evs0 = events_view(events@);
    let ghost mut ans: Seq<Seq<HostAnswer>> = Seq::empty();
    let mut pending = events;
    let n = stages.len();
    let mut i: usize = 0;
    proof {
        assert(sv0.take(0) =~= Seq::<StageView>::empty());
        assert(stages_view(stages@).take(0) =~= Seq::<StageView>::empty());
        assert(stages_view(stages@).skip(0) =~= sv0.skip(0));
    }
    while i < n
        invariant
            i <= n,
            n == stages@.len(),
            n == old(stages)@.len(),
            stages_inv(stages@),
            chain_callable(*m, *k, stages_view(stages@)),
            sv0 == stages_view(old(stages)@),
            evs0 == events_view(events@),
            stages_view(stages@).skip(i as int) == sv0.skip(i as int),
            ans.len() == i,
            chain_fits(sv0.take(i as int), evs0, ans),
            chain_allowed(*m, *k, sv0.take(i as int), evs0, ans),
            chain_accepts(sv0.take(i as int), evs0, ans),
            chain_run(sv0.take(i as int), evs0, ans) == (stages_view(stages@).take(i as int), events_view(
                pending@,
            )),
        decreases n - i,
    {
        let ghost sv_before = stages_view(stages@);
        let ghost pend = events_view(pending@);
        let ghost p = sv0.take(i as int);
        let mut stage = Stage::Forward;
        stages.set_and_swap(i, &mut stage);
        assert(sv_before.skip(i as int)[0] == sv_before[i as int]);
        assert(stage@ == sv0[i as int]);
        assert(stage.inv());
        assert(stage_callable(*m, *k, sv_before[i as int]));
        let result = run_stage(&mut stage, pending, m, k);
        let ghost st_view = stage@;
        assert(sv0.take(i + 1) =~= p + seq![sv0[i as int]]);
        match result {
            None => {
                stages.set_and_swap(i, &mut stage);
                assert(stages_inv(stages@));
                assert(stages_view(stages@) =~= sv_before.update(i as int, st_view));
                proof {
                    let x = choose|x: Seq<HostAnswer>|
                        #![trigger stage_run_allowed(*m, *k, sv0[i as int], pend, x)]
                        x.len() == pend.len() && stage_run_allowed(*m, *k, sv0[i as int], pend, x)
                            && !stage_run_accepts(sv0[i as int], pend, x);
                    assert(x.len() == pend.len());
                    let rest = sv0.skip(i + 1);
                    let out_i = stage_run(sv0[i as int], pend, x).1;
                    let fill = filler_answers(rest, out_i);
                    lemma_filler_answers_fit(rest, out_i);
                    lemma_chain_single(*m, *k, sv0[i as int], pend, x);
                    lemma_chain_stages_append(*m, *k, seq![sv0[i as int]], rest, pend, seq![x], fill);
                    assert(chain_fits(seq![sv0[i as int]], pend, seq![x]));
                    assert(chain_run(seq![sv0[i as int]], pend, seq![x]).1 == out_i);
                    assert(chain_fits(rest, out_i, fill));
                    assert(chain_fits(seq![sv0[i as int]] + rest, pend, seq![x] + fill));
                    assert(chain_run(p, evs0, ans).1 == pend);
                    lemma_chain_stages_append(*m, *k, p, seq![sv0[i as int]] + rest, evs0, ans, seq![x] + fill);
                    assert(p + (seq![sv0[i as int]] + rest) =~= sv0);
                    let w = ans + (seq![x] + fill);
                    assert(chain_fits(p + (seq![sv0[i as int]] + rest), evs0, w));
                    assert(chain_fits(sv0, evs0, w));
                    assert(chain_allowed(*m, *k, sv0, evs0, w));
                    assert(!chain_accepts(sv0, evs0, w));
                }
                return None;
            },
            Some(out) => {
                stages.set_and_swap(i, &mut stage);
                proof {
                    let x = choose|x: Seq<HostAnswer>|
                        #![trigger stage_run(sv0[i as int], pend, x)]
                        x.len() == pend.len() && stage_run_allowed(*m, *k, sv0[i as int], pend, x)
                            && stage_run_accepts(sv0[i as int], pend, x) && stage_run(sv0[i as int], pend, x) == (
                            st_view,
                            events_view(out@),
                        );
                    assert(x.len() == pend.len());
                    lemma_chain_single(*m, *k, sv0[i as int], pend, x);
                    lemma_chain_stages_append(*m, *k, p, seq![sv0[i as int]], evs0, ans, seq![x]);
                    assert(chain_fits(p + seq![sv0[i as int]], evs0, ans + seq![x]));
                    ans = ans + seq![x];
                }
                pending = out;
                assert(stages_inv(stages@));
                let ghost sv_after = stages_view(stages@);
                assert(sv_after =~= sv_before.update(i as int, st_view));
                assert forall|j: int| 0 <= j < sv0.len() - (i + 1) implies #[trigger] sv_after.skip(i + 1)[j]
                    == sv0.skip(i + 1)[j] by {
                    assert(sv_after.skip(i + 1)[j] == sv_before[i + 1 + j]);
                    assert(sv_before.skip(i as int)[1 + j] == sv_before[i + 1 + j]);
                    assert(sv0.skip(i as int)[1 + j] == sv0[i + 1 + j]);
                }
                assert(sv_after.skip(i + 1) =~= sv0.skip(i + 1));
                assert(sv_after.take(i + 1) =~= sv_before.take(i as int) + seq![st_view]);
            },
        }
        i = i + 1;
    }
    assert(sv0.take(n as int) =~= sv0);
    assert(stages_view(stages@).take(n as int) =~= stages_view(stages@));
    Some(pending)
}


/// Two runs of a chain, one after the other, that the host may have produced together
/// make one run over the joined events, ending where the second ends and emitting what
/// both emitted: a subscription's successive calls amount to one run over all they sent.
pub proof fn lemma_outcomes_join<M: Fn(i32, Value) -> Value, K: Fn(i32, &Value) -> i64>(
    m: M,
    k: K,
    s0: Seq<StageView>,
    a: Seq<EventView<TupleView>>,
    s1: Seq<StageView>,
    oa: Seq<EventView<TupleView>>,
    b: Seq<EventView<TupleView>>,
    s2: Seq<StageView>,
    ob: Seq<EventView<TupleView>>,
)
    requires
        chain_outcome(m, k, s0, a, s1, oa),
        chain_outcome(m, k, s1, b, s2, ob),
    ensures
        chain_outcome(m, k, s0, a + b, s2, oa + ob),
{
    let aa = choose|aa: Seq<Seq<HostAnswer>>|
        #![trigger chain_run(s0, a, aa)]
        chain_fits(s0, a, aa) && chain_allowed(m, k, s0, a, aa) && chain_accepts(s0, a, aa) && chain_run(s0, a, aa)
            == (s1, oa);
    let ab = choose|ab: Seq<Seq<HostAnswer>>|
        #![trigger chain_run(s1, b, ab)]
        chain_fits(s1, b, ab) && chain_allowed(m, k, s1, b, ab) && chain_accepts(s1, b, ab) && chain_run(s1, b, ab)
            == (s2, ob);
    lemma_chain_run_append(m, k, s0, a, b, aa, ab);
    let j = join_answers(aa, ab);
    assert(chain_run(s0, a + b, j) == (s2, oa + ob));
}


/// Every event of a sequence is an item or the end of the stream.
pub open spec fn items_or_end(evs: Seq<EventView<TupleView>>) -> bool {
    forall|i: int| 0 <= i < evs.len() ==> (#[trigger] evs[i] is PushItem || evs[i] is Completed)
}

/// What a `map` stage emits for a stream of items and ends, given the host's answers:
/// one event per event, in order; the i-th item keeps its key and carries the i-th
/// answer.
pub open spec fn mapped_stream(evs: Seq<EventView<TupleView>>, ans: Seq<HostAnswer>) -> Seq<EventView<TupleView>> {
    Seq::new(
        evs.len(),
        |i: int|
            match evs[i] {
                EventView::PushItem(k, _) => EventView::PushItem(k, ans[i].mapped),
                _ => EventView::Completed,
            },
    )
}

/// The tail of a sequence that satisfies `items_or_end` does too.
proof fn lemma_items_or_end_rest(evs: Seq<EventView<TupleView>>)
    requires
        evs.len() > 0,
        items_or_end(evs),
    ensures
        items_or_end(evs.drop_first()),
{
    assert forall|i: int| 0 <= i < evs.drop_first().len() implies (#[trigger] evs.drop_first()[i] is PushItem
        || evs.drop_first()[i] is Completed) by {
        assert(evs.drop_first()[i] == evs[i + 1]);
    }
}

/// `forward` is the identity on streams of items and ends: it accepts them and emits
/// them unchanged, in order.
pub proof fn lemma_forward_identity(evs: Seq<EventView<TupleView>>, ans: Seq<HostAnswer>)
    requires
        items_or_end(evs),
    ensures
        stage_run_accepts(StageView::Forward, evs, ans),
        stage_run(StageView::Forward, evs, ans) == (StageView::Forward, evs),
    decreases evs.len(),
{
    if evs.len() > 0 {
        assert(evs[0] is PushItem || evs[0] is Completed);
        lemma_items_or_end_rest(evs);
        lemma_forward_identity(evs.drop_first(), ans.drop_first());
        assert(seq![evs[0]] + evs.drop_first() =~= evs);
    }
}

/// A `map` stage accepts a stream of items and ends and answers it one event per event,
/// in order: each item keeps its key and carries the host's answer for it, which the
/// host's function may have returned on its value; the end passes.
pub proof fn lemma_map_stream<M: Fn(i32, Value) -> Value, K: Fn(i32, &Value) -> i64>(
    m: M,
    k: K,
    index: i32,
    evs: Seq<EventView<TupleView>>,
    ans: Seq<HostAnswer>,
)
    requires
        items_or_end(evs),
        ans.len() == evs.len(),
    ensures
        stage_run_accepts(StageView::MapValues(index), evs, ans),
        stage_run(StageView::MapValues(index), evs, ans) == (StageView::MapValues(index), mapped_stream(evs, ans)),
        stage_run_allowed(m, k, StageView::MapValues(index), evs, ans) == (forall|i: int|
            0 <= i < evs.len() ==> #[trigger] answer_allowed(m, k, StageView::MapValues(index), evs[i], ans[i])),
    decreases evs.len(),
{
    let s = StageView::MapValues(index);
    if evs.len() == 0 {
        assert(mapped_stream(evs, ans) =~= Seq::<EventView<TupleView>>::empty());
    } else {
        assert(evs[0] is PushItem || evs[0] is Completed);
        lemma_items_or_end_rest(evs);
        lemma_map_stream(m, k, index, evs.drop_first(), ans.drop_first());
        assert(mapped_stream(evs, ans) =~= map_spec(evs[0], ans[0].mapped) + mapped_stream(
            evs.drop_first(),
            ans.drop_first(),
        ));
        let rest = evs.drop_first();
        let arest = ans.drop_first();
        if forall|i: int| 0 <= i < evs.len() ==> #[trigger] answer_allowed(m, k, s, evs[i], ans[i]) {
            assert(answer_allowed(m, k, s, evs[0], ans[0]));
            assert forall|i: int| 0 <= i < rest.len() implies #[trigger] answer_allowed(m, k, s, rest[i], arest[i]) by {
                assert(rest[i] == evs[i + 1]);
                assert(arest[i] == ans[i + 1]);
                assert(answer_allowed(m, k, s, evs[i + 1], ans[i + 1]));
            }
        }
        if stage_run_allowed(m, k, s, evs, ans) {
            assert forall|i: int| 0 <= i < evs.len() implies #[trigger] answer_allowed(m, k, s, evs[i], ans[i]) by {
                if i > 0 {
                    assert(rest[i - 1] == evs[i]);
                    assert(arest[i - 1] == ans[i]);
                    assert(answer_allowed(m, k, s, rest[i - 1], arest[i - 1]));
                }
            }
        }
    }
}


/// The items of a sequence of events, in order: each item's key and value.
pub open spec fn items_of(evs: Seq<EventView<TupleView>>) -> Seq<(Seq<usize>, TupleView)>
    decreases evs.len(),
{
    if evs.len() == 0 {
        Seq::empty()
    } else {
        (match evs[0] {
            EventView::PushItem(k, v) => seq![(k, v)],
            _ => Seq::empty(),
        }) + items_of(evs.drop_first())
    }
}

/// The items of joined sequences are the joined items.
pub proof fn lemma_items_of_append(a: Seq<EventView<TupleView>>, b: Seq<EventView<TupleView>>)
    ensures
        items_of(a + b) == items_of(a) + items_of(b),
    decreases a.len(),
{
    if a.len() == 0 {
        assert(a + b =~= b);
        assert(items_of(a) + items_of(b) =~= items_of(b));
    } else {
        assert((a + b)[0] == a[0]);
        assert((a + b).drop_first() =~= a.drop_first() + b);
        lemma_items_of_append(a.drop_first(), b);
        let h = match a[0] {
            EventView::PushItem(k, v) => seq![(k, v)],
            _ => Seq::<(Seq<usize>, TupleView)>::empty(),
        };
        assert(h + (items_of(a.drop_first()) + items_of(b)) =~= (h + items_of(a.drop_first())) + items_of(b));
    }
}

/// Items moved one key level down: index 0 appended to each key.
pub open spec fn nested_items(items: Seq<(Seq<usize>, TupleView)>) -> Seq<(Seq<usize>, TupleView)> {
    items.map_values(|kv: (Seq<usize>, TupleView)| (kv.0.push(0), kv.1))
}

/// `push_key_split` passes every item on once, in order, with its value unchanged and
/// its key extended by the index 0, whatever split keys the host's function gave; what
/// else it emits are key events.
pub proof fn lemma_push_key_split_items(p: KeySplitView, evs: Seq<EventView<TupleView>>, ans: Seq<HostAnswer>)
    requires
        stage_run_accepts(StageView::PushKeySplit(p), evs, ans),
    ensures
        items_of(stage_run(StageView::PushKeySplit(p), evs, ans).1) == nested_items(items_of(evs)),
    decreases evs.len(),
{
    if evs.len() == 0 {
        assert(nested_items(items_of(evs)) =~= Seq::<(Seq<usize>, TupleView)>::empty());
    } else {
        let e = evs[0];
        let (p1, o1) = push_key_split_spec(p, e, ans[0].split_key);
        lemma_push_key_split_items(p1, evs.drop_first(), ans.drop_first());
        let o2 = stage_run(StageView::PushKeySplit(p1), evs.drop_first(), ans.drop_first()).1;
        lemma_items_of_append(o1, o2);
        reveal_with_fuel(items_of, 4);
        let h = match e {
            EventView::PushItem(k, v) => seq![(k, v)],
            _ => Seq::<(Seq<usize>, TupleView)>::empty(),
        };
        assert(items_of(o1) =~= nested_items(h));
        assert(nested_items(items_of(evs)) =~= nested_items(h) + nested_items(items_of(evs.drop_first())));
    }
}


/// The split key slot of index `l` in a `push_key_split` state: cleared outside the table.
pub open spec fn split_slot_at(p: KeySplitView, l: int) -> Slot<i64> {
    if 0 <= l < p.slots.len() {
        p.slots[l]
    } else {
        Slot::Cleared
    }
}

/// How the split key slot of index `l` moves with one event, where `n` is the split key
/// of an item: an item under a key ending in `l` leaves `n`; creating such a key leaves
/// no split key; completing it clears the slot.
pub open spec fn split_step(prev: Slot<i64>, e: EventView<TupleView>, n: i64, l: int) -> Slot<i64> {
    match e {
        EventView::PushItem(k, _) => if k.len() > 0 && k.last() == l { Slot::Value(n) } else { prev },
        EventView::KeyCreated(k) => if k.len() > 0 && k.last() == l { Slot::NotSet } else { prev },
        EventView::KeyCompleted(k) => if k.len() > 0 && k.last() == l { Slot::Cleared } else { prev },
        _ => prev,
    }
}

/// The split key slot of index `l` before the `j`-th event of a stream: the split key
/// of its latest item since its key was last created, no split key if it has had no
/// item since, cleared once its key is completed, or what it held at the start.
pub open spec fn split_before(p: KeySplitView, evs: Seq<EventView<TupleView>>, ans: Seq<HostAnswer>, j: int, l: int) -> Slot<i64>
    decreases j,
{
    if j <= 0 {
        split_slot_at(p, l)
    } else {
        split_step(split_before(p, evs, ans, j - 1, l), evs[j - 1], ans[j - 1].split_key, l)
    }
}

/// What `push_key_split` emits for one event, where `prev` is the split key slot of the
/// event's key and `n` the split key of an item: an item goes on under the nested key,
/// after the nested key is completed and created again exactly when the key held
/// another split key; a created or completed key creates or completes the nested key
/// and is forwarded; all else passes.
pub open spec fn split_event_out(prev: Slot<i64>, e: EventView<TupleView>, n: i64) -> Seq<EventView<TupleView>> {
    match e {
        EventView::PushItem(key, v) => {
            let split = key.push(0);
            match prev {
                Slot::Value(x) => if x != n {
                    seq![EventView::KeyCompleted(split), EventView::KeyCreated(split), EventView::PushItem(split, v)]
                } else {
                    seq![EventView::PushItem(split, v)]
                },
                _ => seq![EventView::PushItem(split, v)],
            }
        },
        EventView::KeyCreated(k) => if k.len() > 0 {
            seq![EventView::KeyCreated(k.push(0)), EventView::ForwardKeyCreated(k)]
        } else {
            Seq::empty()
        },
        EventView::KeyCompleted(k) => if k.len() > 0 {
            seq![EventView::KeyCompleted(k.push(0)), EventView::ForwardKeyCompleted(k)]
        } else {
            Seq::empty()
        },
        EventView::ForwardKeyCreated(k) => seq![EventView::ForwardKeyCreated(k)],
        EventView::ForwardKeyCompleted(k) => seq![EventView::ForwardKeyCompleted(k)],
        EventView::Completed => seq![EventView::Completed],
        EventView::PollItem => Seq::empty(),
    }
}

/// What `push_key_split` emits for a stream from its `j`-th event on.
pub open spec fn split_stream(p: KeySplitView, evs: Seq<EventView<TupleView>>, ans: Seq<HostAnswer>, j: int) -> Seq<
    EventView<TupleView>,
>
    decreases evs.len() - j,
{
    if j < 0 || j >= evs.len() {
        Seq::empty()
    } else {
        split_event_out(split_before(p, evs, ans, j, event_index(evs[j])), evs[j], ans[j].split_key)
            + split_stream(p, evs, ans, j + 1)
    }
}

/// One step of `push_key_split` in terms of split key slots.
proof fn lemma_split_step(p: KeySplitView, e: EventView<TupleView>, n: i64)
    requires
        push_key_split_accepts(p, e),
    ensures
        push_key_split_spec(p, e, n).1 == split_event_out(split_slot_at(p, event_index(e)), e, n),
        push_key_split_spec(p, e, n).0.index == p.index,
        forall|l: int| #[trigger] split_slot_at(push_key_split_spec(p, e, n).0, l) == split_step(
            split_slot_at(p, l),
            e,
            n,
            l,
        ),
{
    let (p1, o1) = push_key_split_spec(p, e, n);
    match e {
        EventView::PushItem(k, v) => {
            let i = k.last() as int;
            if p.slots[i] == Slot::Value(n) {
                assert(p.slots.update(i, Slot::Value(n)) =~= p.slots);
            }
            assert forall|l: int| #[trigger] split_slot_at(p1, l) == split_step(split_slot_at(p, l), e, n, l) by {
                if p.slots[i] == Slot::Value(n) {
                    assert(p1.slots == p.slots.update(i, Slot::Value(n)));
                }
            }
        },
        _ => {},
    }
}

/// Past the first event, the split key slots are those after it.
proof fn lemma_split_before_shift(p: KeySplitView, evs: Seq<EventView<TupleView>>, ans: Seq<HostAnswer>, j: int, l: int)
    requires
        evs.len() > 0,
        ans.len() == evs.len(),
        push_key_split_accepts(p, evs[0]),
        0 <= j < evs.len(),
    ensures
        split_before(p, evs, ans, j + 1, l) == split_before(
            push_key_split_spec(p, evs[0], ans[0].split_key).0,
            evs.drop_first(),
            ans.drop_first(),
            j,
            l,
        ),
    decreases j,
{
    lemma_split_step(p, evs[0], ans[0].split_key);
    reveal_with_fuel(split_before, 2);
    if j > 0 {
        lemma_split_before_shift(p, evs, ans, j - 1, l);
        assert(evs.drop_first()[j - 1] == evs[j]);
        assert(ans.drop_first()[j - 1] == ans[j]);
    }
}

/// Past the first event, what is emitted is what the state after it emits.
proof fn lemma_split_stream_shift(p: KeySplitView, evs: Seq<EventView<TupleView>>, ans: Seq<HostAnswer>, j: int)
    requires
        evs.len() > 0,
        ans.len() == evs.len(),
        push_key_split_accepts(p, evs[0]),
        0 <= j <= evs.len() - 1,
    ensures
        split_stream(p, evs, ans, j + 1) == split_stream(
            push_key_split_spec(p, evs[0], ans[0].split_key).0,
            evs.drop_first(),
            ans.drop_first(),
            j,
        ),
    decreases evs.len() - j,
{
    if j + 1 < evs.len() {
        lemma_split_stream_shift(p, evs, ans, j + 1);
        assert(evs.drop_first()[j] == evs[j + 1]);
        assert(ans.drop_first()[j] == ans[j + 1]);
        lemma_split_before_shift(p, evs, ans, j, event_index(evs[j + 1]));
    }
}

/// `push_key_split` on any stream it accepts, with key events and items of any keys
/// interleaved, whatever split keys the host's function gave: before each item it
/// completes and creates the nested key again exactly when the item's split key differs
/// from that of the latest earlier item of the same key since the key was created (never
/// for the first such item); each item goes on under the nested key with its value; a
/// created or completed key creates or completes the nested key and is forwarded. In the
/// end each index holds the split key of its latest item since its key was created.
pub proof fn lemma_push_key_split_stream(p: KeySplitView, evs: Seq<EventView<TupleView>>, ans: Seq<HostAnswer>)
    requires
        stage_run_accepts(StageView::PushKeySplit(p), evs, ans),
        ans.len() == evs.len(),
    ensures
        stage_run(StageView::PushKeySplit(p), evs, ans).1 == split_stream(p, evs, ans, 0),
        stage_run(StageView::PushKeySplit(p), evs, ans).0 matches StageView::PushKeySplit(q) && forall|l: int|
            #[trigger] split_slot_at(q, l) == split_before(p, evs, ans, evs.len() as int, l),
    decreases evs.len(),
{
    if evs.len() == 0 {
        assert(split_stream(p, evs, ans, 0) =~= Seq::<EventView<TupleView>>::empty());
    } else {
        let e = evs[0];
        let n = ans[0].split_key;
        let p1 = push_key_split_spec(p, e, n).0;
        lemma_split_step(p, e, n);
        lemma_push_key_split_stream(p1, evs.drop_first(), ans.drop_first());
        lemma_split_stream_shift(p, evs, ans, 0);
        let q = stage_run(StageView::PushKeySplit(p1), evs.drop_first(), ans.drop_first()).0->PushKeySplit_0;
        assert forall|l: int| #[trigger] split_slot_at(q, l) == split_before(p, evs, ans, evs.len() as int, l) by {
            lemma_split_before_shift(p, evs, ans, evs.len() - 1, l);
        }
    }
}


/// Runs of a chain one after the other, each one that the host may have produced, make
/// one run over all their events joined, ending where the last ends and emitting what
/// they all emitted, in order.
pub proof fn lemma_outcomes_join_all<M: Fn(i32, Value) -> Value, K: Fn(i32, &Value) -> i64>(
    m: M,
    k: K,
    pieces: Seq<Seq<EventView<TupleView>>>,
    states: Seq<Seq<StageView>>,
    outs: Seq<Seq<EventView<TupleView>>>,
)
    requires
        pieces.len() > 0,
        states.len() == pieces.len() + 1,
        outs.len() == pieces.len(),
        forall|i: int|
            #![trigger pieces[i]]
            0 <= i < pieces.len() ==> chain_outcome(m, k, states[i], pieces[i], states[i + 1], outs[i]),
    ensures
        chain_outcome(m, k, states[0], pieces.flatten(), states[pieces.len() as int], outs.flatten()),
    decreases pieces.len(),
{
    assert(chain_outcome(m, k, states[0], pieces[0], states[1], outs[0]));
    if pieces.len() == 1 {
        assert(pieces.drop_first() =~= Seq::<Seq<EventView<TupleView>>>::empty());
        assert(outs.drop_first() =~= Seq::<Seq<EventView<TupleView>>>::empty());
        assert(pieces.drop_first().flatten() =~= Seq::<EventView<TupleView>>::empty());
        assert(outs.drop_first().flatten() =~= Seq::<EventView<TupleView>>::empty());
        assert(pieces.flatten() =~= pieces[0]);
        assert(outs.flatten() =~= outs[0]);
    } else {
        let ps = pieces.drop_first();
        let ss = states.drop_first();
        let os = outs.drop_first();
        assert forall|i: int| #![trigger ps[i]] 0 <= i < ps.len() implies chain_outcome(m, k, ss[i], ps[i], ss[i + 1], os[i]) by {
            assert(ps[i] == pieces[i + 1]);
            assert(chain_outcome(m, k, states[i + 1], pieces[i + 1], states[i + 2], outs[i + 1]));
        }
        lemma_outcomes_join_all(m, k, ps, ss, os);
        lemma_outcomes_join(m, k, states[0], pieces[0], states[1], outs[0], ps.flatten(), ss[ps.len() as int], os.flatten());
    }
}


/// The host's map function at `h` does what the one at `i` followed by the one at `j`
/// does: it may answer `w` on a value exactly when `i` may answer some `u` on it and `j`
/// may answer `w` on `u`.
pub open spec fn map_composes<M: Fn(i32, Value) -> Value>(m: M, i: i32, j: i32, h: i32) -> bool {
    forall|v: TupleView, w: TupleView|
        #[trigger] map_answers::<Value, M>(m, h, v, w) <==> exists|u: TupleView|
            map_answers::<Value, M>(m, i, v, u) && #[trigger] map_answers::<Value, M>(m, j, u, w)
}

/// A `map` stage's output on a stream of items and ends is such a stream too, event for
/// event, and mapping it again keeps the keys and takes the new answers.
proof fn lemma_mapped_stream_again(evs: Seq<EventView<TupleView>>, a1: Seq<HostAnswer>, a2: Seq<HostAnswer>)
    requires
        items_or_end(evs),
    ensures
        items_or_end(mapped_stream(evs, a1)),
        mapped_stream(evs, a1).len() == evs.len(),
        mapped_stream(mapped_stream(evs, a1), a2) == mapped_stream(evs, a2),
{
    let mid = mapped_stream(evs, a1);
    assert forall|x: int| 0 <= x < mid.len() implies (#[trigger] mid[x] is PushItem || mid[x] is Completed) by {
        assert(evs[x] is PushItem || evs[x] is Completed);
    }
    assert forall|x: int| 0 <= x < evs.len() implies #[trigger] mapped_stream(mid, a2)[x] == mapped_stream(evs, a2)[x] by {
        assert(evs[x] is PushItem || evs[x] is Completed);
    }
    assert(mapped_stream(mid, a2) =~= mapped_stream(evs, a2));
}

/// Two `map` stages in a row do what one does, when the host's function at `h` is the
/// composition of those at `i` and `j`: on a stream of items and ends, the outcomes the
/// host may produce through the two are exactly those it may produce through the one.
pub proof fn lemma_map_map<M: Fn(i32, Value) -> Value, K: Fn(i32, &Value) -> i64>(
    m: M,
    k: K,
    i: i32,
    j: i32,
    h: i32,
    evs: Seq<EventView<TupleView>>,
    out: Seq<EventView<TupleView>>,
)
    requires
        map_composes(m, i, j, h),
        items_or_end(evs),
    ensures
        chain_outcome(
            m,
            k,
            seq![StageView::MapValues(i), StageView::MapValues(j)],
            evs,
            seq![StageView::MapValues(i), StageView::MapValues(j)],
            out,
        ) <==> chain_outcome(m, k, seq![StageView::MapValues(h)], evs, seq![StageView::MapValues(h)], out),
{
    let two = seq![StageView::MapValues(i), StageView::MapValues(j)];
    let one = seq![StageView::MapValues(h)];
    let si = StageView::MapValues(i);
    let sj = StageView::MapValues(j);
    let sh = StageView::MapValues(h);
    assert(two =~= seq![si] + seq![sj]);
    if chain_outcome(m, k, two, evs, two, out) {
        let ans = choose|ans: Seq<Seq<HostAnswer>>|
            #![trigger chain_run(two, evs, ans)]
            chain_fits(two, evs, ans) && chain_allowed(m, k, two, evs, ans) && chain_accepts(two, evs, ans) && chain_run(
                two,
                evs,
                ans,
            ) == (two, out);
        let a1 = ans[0];
        let a2 = ans[1];
        assert(ans =~= seq![a1] + seq![a2]);
        lemma_chain_stages_append(m, k, seq![si], seq![sj], evs, seq![a1], seq![a2]);
        lemma_chain_single(m, k, si, evs, a1);
        lemma_map_stream(m, k, i, evs, a1);
        let mid = mapped_stream(evs, a1);
        lemma_mapped_stream_again(evs, a1, a2);
        lemma_chain_single(m, k, sj, mid, a2);
        lemma_map_stream(m, k, j, mid, a2);
        let b = Seq::new(evs.len(), |x: int| HostAnswer { mapped: a2[x].mapped, split_key: 0 });
        assert(mapped_stream(evs, b) =~= mapped_stream(evs, a2));
        lemma_map_stream(m, k, h, evs, b);
        assert forall|x: int| 0 <= x < evs.len() implies #[trigger] answer_allowed(m, k, sh, evs[x], b[x]) by {
            assert(answer_allowed(m, k, si, evs[x], a1[x]));
            assert(answer_allowed(m, k, sj, mid[x], a2[x]));
            match evs[x] {
                EventView::PushItem(key, v) => {
                    assert(mid[x] == EventView::PushItem(key, a1[x].mapped));
                    assert(map_answers::<Value, M>(m, i, v, a1[x].mapped));
                    assert(map_answers::<Value, M>(m, j, a1[x].mapped, a2[x].mapped));
                    assert(map_answers::<Value, M>(m, h, v, a2[x].mapped));
                },
                _ => {},
            }
        }
        lemma_chain_single(m, k, sh, evs, b);
        assert(chain_run(one, evs, seq![b]) == (one, out));
    }
    if chain_outcome(m, k, one, evs, one, out) {
        let ans = choose|ans: Seq<Seq<HostAnswer>>|
            #![trigger chain_run(one, evs, ans)]
            chain_fits(one, evs, ans) && chain_allowed(m, k, one, evs, ans) && chain_accepts(one, evs, ans) && chain_run(
                one,
                evs,
                ans,
            ) == (one, out);
        let b = ans[0];
        assert(ans =~= seq![b]);
        lemma_chain_single(m, k, sh, evs, b);
        lemma_map_stream(m, k, h, evs, b);
        let a1 = Seq::new(
            evs.len(),
            |x: int|
                match evs[x] {
                    EventView::PushItem(_, v) => HostAnswer {
                        mapped: choose|u: TupleView|
                            map_answers::<Value, M>(m, i, v, u) && #[trigger] map_answers::<Value, M>(
                                m,
                                j,
                                u,
                                b[x].mapped,
                            ),
                        split_key: 0,
                    },
                    _ => no_answer(),
                },
        );
        let a2 = b;
        lemma_map_stream(m, k, i, evs, a1);
        let mid = mapped_stream(evs, a1);
        lemma_mapped_stream_again(evs, a1, a2);
        lemma_map_stream(m, k, j, mid, a2);
        assert forall|x: int| 0 <= x < evs.len() implies #[trigger] answer_allowed(m, k, si, evs[x], a1[x]) && answer_allowed(
            m,
            k,
            sj,
            mid[x],
            a2[x],
        ) by {
            assert(answer_allowed(m, k, sh, evs[x], b[x]));
            match evs[x] {
                EventView::PushItem(key, v) => {
                    assert(map_answers::<Value, M>(m, h, v, b[x].mapped));
                    let u = a1[x].mapped;
                    assert(map_answers::<Value, M>(m, i, v, u) && map_answers::<Value, M>(m, j, u, b[x].mapped));
                    assert(mid[x] == EventView::PushItem(key, u));
                },
                _ => {},
            }
        }
        assert forall|x: int| 0 <= x < evs.len() implies #[trigger] answer_allowed(m, k, si, evs[x], a1[x]) by {}
        assert forall|x: int| 0 <= x < mid.len() implies #[trigger] answer_allowed(m, k, sj, mid[x], a2[x]) by {
            assert(answer_allowed(m, k, si, evs[x], a1[x]) && answer_allowed(m, k, sj, mid[x], a2[x]));
        }
        lemma_chain_single(m, k, si, evs, a1);
        lemma_chain_single(m, k, sj, mid, a2);
        lemma_chain_stages_append(m, k, seq![si], seq![sj], evs, seq![a1], seq![a2]);
        let w = seq![a1] + seq![a2];
        assert(seq![si] + seq![sj] =~= two);
        assert(chain_run(two, evs, w) == (two, out));
    }
}


/// Every event of a sequence creates a key (plainly or forwarded).
pub open spec fn creations_only(evs: Seq<EventView<TupleView>>) -> bool {
    forall|i: int| 0 <= i < evs.len() ==> (#[trigger] evs[i] is KeyCreated || evs[i] is ForwardKeyCreated)
}

/// No stage turns the creation of a key into anything but creations of keys, whatever
/// its state and whatever the host answers: no item and no end of the stream comes of it.
pub proof fn lemma_stage_keeps_creations(s: StageView, e: EventView<TupleView>, a: HostAnswer)
    requires
        e is KeyCreated || e is ForwardKeyCreated,
    ensures
        creations_only(stage_spec(s, e, a).1),
{
    let o = stage_spec(s, e, a).1;
    assert forall|i: int| 0 <= i < o.len() implies (#[trigger] o[i] is KeyCreated || o[i] is ForwardKeyCreated) by {}
}

/// Joined sequences of creations are creations.
proof fn lemma_creations_add(a: Seq<EventView<TupleView>>, b: Seq<EventView<TupleView>>)
    requires
        creations_only(a),
        creations_only(b),
    ensures
        creations_only(a + b),
{
    assert forall|i: int| 0 <= i < (a + b).len() implies (#[trigger] (a + b)[i] is KeyCreated || (a
        + b)[i] is ForwardKeyCreated) by {
        if i < a.len() {
            assert((a + b)[i] == a[i]);
        } else {
            assert((a + b)[i] == b[i - a.len()]);
        }
    }
}

/// A stage that handles only creations of keys emits only creations of keys.
pub proof fn lemma_stage_run_keeps_creations(s: StageView, evs: Seq<EventView<TupleView>>, ans: Seq<HostAnswer>)
    requires
        creations_only(evs),
    ensures
        creations_only(stage_run(s, evs, ans).1),
    decreases evs.len(),
{
    if evs.len() > 0 {
        assert(evs[0] is KeyCreated || evs[0] is ForwardKeyCreated);
        lemma_stage_keeps_creations(s, evs[0], ans[0]);
        let rest = evs.drop_first();
        assert forall|i: int| 0 <= i < rest.len() implies (#[trigger] rest[i] is KeyCreated || rest[i] is ForwardKeyCreated) by {
            assert(rest[i] == evs[i + 1]);
        }
        let s1 = stage_spec(s, evs[0], ans[0]).0;
        lemma_stage_run_keeps_creations(s1, rest, ans.drop_first());
        lemma_creations_add(stage_spec(s, evs[0], ans[0]).1, stage_run(s1, rest, ans.drop_first()).1);
    } else {
        assert(creations_only(stage_run(s, evs, ans).1));
    }
}

/// A chain that is sent only creations of keys emits only creations of keys, whatever
/// its stages, their states and the host's answers: it delivers no item and no end.
pub proof fn lemma_chain_keeps_creations(stages: Seq<StageView>, evs: Seq<EventView<TupleView>>, ans: Seq<Seq<HostAnswer>>)
    requires
        creations_only(evs),
    ensures
        creations_only(chain_run(stages, evs, ans).1),
    decreases stages.len(),
{
    if stages.len() > 0 {
        lemma_stage_run_keeps_creations(stages[0], evs, ans[0]);
        lemma_chain_keeps_creations(stages.drop_first(), stage_run(stages[0], evs, ans[0]).1, ans.drop_first());
    }
}


/// The subscriber hands its host nothing of a sequence of key creations.
proof fn lemma_subscriber_run_creations(evs: Seq<EventView<TupleView>>, ans: Seq<HostAnswer>)
    requires
        creations_only(evs),
    ensures
        stage_run(StageView::Subscriber, evs, ans) == (StageView::Subscriber, Seq::<EventView<TupleView>>::empty()),
    decreases evs.len(),
{
    if evs.len() > 0 {
        assert(evs[0] is KeyCreated || evs[0] is ForwardKeyCreated);
        let rest = evs.drop_first();
        assert forall|i: int| 0 <= i < rest.len() implies (#[trigger] rest[i] is KeyCreated || rest[i] is ForwardKeyCreated) by {
            assert(rest[i] == evs[i + 1]);
        }
        lemma_subscriber_run_creations(rest, ans.drop_first());
        assert(stage_spec(StageView::Subscriber, evs[0], ans[0]).1 =~= Seq::<EventView<TupleView>>::empty());
        assert(Seq::<EventView<TupleView>>::empty() + Seq::<EventView<TupleView>>::empty() =~= Seq::<
            EventView<TupleView>,
        >::empty());
    }
}

/// A chain that ends in the subscriber and is sent only creations of keys hands the
/// subscriber's host nothing, whatever the other stages, their states and the host's
/// answers.
pub proof fn lemma_creations_reach_no_host(stages: Seq<StageView>, evs: Seq<EventView<TupleView>>, ans: Seq<Seq<HostAnswer>>)
    requires
        stages.len() > 0,
        stages.last() is Subscriber,
        creations_only(evs),
    ensures
        chain_run(stages, evs, ans).1 == Seq::<EventView<TupleView>>::empty(),
    decreases stages.len(),
{
    lemma_stage_run_keeps_creations(stages[0], evs, ans[0]);
    let o = stage_run(stages[0], evs, ans[0]).1;
    if stages.len() == 1 {
        assert(stages[0] == stages.last());
        lemma_subscriber_run_creations(evs, ans[0]);
        assert(stages.drop_first().len() == 0);
        assert(chain_run(stages.drop_first(), o, ans.drop_first()).1 == o);
    } else {
        assert(stages.drop_first().last() == stages.last());
        lemma_creations_reach_no_host(stages.drop_first(), o, ans.drop_first());
    }
}

} // verus!
