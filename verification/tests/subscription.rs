use std::rc::Rc;
use rxsci::chain::{Stage, run_chain, run_stage};
use rxsci::events::{Event, Item};
use rxsci::flextuple::{FlexSchema, FlexTuple};
use rxsci::operators::count::count;
use rxsci::operators::forward::forward;
use rxsci::operators::pop_key::pop_key;
use rxsci::operators::push_key_split::push_key_split;
use rxsci::sources::from_external_source::from_external_source;
use rxsci::state::MemoryStateStore;
use rxsci::{Operator, Pipeline, SourceOp, SourceSubscription, StateStore};

fn tuple(v: i64) -> Rc<FlexTuple> {
    let mut t = FlexTuple::new(Rc::new(FlexSchema::new(String::from("in"))));
    t.add_int64(v);
    Rc::new(t)
}

fn count_schema() -> Rc<FlexSchema> {
    let mut schema = FlexSchema::new(String::from("count"));
    schema.add_int64(String::from("value"));
    Rc::new(schema)
}

fn values(out: &[Event<Rc<FlexTuple>>]) -> Vec<String> {
    out.iter()
        .map(|e| match e {
            Event::PushItem(i) => format!("{:?}:{}", i.key, i.value.get_int64_at(0)),
            Event::Completed => String::from("done"),
            _ => String::from("key event"),
        })
        .collect()
}

fn identity(_index: i32, v: Rc<FlexTuple>) -> Rc<FlexTuple> {
    v
}

fn first_field(_index: i32, v: &Rc<FlexTuple>) -> i64 {
    v.get_int64_at(0)
}

#[test]
fn split_count_pop_pipeline_counts_runs_of_equal_keys() {
    let mut pipeline = Pipeline::new();
    pipeline.add_operator(Box::new(Operator::new(push_key_split(0))));
    pipeline.add_operator(Box::new(Operator::new(count(count_schema(), false))));
    pipeline.add_operator(Box::new(Operator::new(pop_key())));
    pipeline.add_operator(Box::new(Operator::new(pop_key())));
    let store = StateStore::new(Rc::new(MemoryStateStore::new()));
    let source = Box::new(SourceOp::new(from_external_source(7)));
    let stages = pipeline.subscribe(source, &store);
    assert_eq!(stages.len(), 7);
    let (mut sub, out) = SourceSubscription::new(stages, 7, &identity, &first_field).unwrap();
    assert!(out.is_empty());
    let out = sub.on_next(tuple(1), &identity, &first_field).unwrap();
    assert_eq!(values(&out), vec!["[]:1"]);
    let out = sub.on_next(tuple(1), &identity, &first_field).unwrap();
    assert_eq!(values(&out), vec!["[]:2"]);
    let out = sub.on_next(tuple(2), &identity, &first_field).unwrap();
    assert_eq!(values(&out), vec!["[]:1"]);
    let out = sub.on_completed(&identity, &first_field).unwrap();
    assert_eq!(values(&out), vec!["done"]);
}

#[test]
fn reducing_pipeline_emits_totals_when_keys_change() {
    let mut pipeline = Pipeline::new();
    pipeline.add_operator(Box::new(Operator::new(push_key_split(0))));
    pipeline.add_operator(Box::new(Operator::new(count(count_schema(), true))));
    pipeline.add_operator(Box::new(Operator::new(pop_key())));
    pipeline.add_operator(Box::new(Operator::new(pop_key())));
    let store = StateStore::new(Rc::new(MemoryStateStore::new()));
    let stages = pipeline.subscribe(Box::new(SourceOp::new(from_external_source(1))), &store);
    let (mut sub, _) = SourceSubscription::new(stages, 1, &identity, &first_field).unwrap();
    assert!(sub.on_next(tuple(5), &identity, &first_field).unwrap().is_empty());
    assert!(sub.on_next(tuple(5), &identity, &first_field).unwrap().is_empty());
    assert!(sub.on_next(tuple(5), &identity, &first_field).unwrap().is_empty());
    let out = sub.on_next(tuple(6), &identity, &first_field).unwrap();
    assert_eq!(values(&out), vec!["[]:3"]);
    let out = sub.on_completed(&identity, &first_field).unwrap();
    assert_eq!(values(&out), vec!["[]:1", "done"]);
}

#[test]
fn a_subscriber_refuses_what_the_forward_stage_refuses() {
    // without operators the created key reaches `forward`, which refuses it
    let pipeline = Pipeline::new();
    let store = StateStore::new(Rc::new(MemoryStateStore::new()));
    let stages = pipeline.subscribe(Box::new(SourceOp::new(from_external_source(0))), &store);
    assert_eq!(stages.len(), 3);
    assert!(SourceSubscription::new(stages, 0, &identity, &first_field).is_none());
}

#[test]
fn map_stage_applies_the_host_function() {
    let double = |_index: i32, v: Rc<FlexTuple>| -> Rc<FlexTuple> { tuple(v.get_int64_at(0) * 2) };
    let mut stages = vec![Stage::MapValues(4), Stage::Subscriber];
    let events = vec![
        Event::PushItem(Item { key: vec![0], value: tuple(21) }),
        Event::Completed,
    ];
    let out = run_chain(&mut stages, events, &double, &first_field).unwrap();
    assert_eq!(values(&out), vec!["[0]:42", "done"]);
}

#[test]
fn map_stage_refuses_key_events() {
    let mut stages = vec![Stage::MapValues(0)];
    let events = vec![Event::KeyCreated(vec![0])];
    assert!(run_chain(&mut stages, events, &identity, &first_field).is_none());
    let mut stage = Stage::Forward;
    assert!(run_stage(&mut stage, vec![Event::PollItem], &identity, &first_field).is_none());
}

#[test]
fn run_composes_the_operators_after_the_source() {
    let mut pipeline = Pipeline::new();
    pipeline.add_operator(Box::new(Operator::new(rxsci::operators::map::map(1))));
    pipeline.add_operator(Box::new(Operator::new(forward())));
    let composed = pipeline.run(Box::new(SourceOp::new(from_external_source(12))));
    assert_eq!(composed.origin(), 12);
}

#[test]
fn a_chain_handles_a_stream_at_once_as_piece_by_piece() {
    let make = || {
        let mut pipeline = Pipeline::new();
        pipeline.add_operator(Box::new(Operator::new(push_key_split(0))));
        pipeline.add_operator(Box::new(Operator::new(count(count_schema(), false))));
        pipeline.add_operator(Box::new(Operator::new(pop_key())));
        pipeline.add_operator(Box::new(Operator::new(pop_key())));
        let store = StateStore::new(Rc::new(MemoryStateStore::new()));
        pipeline.subscribe(Box::new(SourceOp::new(from_external_source(3))), &store)
    };
    let stream = || {
        vec![
            Event::KeyCreated(vec![0]),
            Event::PushItem(Item { key: vec![0], value: tuple(4) }),
            Event::PushItem(Item { key: vec![0], value: tuple(4) }),
            Event::PushItem(Item { key: vec![0], value: tuple(9) }),
            Event::KeyCompleted(vec![0]),
            Event::Completed,
        ]
    };
    let mut whole = make();
    let at_once = run_chain(&mut whole, stream(), &identity, &first_field).unwrap();
    let mut pieces = make();
    let mut one_by_one: Vec<Event<Rc<FlexTuple>>> = Vec::new();
    for e in stream() {
        one_by_one.extend(run_chain(&mut pieces, vec![e], &identity, &first_field).unwrap());
    }
    assert_eq!(values(&at_once), values(&one_by_one));
    assert_eq!(values(&at_once), vec!["[]:1", "[]:2", "[]:1", "done"]);
}

#[test]
fn a_host_function_may_answer_differently_each_time() {
    let calls = std::cell::Cell::new(0i64);
    let stamp = |_index: i32, _v: Rc<FlexTuple>| -> Rc<FlexTuple> {
        calls.set(calls.get() + 1);
        tuple(calls.get())
    };
    let mut stages = vec![Stage::MapValues(0), Stage::Forward];
    let events = vec![
        Event::PushItem(Item { key: vec![0], value: tuple(9) }),
        Event::PushItem(Item { key: vec![0], value: tuple(9) }),
        Event::Completed,
    ];
    let out = run_chain(&mut stages, events, &stamp, &first_field).unwrap();
    assert_eq!(values(&out), vec!["[0]:1", "[0]:2", "done"]);
}

#[test]
fn forward_stage_passes_items_and_end_unchanged() {
    let mut stages = vec![Stage::Forward];
    let events = vec![
        Event::PushItem(Item { key: vec![2, 1], value: tuple(5) }),
        Event::Completed,
    ];
    let out = run_chain(&mut stages, events, &identity, &first_field).unwrap();
    assert_eq!(values(&out), vec!["[2, 1]:5", "done"]);
}

#[test]
fn two_map_stages_do_what_their_composition_does() {
    let host = |index: i32, v: Rc<FlexTuple>| -> Rc<FlexTuple> {
        let x = v.get_int64_at(0);
        match index {
            0 => tuple(x + 1),
            1 => tuple(x * 10),
            _ => tuple((x + 1) * 10),
        }
    };
    let stream = || {
        vec![
            Event::PushItem(Item { key: vec![0], value: tuple(1) }),
            Event::PushItem(Item { key: vec![1], value: tuple(4) }),
            Event::Completed,
        ]
    };
    let mut two = vec![Stage::MapValues(0), Stage::MapValues(1)];
    let mut one = vec![Stage::MapValues(2)];
    let a = run_chain(&mut two, stream(), &host, &first_field).unwrap();
    let b = run_chain(&mut one, stream(), &host, &first_field).unwrap();
    assert_eq!(values(&a), values(&b));
    assert_eq!(values(&a), vec!["[0]:20", "[1]:50", "done"]);
}
