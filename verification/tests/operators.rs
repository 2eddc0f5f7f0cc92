use std::rc::Rc;
use rxsci::events::{Event, Item};
use rxsci::flextuple::{FlexSchema, FlexTuple};
use rxsci::operators::count::CountState;
use rxsci::operators::forward::forward_event;
use rxsci::operators::pop_key::pop_key_event;
use rxsci::operators::push_key_split::KeySplitState;
use rxsci::sinks::for_each::{for_each, for_each_event};
use rxsci::sources::from_external_source::relay_event;
use rxsci::sources::from_iterable::from_iterable;
use rxsci::state::{MemoryState, State};

fn item<V>(key: Vec<usize>, value: V) -> Event<V> {
    Event::PushItem(Item { key, value })
}

fn describe(e: &Event<Rc<FlexTuple>>) -> String {
    match e {
        Event::KeyCreated(k) => format!("created {:?}", k),
        Event::KeyCompleted(k) => format!("completed {:?}", k),
        Event::ForwardKeyCreated(k) => format!("fcreated {:?}", k),
        Event::ForwardKeyCompleted(k) => format!("fcompleted {:?}", k),
        Event::PushItem(i) => format!("item {:?} {}", i.key, i.value.get_int64_at(0)),
        Event::PollItem => String::from("poll"),
        Event::Completed => String::from("done"),
    }
}

fn describe_i64(e: &Event<i64>) -> String {
    match e {
        Event::KeyCreated(k) => format!("created {:?}", k),
        Event::KeyCompleted(k) => format!("completed {:?}", k),
        Event::ForwardKeyCreated(k) => format!("fcreated {:?}", k),
        Event::ForwardKeyCompleted(k) => format!("fcompleted {:?}", k),
        Event::PushItem(i) => format!("item {:?} {}", i.key, i.value),
        Event::PollItem => String::from("poll"),
        Event::Completed => String::from("done"),
    }
}

fn count_state(reduce: bool) -> CountState {
    let mut schema = FlexSchema::new(String::from("count"));
    schema.add_int64(String::from("value"));
    CountState::new(Rc::new(schema), reduce, MemoryState::new())
}

#[test]
fn count_emits_running_counts() {
    let mut c = count_state(false);
    let mut seen: Vec<String> = Vec::new();
    let input: Vec<Event<i64>> = vec![
        Event::KeyCreated(vec![0]),
        item(vec![0], 10),
        item(vec![0], 20),
        item(vec![0], 30),
        Event::KeyCompleted(vec![0]),
        Event::Completed,
    ];
    for e in input {
        assert!(c.accepts(&e));
        for o in c.on_event(e) {
            seen.push(describe(&o));
        }
    }
    assert_eq!(
        seen,
        vec![
            "created [0]", "item [0] 1", "item [0] 2", "item [0] 3", "completed [0]", "done",
        ]
    );
}

#[test]
fn reducing_count_emits_one_total_per_key() {
    let mut c = count_state(true);
    let mut seen: Vec<String> = Vec::new();
    let input: Vec<Event<i64>> = vec![
        Event::KeyCreated(vec![0, 2]),
        item(vec![0, 2], 1),
        item(vec![0, 2], 1),
        Event::KeyCompleted(vec![0, 2]),
        Event::KeyCreated(vec![0, 2]),
        Event::KeyCompleted(vec![0, 2]),
    ];
    for e in input {
        assert!(c.accepts(&e));
        for o in c.on_event(e) {
            seen.push(describe(&o));
        }
    }
    assert_eq!(
        seen,
        vec![
            "created [0, 2]",
            "item [0, 2] 2",
            "completed [0, 2]",
            "created [0, 2]",
            "item [0, 2] 0",
            "completed [0, 2]",
        ]
    );
}

#[test]
fn count_refuses_pull_and_unknown_keys() {
    let c = count_state(false);
    assert!(!c.accepts(&Event::<i64>::PollItem));
    assert!(!c.accepts(&item(vec![0], 1i64)));
    assert!(c.accepts(&item(Vec::new(), 1i64)));
    assert!(!c.accepts(&Event::<i64>::KeyCompleted(vec![3])));
    assert!(c.accepts(&Event::<i64>::KeyCompleted(Vec::new())));
}

#[test]
fn count_forwards_forwarded_key_events() {
    let mut c = count_state(false);
    let out = c.on_event(Event::<i64>::ForwardKeyCreated(vec![4]));
    assert_eq!(out.iter().map(describe).collect::<Vec<_>>(), vec!["fcreated [4]"]);
    let out = c.on_event(Event::<i64>::ForwardKeyCompleted(vec![4]));
    assert_eq!(out.iter().map(describe).collect::<Vec<_>>(), vec!["fcompleted [4]"]);
}

#[test]
fn push_key_split_nests_keys_and_splits_on_change() {
    let mut s = KeySplitState::new(3, MemoryState::new());
    assert_eq!(s.index(), 3);
    let keyf = |index: i32, v: &i64| -> i64 {
        assert_eq!(index, 3);
        *v / 10
    };
    let input: Vec<Event<i64>> = vec![
        Event::KeyCreated(vec![0]),
        item(vec![0], 11),
        item(vec![0], 12),
        item(vec![0], 21),
        Event::KeyCompleted(vec![0]),
        Event::Completed,
    ];
    let mut seen: Vec<String> = Vec::new();
    for e in input {
        assert!(s.accepts(&e));
        for o in s.on_event(e, &keyf) {
            seen.push(describe_i64(&o));
        }
    }
    assert_eq!(
        seen,
        vec![
            "created [0, 0]",
            "fcreated [0]",
            "item [0, 0] 11",
            "item [0, 0] 12",
            "completed [0, 0]",
            "created [0, 0]",
            "item [0, 0] 21",
            "completed [0, 0]",
            "fcompleted [0]",
            "done",
        ]
    );
}

#[test]
fn push_key_split_with_a_given_key() {
    let mut s = KeySplitState::new(0, MemoryState::new());
    s.on_event_with_key(Event::<i64>::KeyCreated(vec![1]), 0);
    let out = s.on_event_with_key(item(vec![1], 5i64), 9);
    assert_eq!(out.iter().map(describe_i64).collect::<Vec<_>>(), vec!["item [1, 0] 5"]);
    let out = s.on_event_with_key(item(vec![1], 6i64), 9);
    assert_eq!(out.iter().map(describe_i64).collect::<Vec<_>>(), vec!["item [1, 0] 6"]);
    let out = s.on_event_with_key(item(vec![1], 7i64), 8);
    assert_eq!(
        out.iter().map(describe_i64).collect::<Vec<_>>(),
        vec!["completed [1, 0]", "created [1, 0]", "item [1, 0] 7"]
    );
}

#[test]
fn push_key_split_refuses_items_without_key() {
    let s = KeySplitState::new(0, MemoryState::new());
    assert!(!s.accepts(&item(Vec::new(), 1i64)));
    assert!(!s.accepts(&item(vec![0], 1i64)));
    assert!(!s.accepts(&Event::<i64>::PollItem));
    assert!(s.accepts(&Event::<i64>::KeyCreated(Vec::new())));
}

#[test]
fn pop_key_undoes_push_key_split() {
    let mut s = KeySplitState::new(0, MemoryState::new());
    let keyf = |_index: i32, v: &i64| -> i64 { *v % 2 };
    let input: Vec<Event<i64>> = vec![
        Event::KeyCreated(vec![0]),
        item(vec![0], 1),
        item(vec![0], 2),
        item(vec![0], 4),
        Event::KeyCompleted(vec![0]),
        Event::Completed,
    ];
    let expected: Vec<String> = input.iter().map(describe_i64).collect();
    let mut seen: Vec<String> = Vec::new();
    for e in input {
        for o in s.on_event(e, &keyf) {
            for p in pop_key_event(o) {
                seen.push(describe_i64(&p));
            }
        }
    }
    assert_eq!(seen, expected);
}

#[test]
fn pop_key_drops_plain_key_events_and_restores_forwarded_ones() {
    assert!(pop_key_event(Event::<i64>::KeyCreated(vec![0])).is_empty());
    assert!(pop_key_event(Event::<i64>::KeyCompleted(vec![0])).is_empty());
    let out = pop_key_event(Event::<i64>::ForwardKeyCreated(vec![2]));
    assert_eq!(out.iter().map(describe_i64).collect::<Vec<_>>(), vec!["created [2]"]);
    let out = pop_key_event(Event::<i64>::ForwardKeyCompleted(vec![2]));
    assert_eq!(out.iter().map(describe_i64).collect::<Vec<_>>(), vec!["completed [2]"]);
    let out = pop_key_event(item(vec![3, 4], 5i64));
    assert_eq!(out.iter().map(describe_i64).collect::<Vec<_>>(), vec!["item [3] 5"]);
    let out = pop_key_event(item(Vec::new(), 5i64));
    assert_eq!(out.iter().map(describe_i64).collect::<Vec<_>>(), vec!["item [] 5"]);
}

#[test]
fn forward_and_relay_pass_events_on() {
    let out = forward_event(item(vec![1], 3i64));
    assert_eq!(out.iter().map(describe_i64).collect::<Vec<_>>(), vec!["item [1] 3"]);
    let out = forward_event(Event::<i64>::Completed);
    assert_eq!(out.iter().map(describe_i64).collect::<Vec<_>>(), vec!["done"]);
    let out = relay_event(Event::<i64>::KeyCreated(vec![0]));
    assert_eq!(out.iter().map(describe_i64).collect::<Vec<_>>(), vec!["created [0]"]);
}

#[test]
fn from_iterable_emits_each_value_then_completes() {
    let out = from_iterable(vec![7i64, 8]);
    assert_eq!(
        out.iter().map(describe_i64).collect::<Vec<_>>(),
        vec!["item [0] 7", "item [0] 8", "done"]
    );
    let out = from_iterable(Vec::<i64>::new());
    assert_eq!(out.iter().map(describe_i64).collect::<Vec<_>>(), vec!["done"]);
}

#[test]
fn for_each_hands_values_over() {
    assert_eq!(for_each_event(item(vec![0], 4i64)), Some(4));
    assert_eq!(for_each_event(Event::<i64>::Completed), None);
}

#[test]
fn count_counts_interleaved_keys_separately() {
    let mut c = count_state(false);
    let mut seen: Vec<String> = Vec::new();
    let input: Vec<Event<i64>> = vec![
        Event::KeyCreated(vec![0]),
        Event::KeyCreated(vec![1]),
        item(vec![0], 1),
        item(vec![1], 1),
        item(vec![0], 1),
        item(vec![0], 1),
        item(vec![1], 1),
    ];
    for e in input {
        assert!(c.accepts(&e));
        for o in c.on_event(e) {
            seen.push(describe(&o));
        }
    }
    assert_eq!(
        seen,
        vec!["created [0]", "created [1]", "item [0] 1", "item [1] 1", "item [0] 2", "item [0] 3", "item [1] 2"]
    );
}

#[test]
fn reducing_count_totals_interleaved_keys() {
    let mut c = count_state(true);
    let mut seen: Vec<String> = Vec::new();
    let input: Vec<Event<i64>> = vec![
        Event::KeyCreated(vec![0]),
        Event::KeyCreated(vec![1]),
        item(vec![0], 1),
        item(vec![1], 1),
        item(vec![0], 1),
        Event::KeyCompleted(vec![1]),
        Event::KeyCompleted(vec![0]),
    ];
    for e in input {
        assert!(c.accepts(&e));
        for o in c.on_event(e) {
            seen.push(describe(&o));
        }
    }
    assert_eq!(
        seen,
        vec!["created [0]", "created [1]", "item [1] 1", "completed [1]", "item [0] 2", "completed [0]"]
    );
}

#[test]
fn push_key_split_passes_each_item_once_under_the_nested_key() {
    let mut s = KeySplitState::new(0, MemoryState::new());
    let keyf = |_index: i32, v: &i64| -> i64 { *v };
    s.on_event(Event::<i64>::KeyCreated(vec![0]), &keyf);
    let mut items: Vec<String> = Vec::new();
    for v in [3i64, 3, 4, 3] {
        for o in s.on_event(item(vec![0], v), &keyf) {
            if let Event::PushItem(_) = o {
                items.push(describe_i64(&o));
            }
        }
    }
    assert_eq!(items, vec!["item [0, 0] 3", "item [0, 0] 3", "item [0, 0] 4", "item [0, 0] 3"]);
}

#[test]
fn for_each_calls_its_function_on_each_value_in_order() {
    let log = std::cell::RefCell::new(Vec::new());
    let f = |v: i64| log.borrow_mut().push(v);
    let ends = for_each(from_iterable(vec![1i64, 2, 3]), &f);
    assert_eq!(*log.borrow(), vec![1, 2, 3]);
    assert_eq!(ends, 1);
}

#[test]
fn push_key_split_restarts_after_a_key_is_created_again() {
    let mut s = KeySplitState::new(0, MemoryState::new());
    let keyf = |_index: i32, v: &i64| -> i64 { *v };
    let input: Vec<Event<i64>> = vec![
        Event::KeyCreated(vec![0]),
        Event::KeyCreated(vec![1]),
        item(vec![0], 5),
        item(vec![1], 7),
        item(vec![1], 7),
        Event::KeyCompleted(vec![1]),
        Event::KeyCreated(vec![1]),
        item(vec![1], 8),
        item(vec![0], 6),
    ];
    let mut seen: Vec<String> = Vec::new();
    for e in input {
        assert!(s.accepts(&e));
        for o in s.on_event(e, &keyf) {
            seen.push(describe_i64(&o));
        }
    }
    assert_eq!(
        seen,
        vec![
            "created [0, 0]",
            "fcreated [0]",
            "created [1, 0]",
            "fcreated [1]",
            "item [0, 0] 5",
            "item [1, 0] 7",
            "item [1, 0] 7",
            "completed [1, 0]",
            "fcompleted [1]",
            "created [1, 0]",
            "fcreated [1]",
            "item [1, 0] 8",
            "completed [0, 0]",
            "created [0, 0]",
            "item [0, 0] 6",
        ]
    );
}
