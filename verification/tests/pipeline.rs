use rxsci::events::Event;
use rxsci::operators::map::map_event;
use rxsci::sources::from_iterable::from_iterable;

#[test]
fn run_a_simple_pipeline() {
    let i = vec![1i64, 2, 3, 4];
    let source = from_iterable(i);
    let f = |_index: i32, i: i64| i + 1;
    let mut mapped: Vec<i64> = Vec::new();
    for event in source {
        for out in map_event(0, event, &f) {
            if let Event::PushItem(item) = out {
                mapped.push(item.value);
            }
        }
    }
    assert_eq!(mapped, vec![2, 3, 4, 5]);
    assert_eq!(1, 1)
}
