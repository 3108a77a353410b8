use rust_streamz::{
    AccumulateNode, Accumulator, Collect, Fanout, FilterMapNode, FilterNode, MapNode, Side, Sink,
    Source, Stream, TapNode, TimedBuffer, TimedEmitter, ZipNode, Zipper,
};
use std::cell::RefCell;
use std::rc::Rc;

fn values<T: Clone>(stream: &Stream<T>) -> Vec<T> {
    stream.slots().iter().filter_map(|s| s.clone()).collect()
}

struct Recorded(Vec<i32>);

impl Recorded {
    fn to_stream(self) -> Stream<i32> {
        Stream::from_items(self.0)
    }
}

fn source_of(items: &[i32]) -> Recorded {
    Recorded(items.to_vec())
}

#[test]
fn map_then_filter_keeps_order() {
    let out = source_of(&[1, 2, 3, 4])
        .to_stream()
        .map(|x: &i32| x * 2)
        .filter(|x: &i32| *x > 5);
    assert_eq!(values(&out), vec![6, 8]);
    assert_eq!(out.slots().len(), 4);
}

#[test]
fn map_then_filter_on_empty_input() {
    let out = source_of(&[]).to_stream().map(|x: &i32| x * 2).filter(|x: &i32| *x > 5);
    assert!(values(&out).is_empty());
}

#[test]
fn map_then_filter_with_tap_and_sink() {
    let seen = Rc::new(RefCell::new(Vec::new()));
    let tapped = Rc::new(RefCell::new(Vec::new()));
    let seen_in = seen.clone();
    let tapped_in = tapped.clone();
    source_of(&[1, 2, 3, 4])
        .to_stream()
        .map(|x: &i32| x * 2)
        .filter(|x: &i32| *x > 5)
        .tap(move |x: &i32| tapped_in.borrow_mut().push(*x))
        .sink(move |x: &i32| seen_in.borrow_mut().push(*x));
    assert_eq!(*seen.borrow(), vec![6, 8]);
    assert_eq!(*tapped.borrow(), vec![6, 8]);
}

#[test]
fn filter_map_forwards_only_some() {
    let out = source_of(&[1, 2, 3, 4, 5])
        .to_stream()
        .filter_map(|x: &i32| if x % 2 == 1 { Some(x * 10) } else { None });
    assert_eq!(values(&out), vec![10, 30, 50]);
    assert_eq!(out.slots()[1], None);
}

#[test]
fn accumulate_emits_each_running_fold() {
    let out = source_of(&[3, 1, 4, 1, 5])
        .to_stream()
        .accumulate(10i64, |acc: i64, x: &i32| acc + *x as i64);
    assert_eq!(values(&out), vec![13, 14, 18, 19, 24]);
}

#[test]
fn accumulate_skips_empty_slots() {
    let out = source_of(&[1, 2, 3, 4])
        .to_stream()
        .filter(|x: &i32| x % 2 == 0)
        .accumulate(0i32, |acc: i32, x: &i32| acc * 10 + *x);
    assert_eq!(out.slots(), &vec![None, Some(2), None, Some(24)]);
}

#[derive(Clone, Debug)]
enum Event {
    Left(i32),
    Right(&'static str),
}

fn zip_events(events: Vec<Event>) -> Vec<(i32, &'static str)> {
    let stream = Stream::from_items(events);
    let left = stream.clone().filter_map(|e: &Event| match e {
        Event::Left(x) => Some(*x),
        _ => None,
    });
    let right = stream.filter_map(|e: &Event| match e {
        Event::Right(s) => Some(*s),
        _ => None,
    });
    values(&left.zip(right))
}

#[test]
fn zip_waits_for_right_then_samples_latest() {
    let pairs = zip_events(vec![
        Event::Left(1),
        Event::Right("a"),
        Event::Left(2),
        Event::Right("b"),
        Event::Left(3),
    ]);
    assert_eq!(pairs, vec![(2, "a"), (3, "b")]);
}

#[test]
fn zip_reuses_stale_right_value() {
    let pairs = zip_events(vec![
        Event::Left(1),
        Event::Left(2),
        Event::Right("a"),
        Event::Left(3),
        Event::Left(4),
    ]);
    assert_eq!(pairs, vec![(3, "a"), (4, "a")]);
}

#[test]
fn zip_right_only_emits_nothing() {
    let pairs = zip_events(vec![Event::Right("a"), Event::Right("b")]);
    assert!(pairs.is_empty());
}

#[test]
fn timed_buffer_releases_one_batch_per_flush() {
    let mut buffer = source_of(&[1, 2]).to_stream().timed_buffer(100);
    assert_eq!(buffer.period(), 100);
    buffer.flush();
    buffer.push(3);
    buffer.push(4);
    buffer.push(5);
    buffer.flush();
    let batches = buffer.stream();
    assert_eq!(values(&batches), vec![vec![1, 2], vec![3, 4, 5]]);
}

#[test]
fn timed_buffer_empty_flush_emits_nothing() {
    let mut buffer = source_of(&[7]).to_stream().timed_buffer(50);
    buffer.flush();
    buffer.flush();
    buffer.flush();
    let batches = buffer.stream();
    assert_eq!(batches.slots(), &vec![Some(vec![7]), None, None]);
    assert_eq!(values(&batches), vec![vec![7]]);
}

#[test]
fn timed_buffer_through_emitter_trait() {
    let mut buffer = source_of(&[]).to_stream().timed_buffer(20);
    buffer.push(9);
    {
        let emitter: &mut dyn TimedEmitter<i32> = &mut buffer;
        assert_eq!(emitter.period(), 20);
        emitter.flush();
    }
    assert_eq!(values(&buffer.stream()), vec![vec![9]]);
}

#[test]
fn source_stream_has_one_slot_per_emission() {
    let stream = source_of(&[5, 6]).to_stream();
    assert_eq!(stream.slots(), &vec![Some(5), Some(6)]);
}

#[test]
fn accumulator_node_folds_one_item_at_a_time() {
    let mut node = Accumulator::new(100i64, |acc: i64, x: &i32| acc - *x as i64);
    assert_eq!(node.push(&30), 70);
    assert_eq!(node.push(&5), 65);
    assert_eq!(node.push(&-10), 75);
}

#[test]
fn zipper_node_is_driven_by_left_arrivals() {
    let mut node: Zipper<&str> = Zipper::new();
    assert_eq!(node.push_left(1), None);
    node.push_right("a");
    assert_eq!(node.push_left(2), Some((2, "a")));
    node.push_right("b");
    assert_eq!(node.push_left(3), Some((3, "b")));
    assert_eq!(node.push_left(4), Some((4, "b")));
}

#[test]
fn zip_of_a_stream_with_itself_sees_the_previous_item() {
    let stream = Stream::from_items(vec![1, 2, 3]);
    let pairs = values(&stream.clone().zip(stream));
    assert_eq!(pairs, vec![(2, 1), (3, 2)]);
}

#[test]
fn live_map_then_filter_runs_on_each_emit() {
    let mut source = Source::new(MapNode::new(
        |x: &i32| x * 2,
        FilterNode::new(|x: &i32| *x > 5, Collect::new()),
    ));
    source.emit(1);
    source.emit(2);
    assert!(source.down.down.down.items.is_empty());
    source.emit(3);
    assert_eq!(source.down.down.down.items, vec![6]);
    source.emit(4);
    assert_eq!(source.down.down.down.items, vec![6, 8]);
}

#[test]
fn live_sink_and_tap_see_items_as_they_arrive() {
    let seen = Rc::new(RefCell::new(Vec::new()));
    let tapped = Rc::new(RefCell::new(Vec::new()));
    let seen_in = seen.clone();
    let tapped_in = tapped.clone();
    let mut source = Source::new(TapNode::new(
        move |x: &i32| tapped_in.borrow_mut().push(*x),
        Sink::new(move |x: &i32| seen_in.borrow_mut().push(*x)),
    ));
    source.emit(5);
    assert_eq!(*seen.borrow(), vec![5]);
    assert_eq!(*tapped.borrow(), vec![5]);
    source.emit(7);
    assert_eq!(*seen.borrow(), vec![5, 7]);
}

#[test]
fn live_accumulate_forwards_each_state() {
    let mut source = Source::new(AccumulateNode::new(
        0i64,
        |acc: i64, x: &i32| acc + *x as i64,
        Collect::new(),
    ));
    for x in [3, 1, 4] {
        source.emit(x);
    }
    assert_eq!(source.down.down.items, vec![3, 4, 8]);
}

#[test]
fn live_filter_map_and_fanout_in_registration_order() {
    let order = Rc::new(RefCell::new(Vec::new()));
    let first = order.clone();
    let second = order.clone();
    let mut source = Source::new(FilterMapNode::new(
        |x: &i32| if *x > 0 { Some(*x) } else { None },
        Fanout::new(
            Sink::new(move |x: &i32| first.borrow_mut().push(("first", *x))),
            Sink::new(move |x: &i32| second.borrow_mut().push(("second", *x))),
        ),
    ));
    source.emit(-1);
    source.emit(2);
    assert_eq!(*order.borrow(), vec![("first", 2), ("second", 2)]);
}

#[test]
fn live_zip_of_two_feeds_is_left_driven() {
    let mut source = Source::new(ZipNode::new(Collect::new()));
    source.emit(Side::Left(1));
    source.emit(Side::Right("a"));
    source.emit(Side::Left(2));
    source.emit(Side::Right("b"));
    source.emit(Side::Left(3));
    assert_eq!(source.down.down.items, vec![(2, "a"), (3, "b")]);
}

#[test]
fn live_zip_waits_for_the_right_side() {
    let mut source = Source::new(ZipNode::<i32, &str, _>::new(Collect::new()));
    for x in 0..5 {
        source.emit(Side::Left(x));
    }
    assert!(source.down.down.items.is_empty());
    source.emit(Side::Right("r"));
    source.emit(Side::Left(9));
    source.emit(Side::Left(10));
    assert_eq!(source.down.down.items, vec![(9, "r"), (10, "r")]);
}

#[test]
fn live_timed_buffer_collects_between_flushes() {
    let mut source = Source::new(MapNode::new(|x: &i32| x + 1, TimedBuffer::new(100)));
    source.emit(1);
    source.emit(2);
    source.down.down.flush();
    source.down.down.flush();
    source.emit(3);
    source.down.down.flush();
    assert_eq!(source.down.down.period(), 100);
    let batches = source.down.down.stream();
    assert_eq!(batches.slots(), &vec![Some(vec![2, 3]), None, Some(vec![4])]);
}
