use rust_streamz::{EngineBuilder, EngineState, Outcome, Stream, TimedBuffer};

fn buffer_with_period(period: u64) -> TimedBuffer<i32> {
    TimedBuffer::new(period)
}

#[test]
fn zero_sources_runs_until_interrupt() {
    let mut engine = EngineBuilder::new().build();
    assert_eq!(engine.current_state(), EngineState::Idle);
    engine.start(0);
    assert_eq!(engine.source_count(), 0);
    assert_eq!(engine.next_deadline(), None);
    assert_eq!(engine.current_state(), EngineState::Running);
    let outcome = engine.on_interrupt();
    assert!(matches!(outcome, Outcome::Interrupted));
    assert!(outcome.is_success());
    assert_eq!(engine.current_state(), EngineState::Interrupted);
}

#[test]
fn timers_fire_without_sources() {
    let buffer = buffer_with_period(100);
    let mut engine = EngineBuilder::new().add_timed_buffer(&buffer).build();
    engine.start(1000);
    assert_eq!(engine.next_deadline(), Some(1100));
    assert_eq!(engine.on_timer(1100), vec![0]);
    assert_eq!(engine.timer(0).next_fire_ms, 1200);
    assert_eq!(engine.current_state(), EngineState::Running);
}

#[test]
fn catch_up_flushes_once_and_skips_missed_ticks() {
    let a = buffer_with_period(100);
    let b = buffer_with_period(1000);
    let mut engine = EngineBuilder::new()
        .add_source("feed")
        .add_timed_buffer(&a)
        .add_timed_buffer(&b)
        .build();
    engine.start(0);
    assert_eq!(engine.next_deadline(), Some(100));
    // Stalled past five periods of the first timer.
    assert_eq!(engine.on_timer(550), vec![0]);
    assert_eq!(engine.timer(0).next_fire_ms, 600);
    assert_eq!(engine.timer(1).next_fire_ms, 1000);
    assert_eq!(engine.next_deadline(), Some(600));
}

#[test]
fn catch_up_on_exact_boundary_moves_strictly_past() {
    let a = buffer_with_period(100);
    let mut engine = EngineBuilder::new().add_timed_buffer(&a).build();
    engine.start(0);
    assert_eq!(engine.on_timer(300), vec![0]);
    assert_eq!(engine.timer(0).next_fire_ms, 400);
}

#[test]
fn timer_tie_flushes_both() {
    let a = buffer_with_period(50);
    let b = buffer_with_period(100);
    let mut engine = EngineBuilder::new().add_timed_buffer(&a).add_timed_buffer(&b).build();
    engine.start(0);
    assert_eq!(engine.on_timer(99), vec![0]);
    assert_eq!(engine.on_timer(100), vec![0, 1]);
    assert_eq!(engine.timer(0).next_fire_ms, 150);
    assert_eq!(engine.timer(1).next_fire_ms, 200);
}

#[test]
fn timer_not_due_is_left_alone() {
    let a = buffer_with_period(100);
    let mut engine = EngineBuilder::new().add_timed_buffer(&a).build();
    engine.start(0);
    assert!(engine.on_timer(50).is_empty());
    assert_eq!(engine.timer(0).next_fire_ms, 100);
}

#[test]
fn timer_near_the_end_of_time_saturates() {
    let a = buffer_with_period(10);
    let mut engine = EngineBuilder::new().add_timed_buffer(&a).build();
    engine.start(u64::MAX - 5);
    assert_eq!(engine.timer(0).next_fire_ms, u64::MAX);
    assert_eq!(engine.on_timer(u64::MAX), vec![0]);
    assert_eq!(engine.timer(0).next_fire_ms, u64::MAX);
}

#[test]
fn failing_source_fails_run_with_label() {
    let mut engine = EngineBuilder::new()
        .add_source("orderbook")
        .add_source_owned("trades")
        .build();
    engine.start(0);
    let outcome = engine.on_source_finished(1, Err("connection reset".to_string()));
    match outcome {
        Some(Outcome::Failed { label, cause }) => {
            assert_eq!(label, "trades");
            assert_eq!(cause, "connection reset");
        }
        other => panic!("unexpected outcome {:?}", other),
    }
    assert_eq!(engine.current_state(), EngineState::Failed);
    assert!(!engine.is_finished(0));
}

#[test]
fn all_sources_succeeding_completes_run() {
    let mut engine = EngineBuilder::new().add_source("a").add_source("b").build();
    engine.start(0);
    assert!(engine.on_source_finished(0, Ok(())).is_none());
    assert_eq!(engine.current_state(), EngineState::Running);
    let outcome = engine.on_source_finished(1, Ok(()));
    assert!(matches!(outcome, Some(Outcome::Completed)));
    assert_eq!(engine.current_state(), EngineState::Completed);
}

#[test]
fn failed_outcome_is_not_success() {
    let outcome = Outcome::Failed { label: "x".to_string(), cause: "y".to_string() };
    assert!(!outcome.is_success());
    assert!(Outcome::Completed.is_success());
}

#[test]
fn builder_keeps_registration_order() {
    let a = buffer_with_period(30);
    let engine = EngineBuilder::new()
        .add_stream(Stream::from_items(Vec::<u8>::new()))
        .add_source("first")
        .add_timed_buffer(&a)
        .add_source("second")
        .build();
    assert_eq!(engine.source_count(), 2);
    assert_eq!(engine.timer_count(), 1);
    assert_eq!(engine.timer(0).period_ms, 30);
}

#[test]
fn plain_timer_registration() {
    let mut engine = EngineBuilder::new().add_timer(40).build();
    engine.start(10);
    assert_eq!(engine.next_deadline(), Some(50));
}
