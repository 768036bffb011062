use vector_top::events::{Event, InputEvent, MetricUpdate, Multiplexer};

fn update(name: &str, events: u64, at: u64) -> MetricUpdate {
    MetricUpdate {
        name: name.to_string(),
        events_processed: events,
        errors: 0,
        observed_at: at,
    }
}

#[test]
fn empty_multiplexer_polls_none() {
    let mut m = Multiplexer::new();
    assert!(m.poll().is_none());
}

#[test]
fn input_is_delivered_before_a_burst_of_updates() {
    let mut m = Multiplexer::new();
    for i in 0..100 {
        m.push_update(vec![update("in", i, i)]);
    }
    m.push_input(InputEvent::Down);
    // the input arrived last, yet it outranks every queued batch
    assert_eq!(m.poll(), Some(Event::Input(InputEvent::Down)));
}

#[test]
fn input_is_never_delayed_past_the_next_tick() {
    let mut m = Multiplexer::new();
    m.push_tick();
    for i in 0..50 {
        m.push_update(vec![update("in", i, i)]);
    }
    m.push_input(InputEvent::Up);
    // the pending input comes out before the already-scheduled tick
    assert_eq!(m.poll(), Some(Event::Input(InputEvent::Up)));
    assert_eq!(m.poll(), Some(Event::Tick));
}

#[test]
fn quit_key_becomes_shutdown_and_preempts_pending_updates() {
    let mut m = Multiplexer::new();
    m.push_update(vec![update("in", 600, 1000)]);
    m.push_input(InputEvent::Up);
    m.push_input(InputEvent::Quit);
    // quit never queues behind anything: the next event is the shutdown
    assert_eq!(m.poll(), Some(Event::Shutdown));
}

#[test]
fn inputs_keep_arrival_order() {
    let mut m = Multiplexer::new();
    m.push_input(InputEvent::Up);
    m.push_input(InputEvent::Down);
    m.push_input(InputEvent::Other);
    assert_eq!(m.poll(), Some(Event::Input(InputEvent::Up)));
    assert_eq!(m.poll(), Some(Event::Input(InputEvent::Down)));
    assert_eq!(m.poll(), Some(Event::Input(InputEvent::Other)));
    assert!(m.poll().is_none());
}

#[test]
fn update_batches_keep_arrival_order() {
    let mut m = Multiplexer::new();
    m.push_update(vec![update("a", 1, 10)]);
    m.push_update(vec![update("b", 2, 20)]);
    match m.poll() {
        Some(Event::MetricUpdate(batch)) => assert_eq!(batch[0].name, "a"),
        other => panic!("expected a metric batch, got {:?}", other),
    }
    match m.poll() {
        Some(Event::MetricUpdate(batch)) => assert_eq!(batch[0].name, "b"),
        other => panic!("expected a metric batch, got {:?}", other),
    }
}

#[test]
fn ticks_coalesce() {
    let mut m = Multiplexer::new();
    m.push_tick();
    m.push_tick();
    assert_eq!(m.poll(), Some(Event::Tick));
    assert!(m.poll().is_none());
}

#[test]
fn connection_lost_outranks_data_but_not_input() {
    let mut m = Multiplexer::new();
    m.push_update(vec![update("in", 1, 1)]);
    m.push_connection_lost();
    m.push_input(InputEvent::Other);
    assert_eq!(m.poll(), Some(Event::Input(InputEvent::Other)));
    assert_eq!(m.poll(), Some(Event::ConnectionLost));
    assert!(matches!(m.poll(), Some(Event::MetricUpdate(_))));
}
