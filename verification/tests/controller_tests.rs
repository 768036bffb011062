use vector_top::controller::{
    Action, Controller, ExitStatus, Phase, StartupOutcome,
};
use vector_top::events::{Event, InputEvent, MetricUpdate, Multiplexer};
use vector_top::state::{Rate, TopologyRow};
use vector_top::widgets::render;

fn snapshot_row(name: &str, ty: &str, events: u64, at: u64) -> TopologyRow {
    TopologyRow {
        name: name.to_string(),
        topology_type: ty.to_string(),
        events_processed: events,
        errors: 0,
        throughput: Rate::zero(),
        last_observed_at: at,
    }
}

#[test]
fn unreachable_server_terminates_with_unavailable() {
    let mut c = Controller::new();
    assert_eq!(c.phase(), Phase::Connecting);
    c.start(StartupOutcome::Unreachable);
    assert_eq!(c.phase(), Phase::Terminated);
    assert_eq!(c.exit_status(), Some(ExitStatus::Unavailable));
    // nothing is ever drawn: ticks no longer ask for a redraw
    assert_eq!(c.handle_event(Event::Tick), Action::Idle);
}

#[test]
fn failed_snapshot_terminates_with_unavailable() {
    let mut c = Controller::new();
    c.start(StartupOutcome::SnapshotFailed);
    assert_eq!(c.phase(), Phase::Terminated);
    assert_eq!(c.exit_status(), Some(ExitStatus::Unavailable));
}

#[test]
fn snapshot_starts_the_session() {
    let mut c = Controller::new();
    c.start(StartupOutcome::Snapshot(vec![snapshot_row("in", "source", 100, 0)]));
    assert_eq!(c.phase(), Phase::Running);
    assert_eq!(c.exit_status(), None);
    assert_eq!(c.topology().len(), 1);
    assert_eq!(c.topology().rows()[0].name, "in");
}

#[test]
fn snapshot_then_update_yields_exact_throughput() {
    let mut c = Controller::new();
    c.start(StartupOutcome::Snapshot(vec![snapshot_row("in", "source", 100, 0)]));
    let batch = vec![MetricUpdate {
        name: "in".to_string(),
        events_processed: 600,
        errors: 0,
        observed_at: 1000,
    }];
    assert_eq!(c.handle_event(Event::MetricUpdate(batch)), Action::Idle);
    let rows = c.topology().rows();
    assert_eq!(rows.len(), 1);
    assert_eq!(rows[0].throughput, Rate { events: 500, interval_ms: 1000 });
    assert_eq!(rows[0].throughput.per_second(), 500);
}

#[test]
fn redraw_is_tick_driven_only() {
    let mut c = Controller::new();
    c.start(StartupOutcome::Snapshot(vec![snapshot_row("in", "source", 100, 0)]));
    assert_eq!(c.handle_event(Event::Tick), Action::Redraw);
    let batch = vec![MetricUpdate {
        name: "in".to_string(),
        events_processed: 200,
        errors: 0,
        observed_at: 500,
    }];
    assert_eq!(c.handle_event(Event::MetricUpdate(batch)), Action::Idle);
    assert_eq!(c.handle_event(Event::Input(InputEvent::Down)), Action::Idle);
}

#[test]
fn connection_lost_degrades_but_keeps_rows_until_quit() {
    let mut c = Controller::new();
    c.start(StartupOutcome::Snapshot(vec![
        snapshot_row("in", "source", 100, 0),
        snapshot_row("out", "sink", 40, 0),
    ]));
    assert_eq!(c.handle_event(Event::ConnectionLost), Action::Idle);
    assert_eq!(c.phase(), Phase::Degraded);
    // the last-known rows stay visible
    assert_eq!(c.topology().len(), 2);
    assert_eq!(c.topology().rows()[0].name, "in");
    // the rendered frame carries the warning banner
    let frame = render(c.topology(), &c.ui(), c.phase() == Phase::Degraded);
    assert!(frame.warning);
    assert_eq!(frame.rows.len(), 2);
    // the session is still alive: ticks redraw, and only a quit ends it
    assert_eq!(c.handle_event(Event::Tick), Action::Redraw);
    assert_eq!(c.handle_event(Event::Shutdown), Action::Exit(ExitStatus::Clean));
    assert_eq!(c.phase(), Phase::Terminated);
    assert_eq!(c.exit_status(), Some(ExitStatus::Clean));
}

#[test]
fn quit_skips_pending_updates_and_exits_clean() {
    let mut c = Controller::new();
    c.start(StartupOutcome::Snapshot(vec![snapshot_row("in", "source", 100, 0)]));
    let mut m = Multiplexer::new();
    m.push_update(vec![MetricUpdate {
        name: "in".to_string(),
        events_processed: 600,
        errors: 0,
        observed_at: 1000,
    }]);
    m.push_input(InputEvent::Quit);
    // drive the loop as the session does: stop at the first exit action
    let mut status = None;
    while let Some(e) = m.poll() {
        match c.handle_event(e) {
            Action::Exit(s) => {
                status = Some(s);
                break;
            }
            _ => {}
        }
    }
    assert_eq!(status, Some(ExitStatus::Clean));
    assert_eq!(c.phase(), Phase::Terminated);
    // the stale pending batch was never merged
    assert_eq!(c.topology().rows()[0].events_processed, 100);
    assert_eq!(c.topology().rows()[0].throughput, Rate::zero());
}

#[test]
fn navigation_moves_and_clamps_selection() {
    let mut c = Controller::new();
    c.start(StartupOutcome::Snapshot(vec![
        snapshot_row("a", "source", 1, 0),
        snapshot_row("b", "transform", 2, 0),
        snapshot_row("c", "sink", 3, 0),
    ]));
    assert_eq!(c.ui().selected, 0);
    c.handle_event(Event::Input(InputEvent::Up));
    assert_eq!(c.ui().selected, 0);
    c.handle_event(Event::Input(InputEvent::Down));
    c.handle_event(Event::Input(InputEvent::Down));
    assert_eq!(c.ui().selected, 2);
    c.handle_event(Event::Input(InputEvent::Down));
    assert_eq!(c.ui().selected, 2);
    c.handle_event(Event::Input(InputEvent::Up));
    assert_eq!(c.ui().selected, 1);
}

#[test]
fn resize_updates_only_the_ui() {
    let mut c = Controller::new();
    c.start(StartupOutcome::Snapshot(vec![snapshot_row("a", "source", 1, 0)]));
    c.handle_event(Event::Input(InputEvent::Resize(120, 40)));
    assert_eq!(c.ui().width, 120);
    assert_eq!(c.ui().height, 40);
    assert_eq!(c.topology().len(), 1);
    assert_eq!(c.phase(), Phase::Running);
}

#[test]
fn events_before_startup_are_ignored() {
    let mut c = Controller::new();
    assert_eq!(c.handle_event(Event::Tick), Action::Idle);
    assert_eq!(c.handle_event(Event::Shutdown), Action::Idle);
    assert_eq!(c.phase(), Phase::Connecting);
}

#[test]
fn updates_in_a_batch_apply_in_order() {
    let mut c = Controller::new();
    c.start(StartupOutcome::Snapshot(vec![snapshot_row("in", "source", 0, 0)]));
    let batch = vec![
        MetricUpdate {
            name: "in".to_string(),
            events_processed: 100,
            errors: 0,
            observed_at: 1000,
        },
        MetricUpdate {
            name: "in".to_string(),
            events_processed: 400,
            errors: 2,
            observed_at: 2000,
        },
    ];
    c.handle_event(Event::MetricUpdate(batch));
    let r = &c.topology().rows()[0];
    assert_eq!(r.events_processed, 400);
    assert_eq!(r.errors, 2);
    assert_eq!(r.throughput, Rate { events: 300, interval_ms: 1000 });
}
