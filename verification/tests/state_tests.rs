use vector_top::state::{Rate, TopologyRow, TopologyState};

fn row(name: &str, ty: &str, events: u64, at: u64) -> TopologyRow {
    TopologyRow {
        name: name.to_string(),
        topology_type: ty.to_string(),
        events_processed: events,
        errors: 0,
        throughput: Rate::zero(),
        last_observed_at: at,
    }
}

#[test]
fn throughput_tracks_counter_delta() {
    let mut s = TopologyState::new(vec![row("in", "source", 100, 0)]);
    s.apply_update(&"in".to_string(), 600, 0, 1000);
    let r = &s.rows()[0];
    assert_eq!(r.throughput, Rate { events: 500, interval_ms: 1000 });
    assert_eq!(r.throughput.per_second(), 500);
    assert_eq!(r.events_processed, 600);
    assert_eq!(r.last_observed_at, 1000);

    s.apply_update(&"in".to_string(), 1600, 0, 3000);
    let r = &s.rows()[0];
    assert_eq!(r.throughput, Rate { events: 1000, interval_ms: 2000 });
    assert_eq!(r.throughput.per_second(), 500);
}

#[test]
fn first_observation_has_zero_throughput() {
    let mut s = TopologyState::new(Vec::new());
    s.apply_update(&"fresh".to_string(), 250, 3, 1000);
    assert_eq!(s.len(), 1);
    let r = &s.rows()[0];
    assert_eq!(r.name, "fresh");
    assert_eq!(r.throughput, Rate::zero());
    assert_eq!(r.throughput.per_second(), 0);
    assert_eq!(r.events_processed, 250);
    assert_eq!(r.errors, 3);
}

#[test]
fn counter_reset_rebases_without_negative_rate() {
    let mut s = TopologyState::new(vec![row("in", "source", 100, 0)]);
    s.apply_update(&"in".to_string(), 600, 0, 1000);
    // the stage restarted: the cumulative counter went backwards
    s.apply_update(&"in".to_string(), 100, 0, 2000);
    let r = &s.rows()[0];
    assert_eq!(r.throughput, Rate::zero());
    assert_eq!(r.events_processed, 100);
    // subsequent deltas diff against the new baseline
    s.apply_update(&"in".to_string(), 300, 0, 3000);
    let r = &s.rows()[0];
    assert_eq!(r.throughput, Rate { events: 200, interval_ms: 1000 });
    assert_eq!(r.throughput.per_second(), 200);
}

#[test]
fn identical_update_twice_changes_nothing() {
    let mut s = TopologyState::new(vec![row("in", "source", 100, 0)]);
    s.apply_update(&"in".to_string(), 600, 7, 1000);
    let once: Vec<_> = s
        .rows()
        .iter()
        .map(|r| (r.name.clone(), r.events_processed, r.errors, r.throughput, r.last_observed_at))
        .collect();
    s.apply_update(&"in".to_string(), 600, 7, 1000);
    let twice: Vec<_> = s
        .rows()
        .iter()
        .map(|r| (r.name.clone(), r.events_processed, r.errors, r.throughput, r.last_observed_at))
        .collect();
    assert_eq!(once, twice);
    assert_eq!(s.len(), 1);
}

#[test]
fn unknown_name_inserts_exactly_one_row() {
    let mut s = TopologyState::new(vec![row("a", "source", 1, 0)]);
    s.apply_update(&"b".to_string(), 10, 0, 100);
    assert_eq!(s.len(), 2);
    assert_eq!(s.rows()[1].name, "b");
    // a known name never creates a duplicate
    s.apply_update(&"b".to_string(), 20, 0, 200);
    s.apply_update(&"a".to_string(), 2, 0, 200);
    assert_eq!(s.len(), 2);
    assert_eq!(s.rows()[0].name, "a");
    assert_eq!(s.rows()[1].name, "b");
}

#[test]
fn non_monotonic_clock_skips_rate_but_takes_grown_counters() {
    let mut s = TopologyState::new(vec![row("in", "source", 100, 0)]);
    s.apply_update(&"in".to_string(), 600, 5, 1000);
    // an older sample: rate and timestamp stay, counters only grow
    s.apply_update(&"in".to_string(), 700, 2, 500);
    let r = &s.rows()[0];
    assert_eq!(r.throughput, Rate { events: 500, interval_ms: 1000 });
    assert_eq!(r.last_observed_at, 1000);
    assert_eq!(r.events_processed, 700);
    assert_eq!(r.errors, 5);
}

#[test]
fn snapshot_keeps_first_of_duplicate_names() {
    let s = TopologyState::new(vec![
        row("a", "source", 1, 0),
        row("b", "sink", 2, 0),
        row("a", "transform", 9, 0),
    ]);
    assert_eq!(s.len(), 2);
    assert_eq!(s.rows()[0].name, "a");
    assert_eq!(s.rows()[0].topology_type, "source");
    assert_eq!(s.rows()[0].events_processed, 1);
    assert_eq!(s.rows()[1].name, "b");
}

#[test]
fn snapshot_forces_zero_throughput() {
    let mut seeded = row("a", "source", 50, 0);
    seeded.throughput = Rate { events: 10, interval_ms: 20 };
    let s = TopologyState::new(vec![seeded]);
    assert_eq!(s.rows()[0].throughput, Rate::zero());
}

#[test]
fn per_second_is_exact_division() {
    assert_eq!(Rate { events: 500, interval_ms: 1000 }.per_second(), 500);
    assert_eq!(Rate { events: 1, interval_ms: 2000 }.per_second(), 0);
    assert_eq!(Rate { events: 3, interval_ms: 2000 }.per_second(), 1);
    assert_eq!(Rate { events: 250, interval_ms: 250 }.per_second(), 1000);
    assert_eq!(Rate::zero().per_second(), 0);
}

#[test]
fn per_second_saturates() {
    assert_eq!(Rate { events: u64::MAX, interval_ms: 1 }.per_second(), u64::MAX);
    assert_eq!(Rate { events: u64::MAX, interval_ms: 1000 }.per_second(), u64::MAX);
}
