//! The topology table: one row per monitored pipeline stage, merged in place
//! from cumulative counter updates that arrive out of band.

use vstd::prelude::*;

verus! {

/// An exact throughput sample: `events` counted over `interval_ms`
/// milliseconds. Keeping the fraction instead of a quotient loses no
/// precision; `interval_ms == 0` is the zero rate of a row that does not yet
/// have two samples to diff.
#[derive(Clone, Copy, PartialEq, Eq, Structural, Debug)]
pub struct Rate {
    pub events: u64,
    pub interval_ms: u64,
}

impl Rate {
    /// The rate of a row observed only once.
    pub open spec fn zero_spec() -> Rate {
        Rate { events: 0, interval_ms: 0 }
    }

    pub fn zero() -> (r: Rate)
        ensures
            r == Rate::zero_spec(),
    {
        Rate { events: 0, interval_ms: 0 }
    }

    /// Whole events per second, rounded down; `u64::MAX` when the true value
    /// does not fit.
    pub open spec fn per_second_spec(self) -> u64 {
        if self.interval_ms == 0 {
            0
        } else if self.events * 1000 / (self.interval_ms as int) > u64::MAX {
            u64::MAX
        } else {
            (self.events * 1000 / (self.interval_ms as int)) as u64
        }
    }

    pub fn per_second(&self) -> (r: u64)
        ensures
            r == self.per_second_spec(),
    {
        if self.interval_ms == 0 {
            0
        } else {
            let q: u128 = (self.events as u128) * 1000 / (self.interval_ms as u128);
            if q > u64::MAX as u128 {
                u64::MAX
            } else {
                q as u64
            }
        }
    }
}

/// The mathematical image of one row: its strings as character sequences
/// beside the plain counters.
#[verifier::ext_equal]
pub struct RowModel {
    pub name: Seq<char>,
    pub topology_type: Seq<char>,
    pub events_processed: u64,
    pub errors: u64,
    pub throughput: Rate,
    pub last_observed_at: u64,
}

/// One monitored pipeline stage. `name` is the primary key; the two counters
/// are the last cumulative values reported by the server; `throughput` is
/// derived from consecutive `events_processed` samples and never sent by the
/// server; `last_observed_at` is the wall-clock time of the newest sample, in
/// milliseconds.
#[derive(PartialEq, Eq, Debug)]
pub struct TopologyRow {
    pub name: String,
    pub topology_type: String,
    pub events_processed: u64,
    pub errors: u64,
    pub throughput: Rate,
    pub last_observed_at: u64,
}

impl View for TopologyRow {
    type V = RowModel;

    open spec fn view(&self) -> RowModel {
        RowModel {
            name: self.name@,
            topology_type: self.topology_type@,
            events_processed: self.events_processed,
            errors: self.errors,
            throughput: self.throughput,
            last_observed_at: self.last_observed_at,
        }
    }
}

/// The image of a whole table: its rows in rendering order.
pub open spec fn rows_view(rows: Seq<TopologyRow>) -> Seq<RowModel> {
    rows.map_values(|r: TopologyRow| r@)
}

/// Some row of `s` carries `name`.
pub open spec fn has_name(s: Seq<RowModel>, name: Seq<char>) -> bool {
    exists|i: int| 0 <= i < s.len() && s[i].name == name
}

/// The first index of `s` whose row carries `name`, or `-1`.
pub open spec fn find_name(s: Seq<RowModel>, name: Seq<char>) -> int
    decreases s.len(),
{
    if s.len() == 0 {
        -1
    } else if s[0].name == name {
        0
    } else {
        let r = find_name(s.drop_first(), name);
        if r < 0 {
            -1
        } else {
            r + 1
        }
    }
}

/// No two rows share a name: the table is keyed by `name`.
pub open spec fn unique_names(s: Seq<RowModel>) -> bool {
    forall|i: int, j: int| 0 <= i < j < s.len() ==> s[i].name != s[j].name
}

pub proof fn lemma_find_name(s: Seq<RowModel>, name: Seq<char>)
    ensures
        has_name(s, name) <==> 0 <= find_name(s, name) < s.len(),
        0 <= find_name(s, name) ==> s[find_name(s, name)].name == name,
        forall|j: int| 0 <= j < find_name(s, name) ==> s[j].name != name,
        !has_name(s, name) ==> find_name(s, name) == -1,
    decreases s.len(),
{
    if s.len() == 0 {
    } else if s[0].name == name {
        assert(has_name(s, name));
    } else {
        let t = s.drop_first();
        lemma_find_name(t, name);
        assert(forall|i: int| 0 <= i < t.len() ==> t[i] == s[i + 1]);
        if has_name(t, name) {
            let i = choose|i: int| 0 <= i < t.len() && t[i].name == name;
            assert(s[i + 1].name == name);
            assert(has_name(s, name));
        }
        if has_name(s, name) {
            let i = choose|i: int| 0 <= i < s.len() && s[i].name == name;
            assert(i != 0);
            assert(t[i - 1].name == name);
            assert(has_name(t, name));
        }
        assert forall|j: int| 0 <= j < find_name(s, name) implies s[j].name != name by {
            if j > 0 {
                assert(t[j - 1].name != name);
            }
        }
    }
}

/// How one counter report changes a known row.
///
/// A sample strictly newer than the last one recomputes the rate: the counter
/// delta over the elapsed time when the counter did not shrink, the zero rate
/// with the new value as baseline when it did (the stage was restarted). A
/// sample at or before the last one (duplicate event or non-monotonic clock)
/// leaves rate and timestamp alone and takes a counter only if it grew.
pub open spec fn merged_row(r: RowModel, events_processed: u64, errors: u64, observed_at: u64) -> RowModel {
    if observed_at > r.last_observed_at {
        if events_processed >= r.events_processed {
            RowModel {
                name: r.name,
                topology_type: r.topology_type,
                events_processed: events_processed,
                errors: errors,
                throughput: Rate {
                    events: (events_processed - r.events_processed) as u64,
                    interval_ms: (observed_at - r.last_observed_at) as u64,
                },
                last_observed_at: observed_at,
            }
        } else {
            RowModel {
                name: r.name,
                topology_type: r.topology_type,
                events_processed: events_processed,
                errors: errors,
                throughput: Rate::zero_spec(),
                last_observed_at: observed_at,
            }
        }
    } else {
        RowModel {
            name: r.name,
            topology_type: r.topology_type,
            events_processed: if events_processed > r.events_processed {
                events_processed
            } else {
                r.events_processed
            },
            errors: if errors > r.errors {
                errors
            } else {
                r.errors
            },
            throughput: r.throughput,
            last_observed_at: r.last_observed_at,
        }
    }
}

/// The row inserted at the first observation of an unknown name: counters as
/// reported, the zero rate, and no type tag yet (updates do not carry one).
pub open spec fn fresh_row(name: Seq<char>, events_processed: u64, errors: u64, observed_at: u64) -> RowModel {
    RowModel {
        name: name,
        topology_type: Seq::empty(),
        events_processed: events_processed,
        errors: errors,
        throughput: Rate::zero_spec(),
        last_observed_at: observed_at,
    }
}

/// What one `apply_update` call does to the whole table: merge into the row
/// that carries `name`, or append a fresh row when no row does.
pub open spec fn apply_spec(
    s: Seq<RowModel>,
    name: Seq<char>,
    events_processed: u64,
    errors: u64,
    observed_at: u64,
) -> Seq<RowModel> {
    if has_name(s, name) {
        let i = find_name(s, name);
        s.update(i, merged_row(s[i], events_processed, errors, observed_at))
    } else {
        s.push(fresh_row(name, events_processed, errors, observed_at))
    }
}

/// A snapshot row enters the table with its rate forced to zero: there is no
/// earlier sample to diff against.
pub open spec fn snapshot_row(r: RowModel) -> RowModel {
    RowModel {
        name: r.name,
        topology_type: r.topology_type,
        events_processed: r.events_processed,
        errors: r.errors,
        throughput: Rate::zero_spec(),
        last_observed_at: r.last_observed_at,
    }
}

/// The table seeded from a snapshot: each name's first occurrence, in order
/// of first occurrence, each with the zero rate.
pub open spec fn snapshot_spec(s: Seq<RowModel>) -> Seq<RowModel>
    decreases s.len(),
{
    if s.len() == 0 {
        Seq::empty()
    } else {
        let d = snapshot_spec(s.drop_last());
        if has_name(d, s.last().name) {
            d
        } else {
            d.push(snapshot_row(s.last()))
        }
    }
}

/// The mapping from stage name to its last-known metrics, in insertion order
/// so the rendered table is stable.
pub struct TopologyState {
    rows: Vec<TopologyRow>,
}

impl View for TopologyState {
    type V = Seq<RowModel>;

    closed spec fn view(&self) -> Seq<RowModel> {
        rows_view(self.rows@)
    }
}

proof fn lemma_rows_view_push(v: Seq<TopologyRow>, r: TopologyRow)
    ensures
        rows_view(v.push(r)) =~= rows_view(v).push(r@),
{
}

proof fn lemma_rows_view_drop_first(v: Seq<TopologyRow>)
    requires
        v.len() > 0,
    ensures
        rows_view(v.drop_first()) =~= rows_view(v).drop_first(),
{
}

/// The first index of `rows` holding `name`, or `None`.
fn find_index(rows: &Vec<TopologyRow>, name: &String) -> (r: Option<usize>)
    ensures
        match r {
            Some(i) => i == find_name(rows_view(rows@), name@) && has_name(rows_view(rows@), name@),
            None => !has_name(rows_view(rows@), name@),
        },
{
    proof {
        lemma_find_name(rows_view(rows@), name@);
    }
    let ghost s = rows_view(rows@);
    let mut i: usize = 0;
    while i < rows.len()
        invariant
            i <= rows.len(),
            s == rows_view(rows@),
            forall|j: int| 0 <= j < i ==> s[j].name != name@,
            has_name(s, name@) <==> 0 <= find_name(s, name@) < s.len(),
            0 <= find_name(s, name@) ==> s[find_name(s, name@)].name == name@,
            forall|j: int| 0 <= j < find_name(s, name@) ==> s[j].name != name@,
        decreases rows.len() - i,
    {
        if rows[i].name == *name {
            assert(s[i as int].name == name@);
            assert(has_name(s, name@));
            assert(find_name(s, name@) == i) by {
                let f = find_name(s, name@);
                assert(0 <= f < s.len());
                if f < i {
                    assert(s[f].name != name@);
                }
                if f > i {
                    assert(s[i as int].name != name@);
                }
            }
            return Some(i);
        }
        i += 1;
    }
    assert(!has_name(s, name@));
    None
}

impl TopologyState {
    /// Build the table from an initial snapshot. The first row of each name
    /// wins; all throughputs start at zero.
    pub fn new(rows: Vec<TopologyRow>) -> (s: TopologyState)
        ensures
            s@ == snapshot_spec(rows_view(rows@)),
            unique_names(s@),
    {
        let ghost orig = rows_view(rows@);
        let mut rest = rows;
        let mut out: Vec<TopologyRow> = Vec::new();
        let ghost k: int = 0;
        while rest.len() > 0
            invariant
                0 <= k <= orig.len(),
                rows_view(rest@) == orig.subrange(k, orig.len() as int),
                rows_view(out@) == snapshot_spec(orig.take(k)),
                unique_names(rows_view(out@)),
            decreases rest.len(),
        {
            let ghost prev = rest@;
            let mut r = rest.remove(0);
            proof {
                assert(rows_view(prev).len() == prev.len());
                assert(k < orig.len());
                assert(rest@ =~= prev.drop_first());
                lemma_rows_view_drop_first(prev);
                assert(rows_view(rest@) =~= orig.subrange(k, orig.len() as int).drop_first());
                assert(rows_view(rest@) =~= orig.subrange(k + 1, orig.len() as int));
                assert(r@ == rows_view(prev)[0]);
                assert(r@ == orig[k]);
                assert(orig.take(k + 1).drop_last() =~= orig.take(k));
                assert(orig.take(k + 1).last() == orig[k]);
            }
            match find_index(&out, &r.name) {
                Some(_) => {
                    proof {
                        assert(has_name(snapshot_spec(orig.take(k)), orig[k].name));
                        assert(rows_view(out@) == snapshot_spec(orig.take(k + 1)));
                    }
                },
                None => {
                    let ghost d = rows_view(out@);
                    r.throughput = Rate::zero();
                    proof {
                        assert(r@ =~= snapshot_row(orig[k]));
                    }
                    out.push(r);
                    proof {
                        lemma_rows_view_push(out@.drop_last(), out@.last());
                        assert(out@.drop_last().push(out@.last()) =~= out@);
                        assert(rows_view(out@) =~= d.push(snapshot_row(orig[k])));
                        assert(rows_view(out@) =~= snapshot_spec(orig.take(k + 1)));
                        assert(unique_names(rows_view(out@))) by {
                            let v = rows_view(out@);
                            assert forall|i: int, j: int| 0 <= i < j < v.len() implies v[i].name != v[j].name by {
                                if j == v.len() - 1 {
                                    assert(v[i] == d[i]);
                                    if v[i].name == v[j].name {
                                        assert(d[i].name == orig[k].name);
                                        assert(has_name(d, orig[k].name));
                                    }
                                } else {
                                    assert(v[i] == d[i]);
                                    assert(v[j] == d[j]);
                                }
                            }
                        }
                    }
                },
            }
            proof {
                k = k + 1;
            }
        }
        proof {
            assert(orig.take(orig.len() as int) =~= orig);
        }
        TopologyState { rows: out }
    }

    /// Merge one counter report into the table: recompute the rate of the row
    /// that carries `name`, or insert a fresh row when the name is new. Total:
    /// no input is rejected and no call fails.
    pub fn apply_update(&mut self, name: &String, events_processed: u64, errors: u64, observed_at: u64)
        requires
            unique_names(old(self)@),
        ensures
            final(self)@ == apply_spec(old(self)@, name@, events_processed, errors, observed_at),
            unique_names(final(self)@),
    {
        let ghost s0 = self@;
        match find_index(&self.rows, name) {
            Some(i) => {
                proof {
                    lemma_find_name(s0, name@);
                }
                let ghost m = merged_row(s0[i as int], events_processed, errors, observed_at);
                let row = &mut self.rows[i];
                let t0 = row.last_observed_at;
                let ep0 = row.events_processed;
                let er0 = row.errors;
                if observed_at > t0 {
                    if events_processed >= ep0 {
                        row.throughput = Rate {
                            events: events_processed - ep0,
                            interval_ms: observed_at - t0,
                        };
                    } else {
                        row.throughput = Rate::zero();
                    }
                    row.events_processed = events_processed;
                    row.errors = errors;
                    row.last_observed_at = observed_at;
                } else {
                    if events_processed > ep0 {
                        row.events_processed = events_processed;
                    }
                    if errors > er0 {
                        row.errors = errors;
                    }
                }
                proof {
                    assert(self.rows@[i as int]@ =~= m);
                    assert(self@ =~= s0.update(i as int, m));
                    assert(unique_names(self@)) by {
                        assert forall|p: int, q: int| 0 <= p < q < self@.len()
                            implies self@[p].name != self@[q].name by {
                            assert(self@[p].name == s0[p].name);
                            assert(self@[q].name == s0[q].name);
                        }
                    }
                }
            },
            None => {
                let fresh = TopologyRow {
                    name: name.clone(),
                    topology_type: String::new(),
                    events_processed: events_processed,
                    errors: errors,
                    throughput: Rate::zero(),
                    last_observed_at: observed_at,
                };
                proof {
                    assert(fresh@ =~= fresh_row(name@, events_processed, errors, observed_at));
                }
                self.rows.push(fresh);
                proof {
                    lemma_rows_view_push(self.rows@.drop_last(), self.rows@.last());
                    assert(self.rows@.drop_last().push(self.rows@.last()) =~= self.rows@);
                    assert(self@ =~= s0.push(fresh_row(name@, events_processed, errors, observed_at)));
                    assert(unique_names(self@)) by {
                        assert forall|p: int, q: int| 0 <= p < q < self@.len()
                            implies self@[p].name != self@[q].name by {
                            if q == self@.len() - 1 {
                                assert(self@[p] == s0[p]);
                                if self@[p].name == name@ {
                                    assert(has_name(s0, name@));
                                }
                            } else {
                                assert(self@[p] == s0[p]);
                                assert(self@[q] == s0[q]);
                            }
                        }
                    }
                }
            },
        }
    }

    /// The rows in insertion order, for rendering.
    pub fn rows(&self) -> (r: &Vec<TopologyRow>)
        ensures
            rows_view(r@) == self@,
    {
        &self.rows
    }

    /// How many stages the table holds.
    pub fn len(&self) -> (n: usize)
        ensures
            n == self@.len(),
    {
        self.rows.len()
    }
}

proof fn lemma_find_name_same_names(a: Seq<RowModel>, b: Seq<RowModel>, name: Seq<char>)
    requires
        a.len() == b.len(),
        forall|i: int| 0 <= i < a.len() ==> a[i].name == b[i].name,
    ensures
        find_name(a, name) == find_name(b, name),
    decreases a.len(),
{
    if a.len() > 0 && a[0].name != name {
        lemma_find_name_same_names(a.drop_first(), b.drop_first(), name);
    }
}

/// Throughput is exact. A strictly newer sample whose cumulative counter did
/// not shrink leaves the row with the rate "counter delta over elapsed time",
/// the unrounded fraction; and a name observed for the first time enters with
/// the zero rate.
pub proof fn lemma_throughput_exact(
    s: Seq<RowModel>,
    name: Seq<char>,
    events_processed: u64,
    errors: u64,
    observed_at: u64,
)
    requires
        unique_names(s),
    ensures
        (has_name(s, name) && events_processed >= s[find_name(s, name)].events_processed
            && observed_at > s[find_name(s, name)].last_observed_at) ==> apply_spec(
            s,
            name,
            events_processed,
            errors,
            observed_at,
        )[find_name(s, name)].throughput == (Rate {
            events: (events_processed - s[find_name(s, name)].events_processed) as u64,
            interval_ms: (observed_at - s[find_name(s, name)].last_observed_at) as u64,
        }),
        !has_name(s, name) ==> apply_spec(s, name, events_processed, errors, observed_at)
            .last().throughput == Rate::zero_spec(),
{
    lemma_find_name(s, name);
}

/// Counter regression. A strictly newer sample whose cumulative counter
/// shrank (the stage was restarted) yields the zero rate, and the smaller
/// value becomes the baseline for later deltas. A rate is a pair of unsigned
/// counts, so no negative throughput can ever be observed.
pub proof fn lemma_counter_regression(
    s: Seq<RowModel>,
    name: Seq<char>,
    events_processed: u64,
    errors: u64,
    observed_at: u64,
)
    requires
        unique_names(s),
        has_name(s, name),
        events_processed < s[find_name(s, name)].events_processed,
        observed_at > s[find_name(s, name)].last_observed_at,
    ensures
        apply_spec(s, name, events_processed, errors, observed_at)[find_name(s, name)].throughput
            == Rate::zero_spec(),
        apply_spec(s, name, events_processed, errors, observed_at)[find_name(s, name)]
            .events_processed == events_processed,
{
    lemma_find_name(s, name);
}

/// Idempotence: applying the same `(name, counters, observed_at)` report a
/// second time changes nothing — the second call lands in the "no elapsed
/// time" branch and every field already holds the reported value or a newer
/// one.
pub proof fn lemma_apply_idempotent(
    s: Seq<RowModel>,
    name: Seq<char>,
    events_processed: u64,
    errors: u64,
    observed_at: u64,
)
    requires
        unique_names(s),
    ensures
        apply_spec(
            apply_spec(s, name, events_processed, errors, observed_at),
            name,
            events_processed,
            errors,
            observed_at,
        ) == apply_spec(s, name, events_processed, errors, observed_at),
{
    lemma_find_name(s, name);
    let s1 = apply_spec(s, name, events_processed, errors, observed_at);
    if has_name(s, name) {
        let i = find_name(s, name);
        let m = merged_row(s[i], events_processed, errors, observed_at);
        assert(m.name == name);
        assert(s1 == s.update(i, m));
        assert(has_name(s1, name)) by {
            assert(s1[i].name == name);
        }
        lemma_find_name_same_names(s1, s, name);
        assert(find_name(s1, name) == i);
        assert(merged_row(m, events_processed, errors, observed_at) =~= m);
        assert(s1.update(i, m) =~= s1);
    } else {
        let f = fresh_row(name, events_processed, errors, observed_at);
        assert(s1 == s.push(f));
        let n = s.len() as int;
        assert(s1[n].name == name);
        assert(has_name(s1, name));
        lemma_find_name(s1, name);
        let i = find_name(s1, name);
        assert(0 <= i < s1.len());
        if i < n {
            assert(s1[i] == s[i]);
            assert(has_name(s, name));
        }
        assert(i == n);
        assert(merged_row(f, events_processed, errors, observed_at) =~= f);
        assert(s1.update(i, f) =~= s1);
    }
}

/// Row identity: an unknown name inserts exactly one new row, at the end,
/// leaving every other row untouched; a known name changes no row's name and
/// adds none. Either way the names stay unique.
pub proof fn lemma_row_identity(
    s: Seq<RowModel>,
    name: Seq<char>,
    events_processed: u64,
    errors: u64,
    observed_at: u64,
)
    requires
        unique_names(s),
    ensures
        !has_name(s, name) ==> apply_spec(s, name, events_processed, errors, observed_at).len()
            == s.len() + 1 && apply_spec(s, name, events_processed, errors, observed_at)[s.len() as int].name
            == name && (forall|j: int| 0 <= j < s.len() ==> apply_spec(
            s,
            name,
            events_processed,
            errors,
            observed_at,
        )[j] == s[j]),
        has_name(s, name) ==> apply_spec(s, name, events_processed, errors, observed_at).len()
            == s.len() && (forall|j: int| 0 <= j < s.len() ==> apply_spec(
            s,
            name,
            events_processed,
            errors,
            observed_at,
        )[j].name == s[j].name),
        unique_names(apply_spec(s, name, events_processed, errors, observed_at)),
{
    lemma_find_name(s, name);
    let s1 = apply_spec(s, name, events_processed, errors, observed_at);
    if has_name(s, name) {
        let i = find_name(s, name);
        assert(merged_row(s[i], events_processed, errors, observed_at).name == s[i].name);
        assert(forall|j: int| 0 <= j < s.len() ==> s1[j].name == s[j].name);
    } else {
        assert(unique_names(s1)) by {
            assert forall|p: int, q: int| 0 <= p < q < s1.len() implies s1[p].name != s1[q].name by {
                if q == s1.len() - 1 {
                    assert(s1[p] == s[p]);
                    if s1[p].name == name {
                        assert(has_name(s, name));
                    }
                } else {
                    assert(s1[p] == s[p]);
                    assert(s1[q] == s[q]);
                }
            }
        }
    }
}

/// A seeded table never repeats a name, and holds exactly the names of its
/// snapshot.
pub proof fn lemma_snapshot_names(s: Seq<RowModel>)
    ensures
        unique_names(snapshot_spec(s)),
        forall|n: Seq<char>| has_name(snapshot_spec(s), n) <==> has_name(s, n),
    decreases s.len(),
{
    if s.len() == 0 {
        assert forall|n: Seq<char>| has_name(snapshot_spec(s), n) <==> has_name(s, n) by {}
    } else {
        let t = s.drop_last();
        lemma_snapshot_names(t);
        let d = snapshot_spec(t);
        let w = snapshot_spec(s);
        assert forall|n: Seq<char>| has_name(w, n) <==> has_name(s, n) by {
            lemma_has_name_push_back(s, t, d, w, n);
        }
        if !has_name(d, s.last().name) {
            assert forall|i: int, j: int| 0 <= i < j < w.len() implies w[i].name != w[j].name by {
                if j == w.len() - 1 {
                    assert(w[i] == d[i]);
                    if w[i].name == w[j].name {
                        assert(has_name(d, s.last().name));
                    }
                }
            }
        }
    }
}

proof fn lemma_has_name_push_back(
    s: Seq<RowModel>,
    t: Seq<RowModel>,
    d: Seq<RowModel>,
    w: Seq<RowModel>,
    n: Seq<char>,
)
    requires
        s.len() > 0,
        t == s.drop_last(),
        d == snapshot_spec(t),
        w == snapshot_spec(s),
        forall|m: Seq<char>| has_name(d, m) <==> has_name(t, m),
    ensures
        has_name(w, n) <==> has_name(s, n),
{
    if has_name(d, s.last().name) {
        assert(w == d);
        if has_name(s, n) {
            let i = choose|i: int| 0 <= i < s.len() && s[i].name == n;
            if i == s.len() - 1 {
                assert(has_name(d, n));
            } else {
                assert(t[i] == s[i]);
                assert(has_name(t, n));
            }
        }
        if has_name(w, n) {
            assert(has_name(t, n));
            let i = choose|i: int| 0 <= i < t.len() && t[i].name == n;
            assert(s[i] == t[i]);
            assert(has_name(s, n));
        }
    } else {
        assert(w == d.push(snapshot_row(s.last())));
        if has_name(s, n) {
            let i = choose|i: int| 0 <= i < s.len() && s[i].name == n;
            if i == s.len() - 1 {
                assert(w[w.len() - 1].name == n);
                assert(has_name(w, n));
            } else {
                assert(t[i] == s[i]);
                assert(has_name(t, n));
                let j = choose|j: int| 0 <= j < d.len() && d[j].name == n;
                assert(w[j] == d[j]);
                assert(has_name(w, n));
            }
        }
        if has_name(w, n) {
            let i = choose|i: int| 0 <= i < w.len() && w[i].name == n;
            if i == w.len() - 1 {
                assert(s[s.len() - 1].name == n);
                assert(has_name(s, n));
            } else {
                assert(d[i] == w[i]);
                assert(has_name(t, n));
                let j = choose|j: int| 0 <= j < t.len() && t[j].name == n;
                assert(s[j] == t[j]);
                assert(has_name(s, n));
            }
        }
    }
}

} // verus!
