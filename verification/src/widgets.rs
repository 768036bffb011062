//! Frame layout: a pure function from the topology table, the transient UI
//! state and the terminal size to a renderable frame description. The drawing
//! layer only has to print what is here; every layout decision — clamping the
//! selection, scrolling the window, shrinking to a small terminal — is made
//! and proved here.

use vstd::prelude::*;
use crate::controller::UiState;
use crate::state::{rows_view, TopologyState};

verus! {

/// One renderable table line: the row's cells as plain values. The rate is
/// already divided out to whole events per second for display.
#[derive(PartialEq, Eq, Debug)]
pub struct FrameRow {
    pub name: String,
    pub topology_type: String,
    pub events_processed: u64,
    pub errors: u64,
    pub throughput_per_sec: u64,
}

/// A frame description: the visible window of the table, which of its lines
/// is highlighted, and whether the stale-connection banner is up.
#[derive(PartialEq, Eq, Debug)]
pub struct Frame {
    /// The degraded-session banner is shown.
    pub warning: bool,
    /// Index into the table of the first visible line.
    pub first_row: usize,
    /// Index into the table of the highlighted line.
    pub selected: usize,
    /// The visible lines, in the table's insertion order.
    pub rows: Vec<FrameRow>,
}

/// Lines the frame spends on things other than table rows: the title and the
/// column header, plus the warning banner when it is up.
pub open spec fn chrome_lines(warning: bool) -> int {
    if warning {
        3
    } else {
        2
    }
}

/// How many table lines fit in a terminal of this height; zero when the
/// terminal cannot even hold the chrome.
pub open spec fn body_capacity(height: u16, warning: bool) -> int {
    if height > chrome_lines(warning) {
        height - chrome_lines(warning)
    } else {
        0
    }
}

/// The selection clamped into the table: the last row when the table shrank
/// under it, zero when the table is empty.
pub open spec fn clamped_selected(selected: usize, len: int) -> int {
    if len == 0 {
        0
    } else if selected < len {
        selected as int
    } else {
        len - 1
    }
}

/// The first visible line: scroll just far enough that the selected line is
/// the last visible one.
pub open spec fn first_visible(sel: int, body: int) -> int {
    if body > 0 && sel >= body {
        sel + 1 - body
    } else {
        0
    }
}

/// How many lines are visible: what remains of the table from the first
/// visible line, capped by the capacity.
pub open spec fn visible_count(len: int, first: int, body: int) -> int {
    if len - first < body {
        len - first
    } else {
        body
    }
}

/// Lay out one frame. Reads the table and mutates nothing; total for every
/// terminal size including zero and for an empty table.
pub fn render(state: &TopologyState, ui: &UiState, degraded: bool) -> (f: Frame)
    ensures
        f.warning == degraded,
        f.selected == clamped_selected(ui.selected, state@.len() as int),
        f.first_row == first_visible(f.selected as int, body_capacity(ui.height, degraded)),
        f.rows@.len() == visible_count(
            state@.len() as int,
            f.first_row as int,
            body_capacity(ui.height, degraded),
        ),
        forall|j: int|
            0 <= j < f.rows@.len() ==> {
                let r = state@[f.first_row + j];
                &&& #[trigger] f.rows@[j].name@ == r.name
                &&& f.rows@[j].topology_type@ == r.topology_type
                &&& f.rows@[j].events_processed == r.events_processed
                &&& f.rows@[j].errors == r.errors
                &&& f.rows@[j].throughput_per_sec == r.throughput.per_second_spec()
            },
        f.rows@.len() > 0 ==> f.first_row <= f.selected < f.first_row + f.rows@.len(),
{
    let len = state.len();
    let chrome: u16 = if degraded {
        3
    } else {
        2
    };
    let body: usize = if ui.height > chrome {
        (ui.height - chrome) as usize
    } else {
        0
    };
    let sel: usize = if len == 0 {
        0
    } else if ui.selected < len {
        ui.selected
    } else {
        len - 1
    };
    let first: usize = if body > 0 && sel >= body {
        sel + 1 - body
    } else {
        0
    };
    let rows = state.rows();
    let mut out: Vec<FrameRow> = Vec::new();
    let mut i: usize = first;
    while i < len && out.len() < body
        invariant
            len == state@.len(),
            rows_view(rows@) == state@,
            first <= i <= len,
            i == first + out.len(),
            out.len() <= body,
            forall|j: int|
                0 <= j < out@.len() ==> {
                    let r = state@[first + j];
                    &&& #[trigger] out@[j].name@ == r.name
                    &&& out@[j].topology_type@ == r.topology_type
                    &&& out@[j].events_processed == r.events_processed
                    &&& out@[j].errors == r.errors
                    &&& out@[j].throughput_per_sec == r.throughput.per_second_spec()
                },
        decreases len - i,
    {
        let r = &rows[i];
        proof {
            assert(r@ == state@[i as int]);
        }
        out.push(
            FrameRow {
                name: r.name.clone(),
                topology_type: r.topology_type.clone(),
                events_processed: r.events_processed,
                errors: r.errors,
                throughput_per_sec: r.throughput.per_second(),
            },
        );
        i += 1;
    }
    Frame { warning: degraded, first_row: first, selected: sel, rows: out }
}

} // verus!
