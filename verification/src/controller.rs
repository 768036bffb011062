//! The dashboard controller: a state machine over the session phases that
//! owns the topology table, consumes the multiplexed event stream, and tells
//! the caller what to do next — redraw, exit, or nothing.

use vstd::prelude::*;
use crate::events::{batch_view, Event, InputEvent, MetricUpdate, UpdateModel};
use crate::state::{
    apply_spec, rows_view, snapshot_spec, unique_names, RowModel, TopologyRow, TopologyState,
};

verus! {

/// The terminal width and height assumed until the first resize notice.
pub const DEFAULT_WIDTH: u16 = 80;

pub const DEFAULT_HEIGHT: u16 = 24;

/// The session phases. `Connecting` is left by the startup outcome alone;
/// `Degraded` keeps the last-known table visible after the connection is
/// lost; `Terminated` ends the loop.
#[derive(Clone, Copy, PartialEq, Eq, Structural, Debug)]
pub enum Phase {
    Connecting,
    Running,
    Degraded,
    Terminated,
}

/// What the process reports when the session ends: a clean quit, or a server
/// that could not be reached at startup.
#[derive(Clone, Copy, PartialEq, Eq, Structural, Debug)]
pub enum ExitStatus {
    Clean,
    Unavailable,
}

/// What the startup probe and initial topology query came back with. The
/// caller performs both; the controller only decides.
pub enum StartupOutcome {
    /// The health probe failed or timed out.
    Unreachable,
    /// The server answered the probe but the topology query failed.
    SnapshotFailed,
    /// The initial topology, one row per stage.
    Snapshot(Vec<TopologyRow>),
}

/// Transient, UI-only state: the highlighted row and the terminal size.
/// Never part of the topology table.
#[derive(Clone, Copy, PartialEq, Eq, Structural, Debug)]
pub struct UiState {
    pub selected: usize,
    pub width: u16,
    pub height: u16,
}

/// What the caller must do after handing the controller an event.
#[derive(Clone, Copy, PartialEq, Eq, Structural, Debug)]
pub enum Action {
    Idle,
    Redraw,
    Exit(ExitStatus),
}

/// The image of the controller.
#[verifier::ext_equal]
pub struct ControllerModel {
    pub phase: Phase,
    pub rows: Seq<RowModel>,
    pub ui: UiState,
    pub exit_status: Option<ExitStatus>,
}

/// The controller's invariant: row names stay unique and the selection stays
/// inside the table (at zero while the table is empty).
pub open spec fn wf(m: ControllerModel) -> bool {
    &&& unique_names(m.rows)
    &&& m.rows.len() == 0 ==> m.ui.selected == 0
    &&& m.rows.len() > 0 ==> m.ui.selected < m.rows.len()
}

/// The phases in which the controller consumes events.
pub open spec fn active(p: Phase) -> bool {
    p == Phase::Running || p == Phase::Degraded
}

/// What a whole batch of counter reports does to the table, first report
/// first.
pub open spec fn apply_batch_spec(s: Seq<RowModel>, b: Seq<UpdateModel>) -> Seq<RowModel>
    decreases b.len(),
{
    if b.len() == 0 {
        s
    } else {
        apply_batch_spec(
            apply_spec(s, b[0].name, b[0].events_processed, b[0].errors, b[0].observed_at),
            b.drop_first(),
        )
    }
}

/// Owns the topology table and the transient UI state; the single writer of
/// both.
pub struct Controller {
    phase: Phase,
    topology: TopologyState,
    ui: UiState,
    exit_status: Option<ExitStatus>,
}

impl View for Controller {
    type V = ControllerModel;

    closed spec fn view(&self) -> ControllerModel {
        ControllerModel {
            phase: self.phase,
            rows: self.topology@,
            ui: self.ui,
            exit_status: self.exit_status,
        }
    }
}

impl Controller {
    /// A fresh session: connecting, empty table, default terminal size.
    pub fn new() -> (c: Controller)
        ensures
            c@ == (ControllerModel {
                phase: Phase::Connecting,
                rows: Seq::empty(),
                ui: UiState { selected: 0, width: DEFAULT_WIDTH, height: DEFAULT_HEIGHT },
                exit_status: None,
            }),
            wf(c@),
    {
        let c = Controller {
            phase: Phase::Connecting,
            topology: TopologyState::new(Vec::new()),
            ui: UiState { selected: 0, width: DEFAULT_WIDTH, height: DEFAULT_HEIGHT },
            exit_status: None,
        };
        proof {
            assert(rows_view(Seq::<TopologyRow>::empty()) =~= Seq::<RowModel>::empty());
            assert(c@ =~= (ControllerModel {
                phase: Phase::Connecting,
                rows: Seq::empty(),
                ui: UiState { selected: 0, width: DEFAULT_WIDTH, height: DEFAULT_HEIGHT },
                exit_status: None,
            }));
        }
        c
    }

    /// Leave `Connecting` on the startup outcome: a snapshot seeds the table
    /// and starts the session; either failure terminates it before anything
    /// is drawn, with the "unavailable" status.
    pub fn start(&mut self, outcome: StartupOutcome)
        requires
            old(self)@.phase == Phase::Connecting,
            wf(old(self)@),
        ensures
            outcome matches StartupOutcome::Snapshot(rows) ==> final(self)@ == (ControllerModel {
                phase: Phase::Running,
                rows: snapshot_spec(rows_view(rows@)),
                ui: UiState { selected: 0, ..old(self)@.ui },
                ..old(self)@
            }),
            !(outcome matches StartupOutcome::Snapshot(_)) ==> final(self)@ == (ControllerModel {
                phase: Phase::Terminated,
                exit_status: Some(ExitStatus::Unavailable),
                ..old(self)@
            }),
            wf(final(self)@),
    {
        match outcome {
            StartupOutcome::Snapshot(rows) => {
                self.topology = TopologyState::new(rows);
                self.phase = Phase::Running;
                self.ui.selected = 0;
                proof {
                    assert(self@ =~= (ControllerModel {
                        phase: Phase::Running,
                        rows: self.topology@,
                        ui: UiState { selected: 0, ..old(self)@.ui },
                        ..old(self)@
                    }));
                }
            },
            _ => {
                self.phase = Phase::Terminated;
                self.exit_status = Some(ExitStatus::Unavailable);
                proof {
                    assert(self@ =~= (ControllerModel {
                        phase: Phase::Terminated,
                        exit_status: Some(ExitStatus::Unavailable),
                        ..old(self)@
                    }));
                }
            },
        }
    }

    /// Consume one multiplexed event.
    ///
    /// While active: a tick asks for a redraw and mutates nothing, so the
    /// frame rate is decoupled from the data rate; a batch of counter reports
    /// is merged into the table and asks for nothing; navigation and resize
    /// keys touch only the transient UI state; a lost connection degrades the
    /// session but keeps the table; a shutdown terminates with the clean
    /// status. Outside the active phases every event is ignored, so nothing
    /// is drawn before startup or after termination.
    pub fn handle_event(&mut self, e: Event) -> (a: Action)
        requires
            wf(old(self)@),
        ensures
            wf(final(self)@),
            ({
                let m = old(self)@;
                let m2 = final(self)@;
                &&& !active(m.phase) ==> m2 == m && a == Action::Idle
                &&& active(m.phase) ==> {
                    &&& e == Event::Tick ==> m2 == m && a == Action::Redraw
                    &&& e == Event::Shutdown || e == Event::Input(InputEvent::Quit) ==> m2 == (
                    ControllerModel {
                        phase: Phase::Terminated,
                        exit_status: Some(ExitStatus::Clean),
                        ..m
                    }) && a == Action::Exit(ExitStatus::Clean)
                    &&& e == Event::ConnectionLost ==> m2 == (ControllerModel {
                        phase: Phase::Degraded,
                        ..m
                    }) && a == Action::Idle
                    &&& (e matches Event::MetricUpdate(batch) ==> m2 == (ControllerModel {
                        rows: apply_batch_spec(m.rows, batch_view(batch@)),
                        ..m
                    }) && a == Action::Idle)
                    &&& e == Event::Input(InputEvent::Up) ==> m2 == (ControllerModel {
                        ui: UiState {
                            selected: if m.ui.selected > 0 {
                                (m.ui.selected - 1) as usize
                            } else {
                                0
                            },
                            ..m.ui
                        },
                        ..m
                    }) && a == Action::Idle
                    &&& e == Event::Input(InputEvent::Down) ==> m2 == (ControllerModel {
                        ui: UiState {
                            selected: if m.ui.selected + 1 < m.rows.len() {
                                (m.ui.selected + 1) as usize
                            } else {
                                m.ui.selected
                            },
                            ..m.ui
                        },
                        ..m
                    }) && a == Action::Idle
                    &&& (e matches Event::Input(InputEvent::Resize(w, h)) ==> m2
                        == (ControllerModel {
                        ui: UiState { width: w, height: h, ..m.ui },
                        ..m
                    }) && a == Action::Idle)
                    &&& e == Event::Input(InputEvent::Other) ==> m2 == m && a == Action::Idle
                }
            }),
    {
        let ghost m = self@;
        let active_now = match self.phase {
            Phase::Running => true,
            Phase::Degraded => true,
            _ => false,
        };
        if !active_now {
            proof {
                assert(self@ =~= m);
            }
            return Action::Idle;
        }
        match e {
            Event::Tick => {
                proof {
                    assert(self@ =~= m);
                }
                Action::Redraw
            },
            Event::Shutdown => {
                self.phase = Phase::Terminated;
                self.exit_status = Some(ExitStatus::Clean);
                proof {
                    assert(self@ =~= (ControllerModel {
                        phase: Phase::Terminated,
                        exit_status: Some(ExitStatus::Clean),
                        ..m
                    }));
                }
                Action::Exit(ExitStatus::Clean)
            },
            Event::ConnectionLost => {
                self.phase = Phase::Degraded;
                proof {
                    assert(self@ =~= (ControllerModel { phase: Phase::Degraded, ..m }));
                }
                Action::Idle
            },
            Event::MetricUpdate(batch) => {
                self.apply_batch(&batch);
                proof {
                    assert(self@ =~= (ControllerModel {
                        rows: apply_batch_spec(m.rows, batch_view(batch@)),
                        ..m
                    }));
                }
                Action::Idle
            },
            Event::Input(k) => {
                match k {
                    InputEvent::Quit => {
                        self.phase = Phase::Terminated;
                        self.exit_status = Some(ExitStatus::Clean);
                        proof {
                            assert(self@ =~= (ControllerModel {
                                phase: Phase::Terminated,
                                exit_status: Some(ExitStatus::Clean),
                                ..m
                            }));
                        }
                        Action::Exit(ExitStatus::Clean)
                    },
                    InputEvent::Up => {
                        if self.ui.selected > 0 {
                            self.ui.selected = self.ui.selected - 1;
                        }
                        proof {
                            assert(self@ =~= (ControllerModel {
                                ui: UiState {
                                    selected: if m.ui.selected > 0 {
                                        (m.ui.selected - 1) as usize
                                    } else {
                                        0
                                    },
                                    ..m.ui
                                },
                                ..m
                            }));
                        }
                        Action::Idle
                    },
                    InputEvent::Down => {
                        let len = self.topology.len();
                        if len > 0 && self.ui.selected < len - 1 {
                            self.ui.selected = self.ui.selected + 1;
                        }
                        proof {
                            assert(self@ =~= (ControllerModel {
                                ui: UiState {
                                    selected: if m.ui.selected + 1 < m.rows.len() {
                                        (m.ui.selected + 1) as usize
                                    } else {
                                        m.ui.selected
                                    },
                                    ..m.ui
                                },
                                ..m
                            }));
                        }
                        Action::Idle
                    },
                    InputEvent::Resize(w, h) => {
                        self.ui.width = w;
                        self.ui.height = h;
                        proof {
                            assert(self@ =~= (ControllerModel {
                                ui: UiState { width: w, height: h, ..m.ui },
                                ..m
                            }));
                        }
                        Action::Idle
                    },
                    InputEvent::Other => {
                        proof {
                            assert(self@ =~= m);
                        }
                        Action::Idle
                    },
                }
            },
        }
    }

    /// Merge a whole batch, first report first. The table only ever grows,
    /// so the selection stays valid.
    fn apply_batch(&mut self, batch: &Vec<MetricUpdate>)
        requires
            wf(old(self)@),
        ensures
            final(self)@ == (ControllerModel {
                rows: apply_batch_spec(old(self)@.rows, batch_view(batch@)),
                ..old(self)@
            }),
            wf(final(self)@),
    {
        let ghost m = self@;
        let ghost full = batch_view(batch@);
        proof {
            assert(full.skip(0) =~= full);
        }
        let mut i: usize = 0;
        while i < batch.len()
            invariant
                i <= batch.len(),
                full == batch_view(batch@),
                full.len() == batch@.len(),
                unique_names(self.topology@),
                self.topology@.len() >= m.rows.len(),
                apply_batch_spec(m.rows, full) == apply_batch_spec(self.topology@, full.skip(i as int)),
                self.phase == m.phase,
                self.ui == m.ui,
                self.exit_status == m.exit_status,
            decreases batch.len() - i,
        {
            let ghost cur = self.topology@;
            let ghost rest = full.skip(i as int);
            let u = &batch[i];
            proof {
                assert(rest[0] == full[i as int]);
                assert(full[i as int] == batch@[i as int]@);
                crate::state::lemma_row_identity(
                    cur,
                    u.name@,
                    u.events_processed,
                    u.errors,
                    u.observed_at,
                );
            }
            self.topology.apply_update(&u.name, u.events_processed, u.errors, u.observed_at);
            proof {
                assert(rest.drop_first() =~= full.skip(i + 1));
                assert(apply_batch_spec(cur, rest) == apply_batch_spec(
                    self.topology@,
                    full.skip(i + 1),
                ));
            }
            i += 1;
        }
        proof {
            assert(full.skip(batch@.len() as int) =~= Seq::<UpdateModel>::empty());
            assert(apply_batch_spec(m.rows, full) == self.topology@);
            assert(self@ =~= (ControllerModel { rows: apply_batch_spec(m.rows, full), ..m }));
        }
    }

    /// The current phase.
    pub fn phase(&self) -> (p: Phase)
        ensures
            p == self@.phase,
    {
        self.phase
    }

    /// The status to report when the session has terminated.
    pub fn exit_status(&self) -> (r: Option<ExitStatus>)
        ensures
            r == self@.exit_status,
    {
        self.exit_status
    }

    /// The topology table, for rendering.
    pub fn topology(&self) -> (t: &TopologyState)
        ensures
            t@ == self@.rows,
    {
        &self.topology
    }

    /// The transient UI state, for rendering.
    pub fn ui(&self) -> (u: UiState)
        ensures
            u == self@.ui,
    {
        self.ui
    }
}

} // verus!
