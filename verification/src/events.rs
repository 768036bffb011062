//! The event-source multiplexer: terminal input, the render clock, and the
//! metrics stream each feed their own queue, and one `poll` hands the
//! controller a single ordered stream of tagged events.
//!
//! Delivery policy: a requested quit preempts everything; pending input comes
//! before anything else, so a burst of metric batches can never starve the
//! keyboard; the render tick comes next, then a connection-loss notice, then
//! metric batches, each source in arrival order.

use vstd::prelude::*;

verus! {

/// A key or resize notification from the terminal.
#[derive(Clone, Copy, PartialEq, Eq, Structural, Debug)]
pub enum InputEvent {
    Up,
    Down,
    Quit,
    Resize(u16, u16),
    Other,
}

/// One counter report from the metrics stream: cumulative values for one
/// stage, and the wall-clock time of the sample in milliseconds.
#[derive(PartialEq, Eq, Debug)]
pub struct MetricUpdate {
    pub name: String,
    pub events_processed: u64,
    pub errors: u64,
    pub observed_at: u64,
}

/// The mathematical image of a report: the name as a character sequence.
#[verifier::ext_equal]
pub struct UpdateModel {
    pub name: Seq<char>,
    pub events_processed: u64,
    pub errors: u64,
    pub observed_at: u64,
}

impl View for MetricUpdate {
    type V = UpdateModel;

    open spec fn view(&self) -> UpdateModel {
        UpdateModel {
            name: self.name@,
            events_processed: self.events_processed,
            errors: self.errors,
            observed_at: self.observed_at,
        }
    }
}

/// The image of one batch of reports.
pub open spec fn batch_view(b: Seq<MetricUpdate>) -> Seq<UpdateModel> {
    b.map_values(|u: MetricUpdate| u@)
}

/// The image of the queued batches.
pub open spec fn batches_view(v: Seq<Vec<MetricUpdate>>) -> Seq<Seq<UpdateModel>> {
    v.map_values(|b: Vec<MetricUpdate>| batch_view(b@))
}

/// One tagged event handed to the controller.
#[derive(PartialEq, Eq, Debug)]
pub enum Event {
    Input(InputEvent),
    Tick,
    MetricUpdate(Vec<MetricUpdate>),
    ConnectionLost,
    Shutdown,
}

/// The source a delivered event came from.
#[derive(Clone, Copy, PartialEq, Eq, Structural, Debug)]
pub enum EventKind {
    Input,
    Tick,
    MetricUpdate,
    ConnectionLost,
    Shutdown,
}

pub open spec fn kind_of(e: Event) -> EventKind {
    match e {
        Event::Input(_) => EventKind::Input,
        Event::Tick => EventKind::Tick,
        Event::MetricUpdate(_) => EventKind::MetricUpdate,
        Event::ConnectionLost => EventKind::ConnectionLost,
        Event::Shutdown => EventKind::Shutdown,
    }
}

/// The image of the multiplexer: what each source has pending.
#[verifier::ext_equal]
pub struct MuxModel {
    pub inputs: Seq<InputEvent>,
    pub updates: Seq<Seq<UpdateModel>>,
    pub tick_pending: bool,
    pub connection_lost_pending: bool,
    pub shutdown_pending: bool,
}

/// The source the next `poll` delivers from, given what is pending.
pub open spec fn pending_kind(m: MuxModel) -> Option<EventKind> {
    if m.shutdown_pending {
        Some(EventKind::Shutdown)
    } else if m.inputs.len() > 0 {
        Some(EventKind::Input)
    } else if m.tick_pending {
        Some(EventKind::Tick)
    } else if m.connection_lost_pending {
        Some(EventKind::ConnectionLost)
    } else if m.updates.len() > 0 {
        Some(EventKind::MetricUpdate)
    } else {
        None
    }
}

/// Merges the independently timed producers into one ordered stream. The
/// multiplexer only queues and tags; it applies no business logic beyond
/// turning the quit key into a pending shutdown.
pub struct Multiplexer {
    inputs: Vec<InputEvent>,
    updates: Vec<Vec<MetricUpdate>>,
    tick_pending: bool,
    connection_lost_pending: bool,
    shutdown_pending: bool,
}

impl View for Multiplexer {
    type V = MuxModel;

    closed spec fn view(&self) -> MuxModel {
        MuxModel {
            inputs: self.inputs@,
            updates: batches_view(self.updates@),
            tick_pending: self.tick_pending,
            connection_lost_pending: self.connection_lost_pending,
            shutdown_pending: self.shutdown_pending,
        }
    }
}

proof fn lemma_batches_view_drop_first(v: Seq<Vec<MetricUpdate>>)
    requires
        v.len() > 0,
    ensures
        batches_view(v.drop_first()) =~= batches_view(v).drop_first(),
{
}

proof fn lemma_batches_view_push(v: Seq<Vec<MetricUpdate>>, b: Vec<MetricUpdate>)
    ensures
        batches_view(v.push(b)) =~= batches_view(v).push(batch_view(b@)),
{
}

impl Multiplexer {
    /// An empty multiplexer: nothing pending anywhere.
    pub fn new() -> (m: Multiplexer)
        ensures
            m@ == (MuxModel {
                inputs: Seq::empty(),
                updates: Seq::empty(),
                tick_pending: false,
                connection_lost_pending: false,
                shutdown_pending: false,
            }),
    {
        let m = Multiplexer {
            inputs: Vec::new(),
            updates: Vec::new(),
            tick_pending: false,
            connection_lost_pending: false,
            shutdown_pending: false,
        };
        proof {
            assert(m@ =~= MuxModel {
                inputs: Seq::empty(),
                updates: Seq::empty(),
                tick_pending: false,
                connection_lost_pending: false,
                shutdown_pending: false,
            });
        }
        m
    }

    /// Queue a terminal event. The quit key does not enter the input queue:
    /// it becomes the pending shutdown, so it is honored ahead of everything
    /// already queued.
    pub fn push_input(&mut self, e: InputEvent)
        ensures
            e == InputEvent::Quit ==> final(self)@ == (MuxModel {
                shutdown_pending: true,
                ..old(self)@
            }),
            e != InputEvent::Quit ==> final(self)@ == (MuxModel {
                inputs: old(self)@.inputs.push(e),
                ..old(self)@
            }),
    {
        match e {
            InputEvent::Quit => {
                self.shutdown_pending = true;
                proof {
                    assert(self@ =~= (MuxModel { shutdown_pending: true, ..old(self)@ }));
                }
            },
            _ => {
                self.inputs.push(e);
                proof {
                    assert(self@ =~= (MuxModel { inputs: old(self)@.inputs.push(e), ..old(self)@ }));
                }
            },
        }
    }

    /// Note that the render clock fired. Ticks coalesce: one redraw serves
    /// however many intervals elapsed while the queue was busy.
    pub fn push_tick(&mut self)
        ensures
            final(self)@ == (MuxModel { tick_pending: true, ..old(self)@ }),
    {
        self.tick_pending = true;
        proof {
            assert(self@ =~= (MuxModel { tick_pending: true, ..old(self)@ }));
        }
    }

    /// Queue one batch of counter reports from the metrics stream.
    pub fn push_update(&mut self, batch: Vec<MetricUpdate>)
        ensures
            final(self)@ == (MuxModel {
                updates: old(self)@.updates.push(batch_view(batch@)),
                ..old(self)@
            }),
    {
        let ghost b = batch@;
        self.updates.push(batch);
        proof {
            lemma_batches_view_push(old(self).updates@, old(self).updates@.last());
            assert(self.updates@ == old(self).updates@.push(self.updates@.last()));
            lemma_batches_view_push(old(self).updates@, self.updates@.last());
            assert(self@ =~= (MuxModel { updates: old(self)@.updates.push(batch_view(b)), ..old(self)@ }));
        }
    }

    /// Note that the transport reported the server unreachable.
    pub fn push_connection_lost(&mut self)
        ensures
            final(self)@ == (MuxModel { connection_lost_pending: true, ..old(self)@ }),
    {
        self.connection_lost_pending = true;
        proof {
            assert(self@ =~= (MuxModel { connection_lost_pending: true, ..old(self)@ }));
        }
    }

    /// Deliver the next event, or `None` when nothing is pending. The choice
    /// of source is exactly `pending_kind`; each queue is drained in arrival
    /// order; delivering consumes what it delivers and touches nothing else.
    pub fn poll(&mut self) -> (e: Option<Event>)
        ensures
            ({
                let m = old(self)@;
                let m2 = final(self)@;
                &&& (e matches Some(ev) ==> Some(kind_of(ev)) == pending_kind(m))
                &&& (e is None <==> pending_kind(m) is None)
                &&& (e is None ==> m2 == m)
                &&& (m.shutdown_pending ==> e == Some(Event::Shutdown) && m2 == (MuxModel {
                    shutdown_pending: false,
                    ..m
                }))
                &&& (pending_kind(m) == Some(EventKind::Input) ==> e == Some(
                    Event::Input(m.inputs[0]),
                ) && m2 == (MuxModel { inputs: m.inputs.drop_first(), ..m }))
                &&& (pending_kind(m) == Some(EventKind::Tick) ==> e == Some(Event::Tick) && m2 == (
                MuxModel { tick_pending: false, ..m }))
                &&& (pending_kind(m) == Some(EventKind::ConnectionLost) ==> e == Some(
                    Event::ConnectionLost,
                ) && m2 == (MuxModel { connection_lost_pending: false, ..m }))
                &&& (pending_kind(m) == Some(EventKind::MetricUpdate) ==> (e matches Some(
                    Event::MetricUpdate(b),
                ) && batch_view(b@) == m.updates[0]) && m2 == (MuxModel {
                    updates: m.updates.drop_first(),
                    ..m
                }))
            }),
    {
        if self.shutdown_pending {
            self.shutdown_pending = false;
            proof {
                assert(self@ =~= (MuxModel { shutdown_pending: false, ..old(self)@ }));
            }
            Some(Event::Shutdown)
        } else if self.inputs.len() > 0 {
            let k = self.inputs.remove(0);
            proof {
                assert(self@ =~= (MuxModel { inputs: old(self)@.inputs.drop_first(), ..old(self)@ }));
            }
            Some(Event::Input(k))
        } else if self.tick_pending {
            self.tick_pending = false;
            proof {
                assert(self@ =~= (MuxModel { tick_pending: false, ..old(self)@ }));
            }
            Some(Event::Tick)
        } else if self.connection_lost_pending {
            self.connection_lost_pending = false;
            proof {
                assert(self@ =~= (MuxModel { connection_lost_pending: false, ..old(self)@ }));
            }
            Some(Event::ConnectionLost)
        } else if self.updates.len() > 0 {
            let ghost v0 = self.updates@;
            let b = self.updates.remove(0);
            proof {
                lemma_batches_view_drop_first(v0);
                assert(self.updates@ =~= v0.drop_first());
                assert(batches_view(self.updates@) =~= batches_view(v0).drop_first());
                assert(self@ =~= (MuxModel { updates: old(self)@.updates.drop_first(), ..old(self)@ }));
                assert(batch_view(b@) == old(self)@.updates[0]);
            }
            Some(Event::MetricUpdate(b))
        } else {
            None
        }
    }
}

/// Fairness: however many metric batches are queued, a pending input is
/// delivered before the next tick — a burst of updates can never starve the
/// keyboard past one render interval.
pub proof fn lemma_input_never_starved(m: MuxModel)
    requires
        !m.shutdown_pending,
        m.inputs.len() > 0,
    ensures
        pending_kind(m) == Some(EventKind::Input),
{
}

/// A requested quit preempts everything: whatever else is pending, the next
/// delivered event is the shutdown.
pub proof fn lemma_shutdown_preempts(m: MuxModel)
    requires
        m.shutdown_pending,
    ensures
        pending_kind(m) == Some(EventKind::Shutdown),
{
}

} // verus!
