//! The sequential playback engine.
//!
//! The engine drains an item sequence onto the host's audio output,
//! blocking in real time, one item at a time, and records one log event
//! per item. Opening the output device is an explicit, fallible probe: a
//! missing device is an expected outcome that aborts the session with a
//! single error event before any item is attempted. The engine itself is
//! a pure state machine; the caller performs the sink operations and the
//! real-time waits between its steps and reports each item's completion.

use vstd::prelude::*;

use crate::items::{item_line, item_line_string, items_view, ItemModel, PlaylistTypes};
use crate::logging::{EventStatus, LogEvent, LogEventModel};

verus! {

/// The phases of one playback session.
#[derive(Clone, Copy, PartialEq, Eq, Structural)]
pub enum EngineState {
    /// Created, not yet started.
    Idle,
    /// Acquiring the host audio output channel.
    DeviceOpening,
    /// Playing an audio item and blocking until it finishes.
    Draining,
    /// Sitting out a timed pause with the sink paused.
    Paused,
    /// Every item was played.
    Completed,
    /// The session ended early; no further item is attempted.
    Aborted,
}

/// The sequential scheduler for one playback session.
pub struct PlaybackEngine {
    items: Vec<PlaylistTypes>,
    pos: usize,
    state: EngineState,
    events: Vec<LogEvent>,
    elapsed_ms: u128,
}

impl PlaybackEngine {
    /// The queue this session plays.
    pub closed spec fn item_seq(self) -> Seq<ItemModel> {
        items_view(self.items@)
    }

    /// How many items have finished.
    pub closed spec fn position(self) -> int {
        self.pos as int
    }

    pub closed spec fn state_view(self) -> EngineState {
        self.state
    }

    /// The events emitted so far, in emission order.
    pub closed spec fn event_seq(self) -> Seq<LogEventModel> {
        self.events@.map_values(|e: LogEvent| e@)
    }

    /// The total reported blocking time, in milliseconds.
    pub closed spec fn elapsed_total(self) -> int {
        self.elapsed_ms as int
    }

    /// The first `n` events record the first `n` items: one success row
    /// per item, in order, labeled with the item's line.
    pub open spec fn events_match_prefix(self, n: int) -> bool {
        forall|i: int|
            0 <= i < n ==> (#[trigger] self.event_seq()[i]).item_label == item_line(
                self.item_seq()[i]) && self.event_seq()[i].status is Success
    }

    /// The phase in which an item is performed.
    pub open spec fn state_for(it: ItemModel) -> EngineState {
        match it {
            ItemModel::Audio(_) => EngineState::Draining,
            ItemModel::Pause(_) => EngineState::Paused,
        }
    }

    pub open spec fn wf(self) -> bool {
        &&& 0 <= self.position() <= self.item_seq().len()
        &&& self.event_seq().len() <= self.item_seq().len() + 1
        &&& self.elapsed_total() <= self.position() * (u64::MAX as int)
        &&& match self.state_view() {
            EngineState::Idle => self.position() == 0 && self.event_seq().len() == 0
                && self.elapsed_total() == 0,
            EngineState::DeviceOpening => self.position() == 0 && self.event_seq().len() == 0
                && self.elapsed_total() == 0,
            EngineState::Draining => self.position() < self.item_seq().len()
                && self.item_seq()[self.position()] is Audio && self.event_seq().len()
                == self.position() && self.events_match_prefix(self.position()),
            EngineState::Paused => self.position() < self.item_seq().len()
                && self.item_seq()[self.position()] is Pause && self.event_seq().len()
                == self.position() && self.events_match_prefix(self.position()),
            EngineState::Completed => self.position() == self.item_seq().len()
                && self.event_seq().len() == self.position() && self.events_match_prefix(
                self.position()),
            EngineState::Aborted => self.event_seq().len() == self.position() + 1
                && self.events_match_prefix(self.position()) && self.event_seq().last().status
                is Error,
        }
    }

    /// Creates an engine for one session over `items`.
    pub fn new(items: Vec<PlaylistTypes>) -> (e: PlaybackEngine)
        ensures
            e.wf(),
            e.state_view() == EngineState::Idle,
            e.item_seq() == items_view(items@),
            e.position() == 0,
            e.event_seq().len() == 0,
            e.elapsed_total() == 0,
    {
        let e = PlaybackEngine {
            items,
            pos: 0,
            state: EngineState::Idle,
            events: Vec::new(),
            elapsed_ms: 0,
        };
        proof {
            assert(e.event_seq() =~= Seq::<LogEventModel>::empty());
        }
        e
    }

    /// Begins the session: the engine turns to acquiring the audio
    /// output channel.
    pub fn start(&mut self)
        requires
            old(self).wf(),
            old(self).state_view() == EngineState::Idle,
        ensures
            final(self).wf(),
            final(self).state_view() == EngineState::DeviceOpening,
            final(self).item_seq() == old(self).item_seq(),
            final(self).position() == 0,
            final(self).event_seq().len() == 0,
            final(self).elapsed_total() == 0,
    {
        self.state = EngineState::DeviceOpening;
    }

    /// Resolves the device probe. On failure the session aborts before
    /// any item is attempted, with exactly one error event labeled
    /// `label`; on success the engine turns to the first item, or
    /// completes at once if the queue is empty.
    pub fn device_ready(&mut self, ok: bool, now_ns: u128, label: &str, client: &str)
        requires
            old(self).wf(),
            old(self).state_view() == EngineState::DeviceOpening,
        ensures
            final(self).wf(),
            final(self).item_seq() == old(self).item_seq(),
            final(self).position() == 0,
            final(self).elapsed_total() == 0,
            !ok ==> final(self).state_view() == EngineState::Aborted && final(self).event_seq()
                =~= seq![
                LogEventModel {
                    host_timestamp_ns: now_ns,
                    item_label: label@,
                    status: EventStatus::Error,
                    client_timestamp: client@,
                },
            ],
            ok && old(self).item_seq().len() == 0 ==> final(self).state_view()
                == EngineState::Completed && final(self).event_seq().len() == 0,
            ok && old(self).item_seq().len() > 0 ==> final(self).state_view()
                == PlaybackEngine::state_for(old(self).item_seq()[0]) && final(
                self).event_seq().len() == 0,
    {
        if ok {
            if self.items.len() == 0 {
                self.state = EngineState::Completed;
            } else {
                self.state = match &self.items[0] {
                    PlaylistTypes::AudioFiles(_) => EngineState::Draining,
                    PlaylistTypes::Pause(_) => EngineState::Paused,
                };
            }
        } else {
            let ghost before = self.event_seq();
            self.events.push(
                LogEvent {
                    host_timestamp_ns: now_ns,
                    item_label: label.to_owned(),
                    status: EventStatus::Error,
                    client_timestamp: client.to_owned(),
                },
            );
            self.state = EngineState::Aborted;
            proof {
                assert(self.event_seq() =~= before.push(
                    LogEventModel {
                        host_timestamp_ns: now_ns,
                        item_label: label@,
                        status: EventStatus::Error,
                        client_timestamp: client@,
                    },
                ));
            }
        }
    }

    /// The item the caller is to perform next, while one is due.
    pub fn current(&self) -> (r: Option<&PlaylistTypes>)
        requires
            self.wf(),
        ensures
            match r {
                Some(it) => (self.state_view() == EngineState::Draining || self.state_view()
                    == EngineState::Paused) && it@ == self.item_seq()[self.position()],
                None => self.state_view() != EngineState::Draining && self.state_view()
                    != EngineState::Paused,
            },
    {
        match self.state {
            EngineState::Draining | EngineState::Paused => Some(&self.items[self.pos]),
            _ => None,
        }
    }

    /// Records that the current item finished playing after
    /// `duration_ms` of real blocking, emits its success event, and
    /// turns to the next item (or completes).
    pub fn item_done(&mut self, now_ns: u128, duration_ms: u64, client: &str)
        requires
            old(self).wf(),
            old(self).state_view() == EngineState::Draining || old(self).state_view()
                == EngineState::Paused,
        ensures
            final(self).wf(),
            final(self).item_seq() == old(self).item_seq(),
            final(self).position() == old(self).position() + 1,
            final(self).elapsed_total() == old(self).elapsed_total() + duration_ms,
            final(self).event_seq() =~= old(self).event_seq().push(
                LogEventModel {
                    host_timestamp_ns: now_ns,
                    item_label: item_line(old(self).item_seq()[old(self).position()]),
                    status: EventStatus::Success,
                    client_timestamp: client@,
                },
            ),
            final(self).state_view() == if old(self).position() + 1 == old(
                self).item_seq().len() {
                EngineState::Completed
            } else {
                PlaybackEngine::state_for(old(self).item_seq()[old(self).position() + 1])
            },
    {
        let ghost before = *self;
        let label = item_line_string(&self.items[self.pos]);
        self.events.push(
            LogEvent {
                host_timestamp_ns: now_ns,
                item_label: label,
                status: EventStatus::Success,
                client_timestamp: client.to_owned(),
            },
        );
        proof {
            let p1 = self.pos as int + 1;
            assert(p1 <= 0x1_0000_0000_0000_0000int);
            assert(p1 * (u64::MAX as int) < u128::MAX as int) by (nonlinear_arith)
                requires
                    0 < p1 <= 0x1_0000_0000_0000_0000int,
            {}
            assert(self.elapsed_ms + duration_ms <= p1 * (u64::MAX as int));
        }
        self.elapsed_ms = self.elapsed_ms + duration_ms as u128;
        let n = self.items.len();
        self.pos = self.pos + 1;
        if self.pos == n {
            self.state = EngineState::Completed;
        } else {
            self.state = match &self.items[self.pos] {
                PlaylistTypes::AudioFiles(_) => EngineState::Draining,
                PlaylistTypes::Pause(_) => EngineState::Paused,
            };
        }
        proof {
            assert(self.event_seq() =~= before.event_seq().push(
                LogEventModel {
                    host_timestamp_ns: now_ns,
                    item_label: item_line(before.item_seq()[before.position()]),
                    status: EventStatus::Success,
                    client_timestamp: client@,
                },
            ));
            assert forall|i: int| 0 <= i < self.position() implies (
            #[trigger] self.event_seq()[i]).item_label == item_line(self.item_seq()[i])
                && self.event_seq()[i].status is Success by {
                if i < before.position() {
                    assert(self.event_seq()[i] == before.event_seq()[i]);
                }
            }
        }
    }

    /// Abandons the session after an unexpected failure while performing
    /// the current item: the remaining items are not attempted and one
    /// error event reports the failing item.
    pub fn abort(&mut self, now_ns: u128, client: &str)
        requires
            old(self).wf(),
            old(self).state_view() == EngineState::Draining || old(self).state_view()
                == EngineState::Paused,
        ensures
            final(self).wf(),
            final(self).item_seq() == old(self).item_seq(),
            final(self).position() == old(self).position(),
            final(self).elapsed_total() == old(self).elapsed_total(),
            final(self).state_view() == EngineState::Aborted,
            final(self).event_seq() =~= old(self).event_seq().push(
                LogEventModel {
                    host_timestamp_ns: now_ns,
                    item_label: item_line(old(self).item_seq()[old(self).position()]),
                    status: EventStatus::Error,
                    client_timestamp: client@,
                },
            ),
    {
        let ghost before = *self;
        let label = item_line_string(&self.items[self.pos]);
        self.events.push(
            LogEvent {
                host_timestamp_ns: now_ns,
                item_label: label,
                status: EventStatus::Error,
                client_timestamp: client.to_owned(),
            },
        );
        self.state = EngineState::Aborted;
        proof {
            assert(self.event_seq() =~= before.event_seq().push(
                LogEventModel {
                    host_timestamp_ns: now_ns,
                    item_label: item_line(before.item_seq()[before.position()]),
                    status: EventStatus::Error,
                    client_timestamp: client@,
                },
            ));
            assert forall|i: int| 0 <= i < self.position() implies (
            #[trigger] self.event_seq()[i]).item_label == item_line(self.item_seq()[i])
                && self.event_seq()[i].status is Success by {
                assert(self.event_seq()[i] == before.event_seq()[i]);
            }
        }
    }

    pub fn state(&self) -> (r: EngineState)
        ensures
            r == self.state_view(),
    {
        self.state
    }

    /// How many items have finished playing.
    pub fn played_count(&self) -> (r: usize)
        ensures
            r == self.position(),
    {
        self.pos
    }

    /// The total reported blocking time of the session, in milliseconds.
    pub fn total_elapsed_ms(&self) -> (r: u128)
        ensures
            r == self.elapsed_total(),
    {
        self.elapsed_ms
    }

    /// The events emitted so far, in emission order.
    pub fn events(&self) -> (r: &Vec<LogEvent>)
        ensures
            r@.map_values(|e: LogEvent| e@) == self.event_seq(),
    {
        &self.events
    }
}

/// The sum of the reported per-item blocking times.
pub open spec fn sum_durations(d: Seq<u64>) -> int
    decreases d.len(),
{
    if d.len() == 0 {
        0
    } else {
        sum_durations(d.drop_last()) + d.last()
    }
}

/// Drives a whole queue through one session in a single call, reporting
/// `durations[i]` as the blocking time of item `i`.
///
/// With the device available the session completes with one success
/// event per item, in queue order, and its total blocked time is the sum
/// of all item durations. With the device unavailable the session aborts
/// at once: exactly one error event, no item attempted, no time blocked.
pub fn run_queue(
    items: Vec<PlaylistTypes>,
    device_ok: bool,
    durations: &Vec<u64>,
    now_ns: u128,
    label: &str,
    client: &str,
) -> (e: PlaybackEngine)
    requires
        durations@.len() == items@.len(),
    ensures
        e.wf(),
        e.item_seq() == items_view(items@),
        !device_ok ==> e.state_view() == EngineState::Aborted && e.event_seq().len() == 1
            && e.event_seq()[0].status is Error && e.position() == 0 && e.elapsed_total() == 0,
        device_ok ==> e.state_view() == EngineState::Completed && e.position() == items@.len()
            && e.event_seq().len() == items@.len() && e.events_match_prefix(items@.len() as int)
            && e.elapsed_total() == sum_durations(durations@),
{
    let ghost iv = items_view(items@);
    let n = items.len();
    proof {
        assert(iv.len() == items@.len());
    }
    let mut engine = PlaybackEngine::new(items);
    engine.start();
    engine.device_ready(device_ok, now_ns, label, client);
    if !device_ok {
        return engine;
    }
    let mut i: usize = 0;
    proof {
        assert(durations@.take(0) =~= Seq::<u64>::empty());
    }
    while i < n
        invariant
            0 <= i <= n,
            n == iv.len(),
            durations@.len() == n,
            engine.wf(),
            engine.item_seq() == iv,
            engine.position() == i,
            engine.event_seq().len() == i,
            engine.events_match_prefix(i as int),
            engine.elapsed_total() == sum_durations(durations@.take(i as int)),
            engine.state_view() == if i == n {
                EngineState::Completed
            } else {
                PlaybackEngine::state_for(iv[i as int])
            },
        decreases n - i,
    {
        proof {
            match iv[i as int] {
                ItemModel::Audio(_) => {},
                ItemModel::Pause(_) => {},
            }
        }
        engine.item_done(now_ns, durations[i], client);
        proof {
            assert(durations@.take(i + 1).drop_last() =~= durations@.take(i as int));
            assert(durations@.take(i + 1).last() == durations@[i as int]);
        }
        i = i + 1;
    }
    proof {
        assert(durations@.take(n as int) =~= durations@);
    }
    engine
}

/// The operator-facing message for a missing or busy audio output
/// device.
pub fn device_error_message(e: &str) -> (r: String)
    ensures
        r@ == "Could not create OutputStream. Is there any audio output device available? - Error: "@
            + e@,
{
    let mut r =
        "Could not create OutputStream. Is there any audio output device available? - Error: ".to_owned();
    r.append(e);
    r
}

} // verus!
