//! Debouncing of keep-alive signals into touch-needed / touch-cleared edges.
use vstd::prelude::*;

use crate::command::{Command, CommandKind, Decoded, Status};
use crate::message::Message;
use crate::packet::Channel;

verus! {

/// How long, in milliseconds, a touch stays needed after the last keep-alive
/// that asked for it.
pub const HYSTERESIS_MS: u64 = 400;

/// The deadline that a keep-alive at `now` sets, in milliseconds.
pub open spec fn deadline_after(now: u64) -> u64 {
    if now as int + HYSTERESIS_MS > u64::MAX {
        u64::MAX
    } else {
        (now + HYSTERESIS_MS) as u64
    }
}

/// Hysteresis state of one device: while a touch is needed, the instant at
/// which it stops being needed unless refreshed, and the channel that asked.
#[derive(Clone, Copy, Debug)]
pub struct TouchState {
    pub deadline: Option<u64>,
    pub channel: Channel,
}

/// What a `TouchState` holds, with the channel as its bytes.
pub struct TouchView {
    pub deadline: Option<u64>,
    pub channel: Seq<u8>,
}

impl View for TouchState {
    type V = TouchView;

    open spec fn view(&self) -> TouchView {
        TouchView { deadline: self.deadline, channel: self.channel@ }
    }
}

/// The state after a message received at `now`, and the edge it emits:
/// `Some(true)` when a touch becomes needed, `Some(false)` when it stops
/// being needed.
pub open spec fn message_transition(s: TouchView, channel: Seq<u8>, command: Decoded, now: u64) -> (
    TouchView,
    Option<bool>,
) {
    match command {
        Decoded::KeepAlive(Status::UserPresenceNeeded) => (
            TouchView { deadline: Some(deadline_after(now)), channel },
            if s.deadline is None {
                Some(true)
            } else {
                None
            },
        ),
        Decoded::KeepAlive(Status::Processing) => if s.deadline is Some && channel == s.channel {
            (TouchView { deadline: Some(deadline_after(now)), channel: s.channel }, None)
        } else {
            (s, None)
        },
        Decoded::Other(CommandKind::Cbor) => if s.deadline is Some {
            (TouchView { deadline: None, channel: s.channel }, Some(false))
        } else {
            (s, None)
        },
        _ => (s, None),
    }
}

/// The state after a read that brought no message at `now`, and the edge
/// it emits: past the deadline the touch stops being needed.
pub open spec fn silence_transition(s: TouchView, now: u64) -> (TouchView, Option<bool>) {
    match s.deadline {
        Some(d) => if now >= d {
            (TouchView { deadline: None, channel: s.channel }, Some(false))
        } else {
            (s, None)
        },
        None => (s, None),
    }
}

impl TouchState {
    /// No touch needed.
    pub fn new() -> (r: TouchState)
        ensures
            r@.deadline is None,
    {
        TouchState { deadline: None, channel: Channel([0, 0, 0, 0]) }
    }

    /// Whether a touch is needed now.
    pub fn is_needed(&self) -> (r: bool)
        ensures
            r == self@.deadline is Some,
    {
        self.deadline.is_some()
    }

    /// Feeds a message received at `now`; returns the edge it emits.
    pub fn on_message(&mut self, message: &Message, now: u64) -> (r: Option<bool>)
        ensures
            (final(self)@, r) == message_transition(
                old(self)@,
                message.channel@,
                message.command.decoded(),
                now,
            ),
    {
        match &message.command {
            Command::KeepAlive(Status::UserPresenceNeeded) => {
                let opened = self.deadline.is_none();
                self.deadline = Some(now.saturating_add(HYSTERESIS_MS));
                self.channel = message.channel;
                if opened {
                    Some(true)
                } else {
                    None
                }
            },
            Command::KeepAlive(Status::Processing) => {
                if self.deadline.is_some() && message.channel == self.channel {
                    self.deadline = Some(now.saturating_add(HYSTERESIS_MS));
                }
                None
            },
            Command::Other { kind: CommandKind::Cbor, payload: _ } => {
                if self.deadline.is_some() {
                    self.deadline = None;
                    Some(false)
                } else {
                    None
                }
            },
            _ => None,
        }
    }

    /// Checks the deadline after a read that brought no message at `now`;
    /// returns the edge it emits.
    pub fn on_silence(&mut self, now: u64) -> (r: Option<bool>)
        ensures
            (final(self)@, r) == silence_transition(old(self)@, now),
    {
        match self.deadline {
            Some(d) => {
                if now >= d {
                    self.deadline = None;
                    Some(false)
                } else {
                    None
                }
            },
            None => None,
        }
    }
}

/// What a device reader hands the state machine: a message, or a read that
/// brought none.
pub enum Signal {
    Message { channel: Seq<u8>, command: Decoded, now: u64 },
    Silence { now: u64 },
}

/// The state after one signal, and the edge it emits.
pub open spec fn signal_transition(s: TouchView, signal: Signal) -> (TouchView, Option<bool>) {
    match signal {
        Signal::Message { channel, command, now } => message_transition(s, channel, command, now),
        Signal::Silence { now } => silence_transition(s, now),
    }
}

/// The state after a run of signals, and the edges emitted, in order.
pub open spec fn run(s: TouchView, signals: Seq<Signal>) -> (TouchView, Seq<bool>)
    decreases signals.len(),
{
    if signals.len() == 0 {
        (s, Seq::empty())
    } else {
        let (t, e) = signal_transition(s, signals[0]);
        let (u, rest) = run(t, signals.drop_first());
        match e {
            Some(x) => (u, seq![x] + rest),
            None => (u, rest),
        }
    }
}

/// Edges alternate: the first edge of a run differs from the state the run
/// starts in, no two consecutive edges are equal, and the last edge is the
/// state the run ends in.
pub proof fn lemma_edges_alternate(s: TouchView, signals: Seq<Signal>)
    ensures
        ({
            let (u, edges) = run(s, signals);
            &&& edges.len() > 0 ==> edges[0] != (s.deadline is Some)
            &&& edges.len() > 0 ==> edges.last() == (u.deadline is Some)
            &&& edges.len() == 0 ==> (u.deadline is Some) == (s.deadline is Some)
            &&& forall|i: int| 0 <= i < edges.len() - 1 ==> #[trigger] edges[i] != edges[i + 1]
        }),
    decreases signals.len(),
{
    if signals.len() > 0 {
        let (t, e) = signal_transition(s, signals[0]);
        lemma_edges_alternate(t, signals.drop_first());
        let (u, rest) = run(t, signals.drop_first());
        if let Some(x) = e {
            let edges = seq![x] + rest;
            assert forall|i: int| 0 <= i < edges.len() - 1 implies #[trigger] edges[i] != edges[i + 1] by {
                if i > 0 {
                    assert(edges[i] == rest[i - 1]);
                    assert(edges[i + 1] == rest[i]);
                }
            }
        }
    }
}

/// A keep-alive asking for user presence, with no touch needed, emits that
/// a touch is needed.
pub proof fn lemma_open(s: TouchView, channel: Seq<u8>, now: u64)
    requires
        s.deadline is None,
    ensures
        message_transition(s, channel, Decoded::KeepAlive(Status::UserPresenceNeeded), now).1
            == Some(true),
{
}

/// Further keep-alives asking for user presence, while a touch is needed,
/// emit nothing.
pub proof fn lemma_open_is_idempotent(s: TouchView, channel: Seq<u8>, now: u64)
    requires
        s.deadline is Some,
    ensures
        message_transition(s, channel, Decoded::KeepAlive(Status::UserPresenceNeeded), now).1
            is None,
{
}

/// A Processing keep-alive at `t1` on the channel that asked for a touch at
/// `t0` extends the touch: silence at `t` ends it exactly when `t` is at
/// least `t1` plus the hysteresis.
pub proof fn lemma_processing_extends(s: TouchView, channel: Seq<u8>, t0: u64, t1: u64, t: u64)
    requires
        s.deadline is None,
        t0 <= t1,
        t1 + HYSTERESIS_MS <= u64::MAX,
    ensures
        ({
            let (a, e0) = message_transition(
                s,
                channel,
                Decoded::KeepAlive(Status::UserPresenceNeeded),
                t0,
            );
            let (b, e1) = message_transition(a, channel, Decoded::KeepAlive(Status::Processing), t1);
            let (_, e2) = silence_transition(b, t);
            &&& e0 == Some(true)
            &&& e1 is None
            &&& e2 == if t >= t1 + HYSTERESIS_MS {
                Some(false)
            } else {
                None
            }
        }),
{
}

/// A CBOR response after a keep-alive that asked for user presence ends the
/// touch at once, whatever hysteresis time is left.
pub proof fn lemma_response_clears(
    s: TouchView,
    channel: Seq<u8>,
    t0: u64,
    response_channel: Seq<u8>,
    payload: Vec<u8>,
    t1: u64,
)
    ensures
        ({
            let (a, _) = message_transition(
                s,
                channel,
                Decoded::KeepAlive(Status::UserPresenceNeeded),
                t0,
            );
            let (b, e) = message_transition(
                a,
                response_channel,
                Decoded::Other(CommandKind::Cbor),
                t1,
            );
            &&& e == Some(false)
            &&& b.deadline is None
        }),
{
}

} // verus!
