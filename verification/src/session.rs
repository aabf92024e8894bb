//! The control core of a capture session.
//!
//! A session's worker loop alternates outside work — blocking on the
//! command channel, pulling a frame from the capture source, sending a
//! decoded packet — with decisions.  The decisions live here, verified: a
//! [`CaptureSession`] value holds the phase of the loop and a model of what
//! has been persisted and emitted, and one method per observable event says
//! exactly how the session moves.  The caller owning the channels, the
//! source and the capture file drives the loop: while `Stopped` it blocks
//! on the command channel, while `Running` it captures one frame, appends
//! its raw bytes to the capture file when persistence is on, forwards the
//! decoded packet, and then polls the command channel briefly.
//!
//! `Start` while running and `Stop` while stopped are no-ops; a closed
//! channel on either side finishes the session for good; an exhausted file
//! source returns the session to `Stopped` to await a fresh `Start`.

use crate::packet::DecodeError;
use crate::packet::ParsedPacket;
use crate::packet::decode_ok;
use crate::packet::decodes_to;
use vstd::prelude::*;

verus! {

/// A control command sent to a session's worker.
#[derive(Debug, PartialEq, Eq, Structural, Clone, Copy)]
pub enum ParserCommand {
    Start,
    Stop,
}

/// The phase of a session's worker loop.
#[derive(Debug, PartialEq, Eq, Structural, Clone, Copy)]
pub enum SessionPhase {
    /// Waiting on the command channel for a `Start`.
    Stopped,
    /// Pulling, persisting, decoding and forwarding frames.
    Running,
    /// A channel end is gone; the worker loop is over for good.
    Finished,
}

/// What one look at the command channel yielded.
#[derive(Debug, PartialEq, Eq, Structural, Clone, Copy)]
pub enum CommandEvent {
    /// A command arrived.
    Received(ParserCommand),
    /// The poll timed out with nothing there.
    Idle,
    /// The sending side is gone.
    Closed,
}

/// One observable event in the life of a session.
pub enum SessionEvent {
    /// The command channel was read or polled.
    Command(CommandEvent),
    /// A raw frame with these bytes was captured.
    Frame(Seq<u8>),
    /// A file source reached its end.
    SourceEnded,
    /// The receiving side of the output channel is gone.
    OutputClosed,
}

/// The abstract state of a session: its phase, whether raw frames are
/// persisted, the raw frames appended to the capture file so far, and the
/// raw bytes of the frames decoded and handed to the output channel.
pub struct SessionView {
    pub phase: SessionPhase,
    pub persist: bool,
    pub captured: Seq<Seq<u8>>,
    pub emitted: Seq<Seq<u8>>,
}

/// A fresh session: stopped, with nothing persisted or emitted.
pub open spec fn session_init(persist: bool) -> SessionView {
    SessionView { phase: SessionPhase::Stopped, persist, captured: Seq::empty(), emitted: Seq::empty() }
}

/// The phase after one look at the command channel.  `Start` runs and
/// `Stop` stops wherever the session is — both are no-ops when it already
/// is there — a timeout changes nothing, and a closed channel finishes the
/// session; nothing resumes a finished session.
pub open spec fn command_phase(p: SessionPhase, c: CommandEvent) -> SessionPhase {
    match c {
        CommandEvent::Received(ParserCommand::Start) => if p is Finished {
            SessionPhase::Finished
        } else {
            SessionPhase::Running
        },
        CommandEvent::Received(ParserCommand::Stop) => if p is Finished {
            SessionPhase::Finished
        } else {
            SessionPhase::Stopped
        },
        CommandEvent::Idle => p,
        CommandEvent::Closed => SessionPhase::Finished,
    }
}

/// The state after one event.  A frame is persisted (when persistence is
/// on) whether or not it decodes, and counts as emitted exactly when it
/// decodes; frames and source end matter only while running.
pub open spec fn session_step(v: SessionView, e: SessionEvent) -> SessionView {
    match e {
        SessionEvent::Command(c) => SessionView { phase: command_phase(v.phase, c), ..v },
        SessionEvent::Frame(data) => if v.phase is Running {
            SessionView {
                captured: if v.persist {
                    v.captured.push(data)
                } else {
                    v.captured
                },
                emitted: if decode_ok(data) {
                    v.emitted.push(data)
                } else {
                    v.emitted
                },
                ..v
            }
        } else {
            v
        },
        SessionEvent::SourceEnded => if v.phase is Running {
            SessionView { phase: SessionPhase::Stopped, ..v }
        } else {
            v
        },
        SessionEvent::OutputClosed => SessionView { phase: SessionPhase::Finished, ..v },
    }
}

/// The state after a whole sequence of events.
pub open spec fn session_run(v: SessionView, es: Seq<SessionEvent>) -> SessionView
    decreases es.len(),
{
    if es.len() == 0 {
        v
    } else {
        session_run(session_step(v, es[0]), es.drop_first())
    }
}

/// The verified control core of one capture session.
pub struct CaptureSession {
    phase: SessionPhase,
    persist: bool,
    captured: Ghost<Seq<Seq<u8>>>,
    emitted: Ghost<Seq<Seq<u8>>>,
}

impl View for CaptureSession {
    type V = SessionView;

    closed spec fn view(&self) -> SessionView {
        SessionView {
            phase: self.phase,
            persist: self.persist,
            captured: self.captured@,
            emitted: self.emitted@,
        }
    }
}

impl CaptureSession {
    /// A fresh, stopped session.
    pub fn new(persist: bool) -> (r: CaptureSession)
        ensures
            r@ == session_init(persist),
    {
        let r = CaptureSession {
            phase: SessionPhase::Stopped,
            persist,
            captured: Ghost(Seq::empty()),
            emitted: Ghost(Seq::empty()),
        };
        proof {
            assert(r@ =~= session_init(persist));
        }
        r
    }

    /// The phase the worker loop is in, deciding its next blocking call.
    pub fn phase(&self) -> (r: SessionPhase)
        ensures
            r == self@.phase,
    {
        self.phase
    }

    /// Whether raw frames are appended to the capture file.
    pub fn persist_enabled(&self) -> (r: bool)
        ensures
            r == self@.persist,
    {
        self.persist
    }

    /// Record one look at the command channel: a blocking receive while
    /// stopped, or the short poll between frames while running.
    pub fn observe_command(&mut self, c: CommandEvent)
        ensures
            final(self)@ == session_step(old(self)@, SessionEvent::Command(c)),
    {
        match c {
            CommandEvent::Received(ParserCommand::Start) => {
                if !matches!(self.phase, SessionPhase::Finished) {
                    self.phase = SessionPhase::Running;
                }
            },
            CommandEvent::Received(ParserCommand::Stop) => {
                if !matches!(self.phase, SessionPhase::Finished) {
                    self.phase = SessionPhase::Stopped;
                }
            },
            CommandEvent::Idle => {},
            CommandEvent::Closed => {
                self.phase = SessionPhase::Finished;
            },
        }
        proof {
            assert(final(self)@ =~= session_step(
                old(self)@,
                SessionEvent::Command(c),
            ));
        }
    }

    /// Record one captured frame and decode it.  The raw bytes count as
    /// persisted when persistence is on — whether or not they decode — and
    /// the decoded packet, returned for forwarding, counts as emitted.
    pub fn on_frame(&mut self, data: &[u8], length: u32, ts: String) -> (r: Option<ParsedPacket>)
        requires
            old(self)@.phase is Running,
        ensures
            final(self)@ == session_step(old(self)@, SessionEvent::Frame(data@)),
            (match r {
                Some(p) => decode_ok(data@) && decodes_to(data@, length, ts@, p),
                None => !decode_ok(data@),
            }),
    {
        if self.persist {
            proof {
                self.captured@ = self.captured@.push(data@);
            }
        }
        let r = match ParsedPacket::from_packet(data, length, ts) {
            Ok(p) => {
                proof {
                    self.emitted@ = self.emitted@.push(data@);
                }
                Some(p)
            },
            Err(DecodeError::Malformed(_)) => None,
        };
        proof {
            assert(final(self)@ =~= session_step(old(self)@, SessionEvent::Frame(data@)));
        }
        r
    }

    /// Record that a file source reached its end: the session returns to
    /// `Stopped` and awaits a fresh `Start`.
    pub fn on_source_end(&mut self)
        ensures
            final(self)@ == session_step(old(self)@, SessionEvent::SourceEnded),
    {
        if matches!(self.phase, SessionPhase::Running) {
            self.phase = SessionPhase::Stopped;
        }
        proof {
            assert(final(self)@ =~= session_step(old(self)@, SessionEvent::SourceEnded));
        }
    }

    /// Record that the output channel's receiving side is gone: the session
    /// is no longer wanted and the worker loop ends.
    pub fn on_output_closed(&mut self)
        ensures
            final(self)@ == session_step(old(self)@, SessionEvent::OutputClosed),
    {
        self.phase = SessionPhase::Finished;
        proof {
            assert(final(self)@ =~= session_step(old(self)@, SessionEvent::OutputClosed));
        }
    }
}

/// A run without frame events emits nothing and persists nothing beyond
/// what was already there, whatever commands and channel events occur.
pub proof fn lemma_no_frames_no_output(v: SessionView, es: Seq<SessionEvent>)
    requires
        forall|i: int| 0 <= i < es.len() ==> !(#[trigger] es[i] is Frame),
    ensures
        session_run(v, es).emitted == v.emitted,
        session_run(v, es).captured == v.captured,
    decreases es.len(),
{
    if es.len() > 0 {
        assert(!(es[0] is Frame));
        assert(session_step(v, es[0]).emitted == v.emitted);
        assert(session_step(v, es[0]).captured == v.captured);
        assert forall|i: int| 0 <= i < es.drop_first().len() implies !(#[trigger] es.drop_first()[i]
            is Frame) by {
            assert(es.drop_first()[i] == es[i + 1]);
        }
        lemma_no_frames_no_output(session_step(v, es[0]), es.drop_first());
    }
}

/// The persisted and emitted logs are append-only: no event of a session's
/// life rewrites, drops or reorders what was already captured or handed to
/// the output channel.
pub proof fn lemma_logs_only_grow(v: SessionView, es: Seq<SessionEvent>)
    ensures
        v.captured.is_prefix_of(session_run(v, es).captured),
        v.emitted.is_prefix_of(session_run(v, es).emitted),
    decreases es.len(),
{
    if es.len() > 0 {
        let w = session_step(v, es[0]);
        assert(v.captured.is_prefix_of(w.captured)) by {
            if w.captured != v.captured {
                assert(v.captured.is_prefix_of(v.captured.push(es[0]->Frame_0)));
            }
        }
        assert(v.emitted.is_prefix_of(w.emitted)) by {
            if w.emitted != v.emitted {
                assert(v.emitted.is_prefix_of(v.emitted.push(es[0]->Frame_0)));
            }
        }
        lemma_logs_only_grow(w, es.drop_first());
        assert(v.captured =~= session_run(v, es).captured.subrange(0, v.captured.len() as int));
        assert(v.emitted =~= session_run(v, es).emitted.subrange(0, v.emitted.len() as int));
    }
}

/// While a session is not running — after a `Stop` was observed, or once
/// it is finished — a frame event changes nothing: no packet is emitted
/// and nothing more is persisted.
pub proof fn lemma_stopped_frame_is_noop(v: SessionView, data: Seq<u8>)
    requires
        !(v.phase is Running),
    ensures
        session_step(v, SessionEvent::Frame(data)) == v,
{
}

/// A `Start` followed back to back by a `Stop`: the session runs in
/// between, ends stopped, and — with no frames captured in between — has
/// emitted no packet and persisted no bytes, so a capture file saved then
/// is empty.
pub proof fn lemma_lifecycle_start_stop(persist: bool)
    ensures
        ({
            let v0 = session_init(persist);
            let v1 = session_step(
                v0,
                SessionEvent::Command(CommandEvent::Received(ParserCommand::Start)),
            );
            let v2 = session_step(
                v1,
                SessionEvent::Command(CommandEvent::Received(ParserCommand::Stop)),
            );
            &&& v1.phase is Running
            &&& v2.phase is Stopped
            &&& v2.emitted == Seq::<Seq<u8>>::empty()
            &&& v2.captured == Seq::<Seq<u8>>::empty()
        }),
{
}

} // verus!
