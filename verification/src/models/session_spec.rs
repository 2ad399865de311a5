//! A session as mathematics: what it holds, what can happen to it, and what
//! it then asks of the transport layer.

use crate::models::text::{is_command, labelled, trimmed};
use crate::models::websocket_session::{
    CloseReason, Frame, Phase, ProtocolError, SessionError, CLIENT_TIMEOUT, HEARTBEAT_INTERVAL,
};
use bytes::Bytes;
use vstd::prelude::*;

verus! {

/// What a session asks of the transport layer, as mathematics.
pub enum CommandView {
    StartHeartbeat,
    Register,
    Ping,
    Pong(Bytes),
    Relay { id: usize, data: Seq<char>, room: Seq<char> },
    Deregister { id: usize },
    Text(Seq<char>),
    Close(Option<CloseReason>),
    Stop,
}

/// What a session holds.
#[verifier::ext_equal]
pub struct SessionView {
    pub id: usize,
    /// When the peer last gave a sign of life.
    pub hb: u64,
    pub room: Seq<char>,
    pub name: Option<Seq<char>>,
    pub phase: Phase,
    /// What the peer sent and the session has not yet looked at, oldest
    /// first.
    pub pending: Seq<Result<Frame, ProtocolError>>,
}

/// What becomes of a session when something happens to it.
#[verifier::ext_equal]
pub struct Outcome {
    /// The session afterwards.
    pub next: SessionView,
    /// What the transport layer has to do, in this order.
    pub commands: Seq<CommandView>,
    /// Set when the session refuses what the peer sent.
    pub error: Option<SessionError>,
}

/// What can happen to a session.
pub enum Event {
    /// The transport layer has started the session.
    Started,
    /// The registry has answered the registration, with the session's id, or
    /// could not be reached.
    Reply(Option<usize>),
    /// The heartbeat timer has fired at the given time.
    Tick(u64),
    /// The peer has sent something at the given time.
    Received(Result<Frame, ProtocolError>, u64),
    /// The transport layer asks, at the given time, for the oldest thing the
    /// session has not yet looked at.
    Resume(u64),
    /// The registry has sent a text.
    Data(Seq<char>),
    /// The transport layer is stopping the session.
    Stopping,
}

/// The time between two moments; none if the second is not the later one.
pub open spec fn elapsed(since: u64, now: u64) -> int {
    if now >= since {
        now - since
    } else {
        0
    }
}

impl SessionView {
    pub open spec fn with_phase(self, phase: Phase) -> Self {
        SessionView { phase, ..self }
    }

    pub open spec fn with_hb(self, hb: u64) -> Self {
        SessionView { hb, ..self }
    }

    pub open spec fn with_pending(self, pending: Seq<Result<Frame, ProtocolError>>) -> Self {
        SessionView { pending, ..self }
    }

    /// Nothing changes and nothing is to be done.
    pub open spec fn idle(self) -> Outcome {
        Outcome { next: self, commands: seq![], error: None }
    }

    /// The session goes on as `next`, and `commands` are to be carried out.
    pub open spec fn go(next: SessionView, commands: Seq<CommandView>) -> Outcome {
        Outcome { next, commands, error: None }
    }

    /// The session refuses what it was sent, and is on its way out.
    pub open spec fn refuse(self) -> Outcome {
        Outcome {
            next: self.with_phase(Phase::Closing),
            commands: seq![],
            error: Some(SessionError::NotSupported),
        }
    }

    /// What a session relays of a line: the line without the white space
    /// around it, behind its name if it has one.
    pub open spec fn outgoing(self, line: Seq<char>) -> Seq<char> {
        match self.name {
            Some(name) => labelled(name, trimmed(line)),
            None => trimmed(line),
        }
    }

    /// On start a session has its heartbeat timer started and asks to be
    /// registered.
    pub open spec fn started(self) -> Outcome {
        if self.phase == Phase::Connecting {
            Self::go(self, seq![CommandView::StartHeartbeat, CommandView::Register])
        } else {
            self.idle()
        }
    }

    /// With the registry's answer a connecting session becomes active under
    /// the id it was given; without one it ends, and has nothing to
    /// deregister.
    pub open spec fn registered(self, reply: Option<usize>) -> Outcome {
        if self.phase == Phase::Connecting {
            match reply {
                Some(id) => Self::go(
                    SessionView { id, phase: Phase::Active, ..self },
                    seq![],
                ),
                None => Self::go(self.with_phase(Phase::Terminated), seq![CommandView::Stop]),
            }
        } else {
            self.idle()
        }
    }

    /// Whether the peer has been silent for too long at `now`.
    pub open spec fn timed_out(self, now: u64) -> bool {
        elapsed(self.hb, now) > CLIENT_TIMEOUT
    }

    /// At a heartbeat check an active session whose peer has been silent for
    /// too long deregisters and ends; otherwise it probes the peer.
    pub open spec fn tick(self, now: u64) -> Outcome {
        if self.phase == Phase::Active {
            if self.timed_out(now) {
                Self::go(
                    self.with_phase(Phase::Terminated),
                    seq![CommandView::Deregister { id: self.id }, CommandView::Stop],
                )
            } else {
                Self::go(self, seq![CommandView::Ping])
            }
        } else {
            self.idle()
        }
    }

    /// What an active session makes of one thing that the peer sent.
    pub open spec fn process(self, msg: Result<Frame, ProtocolError>, now: u64) -> Outcome {
        match msg {
            Err(_) => Self::go(self.with_phase(Phase::Closing), seq![CommandView::Stop]),
            Ok(Frame::Ping(payload)) => Self::go(
                self.with_hb(now),
                seq![CommandView::Pong(payload)],
            ),
            Ok(Frame::Pong(_)) => Self::go(self.with_hb(now), seq![]),
            Ok(Frame::Text(text)) => if is_command(trimmed(text@)) {
                self.refuse()
            } else {
                Self::go(
                    self,
                    seq![
                        CommandView::Relay {
                            id: self.id,
                            data: self.outgoing(text@),
                            room: self.room,
                        },
                    ],
                )
            },
            Ok(Frame::Binary(_)) => self.refuse(),
            Ok(Frame::Close(reason)) => Self::go(
                self.with_phase(Phase::Closing),
                seq![CommandView::Close(reason), CommandView::Stop],
            ),
            Ok(Frame::Continuation) => Self::go(
                self.with_phase(Phase::Closing),
                seq![CommandView::Stop],
            ),
            Ok(Frame::Nop) => self.idle(),
        }
    }

    /// What the peer sends is looked at in the order in which it came: a
    /// connecting session keeps it for later, an active one puts it behind
    /// what it has kept and looks at the oldest, and a session on its way out
    /// takes no notice.
    pub open spec fn received(self, msg: Result<Frame, ProtocolError>, now: u64) -> Outcome {
        match self.phase {
            Phase::Connecting => Self::go(self.with_pending(self.pending.push(msg)), seq![]),
            Phase::Active => {
                let queue = self.pending.push(msg);
                self.with_pending(queue.drop_first()).process(queue.first(), now)
            },
            _ => self.idle(),
        }
    }

    /// Whether the session has something to look at.
    pub open spec fn can_resume(self) -> bool {
        self.phase == Phase::Active && self.pending.len() > 0
    }

    /// An active session looks at the oldest thing it has kept.
    pub open spec fn resume(self, now: u64) -> Outcome {
        if self.can_resume() {
            self.with_pending(self.pending.drop_first()).process(self.pending.first(), now)
        } else {
            self.idle()
        }
    }

    /// A text from the registry goes to the peer as it is, unless the session
    /// has ended.
    pub open spec fn data(self, text: Seq<char>) -> Outcome {
        if self.phase == Phase::Terminated {
            self.idle()
        } else {
            Self::go(self, seq![CommandView::Text(text)])
        }
    }

    /// A session that stops ends; if the registry knows it, it deregisters.
    pub open spec fn stopping(self) -> Outcome {
        match self.phase {
            Phase::Active | Phase::Closing => Self::go(
                self.with_phase(Phase::Terminated),
                seq![CommandView::Deregister { id: self.id }],
            ),
            Phase::Connecting => Self::go(self.with_phase(Phase::Terminated), seq![]),
            Phase::Terminated => self.idle(),
        }
    }

    /// What becomes of the session when `event` happens.
    pub open spec fn step(self, event: Event) -> Outcome {
        match event {
            Event::Started => self.started(),
            Event::Reply(reply) => self.registered(reply),
            Event::Tick(now) => self.tick(now),
            Event::Received(msg, now) => self.received(msg, now),
            Event::Resume(now) => self.resume(now),
            Event::Data(text) => self.data(text),
            Event::Stopping => self.stopping(),
        }
    }

    /// The session after `events` have happened one after the other.
    pub open spec fn after(self, events: Seq<Event>) -> SessionView
        decreases events.len(),
    {
        if events.len() == 0 {
            self
        } else {
            self.step(events.first()).next.after(events.drop_first())
        }
    }

    /// All that the session asks for while `events` happen one after the
    /// other.
    pub open spec fn commands(self, events: Seq<Event>) -> Seq<CommandView>
        decreases events.len(),
    {
        if events.len() == 0 {
            seq![]
        } else {
            let first = self.step(events.first());
            first.commands + first.next.commands(events.drop_first())
        }
    }

    /// A step asks for at most one deregistration, and the session has ended
    /// when it has asked for one; a session that has ended asks for nothing.
    pub proof fn lemma_step(self, event: Event)
        ensures
            deregistrations(self.step(event).commands) <= 1,
            deregistrations(self.step(event).commands) == 1 ==> self.phase != Phase::Terminated
                && self.step(event).next.phase == Phase::Terminated,
            self.phase == Phase::Terminated ==> self.step(event) == self.idle(),
            self.phase != Phase::Active ==> probes(self.step(event).commands) == 0,
    {
        reveal_with_fuel(deregistrations, 3);
        reveal_with_fuel(probes, 3);
    }

    /// A session that has ended stays so, and asks for nothing any more.
    pub proof fn lemma_terminated_is_final(self, events: Seq<Event>)
        requires
            self.phase == Phase::Terminated,
        ensures
            self.after(events) == self,
            self.commands(events) == Seq::<CommandView>::empty(),
        decreases events.len(),
    {
        if events.len() > 0 {
            self.lemma_step(events.first());
            self.lemma_terminated_is_final(events.drop_first());
        }
    }

    /// A session whose registration fails never asks to be deregistered.
    pub proof fn lemma_failed_registration(self, later: Seq<Event>)
        requires
            self.phase == Phase::Connecting,
        ensures
            self.after(seq![Event::Reply(None)] + later).phase == Phase::Terminated,
            self.commands(seq![Event::Reply(None)] + later) == seq![CommandView::Stop],
            deregistrations(self.commands(seq![Event::Reply(None)] + later)) == 0,
    {
        let events = seq![Event::Reply(None)] + later;
        let first = self.step(events.first());
        assert(events.drop_first() =~= later);
        first.next.lemma_terminated_is_final(later);
        reveal_with_fuel(deregistrations, 2);
    }

    /// What the peer sends while the session waits for the registry's answer
    /// is all kept, in the order in which it came, and nothing is asked for.
    pub proof fn lemma_connecting_keeps(self, msgs: Seq<Result<Frame, ProtocolError>>, now: u64)
        requires
            self.phase == Phase::Connecting,
        ensures
            self.after(arrivals(msgs, now)) == self.with_pending(self.pending + msgs),
            self.commands(arrivals(msgs, now)) == Seq::<CommandView>::empty(),
        decreases msgs.len(),
    {
        let events = arrivals(msgs, now);
        if msgs.len() > 0 {
            let next = self.step(events.first()).next;
            assert(events.drop_first() =~= arrivals(msgs.drop_first(), now));
            next.lemma_connecting_keeps(msgs.drop_first(), now);
        }
    }

    /// Whatever happens to a session, it asks at most once to be
    /// deregistered.
    pub proof fn lemma_deregisters_once_at_most(self, events: Seq<Event>)
        ensures
            deregistrations(self.commands(events)) <= 1,
        decreases events.len(),
    {
        if events.len() > 0 {
            let first = self.step(events.first());
            let rest = events.drop_first();
            self.lemma_step(events.first());
            lemma_count_add(first.commands, first.next.commands(rest));
            if deregistrations(first.commands) == 1 {
                first.next.lemma_terminated_is_final(rest);
            } else {
                first.next.lemma_deregisters_once_at_most(rest);
            }
        }
    }

    /// An active session whose peer has given no sign of life for longer than
    /// the timeout, and whose heartbeat check then comes, is deregistered
    /// exactly once and has ended, whatever happens afterwards, and its peer
    /// is not probed again.
    pub proof fn lemma_timeout(self, now: u64, later: Seq<Event>)
        requires
            self.phase == Phase::Active,
            self.timed_out(now),
        ensures
            self.after(seq![Event::Tick(now)] + later).phase == Phase::Terminated,
            deregistrations(self.commands(seq![Event::Tick(now)] + later)) == 1,
            probes(self.commands(seq![Event::Tick(now)] + later)) == 0,
            self.commands(seq![Event::Tick(now)] + later) == seq![
                CommandView::Deregister { id: self.id },
                CommandView::Stop,
            ],
    {
        let events = seq![Event::Tick(now)] + later;
        let first = self.step(events.first());
        assert(events.drop_first() =~= later);
        first.next.lemma_terminated_is_final(later);
        reveal_with_fuel(deregistrations, 3);
        reveal_with_fuel(probes, 3);
    }
}

/// The peer sends `msgs`, one after the other, at `now`.
pub open spec fn arrivals(msgs: Seq<Result<Frame, ProtocolError>>, now: u64) -> Seq<Event> {
    Seq::new(msgs.len(), |i: int| Event::Received(msgs[i], now))
}

/// A peer is not given up before it has been probed.
pub proof fn lemma_timeout_exceeds_interval()
    ensures
        CLIENT_TIMEOUT > HEARTBEAT_INTERVAL,
{
}

/// How often `commands` ask for a deregistration.
pub open spec fn deregistrations(commands: Seq<CommandView>) -> nat
    decreases commands.len(),
{
    if commands.len() == 0 {
        0
    } else {
        deregistrations(commands.drop_last()) + if commands.last() is Deregister {
            1nat
        } else {
            0nat
        }
    }
}

/// How often `commands` ask for the peer to be probed.
pub open spec fn probes(commands: Seq<CommandView>) -> nat
    decreases commands.len(),
{
    if commands.len() == 0 {
        0
    } else {
        probes(commands.drop_last()) + if commands.last() is Ping {
            1nat
        } else {
            0nat
        }
    }
}

/// Counting goes through a sequence part by part.
pub proof fn lemma_count_add(a: Seq<CommandView>, b: Seq<CommandView>)
    ensures
        deregistrations(a + b) == deregistrations(a) + deregistrations(b),
        probes(a + b) == probes(a) + probes(b),
    decreases b.len(),
{
    if b.len() > 0 {
        assert((a + b).drop_last() =~= a + b.drop_last());
        lemma_count_add(a, b.drop_last());
    }
}

} // verus!
