//! The state machine of one connection.
//!
//! A session does no I/O. Each method takes what has happened, changes the
//! session and returns the commands that the transport layer has to carry
//! out, in the order given.

use crate::models::server_models::{ClientData, Data, Disconnect};
use crate::models::server_spec::main_room;
use crate::models::session_spec::{CommandView, Outcome, SessionView};
use crate::models::text::{label, starts_with_slash, trim};
use bytes::Bytes;
use vstd::prelude::*;
use vstd::string::*;

verus! {

/// Time between two heartbeat checks, in milliseconds.
pub const HEARTBEAT_INTERVAL: u64 = 5000;

/// Time without a sign of life after which a peer counts as dead, in
/// milliseconds.
pub const CLIENT_TIMEOUT: u64 = 10000;

/// Where a session stands in its life.
#[derive(Clone, Copy, Debug, PartialEq, Eq, Structural)]
pub enum Phase {
    /// Waiting for the registry's answer to its registration.
    Connecting,
    /// Registered and relaying.
    Active,
    /// On its way out: it takes in nothing more.
    Closing,
    /// Gone from the registry, or never known to it.
    Terminated,
}

/// Why a session refuses what the peer sent.
#[derive(Clone, Copy, Debug, PartialEq, Eq, Structural)]
pub enum SessionError {
    /// Binary payloads and commands are not supported.
    NotSupported,
}

/// The peer broke the protocol.
#[derive(Clone, Copy, Debug, PartialEq, Eq, Structural)]
pub struct ProtocolError;

/// Why a connection is closed.
#[derive(Debug)]
pub struct CloseReason {
    pub code: u16,
    pub description: Option<String>,
}

/// What the peer sends.
#[derive(Debug)]
pub enum Frame {
    Text(String),
    Binary(Bytes),
    Continuation,
    Ping(Bytes),
    Pong(Bytes),
    Close(Option<CloseReason>),
    Nop,
}

/// What a session asks of the transport layer.
#[derive(Debug)]
pub enum Command {
    /// Call `hb` every `HEARTBEAT_INTERVAL` from now on.
    StartHeartbeat,
    /// Ask the registry to register the session, and hand the answer to
    /// `registered`.
    Register,
    /// Probe the peer.
    Ping,
    /// Answer the peer's probe with the payload it sent.
    Pong(Bytes),
    /// Hand the message to the registry.
    Relay(ClientData<String>),
    /// Tell the registry that the session is gone.
    Deregister(Disconnect),
    /// Send the text to the peer.
    Text(String),
    /// Tell the peer that the connection is being closed, with its reason.
    Close(Option<CloseReason>),
    /// Stop the heartbeat timer and the session, and end the connection.
    Stop,
}

impl View for Command {
    type V = CommandView;

    open spec fn view(&self) -> CommandView {
        match *self {
            Command::StartHeartbeat => CommandView::StartHeartbeat,
            Command::Register => CommandView::Register,
            Command::Ping => CommandView::Ping,
            Command::Pong(payload) => CommandView::Pong(payload),
            Command::Relay(msg) => CommandView::Relay {
                id: msg.id,
                data: msg.data@,
                room: msg.room@,
            },
            Command::Deregister(msg) => CommandView::Deregister { id: msg.id },
            Command::Text(text) => CommandView::Text(text@),
            Command::Close(reason) => CommandView::Close(reason),
            Command::Stop => CommandView::Stop,
        }
    }
}

/// The commands as mathematics.
pub open spec fn views(commands: Seq<Command>) -> Seq<CommandView> {
    commands.map_values(|c: Command| c@)
}

/// The commands, or the refusal, are those of `outcome`.
pub open spec fn answers(r: Result<Vec<Command>, SessionError>, outcome: Outcome) -> bool {
    match r {
        Ok(commands) => outcome.error is None && views(commands@) == outcome.commands,
        Err(e) => outcome.error == Some(e),
    }
}

/// One connection, as the server sees it.
#[derive(Debug)]
pub struct WsCanvasSession {
    /// Unique session id, once the registry has given one.
    pub id: usize,
    /// When the peer last gave a sign of life, in milliseconds on the
    /// transport layer's clock. The peer must give one at least every
    /// `CLIENT_TIMEOUT`, otherwise the connection is dropped.
    pub hb: u64,
    /// Joined room.
    pub room: String,
    /// Name under which the session's lines are relayed.
    pub name: Option<String>,
    /// Where the session stands in its life.
    pub phase: Phase,
    /// What the peer sent and the session has not yet looked at.
    pub pending: Vec<Result<Frame, ProtocolError>>,
}

impl View for WsCanvasSession {
    type V = SessionView;

    open spec fn view(&self) -> SessionView {
        SessionView {
            id: self.id,
            hb: self.hb,
            room: self.room@,
            name: match self.name {
                Some(name) => Some(name@),
                None => None,
            },
            phase: self.phase,
            pending: self.pending@,
        }
    }
}

impl WsCanvasSession {
    /// A session that has just been accepted at `now`: in the default room,
    /// without a name, and not yet registered. `id` stands until the registry
    /// gives another.
    pub fn new(id: usize, now: u64) -> (session: WsCanvasSession)
        ensures
            session@ == (SessionView {
                id,
                hb: now,
                room: main_room(),
                name: None,
                phase: Phase::Connecting,
                pending: seq![],
            }),
    {
        WsCanvasSession {
            id,
            hb: now,
            room: String::from_str("main"),
            name: None,
            phase: Phase::Connecting,
            pending: Vec::new(),
        }
    }

    /// The heartbeat check, made at `now`: a peer that has been silent for
    /// longer than `CLIENT_TIMEOUT` is given up, any other is probed.
    pub fn hb(&mut self, now: u64) -> (commands: Vec<Command>)
        ensures
            final(self)@ == old(self)@.tick(now).next,
            views(commands@) == old(self)@.tick(now).commands,
    {
        let mut commands: Vec<Command> = Vec::new();
        match self.phase {
            Phase::Active => {
                let silent = if now >= self.hb {
                    now - self.hb
                } else {
                    0
                };
                if silent > CLIENT_TIMEOUT {
                    self.phase = Phase::Terminated;
                    commands.push(Command::Deregister(Disconnect { id: self.id }));
                    commands.push(Command::Stop);
                } else {
                    commands.push(Command::Ping);
                }
            },
            _ => {},
        }
        commands
    }

    /// The session has been started: its heartbeat is to run, and it asks to
    /// be registered.
    pub fn started(&mut self) -> (commands: Vec<Command>)
        ensures
            final(self)@ == old(self)@.started().next,
            views(commands@) == old(self)@.started().commands,
    {
        let mut commands: Vec<Command> = Vec::new();
        match self.phase {
            Phase::Connecting => {
                commands.push(Command::StartHeartbeat);
                commands.push(Command::Register);
            },
            _ => {},
        }
        commands
    }

    /// The registry has answered the registration with the session's id, or
    /// could not be reached.
    pub fn registered(&mut self, reply: Option<usize>) -> (commands: Vec<Command>)
        ensures
            final(self)@ == old(self)@.registered(reply).next,
            views(commands@) == old(self)@.registered(reply).commands,
    {
        let mut commands: Vec<Command> = Vec::new();
        match self.phase {
            Phase::Connecting => {
                match reply {
                    Some(id) => {
                        self.id = id;
                        self.phase = Phase::Active;
                    },
                    None => {
                        self.phase = Phase::Terminated;
                        commands.push(Command::Stop);
                    },
                }
            },
            _ => {},
        }
        commands
    }

    /// The session is being stopped: it tells the registry, if the registry
    /// knows it and has not been told yet.
    pub fn stopping(&mut self) -> (commands: Vec<Command>)
        ensures
            final(self)@ == old(self)@.stopping().next,
            views(commands@) == old(self)@.stopping().commands,
    {
        let mut commands: Vec<Command> = Vec::new();
        match self.phase {
            Phase::Active | Phase::Closing => {
                commands.push(Command::Deregister(Disconnect { id: self.id }));
            },
            _ => {},
        }
        self.phase = Phase::Terminated;
        commands
    }

    /// A text from the registry: it goes to the peer as it is.
    pub fn handle_data(&self, msg: Data) -> (commands: Vec<Command>)
        ensures
            views(commands@) == self@.data(msg.0@).commands,
    {
        let mut commands: Vec<Command> = Vec::new();
        match self.phase {
            Phase::Terminated => {},
            _ => {
                commands.push(Command::Text(msg.0));
            },
        }
        commands
    }

    /// The peer has sent `msg` at `now`.
    ///
    /// A liveness probe is answered, and it and its answer count as a sign of
    /// life. A line of text is relayed to the session's room, without the
    /// white space around it and behind the session's name. Binary data and
    /// lines that begin with a slash are refused with
    /// `SessionError::NotSupported`. A close, a continuation or a protocol
    /// error puts the session on its way out. After a refusal the session is
    /// on its way out too, and the transport layer has to stop it.
    ///
    /// Until the session is registered, what the peer sends is kept, and
    /// looked at in order afterwards: see `resume`.
    pub fn handle(&mut self, msg: Result<Frame, ProtocolError>, now: u64) -> (r: Result<
        Vec<Command>,
        SessionError,
    >)
        ensures
            final(self)@ == old(self)@.received(msg, now).next,
            answers(r, old(self)@.received(msg, now)),
    {
        match self.phase {
            Phase::Connecting => {
                self.pending.push(msg);
                let commands: Vec<Command> = Vec::new();
                assert(views(commands@) =~= old(self)@.received(msg, now).commands);
                Ok(commands)
            },
            Phase::Active => {
                self.pending.push(msg);
                let first = self.pending.remove(0);
                self.process(first, now)
            },
            _ => {
                let commands: Vec<Command> = Vec::new();
                assert(views(commands@) =~= old(self)@.received(msg, now).commands);
                Ok(commands)
            },
        }
    }

    /// Looks, at `now`, at the oldest thing that the peer sent and the
    /// session has kept. The transport layer calls this after a registration
    /// and after `handle`, until `has_pending` says that nothing is left.
    pub fn resume(&mut self, now: u64) -> (r: Result<Vec<Command>, SessionError>)
        ensures
            final(self)@ == old(self)@.resume(now).next,
            answers(r, old(self)@.resume(now)),
    {
        match self.phase {
            Phase::Active => {
                if self.pending.len() > 0 {
                    let first = self.pending.remove(0);
                    return self.process(first, now);
                }
            },
            _ => {},
        }
        let commands: Vec<Command> = Vec::new();
        assert(views(commands@) =~= old(self)@.resume(now).commands);
        Ok(commands)
    }

    /// Whether `resume` has something to look at.
    pub fn has_pending(&self) -> (b: bool)
        ensures
            b == self@.can_resume(),
    {
        match self.phase {
            Phase::Active => self.pending.len() > 0,
            _ => false,
        }
    }

    /// What an active session makes of one thing that the peer sent.
    fn process(&mut self, msg: Result<Frame, ProtocolError>, now: u64) -> (r: Result<
        Vec<Command>,
        SessionError,
    >)
        ensures
            final(self)@ == old(self)@.process(msg, now).next,
            answers(r, old(self)@.process(msg, now)),
    {
        let mut commands: Vec<Command> = Vec::new();
        let frame = match msg {
            Ok(frame) => frame,
            Err(_) => {
                self.phase = Phase::Closing;
                commands.push(Command::Stop);
                assert(views(commands@) =~= old(self)@.process(msg, now).commands);
                return Ok(commands);
            },
        };
        match frame {
            Frame::Ping(payload) => {
                self.hb = now;
                commands.push(Command::Pong(payload));
            },
            Frame::Pong(_) => {
                self.hb = now;
            },
            Frame::Text(text) => {
                let line = trim(text.as_str());
                if starts_with_slash(line) {
                    self.phase = Phase::Closing;
                    return Err(SessionError::NotSupported);
                }
                let data = match &self.name {
                    Some(name) => label(name.as_str(), line),
                    None => String::from_str(line),
                };
                commands.push(
                    Command::Relay(ClientData { id: self.id, data, room: self.room.clone() }),
                );
            },
            Frame::Binary(_) => {
                self.phase = Phase::Closing;
                return Err(SessionError::NotSupported);
            },
            Frame::Close(reason) => {
                self.phase = Phase::Closing;
                commands.push(Command::Close(reason));
                commands.push(Command::Stop);
            },
            Frame::Continuation => {
                self.phase = Phase::Closing;
                commands.push(Command::Stop);
            },
            Frame::Nop => {},
        }
        assert(views(commands@) =~= old(self)@.process(msg, now).commands);
        Ok(commands)
    }
}

} // verus!
