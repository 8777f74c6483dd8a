//! One exchange with the daemon, as a machine that is told what happened and
//! says what to do next.

use crate::command::{INSTREAM, PING, SHUTDOWN, VERSION};
use crate::frame::{
    chunk_limit, chunk_limit_of, encode_frames, framed, terminator, DEFAULT_CHUNK_SIZE,
    END_OF_STREAM,
};
use crate::trusted::{bytes_as_slice, bytes_contents};
use bytes::Bytes;
use vstd::prelude::*;
use vstd::slice::slice_to_vec;

verus! {

/// What an exchange is about.
#[derive(Clone, Copy, Debug, PartialEq, Eq)]
pub enum Kind {
    /// A command and its reply.
    Command,
    /// A scan of input that is read piece by piece.
    Reader,
    /// A scan of chunks that a producer hands over.
    Producer,
}

/// How far an exchange has come. Each phase but the first and the last
/// names what the exchange is waiting for.
#[derive(Clone, Copy, Debug, PartialEq, Eq)]
pub enum Phase {
    /// Nothing has been asked for yet.
    Start,
    /// The command token is being written.
    Token,
    /// The next piece of input is being obtained.
    Input,
    /// Frames are being written.
    Frames,
    /// The terminator is being written.
    Terminator,
    /// Buffered output is being flushed.
    Flush,
    /// The response is being read.
    Response,
    /// The exchange is over.
    Finished,
}

/// What has happened on the stream or to the input.
#[derive(Debug)]
pub enum Event<'a, E> {
    /// The stream is open, or what was last asked for is done.
    Ready,
    /// A read of the input gave these bytes; none, and the input is exhausted.
    Input(&'a [u8]),
    /// The producer handed over this chunk.
    Chunk(&'a Bytes),
    /// The producer has no more chunks.
    End,
    /// The peer sent these bytes and closed the stream.
    Response(Vec<u8>),
    /// What was last asked for failed.
    Failed(E),
}

/// What is to be done next on the stream or with the input.
#[derive(Debug, PartialEq, Eq)]
pub enum Action<E> {
    /// Write all of these bytes to the stream.
    Write(Vec<u8>),
    /// Read at most this many bytes of input.
    Read(usize),
    /// Take the producer's next chunk.
    Next,
    /// Flush what the stream has buffered.
    Flush,
    /// Read the stream until the peer closes it.
    ReadResponse,
    /// Give this outcome to the caller; nothing more is to be done.
    Finish(Result<Vec<u8>, E>),
}

/// An event as contracts see it: each buffer by the bytes that it holds.
pub enum EventView<E> {
    /// The stream is open, or what was last asked for is done.
    Ready,
    /// A read of the input gave these bytes.
    Input(Seq<u8>),
    /// The producer handed over a chunk of these bytes.
    Chunk(Seq<u8>),
    /// The producer has no more chunks.
    End,
    /// The peer sent these bytes and closed the stream.
    Response(Seq<u8>),
    /// What was last asked for failed.
    Failed(E),
}

/// An action as contracts see it: each buffer by the bytes that it holds.
pub enum ActionView<E> {
    /// Write all of these bytes to the stream.
    Write(Seq<u8>),
    /// Read at most this many bytes of input.
    Read(nat),
    /// Take the producer's next chunk.
    Next,
    /// Flush what the stream has buffered.
    Flush,
    /// Read the stream until the peer closes it.
    ReadResponse,
    /// Give this outcome to the caller.
    Finish(Result<Seq<u8>, E>),
}

impl<'a, E> View for Event<'a, E> {
    type V = EventView<E>;

    open spec fn view(&self) -> EventView<E> {
        match *self {
            Event::Ready => EventView::Ready,
            Event::Input(data) => EventView::Input(data@),
            Event::Chunk(chunk) => EventView::Chunk(bytes_contents(*chunk)),
            Event::End => EventView::End,
            Event::Response(bytes) => EventView::Response(bytes@),
            Event::Failed(failure) => EventView::Failed(failure),
        }
    }
}

impl<E> View for Action<E> {
    type V = ActionView<E>;

    open spec fn view(&self) -> ActionView<E> {
        match *self {
            Action::Write(bytes) => ActionView::Write(bytes@),
            Action::Read(most) => ActionView::Read(most as nat),
            Action::Next => ActionView::Next,
            Action::Flush => ActionView::Flush,
            Action::ReadResponse => ActionView::ReadResponse,
            Action::Finish(Ok(bytes)) => ActionView::Finish(Ok(bytes@)),
            Action::Finish(Err(failure)) => ActionView::Finish(Err(failure)),
        }
    }
}

/// An exchange as contracts see it.
pub struct State {
    /// What the exchange is about.
    pub kind: Kind,
    /// How far it has come.
    pub phase: Phase,
    /// The most bytes that one frame of a scan carries.
    pub limit: nat,
    /// The command token that opens the exchange.
    pub token: Seq<u8>,
}

/// Where an exchange goes on an event, and what is to be done then.
pub struct Step<E> {
    /// The exchange behind the event.
    pub state: State,
    /// Nothing, where the exchange did not wait for the event.
    pub action: Option<ActionView<E>>,
}

/// The exchange moves to `phase` and asks for `action`.
pub open spec fn go<E>(s: State, phase: Phase, action: ActionView<E>) -> Step<E> {
    Step { state: State { phase, ..s }, action: Some(action) }
}

/// The exchange stays as it is and asks for nothing.
pub open spec fn stay<E>(s: State) -> Step<E> {
    Step { state: s, action: None }
}

/// How a scan asks for its next piece of input.
pub open spec fn pull<E>(s: State) -> ActionView<E> {
    match s.kind {
        Kind::Producer => ActionView::Next,
        _ => ActionView::Read(s.limit),
    }
}

/// The rules of an exchange.
///
/// The token is written first. A command is then flushed and its reply read.
/// A scan obtains input piece by piece and writes each piece as frames of at
/// most `limit` bytes; when the input is exhausted it writes the terminator,
/// flushes, and reads the reply. A failure ends the exchange at once, with
/// that failure as its outcome. An event that the exchange does not wait for
/// changes nothing.
pub open spec fn next<E>(s: State, e: EventView<E>) -> Step<E> {
    if s.phase is Finished {
        stay(s)
    } else {
        match e {
            EventView::Failed(failure) => go(s, Phase::Finished, ActionView::Finish(Err(failure))),
            EventView::Ready => match s.phase {
                Phase::Start => go(s, Phase::Token, ActionView::Write(s.token)),
                Phase::Token => if s.kind is Command {
                    go(s, Phase::Flush, ActionView::Flush)
                } else {
                    go(s, Phase::Input, pull(s))
                },
                Phase::Frames => go(s, Phase::Input, pull(s)),
                Phase::Terminator => go(s, Phase::Flush, ActionView::Flush),
                Phase::Flush => go(s, Phase::Response, ActionView::ReadResponse),
                _ => stay(s),
            },
            EventView::Input(data) => if s.phase is Input && s.kind is Reader {
                if data.len() == 0 {
                    go(s, Phase::Terminator, ActionView::Write(terminator()))
                } else {
                    go(s, Phase::Frames, ActionView::Write(framed(data, s.limit)))
                }
            } else {
                stay(s)
            },
            EventView::Chunk(data) => if s.phase is Input && s.kind is Producer {
                if data.len() == 0 {
                    go(s, Phase::Input, ActionView::Next)
                } else {
                    go(s, Phase::Frames, ActionView::Write(framed(data, s.limit)))
                }
            } else {
                stay(s)
            },
            EventView::End => if s.phase is Input && s.kind is Producer {
                go(s, Phase::Terminator, ActionView::Write(terminator()))
            } else {
                stay(s)
            },
            EventView::Response(bytes) => if s.phase is Response {
                go(s, Phase::Finished, ActionView::Finish(Ok(bytes)))
            } else {
                stay(s)
            },
        }
    }
}

/// A command exchange before anything has been asked for.
pub open spec fn command_start(token: Seq<u8>) -> State {
    State { kind: Kind::Command, phase: Phase::Start, limit: DEFAULT_CHUNK_SIZE as nat, token }
}

/// A scan before anything has been asked for.
pub open spec fn scan_start(kind: Kind, limit: nat) -> State {
    State { kind, phase: Phase::Start, limit, token: INSTREAM@ }
}

/// One exchange with the daemon on one stream: what has been done of it, and
/// what is still to do.
///
/// Whoever holds the stream opens it and hands in [`Event::Ready`]. From then
/// on they do what each [`Action`] asks for and hand in what came of it, until
/// the action is [`Action::Finish`]: that is the outcome of the exchange.
#[derive(Debug)]
pub struct Exchange {
    kind: Kind,
    phase: Phase,
    limit: u32,
    token: Vec<u8>,
}

impl View for Exchange {
    type V = State;

    closed spec fn view(&self) -> State {
        State { kind: self.kind, phase: self.phase, limit: self.limit as nat, token: self.token@ }
    }
}

/// What `action` is in contracts.
pub open spec fn seen<E>(action: Option<Action<E>>) -> Option<ActionView<E>> {
    match action {
        Some(a) => Some(a@),
        None => None,
    }
}

impl Exchange {
    /// An exchange cuts its input to a chunk size that is not zero.
    #[verifier::type_invariant]
    spec fn well_formed(&self) -> bool {
        self.limit >= 1
    }

    /// How far the exchange has come.
    pub fn phase(&self) -> (phase: Phase)
        ensures
            phase == self@.phase,
    {
        self.phase
    }

    /// What the exchange is about.
    pub fn kind(&self) -> (kind: Kind)
        ensures
            kind == self@.kind,
    {
        self.kind
    }

    /// Takes note of `event` and says what to do next. An event that the
    /// exchange does not wait for is answered with nothing, and changes
    /// nothing.
    pub fn step<E>(&mut self, event: Event<'_, E>) -> (action: Option<Action<E>>)
        ensures
            final(self)@ == next(old(self)@, event@).state,
            seen(action) == next(old(self)@, event@).action,
    {
        proof {
            use_type_invariant(&*self);
        }
        if let Phase::Finished = self.phase {
            return None;
        }
        match event {
            Event::Failed(failure) => {
                self.phase = Phase::Finished;
                Some(Action::Finish(Err(failure)))
            },
            Event::Ready => match self.phase {
                Phase::Start => {
                    self.phase = Phase::Token;
                    Some(Action::Write(slice_to_vec(self.token.as_slice())))
                },
                Phase::Token => match self.kind {
                    Kind::Command => {
                        self.phase = Phase::Flush;
                        Some(Action::Flush)
                    },
                    _ => {
                        self.phase = Phase::Input;
                        Some(self.pull())
                    },
                },
                Phase::Frames => {
                    self.phase = Phase::Input;
                    Some(self.pull())
                },
                Phase::Terminator => {
                    self.phase = Phase::Flush;
                    Some(Action::Flush)
                },
                Phase::Flush => {
                    self.phase = Phase::Response;
                    Some(Action::ReadResponse)
                },
                _ => None,
            },
            Event::Input(data) => match (self.phase, self.kind) {
                (Phase::Input, Kind::Reader) => {
                    if data.len() == 0 {
                        Some(self.close())
                    } else {
                        Some(self.send(data))
                    }
                },
                _ => None,
            },
            Event::Chunk(chunk) => match (self.phase, self.kind) {
                (Phase::Input, Kind::Producer) => {
                    let data = bytes_as_slice(chunk);
                    if data.len() == 0 {
                        Some(Action::Next)
                    } else {
                        Some(self.send(data))
                    }
                },
                _ => None,
            },
            Event::End => match (self.phase, self.kind) {
                (Phase::Input, Kind::Producer) => Some(self.close()),
                _ => None,
            },
            Event::Response(bytes) => match self.phase {
                Phase::Response => {
                    self.phase = Phase::Finished;
                    Some(Action::Finish(Ok(bytes)))
                },
                _ => None,
            },
        }
    }

    fn pull<E>(&self) -> (action: Action<E>)
        ensures
            action@ == pull::<E>(self@),
    {
        match self.kind {
            Kind::Producer => Action::Next,
            _ => Action::Read(self.limit as usize),
        }
    }

    fn send<E>(&mut self, data: &[u8]) -> (action: Action<E>)
        ensures
            final(self)@ == (State { phase: Phase::Frames, ..old(self)@ }),
            action@ == ActionView::<E>::Write(framed(data@, old(self)@.limit)),
    {
        proof {
            use_type_invariant(&*self);
        }
        self.phase = Phase::Frames;
        Action::Write(encode_frames(data, self.limit))
    }

    fn close<E>(&mut self) -> (action: Action<E>)
        ensures
            final(self)@ == (State { phase: Phase::Terminator, ..old(self)@ }),
            action@ == ActionView::<E>::Write(terminator()),
    {
        proof {
            use_type_invariant(&*self);
        }
        self.phase = Phase::Terminator;
        let bytes = slice_to_vec(END_OF_STREAM.as_slice());
        assert(bytes@ =~= terminator());
        Action::Write(bytes)
    }
}

/// Begins the exchange of a command: `command` is its token.
pub fn send_command(command: &[u8]) -> (exchange: Exchange)
    ensures
        exchange@ == command_start(command@),
{
    Exchange {
        kind: Kind::Command,
        phase: Phase::Start,
        limit: DEFAULT_CHUNK_SIZE as u32,
        token: slice_to_vec(command),
    }
}

/// Begins a ping. A daemon that is alive answers it with `PONG`.
pub fn ping() -> (exchange: Exchange)
    ensures
        exchange@ == command_start(PING@),
{
    send_command(PING.as_slice())
}

/// Begins a request for the daemon's version banner.
pub fn get_version() -> (exchange: Exchange)
    ensures
        exchange@ == command_start(VERSION@),
{
    send_command(VERSION.as_slice())
}

/// Begins a request to the daemon to shut down. Its response may be empty.
pub fn shutdown() -> (exchange: Exchange)
    ensures
        exchange@ == command_start(SHUTDOWN@),
{
    send_command(SHUTDOWN.as_slice())
}

/// Begins a scan of input that is read piece by piece, in frames of at most
/// `chunk_size` bytes. A chunk size of zero is refused.
pub fn scan(chunk_size: Option<usize>) -> (exchange: Option<Exchange>)
    ensures
        match exchange {
            Some(x) => chunk_size != Some(0usize) && x@ == scan_start(
                Kind::Reader,
                chunk_limit_of(chunk_size),
            ),
            None => chunk_size == Some(0usize),
        },
{
    match chunk_limit(chunk_size) {
        Some(limit) => Some(
            Exchange {
                kind: Kind::Reader,
                phase: Phase::Start,
                limit,
                token: slice_to_vec(INSTREAM.as_slice()),
            },
        ),
        None => None,
    }
}

/// Begins a scan of the chunks that a producer hands over, each cut into
/// frames of at most `chunk_size` bytes. A chunk size of zero is refused.
pub fn scan_stream(chunk_size: Option<usize>) -> (exchange: Option<Exchange>)
    ensures
        match exchange {
            Some(x) => chunk_size != Some(0usize) && x@ == scan_start(
                Kind::Producer,
                chunk_limit_of(chunk_size),
            ),
            None => chunk_size == Some(0usize),
        },
{
    match chunk_limit(chunk_size) {
        Some(limit) => Some(
            Exchange {
                kind: Kind::Producer,
                phase: Phase::Start,
                limit,
                token: slice_to_vec(INSTREAM.as_slice()),
            },
        ),
        None => None,
    }
}

} // verus!
