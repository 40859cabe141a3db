//! One connection: reading a request, writing the response, flushing it.
use crate::http::{self, is_request_end, place, request_text, response, REQUEST_LEN};
use vstd::prelude::*;

verus! {

/// The server that a connection belongs to.
///
/// The servers differ in two respects. The non-blocking server has no reactor, so it neither
/// registers a connection nor has it forgotten. And when a client goes away early, the
/// graceful server moves on to the next phase, while the other two give the connection up.
#[derive(Clone, Copy, Debug, PartialEq, Eq, Structural)]
pub enum Server {
    /// Polls its connections in turn, without a reactor.
    NonBlocking,
    /// Runs each connection as a task.
    Asynchronous,
    /// Runs each connection as a task, and shuts down gracefully.
    Graceful,
}

/// What has to be done on a connection next.
#[derive(Clone, Copy, Debug, PartialEq, Eq)]
pub enum Operation {
    /// Register the connection with the reactor.
    Register,
    /// Read at most `limit` bytes from the connection.
    Read { limit: usize },
    /// Write as much of `bytes` to the connection as it takes.
    Write { bytes: &'static [u8] },
    /// Flush the connection.
    Flush,
}

/// What came of an operation.
#[derive(Debug, PartialEq, Eq)]
pub enum IoEvent {
    /// The connection is registered.
    Registered,
    /// These bytes were read; none at all when the client is gone.
    Received(Vec<u8>),
    /// This many bytes were written; none at all when the client is gone.
    Sent(usize),
    /// The connection is flushed.
    Flushed,
    /// The operation would have blocked.
    WouldBlock,
}

/// What a server prints about a connection.
#[derive(Debug, PartialEq, Eq)]
pub enum Report {
    /// The client disconnected unexpectedly.
    Disconnected,
    /// The client sent this request.
    Request(String),
}

/// How a connection goes on.
#[derive(Clone, Copy, Debug, PartialEq, Eq, Structural)]
pub enum Next {
    /// With its next operation, at once.
    Continue,
    /// With its next operation, when the connection is ready.
    Pending,
    /// Not at all.
    Done,
    /// Not at all, and the reactor is to forget it.
    DeregisterThenDone,
}

/// What a server makes of the outcome of an operation.
#[derive(Debug, PartialEq, Eq)]
pub struct Progress {
    pub report: Option<Report>,
    pub next: Next,
}

/// What a [`Report`] says.
pub enum ReportView {
    Disconnected,
    Request(Seq<char>),
}

/// What a [`Progress`] says.
pub struct ProgressView {
    pub report: Option<ReportView>,
    pub next: Next,
}

impl View for Report {
    type V = ReportView;

    open spec fn view(&self) -> ReportView {
        match self {
            Report::Disconnected => ReportView::Disconnected,
            Report::Request(text) => ReportView::Request(text@),
        }
    }
}

impl View for Progress {
    type V = ProgressView;

    open spec fn view(&self) -> ProgressView {
        ProgressView {
            report: match self.report {
                Some(report) => Some(report@),
                None => None,
            },
            next: self.next,
        }
    }
}

/// How far a connection has come.
#[verifier::ext_equal]
pub enum Phase {
    /// The connection is new.
    Start,
    /// These bytes of the request have been read.
    Read { received: Seq<u8> },
    /// `written` bytes of the response have been written.
    Write { written: nat },
    /// The response has been written.
    Flush,
}

/// The phase in which `server` starts on a connection: the non-blocking server has no
/// reactor to register it with.
pub open spec fn first_phase(server: Server) -> Phase {
    match server {
        Server::NonBlocking => reading(),
        _ => Phase::Start,
    }
}

/// The phase in which nothing has been read.
pub open spec fn reading() -> Phase {
    Phase::Read { received: Seq::empty() }
}

/// Whether `operation` is what is done in `phase`: a server reads into what is left of the
/// buffer, and writes what is left of the response.
pub open spec fn is_operation_of(phase: Phase, operation: Operation) -> bool {
    match phase {
        Phase::Start => operation is Register,
        Phase::Read { received } => operation matches Operation::Read { limit } && limit
            == REQUEST_LEN - received.len(),
        Phase::Write { written } => operation matches Operation::Write { bytes } && bytes@
            == http::response_bytes().skip(written as int),
        Phase::Flush => operation is Flush,
    }
}

/// Whether `event` can come of the operation of `phase`: no more is read or written than was
/// asked for.
pub open spec fn accepts(phase: Phase, event: IoEvent) -> bool {
    match (phase, event) {
        (Phase::Start, IoEvent::Registered) => true,
        (Phase::Read { received }, IoEvent::Received(chunk)) => received.len() + chunk@.len()
            <= REQUEST_LEN,
        (Phase::Write { written }, IoEvent::Sent(n)) => written + n
            <= http::response_bytes().len(),
        (Phase::Flush, IoEvent::Flushed) => true,
        (Phase::Start, IoEvent::WouldBlock) => false,
        (_, IoEvent::WouldBlock) => true,
        _ => false,
    }
}

/// What `server` does once the client is gone, and the phase that it would go on with is
/// `following`.
pub open spec fn disconnected(server: Server, phase: Phase, following: Phase) -> (
    Phase,
    ProgressView,
) {
    let report = Some(ReportView::Disconnected);
    match server {
        Server::Graceful => (following, ProgressView { report, next: Next::Continue }),
        _ => (phase, ProgressView { report, next: Next::Done }),
    }
}

/// What `server` makes of `chunk`, read when `received` had been read before: a request that
/// ends here is reported and answered.
pub open spec fn received(server: Server, received: Seq<u8>, chunk: Seq<u8>) -> (
    Phase,
    ProgressView,
) {
    let so_far = received + chunk;
    let answering = Phase::Write { written: 0 };
    if chunk.len() == 0 {
        disconnected(server, Phase::Read { received }, answering)
    } else if http::ends_request(so_far) {
        let report = Some(ReportView::Request(http::text_of(so_far)));
        (answering, ProgressView { report, next: Next::Continue })
    } else {
        (
            Phase::Read { received: so_far },
            ProgressView { report: None, next: Next::Continue },
        )
    }
}

/// What `server` makes of `n` bytes written, when `written` bytes had been written before.
pub open spec fn sent(server: Server, written: nat, n: nat) -> (Phase, ProgressView) {
    if n == 0 {
        disconnected(server, Phase::Write { written }, Phase::Flush)
    } else {
        (
            if written + n == http::response_bytes().len() {
                Phase::Flush
            } else {
                Phase::Write { written: written + n }
            },
            ProgressView { report: None, next: Next::Continue },
        )
    }
}

/// What `server` makes of `event` in `phase`, and the phase that it leads to.
pub open spec fn transition(server: Server, phase: Phase, event: IoEvent) -> (
    Phase,
    ProgressView,
) {
    match (phase, event) {
        (Phase::Start, IoEvent::Registered) => (
            reading(),
            ProgressView { report: None, next: Next::Continue },
        ),
        (Phase::Read { received: before }, IoEvent::Received(chunk)) => received(
            server,
            before,
            chunk@,
        ),
        (Phase::Write { written }, IoEvent::Sent(n)) => sent(server, written, n as nat),
        (Phase::Flush, IoEvent::Flushed) => (
            phase,
            ProgressView {
                report: None,
                next: match server {
                    Server::NonBlocking => Next::Done,
                    _ => Next::DeregisterThenDone,
                },
            },
        ),
        _ => (phase, ProgressView { report: None, next: Next::Pending }),
    }
}

/// How far a connection has come, with what that takes.
enum ExchangeState {
    Start,
    Read { request: [u8; 1024], read: usize },
    Write { response: &'static [u8], written: usize },
    Flush,
}

/// One connection of a server.
pub struct Exchange {
    server: Server,
    state: ExchangeState,
}

impl View for Exchange {
    type V = Phase;

    closed spec fn view(&self) -> Phase {
        match self.state {
            ExchangeState::Start => Phase::Start,
            ExchangeState::Read { request, read } => Phase::Read {
                received: request@.take(read as int),
            },
            ExchangeState::Write { response, written } => Phase::Write {
                written: written as nat,
            },
            ExchangeState::Flush => Phase::Flush,
        }
    }
}

impl Exchange {
    /// The server that the connection belongs to.
    pub closed spec fn server(self) -> Server {
        self.server
    }

    /// The buffer holds all that was read, and part of the response remains to be written
    /// as long as it is being written.
    pub closed spec fn wf(self) -> bool {
        match self.state {
            ExchangeState::Read { request, read } => read <= REQUEST_LEN,
            ExchangeState::Write { response, written } => {
                &&& response@ == http::response_bytes()
                &&& written < response@.len()
            },
            _ => true,
        }
    }

    /// A new connection of `server`.
    pub fn new(server: Server) -> (exchange: Exchange)
        ensures
            exchange.wf(),
            exchange.server() == server,
            exchange@ == first_phase(server),
    {
        let state = match server {
            Server::NonBlocking => ExchangeState::Read { request: [0u8;1024], read: 0 },
            _ => ExchangeState::Start,
        };
        Exchange { server, state }
    }

    /// The operation that the connection needs next.
    pub fn operation(&self) -> (operation: Operation)
        requires
            self.wf(),
        ensures
            is_operation_of(self@, operation),
    {
        match &self.state {
            ExchangeState::Start => Operation::Register,
            ExchangeState::Read { read, .. } => Operation::Read { limit: REQUEST_LEN - *read },
            ExchangeState::Write { response, written } => {
                let bytes = vstd::slice::slice_subrange(*response, *written, response.len());
                Operation::Write { bytes }
            },
            ExchangeState::Flush => Operation::Flush,
        }
    }

    /// Whether `event` can come of the connection's operation.
    pub fn accepts(&self, event: &IoEvent) -> (accepted: bool)
        requires
            self.wf(),
        ensures
            accepted == accepts(self@, *event),
    {
        match (&self.state, event) {
            (ExchangeState::Start, IoEvent::Registered) => true,
            (ExchangeState::Read { read, .. }, IoEvent::Received(chunk)) => chunk.len()
                <= REQUEST_LEN - *read,
            (ExchangeState::Write { response, written }, IoEvent::Sent(n)) => *n
                <= response.len() - *written,
            (ExchangeState::Flush, IoEvent::Flushed) => true,
            (ExchangeState::Start, IoEvent::WouldBlock) => false,
            (_, IoEvent::WouldBlock) => true,
            _ => false,
        }
    }

    /// What to do now that the client is gone: the graceful server goes on with
    /// `following`.
    fn disconnect(&mut self, following: ExchangeState) -> (progress: Progress)
        requires
            old(self).wf(),
            (Exchange { server: old(self).server, state: following }).wf(),
        ensures
            final(self).wf(),
            final(self).server() == old(self).server(),
            (final(self)@, progress@) == disconnected(
                old(self).server(),
                old(self)@,
                (Exchange { server: old(self).server, state: following })@,
            ),
    {
        let report = Some(Report::Disconnected);
        match self.server {
            Server::Graceful => {
                self.state = following;
                Progress { report, next: Next::Continue }
            },
            _ => Progress { report, next: Next::Done },
        }
    }

    /// Takes in `chunk`, read from the connection.
    fn receive(&mut self, chunk: &Vec<u8>) -> (progress: Progress)
        requires
            old(self).wf(),
            old(self)@ matches Phase::Read { received } && received.len() + chunk@.len()
                <= REQUEST_LEN,
        ensures
            final(self).wf(),
            final(self).server() == old(self).server(),
            (final(self)@, progress@) == received(
                old(self).server(),
                old(self)@->received,
                chunk@,
            ),
    {
        if chunk.len() == 0 {
            return self.disconnect(ExchangeState::Write { response: response(), written: 0 });
        }
        let mut report: Option<Report> = None;
        if let ExchangeState::Read { request, read } = &self.state {
            let filled = place(*request, *read, chunk);
            let total: usize = *read + chunk.len();
            assert(filled@.take(total as int) == old(self)@->received + chunk@);
            if is_request_end(&filled, total) {
                report = Some(Report::Request(request_text(&filled, total)));
                self.state = ExchangeState::Write { response: response(), written: 0 };
            } else {
                self.state = ExchangeState::Read { request: filled, read: total };
            }
        }
        Progress { report, next: Next::Continue }
    }

    /// Takes in that `n` bytes of the response were written.
    fn sent(&mut self, n: usize) -> (progress: Progress)
        requires
            old(self).wf(),
            old(self)@ matches Phase::Write { written } && written + n
                <= http::response_bytes().len(),
        ensures
            final(self).wf(),
            final(self).server() == old(self).server(),
            (final(self)@, progress@) == sent(old(self).server(), old(self)@->written, n as nat),
    {
        if n == 0 {
            return self.disconnect(ExchangeState::Flush);
        }
        if let ExchangeState::Write { response, written } = &self.state {
            let len: usize = response.len();
            let total: usize = *written + n;
            if total == len {
                self.state = ExchangeState::Flush;
            } else {
                self.state = ExchangeState::Write { response: *response, written: total };
            }
        }
        Progress { report: None, next: Next::Continue }
    }

    /// Takes in what came of the connection's operation.
    pub fn step(&mut self, event: IoEvent) -> (progress: Progress)
        requires
            old(self).wf(),
            accepts(old(self)@, event),
        ensures
            final(self).wf(),
            final(self).server() == old(self).server(),
            (final(self)@, progress@) == transition(old(self).server(), old(self)@, event),
    {
        match event {
            IoEvent::Registered => {
                self.state = ExchangeState::Read { request: [0u8;1024], read: 0 };
                assert(self@ =~= reading());
                Progress { report: None, next: Next::Continue }
            },
            IoEvent::Received(chunk) => self.receive(&chunk),
            IoEvent::Sent(n) => self.sent(n),
            IoEvent::Flushed => {
                let next = match self.server {
                    Server::NonBlocking => Next::Done,
                    _ => Next::DeregisterThenDone,
                };
                Progress { report: None, next }
            },
            IoEvent::WouldBlock => Progress { report: None, next: Next::Pending },
        }
    }
}

} // verus!
