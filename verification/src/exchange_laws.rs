//! What holds of a connection from its first operation to its last.
use crate::exchange::{
    self, IoEvent, Next, Operation, Phase, Progress, Report, ReportView, Server,
};
use crate::http::{self, REQUEST_LEN};
use vstd::prelude::*;

verus! {

/// The phase that a connection of `server` is in after `events`.
pub open spec fn phase_after(server: Server, events: Seq<IoEvent>) -> Phase
    decreases events.len(),
{
    if events.len() == 0 {
        exchange::first_phase(server)
    } else {
        exchange::transition(server, phase_after(server, events.drop_last()), events.last()).0
    }
}

/// Whether `events` can happen one after the other on a connection of `server`.
pub open spec fn possible(server: Server, events: Seq<IoEvent>) -> bool
    decreases events.len(),
{
    events.len() > 0 ==> {
        &&& possible(server, events.drop_last())
        &&& exchange::accepts(phase_after(server, events.drop_last()), events.last())
    }
}

/// All that was read from the connection in `events`.
pub open spec fn bytes_received(events: Seq<IoEvent>) -> Seq<u8>
    decreases events.len(),
{
    if events.len() == 0 {
        Seq::empty()
    } else {
        match events.last() {
            IoEvent::Received(chunk) => bytes_received(events.drop_last()) + chunk@,
            _ => bytes_received(events.drop_last()),
        }
    }
}

/// All that the connection took in `events`: of what it was given to write, each time, as
/// many bytes as it said.
pub open spec fn bytes_sent(server: Server, events: Seq<IoEvent>) -> Seq<u8>
    decreases events.len(),
{
    if events.len() == 0 {
        Seq::empty()
    } else {
        let earlier = bytes_sent(server, events.drop_last());
        match (phase_after(server, events.drop_last()), events.last()) {
            (Phase::Write { written }, IoEvent::Sent(n)) => earlier + http::response_bytes().skip(
                written as int,
            ).take(n as int),
            _ => earlier,
        }
    }
}

/// Whether a read found in `events` that the client was gone.
pub open spec fn left_while_reading(events: Seq<IoEvent>) -> bool {
    exists|i: int|
        0 <= i < events.len() && (#[trigger] events[i] matches IoEvent::Received(chunk)
            && chunk@.len() == 0)
}

/// Whether a write found in `events` that the client was gone.
pub open spec fn left_while_writing(events: Seq<IoEvent>) -> bool {
    exists|i: int| 0 <= i < events.len() && #[trigger] events[i] == IoEvent::Sent(0)
}

/// When the client left while it was read from: at the last of `events`, or before.
proof fn lemma_left_while_reading(events: Seq<IoEvent>)
    requires
        events.len() > 0,
    ensures
        left_while_reading(events) <==> left_while_reading(events.drop_last()) || (
        events.last() matches IoEvent::Received(chunk) && chunk@.len() == 0),
{
    let earlier = events.drop_last();
    assert(events[events.len() - 1] == events.last());
    assert forall|i: int| 0 <= i < earlier.len() implies #[trigger] events[i] == earlier[i] by {}
    if left_while_reading(earlier) {
        let i = choose|i: int|
            0 <= i < earlier.len() && (#[trigger] earlier[i] matches IoEvent::Received(chunk)
                && chunk@.len() == 0);
        assert(events[i] == earlier[i]);
    }
}

/// When the client left while it was written to: at the last of `events`, or before.
proof fn lemma_left_while_writing(events: Seq<IoEvent>)
    requires
        events.len() > 0,
    ensures
        left_while_writing(events) <==> left_while_writing(events.drop_last()) || events.last()
            == IoEvent::Sent(0),
{
    let earlier = events.drop_last();
    assert(events[events.len() - 1] == events.last());
    assert forall|i: int| 0 <= i < earlier.len() implies #[trigger] events[i] == earlier[i] by {}
    if left_while_writing(earlier) {
        let i = choose|i: int|
            0 <= i < earlier.len() && #[trigger] earlier[i] == IoEvent::Sent(0);
        assert(events[i] == earlier[i]);
    }
}

/// The client is sent the response from its first byte on, in order and with nothing
/// repeated or left out, in however many pieces: all of it once the connection is being
/// flushed, unless it is the graceful server's and the client left while it was written to.
pub proof fn law_client_gets_the_response(server: Server, events: Seq<IoEvent>)
    requires
        possible(server, events),
    ensures
        bytes_sent(server, events).is_prefix_of(http::response_bytes()),
        phase_after(server, events) matches Phase::Write { written } ==> {
            &&& written < http::response_bytes().len()
            &&& bytes_sent(server, events) == http::response_bytes().take(written as int)
        },
        phase_after(server, events) is Flush && (server != Server::Graceful
            || !left_while_writing(events)) ==> bytes_sent(server, events)
            == http::response_bytes(),
    decreases events.len(),
{
    http::law_response_is_ascii();
    if events.len() > 0 {
        let earlier = events.drop_last();
        law_client_gets_the_response(server, earlier);
        lemma_sent_before_writing(server, earlier);
        lemma_left_while_writing(events);
        match (phase_after(server, earlier), events.last()) {
            (Phase::Write { written }, IoEvent::Sent(n)) => {
                assert(bytes_sent(server, events) == http::response_bytes().take(written + n));
                assert(http::response_bytes().take(http::response_bytes().len() as int)
                    == http::response_bytes());
            },
            (Phase::Read { .. }, IoEvent::Received(_)) => {
                assert(bytes_sent(server, events) == http::response_bytes().take(0));
            },
            _ => {},
        }
    }
}

/// All that the connection took in `events`: as many of the first bytes of what it was handed
/// to write each time, in `operations`, as it said.
pub open spec fn bytes_taken(operations: Seq<Operation>, events: Seq<IoEvent>) -> Seq<u8>
    decreases events.len(),
{
    if events.len() == 0 {
        Seq::empty()
    } else {
        let earlier = bytes_taken(operations.drop_last(), events.drop_last());
        match (operations.last(), events.last()) {
            (Operation::Write { bytes }, IoEvent::Sent(n)) => earlier + bytes@.take(n as int),
            _ => earlier,
        }
    }
}

/// Of whatever a connection is handed to write, what it takes adds up to the response from its
/// first byte on, with nothing repeated or left out: to all of it once the connection is to be
/// flushed, unless it is the graceful server's and the client left while it was written to.
/// What is left is then handed out, and no more.
pub proof fn law_what_is_handed_out_is_the_response(
    server: Server,
    operations: Seq<Operation>,
    events: Seq<IoEvent>,
    next: Operation,
)
    requires
        possible(server, events),
        operations.len() == events.len(),
        forall|i: int|
            0 <= i < events.len() ==> exchange::is_operation_of(
                phase_after(server, events.take(i)),
                #[trigger] operations[i],
            ),
        exchange::is_operation_of(phase_after(server, events), next),
    ensures
        bytes_taken(operations, events).is_prefix_of(http::response_bytes()),
        next is Flush && (server != Server::Graceful || !left_while_writing(events))
            ==> bytes_taken(operations, events) == http::response_bytes(),
        next matches Operation::Write { bytes } ==> {
            &&& bytes@.len() > 0
            &&& bytes_taken(operations, events) + bytes@ == http::response_bytes()
        },
        next is Register || next is Read ==> bytes_taken(operations, events).len() == 0,
{
    lemma_taken_is_sent(server, operations, events);
    law_client_gets_the_response(server, events);
    lemma_sent_before_writing(server, events);
    if let Phase::Write { written } = phase_after(server, events) {
        let whole = http::response_bytes();
        assert(whole.take(written as int) + whole.skip(written as int) =~= whole);
    }
}

/// What a connection takes of what it is handed is what it takes of the response.
proof fn lemma_taken_is_sent(server: Server, operations: Seq<Operation>, events: Seq<IoEvent>)
    requires
        possible(server, events),
        operations.len() == events.len(),
        forall|i: int|
            0 <= i < events.len() ==> exchange::is_operation_of(
                phase_after(server, events.take(i)),
                #[trigger] operations[i],
            ),
    ensures
        bytes_taken(operations, events) == bytes_sent(server, events),
    decreases events.len(),
{
    if events.len() > 0 {
        let earlier = events.drop_last();
        assert forall|i: int| 0 <= i < earlier.len() implies exchange::is_operation_of(
            phase_after(server, earlier.take(i)),
            #[trigger] operations.drop_last()[i],
        ) by {
            assert(earlier.take(i) == events.take(i));
            assert(operations.drop_last()[i] == operations[i]);
        }
        lemma_taken_is_sent(server, operations.drop_last(), earlier);
        assert(events.take(events.len() - 1) == earlier);
        assert(exchange::is_operation_of(
            phase_after(server, earlier),
            operations[events.len() - 1],
        ));
    }
}

/// A connection begins with reading into the whole buffer; where there is a reactor, it is
/// registered before that.
pub proof fn law_first_operation(server: Server, first: Operation, second: Operation)
    requires
        exchange::is_operation_of(exchange::first_phase(server), first),
        exchange::is_operation_of(
            exchange::transition(
                server,
                exchange::first_phase(server),
                IoEvent::Registered,
            ).0,
            second,
        ),
    ensures
        server == Server::NonBlocking ==> first == (Operation::Read { limit: 1024 }),
        server != Server::NonBlocking ==> {
            &&& first == Operation::Register
            &&& second == (Operation::Read { limit: 1024 })
            &&& ({
                let progress = exchange::transition(
                    server,
                    exchange::first_phase(server),
                    IoEvent::Registered,
                ).1;
                progress.next == Next::Continue && progress.report is None
            })
        },
{
}

/// Whatever can come of the operation that was handed out is taken in, and nothing else: no
/// more bytes than there was room for or than there were, and only registering never blocks.
pub proof fn law_every_outcome_is_taken_in(phase: Phase, operation: Operation, event: IoEvent)
    requires
        exchange::is_operation_of(phase, operation),
        phase matches Phase::Write { written } ==> written <= http::response_bytes().len(),
    ensures
        exchange::accepts(phase, event) <==> match (operation, event) {
            (Operation::Register, IoEvent::Registered) => true,
            (Operation::Read { limit }, IoEvent::Received(chunk)) => chunk@.len() <= limit,
            (Operation::Write { bytes }, IoEvent::Sent(n)) => n <= bytes@.len(),
            (Operation::Flush, IoEvent::Flushed) => true,
            (operation, IoEvent::WouldBlock) => operation !is Register,
            _ => false,
        },
{
}

/// What was read comes off the room in the buffer, and a request that is at its end is
/// answered from the first byte of the response on: the operation that follows a piece of a
/// request follows from the operation that read it.
pub proof fn law_operation_after_a_piece(
    server: Server,
    received: Seq<u8>,
    chunk: Vec<u8>,
    before: Seq<u8>,
    operation: Operation,
    next: Operation,
)
    requires
        chunk@.len() > 0,
        exchange::is_operation_of(Phase::Read { received }, operation),
        exchange::is_operation_of(
            exchange::transition(
                server,
                Phase::Read { received },
                IoEvent::Received(chunk),
            ).0,
            next,
        ),
    ensures
        operation matches Operation::Read { limit } && limit + received.len() == 1024,
        received + chunk@ == before + seq![13u8, 10, 13, 10] ==> {
            next matches Operation::Write { bytes } && bytes@ == http::response_bytes()
        },
        next matches Operation::Read { limit } ==> limit + chunk@.len() == operation->limit,
        next is Read || next is Write,
{
    http::law_empty_line_ends_a_request(before);
    assert(http::response_bytes().skip(0) =~= http::response_bytes());
}

/// A piece that brings a request to its end, which is anything followed by an empty line, has
/// the whole request printed, and the server goes on at once.
pub proof fn law_request_is_noticed(
    server: Server,
    received: Seq<u8>,
    chunk: Vec<u8>,
    before: Seq<u8>,
)
    requires
        chunk@.len() > 0,
        received + chunk@ == before + seq![13u8, 10, 13, 10],
    ensures
        ({
            let (phase, progress) = exchange::transition(
                server,
                Phase::Read { received },
                IoEvent::Received(chunk),
            );
            &&& phase == Phase::Write { written: 0 }
            &&& progress.report == Some(
                ReportView::Request(http::text_of(before + seq![13u8, 10, 13, 10])),
            )
            &&& progress.next == Next::Continue
        }),
{
    http::law_empty_line_ends_a_request(before);
}

/// A piece that does not bring a request to its end is kept, behind what was read before it,
/// and the server reads on at once, with nothing printed.
pub proof fn law_incomplete_request_is_kept(server: Server, received: Seq<u8>, chunk: Vec<u8>)
    requires
        chunk@.len() > 0,
        ({
            let all = received + chunk@;
            let n: int = all.len() as int;
            n < 4 || all[n - 4] != 13 || all[n - 3] != 10 || all[n - 2] != 13 || all[n - 1] != 10
        }),
    ensures
        ({
            let (phase, progress) = exchange::transition(
                server,
                Phase::Read { received },
                IoEvent::Received(chunk),
            );
            &&& phase == Phase::Read { received: received + chunk@ }
            &&& progress.report is None
            &&& progress.next == Next::Continue
        }),
{
    if http::ends_request(received + chunk@) {
        let before = http::law_only_an_empty_line_ends_a_request(received + chunk@);
        let line = seq![13u8, 10, 13, 10];
        assert(forall|i: int| 0 <= i < 4 ==> (before + line)[before.len() + i] == line[i]);
    }
}

/// It does not matter whether a request arrives in one piece or in two, unless it is at its end
/// after the first.
pub proof fn law_pieces_can_be_joined(
    server: Server,
    received: Seq<u8>,
    first: Vec<u8>,
    second: Vec<u8>,
    both: Vec<u8>,
)
    requires
        first@.len() > 0,
        second@.len() > 0,
        both@ == first@ + second@,
        exchange::transition(
            server,
            Phase::Read { received },
            IoEvent::Received(first),
        ).0 is Read,
    ensures
        ({
            let middle = exchange::transition(
                server,
                Phase::Read { received },
                IoEvent::Received(first),
            );
            &&& exchange::transition(server, middle.0, IoEvent::Received(second))
                == exchange::transition(server, Phase::Read { received }, IoEvent::Received(both))
            &&& middle.1.report is None
            &&& middle.1.next == Next::Continue
        }),
{
    assert(received + first@ + second@ =~= received + both@);
}

/// What was written is not written again: what is handed out next is what is left of what was
/// handed out before, and when nothing is left, the connection is to be flushed. The server
/// goes on at once, with nothing printed.
pub proof fn law_operation_after_a_write(
    server: Server,
    phase: Phase,
    n: usize,
    operation: Operation,
    next: Operation,
)
    requires
        exchange::is_operation_of(phase, operation),
        exchange::accepts(phase, IoEvent::Sent(n)),
        n > 0,
        exchange::is_operation_of(
            exchange::transition(server, phase, IoEvent::Sent(n)).0,
            next,
        ),
    ensures
        operation is Write,
        n <= operation->bytes@.len(),
        n < operation->bytes@.len() ==> {
            next matches Operation::Write { bytes } && bytes@ == operation->bytes@.skip(n as int)
        },
        n == operation->bytes@.len() ==> next is Flush,
        exchange::transition(server, phase, IoEvent::Sent(n)).1.report is None,
        exchange::transition(server, phase, IoEvent::Sent(n)).1.next == Next::Continue,
{
    let whole = http::response_bytes();
    let written = phase->written as int;
    assert(whole.skip(written).skip(n as int) =~= whole.skip(written + n));
}

/// Whenever a read gives no bytes, however much was read before, the client's leaving is
/// printed. The graceful server goes on to write the whole response; the others finish with the
/// connection as it is, and the reactor is not told to forget it.
pub proof fn law_leaving_while_read_from_is_noticed(
    server: Server,
    received: Seq<u8>,
    chunk: Vec<u8>,
    next: Operation,
)
    requires
        chunk@.len() == 0,
        exchange::is_operation_of(
            exchange::transition(
                server,
                Phase::Read { received },
                IoEvent::Received(chunk),
            ).0,
            next,
        ),
    ensures
        ({
            let (phase, progress) = exchange::transition(
                server,
                Phase::Read { received },
                IoEvent::Received(chunk),
            );
            &&& progress.report == Some(ReportView::Disconnected)
            &&& server != Server::Graceful ==> {
                &&& progress.next == Next::Done
                &&& phase == Phase::Read { received }
            }
            &&& server == Server::Graceful ==> {
                &&& progress.next == Next::Continue
                &&& next matches Operation::Write { bytes } && bytes@ == http::response_bytes()
            }
        }),
{
    assert(http::response_bytes().skip(0) =~= http::response_bytes());
}

/// Whenever a write takes no bytes, however many were taken before, the client's leaving is
/// printed. The graceful server goes on to flush; the others finish with the connection as
/// it is, and the reactor is not told to forget it.
pub proof fn law_leaving_while_written_to_is_noticed(server: Server, written: nat, next: Operation)
    requires
        exchange::is_operation_of(
            exchange::transition(server, Phase::Write { written }, IoEvent::Sent(0)).0,
            next,
        ),
    ensures
        ({
            let (phase, progress) = exchange::transition(
                server,
                Phase::Write { written },
                IoEvent::Sent(0),
            );
            &&& progress.report == Some(ReportView::Disconnected)
            &&& server != Server::Graceful ==> {
                &&& progress.next == Next::Done
                &&& phase == Phase::Write { written }
            }
            &&& server == Server::Graceful ==> progress.next == Next::Continue && next is Flush
        }),
{
}

/// A client is taken to have left exactly when a read or a write came to no bytes.
pub proof fn law_only_leaving_is_reported_as_such(server: Server, phase: Phase, event: IoEvent)
    requires
        exchange::accepts(phase, event),
    ensures
        exchange::transition(server, phase, event).1.report == Some(ReportView::Disconnected)
            <==> event == IoEvent::Sent(0) || (event matches IoEvent::Received(chunk)
            && chunk@.len() == 0),
{
}

/// What is said of a progress is what it holds: the same way to go on, and a report of the same
/// kind, with the same text.
pub proof fn law_progress_says_what_it_holds(progress: Progress)
    ensures
        progress@.next == progress.next,
        progress@.report is Some <==> progress.report is Some,
        progress@.report == Some(ReportView::Disconnected) <==> progress.report == Some(
            Report::Disconnected,
        ),
        progress.report matches Some(Report::Request(text)) ==> progress@.report == Some(
            ReportView::Request(text@),
        ),
{
}

/// A connection that is flushed is finished with, in silence; where there is a reactor, it is
/// told to forget the connection.
pub proof fn law_flushed_connection_is_finished(server: Server, phase: Phase)
    requires
        exchange::is_operation_of(phase, Operation::Flush),
    ensures
        ({
            let progress = exchange::transition(server, phase, IoEvent::Flushed).1;
            &&& progress.report is None
            &&& server == Server::NonBlocking ==> progress.next == Next::Done
            &&& server != Server::NonBlocking ==> progress.next == Next::DeregisterThenDone
        }),
{
}

/// Whether some of the first of `events`, up to any point, amount to a request.
pub open spec fn request_came(events: Seq<IoEvent>) -> bool {
    exists|i: int|
        0 <= i <= events.len() && http::ends_request(bytes_received(#[trigger] events.take(i)))
}

/// A request is read however it arrives in pieces: what has been read is exactly what the
/// client sent, and a server goes on to answer as soon as what the client sent ends with an
/// empty line, not before and not later. Only the graceful server answers without a request,
/// when the client left while it was read from.
pub proof fn law_request_is_read_in_pieces(server: Server, events: Seq<IoEvent>)
    requires
        possible(server, events),
        server != Server::Graceful || !left_while_reading(events),
    ensures
        phase_after(server, events) is Start || phase_after(server, events) is Read
            <==> !request_came(events),
        phase_after(server, events) matches Phase::Read { received } ==> received
            == bytes_received(events),
        request_came(events) ==> http::ends_request(bytes_received(events)),
    decreases events.len(),
{
    lemma_received(server, events);
    if events.len() == 0 {
        assert forall|i: int| 0 <= i <= events.len() implies !http::ends_request(
            bytes_received(#[trigger] events.take(i)),
        ) by {
            assert(events.take(i) == events);
        }
    } else {
        let earlier = events.drop_last();
        lemma_left_while_reading(events);
        law_request_is_read_in_pieces(server, earlier);
        lemma_received(server, earlier);
        lemma_request_came(events);
        assert(earlier.take(earlier.len() as int) == earlier);
        if let IoEvent::Received(chunk) = events.last() {
            if chunk@.len() == 0 {
                assert(bytes_received(events) == bytes_received(earlier));
            }
        }
    }
}

/// A request came by the last of `events`, or before it.
proof fn lemma_request_came(events: Seq<IoEvent>)
    requires
        events.len() > 0,
    ensures
        request_came(events) <==> request_came(events.drop_last()) || http::ends_request(
            bytes_received(events),
        ),
{
    let earlier = events.drop_last();
    assert(events.take(events.len() as int) == events);
    if request_came(earlier) {
        let i = choose|i: int|
            0 <= i <= earlier.len() && http::ends_request(
                bytes_received(#[trigger] earlier.take(i)),
            );
        assert(events.take(i) == earlier.take(i));
    }
    if request_came(events) && !http::ends_request(bytes_received(events)) {
        let i = choose|i: int|
            0 <= i <= events.len() && http::ends_request(
                bytes_received(#[trigger] events.take(i)),
            );
        assert(earlier.take(i) == events.take(i));
    }
}

/// What has been read is what the client sent, and fits into the buffer.
proof fn lemma_received(server: Server, events: Seq<IoEvent>)
    requires
        possible(server, events),
    ensures
        phase_after(server, events) matches Phase::Read { received } ==> received
            == bytes_received(events),
        phase_after(server, events) is Start ==> bytes_received(events).len() == 0,
        bytes_received(events).len() <= REQUEST_LEN,
    decreases events.len(),
{
    if events.len() > 0 {
        let earlier = events.drop_last();
        lemma_received(server, earlier);
        if let IoEvent::Received(chunk) = events.last() {
            if chunk@.len() == 0 {
                assert(bytes_received(events) == bytes_received(earlier));
            }
        }
    }
}

/// No server reads more of a request than it has room for.
pub proof fn law_request_fits(server: Server, events: Seq<IoEvent>)
    requires
        possible(server, events),
    ensures
        bytes_received(events).len() <= REQUEST_LEN,
{
    lemma_received(server, events);
}

/// The piece that completes a request has all that the client sent reported and answered;
/// a piece that does not has the server read on.
pub proof fn law_complete_request_is_reported(
    server: Server,
    events: Seq<IoEvent>,
    chunk: Vec<u8>,
)
    requires
        possible(server, events.push(IoEvent::Received(chunk))),
        chunk@.len() > 0,
    ensures
        ({
            let before = phase_after(server, events);
            let (phase, progress) = exchange::transition(server, before, IoEvent::Received(chunk));
            let all = bytes_received(events) + chunk@;
            &&& progress.next == Next::Continue
            &&& if http::ends_request(all) {
                &&& phase == Phase::Write { written: 0 }
                &&& progress.report == Some(ReportView::Request(http::text_of(all)))
            } else {
                &&& phase == Phase::Read { received: all }
                &&& progress.report is None
            }
        }),
{
    assert(events.push(IoEvent::Received(chunk)).drop_last() == events);
    lemma_received(server, events);
}

/// The response is written only to a client that sent a request. Only the graceful server
/// also writes it to one that left while it was read from.
pub proof fn law_only_requests_are_answered(server: Server, events: Seq<IoEvent>)
    requires
        possible(server, events),
        server != Server::Graceful || !left_while_reading(events),
        phase_after(server, events) is Write || phase_after(server, events) is Flush,
    ensures
        http::ends_request(bytes_received(events)),
{
    law_request_is_read_in_pieces(server, events);
}

/// The place of a phase in the course of a connection.
pub open spec fn rank(phase: Phase) -> int {
    match phase {
        Phase::Start => 0,
        Phase::Read { .. } => 1,
        Phase::Write { .. } => 2,
        Phase::Flush => 3,
    }
}

/// The place of the last phase in which `event` can happen.
pub open spec fn last_rank(event: IoEvent) -> int {
    match event {
        IoEvent::Registered => 0,
        IoEvent::Received(_) => 1,
        IoEvent::Sent(_) => 2,
        _ => 3,
    }
}

/// The first of events that are possible are possible.
proof fn lemma_possible_before(server: Server, events: Seq<IoEvent>, i: int)
    requires
        possible(server, events),
        0 <= i <= events.len(),
    ensures
        possible(server, events.take(i)),
    decreases events.len(),
{
    if i == events.len() {
        assert(events.take(i) == events);
    } else {
        lemma_possible_before(server, events.drop_last(), i);
        assert(events.drop_last().take(i) == events.take(i));
    }
}

/// A connection only goes forward, from start to reading to writing to flushing: nothing is
/// registered or read once the response is being written, and nothing is written any more
/// once it is being flushed.
pub proof fn law_phases_go_forward(server: Server, events: Seq<IoEvent>, i: int, j: int)
    requires
        possible(server, events),
        0 <= i <= j <= events.len(),
    ensures
        rank(phase_after(server, events.take(i))) <= rank(phase_after(server, events.take(j))),
        j < events.len() ==> rank(phase_after(server, events.take(i))) <= last_rank(events[j]),
    decreases j - i,
{
    if i < j {
        law_phases_go_forward(server, events, i, j - 1);
        lemma_possible_before(server, events, j);
        assert(events.take(j).drop_last() == events.take(j - 1));
    }
    if j < events.len() {
        lemma_possible_before(server, events, j + 1);
        assert(events.take(j + 1).drop_last() == events.take(j));
    }
}

/// A connection is registered once, before anything else is done on it; one of the
/// non-blocking server never is.
pub proof fn law_registered_once_and_first(server: Server, events: Seq<IoEvent>, i: int)
    requires
        possible(server, events),
        0 <= i < events.len(),
    ensures
        events[i] is Registered <==> i == 0 && server != Server::NonBlocking,
{
    lemma_possible_before(server, events, i + 1);
    assert(events.take(i + 1).drop_last() == events.take(i));
    if i == 0 {
        assert(events.take(0) == Seq::<IoEvent>::empty());
    } else {
        lemma_possible_before(server, events, 1);
        assert(events.take(1).drop_last() == Seq::<IoEvent>::empty());
        law_phases_go_forward(server, events, 1, i);
        assert(rank(phase_after(server, events.take(1))) >= 1);
    }
}

/// A connection is given up exactly when a read or a write came to no bytes, for the client is
/// gone then, and not even so by the graceful server; otherwise it ends when the response is
/// flushed.
pub proof fn law_how_a_connection_ends(server: Server, phase: Phase, event: IoEvent)
    requires
        exchange::accepts(phase, event),
    ensures
        ({
            let progress = exchange::transition(server, phase, event).1;
            let ends = progress.next is Done || progress.next is DeregisterThenDone;
            let left = event == IoEvent::Sent(0) || (event matches IoEvent::Received(chunk)
                && chunk@.len() == 0);
            &&& ends <==> event is Flushed || (left && server != Server::Graceful)
            &&& left <==> progress.report == Some(ReportView::Disconnected)
            &&& progress.next is Pending <==> event is WouldBlock
        }),
{
}

/// An operation that would block is tried again when the connection is ready: the
/// connection stays as it is.
pub proof fn law_blocked_operation_is_retried(server: Server, phase: Phase)
    ensures
        exchange::transition(server, phase, IoEvent::WouldBlock).0 == phase,
        exchange::transition(server, phase, IoEvent::WouldBlock).1.next == Next::Pending,
        exchange::transition(server, phase, IoEvent::WouldBlock).1.report is None,
{
}

/// How much a connection still has to do.
pub open spec fn work_left(phase: Phase) -> int {
    match phase {
        Phase::Start => REQUEST_LEN + http::response_bytes().len() + 2,
        Phase::Read { received } => REQUEST_LEN - received.len() + http::response_bytes().len() + 1,
        Phase::Write { written } => http::response_bytes().len() - written,
        Phase::Flush => 0,
    }
}

/// Serving a connection comes to a stop: each time that a server goes on with it at once,
/// there is less left to do.
pub proof fn law_going_on_gets_further(server: Server, phase: Phase, event: IoEvent)
    requires
        exchange::accepts(phase, event),
        phase matches Phase::Write { written } ==> written < http::response_bytes().len(),
        exchange::transition(server, phase, event).1.next == Next::Continue,
    ensures
        0 <= work_left(exchange::transition(server, phase, event).0) < work_left(phase),
{
    http::law_response_is_ascii();
}

/// Nothing is sent before the response is being written.
proof fn lemma_sent_before_writing(server: Server, events: Seq<IoEvent>)
    requires
        possible(server, events),
    ensures
        phase_after(server, events) is Start || phase_after(server, events) is Read
            ==> bytes_sent(server, events) == Seq::<u8>::empty(),
    decreases events.len(),
{
    if events.len() > 0 {
        lemma_sent_before_writing(server, events.drop_last());
    }
}

} // verus!
