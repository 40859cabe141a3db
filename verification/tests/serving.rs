use tiny_runtime::blocking::Blocking;
use tiny_runtime::counter::Counter;
use tiny_runtime::exchange::{Exchange, IoEvent, Next, Operation, Progress, Report, Server};
use tiny_runtime::http::{is_request_end, place, request_text, response, REQUEST_LEN};
use tiny_runtime::listener::{graceful_shutdown, served, AcceptEvent, Acceptor, Listen};
use tiny_runtime::pool::Pool;
use tiny_runtime::scheduler::{Scheduler, Step, Waker};

const RESPONSE: &[u8] =
    b"HTTP/1.1 200 OK\r\nContent-Length: 12\nConnection: close\r\n\r\nHello world!";

/// A waker of the task `task`.
fn waker_of(task: u32) -> Waker<u32> {
    let mut scheduler = Scheduler::default();
    scheduler.spawn(task);
    match scheduler.run() {
        Step::Poll { waker, .. } => waker,
        Step::Wait => panic!("the task was spawned"),
    }
}

/// Runs until nothing is runnable, and gives the tasks that were to be polled.
fn drain(scheduler: &mut Scheduler<u32>) -> Vec<u32> {
    let mut polled = vec![];
    while let Step::Poll { task, .. } = scheduler.run() {
        polled.push(*task);
    }
    polled
}

fn received(bytes: &[u8]) -> IoEvent {
    IoEvent::Received(bytes.to_vec())
}

fn progress(next: Next) -> Progress {
    Progress { report: None, next }
}

fn request(text: &str) -> Progress {
    Progress {
        report: Some(Report::Request(text.to_string())),
        next: Next::Continue,
    }
}

fn disconnected(next: Next) -> Progress {
    Progress { report: Some(Report::Disconnected), next }
}

/// A connection of `server` that is about to be read from.
fn reading(server: Server) -> Exchange {
    let mut exchange = Exchange::new(server);
    if server != Server::NonBlocking {
        assert_eq!(exchange.operation(), Operation::Register);
        assert_eq!(exchange.step(IoEvent::Registered), progress(Next::Continue));
    }
    exchange
}

/// A connection of `server` that is about to be written to.
fn writing(server: Server) -> Exchange {
    let mut exchange = reading(server);
    assert_eq!(
        exchange.step(received(b"GET /\r\n\r\n")),
        request("GET /\r\n\r\n")
    );
    exchange
}

/// A connection of `server` that is about to be flushed.
fn flushing(server: Server) -> Exchange {
    let mut exchange = writing(server);
    assert_eq!(exchange.step(IoEvent::Sent(69)), progress(Next::Continue));
    exchange
}

#[test]
fn response_is_a_greeting() {
    assert_eq!(response(), RESPONSE);
    assert_eq!(response().len(), 69);
    assert_eq!(&response()[57..], b"Hello world!");
}

#[test]
fn request_ends_with_an_empty_line() {
    let mut buffer = [0u8; 1024];
    buffer[..7].copy_from_slice(b"abc\r\n\r\n"[..7].as_ref());
    assert!(is_request_end(&buffer, 7));
    assert!(!is_request_end(&buffer, 6));
    assert!(!is_request_end(&buffer, 8));
    assert!(!is_request_end(&buffer, 3));
    assert!(!is_request_end(&buffer, 0));
    let only_end = place([0u8; 1024], 0, &b"\r\n\r\n".to_vec());
    assert!(is_request_end(&only_end, 4));
    let last = place([0u8; 1024], 1020, &b"\r\n\r\n".to_vec());
    assert!(is_request_end(&last, REQUEST_LEN));
}

#[test]
fn chunk_is_placed_at_the_offset() {
    let filled = place([7u8; 1024], 2, &vec![1, 2, 3]);
    assert_eq!(&filled[..6], &[7, 7, 1, 2, 3, 7]);
    assert_eq!(filled[6..], [7u8; 1018]);
}

#[test]
fn request_is_read_as_text() {
    let buffer = place([0u8; 1024], 0, &b"caf\xc3\xa9\xff!".to_vec());
    assert_eq!(request_text(&buffer, 5), "caf\u{e9}");
    assert_eq!(request_text(&buffer, 7), "caf\u{e9}\u{fffd}!");
    assert_eq!(request_text(&buffer, 0), "");
}

#[test]
fn whole_exchange_of_each_server() {
    let servers = [
        (Server::NonBlocking, Next::Done),
        (Server::Asynchronous, Next::DeregisterThenDone),
        (Server::Graceful, Next::DeregisterThenDone),
    ];
    for (server, end) in servers {
        let mut exchange = reading(server);
        assert_eq!(exchange.operation(), Operation::Read { limit: 1024 });
        assert_eq!(exchange.step(IoEvent::WouldBlock), progress(Next::Pending));
        assert_eq!(
            exchange.step(received(b"GET / HTTP/1.1\r\n\r\n")),
            request("GET / HTTP/1.1\r\n\r\n")
        );
        assert_eq!(exchange.operation(), Operation::Write { bytes: RESPONSE });
        assert_eq!(exchange.step(IoEvent::Sent(10)), progress(Next::Continue));
        assert_eq!(exchange.operation(), Operation::Write { bytes: &RESPONSE[10..] });
        assert_eq!(exchange.step(IoEvent::WouldBlock), progress(Next::Pending));
        assert_eq!(exchange.step(IoEvent::Sent(59)), progress(Next::Continue));
        assert_eq!(exchange.operation(), Operation::Flush);
        assert_eq!(exchange.step(IoEvent::WouldBlock), progress(Next::Pending));
        assert_eq!(exchange.step(IoEvent::Flushed), progress(end));
        assert_eq!(exchange.operation(), Operation::Flush);
        assert_eq!(exchange.step(IoEvent::Flushed), progress(end));
    }
}

#[test]
fn pieces_of_a_request_are_joined() {
    for server in [Server::NonBlocking, Server::Asynchronous, Server::Graceful] {
        let mut exchange = reading(server);
        assert_eq!(exchange.step(received(b"GE")), progress(Next::Continue));
        assert_eq!(exchange.operation(), Operation::Read { limit: 1022 });
        assert_eq!(exchange.step(IoEvent::WouldBlock), progress(Next::Pending));
        assert_eq!(exchange.step(received(b"T /\r\n\r")), progress(Next::Continue));
        assert_eq!(exchange.step(received(b"\n")), request("GET /\r\n\r\n"));
        assert_eq!(exchange.operation(), Operation::Write { bytes: RESPONSE });
    }
}

#[test]
fn empty_line_in_a_piece_of_its_own_ends_the_request() {
    for server in [Server::NonBlocking, Server::Asynchronous, Server::Graceful] {
        let mut exchange = reading(server);
        assert_eq!(
            exchange.step(received(b"GET / HTTP/1.1\r\n")),
            progress(Next::Continue)
        );
        assert_eq!(
            exchange.step(received(b"\r\n")),
            request("GET / HTTP/1.1\r\n\r\n")
        );
    }
}

#[test]
fn request_that_goes_on_is_not_at_its_end() {
    for server in [Server::NonBlocking, Server::Asynchronous, Server::Graceful] {
        let mut exchange = reading(server);
        assert_eq!(exchange.step(received(b"a\r\n\r\nb")), progress(Next::Continue));
        assert_eq!(exchange.step(received(b"\r\n\r\n")), request("a\r\n\r\nb\r\n\r\n"));
    }
}

#[test]
fn full_buffer_leaves_no_room() {
    let servers = [
        (Server::NonBlocking, Next::Done),
        (Server::Asynchronous, Next::Done),
        (Server::Graceful, Next::Continue),
    ];
    for (server, next) in servers {
        let mut exchange = reading(server);
        assert_eq!(exchange.step(received(&[b'x'; 1000])), progress(Next::Continue));
        assert_eq!(exchange.operation(), Operation::Read { limit: 24 });
        assert!(exchange.accepts(&received(&[b'x'; 24])));
        assert!(!exchange.accepts(&received(&[b'x'; 25])));
        assert_eq!(exchange.step(received(&[b'x'; 24])), progress(Next::Continue));
        assert_eq!(exchange.operation(), Operation::Read { limit: 0 });
        assert!(!exchange.accepts(&received(b"x")));
        assert!(exchange.accepts(&received(b"")));
        assert_eq!(exchange.step(received(b"")), disconnected(next));
    }
}

#[test]
fn request_of_the_size_of_the_buffer_is_answered() {
    let mut bytes = vec![b'x'; 1020];
    bytes.extend_from_slice(b"\r\n\r\n");
    let mut exchange = reading(Server::Asynchronous);
    let text = String::from_utf8(bytes.clone()).unwrap();
    assert_eq!(exchange.step(received(&bytes)), request(&text));
}

#[test]
fn client_that_leaves_is_given_up() {
    for server in [Server::NonBlocking, Server::Asynchronous] {
        let mut exchange = reading(server);
        assert_eq!(exchange.step(received(b"")), disconnected(Next::Done));
        assert_eq!(exchange.operation(), Operation::Read { limit: 1024 });
        let mut exchange = writing(server);
        assert_eq!(exchange.step(IoEvent::Sent(0)), disconnected(Next::Done));
        assert_eq!(exchange.operation(), Operation::Write { bytes: RESPONSE });
    }
}

#[test]
fn graceful_server_goes_on_when_the_client_leaves() {
    let mut exchange = reading(Server::Graceful);
    assert_eq!(exchange.step(received(b"")), disconnected(Next::Continue));
    assert_eq!(exchange.operation(), Operation::Write { bytes: RESPONSE });
    assert_eq!(exchange.step(IoEvent::Sent(3)), progress(Next::Continue));
    assert_eq!(exchange.step(IoEvent::Sent(0)), disconnected(Next::Continue));
    assert_eq!(exchange.operation(), Operation::Flush);
    assert_eq!(
        exchange.step(IoEvent::Flushed),
        progress(Next::DeregisterThenDone)
    );
}

#[test]
fn events_belong_to_operations() {
    let start = Exchange::new(Server::Asynchronous);
    assert!(start.accepts(&IoEvent::Registered));
    assert!(!start.accepts(&IoEvent::WouldBlock));
    assert!(!start.accepts(&received(b"")));
    let read = reading(Server::Asynchronous);
    assert!(read.accepts(&IoEvent::WouldBlock));
    assert!(!read.accepts(&IoEvent::Sent(1)));
    let write = writing(Server::Asynchronous);
    assert!(write.accepts(&IoEvent::Sent(69)));
    assert!(!write.accepts(&IoEvent::Sent(70)));
    assert!(!write.accepts(&IoEvent::Flushed));
    let flush = flushing(Server::Graceful);
    assert!(flush.accepts(&IoEvent::Flushed));
    assert!(!flush.accepts(&IoEvent::Registered));
}

#[test]
fn response_arrives_in_any_pieces() {
    for size in 1..=69 {
        let mut exchange = writing(Server::Asynchronous);
        let mut sent: Vec<u8> = vec![];
        while let Operation::Write { bytes } = exchange.operation() {
            let n = std::cmp::min(size, bytes.len());
            sent.extend_from_slice(&bytes[..n]);
            assert_eq!(exchange.step(IoEvent::Sent(n)), progress(Next::Continue));
        }
        assert_eq!(sent, RESPONSE);
    }
}

#[test]
fn pool_serves_and_removes() {
    let mut pool = Pool::new();
    pool.accept('a');
    pool.accept('b');
    pool.accept('c');
    assert_eq!(pool.len(), 3);
    assert_eq!(pool.operation(1), Operation::Read { limit: 1024 });
    assert!(pool.accepts(1, &received(b"x")));
    assert_eq!(pool.step(0, IoEvent::WouldBlock), progress(Next::Pending));
    assert_eq!(pool.step(1, received(b"\r\n\r\n")), request("\r\n\r\n"));
    assert_eq!(pool.step(1, IoEvent::Sent(69)), progress(Next::Continue));
    assert_eq!(pool.step(1, IoEvent::Flushed), progress(Next::Done));
    assert_eq!(pool.step(2, IoEvent::WouldBlock), progress(Next::Pending));
    assert!(pool.can_end_turn());
    pool.end_turn();
    assert_eq!(pool.len(), 2);
    assert_eq!((*pool.connection(0), *pool.connection(1)), ('a', 'c'));
    assert!(pool.can_end_turn());
    pool.end_turn();
    assert_eq!(pool.len(), 2);
}

#[test]
fn positions_shift_while_connections_are_removed() {
    let mut pool = Pool::new();
    for name in ['a', 'b', 'c', 'd'] {
        pool.accept(name);
    }
    assert_eq!(pool.step(0, received(b"")), disconnected(Next::Done));
    assert_eq!(pool.step(1, received(b"")), disconnected(Next::Done));
    assert!(pool.can_end_turn());
    pool.end_turn();
    assert_eq!((*pool.connection(0), *pool.connection(1)), ('b', 'd'));
}

#[test]
fn removal_can_run_past_the_end() {
    let mut pool = Pool::new();
    pool.accept('a');
    pool.accept('b');
    assert_eq!(pool.step(0, received(b"")), disconnected(Next::Done));
    assert!(pool.can_end_turn());
    assert_eq!(pool.step(1, received(b"")), disconnected(Next::Done));
    assert!(!pool.can_end_turn());
}

#[test]
fn acceptor_spawns_what_it_accepts() {
    let mut scheduler = Scheduler::default();
    let mut acceptor = Acceptor::new();
    assert_eq!(acceptor, Acceptor::Start);
    assert!(acceptor.step(AcceptEvent::Bound, &mut scheduler));
    assert_eq!(acceptor, Acceptor::Accept);
    assert!(!acceptor.step(AcceptEvent::WouldBlock, &mut scheduler));
    assert!(!acceptor.step(AcceptEvent::Accepted(4), &mut scheduler));
    assert_eq!(acceptor, Acceptor::Accept);
    assert_eq!(drain(&mut scheduler), vec![4]);
}

#[test]
fn graceful_server_counts_what_it_accepts() {
    let mut scheduler = Scheduler::default();
    let mut tasks = Counter::default();
    let mut interrupt = Blocking::default();
    let mut listen = Listen::new();
    assert_eq!(listen, Listen::Bind);
    listen.bound();
    assert_eq!(listen, Listen::Serve);
    let output = listen.serve(
        Some(11),
        &mut tasks,
        &mut interrupt,
        &mut scheduler,
        waker_of(1),
    );
    assert_eq!(output, None);
    assert_eq!(listen, Listen::Serve);
    assert_eq!(tasks.count(), 1);
    assert_eq!(drain(&mut scheduler), vec![11]);
    interrupt.complete(&mut scheduler);
    assert_eq!(drain(&mut scheduler), vec![1]);
    let output = listen.serve(
        None,
        &mut tasks,
        &mut interrupt,
        &mut scheduler,
        waker_of(1),
    );
    assert_eq!(output, Some(()));
    assert_eq!(listen, Listen::Shutdown);
    assert_eq!(tasks.count(), 1);
}

#[test]
fn connection_accepted_with_the_interrupt_is_served() {
    let mut scheduler = Scheduler::default();
    let mut tasks = Counter::default();
    let mut interrupt = Blocking::default();
    interrupt.complete(&mut scheduler);
    let mut listen = Listen::new();
    listen.bound();
    let output = listen.serve(
        Some(5),
        &mut tasks,
        &mut interrupt,
        &mut scheduler,
        waker_of(1),
    );
    assert_eq!(output, Some(()));
    assert_eq!(tasks.count(), 1);
    assert_eq!(drain(&mut scheduler), vec![5]);
}

#[test]
fn shutdown_waits_for_the_last_task() {
    let mut scheduler = Scheduler::default();
    let mut tasks = Counter::default();
    let mut timer = Blocking::default();
    tasks.increment();
    assert_eq!(graceful_shutdown(&mut timer, &mut tasks, waker_of(1)), None);
    tasks.decrement(&mut scheduler);
    assert_eq!(drain(&mut scheduler), vec![1]);
    assert_eq!(graceful_shutdown(&mut timer, &mut tasks, waker_of(1)), Some(()));
}

#[test]
fn count_is_the_connections_that_are_open() {
    let mut scheduler = Scheduler::default();
    let mut tasks = Counter::default();
    let mut interrupt = Blocking::default();
    let mut timer = Blocking::default();
    let mut listen = Listen::new();
    listen.bound();
    for task in [10, 11, 12] {
        let output = listen.serve(
            Some(task),
            &mut tasks,
            &mut interrupt,
            &mut scheduler,
            waker_of(1),
        );
        assert_eq!(output, None);
    }
    assert_eq!(tasks.count(), 3);
    assert_eq!(served(&mut tasks, &mut scheduler), Some(()));
    assert_eq!(tasks.count(), 2);
    assert_eq!(drain(&mut scheduler), vec![10, 11, 12]);
    interrupt.complete(&mut scheduler);
    let output = listen.serve(
        Some(13),
        &mut tasks,
        &mut interrupt,
        &mut scheduler,
        waker_of(1),
    );
    assert_eq!(output, Some(()));
    assert_eq!(drain(&mut scheduler), vec![1, 13]);
    for left in [3, 2, 1] {
        assert_eq!(tasks.count(), left);
        assert_eq!(graceful_shutdown(&mut timer, &mut tasks, waker_of(1)), None);
        assert_eq!(drain(&mut scheduler), vec![]);
        assert_eq!(served(&mut tasks, &mut scheduler), Some(()));
    }
    assert_eq!(drain(&mut scheduler), vec![1]);
    assert_eq!(graceful_shutdown(&mut timer, &mut tasks, waker_of(1)), Some(()));
}

#[test]
fn shutdown_waits_no_longer_than_the_timer() {
    let mut scheduler = Scheduler::default();
    let mut tasks = Counter::default();
    let mut timer = Blocking::default();
    tasks.increment();
    assert_eq!(graceful_shutdown(&mut timer, &mut tasks, waker_of(1)), None);
    timer.complete(&mut scheduler);
    assert_eq!(drain(&mut scheduler), vec![1]);
    assert_eq!(graceful_shutdown(&mut timer, &mut tasks, waker_of(2)), Some(()));
    tasks.decrement(&mut scheduler);
    assert_eq!(drain(&mut scheduler), vec![1]);
}

#[test]
fn shutdown_without_active_tasks_is_immediate() {
    let mut tasks = Counter::default();
    let mut timer = Blocking::default();
    assert_eq!(graceful_shutdown(&mut timer, &mut tasks, waker_of(1)), Some(()));
}
