use pollserve::connection::{Action, IoEvent, Outcome};
use pollserve::response::canned_response;
use pollserve::scheduler::Scheduler;

/// A simulated client: the bytes it will send, how many it sends per read,
/// whether it closes early, and what it has received so far.
struct Client {
    request: Vec<u8>,
    sent: usize,
    chunk: usize,
    close_after: Option<usize>,
    received: Vec<u8>,
    finished: bool,
}

impl Client {
    fn sending(request: &[u8], chunk: usize) -> Client {
        Client {
            request: request.to_vec(),
            sent: 0,
            chunk,
            close_after: None,
            received: Vec::new(),
            finished: false,
        }
    }

    fn closing_after(request: &[u8], close_after: usize) -> Client {
        Client {
            request: request.to_vec(),
            sent: 0,
            chunk: 1,
            close_after: Some(close_after),
            received: Vec::new(),
            finished: false,
        }
    }
}

/// Drive the scheduler until every connection is gone, producing each
/// connection's event from its own simulated client. Returns the number of
/// iterations taken.
fn run_to_completion(sched: &mut Scheduler, clients: &mut [Client], live: &mut Vec<usize>) -> usize {
    let response = canned_response();
    let mut iterations = 0;
    while sched.num_connections() > 0 {
        iterations += 1;
        assert!(iterations < 10_000, "event loop failed to settle");
        let n = sched.num_connections();
        assert_eq!(n, live.len());
        let mut events: Vec<IoEvent> = Vec::new();
        for i in 0..n {
            let client = &mut clients[live[i]];
            let event = match sched.next_action(i) {
                Action::Read { max } => {
                    let avail = client.request.len() - client.sent;
                    let take = avail.min(max).min(client.chunk);
                    if let Some(limit) = client.close_after {
                        if client.sent >= limit {
                            IoEvent::Closed
                        } else {
                            let take = take.min(limit - client.sent);
                            let data = client.request[client.sent..client.sent + take].to_vec();
                            client.sent += take;
                            IoEvent::DataRead { data }
                        }
                    } else if take == 0 {
                        IoEvent::WouldBlock
                    } else {
                        let data = client.request[client.sent..client.sent + take].to_vec();
                        client.sent += take;
                        IoEvent::DataRead { data }
                    }
                },
                Action::Write { start, end } => {
                    client.received.extend_from_slice(&response[start..end]);
                    IoEvent::BytesWritten { count: end - start }
                },
                Action::Flush => IoEvent::Flushed,
            };
            assert!(sched.accepts_event(i, &event));
            events.push(event);
        }
        let outcomes = sched.advance_all(events);
        assert_eq!(outcomes.len(), n);
        for i in (0..n).rev() {
            match outcomes[i] {
                Outcome::Pending => {},
                Outcome::Finished => {
                    clients[live[i]].finished = true;
                    live.remove(i);
                },
                Outcome::Failed => {
                    live.remove(i);
                },
            }
        }
        assert_eq!(sched.num_connections(), live.len());
    }
    iterations
}

#[test]
fn scenario_single_write_full_response() {
    let mut sched = Scheduler::new();
    sched.add_connection();
    let mut clients = vec![Client::sending(b"GET / HTTP/1.1\r\n\r\n", usize::MAX)];
    let mut live = vec![0];
    run_to_completion(&mut sched, &mut clients, &mut live);
    assert!(clients[0].finished);
    assert_eq!(clients[0].sent, 18);
    assert_eq!(clients[0].received, canned_response());
}

#[test]
fn scenario_eighteen_single_byte_writes() {
    let mut sched = Scheduler::new();
    sched.add_connection();
    let mut clients = vec![Client::sending(b"GET / HTTP/1.1\r\n\r\n", 1)];
    let mut live = vec![0];
    let iterations = run_to_completion(&mut sched, &mut clients, &mut live);
    assert!(clients[0].finished);
    assert_eq!(clients[0].received, canned_response());
    assert!(iterations >= 18 + 14 + 1);
}

#[test]
fn scenario_close_after_three_bytes() {
    let mut sched = Scheduler::new();
    sched.add_connection();
    let mut clients = vec![Client::closing_after(b"GET", 3)];
    let mut live = vec![0];
    run_to_completion(&mut sched, &mut clients, &mut live);
    assert!(clients[0].finished);
    assert_eq!(clients[0].received, Vec::<u8>::new());
}

#[test]
fn scenario_close_is_removed_within_one_iteration() {
    let mut sched = Scheduler::new();
    sched.add_connection();
    let outcomes = sched.advance_all(vec![IoEvent::Closed]);
    assert_eq!(outcomes, vec![Outcome::Finished]);
    assert_eq!(sched.num_connections(), 0);
}

#[test]
fn scenario_fifty_concurrent_clients() {
    let mut sched = Scheduler::new();
    let mut clients: Vec<Client> = Vec::new();
    let mut live: Vec<usize> = Vec::new();
    for k in 0..50 {
        sched.add_connection();
        // Different chunk sizes make the clients finish at different
        // iterations, so removals happen while others are still live.
        clients.push(Client::sending(b"GET / HTTP/1.1\r\n\r\n", 1 + (k % 5)));
        live.push(k);
    }
    run_to_completion(&mut sched, &mut clients, &mut live);
    for client in &clients {
        assert!(client.finished);
        assert_eq!(client.received, canned_response());
    }
}

#[test]
fn mixed_outcomes_remove_the_right_connections() {
    let mut sched = Scheduler::new();
    for _ in 0..4 {
        sched.add_connection();
    }
    // Give the four connections different histories before the mixed
    // iteration, so the survivors are distinguishable.
    let events = vec![
        IoEvent::DataRead { data: b"a".to_vec() },
        IoEvent::DataRead { data: b"bb".to_vec() },
        IoEvent::DataRead { data: b"ccc".to_vec() },
        IoEvent::DataRead { data: b"dddd".to_vec() },
    ];
    let outcomes = sched.advance_all(events);
    assert_eq!(outcomes, vec![Outcome::Pending; 4]);

    // Finish the first and third; the second and fourth stay, in order.
    let events = vec![IoEvent::Closed, IoEvent::WouldBlock, IoEvent::IoFailed, IoEvent::WouldBlock];
    let outcomes = sched.advance_all(events);
    assert_eq!(
        outcomes,
        vec![Outcome::Finished, Outcome::Pending, Outcome::Failed, Outcome::Pending],
    );
    assert_eq!(sched.num_connections(), 2);
    assert_eq!(sched.connection(0).bytes_read(), 2);
    assert_eq!(sched.connection(1).bytes_read(), 4);
}

#[test]
fn every_connection_is_visited_each_iteration() {
    let mut sched = Scheduler::new();
    for _ in 0..3 {
        sched.add_connection();
    }
    // One connection with a huge backlog (delivered 5 bytes per iteration)
    // cannot starve the others: each gets an outcome every iteration.
    let events = vec![
        IoEvent::DataRead { data: b"aaaaa".to_vec() },
        IoEvent::DataRead { data: b"b".to_vec() },
        IoEvent::WouldBlock,
    ];
    let outcomes = sched.advance_all(events);
    assert_eq!(outcomes.len(), 3);
    assert_eq!(sched.num_connections(), 3);
    assert_eq!(sched.connection(0).bytes_read(), 5);
    assert_eq!(sched.connection(1).bytes_read(), 1);
    assert_eq!(sched.connection(2).bytes_read(), 0);
}
