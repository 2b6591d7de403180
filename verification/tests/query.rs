use c_ares::error::TransportError;
use c_ares::query::{
    attempt_timeout, deadline, next_server, Decision, Event, Outcome, Phase, Policy, QueryState,
    Transport,
};

fn policy(tries: u32, servers: usize) -> Policy {
    Policy { timeout: 500, tries, servers, use_tcp: false }
}

#[test]
fn timeout_doubles_with_every_attempt() {
    assert_eq!(attempt_timeout(500, 0), 500);
    assert_eq!(attempt_timeout(500, 1), 500);
    assert_eq!(attempt_timeout(500, 2), 1000);
    assert_eq!(attempt_timeout(500, 3), 2000);
    assert_eq!(attempt_timeout(500, 4), 4000);
    assert_eq!(attempt_timeout(1, 64), 1 << 63);
    assert_eq!(attempt_timeout(1, 65), u64::MAX);
    assert_eq!(attempt_timeout(3, 64), u64::MAX);
    assert_eq!(attempt_timeout(0, 4000000000), 0);
    assert_eq!(attempt_timeout(7, u32::MAX), u64::MAX);
}

#[test]
fn deadline_saturates() {
    assert_eq!(deadline(1000, 500, 1), 1500);
    assert_eq!(deadline(1000, 500, 3), 3000);
    assert_eq!(deadline(u64::MAX - 10, 500, 1), u64::MAX);
}

#[test]
fn next_server_wraps() {
    assert_eq!(next_server(0, 3), 1);
    assert_eq!(next_server(1, 3), 2);
    assert_eq!(next_server(2, 3), 0);
    assert_eq!(next_server(0, 1), 0);
    assert_eq!(next_server(usize::MAX, 3), 0);
}

#[test]
fn start_sends_to_the_first_server_over_udp() {
    let (q, d) = QueryState::new().start(&policy(3, 2), 100);
    assert_eq!(d, Decision::Send { server: 0, transport: Transport::Udp });
    assert_eq!(q.phase, Phase::AwaitingResponse);
    assert_eq!(q.attempt, 1);
    assert_eq!(q.sent_at, 100);
    assert_eq!(q.deadline, 600);
}

#[test]
fn start_over_tcp_when_forced() {
    let p = Policy { timeout: 500, tries: 3, servers: 2, use_tcp: true };
    let (q, d) = QueryState::new().start(&p, 0);
    assert_eq!(d, Decision::Send { server: 0, transport: Transport::Tcp });
    assert_eq!(q.transport, Transport::Tcp);
}

#[test]
fn three_tries_and_no_response_time_out_once() {
    let p = policy(3, 2);
    let (q, _) = QueryState::new().start(&p, 0);
    // Before the deadline nothing happens.
    assert_eq!(q.on_tick(&p, 499), (q, Decision::Nothing));
    let (q, d) = q.on_tick(&p, q.deadline);
    assert_eq!(d, Decision::Send { server: 1, transport: Transport::Udp });
    assert_eq!((q.attempt, q.deadline), (2, 500 + 1000));
    let (q, d) = q.on_tick(&p, q.deadline);
    assert_eq!(d, Decision::Send { server: 0, transport: Transport::Udp });
    assert_eq!((q.attempt, q.deadline), (3, 1500 + 2000));
    let (q, d) = q.on_tick(&p, q.deadline);
    assert_eq!(d, Decision::Complete(Outcome::TimedOut));
    assert_eq!(q.phase, Phase::TimedOut);
    assert_eq!(q.attempt, 3);
    // Nothing moves it any more.
    assert_eq!(q.on_tick(&p, u64::MAX), (q, Decision::Nothing));
    assert_eq!(q.cancel(), (q, Decision::Nothing));
    assert_eq!(q.on_response(&p, 0, Transport::Udp, false, 0), (q, Decision::Nothing));
    assert!(!q.is_live());
}

#[test]
fn response_completes() {
    let p = policy(3, 2);
    let (q, _) = QueryState::new().start(&p, 0);
    let (q, d) = q.on_response(&p, 0, Transport::Udp, false, 10);
    assert_eq!(d, Decision::Complete(Outcome::Answered));
    assert_eq!(q.phase, Phase::Completed);
}

#[test]
fn response_from_another_server_is_ignored() {
    let p = policy(3, 2);
    let (q, _) = QueryState::new().start(&p, 0);
    assert_eq!(q.on_response(&p, 1, Transport::Udp, false, 10), (q, Decision::Nothing));
    assert_eq!(q.on_response(&p, 0, Transport::Tcp, false, 10), (q, Decision::Nothing));
}

#[test]
fn truncation_goes_to_tcp_without_using_an_attempt() {
    let p = policy(3, 2);
    let (q, _) = QueryState::new().start(&p, 0);
    let (q, d) = q.on_response(&p, 0, Transport::Udp, true, 10);
    assert_eq!(d, Decision::Send { server: 0, transport: Transport::Tcp });
    assert_eq!(q.attempt, 1);
    assert_eq!(q.transport, Transport::Tcp);
    assert_eq!(q.deadline, 510);
    // Over TCP a truncated response completes.
    let (q, d) = q.on_response(&p, 0, Transport::Tcp, true, 20);
    assert_eq!(d, Decision::Complete(Outcome::Answered));
    assert_eq!(q.phase, Phase::Completed);
}

#[test]
fn cancel_completes_a_live_query() {
    let p = policy(3, 2);
    let (q, d) = QueryState::new().cancel();
    assert_eq!(d, Decision::Complete(Outcome::Cancelled));
    assert_eq!(q.phase, Phase::Cancelled);
    let (q, _) = QueryState::new().start(&p, 0);
    let (q, d) = q.step(&p, Event::Cancel, 5);
    assert_eq!(d, Decision::Complete(Outcome::Cancelled));
    assert_eq!(q.step(&p, Event::Cancel, 6), (q, Decision::Nothing));
}

#[test]
fn transient_failure_uses_an_attempt() {
    let p = policy(2, 2);
    let (q, _) = QueryState::new().start(&p, 0);
    let (q, d) = q.on_failure(&p, 0, Transport::Udp, TransportError::Io, true, 7);
    assert_eq!(d, Decision::Send { server: 1, transport: Transport::Udp });
    assert_eq!((q.attempt, q.sent_at, q.deadline), (2, 7, 1007));
    let (q, d) = q.on_failure(&p, 1, Transport::Udp, TransportError::Closed, true, 8);
    assert_eq!(d, Decision::Complete(Outcome::Failed(TransportError::Closed)));
    assert_eq!(q.phase, Phase::Failed);
}

#[test]
fn lasting_failure_ends_the_query() {
    let p = policy(3, 2);
    let (q, _) = QueryState::new().start(&p, 0);
    assert_eq!(
        q.on_failure(&p, 1, Transport::Udp, TransportError::Io, false, 7),
        (q, Decision::Nothing)
    );
    let (_, d) = q.on_failure(&p, 0, Transport::Udp, TransportError::ConnectionRefused, false, 7);
    assert_eq!(d, Decision::Complete(Outcome::Failed(TransportError::ConnectionRefused)));
}

#[test]
fn start_twice_does_nothing() {
    let p = policy(3, 2);
    let (q, _) = QueryState::new().start(&p, 0);
    assert_eq!(q.step(&p, Event::Start, 9), (q, Decision::Nothing));
}
