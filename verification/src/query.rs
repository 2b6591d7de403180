//! The life of one query: which server it waits for, over which transport,
//! how often it has been tried, and what ends it.
//!
//! Every event is a function from the state of the query to its next state
//! and a decision for the channel to carry out. A query is completed by
//! exactly one decision, after which nothing moves it any more.

use vstd::prelude::*;
use crate::error::TransportError;
use vstd::arithmetic::div_mod::{
    lemma_fundamental_div_mod, lemma_fundamental_div_mod_converse, lemma_mod_bound,
};

verus! {

/// How a query travels to a nameserver.
#[derive(Clone, Copy, Debug, PartialEq, Eq, Structural)]
pub enum Transport {
    Udp,
    Tcp,
}

/// Where a query stands.
#[derive(Clone, Copy, Debug, PartialEq, Eq, Structural)]
pub enum Phase {
    /// Created, nothing sent yet.
    Pending,
    /// Sent, and waiting for the server or the deadline.
    AwaitingResponse,
    /// Ended by a response.
    Completed,
    /// Ended because every attempt ran out of time.
    TimedOut,
    /// Ended by the caller.
    Cancelled,
    /// Ended by a socket that failed for good.
    Failed,
}

/// The state of one query.
#[derive(Clone, Copy, Debug, PartialEq, Eq, Structural)]
pub struct QueryState {
    pub phase: Phase,
    /// The index of the nameserver the query was last sent to.
    pub server: usize,
    pub transport: Transport,
    /// How many attempts have been made, the current one included.
    pub attempt: u32,
    /// When the current attempt was sent.
    pub sent_at: u64,
    /// When the current attempt runs out of time.
    pub deadline: u64,
}

/// What the channel's options mean for a single query.
#[derive(Clone, Copy, Debug, PartialEq, Eq, Structural)]
pub struct Policy {
    /// The time the first attempt gets.
    pub timeout: u64,
    /// How many attempts a query gets.
    pub tries: u32,
    /// How many nameservers there are.
    pub servers: usize,
    /// Whether every query uses TCP from the start.
    pub use_tcp: bool,
}

/// How a query ended.
#[derive(Clone, Copy, Debug, PartialEq, Eq, Structural)]
pub enum Outcome {
    /// A matching response arrived; its bytes are to be decoded.
    Answered,
    /// The retry budget is used up.
    TimedOut,
    /// The caller gave the query up.
    Cancelled,
    /// The socket failed and the query could not be sent again.
    Failed(TransportError),
}

/// What the channel is to do after an event.
#[derive(Clone, Copy, Debug, PartialEq, Eq, Structural)]
pub enum Decision {
    /// Nothing: the event did not concern the query.
    Nothing,
    /// Send the request to this server over this transport.
    Send { server: usize, transport: Transport },
    /// Remove the query and call its completion handler.
    Complete(Outcome),
}

/// What can happen to a query.
#[derive(Clone, Copy, Debug, PartialEq, Eq, Structural)]
pub enum Event {
    /// The query is issued.
    Start,
    /// A response with the id of the query arrived from `server` over
    /// `transport`.
    Response { server: usize, transport: Transport, truncated: bool },
    /// Time has passed.
    Tick,
    /// The caller gives the query up.
    Cancel,
    /// The socket to `server` over `transport` failed; a transient failure
    /// may pass when the query is sent again.
    Failure { server: usize, transport: Transport, error: TransportError, transient: bool },
}

impl Policy {
    /// A policy needs an attempt to make and a server to ask.
    pub open spec fn spec_valid(self) -> bool {
        self.tries >= 1 && self.servers >= 1
    }

    /// The transport a query starts with.
    pub open spec fn spec_first_transport(self) -> Transport {
        if self.use_tcp {
            Transport::Tcp
        } else {
            Transport::Udp
        }
    }
}

/// By how much the timeout is multiplied for attempt number `attempt`: it
/// doubles with every attempt.
pub open spec fn spec_backoff_factor(attempt: nat) -> nat
    decreases attempt,
{
    if attempt <= 1 {
        1
    } else {
        2 * spec_backoff_factor((attempt - 1) as nat)
    }
}

/// The server that gets the attempt after `server`: the next one, and the
/// first one after the last.
pub open spec fn spec_next_server(server: usize, servers: usize) -> usize {
    if server + 1 >= servers {
        0
    } else {
        (server + 1) as usize
    }
}

/// The time attempt number `attempt` gets, at most `u64::MAX`.
pub open spec fn spec_attempt_timeout(timeout: u64, attempt: u32) -> u64 {
    if timeout * spec_backoff_factor(attempt as nat) > u64::MAX {
        u64::MAX
    } else {
        (timeout * spec_backoff_factor(attempt as nat)) as u64
    }
}

/// When an attempt sent at `now` runs out of time, at most `u64::MAX`.
pub open spec fn spec_deadline(now: u64, timeout: u64, attempt: u32) -> u64 {
    if now + spec_attempt_timeout(timeout, attempt) > u64::MAX {
        u64::MAX
    } else {
        (now + spec_attempt_timeout(timeout, attempt)) as u64
    }
}

impl QueryState {
    /// A query that has not been sent.
    pub open spec fn spec_new() -> QueryState {
        QueryState {
            phase: Phase::Pending,
            server: 0,
            transport: Transport::Udp,
            attempt: 0,
            sent_at: 0,
            deadline: 0,
        }
    }

    /// True while the query can still be completed.
    pub open spec fn spec_is_live(self) -> bool {
        self.phase == Phase::Pending || self.phase == Phase::AwaitingResponse
    }

    /// Issuing: the first attempt goes to the first server.
    pub open spec fn spec_start(self, policy: Policy, now: u64) -> (QueryState, Decision) {
        if self.phase != Phase::Pending {
            (self, Decision::Nothing)
        } else {
            (
                QueryState {
                    phase: Phase::AwaitingResponse,
                    server: 0,
                    transport: policy.spec_first_transport(),
                    attempt: 1,
                    sent_at: now,
                    deadline: spec_deadline(now, policy.timeout, 1),
                },
                Decision::Send { server: 0, transport: policy.spec_first_transport() },
            )
        }
    }

    /// A response with the id of the query: one from another server than the
    /// one asked, or over another transport than the one used, is ignored; a
    /// truncated one over UDP sends the query again over TCP without counting
    /// as an attempt; any other completes the query.
    pub open spec fn spec_on_response(
        self,
        policy: Policy,
        server: usize,
        transport: Transport,
        truncated: bool,
        now: u64,
    ) -> (QueryState, Decision) {
        if self.phase != Phase::AwaitingResponse || server != self.server || transport
            != self.transport {
            (self, Decision::Nothing)
        } else if truncated && self.transport == Transport::Udp {
            (
                QueryState {
                    transport: Transport::Tcp,
                    sent_at: now,
                    deadline: spec_deadline(now, policy.timeout, self.attempt),
                    ..self
                },
                Decision::Send { server: self.server, transport: Transport::Tcp },
            )
        } else {
            (QueryState { phase: Phase::Completed, ..self }, Decision::Complete(Outcome::Answered))
        }
    }

    /// The passing of time: once the deadline is reached, the next server in
    /// turn gets the next attempt, or the query times out where none is left.
    pub open spec fn spec_on_tick(self, policy: Policy, now: u64) -> (QueryState, Decision) {
        if self.phase != Phase::AwaitingResponse || now < self.deadline {
            (self, Decision::Nothing)
        } else if self.attempt < policy.tries {
            let server = spec_next_server(self.server, policy.servers);
            (
                QueryState {
                    server,
                    attempt: (self.attempt + 1) as u32,
                    sent_at: now,
                    deadline: spec_deadline(now, policy.timeout, (self.attempt + 1) as u32),
                    ..self
                },
                Decision::Send { server, transport: self.transport },
            )
        } else {
            (QueryState { phase: Phase::TimedOut, ..self }, Decision::Complete(Outcome::TimedOut))
        }
    }

    /// The failure of a socket: a query that waits on another socket is not
    /// concerned; after a transient failure the next server in turn gets the
    /// next attempt while one is left; otherwise the query fails with the
    /// error.
    pub open spec fn spec_on_failure(
        self,
        policy: Policy,
        server: usize,
        transport: Transport,
        error: TransportError,
        transient: bool,
        now: u64,
    ) -> (QueryState, Decision) {
        if self.phase != Phase::AwaitingResponse || server != self.server || transport
            != self.transport {
            (self, Decision::Nothing)
        } else if transient && self.attempt < policy.tries {
            let server = spec_next_server(self.server, policy.servers);
            (
                QueryState {
                    server,
                    attempt: (self.attempt + 1) as u32,
                    sent_at: now,
                    deadline: spec_deadline(now, policy.timeout, (self.attempt + 1) as u32),
                    ..self
                },
                Decision::Send { server, transport: self.transport },
            )
        } else {
            (
                QueryState { phase: Phase::Failed, ..self },
                Decision::Complete(Outcome::Failed(error)),
            )
        }
    }

    /// Giving up: a live query is completed as cancelled.
    pub open spec fn spec_cancel(self) -> (QueryState, Decision) {
        if !self.spec_is_live() {
            (self, Decision::Nothing)
        } else {
            (
                QueryState { phase: Phase::Cancelled, ..self },
                Decision::Complete(Outcome::Cancelled),
            )
        }
    }

    /// The next state and the decision for any event.
    pub open spec fn spec_step(self, policy: Policy, event: Event, now: u64) -> (
        QueryState,
        Decision,
    ) {
        match event {
            Event::Start => self.spec_start(policy, now),
            Event::Response { server, transport, truncated } => self.spec_on_response(
                policy,
                server,
                transport,
                truncated,
                now,
            ),
            Event::Tick => self.spec_on_tick(policy, now),
            Event::Cancel => self.spec_cancel(),
            Event::Failure { server, transport, error, transient } => self.spec_on_failure(
                policy,
                server,
                transport,
                error,
                transient,
                now,
            ),
        }
    }

    /// A query that has not been sent.
    pub fn new() -> (q: QueryState)
        ensures
            q == QueryState::spec_new(),
    {
        QueryState {
            phase: Phase::Pending,
            server: 0,
            transport: Transport::Udp,
            attempt: 0,
            sent_at: 0,
            deadline: 0,
        }
    }

    /// True while the query can still be completed.
    pub fn is_live(&self) -> (b: bool)
        ensures
            b == self.spec_is_live(),
    {
        match self.phase {
            Phase::Pending => true,
            Phase::AwaitingResponse => true,
            _ => false,
        }
    }

    /// Issues the query at time `now`.
    pub fn start(self, policy: &Policy, now: u64) -> (r: (QueryState, Decision))
        ensures
            r == self.spec_start(*policy, now),
    {
        match self.phase {
            Phase::Pending => {
                let transport = if policy.use_tcp {
                    Transport::Tcp
                } else {
                    Transport::Udp
                };
                (
                    QueryState {
                        phase: Phase::AwaitingResponse,
                        server: 0,
                        transport,
                        attempt: 1,
                        sent_at: now,
                        deadline: deadline(now, policy.timeout, 1),
                    },
                    Decision::Send { server: 0, transport },
                )
            },
            _ => (self, Decision::Nothing),
        }
    }

    /// Takes a response that carries the id of the query and came from the
    /// nameserver with index `server` over `transport`.
    pub fn on_response(
        self,
        policy: &Policy,
        server: usize,
        transport: Transport,
        truncated: bool,
        now: u64,
    ) -> (r: (QueryState, Decision))
        ensures
            r == self.spec_on_response(*policy, server, transport, truncated, now),
    {
        match self.phase {
            Phase::AwaitingResponse => {
                if server != self.server || transport != self.transport {
                    return (self, Decision::Nothing);
                }
                let over_udp: bool = match self.transport {
                    Transport::Udp => true,
                    Transport::Tcp => false,
                };
                if truncated && over_udp {
                    (
                        QueryState {
                            phase: self.phase,
                            server: self.server,
                            transport: Transport::Tcp,
                            attempt: self.attempt,
                            sent_at: now,
                            deadline: deadline(now, policy.timeout, self.attempt),
                        },
                        Decision::Send { server: self.server, transport: Transport::Tcp },
                    )
                } else {
                    (
                        QueryState {
                            phase: Phase::Completed,
                            server: self.server,
                            transport: self.transport,
                            attempt: self.attempt,
                            sent_at: self.sent_at,
                            deadline: self.deadline,
                        },
                        Decision::Complete(Outcome::Answered),
                    )
                }
            },
            _ => (self, Decision::Nothing),
        }
    }

    /// Takes the passing of time up to `now`.
    pub fn on_tick(self, policy: &Policy, now: u64) -> (r: (QueryState, Decision))
        ensures
            r == self.spec_on_tick(*policy, now),
    {
        match self.phase {
            Phase::AwaitingResponse => {
                if now < self.deadline {
                    return (self, Decision::Nothing);
                }
                if self.attempt < policy.tries {
                    let server: usize = next_server(self.server, policy.servers);
                    let attempt: u32 = self.attempt + 1;
                    (
                        QueryState {
                            phase: self.phase,
                            server,
                            transport: self.transport,
                            attempt,
                            sent_at: now,
                            deadline: deadline(now, policy.timeout, attempt),
                        },
                        Decision::Send { server, transport: self.transport },
                    )
                } else {
                    (
                        QueryState {
                            phase: Phase::TimedOut,
                            server: self.server,
                            transport: self.transport,
                            attempt: self.attempt,
                            sent_at: self.sent_at,
                            deadline: self.deadline,
                        },
                        Decision::Complete(Outcome::TimedOut),
                    )
                }
            },
            _ => (self, Decision::Nothing),
        }
    }

    /// Takes the failure of the socket to `server` over `transport`.
    pub fn on_failure(
        self,
        policy: &Policy,
        server: usize,
        transport: Transport,
        error: TransportError,
        transient: bool,
        now: u64,
    ) -> (r: (QueryState, Decision))
        ensures
            r == self.spec_on_failure(*policy, server, transport, error, transient, now),
    {
        match self.phase {
            Phase::AwaitingResponse => {
                if server != self.server || transport != self.transport {
                    return (self, Decision::Nothing);
                }
                if transient && self.attempt < policy.tries {
                    let server: usize = next_server(self.server, policy.servers);
                    let attempt: u32 = self.attempt + 1;
                    (
                        QueryState {
                            phase: self.phase,
                            server,
                            transport: self.transport,
                            attempt,
                            sent_at: now,
                            deadline: deadline(now, policy.timeout, attempt),
                        },
                        Decision::Send { server, transport: self.transport },
                    )
                } else {
                    (
                        QueryState {
                            phase: Phase::Failed,
                            server: self.server,
                            transport: self.transport,
                            attempt: self.attempt,
                            sent_at: self.sent_at,
                            deadline: self.deadline,
                        },
                        Decision::Complete(Outcome::Failed(error)),
                    )
                }
            },
            _ => (self, Decision::Nothing),
        }
    }

    /// Gives the query up.
    pub fn cancel(self) -> (r: (QueryState, Decision))
        ensures
            r == self.spec_cancel(),
    {
        if self.is_live() {
            (
                QueryState {
                    phase: Phase::Cancelled,
                    server: self.server,
                    transport: self.transport,
                    attempt: self.attempt,
                    sent_at: self.sent_at,
                    deadline: self.deadline,
                },
                Decision::Complete(Outcome::Cancelled),
            )
        } else {
            (self, Decision::Nothing)
        }
    }

    /// Takes any event.
    pub fn step(self, policy: &Policy, event: Event, now: u64) -> (r: (QueryState, Decision))
        ensures
            r == self.spec_step(*policy, event, now),
    {
        match event {
            Event::Start => self.start(policy, now),
            Event::Response { server, transport, truncated } => self.on_response(
                policy,
                server,
                transport,
                truncated,
                now,
            ),
            Event::Tick => self.on_tick(policy, now),
            Event::Cancel => self.cancel(),
            Event::Failure { server, transport, error, transient } => self.on_failure(
                policy,
                server,
                transport,
                error,
                transient,
                now,
            ),
        }
    }
}

/// The server that gets the attempt after `server`.
pub fn next_server(server: usize, servers: usize) -> (next: usize)
    ensures
        next == spec_next_server(server, servers),
{
    if servers == 0 || server >= servers - 1 {
        0
    } else {
        server + 1
    }
}

/// The time attempt number `attempt` gets.
pub fn attempt_timeout(timeout: u64, attempt: u32) -> (t: u64)
    ensures
        t == spec_attempt_timeout(timeout, attempt),
{
    if attempt <= 1 || timeout == 0 {
        assert(timeout * spec_backoff_factor(attempt as nat) == if timeout == 0 {
            0
        } else {
            timeout as int
        }) by (nonlinear_arith)
            requires
                attempt <= 1 || timeout == 0,
                attempt <= 1 ==> spec_backoff_factor(attempt as nat) == 1,
        ;
        return timeout;
    }
    let mut t: u64 = timeout;
    let mut i: u32 = 1;
    assert(spec_backoff_factor(1) == 1);
    assert(timeout * spec_backoff_factor(1) == timeout);
    while i < attempt && t < u64::MAX
        invariant
            1 <= i <= attempt,
            timeout > 0,
            t == spec_attempt_timeout(timeout, i),
        decreases attempt - i,
    {
        proof {
            assert(spec_backoff_factor((i + 1) as nat) == 2 * spec_backoff_factor(i as nat));
            assert(timeout * spec_backoff_factor((i + 1) as nat) == 2 * (timeout
                * spec_backoff_factor(i as nat))) by (nonlinear_arith)
                requires
                    spec_backoff_factor((i + 1) as nat) == 2 * spec_backoff_factor(i as nat),
            ;
        }
        t = if t > u64::MAX / 2 {
            u64::MAX
        } else {
            t * 2
        };
        i = i + 1;
    }
    proof {
        if i < attempt {
            lemma_backoff_grows(i as nat, attempt as nat);
            assert(timeout * spec_backoff_factor(attempt as nat) >= timeout
                * spec_backoff_factor(i as nat)) by (nonlinear_arith)
                requires
                    spec_backoff_factor(attempt as nat) >= spec_backoff_factor(i as nat),
                    timeout > 0,
            ;
        }
    }
    t
}

/// The timeout is never scaled down.
pub proof fn lemma_backoff_positive(a: nat)
    ensures
        spec_backoff_factor(a) >= 1,
    decreases a,
{
    if a > 1 {
        lemma_backoff_positive((a - 1) as nat);
    }
}

/// A later attempt never gets less time than an earlier one.
pub proof fn lemma_backoff_grows(a: nat, b: nat)
    requires
        a <= b,
    ensures
        spec_backoff_factor(a) <= spec_backoff_factor(b),
        spec_backoff_factor(a) >= 1,
    decreases b - a,
{
    lemma_backoff_positive(a);
    if a < b {
        lemma_backoff_grows(a + 1, b);
    }
}

/// When an attempt sent at `now` runs out of time.
pub fn deadline(now: u64, timeout: u64, attempt: u32) -> (d: u64)
    ensures
        d == spec_deadline(now, timeout, attempt),
{
    let t: u64 = attempt_timeout(timeout, attempt);
    if t > u64::MAX - now {
        u64::MAX
    } else {
        now + t
    }
}

/// The state after `events` in order, each with its time, and how many of
/// them completed the query.
pub open spec fn spec_run(q: QueryState, policy: Policy, events: Seq<(Event, u64)>) -> (
    QueryState,
    nat,
)
    decreases events.len(),
{
    if events.len() == 0 {
        (q, 0)
    } else {
        let (before, completions) = spec_run(q, policy, events.drop_last());
        let (after, decision) = before.spec_step(policy, events.last().0, events.last().1);
        (
            after,
            if decision is Complete {
                completions + 1
            } else {
                completions
            },
        )
    }
}

/// A query that has ended stays as it is and asks for nothing, whatever
/// happens.
pub proof fn lemma_ended_is_silent(q: QueryState, policy: Policy, event: Event, now: u64)
    requires
        !q.spec_is_live(),
    ensures
        q.spec_step(policy, event, now) == (q, Decision::Nothing),
{
}

/// A decision completes a query exactly when the event ends it.
pub proof fn lemma_completion_ends(q: QueryState, policy: Policy, event: Event, now: u64)
    requires
        q.spec_is_live(),
    ensures
        q.spec_step(policy, event, now).1 is Complete <==> !q.spec_step(
            policy,
            event,
            now,
        ).0.spec_is_live(),
{
}

/// The completion handler fires exactly once: over any course of events a
/// live query is completed at most once, and it has been completed exactly
/// when it is no longer live.
pub proof fn lemma_completes_exactly_once(
    q: QueryState,
    policy: Policy,
    events: Seq<(Event, u64)>,
)
    requires
        q.spec_is_live(),
    ensures
        spec_run(q, policy, events).1 <= 1,
        spec_run(q, policy, events).1 == 1 <==> !spec_run(q, policy, events).0.spec_is_live(),
    decreases events.len(),
{
    if events.len() > 0 {
        lemma_completes_exactly_once(q, policy, events.drop_last());
        let before = spec_run(q, policy, events.drop_last()).0;
        if before.spec_is_live() {
            lemma_completion_ends(before, policy, events.last().0, events.last().1);
        } else {
            lemma_ended_is_silent(before, policy, events.last().0, events.last().1);
        }
    }
}

/// Cancelling ends every live query with `Cancelled`.
pub proof fn lemma_cancel_completes(q: QueryState)
    requires
        q.spec_is_live(),
    ensures
        q.spec_cancel().1 == Decision::Complete(Outcome::Cancelled),
        !q.spec_cancel().0.spec_is_live(),
{
}

/// The state of a query issued at `now` that never gets a response, after
/// `k` of its deadlines have been reached one after the other.
pub open spec fn spec_unanswered(policy: Policy, now: u64, k: nat) -> QueryState
    decreases k,
{
    if k == 0 {
        QueryState::spec_new().spec_start(policy, now).0
    } else {
        let before = spec_unanswered(policy, now, (k - 1) as nat);
        before.spec_on_tick(policy, before.deadline).0
    }
}

/// What is decided when deadline number `k`, counted from 1, of an unanswered
/// query is reached.
pub open spec fn spec_unanswered_decision(policy: Policy, now: u64, k: nat) -> Decision {
    let before = spec_unanswered(policy, now, (k - 1) as nat);
    before.spec_on_tick(policy, before.deadline).1
}

/// Taking the next server in turn counts modulo the number of servers.
pub proof fn lemma_next_server_is_modular(k: nat, servers: usize)
    requires
        servers >= 1,
    ensures
        0 <= k % (servers as nat) < servers,
        spec_next_server((k % (servers as nat)) as usize, servers) == (k + 1) % (servers as nat),
{
    let n = servers as int;
    let r = (k as int) % n;
    let q = (k as int) / n;
    lemma_mod_bound(k as int, n);
    lemma_fundamental_div_mod(k as int, n);
    assert(n * q == q * n) by (nonlinear_arith);
    if r + 1 >= n {
        assert(k + 1 == (q + 1) * n + 0) by (nonlinear_arith)
            requires
                k == q * n + r,
                r + 1 == n,
        ;
        lemma_fundamental_div_mod_converse((k + 1) as int, n, q + 1, 0);
    } else {
        lemma_fundamental_div_mod_converse((k + 1) as int, n, q, r + 1);
    }
}

/// While attempts are left, an unanswered query is sent again at every
/// deadline: after `k` deadlines it is waiting in attempt `k + 1` for server
/// `k` modulo the number of servers, to which deadline `k` had it sent.
pub proof fn lemma_unanswered_is_retried(policy: Policy, now: u64, k: nat)
    requires
        policy.spec_valid(),
        k < policy.tries,
    ensures
        spec_unanswered(policy, now, k).phase == Phase::AwaitingResponse,
        spec_unanswered(policy, now, k).attempt == k + 1,
        spec_unanswered(policy, now, k).server == k % (policy.servers as nat),
        spec_unanswered(policy, now, k).transport == policy.spec_first_transport(),
        k >= 1 ==> spec_unanswered_decision(policy, now, k) == (Decision::Send {
            server: (k % (policy.servers as nat)) as usize,
            transport: policy.spec_first_transport(),
        }),
    decreases k,
{
    if k == 0 {
        lemma_mod_bound(0, policy.servers as int);
        lemma_fundamental_div_mod_converse(0, policy.servers as int, 0, 0);
    } else {
        lemma_unanswered_is_retried(policy, now, (k - 1) as nat);
        lemma_next_server_is_modular((k - 1) as nat, policy.servers);
    }
}

/// With no response ever, a query is completed exactly once, with `TimedOut`,
/// when the deadline of its last attempt is reached: every deadline before
/// that one sent it to the next server in turn, and nothing moves it after.
pub proof fn lemma_unanswered_times_out(policy: Policy, now: u64)
    requires
        policy.spec_valid(),
    ensures
        forall|k: nat|
            1 <= k < policy.tries ==> #[trigger] spec_unanswered_decision(policy, now, k) == (
            Decision::Send {
                server: (k % (policy.servers as nat)) as usize,
                transport: policy.spec_first_transport(),
            }),
        spec_unanswered_decision(policy, now, policy.tries as nat) == Decision::Complete(
            Outcome::TimedOut,
        ),
        spec_unanswered(policy, now, policy.tries as nat).phase == Phase::TimedOut,
        spec_unanswered(policy, now, policy.tries as nat).attempt == policy.tries,
        forall|event: Event, later: u64|
            #[trigger] spec_unanswered(policy, now, policy.tries as nat).spec_step(
                policy,
                event,
                later,
            ) == (spec_unanswered(policy, now, policy.tries as nat), Decision::Nothing),
{
    assert forall|k: nat| 1 <= k < policy.tries implies #[trigger] spec_unanswered_decision(
        policy,
        now,
        k,
    ) == (Decision::Send {
        server: (k % (policy.servers as nat)) as usize,
        transport: policy.spec_first_transport(),
    }) by {
        lemma_unanswered_is_retried(policy, now, k);
    }
    lemma_unanswered_is_retried(policy, now, (policy.tries - 1) as nat);
}

} // verus!
