//! The resolver session: nameservers, options, the queries in flight and the
//! bytes queued on TCP connections.
//!
//! The channel does no I/O. The caller hands in what arrived and what time it
//! is, and gets back what to send and which completion handlers to call.

use vstd::prelude::*;
use crate::addr::{Endpoint, IpAddr};
use crate::bytes::copy_range;
use crate::codec::{encode_request, spec_request};
use crate::error::{AresError, ConfigError, TransportError};
use crate::framing::{push_frame, spec_frame, spec_split, Reassembler, MAX_MESSAGE};
use crate::message::{parse_header, spec_header, HEADER_LEN};
use crate::name::{push_name, spec_encode_name, spec_names, validate_hostname};
use crate::query::{
    lemma_unanswered_is_retried, spec_unanswered, Decision, Event, Outcome, Phase, Policy,
    QueryState, Transport,
};

verus! {

/// Always use TCP, never UDP.
pub const FLAG_USEVC: u32 = 1;

/// Keep sockets open when no query is in flight. The channel owns no socket:
/// the bit is the caller's to honour.
pub const FLAG_STAYOPEN: u32 = 16;

/// Do not discard responses for their response code. The channel discards
/// none for it: the bit is the caller's to honour.
pub const FLAG_NOCHECKRESP: u32 = 128;

/// Announce `udp_max_size` to the server with every query.
pub const FLAG_EDNS: u32 = 256;

/// A server to ask.
#[derive(Clone, Copy, Debug, PartialEq, Eq, Structural)]
pub struct Nameserver {
    pub addr: IpAddr,
    pub port: u16,
}

/// What a channel is configured with.
#[derive(Clone, Copy, Debug, PartialEq, Eq, Structural)]
pub struct Options {
    /// The time the first attempt of a query gets, in milliseconds.
    pub timeout: u64,
    /// How many attempts a query gets.
    pub tries: u32,
    /// A set of the `FLAG_` bits.
    pub flags: u32,
    /// The largest datagram to accept, which queries announce where the
    /// flags ask for EDNS.
    pub udp_max_size: u16,
    /// The local address every socket is to be bound to.
    pub local_ip: Option<IpAddr>,
}

/// A query in flight.
#[derive(Clone, Copy, Debug, PartialEq, Eq, Structural)]
pub struct Pending {
    /// The transaction id, which no other query in flight has.
    pub id: u16,
    /// The record type asked for.
    pub rtype: u16,
    pub state: QueryState,
}

/// What the caller is to do for the channel.
#[derive(Debug, PartialEq, Eq)]
pub enum Action {
    /// Send the request of query `id` as one datagram to nameserver `server`.
    SendUdp { id: u16, server: usize },
    /// Call the completion handler of query `id`, once. Without a `status`
    /// the query was answered and `response` is the message to decode; with
    /// one, `response` is empty. `timeouts` is the number of attempts that
    /// ran out of time.
    Complete { id: u16, rtype: u16, status: Option<AresError>, timeouts: u32, response: Vec<u8> },
}

/// What an `Action` stands for.
pub enum ActionView {
    SendUdp { id: u16, server: usize },
    Complete { id: u16, rtype: u16, status: Option<AresError>, timeouts: u32, response: Seq<u8> },
}

impl View for Action {
    type V = ActionView;

    open spec fn view(&self) -> ActionView {
        match self {
            Action::SendUdp { id, server } => ActionView::SendUdp { id: *id, server: *server },
            Action::Complete { id, rtype, status, timeouts, response } => ActionView::Complete {
                id: *id,
                rtype: *rtype,
                status: *status,
                timeouts: *timeouts,
                response: response@,
            },
        }
    }
}

/// What a list of actions stands for.
pub open spec fn spec_actions(actions: Seq<Action>) -> Seq<ActionView> {
    Seq::new(actions.len(), |i: int| actions[i]@)
}

/// What an action, or none, stands for.
pub open spec fn spec_action(action: Option<Action>) -> Option<ActionView> {
    match action {
        Some(a) => Some(a@),
        None => None,
    }
}

/// Appends `action` to `actions`.
fn push_action(actions: &mut Vec<Action>, action: Action)
    ensures
        spec_actions(final(actions)@) == spec_actions(old(actions)@).push(action@),
{
    actions.push(action);
    assert(spec_actions(actions@) =~= spec_actions(old(actions)@).push(action@));
}

/// Appends `more` to `actions`.
fn append_actions(actions: &mut Vec<Action>, more: Vec<Action>)
    ensures
        spec_actions(final(actions)@) == spec_actions(old(actions)@) + spec_actions(more@),
{
    let mut more = more;
    let ghost added = more@;
    actions.append(&mut more);
    assert(spec_actions(actions@) =~= spec_actions(old(actions)@) + spec_actions(added));
}

/// What issuing a query gives the caller.
#[derive(Clone, Copy, Debug, PartialEq, Eq, Structural)]
pub struct Issued {
    /// The transaction id the query got: the key to its completion handler.
    pub id: u16,
    /// The nameserver to send the request to as a datagram, where the query
    /// starts over UDP.
    pub send_to: Option<usize>,
}

/// A socket the caller is to wait on.
#[derive(Clone, Copy, Debug, PartialEq, Eq, Structural)]
pub struct Watch {
    /// The nameserver the socket leads to.
    pub server: usize,
    pub transport: Transport,
    /// A response is awaited on the socket.
    pub readable: bool,
    /// Bytes are queued for the socket.
    pub writable: bool,
}

/// What the caller's event loop found on a socket.
#[derive(Debug, PartialEq, Eq)]
pub enum Input {
    /// A datagram arrived from `source`.
    Datagram { source: Endpoint, data: Vec<u8> },
    /// Bytes were read from the TCP connection to nameserver `server`.
    TcpData { server: usize, data: Vec<u8> },
    /// The TCP connection to nameserver `server` took `count` of the bytes
    /// queued for it.
    Written { server: usize, count: usize },
    /// The socket to nameserver `server` over `transport` failed.
    Failure { server: usize, transport: Transport, error: TransportError, transient: bool },
}

/// A resolver session.
pub struct Channel {
    options: Options,
    servers: Vec<Nameserver>,
    queries: Vec<Pending>,
    requests: Vec<Vec<u8>>,
    inbound: Vec<Vec<u8>>,
    outbound: Vec<Vec<u8>>,
}

/// What a `Channel` stands for.
pub struct ChannelView {
    pub options: Options,
    /// The nameservers in the order in which they are tried.
    pub servers: Seq<Nameserver>,
    /// The queries in flight, oldest first.
    pub queries: Seq<Pending>,
    /// The encoded request of each query in flight.
    pub requests: Seq<Seq<u8>>,
    /// For each nameserver, what has arrived on its TCP connection and does
    /// not yet make a message.
    pub inbound: Seq<Seq<u8>>,
    /// For each nameserver, what is still to be written to its TCP
    /// connection.
    pub outbound: Seq<Seq<u8>>,
}

impl View for Channel {
    type V = ChannelView;

    closed spec fn view(&self) -> ChannelView {
        ChannelView {
            options: self.options,
            servers: self.servers@,
            queries: self.queries@,
            requests: spec_names(self.requests@),
            inbound: spec_names(self.inbound@),
            outbound: spec_names(self.outbound@),
        }
    }
}

/// True when the set `flags` holds the single bit `bit`.
pub open spec fn spec_has_flag(flags: u32, bit: u32) -> bool {
    bit != 0 && (flags as int / bit as int) % 2 == 1
}

/// The index of the first query from `from` on that has the id `id`.
pub open spec fn spec_find_query(queries: Seq<Pending>, id: u16, from: int) -> Option<int>
    decreases queries.len() - from,
{
    if from < 0 || from >= queries.len() {
        None
    } else if queries[from].id == id {
        Some(from)
    } else {
        spec_find_query(queries, id, from + 1)
    }
}

/// The index of the first nameserver from `from` on that datagrams from
/// `source` come from.
pub open spec fn spec_find_server(servers: Seq<Nameserver>, source: Endpoint, from: int) -> Option<
    int,
>
    decreases servers.len() - from,
{
    if from < 0 || from >= servers.len() {
        None
    } else if servers[from].addr == source.addr && servers[from].port == source.port {
        Some(from)
    } else {
        spec_find_server(servers, source, from + 1)
    }
}

/// The first id that no query in flight has, trying `seed + tried`,
/// `seed + tried + 1` and so on, round the 16-bit range once.
pub open spec fn spec_free_id(queries: Seq<Pending>, seed: u16, tried: int) -> Option<u16>
    decreases 65536 - tried,
{
    if tried < 0 || tried >= 65536 {
        None
    } else if spec_find_query(queries, ((seed + tried) % 65536) as u16, 0) is None {
        Some(((seed + tried) % 65536) as u16)
    } else {
        spec_free_id(queries, seed, tried + 1)
    }
}

/// An id found free is the id of no query in flight.
pub proof fn lemma_free_id(queries: Seq<Pending>, seed: u16, tried: int)
    requires
        0 <= tried,
    ensures
        spec_free_id(queries, seed, tried) matches Some(id) ==> spec_find_query(queries, id, 0)
            is None,
    decreases 65536 - tried,
{
    if tried < 65536 && spec_find_query(queries, ((seed + tried) % 65536) as u16, 0) is Some {
        lemma_free_id(queries, seed, tried + 1);
    }
}

/// What the handler is told of how the query ended.
pub open spec fn spec_status(outcome: Outcome) -> Option<AresError> {
    match outcome {
        Outcome::Answered => None,
        Outcome::TimedOut => Some(AresError::Timeout),
        Outcome::Cancelled => Some(AresError::Cancelled),
        Outcome::Failed(e) => Some(AresError::Transport(e)),
    }
}

/// How many attempts of a query in `state` ran out of time when it ends with
/// `outcome`: all of them where it timed out, else all but the current one.
pub open spec fn spec_timeouts(state: QueryState, outcome: Outcome) -> u32 {
    if outcome == Outcome::TimedOut || state.attempt == 0 {
        state.attempt
    } else {
        (state.attempt - 1) as u32
    }
}

/// What finding a nameserver says of its result.
pub proof fn lemma_find_server(servers: Seq<Nameserver>, source: Endpoint, from: int)
    requires
        0 <= from,
    ensures
        match spec_find_server(servers, source, from) {
            Some(i) => from <= i < servers.len() && servers[i].addr == source.addr
                && servers[i].port == source.port,
            None => forall|j: int|
                from <= j < servers.len() ==> !((#[trigger] servers[j]).addr == source.addr
                    && servers[j].port == source.port),
        },
    decreases servers.len() - from,
{
    if from < servers.len() && !(servers[from].addr == source.addr && servers[from].port
        == source.port) {
        lemma_find_server(servers, source, from + 1);
    }
}

/// What finding a query says of its result.
pub proof fn lemma_find_query(queries: Seq<Pending>, id: u16, from: int)
    requires
        0 <= from,
    ensures
        match spec_find_query(queries, id, from) {
            Some(i) => from <= i < queries.len() && queries[i].id == id && forall|j: int|
                from <= j < i ==> (#[trigger] queries[j]).id != id,
            None => forall|j: int| from <= j < queries.len() ==> (#[trigger] queries[j]).id != id,
        },
    decreases queries.len() - from,
{
    if from < queries.len() && queries[from].id != id {
        lemma_find_query(queries, id, from + 1);
    }
}

impl ChannelView {
    /// What the options mean for a single query.
    pub open spec fn policy(self) -> Policy {
        Policy {
            timeout: self.options.timeout,
            tries: self.options.tries,
            servers: self.servers.len() as usize,
            use_tcp: spec_has_flag(self.options.flags, FLAG_USEVC),
        }
    }

    /// The datagram size that queries announce: the configured one where
    /// the options ask for EDNS, none otherwise.
    pub open spec fn edns(self) -> Option<u16> {
        if spec_has_flag(self.options.flags, FLAG_EDNS) {
            Some(self.options.udp_max_size)
        } else {
            None
        }
    }

    /// True when no two queries in flight have the same id.
    pub open spec fn ids_differ(self) -> bool {
        forall|i: int, j: int|
            0 <= i < j < self.queries.len() ==> (#[trigger] self.queries[i]).id != (
            #[trigger] self.queries[j]).id
    }

    /// True for a channel that holds together: at least one nameserver and
    /// one attempt, a request for every query and a pair of buffers for every
    /// nameserver, every query waiting for a nameserver that exists, and no
    /// id in use twice.
    pub open spec fn wf(self) -> bool {
        &&& 1 <= self.servers.len() <= usize::MAX
        &&& self.options.tries >= 1
        &&& self.requests.len() == self.queries.len()
        &&& self.inbound.len() == self.servers.len()
        &&& self.outbound.len() == self.servers.len()
        &&& self.ids_differ()
        &&& forall|i: int|
            0 <= i < self.queries.len() ==> (#[trigger] self.queries[i]).state.phase
                == Phase::AwaitingResponse && self.queries[i].state.server < self.servers.len()
                && self.queries[i].state.attempt >= 1
        &&& forall|i: int|
            0 <= i < self.requests.len() ==> (#[trigger] self.requests[i]).len() <= MAX_MESSAGE
    }

    /// The channel after the decision `decision` for query number `i`, whose
    /// state becomes `next`, and what the caller is to do. A datagram is the
    /// caller's to send; a message for a TCP connection is queued on it,
    /// behind its length; a completed query leaves the channel, and where it
    /// was answered its handler gets `response`, the message that did so.
    pub open spec fn apply(
        self,
        i: int,
        next: QueryState,
        decision: Decision,
        response: Seq<u8>,
    ) -> (ChannelView, Option<ActionView>) {
        let q = self.queries[i];
        match decision {
            Decision::Nothing => (self, None),
            Decision::Send { server, transport: Transport::Udp } => (
                ChannelView {
                    queries: self.queries.update(i, Pending { state: next, ..q }),
                    ..self
                },
                Some(ActionView::SendUdp { id: q.id, server }),
            ),
            Decision::Send { server, transport: Transport::Tcp } => (
                ChannelView {
                    queries: self.queries.update(i, Pending { state: next, ..q }),
                    outbound: self.outbound.update(
                        server as int,
                        self.outbound[server as int] + spec_frame(self.requests[i]),
                    ),
                    ..self
                },
                None,
            ),
            Decision::Complete(outcome) => (
                ChannelView {
                    queries: self.queries.remove(i),
                    requests: self.requests.remove(i),
                    ..self
                },
                Some(
                    ActionView::Complete {
                        id: q.id,
                        rtype: q.rtype,
                        status: spec_status(outcome),
                        timeouts: spec_timeouts(q.state, outcome),
                        response: if outcome == Outcome::Answered {
                            response
                        } else {
                            Seq::empty()
                        },
                    },
                ),
            ),
        }
    }

    /// The channel after a message that arrived from nameserver `server`
    /// over `transport`. A message shorter than a header, or with an id that
    /// no query in flight has, changes nothing and calls no handler.
    pub open spec fn deliver(self, server: usize, transport: Transport, data: Seq<u8>, now: u64) -> (
        ChannelView,
        Option<ActionView>,
    ) {
        if data.len() < HEADER_LEN {
            (self, None)
        } else {
            match spec_find_query(self.queries, spec_header(data).id, 0) {
                None => (self, None),
                Some(i) => {
                    let (next, decision) = self.queries[i].state.spec_on_response(
                        self.policy(),
                        server,
                        transport,
                        spec_header(data).spec_is_truncated(),
                        now,
                    );
                    self.apply(i, next, decision, data)
                },
            }
        }
    }

    /// The channel after `event` has been put to every query from number `i`
    /// on, oldest first, with `done` already asked of the caller.
    pub open spec fn sweep_from(self, i: int, event: Event, now: u64, done: Seq<ActionView>) -> (
        ChannelView,
        Seq<ActionView>,
    )
        decreases self.queries.len() - i,
    {
        if i < 0 || i >= self.queries.len() {
            (self, done)
        } else {
            let (next, decision) = self.queries[i].state.spec_step(self.policy(), event, now);
            let (after, action) = self.apply(i, next, decision, Seq::empty());
            let done = match action {
                Some(a) => done.push(a),
                None => done,
            };
            if decision is Complete {
                after.sweep_from(i, event, now, done)
            } else {
                after.sweep_from(i + 1, event, now, done)
            }
        }
    }

    /// The channel after the passing of time up to `now`: each query whose
    /// deadline is reached is sent to the next nameserver in turn, or
    /// completed as timed out where no attempt is left.
    pub open spec fn on_tick(self, now: u64) -> (ChannelView, Seq<ActionView>) {
        self.sweep_from(0, Event::Tick, now, Seq::empty())
    }

    /// The channel after the socket to nameserver `server` over `transport`
    /// failed: what was buffered for a TCP connection is gone with it, and
    /// each query that waited on the socket is sent to the next nameserver in
    /// turn or fails with the error.
    pub open spec fn on_failure(
        self,
        server: usize,
        transport: Transport,
        error: TransportError,
        transient: bool,
        now: u64,
    ) -> (ChannelView, Seq<ActionView>) {
        if server >= self.servers.len() {
            (self, Seq::empty())
        } else {
            let cleared = if transport == Transport::Tcp {
                ChannelView {
                    inbound: self.inbound.update(server as int, Seq::empty()),
                    outbound: self.outbound.update(server as int, Seq::empty()),
                    ..self
                }
            } else {
                self
            };
            cleared.sweep_from(
                0,
                Event::Failure { server, transport, error, transient },
                now,
                Seq::empty(),
            )
        }
    }

    /// The completions that tearing the channel down owes: one for every
    /// query in flight, oldest first, each with `Cancelled`.
    pub open spec fn cancel_all(self) -> Seq<ActionView> {
        Seq::new(
            self.queries.len(),
            |i: int|
                ActionView::Complete {
                    id: self.queries[i].id,
                    rtype: self.queries[i].rtype,
                    status: Some(AresError::Cancelled),
                    timeouts: spec_timeouts(self.queries[i].state, Outcome::Cancelled),
                    response: Seq::empty(),
                },
        )
    }

    /// The channel after the caller gave up the query with the id `id`.
    pub open spec fn cancel_query(self, id: u16) -> (ChannelView, Option<ActionView>) {
        match spec_find_query(self.queries, id, 0) {
            None => (self, None),
            Some(i) => self.apply(
                i,
                self.queries[i].state.spec_cancel().0,
                self.queries[i].state.spec_cancel().1,
                Seq::empty(),
            ),
        }
    }

    /// The channel after a query for the records of type `rtype` at `name`
    /// was issued at `now`, and what the caller gets. The name is checked
    /// first; the query gets the first free id from `seed` on and goes to the
    /// first nameserver, with an OPT record where the options ask for EDNS.
    pub open spec fn issue(self, name: Seq<u8>, rtype: u16, seed: u16, now: u64) -> Result<
        (ChannelView, Issued),
        AresError,
    > {
        match spec_encode_name(name) {
            Err(e) => Err(AresError::Config(e)),
            Ok(_) => match spec_free_id(self.queries, seed, 0) {
                None => Err(AresError::Config(ConfigError::NoFreeId)),
                Some(id) => {
                    let (state, decision) = QueryState::spec_new().spec_start(self.policy(), now);
                    let added = ChannelView {
                        queries: self.queries.push(Pending { id, rtype, state }),
                        requests: self.requests.push(
                            spec_request(id, name, rtype, self.edns())->Ok_0,
                        ),
                        ..self
                    };
                    let (after, action) = added.apply(
                        self.queries.len() as int,
                        state,
                        decision,
                        Seq::empty(),
                    );
                    Ok(
                        (
                            after,
                            Issued {
                                id,
                                send_to: match action {
                                    Some(ActionView::SendUdp { server, .. }) => Some(server),
                                    _ => None,
                                },
                            },
                        ),
                    )
                },
            },
        }
    }

    /// The channel after the messages `msgs` from number `from` on, which
    /// arrived on the TCP connection to nameserver `server`, with `done`
    /// already asked of the caller.
    pub open spec fn deliver_all(
        self,
        server: usize,
        msgs: Seq<Seq<u8>>,
        from: int,
        now: u64,
        done: Seq<ActionView>,
    ) -> (ChannelView, Seq<ActionView>)
        decreases msgs.len() - from,
    {
        if from < 0 || from >= msgs.len() {
            (self, done)
        } else {
            let (after, action) = self.deliver(server, Transport::Tcp, msgs[from], now);
            after.deliver_all(
                server,
                msgs,
                from + 1,
                now,
                match action {
                    Some(a) => done.push(a),
                    None => done,
                },
            )
        }
    }

    /// The channel after the bytes `chunk` were read from the TCP connection
    /// to nameserver `server`: they are joined to what earlier reads left
    /// over, every message that is now complete is delivered in order, and
    /// the rest is kept for the next read.
    pub open spec fn on_tcp_data(self, server: usize, chunk: Seq<u8>, now: u64) -> (
        ChannelView,
        Seq<ActionView>,
    ) {
        if server >= self.servers.len() {
            (self, Seq::empty())
        } else {
            let (msgs, rest) = spec_split(self.inbound[server as int] + chunk);
            (ChannelView { inbound: self.inbound.update(server as int, rest), ..self }).deliver_all(
                server,
                msgs,
                0,
                now,
                Seq::empty(),
            )
        }
    }

    /// What is still to be written to the TCP connection to nameserver
    /// `server`.
    pub open spec fn pending_output(self, server: usize) -> Seq<u8> {
        if server >= self.outbound.len() {
            Seq::empty()
        } else {
            self.outbound[server as int]
        }
    }

    /// The channel after the transport took the first `n` of the bytes
    /// queued for nameserver `server`: the rest stays queued.
    pub open spec fn wrote(self, server: usize, n: usize) -> ChannelView {
        if server >= self.outbound.len() {
            self
        } else if n >= self.outbound[server as int].len() {
            ChannelView { outbound: self.outbound.update(server as int, Seq::empty()), ..self }
        } else {
            ChannelView {
                outbound: self.outbound.update(
                    server as int,
                    self.outbound[server as int].subrange(
                        n as int,
                        self.outbound[server as int].len() as int,
                    ),
                ),
                ..self
            }
        }
    }

    /// True when a query in flight waits for nameserver `server` over
    /// `transport`.
    pub open spec fn awaits(self, server: usize, transport: Transport) -> bool {
        exists|i: int|
            0 <= i < self.queries.len() && (#[trigger] self.queries[i]).state.server == server
                && self.queries[i].state.transport == transport
    }

    /// The sockets to wait on for nameserver `server`: its UDP socket while a
    /// query waits on it, and its TCP connection while a query waits on it or
    /// bytes are queued for it.
    pub open spec fn watch_server(self, server: usize) -> Seq<Watch> {
        let udp = if self.awaits(server, Transport::Udp) {
            seq![Watch { server, transport: Transport::Udp, readable: true, writable: false }]
        } else {
            Seq::empty()
        };
        let tcp = if self.awaits(server, Transport::Tcp) || self.pending_output(server).len()
            > 0 {
            seq![
                Watch {
                    server,
                    transport: Transport::Tcp,
                    readable: self.awaits(server, Transport::Tcp),
                    writable: self.pending_output(server).len() > 0,
                },
            ]
        } else {
            Seq::empty()
        };
        udp + tcp
    }

    /// The sockets to wait on for the first `n` nameservers.
    pub open spec fn watch_first(self, n: nat) -> Seq<Watch>
        decreases n,
    {
        if n == 0 {
            Seq::empty()
        } else {
            self.watch_first((n - 1) as nat) + self.watch_server((n - 1) as usize)
        }
    }

    /// The sockets to wait on: exactly those that back a query in flight or
    /// hold bytes still to be written.
    pub open spec fn sockets_to_watch(self) -> Seq<Watch> {
        self.watch_first(self.servers.len())
    }

    /// How long query number `i` can still wait at time `now`.
    pub open spec fn time_left(self, i: int, now: u64) -> u64 {
        if self.queries[i].state.deadline <= now {
            0
        } else {
            (self.queries[i].state.deadline - now) as u64
        }
    }

    /// The channel after one input of the event loop.
    pub open spec fn take(self, input: Input, now: u64) -> (ChannelView, Seq<ActionView>) {
        match input {
            Input::Datagram { source, data } => {
                let (after, action) = self.on_datagram(source, data@, now);
                (
                    after,
                    match action {
                        Some(a) => seq![a],
                        None => Seq::empty(),
                    },
                )
            },
            Input::TcpData { server, data } => self.on_tcp_data(server, data@, now),
            Input::Written { server, count } => (self.wrote(server, count), Seq::empty()),
            Input::Failure { server, transport, error, transient } => self.on_failure(
                server,
                transport,
                error,
                transient,
                now,
            ),
        }
    }

    /// The channel after the inputs from number `k` on, in order, with `done`
    /// already asked of the caller.
    pub open spec fn take_all(self, inputs: Seq<Input>, k: int, now: u64, done: Seq<ActionView>) -> (
        ChannelView,
        Seq<ActionView>,
    )
        decreases inputs.len() - k,
    {
        if k < 0 || k >= inputs.len() {
            (self, done)
        } else {
            let (after, actions) = self.take(inputs[k], now);
            after.take_all(inputs, k + 1, now, done + actions)
        }
    }

    /// The channel after one turn of the event loop: the inputs in order,
    /// then the passing of time. With no input at all the deadlines are
    /// checked all the same.
    pub open spec fn process(self, inputs: Seq<Input>, now: u64) -> (ChannelView, Seq<ActionView>) {
        let (after, done) = self.take_all(inputs, 0, now, Seq::empty());
        let (last, more) = after.on_tick(now);
        (last, done + more)
    }

    /// The channel after a datagram from `source`. A datagram from an
    /// endpoint that is no nameserver of the channel changes nothing.
    pub open spec fn on_datagram(self, source: Endpoint, data: Seq<u8>, now: u64) -> (
        ChannelView,
        Option<ActionView>,
    ) {
        match spec_find_server(self.servers, source, 0) {
            None => (self, None),
            Some(s) => self.deliver(s as usize, Transport::Udp, data, now),
        }
    }
}

/// True when `(next, decision)` is a step that a query of a channel with
/// `servers` nameservers can take from `state`.
pub open spec fn spec_is_step(state: QueryState, next: QueryState, decision: Decision, servers: int) -> bool {
    match decision {
        Decision::Nothing => next == state,
        Decision::Send { server, transport } => next.phase == Phase::AwaitingResponse
            && next.server == server && server < servers && next.transport == transport
            && next.attempt >= 1,
        Decision::Complete(_) => true,
    }
}

/// A datagram that pairs with no query in flight is dropped: where it is
/// shorter than a header, comes from an endpoint that is no nameserver of the
/// channel, or carries an id that no query in flight has, the channel stays
/// as it is and no handler is called.
pub proof fn lemma_stray_datagram_is_dropped(
    c: ChannelView,
    source: Endpoint,
    data: Seq<u8>,
    now: u64,
)
    requires
        data.len() < HEADER_LEN || spec_find_server(c.servers, source, 0) is None
            || spec_find_query(c.queries, spec_header(data).id, 0) is None,
    ensures
        c.on_datagram(source, data, now) == (c, None::<ActionView>),
{
}

/// A datagram with the id of a query in flight is dropped all the same where
/// it comes from another nameserver than the one the query was sent to, or
/// where the query was sent over TCP.
pub proof fn lemma_forged_datagram_is_dropped(
    c: ChannelView,
    source: Endpoint,
    data: Seq<u8>,
    now: u64,
)
    requires
        c.wf(),
        data.len() >= HEADER_LEN,
        spec_find_server(c.servers, source, 0) is Some,
        spec_find_query(c.queries, spec_header(data).id, 0) is Some,
        ({
            let s = spec_find_server(c.servers, source, 0)->Some_0;
            let q = c.queries[spec_find_query(c.queries, spec_header(data).id, 0)->Some_0];
            q.state.server != s || q.state.transport != Transport::Udp
        }),
    ensures
        c.on_datagram(source, data, now) == (c, None::<ActionView>),
{
    lemma_find_server(c.servers, source, 0);
    lemma_find_query(c.queries, spec_header(data).id, 0);
}

/// A message on a TCP connection with an id that no query in flight has is
/// dropped.
pub proof fn lemma_stray_message_is_dropped(
    c: ChannelView,
    server: usize,
    transport: Transport,
    data: Seq<u8>,
    now: u64,
)
    requires
        data.len() < HEADER_LEN || spec_find_query(c.queries, spec_header(data).id, 0) is None,
    ensures
        c.deliver(server, transport, data, now) == (c, None::<ActionView>),
{
}

/// Tearing a channel down calls exactly one handler for every query in
/// flight, each with `Cancelled`, and asks for nothing to be sent.
pub proof fn lemma_teardown_cancels_each_once(c: ChannelView)
    ensures
        c.cancel_all().len() == c.queries.len(),
        forall|i: int|
            0 <= i < c.queries.len() ==> (#[trigger] c.cancel_all()[i]) is Complete
                && c.cancel_all()[i]->Complete_id == c.queries[i].id
                && c.cancel_all()[i]->Complete_status == Some(AresError::Cancelled),
{
}

/// Cancelling every query in flight, one after the other, leaves no query in
/// the channel and owes the completions of `cancel_all`, in that order,
/// behind what was owed before.
pub proof fn lemma_cancel_sweep(c: ChannelView, now: u64, done: Seq<ActionView>)
    requires
        c.wf(),
    ensures
        c.sweep_from(0, Event::Cancel, now, done) == (
            ChannelView { queries: Seq::empty(), requests: Seq::empty(), ..c },
            done + c.cancel_all(),
        ),
    decreases c.queries.len(),
{
    if c.queries.len() == 0 {
        assert(c.queries =~= Seq::<Pending>::empty());
        assert(c.requests =~= Seq::<Seq<u8>>::empty());
        assert(done + c.cancel_all() =~= done);
    } else {
        let q = c.queries[0];
        let (next, decision) = q.state.spec_step(c.policy(), Event::Cancel, now);
        assert(decision == Decision::Complete(Outcome::Cancelled));
        let (after, action) = c.apply(0, next, decision, Seq::empty());
        lemma_remove_keeps_wf(c, 0);
        lemma_cancel_sweep(after, now, done.push(action->Some_0));
        assert(done.push(action->Some_0) + after.cancel_all() =~= done + c.cancel_all());
    }
}

/// A channel without one of its queries still holds together.
pub proof fn lemma_remove_keeps_wf(c: ChannelView, i: int)
    requires
        c.wf(),
        0 <= i < c.queries.len(),
    ensures
        (ChannelView {
            queries: c.queries.remove(i),
            requests: c.requests.remove(i),
            ..c
        }).wf(),
{
    let after = ChannelView {
        queries: c.queries.remove(i),
        requests: c.requests.remove(i),
        ..c
    };
    assert forall|a: int, b: int| 0 <= a < b < after.queries.len() implies (
    #[trigger] after.queries[a]).id != (#[trigger] after.queries[b]).id by {
        let a0 = if a < i { a } else { a + 1 };
        let b0 = if b < i { b } else { b + 1 };
        assert(after.queries[a] == c.queries[a0]);
        assert(after.queries[b] == c.queries[b0]);
    }
    assert forall|a: int| 0 <= a < after.queries.len() implies (
    #[trigger] after.queries[a]).state.phase == Phase::AwaitingResponse
        && after.queries[a].state.server < after.servers.len() && after.queries[a].state.attempt
        >= 1 by {
        let a0 = if a < i { a } else { a + 1 };
        assert(after.queries[a] == c.queries[a0]);
    }
    assert forall|a: int| 0 <= a < after.requests.len() implies (
    #[trigger] after.requests[a]).len() <= MAX_MESSAGE by {
        let a0 = if a < i { a } else { a + 1 };
        assert(after.requests[a] == c.requests[a0]);
    }
}

/// A query that was completed is no longer in flight: its id is free, so a
/// later message or event cannot complete it a second time.
pub proof fn lemma_completed_query_is_gone(
    c: ChannelView,
    i: int,
    next: QueryState,
    outcome: Outcome,
    response: Seq<u8>,
)
    requires
        c.wf(),
        0 <= i < c.queries.len(),
    ensures
        c.apply(i, next, Decision::Complete(outcome), response).1 is Some,
        c.apply(i, next, Decision::Complete(outcome), response).1->Some_0 is Complete,
        c.apply(i, next, Decision::Complete(outcome), response).1->Some_0->Complete_id
            == c.queries[i].id,
        spec_find_query(
            c.apply(i, next, Decision::Complete(outcome), response).0.queries,
            c.queries[i].id,
            0,
        ) is None,
        c.apply(i, next, Decision::Complete(outcome), response).0.queries.len()
            == c.queries.len() - 1,
{
    let after = c.apply(i, next, Decision::Complete(outcome), response).0;
    let id = c.queries[i].id;
    lemma_find_query(after.queries, id, 0);
    if spec_find_query(after.queries, id, 0) is Some {
        let j = spec_find_query(after.queries, id, 0)->Some_0;
        let j0 = if j < i { j } else { j + 1 };
        assert(after.queries[j] == c.queries[j0]);
        if j0 < i {
            assert(c.queries[j0].id != c.queries[i].id);
        } else {
            assert(c.queries[i].id != c.queries[j0].id);
        }
    }
}

/// The channel `c`, which has one query in flight, with that query in the
/// state of a query issued at `now` that got no response by `k` of its
/// deadlines.
pub open spec fn spec_unanswered_channel(c: ChannelView, now: u64, k: nat) -> ChannelView {
    ChannelView {
        queries: seq![
            Pending { state: spec_unanswered(c.policy(), now, k), ..c.queries[0] },
        ],
        ..c
    }
}

/// With no response ever, the handler of a query sent over UDP is called
/// exactly once, with `Timeout`, when the deadline of its last attempt is
/// reached: deadline number `k` of a query that is alone in flight sends it
/// as a datagram to nameserver `k` modulo the number of nameservers while
/// `k` is below the number of tries, and deadline number `tries` completes
/// it, tells of `tries` timeouts, and leaves no query in flight.
pub proof fn lemma_unanswered_query_times_out(c: ChannelView, now: u64, k: nat)
    requires
        c.wf(),
        c.queries.len() == 1,
        !c.policy().use_tcp,
        1 <= k <= c.options.tries,
    ensures
        ({
            let before = spec_unanswered_channel(c, now, (k - 1) as nat);
            let deadline = spec_unanswered(c.policy(), now, (k - 1) as nat).deadline;
            before.on_tick(deadline) == if k < c.options.tries {
                (
                    spec_unanswered_channel(c, now, k),
                    seq![
                        ActionView::SendUdp {
                            id: c.queries[0].id,
                            server: (k % c.servers.len()) as usize,
                        },
                    ],
                )
            } else {
                (
                    ChannelView { queries: Seq::empty(), requests: Seq::empty(), ..c },
                    seq![
                        ActionView::Complete {
                            id: c.queries[0].id,
                            rtype: c.queries[0].rtype,
                            status: Some(AresError::Timeout),
                            timeouts: c.options.tries,
                            response: Seq::empty(),
                        },
                    ],
                )
            }
        }),
{
    let policy = c.policy();
    let before = spec_unanswered_channel(c, now, (k - 1) as nat);
    let q = spec_unanswered(policy, now, (k - 1) as nat);
    let deadline = q.deadline;
    lemma_unanswered_is_retried(policy, now, (k - 1) as nat);
    assert(before.policy() == policy);
    let (next, decision) = q.spec_step(policy, Event::Tick, deadline);
    let (after, action) = before.apply(0, next, decision, Seq::empty());
    let done = Seq::<ActionView>::empty().push(action->Some_0);
    assert(before.queries[0].state == q);
    if k < c.options.tries {
        lemma_unanswered_is_retried(policy, now, k);
        assert(next == spec_unanswered(policy, now, k));
        assert(after.queries =~= spec_unanswered_channel(c, now, k).queries);
        assert(after == spec_unanswered_channel(c, now, k));
        assert(after.sweep_from(1, Event::Tick, deadline, done) == (after, done));
        assert(done =~= seq![
            ActionView::SendUdp { id: c.queries[0].id, server: (k % c.servers.len()) as usize },
        ]);
    } else {
        assert(after.queries =~= Seq::<Pending>::empty());
        assert(after.requests =~= Seq::<Seq<u8>>::empty());
        assert(after.sweep_from(0, Event::Tick, deadline, done) == (after, done));
        assert(done =~= seq![
            ActionView::Complete {
                id: c.queries[0].id,
                rtype: c.queries[0].rtype,
                status: Some(AresError::Timeout),
                timeouts: c.options.tries,
                response: Seq::empty(),
            },
        ]);
    }
}

/// While no query has reached its deadline, the passing of time changes
/// nothing and asks for nothing.
pub proof fn lemma_quiet_tick(c: ChannelView, i: int, now: u64, done: Seq<ActionView>)
    requires
        0 <= i,
        forall|j: int| 0 <= j < c.queries.len() ==> now < (#[trigger] c.queries[j]).state.deadline,
    ensures
        c.sweep_from(i, Event::Tick, now, done) == (c, done),
    decreases c.queries.len() - i,
{
    if i < c.queries.len() {
        lemma_quiet_tick(c, i + 1, now, done);
    }
}

impl Channel {
    /// A channel with the given options and nameservers and no query in
    /// flight. A channel needs a nameserver to ask and an attempt to make.
    pub fn new(options: Options, servers: Vec<Nameserver>) -> (r: Result<Channel, AresError>)
        ensures
            match r {
                Ok(c) => servers@.len() >= 1 && options.tries >= 1 && c@.wf() && c@
                    == (ChannelView {
                    options,
                    servers: servers@,
                    queries: Seq::empty(),
                    requests: Seq::empty(),
                    inbound: Seq::new(servers@.len(), |i: int| Seq::empty()),
                    outbound: Seq::new(servers@.len(), |i: int| Seq::empty()),
                }),
                Err(e) => e == if servers@.len() == 0 {
                    AresError::Config(crate::error::ConfigError::NoServers)
                } else {
                    AresError::Config(crate::error::ConfigError::NoTries)
                } && (servers@.len() == 0 || options.tries == 0),
            },
    {
        if servers.len() == 0 {
            return Err(AresError::Config(crate::error::ConfigError::NoServers));
        }
        if options.tries == 0 {
            return Err(AresError::Config(crate::error::ConfigError::NoTries));
        }
        let mut inbound: Vec<Vec<u8>> = Vec::new();
        let mut outbound: Vec<Vec<u8>> = Vec::new();
        let mut i: usize = 0;
        while i < servers.len()
            invariant
                i <= servers@.len(),
                inbound@.len() == i,
                outbound@.len() == i,
                forall|j: int| 0 <= j < i ==> (#[trigger] inbound@[j])@ == Seq::<u8>::empty(),
                forall|j: int| 0 <= j < i ==> (#[trigger] outbound@[j])@ == Seq::<u8>::empty(),
            decreases servers@.len() - i,
        {
            inbound.push(Vec::new());
            outbound.push(Vec::new());
            i = i + 1;
        }
        let c = Channel {
            options,
            servers,
            queries: Vec::new(),
            requests: Vec::new(),
            inbound,
            outbound,
        };
        proof {
            assert(c@.requests =~= Seq::<Seq<u8>>::empty());
            assert(c@.inbound =~= Seq::new(c.servers@.len(), |i: int| Seq::<u8>::empty()));
            assert(c@.outbound =~= Seq::new(c.servers@.len(), |i: int| Seq::<u8>::empty()));
        }
        Ok(c)
    }

    /// The number of queries in flight.
    pub fn pending(&self) -> (n: usize)
        ensures
            n == self@.queries.len(),
    {
        self.queries.len()
    }

    /// What the options mean for a single query.
    pub fn policy(&self) -> (p: Policy)
        ensures
            p == self@.policy(),
    {
        Policy {
            timeout: self.options.timeout,
            tries: self.options.tries,
            servers: self.servers.len(),
            use_tcp: (self.options.flags / FLAG_USEVC) % 2 == 1,
        }
    }

    /// Finds the query in flight with the id `id`.
    pub fn find_query(&self, id: u16) -> (r: Option<usize>)
        ensures
            match r {
                Some(i) => spec_find_query(self@.queries, id, 0) == Some(i as int) && i
                    < self@.queries.len(),
                None => spec_find_query(self@.queries, id, 0).is_none(),
            },
    {
        let mut i: usize = 0;
        while i < self.queries.len()
            invariant
                i <= self.queries@.len(),
                spec_find_query(self.queries@, id, 0) == spec_find_query(
                    self.queries@,
                    id,
                    i as int,
                ),
            decreases self.queries@.len() - i,
        {
            if self.queries[i].id == id {
                return Some(i);
            }
            i = i + 1;
        }
        None
    }

    /// Finds the nameserver that datagrams from `source` come from.
    pub fn find_server(&self, source: &Endpoint) -> (r: Option<usize>)
        ensures
            match r {
                Some(i) => spec_find_server(self@.servers, *source, 0) == Some(i as int) && i
                    < self@.servers.len(),
                None => spec_find_server(self@.servers, *source, 0).is_none(),
            },
    {
        let mut i: usize = 0;
        while i < self.servers.len()
            invariant
                i <= self.servers@.len(),
                spec_find_server(self.servers@, *source, 0) == spec_find_server(
                    self.servers@,
                    *source,
                    i as int,
                ),
            decreases self.servers@.len() - i,
        {
            if self.servers[i].addr == source.addr && self.servers[i].port == source.port {
                return Some(i);
            }
            i = i + 1;
        }
        None
    }

    /// Carries out the decision `decision` for query number `i`, whose state
    /// becomes `next`.
    fn apply(&mut self, i: usize, next: QueryState, decision: Decision, response: &[u8]) -> (a:
        Option<Action>)
        requires
            old(self)@.wf(),
            i < old(self)@.queries.len(),
            spec_is_step(
                old(self)@.queries[i as int].state,
                next,
                decision,
                old(self)@.servers.len() as int,
            ),
        ensures
            (final(self)@, spec_action(a)) == old(self)@.apply(
                i as int,
                next,
                decision,
                response@,
            ),
            final(self)@.wf(),
    {
        let q: Pending = self.queries[i];
        let ghost before = self@;
        match decision {
            Decision::Nothing => None,
            Decision::Send { server, transport } => {
                self.queries.set(i, Pending { id: q.id, rtype: q.rtype, state: next });
                match transport {
                    Transport::Udp => {
                        proof {
                            assert(self@.requests =~= before.requests);
                            assert(self@.inbound =~= before.inbound);
                            assert(self@.outbound =~= before.outbound);
                        }
                        Some(Action::SendUdp { id: q.id, server })
                    },
                    Transport::Tcp => {
                        let mut queue: Vec<u8> = copy_range(
                            self.outbound[server].as_slice(),
                            0,
                            self.outbound[server].len(),
                        );
                        assert(queue@ =~= before.outbound[server as int]);
                        assert(before.requests[i as int] == self.requests@[i as int]@);
                        let written: bool = push_frame(&mut queue, self.requests[i].as_slice());
                        assert(written);
                        self.outbound.set(server, queue);
                        proof {
                            assert(self@.requests =~= before.requests);
                            assert(self@.inbound =~= before.inbound);
                            assert(self@.outbound =~= before.outbound.update(
                                server as int,
                                before.outbound[server as int] + spec_frame(
                                    before.requests[i as int],
                                ),
                            ));
                        }
                        None
                    },
                }
            },
            Decision::Complete(outcome) => {
                self.queries.remove(i);
                self.requests.remove(i);
                proof {
                    assert(self@.requests =~= before.requests.remove(i as int));
                    assert(self@.inbound =~= before.inbound);
                    assert(self@.outbound =~= before.outbound);
                    assert forall|a: int, b: int| 0 <= a < b < self@.queries.len() implies (
                    #[trigger] self@.queries[a]).id != (#[trigger] self@.queries[b]).id by {
                        let a0 = if a < i { a } else { a + 1 };
                        let b0 = if b < i { b } else { b + 1 };
                        assert(self@.queries[a] == before.queries[a0]);
                        assert(self@.queries[b] == before.queries[b0]);
                    }
                    assert forall|a: int| 0 <= a < self@.queries.len() implies (
                    #[trigger] self@.queries[a]).state.phase == Phase::AwaitingResponse
                        && self@.queries[a].state.server < self@.servers.len()
                        && self@.queries[a].state.attempt >= 1 by {
                        let a0 = if a < i { a } else { a + 1 };
                        assert(self@.queries[a] == before.queries[a0]);
                    }
                    assert forall|a: int| 0 <= a < self@.requests.len() implies (
                    #[trigger] self@.requests[a]).len() <= MAX_MESSAGE by {
                        let a0 = if a < i { a } else { a + 1 };
                        assert(self@.requests[a] == before.requests[a0]);
                    }
                }
                let status: Option<AresError> = match outcome {
                    Outcome::Answered => None,
                    Outcome::TimedOut => Some(AresError::Timeout),
                    Outcome::Cancelled => Some(AresError::Cancelled),
                    Outcome::Failed(e) => Some(AresError::Transport(e)),
                };
                let timed_out: bool = match outcome {
                    Outcome::TimedOut => true,
                    _ => false,
                };
                let timeouts: u32 = if timed_out || q.state.attempt == 0 {
                    q.state.attempt
                } else {
                    q.state.attempt - 1
                };
                let answered: bool = match outcome {
                    Outcome::Answered => true,
                    _ => false,
                };
                let bytes: Vec<u8> = if answered {
                    copy_range(response, 0, response.len())
                } else {
                    Vec::new()
                };
                assert(answered ==> bytes@ =~= response@);
                Some(
                    Action::Complete {
                        id: q.id,
                        rtype: q.rtype,
                        status,
                        timeouts,
                        response: bytes,
                    },
                )
            },
        }
    }

    /// Takes a message that arrived from nameserver `server` over
    /// `transport`.
    fn deliver(&mut self, server: usize, transport: Transport, data: &[u8], now: u64) -> (a: Option<
        Action,
    >)
        requires
            old(self)@.wf(),
        ensures
            (final(self)@, spec_action(a)) == old(self)@.deliver(server, transport, data@, now),
            final(self)@.wf(),
    {
        let header = match parse_header(data) {
            None => {
                return None;
            },
            Some(h) => h,
        };
        match self.find_query(header.id) {
            None => None,
            Some(i) => {
                let policy = self.policy();
                let (next, decision) = self.queries[i].state.on_response(
                    &policy,
                    server,
                    transport,
                    header.is_truncated(),
                    now,
                );
                self.apply(i, next, decision, data)
            },
        }
    }

    /// Takes a datagram that arrived from `source` at time `now`.
    ///
    /// The datagram is paired with a query in flight by its id and by the
    /// nameserver it came from. One that pairs with none is dropped: the
    /// channel stays as it is and no handler is called.
    pub fn on_datagram(&mut self, source: &Endpoint, data: &[u8], now: u64) -> (a: Option<Action>)
        requires
            old(self)@.wf(),
        ensures
            (final(self)@, spec_action(a)) == old(self)@.on_datagram(*source, data@, now),
            final(self)@.wf(),
    {
        match self.find_server(source) {
            None => None,
            Some(s) => self.deliver(s, Transport::Udp, data, now),
        }
    }

    /// Puts `event` to every query in flight, oldest first.
    fn sweep(&mut self, event: Event, now: u64) -> (actions: Vec<Action>)
        requires
            old(self)@.wf(),
        ensures
            (final(self)@, spec_actions(actions@)) == old(self)@.sweep_from(
                0,
                event,
                now,
                Seq::empty(),
            ),
            final(self)@.wf(),
    {
        let ghost start = self@;
        let mut actions: Vec<Action> = Vec::new();
        let mut i: usize = 0;
        assert(spec_actions(actions@) =~= Seq::<ActionView>::empty());
        while i < self.queries.len()
            invariant
                self@.wf(),
                i <= self@.queries.len(),
                start.sweep_from(0, event, now, Seq::empty()) == self@.sweep_from(
                    i as int,
                    event,
                    now,
                    spec_actions(actions@),
                ),
            decreases self@.queries.len() - i,
        {
            let policy = self.policy();
            let (next, decision) = self.queries[i].state.step(&policy, event, now);
            let completes: bool = match decision {
                Decision::Complete(_) => true,
                _ => false,
            };
            let empty: &[u8] = &[];
            assert(empty@ =~= Seq::<u8>::empty());
            match self.apply(i, next, decision, empty) {
                Some(a) => {
                    push_action(&mut actions, a);
                },
                None => {},
            }
            if !completes {
                i = i + 1;
            }
        }
        actions
    }

    /// Takes the passing of time up to `now`, with or without anything having
    /// arrived: every query whose deadline is reached is sent again or timed
    /// out.
    pub fn on_tick(&mut self, now: u64) -> (actions: Vec<Action>)
        requires
            old(self)@.wf(),
        ensures
            (final(self)@, spec_actions(actions@)) == old(self)@.on_tick(now),
            final(self)@.wf(),
    {
        self.sweep(Event::Tick, now)
    }

    /// Takes the failure of the socket to nameserver `server` over
    /// `transport`, as the caller met it when sending or receiving. A
    /// transient failure is one that may pass when the query is sent again.
    pub fn on_failure(
        &mut self,
        server: usize,
        transport: Transport,
        error: TransportError,
        transient: bool,
        now: u64,
    ) -> (actions: Vec<Action>)
        requires
            old(self)@.wf(),
        ensures
            (final(self)@, spec_actions(actions@)) == old(self)@.on_failure(
                server,
                transport,
                error,
                transient,
                now,
            ),
            final(self)@.wf(),
    {
        if server >= self.servers.len() {
            let none: Vec<Action> = Vec::new();
            assert(spec_actions(none@) =~= Seq::<ActionView>::empty());
            return none;
        }
        let ghost before = self@;
        match transport {
            Transport::Tcp => {
                self.inbound.set(server, Vec::new());
                self.outbound.set(server, Vec::new());
                proof {
                    assert(self@.requests =~= before.requests);
                    assert(self@.inbound =~= before.inbound.update(server as int, Seq::empty()));
                    assert(self@.outbound =~= before.outbound.update(server as int, Seq::empty()));
                }
            },
            Transport::Udp => {},
        }
        self.sweep(Event::Failure { server, transport, error, transient }, now)
    }

    /// Tears the channel down: every query in flight is completed with
    /// `Cancelled`, and nothing is sent any more.
    pub fn destroy(self) -> (actions: Vec<Action>)
        requires
            self@.wf(),
        ensures
            spec_actions(actions@) == self@.cancel_all(),
    {
        let mut actions: Vec<Action> = Vec::new();
        let mut i: usize = 0;
        assert(spec_actions(actions@) =~= self@.cancel_all().take(0));
        while i < self.queries.len()
            invariant
                i <= self.queries@.len(),
                spec_actions(actions@) == self@.cancel_all().take(i as int),
            decreases self.queries@.len() - i,
        {
            let q: Pending = self.queries[i];
            let timeouts: u32 = if q.state.attempt == 0 {
                0
            } else {
                q.state.attempt - 1
            };
            let response: Vec<u8> = Vec::new();
            assert(response@ =~= Seq::<u8>::empty());
            let action = Action::Complete {
                id: q.id,
                rtype: q.rtype,
                status: Some(AresError::Cancelled),
                timeouts,
                response,
            };
            assert(action@ == self@.cancel_all()[i as int]);
            push_action(&mut actions, action);
            i = i + 1;
            assert(spec_actions(actions@) =~= self@.cancel_all().take(i as int));
        }
        assert(self@.cancel_all().take(i as int) =~= self@.cancel_all());
        actions
    }

    /// Gives up the query in flight with the id `id`, which is completed
    /// with `Cancelled`. An id that no query in flight has changes nothing.
    pub fn cancel_query(&mut self, id: u16) -> (a: Option<Action>)
        requires
            old(self)@.wf(),
        ensures
            (final(self)@, spec_action(a)) == old(self)@.cancel_query(id),
            final(self)@.wf(),
    {
        match self.find_query(id) {
            None => None,
            Some(i) => {
                let (next, decision) = self.queries[i].state.cancel();
                let empty: &[u8] = &[];
                assert(empty@ =~= Seq::<u8>::empty());
                self.apply(i, next, decision, empty)
            },
        }
    }

    /// Finds the first id from `seed` on that no query in flight has.
    fn free_id(&self, seed: u16) -> (r: Option<u16>)
        ensures
            r == spec_free_id(self@.queries, seed, 0),
    {
        let mut tried: u32 = 0;
        while tried < 65536
            invariant
                tried <= 65536,
                spec_free_id(self@.queries, seed, 0) == spec_free_id(
                    self@.queries,
                    seed,
                    tried as int,
                ),
            decreases 65536 - tried,
        {
            let id: u16 = ((seed as u32 + tried) % 65536) as u16;
            if self.find_query(id).is_none() {
                return Some(id);
            }
            tried = tried + 1;
        }
        None
    }

    /// Issues a query for the records of type `rtype` at the dotted name
    /// `name`, at time `now`. `seed` is a random number of the caller's; the
    /// query gets the first transaction id from `seed` on that is free.
    ///
    /// A name that breaks the limits of the wire form is refused before
    /// anything else happens, and so is a query when every id is taken.
    pub fn query(&mut self, name: &[u8], rtype: u16, seed: u16, now: u64) -> (r: Result<
        Issued,
        AresError,
    >)
        requires
            old(self)@.wf(),
        ensures
            match r {
                Ok(issued) => old(self)@.issue(name@, rtype, seed, now) == Ok::<
                    (ChannelView, Issued),
                    AresError,
                >((final(self)@, issued)),
                Err(e) => old(self)@.issue(name@, rtype, seed, now) == Err::<
                    (ChannelView, Issued),
                    AresError,
                >(e) && final(self)@ == old(self)@,
            },
            final(self)@.wf(),
    {
        match validate_hostname(name) {
            Err(e) => {
                return Err(AresError::Config(e));
            },
            Ok(_) => {},
        }
        let id: u16 = match self.free_id(seed) {
            None => {
                return Err(AresError::Config(ConfigError::NoFreeId));
            },
            Some(id) => id,
        };
        let edns: Option<u16> = if (self.options.flags / FLAG_EDNS) % 2 == 1 {
            Some(self.options.udp_max_size)
        } else {
            None
        };
        let request: Vec<u8> = match encode_request(name, rtype, id, edns) {
            Err(e) => {
                return Err(AresError::Config(e));
            },
            Ok(bytes) => bytes,
        };
        let policy = self.policy();
        let (state, decision) = QueryState::new().start(&policy, now);
        let ghost before = self@;
        proof {
            lemma_free_id(before.queries, seed, 0);
            lemma_find_query(before.queries, id, 0);
        }
        let at: usize = self.queries.len();
        self.queries.push(Pending { id, rtype, state });
        push_name(&mut self.requests, request);
        proof {
            let added = ChannelView {
                queries: before.queries.push(Pending { id, rtype, state }),
                requests: before.requests.push(
                    spec_request(id, name@, rtype, before.edns())->Ok_0,
                ),
                ..before
            };
            assert(self@.inbound =~= before.inbound);
            assert(self@.outbound =~= before.outbound);
            assert(self@ == added);
        }
        let empty: &[u8] = &[];
        assert(empty@ =~= Seq::<u8>::empty());
        let send_to: Option<usize> = match self.apply(at, state, decision, empty) {
            Some(Action::SendUdp { server, .. }) => Some(server),
            _ => None,
        };
        Ok(Issued { id, send_to })
    }

    /// Takes the bytes of one read from the TCP connection to nameserver
    /// `server`, at time `now`. Bytes that do not yet make a message are kept
    /// for the next read, not dropped.
    pub fn on_tcp_data(&mut self, server: usize, chunk: &[u8], now: u64) -> (actions: Vec<
        Action,
    >)
        requires
            old(self)@.wf(),
        ensures
            (final(self)@, spec_actions(actions@)) == old(self)@.on_tcp_data(
                server,
                chunk@,
                now,
            ),
            final(self)@.wf(),
    {
        let mut actions: Vec<Action> = Vec::new();
        assert(spec_actions(actions@) =~= Seq::<ActionView>::empty());
        if server >= self.servers.len() {
            return actions;
        }
        let ghost before = self@;
        let held: Vec<u8> = copy_range(
            self.inbound[server].as_slice(),
            0,
            self.inbound[server].len(),
        );
        assert(held@ =~= before.inbound[server as int]);
        let mut reassembler = Reassembler::from_bytes(held);
        let msgs: Vec<Vec<u8>> = reassembler.push(chunk);
        self.inbound.set(server, reassembler.into_bytes());
        proof {
            assert(self@.requests =~= before.requests);
            assert(self@.outbound =~= before.outbound);
            assert(self@.inbound =~= before.inbound.update(
                server as int,
                spec_split(before.inbound[server as int] + chunk@).1,
            ));
        }
        let ghost start = self@;
        let mut k: usize = 0;
        while k < msgs.len()
            invariant
                self@.wf(),
                k <= msgs@.len(),
                start.deliver_all(server, spec_names(msgs@), 0, now, Seq::empty())
                    == self@.deliver_all(
                    server,
                    spec_names(msgs@),
                    k as int,
                    now,
                    spec_actions(actions@),
                ),
            decreases msgs@.len() - k,
        {
            assert(spec_names(msgs@)[k as int] == msgs@[k as int]@);
            match self.deliver(server, Transport::Tcp, msgs[k].as_slice(), now) {
                Some(a) => {
                    push_action(&mut actions, a);
                },
                None => {},
            }
            k = k + 1;
        }
        actions
    }

    /// The bytes still to be written to the TCP connection to nameserver
    /// `server`, oldest first.
    pub fn pending_output(&self, server: usize) -> (bytes: &[u8])
        requires
            self@.wf(),
        ensures
            bytes@ == self@.pending_output(server),
    {
        if server >= self.outbound.len() {
            let empty: &[u8] = &[];
            assert(empty@ =~= Seq::<u8>::empty());
            empty
        } else {
            self.outbound[server].as_slice()
        }
    }

    /// Records that the transport took the first `n` of the bytes queued for
    /// nameserver `server`. What it did not take stays queued.
    pub fn wrote(&mut self, server: usize, n: usize)
        requires
            old(self)@.wf(),
        ensures
            final(self)@ == old(self)@.wrote(server, n),
            final(self)@.wf(),
    {
        if server >= self.outbound.len() {
            return ;
        }
        let ghost before = self@;
        let len: usize = self.outbound[server].len();
        let rest: Vec<u8> = if n >= len {
            Vec::new()
        } else {
            copy_range(self.outbound[server].as_slice(), n, len)
        };
        self.outbound.set(server, rest);
        proof {
            assert(self@.requests =~= before.requests);
            assert(self@.inbound =~= before.inbound);
            assert(self@.outbound =~= before.wrote(server, n).outbound);
        }
    }

    /// True when a query in flight waits for nameserver `server` over
    /// `transport`.
    pub fn awaits(&self, server: usize, transport: Transport) -> (b: bool)
        ensures
            b == self@.awaits(server, transport),
    {
        let mut i: usize = 0;
        while i < self.queries.len()
            invariant
                i <= self.queries@.len(),
                forall|j: int|
                    0 <= j < i ==> !((#[trigger] self.queries@[j]).state.server == server
                        && self.queries@[j].state.transport == transport),
            decreases self.queries@.len() - i,
        {
            if self.queries[i].state.server == server && self.queries[i].state.transport
                == transport {
                return true;
            }
            i = i + 1;
        }
        false
    }

    /// The sockets the caller is to wait on, by nameserver and with UDP
    /// before TCP: those that back a query in flight, to read from, and those
    /// with bytes queued, to write to.
    pub fn sockets_to_watch(&self) -> (watch: Vec<Watch>)
        requires
            self@.wf(),
        ensures
            watch@ == self@.sockets_to_watch(),
    {
        let mut watch: Vec<Watch> = Vec::new();
        let mut s: usize = 0;
        while s < self.servers.len()
            invariant
                self@.wf(),
                s <= self.servers@.len(),
                watch@ == self@.watch_first(s as nat),
            decreases self.servers@.len() - s,
        {
            let ghost before = watch@;
            if self.awaits(s, Transport::Udp) {
                watch.push(
                    Watch { server: s, transport: Transport::Udp, readable: true, writable: false },
                );
            }
            let readable: bool = self.awaits(s, Transport::Tcp);
            let writable: bool = self.outbound[s].len() > 0;
            if readable || writable {
                watch.push(Watch { server: s, transport: Transport::Tcp, readable, writable });
            }
            assert(watch@ =~= before + self@.watch_server(s));
            s = s + 1;
        }
        watch
    }

    /// How long the caller may wait before the next deadline is reached:
    /// nothing with no query in flight, else the least time any query has
    /// left, which is 0 for a deadline that has passed.
    pub fn time_until_next_deadline(&self, now: u64) -> (r: Option<u64>)
        ensures
            r is None <==> self@.queries.len() == 0,
            r matches Some(t) ==> (forall|i: int|
                0 <= i < self@.queries.len() ==> t <= #[trigger] self@.time_left(i, now)) && (
            exists|i: int| 0 <= i < self@.queries.len() && #[trigger] self@.time_left(i, now) == t),
    {
        if self.queries.len() == 0 {
            return None;
        }
        let mut best: u64 = Self::left(self.queries[0].state.deadline, now);
        let mut at: Ghost<int> = Ghost(0);
        let mut i: usize = 1;
        while i < self.queries.len()
            invariant
                1 <= i <= self.queries@.len(),
                0 <= at@ < i,
                self@.time_left(at@, now) == best,
                forall|j: int| 0 <= j < i ==> best <= #[trigger] self@.time_left(j, now),
            decreases self.queries@.len() - i,
        {
            let left: u64 = Self::left(self.queries[i].state.deadline, now);
            if left < best {
                best = left;
                proof {
                    at@ = i as int;
                }
            }
            i = i + 1;
        }
        Some(best)
    }

    /// The time from `now` to `deadline`, and 0 once it has passed.
    fn left(deadline: u64, now: u64) -> (t: u64)
        ensures
            t == if deadline <= now {
                0
            } else {
                (deadline - now) as u64
            },
    {
        if deadline <= now {
            0
        } else {
            deadline - now
        }
    }

    /// Takes one turn of the caller's event loop at time `now`: what was
    /// found on the sockets that were ready, in order, and then the passing
    /// of time. A turn without any input, a timeout of the wait, still sends
    /// again or times out every query whose deadline is reached.
    pub fn process(&mut self, inputs: &[Input], now: u64) -> (actions: Vec<Action>)
        requires
            old(self)@.wf(),
        ensures
            (final(self)@, spec_actions(actions@)) == old(self)@.process(inputs@, now),
            final(self)@.wf(),
    {
        let ghost start = self@;
        let mut actions: Vec<Action> = Vec::new();
        let mut k: usize = 0;
        assert(spec_actions(actions@) =~= Seq::<ActionView>::empty());
        while k < inputs.len()
            invariant
                self@.wf(),
                k <= inputs@.len(),
                start.take_all(inputs@, 0, now, Seq::empty()) == self@.take_all(
                    inputs@,
                    k as int,
                    now,
                    spec_actions(actions@),
                ),
            decreases inputs@.len() - k,
        {
            let ghost before = spec_actions(actions@);
            match &inputs[k] {
                Input::Datagram { source, data } => {
                    match self.on_datagram(source, data.as_slice(), now) {
                        Some(a) => {
                            let ghost shown = a@;
                            push_action(&mut actions, a);
                            assert(spec_actions(actions@) =~= before + seq![shown]);
                        },
                        None => {
                            assert(spec_actions(actions@) =~= before + Seq::<ActionView>::empty());
                        },
                    }
                },
                Input::TcpData { server, data } => {
                    let more = self.on_tcp_data(*server, data.as_slice(), now);
                    append_actions(&mut actions, more);
                },
                Input::Written { server, count } => {
                    self.wrote(*server, *count);
                    assert(spec_actions(actions@) =~= before + Seq::<ActionView>::empty());
                },
                Input::Failure { server, transport, error, transient } => {
                    let more = self.on_failure(*server, *transport, *error, *transient, now);
                    append_actions(&mut actions, more);
                },
            }
            k = k + 1;
        }
        let more = self.on_tick(now);
        append_actions(&mut actions, more);
        actions
    }

    /// The encoded request of the query in flight with the id `id`: the
    /// bytes to send for it.
    pub fn request(&self, id: u16) -> (r: Option<&[u8]>)
        requires
            self@.wf(),
        ensures
            match r {
                Some(bytes) => spec_find_query(self@.queries, id, 0) is Some && bytes@
                    == self@.requests[spec_find_query(self@.queries, id, 0)->Some_0],
                None => spec_find_query(self@.queries, id, 0).is_none(),
            },
    {
        match self.find_query(id) {
            None => None,
            Some(i) => Some(self.requests[i].as_slice()),
        }
    }
}

} // verus!
