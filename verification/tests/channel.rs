use c_ares::a::{query_a_callback, AResult};
use c_ares::addr::{Endpoint, IpAddr, Ipv4};
use c_ares::channel::{Action, Channel, Input, Nameserver, Options, Watch, FLAG_USEVC};
use c_ares::respond::{a_response, FLAGS_RESPONSE};
use c_ares::error::{AresError, ConfigError, TransportError};
use c_ares::framing::push_frame;
use c_ares::message::{parse_header, TYPE_A};
use c_ares::query::Transport;

fn server(n: u8) -> Nameserver {
    Nameserver { addr: IpAddr::V4(Ipv4::from_octets(192, 0, 2, n)), port: 53 }
}

fn endpoint(n: u8) -> Endpoint {
    Endpoint { addr: IpAddr::V4(Ipv4::from_octets(192, 0, 2, n)), port: 53 }
}

fn options(tries: u32, flags: u32) -> Options {
    Options { timeout: 500, tries, flags, udp_max_size: 1232, local_ip: None }
}

fn channel(tries: u32, servers: u8) -> Channel {
    Channel::new(options(tries, 0), (1..=servers).map(server).collect()).unwrap()
}

fn answer(ch: &Channel, id: u16, flags: u16) -> Vec<u8> {
    let q = ch.request(id).unwrap().to_vec();
    let r = AResult { addr: Ipv4::from_octets(93, 184, 216, 34), ttl: 300 };
    a_response(&q, flags, &[r]).unwrap()
}

#[test]
fn channel_needs_a_server_and_a_try() {
    assert_eq!(
        Channel::new(options(3, 0), vec![]).err(),
        Some(AresError::Config(ConfigError::NoServers))
    );
    assert_eq!(
        Channel::new(options(0, 0), vec![server(1)]).err(),
        Some(AresError::Config(ConfigError::NoTries))
    );
}

#[test]
fn a_query_for_example_com_is_answered() {
    let mut ch = channel(3, 2);
    let issued = ch.query(b"example.com", TYPE_A, 0x1234, 0).unwrap();
    assert_eq!(issued.id, 0x1234);
    assert_eq!(issued.send_to, Some(0));
    assert_eq!(ch.pending(), 1);
    assert_eq!(parse_header(ch.request(0x1234).unwrap()).unwrap().id, 0x1234);
    assert_eq!(
        ch.sockets_to_watch(),
        vec![Watch { server: 0, transport: Transport::Udp, readable: true, writable: false }]
    );
    assert_eq!(ch.time_until_next_deadline(100), Some(400));

    let bytes = answer(&ch, 0x1234, FLAGS_RESPONSE);
    let action = ch.on_datagram(&endpoint(1), &bytes, 20);
    assert_eq!(
        action,
        Some(Action::Complete {
            id: 0x1234,
            rtype: TYPE_A,
            status: None,
            timeouts: 0,
            response: bytes.clone()
        })
    );
    assert_eq!(ch.pending(), 0);
    assert!(ch.sockets_to_watch().is_empty());
    assert_eq!(ch.time_until_next_deadline(100), None);

    let res = match action {
        Some(Action::Complete { status, timeouts, response, .. }) => {
            query_a_callback(status, timeouts, &response).unwrap()
        }
        other => panic!("{:?}", other),
    };
    assert_eq!(res.len(), 1);
    assert_eq!(res.get(0).unwrap().ipv4(), Ipv4::from_octets(93, 184, 216, 34));
    assert_eq!(res.get(0).unwrap().ttl(), 300);

    // A second copy of the response finds no query.
    assert_eq!(ch.on_datagram(&endpoint(1), &bytes, 21), None);
}

#[test]
fn response_with_an_unknown_id_is_dropped() {
    let mut ch = channel(3, 2);
    ch.query(b"example.com", TYPE_A, 7, 0).unwrap();
    let mut bytes = answer(&ch, 7, FLAGS_RESPONSE);
    bytes[1] = 8;
    assert_eq!(ch.on_datagram(&endpoint(1), &bytes, 20), None);
    assert_eq!(ch.pending(), 1);
    assert_eq!(ch.time_until_next_deadline(0), Some(500));
    assert_eq!(ch.on_datagram(&endpoint(1), &[0, 7, 0x81], 20), None);
    assert_eq!(ch.pending(), 1);
}

#[test]
fn response_from_elsewhere_is_dropped() {
    let mut ch = channel(3, 2);
    ch.query(b"example.com", TYPE_A, 7, 0).unwrap();
    let bytes = answer(&ch, 7, FLAGS_RESPONSE);
    // Another nameserver of the channel, but not the one asked.
    assert_eq!(ch.on_datagram(&endpoint(2), &bytes, 20), None);
    // No nameserver of the channel.
    assert_eq!(ch.on_datagram(&endpoint(9), &bytes, 20), None);
    let other_port = Endpoint { addr: endpoint(1).addr, port: 5353 };
    assert_eq!(ch.on_datagram(&other_port, &bytes, 20), None);
    assert_eq!(ch.pending(), 1);
}

#[test]
fn three_tries_without_response_time_out_once() {
    let mut ch = channel(3, 2);
    ch.query(b"example.com", TYPE_A, 7, 0).unwrap();
    assert!(ch.on_tick(499).is_empty());
    assert_eq!(ch.on_tick(500), vec![Action::SendUdp { id: 7, server: 1 }]);
    assert!(ch.on_tick(1499).is_empty());
    assert_eq!(ch.on_tick(1500), vec![Action::SendUdp { id: 7, server: 0 }]);
    assert_eq!(ch.time_until_next_deadline(1500), Some(2000));
    assert_eq!(
        ch.on_tick(3500),
        vec![Action::Complete {
            id: 7,
            rtype: TYPE_A,
            status: Some(AresError::Timeout),
            timeouts: 3,
            response: vec![]
        }]
    );
    assert_eq!(ch.pending(), 0);
    assert!(ch.on_tick(u64::MAX).is_empty());
    assert_eq!(query_a_callback(Some(AresError::Timeout), 3, &[]).err(), Some(AresError::Timeout));
}

#[test]
fn destroy_cancels_every_pending_query() {
    let mut ch = channel(3, 2);
    for seed in [5u16, 6, 7, 8] {
        ch.query(b"example.com", TYPE_A, seed, 0).unwrap();
    }
    ch.on_tick(500);
    let actions = ch.destroy();
    assert_eq!(actions.len(), 4);
    for (i, a) in actions.iter().enumerate() {
        assert_eq!(
            *a,
            Action::Complete {
                id: 5 + i as u16,
                rtype: TYPE_A,
                status: Some(AresError::Cancelled),
                timeouts: 1,
            response: vec![]
            }
        );
    }
}

#[test]
fn destroy_of_an_idle_channel_calls_nothing() {
    assert!(channel(1, 1).destroy().is_empty());
}

#[test]
fn cancel_one_query() {
    let mut ch = channel(3, 1);
    ch.query(b"a.example", TYPE_A, 1, 0).unwrap();
    ch.query(b"b.example", TYPE_A, 2, 0).unwrap();
    assert_eq!(
        ch.cancel_query(1),
        Some(Action::Complete {
            id: 1,
            rtype: TYPE_A,
            status: Some(AresError::Cancelled),
            timeouts: 0,
            response: vec![]
        })
    );
    assert_eq!(ch.cancel_query(1), None);
    assert_eq!(ch.pending(), 1);
    assert!(ch.request(1).is_none());
    assert!(ch.request(2).is_some());
}

#[test]
fn id_in_use_is_passed_over() {
    let mut ch = channel(3, 1);
    assert_eq!(ch.query(b"a.example", TYPE_A, 0xFFFF, 0).unwrap().id, 0xFFFF);
    assert_eq!(ch.query(b"b.example", TYPE_A, 0xFFFF, 0).unwrap().id, 0);
    assert_eq!(ch.query(b"c.example", TYPE_A, 0xFFFF, 0).unwrap().id, 1);
    assert_eq!(ch.query(b"d.example", TYPE_A, 0, 0).unwrap().id, 2);
}

#[test]
fn bad_name_is_refused_at_issue() {
    let mut ch = channel(3, 1);
    assert_eq!(
        ch.query(b"bad..name", TYPE_A, 1, 0),
        Err(AresError::Config(ConfigError::BadLabel))
    );
    let long = vec![b'a'; 64];
    assert_eq!(ch.query(&long, TYPE_A, 1, 0), Err(AresError::Config(ConfigError::BadLabel)));
    assert_eq!(ch.pending(), 0);
}

#[test]
fn truncated_answer_is_asked_again_over_tcp() {
    let mut ch = channel(3, 2);
    ch.query(b"example.com", TYPE_A, 7, 0).unwrap();
    let request = ch.request(7).unwrap().to_vec();
    let truncated = answer(&ch, 7, FLAGS_RESPONSE | 0x0200);
    assert_eq!(ch.on_datagram(&endpoint(1), &truncated, 10), None);
    assert_eq!(ch.pending(), 1);
    let mut framed = Vec::new();
    push_frame(&mut framed, &request);
    assert_eq!(ch.pending_output(0), &framed[..]);
    assert!(ch.pending_output(1).is_empty());
    assert_eq!(
        ch.sockets_to_watch(),
        vec![Watch { server: 0, transport: Transport::Tcp, readable: true, writable: true }]
    );
    // The transport takes the bytes in two parts.
    ch.wrote(0, 5);
    assert_eq!(ch.pending_output(0), &framed[5..]);
    ch.wrote(0, framed.len());
    assert!(ch.pending_output(0).is_empty());
    assert_eq!(
        ch.sockets_to_watch(),
        vec![Watch { server: 0, transport: Transport::Tcp, readable: true, writable: false }]
    );
    // The attempt was not used up: the deadline counts from the resend.
    assert_eq!(ch.time_until_next_deadline(10), Some(500));

    // The full answer arrives in two reads, cut inside the length prefix.
    let full = answer(&ch, 7, FLAGS_RESPONSE);
    let mut stream = Vec::new();
    push_frame(&mut stream, &full);
    assert!(ch.on_tcp_data(0, &stream[..1], 20).is_empty());
    assert_eq!(ch.pending(), 1);
    assert_eq!(
        ch.on_tcp_data(0, &stream[1..], 21),
        vec![Action::Complete {
            id: 7,
            rtype: TYPE_A,
            status: None,
            timeouts: 0,
            response: full.clone()
        }]
    );
    assert_eq!(ch.pending(), 0);
    assert!(ch.sockets_to_watch().is_empty());
}

#[test]
fn late_datagram_does_not_answer_a_tcp_query() {
    let mut ch = channel(3, 2);
    ch.query(b"example.com", TYPE_A, 7, 0).unwrap();
    let truncated = answer(&ch, 7, FLAGS_RESPONSE | 0x0200);
    ch.on_datagram(&endpoint(1), &truncated, 10);
    assert_eq!(ch.on_datagram(&endpoint(1), &truncated, 11), None);
    assert_eq!(ch.pending(), 1);
}

#[test]
fn forced_tcp_queues_the_request() {
    let mut ch = Channel::new(options(2, FLAG_USEVC), vec![server(1), server(2)]).unwrap();
    let issued = ch.query(b"example.com", TYPE_A, 3, 0).unwrap();
    assert_eq!(issued.send_to, None);
    let request = ch.request(3).unwrap().to_vec();
    let mut framed = Vec::new();
    push_frame(&mut framed, &request);
    assert_eq!(ch.pending_output(0), &framed[..]);
    // The retry goes to the next server, still over TCP.
    assert!(ch.on_tick(500).is_empty());
    assert_eq!(ch.pending_output(1), &framed[..]);
    assert_eq!(
        ch.sockets_to_watch(),
        vec![
            Watch { server: 0, transport: Transport::Tcp, readable: false, writable: true },
            Watch { server: 1, transport: Transport::Tcp, readable: true, writable: true },
        ]
    );
}

#[test]
fn several_messages_in_one_read() {
    let mut ch = Channel::new(options(2, FLAG_USEVC), vec![server(1)]).unwrap();
    ch.query(b"a.example", TYPE_A, 1, 0).unwrap();
    ch.query(b"b.example", TYPE_A, 2, 0).unwrap();
    let mut stream = Vec::new();
    let second = answer(&ch, 2, FLAGS_RESPONSE);
    let first = answer(&ch, 1, FLAGS_RESPONSE);
    push_frame(&mut stream, &second);
    push_frame(&mut stream, &[0, 9, 0, 0, 0, 0, 0, 0, 0, 0, 0, 0]);
    push_frame(&mut stream, &first);
    let actions = ch.on_tcp_data(0, &stream, 5);
    assert_eq!(
        actions,
        vec![
            Action::Complete { id: 2, rtype: TYPE_A, status: None, timeouts: 0, response: second },
            Action::Complete { id: 1, rtype: TYPE_A, status: None, timeouts: 0, response: first },
        ]
    );
    assert!(ch.on_tcp_data(7, &stream, 5).is_empty());
}

#[test]
fn transient_failure_moves_to_the_next_server() {
    let mut ch = channel(2, 2);
    ch.query(b"a.example", TYPE_A, 1, 0).unwrap();
    ch.query(b"b.example", TYPE_A, 2, 0).unwrap();
    ch.on_tick(500);
    ch.query(b"c.example", TYPE_A, 3, 600).unwrap();
    // Queries 1 and 2 wait for server 1, query 3 for server 0.
    let actions = ch.on_failure(1, Transport::Udp, TransportError::Io, true, 700);
    assert_eq!(
        actions,
        vec![
            Action::Complete {
                id: 1,
                rtype: TYPE_A,
                status: Some(AresError::Transport(TransportError::Io)),
                timeouts: 1,
            response: vec![]
            },
            Action::Complete {
                id: 2,
                rtype: TYPE_A,
                status: Some(AresError::Transport(TransportError::Io)),
                timeouts: 1,
            response: vec![]
            },
        ]
    );
    let actions = ch.on_failure(0, Transport::Udp, TransportError::Io, true, 700);
    assert_eq!(actions, vec![Action::SendUdp { id: 3, server: 1 }]);
    let actions = ch.on_failure(1, Transport::Udp, TransportError::ConnectionRefused, false, 800);
    assert_eq!(
        actions,
        vec![Action::Complete {
            id: 3,
            rtype: TYPE_A,
            status: Some(AresError::Transport(TransportError::ConnectionRefused)),
            timeouts: 1,
            response: vec![]
        }]
    );
    assert!(ch.on_failure(5, Transport::Udp, TransportError::Io, true, 900).is_empty());
}

#[test]
fn lost_connection_drops_its_buffers() {
    let mut ch = Channel::new(options(2, FLAG_USEVC), vec![server(1), server(2)]).unwrap();
    ch.query(b"a.example", TYPE_A, 1, 0).unwrap();
    ch.on_tcp_data(0, &[0], 1);
    assert!(!ch.pending_output(0).is_empty());
    let actions = ch.on_failure(0, Transport::Tcp, TransportError::Closed, true, 2);
    assert!(actions.is_empty());
    assert!(ch.pending_output(0).is_empty());
    assert!(!ch.pending_output(1).is_empty());
}

#[test]
fn next_deadline_is_the_nearest() {
    let mut ch = channel(3, 1);
    ch.query(b"a.example", TYPE_A, 1, 100).unwrap();
    ch.query(b"b.example", TYPE_A, 2, 40).unwrap();
    assert_eq!(ch.time_until_next_deadline(50), Some(490));
    assert_eq!(ch.time_until_next_deadline(540), Some(0));
    assert_eq!(ch.time_until_next_deadline(9000), Some(0));
}

#[test]
fn a_turn_without_input_still_checks_deadlines() {
    let mut ch = channel(2, 2);
    ch.query(b"example.com", TYPE_A, 7, 0).unwrap();
    assert!(ch.process(&[], 100).is_empty());
    assert_eq!(ch.process(&[], 500), vec![Action::SendUdp { id: 7, server: 1 }]);
    let bytes = answer(&ch, 7, FLAGS_RESPONSE);
    ch.query(b"late.example", TYPE_A, 8, 0).unwrap();
    let inputs = vec![
        Input::Datagram { source: endpoint(9), data: bytes.clone() },
        Input::Datagram { source: endpoint(2), data: bytes.clone() },
        Input::Written { server: 0, count: 10 },
    ];
    assert_eq!(
        ch.process(&inputs, 600),
        vec![
            Action::Complete {
                id: 7,
                rtype: TYPE_A,
                status: None,
                timeouts: 1,
                response: bytes.clone()
            },
            Action::SendUdp { id: 8, server: 1 },
        ]
    );
    let inputs = vec![Input::Failure {
        server: 1,
        transport: Transport::Udp,
        error: TransportError::Io,
        transient: false,
    }];
    assert_eq!(
        ch.process(&inputs, 700),
        vec![Action::Complete {
            id: 8,
            rtype: TYPE_A,
            status: Some(AresError::Transport(TransportError::Io)),
            timeouts: 1,
            response: vec![]
        }]
    );
}

#[test]
fn a_turn_with_stream_data() {
    let mut ch = Channel::new(options(2, FLAG_USEVC), vec![server(1)]).unwrap();
    ch.query(b"a.example", TYPE_A, 1, 0).unwrap();
    let mut stream = Vec::new();
    let full = answer(&ch, 1, FLAGS_RESPONSE);
    push_frame(&mut stream, &full);
    let inputs = vec![
        Input::TcpData { server: 0, data: stream[..7].to_vec() },
        Input::TcpData { server: 0, data: stream[7..].to_vec() },
    ];
    assert_eq!(
        ch.process(&inputs, 5),
        vec![Action::Complete {
            id: 1,
            rtype: TYPE_A,
            status: None,
            timeouts: 0,
            response: full.clone()
        }]
    );
}

#[test]
fn edns_option_adds_the_opt_record() {
    let mut ch = Channel::new(options(2, c_ares::channel::FLAG_EDNS), vec![server(1)]).unwrap();
    ch.query(b"example.com", TYPE_A, 7, 0).unwrap();
    let request = ch.request(7).unwrap().to_vec();
    assert_eq!(parse_header(&request).unwrap().arcount, 1);
    assert_eq!(&request[request.len() - 11..], &[0, 0, 41, 0x04, 0xD0, 0, 0, 0, 0, 0, 0]);
    let mut plain = channel(2, 1);
    plain.query(b"example.com", TYPE_A, 7, 0).unwrap();
    assert_eq!(plain.request(7).unwrap().len() + 11, request.len());
}
