use c_ares::a::{AResult, AResults};
use c_ares::addr::Ipv4;
use c_ares::codec::encode_query;
use c_ares::respond::{a_response, FLAGS_RESPONSE};
use c_ares::error::{AresError, ConfigError, DecodeError};
use c_ares::message::{parse_header, Message, TYPE_A, TYPE_AAAA};

#[test]
fn query_for_example_com() {
    let q = encode_query(b"example.com", TYPE_A, 0, 0xBEEF).unwrap();
    let mut expected: Vec<u8> = vec![0xBE, 0xEF, 0x01, 0x00, 0, 1, 0, 0, 0, 0, 0, 0];
    expected.push(7);
    expected.extend_from_slice(b"example");
    expected.push(3);
    expected.extend_from_slice(b"com");
    expected.extend_from_slice(&[0, 0, 1, 0, 1]);
    assert_eq!(q, expected);
}

#[test]
fn query_always_desires_recursion() {
    let q = encode_query(b"a", TYPE_AAAA, 0x0010, 1).unwrap();
    let h = parse_header(&q).unwrap();
    assert_eq!(h.flags, 0x0110);
    assert!(h.recursion_desired());
    assert!(!h.is_response());
    let q = encode_query(b"a", TYPE_AAAA, 0x0100, 1).unwrap();
    assert_eq!(parse_header(&q).unwrap().flags, 0x0100);
    assert_eq!(&q[q.len() - 4..], &[0, 28, 0, 1]);
}

#[test]
fn query_refuses_a_bad_name() {
    assert_eq!(encode_query(b"a..b", TYPE_A, 0, 1), Err(ConfigError::BadLabel));
}

#[test]
fn answer_round_trip() {
    let q = encode_query(b"host.example.org.", TYPE_A, 0, 77).unwrap();
    let records = vec![
        AResult { addr: Ipv4::from_octets(10, 0, 0, 1), ttl: 60 },
        AResult { addr: Ipv4::from_octets(255, 255, 255, 255), ttl: 0 },
        AResult { addr: Ipv4::from_octets(0, 0, 0, 0), ttl: i32::MAX },
    ];
    let bytes = a_response(&q, FLAGS_RESPONSE, &records).unwrap();
    assert_eq!(parse_header(&bytes).unwrap().id, 77);
    let res = AResults::parse_from(&bytes).unwrap();
    assert_eq!(res.hostname(), b"host.example.org");
    assert_eq!(res.alias_count(), 0);
    assert_eq!(res.len(), 3);
    for (i, r) in records.iter().enumerate() {
        assert_eq!(res.get(i), Some(*r));
    }
    assert_eq!(res.min_ttl(), Some(0));
}

#[test]
fn answer_without_records() {
    let q = encode_query(b"nothing.example", TYPE_A, 0, 5).unwrap();
    let bytes = a_response(&q, FLAGS_RESPONSE, &[]).unwrap();
    let res = AResults::parse_from(&bytes).unwrap();
    assert_eq!(res.len(), 0);
    assert_eq!(res.min_ttl(), None);
    assert_eq!(res.hostname(), b"nothing.example");
}

#[test]
fn answer_needs_a_header_to_answer() {
    assert_eq!(a_response(&[0u8; 11], FLAGS_RESPONSE, &[]), None);
}

#[test]
fn negative_lifetime_is_written_as_zero() {
    let q = encode_query(b"x", TYPE_A, 0, 5).unwrap();
    let r = AResult { addr: Ipv4::from_octets(1, 2, 3, 4), ttl: -5 };
    let bytes = a_response(&q, FLAGS_RESPONSE, &[r]).unwrap();
    let res = AResults::parse_from(&bytes).unwrap();
    assert_eq!(res.get(0).unwrap().ttl(), 0);
}

fn response_with(records: &[u8], ancount: u16) -> Vec<u8> {
    let mut v: Vec<u8> = vec![0, 9, 0x81, 0x80, 0, 1, (ancount >> 8) as u8, ancount as u8, 0, 0, 0, 0];
    v.extend_from_slice(&[1, b'x', 0, 0, 1, 0, 1]);
    v.extend_from_slice(records);
    v
}

#[test]
fn lifetime_above_the_range_is_clamped() {
    let rec = [0xC0, 12, 0, 1, 0, 1, 0xFF, 0xFF, 0xFF, 0xFF, 0, 4, 1, 2, 3, 4];
    let res = AResults::parse_from(&response_with(&rec, 1)).unwrap();
    assert_eq!(res.get(0).unwrap().ttl(), i32::MAX);
    let rec = [0xC0, 12, 0, 1, 0, 1, 0x80, 0, 0, 0, 0, 4, 1, 2, 3, 4];
    let res = AResults::parse_from(&response_with(&rec, 1)).unwrap();
    assert_eq!(res.get(0).unwrap().ttl(), i32::MAX);
}

#[test]
fn record_of_another_class_is_unsupported() {
    let rec = [0xC0, 12, 0, 1, 0, 3, 0, 0, 0, 1, 0, 4, 1, 2, 3, 4];
    assert_eq!(
        AResults::parse_from(&response_with(&rec, 1)),
        Err(AresError::Decode(DecodeError::UnsupportedClass))
    );
}

#[test]
fn address_of_the_wrong_length_is_bad_rdata() {
    let rec = [0xC0, 12, 0, 1, 0, 1, 0, 0, 0, 1, 0, 3, 1, 2, 3];
    assert_eq!(
        AResults::parse_from(&response_with(&rec, 1)),
        Err(AresError::Decode(DecodeError::BadRdata))
    );
}

#[test]
fn records_of_other_types_are_skipped() {
    // A TXT record, then an A record.
    let mut recs = vec![0xC0, 12, 0, 16, 0, 1, 0, 0, 0, 9, 0, 3, 2, b'h', b'i'];
    recs.extend_from_slice(&[0xC0, 12, 0, 1, 0, 1, 0, 0, 0, 7, 0, 4, 8, 8, 4, 4]);
    let res = AResults::parse_from(&response_with(&recs, 2)).unwrap();
    assert_eq!(res.len(), 1);
    assert_eq!(res.get(0).unwrap().ipv4().octets(), [8, 8, 4, 4]);
    assert_eq!(res.get(0).unwrap().ttl(), 7);
}

#[test]
fn cname_gives_alias_and_canonical_name() {
    // x CNAME y ; y A 1.2.3.4
    let mut recs = vec![0xC0, 12, 0, 5, 0, 1, 0, 0, 0, 9, 0, 3, 1, b'y', 0];
    let y_at = 12 + 7 + 12;
    recs.extend_from_slice(&[0xC0, y_at as u8, 0, 1, 0, 1, 0, 0, 0, 7, 0, 4, 1, 2, 3, 4]);
    let res = AResults::parse_from(&response_with(&recs, 2)).unwrap();
    assert_eq!(res.hostname(), b"y");
    assert_eq!(res.alias_count(), 1);
    assert_eq!(res.alias(0), b"x");
    assert_eq!(res.len(), 1);
}

#[test]
fn cname_body_must_be_one_name() {
    let recs = [0xC0, 12, 0, 5, 0, 1, 0, 0, 0, 9, 0, 4, 1, b'y', 0, 0];
    assert_eq!(
        AResults::parse_from(&response_with(&recs, 1)),
        Err(AresError::Decode(DecodeError::BadRdata))
    );
}

#[test]
fn count_above_the_records_present_is_a_mismatch() {
    let rec = [0xC0, 12, 0, 1, 0, 1, 0, 0, 0, 1, 0, 4, 1, 2, 3, 4];
    assert_eq!(
        AResults::parse_from(&response_with(&rec, 2)),
        Err(AresError::Decode(DecodeError::CountMismatch))
    );
}

#[test]
fn count_below_the_records_present_is_a_mismatch() {
    let rec = [0xC0, 12, 0, 1, 0, 1, 0, 0, 0, 1, 0, 4, 1, 2, 3, 4];
    assert_eq!(
        AResults::parse_from(&response_with(&rec, 0)),
        Err(AresError::Decode(DecodeError::CountMismatch))
    );
}

#[test]
fn message_indexes_all_sections() {
    let mut v: Vec<u8> = vec![0, 9, 0x83, 0x80, 0, 1, 0, 1, 0, 1, 0, 1];
    v.extend_from_slice(&[1, b'x', 0, 0, 1, 0, 1]);
    for _ in 0..3 {
        v.extend_from_slice(&[0xC0, 12, 0, 1, 0, 1, 0, 0, 0, 1, 0, 4, 1, 2, 3, 4]);
    }
    let m = Message::parse(&v, 8).unwrap();
    assert_eq!(m.records.len(), 3);
    assert_eq!(m.answer_count(), 1);
    assert!(m.header.is_truncated());
    assert!(m.header.is_response());
    assert_eq!(m.header.rcode(), 0);
    assert_eq!(m.questions[0].name_pos, 12);
    assert_eq!(m.records[1].rdata_pos, 12 + 7 + 16 + 12);
    let res = AResults::parse_from(&v).unwrap();
    assert_eq!(res.len(), 1);
}

#[test]
fn pointer_chain_in_a_record_fails_the_message() {
    // The owner of the record is a pointer to itself.
    let at = 12 + 7;
    let rec = [0xC0, at as u8, 0, 1, 0, 1, 0, 0, 0, 1, 0, 4, 1, 2, 3, 4];
    assert_eq!(
        AResults::parse_from(&response_with(&rec, 1)),
        Err(AresError::Decode(DecodeError::BadPointer))
    );
}

#[test]
fn request_with_edns_announces_the_size() {
    let plain = c_ares::codec::encode_request(b"example.com", TYPE_A, 9, None).unwrap();
    assert_eq!(plain, encode_query(b"example.com", TYPE_A, 0, 9).unwrap());
    let edns = c_ares::codec::encode_request(b"example.com", TYPE_A, 9, Some(1232)).unwrap();
    assert_eq!(edns.len(), plain.len() + 11);
    assert_eq!(parse_header(&edns).unwrap().arcount, 1);
    assert_eq!(&edns[..11], &plain[..11]);
    assert_eq!(&edns[12..plain.len()], &plain[12..]);
    assert_eq!(&edns[plain.len()..], &[0, 0, 41, 0x04, 0xD0, 0, 0, 0, 0, 0, 0]);
    let m = Message::parse(&edns, 8).unwrap();
    assert_eq!(m.records.len(), 1);
    assert_eq!((m.records[0].rtype, m.records[0].class), (41, 1232));
}
