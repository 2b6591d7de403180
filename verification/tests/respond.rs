use c_ares::codec::encode_query;
use c_ares::error::DecodeError;
use c_ares::message::{parse_header, TYPE_MX, TYPE_SRV, TYPE_TXT};
use c_ares::name::encode_name;
use c_ares::records::{MXResult, RawResult, SRVResult, TXTResult};
use c_ares::respond::{respond, FLAGS_RESPONSE};
use c_ares::response::{decode_response, ParsedResult};

fn raw(rtype: u16, ttl: i32, data: Vec<u8>) -> RawResult {
    RawResult { rtype, class: 1, ttl, data }
}

#[test]
fn records_of_any_type_come_back_as_they_went_in() {
    let q = encode_query(b"any.example", 99, 0, 0x4242).unwrap();
    let records = vec![
        raw(99, 0, vec![]),
        raw(99, 17, vec![1, 2, 3]),
        RawResult { rtype: 99, class: 255, ttl: i32::MAX, data: vec![0xAB; 300] },
    ];
    let bytes = respond(&q, FLAGS_RESPONSE, &records).unwrap();
    let h = parse_header(&bytes).unwrap();
    assert_eq!((h.id, h.flags, h.qdcount, h.ancount), (0x4242, FLAGS_RESPONSE, 1, 3));
    assert_eq!(decode_response(&bytes, 99), Ok(ParsedResult::Other(records)));
    assert_eq!(decode_response(&bytes, 98), Ok(ParsedResult::Other(vec![])));
}

#[test]
fn respond_refuses_what_an_answer_cannot_hold() {
    let q = encode_query(b"x", 99, 0, 1).unwrap();
    assert_eq!(respond(&q[..11], FLAGS_RESPONSE, &[]), None);
    let long = vec![raw(99, 0, vec![0; 65536])];
    assert_eq!(respond(&q, FLAGS_RESPONSE, &long), None);
    let longest = vec![raw(99, 0, vec![0; 65535])];
    let bytes = respond(&q, FLAGS_RESPONSE, &longest).unwrap();
    assert_eq!(decode_response(&bytes, 99), Ok(ParsedResult::Other(longest)));
}

#[test]
fn srv_and_mx_bodies_come_back() {
    let q = encode_query(b"_sip._tcp.example", TYPE_SRV, 0, 3).unwrap();
    let mut body = vec![0, 1, 0, 2, 0x13, 0xC4];
    body.extend(encode_name(b"sip.example.").unwrap());
    let bytes = respond(&q, FLAGS_RESPONSE, &[raw(TYPE_SRV, 60, body)]).unwrap();
    assert_eq!(
        decode_response(&bytes, TYPE_SRV),
        Ok(ParsedResult::SRV(vec![SRVResult {
            host: b"sip.example".to_vec(),
            port: 5060,
            priority: 1,
            weight: 2,
            ttl: 60
        }]))
    );
    let q = encode_query(b"example", TYPE_MX, 0, 3).unwrap();
    let mut body = vec![0, 5];
    body.extend(encode_name(b"mx.example").unwrap());
    let bytes = respond(&q, FLAGS_RESPONSE, &[raw(TYPE_MX, 9, body)]).unwrap();
    assert_eq!(
        decode_response(&bytes, TYPE_MX),
        Ok(ParsedResult::MX(vec![MXResult { host: b"mx.example".to_vec(), priority: 5, ttl: 9 }]))
    );
}

#[test]
fn txt_strings_come_back() {
    let q = encode_query(b"example", TYPE_TXT, 0, 3).unwrap();
    let body = vec![3, b'o', b'n', b'e', 0, 2, b'x', b'y'];
    let bytes = respond(&q, FLAGS_RESPONSE, &[raw(TYPE_TXT, 1, body)]).unwrap();
    assert_eq!(
        decode_response(&bytes, TYPE_TXT),
        Ok(ParsedResult::TXT(vec![TXTResult {
            strings: vec![b"one".to_vec(), vec![], b"xy".to_vec()],
            ttl: 1
        }]))
    );
}

#[test]
fn a_cut_answer_is_truncated() {
    let q = encode_query(b"example", 99, 0, 3).unwrap();
    let bytes = respond(&q, FLAGS_RESPONSE, &[raw(99, 1, vec![1, 2, 3, 4, 5])]).unwrap();
    for cut in 1..=5 {
        assert_eq!(
            decode_response(&bytes[..bytes.len() - cut], 99),
            Err(DecodeError::Truncated)
        );
    }
}
