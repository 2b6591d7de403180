use c_ares::addr::Ipv6;
use c_ares::error::DecodeError;
use c_ares::message::{
    TYPE_A, TYPE_AAAA, TYPE_CAA, TYPE_MX, TYPE_NAPTR, TYPE_NS, TYPE_PTR, TYPE_SOA, TYPE_SRV,
    TYPE_TXT,
};
use c_ares::records::{
    AAAAResult, CAAResult, MXResult, NAPTRResult, NameResult, RawResult, SOAResult, SRVResult,
    TXTResult,
};
use c_ares::response::{decode_response, decode_response_with, ParsedResult};

// A response to a question for "x" with the given records in the answer
// section; the question name sits at offset 12.
fn response(qtype: u16, records: &[Vec<u8>]) -> Vec<u8> {
    let n = records.len() as u16;
    let mut v: Vec<u8> = vec![0, 9, 0x81, 0x80, 0, 1, (n >> 8) as u8, n as u8, 0, 0, 0, 0];
    v.extend_from_slice(&[1, b'x', 0, (qtype >> 8) as u8, qtype as u8, 0, 1]);
    for r in records {
        v.extend_from_slice(r);
    }
    v
}

fn record(rtype: u16, class: u16, ttl: u32, body: &[u8]) -> Vec<u8> {
    let mut v = vec![0xC0, 12, (rtype >> 8) as u8, rtype as u8, (class >> 8) as u8, class as u8];
    v.extend_from_slice(&ttl.to_be_bytes());
    v.extend_from_slice(&(body.len() as u16).to_be_bytes());
    v.extend_from_slice(body);
    v
}

#[test]
fn aaaa_records_in_wire_order() {
    let a: [u8; 16] = [0x20, 0x01, 0x0d, 0xb8, 0, 0, 0, 0, 0, 0, 0, 0, 0, 0, 0, 1];
    let b: [u8; 16] = [0xfe, 0x80, 0, 0, 0, 0, 0, 0, 1, 2, 3, 4, 5, 6, 7, 8];
    let data = response(
        TYPE_AAAA,
        &[record(TYPE_AAAA, 1, 60, &a), record(TYPE_A, 1, 5, &[1, 2, 3, 4]), record(TYPE_AAAA, 1, 30, &b)],
    );
    match decode_response(&data, TYPE_AAAA).unwrap() {
        ParsedResult::AAAA(res) => {
            assert_eq!(res.hostname, b"x");
            assert!(res.aliases.is_empty());
            assert_eq!(
                res.addrs,
                vec![
                    AAAAResult { addr: Ipv6 { hi: 0x20010db800000000, lo: 1 }, ttl: 60 },
                    AAAAResult { addr: Ipv6 { hi: 0xfe80000000000000, lo: 0x0102030405060708 }, ttl: 30 },
                ]
            );
            assert_eq!(res.min_ttl(), Some(30));
            assert_eq!(res.addrs[0].addr.to_wire(), a.to_vec());
            assert_eq!(Ipv6::from_wire(&b), Some(res.addrs[1].addr));
        }
        other => panic!("{:?}", other),
    }
}

#[test]
fn aaaa_of_the_wrong_length_is_bad_rdata() {
    let data = response(TYPE_AAAA, &[record(TYPE_AAAA, 1, 60, &[0; 15])]);
    assert_eq!(decode_response(&data, TYPE_AAAA), Err(DecodeError::BadRdata));
    // Asked for another type, the record is passed over.
    assert!(decode_response(&data, TYPE_A).is_ok());
}

#[test]
fn srv_records_keep_wire_order() {
    let mut first = vec![0, 20, 0, 5, 0x14, 0x95];
    first.extend_from_slice(&[3, b's', b'r', b'v', 0xC0, 12]);
    let mut second = vec![0, 10, 0, 0, 0, 80];
    second.extend_from_slice(&[0]);
    let data = response(TYPE_SRV, &[record(TYPE_SRV, 1, 7, &first), record(TYPE_SRV, 1, 8, &second)]);
    assert_eq!(
        decode_response(&data, TYPE_SRV),
        Ok(ParsedResult::SRV(vec![
            SRVResult { host: b"srv.x".to_vec(), port: 5269, priority: 20, weight: 5, ttl: 7 },
            SRVResult { host: vec![], port: 80, priority: 10, weight: 0, ttl: 8 },
        ]))
    );
}

#[test]
fn srv_without_a_target_is_bad_rdata() {
    let data = response(TYPE_SRV, &[record(TYPE_SRV, 1, 7, &[0, 1, 0, 2, 0, 3])]);
    assert_eq!(decode_response(&data, TYPE_SRV), Err(DecodeError::BadRdata));
    let data = response(TYPE_SRV, &[record(TYPE_SRV, 1, 7, &[0, 1, 0, 2, 0, 3, 0, 0])]);
    assert_eq!(decode_response(&data, TYPE_SRV), Err(DecodeError::BadRdata));
}

#[test]
fn mx_records() {
    let data = response(TYPE_MX, &[record(TYPE_MX, 1, 300, &[0, 10, 4, b'm', b'a', b'i', b'l', 0xC0, 12])]);
    assert_eq!(
        decode_response(&data, TYPE_MX),
        Ok(ParsedResult::MX(vec![MXResult { host: b"mail.x".to_vec(), priority: 10, ttl: 300 }]))
    );
}

#[test]
fn ns_and_ptr_records() {
    let body = [2, b'n', b's', 0xC0, 12];
    let data = response(TYPE_NS, &[record(TYPE_NS, 1, 1, &body), record(TYPE_PTR, 1, 2, &body)]);
    assert_eq!(
        decode_response(&data, TYPE_NS),
        Ok(ParsedResult::NS(vec![NameResult { name: b"ns.x".to_vec(), ttl: 1 }]))
    );
    assert_eq!(
        decode_response(&data, TYPE_PTR),
        Ok(ParsedResult::PTR(vec![NameResult { name: b"ns.x".to_vec(), ttl: 2 }]))
    );
}

#[test]
fn name_record_of_another_class_is_unsupported() {
    let data = response(TYPE_NS, &[record(TYPE_NS, 3, 1, &[0])]);
    assert_eq!(decode_response(&data, TYPE_NS), Err(DecodeError::UnsupportedClass));
}

#[test]
fn txt_records() {
    let data = response(
        TYPE_TXT,
        &[record(TYPE_TXT, 1, 9, &[2, b'h', b'i', 0, 3, b'y', b'o', b'u']), record(TYPE_TXT, 1, 9, &[])],
    );
    assert_eq!(
        decode_response(&data, TYPE_TXT),
        Ok(ParsedResult::TXT(vec![
            TXTResult { strings: vec![b"hi".to_vec(), vec![], b"you".to_vec()], ttl: 9 },
            TXTResult { strings: vec![], ttl: 9 },
        ]))
    );
}

#[test]
fn txt_string_past_the_body_is_bad_rdata() {
    let data = response(TYPE_TXT, &[record(TYPE_TXT, 1, 9, &[3, b'h', b'i'])]);
    assert_eq!(decode_response(&data, TYPE_TXT), Err(DecodeError::BadRdata));
}

#[test]
fn soa_record() {
    let mut body = vec![2, b'n', b's', 0xC0, 12, 4, b'r', b'o', b'o', b't', 0xC0, 12];
    for v in [2024u32, 7200, 900, 1209600, 86400] {
        body.extend_from_slice(&v.to_be_bytes());
    }
    let data = response(TYPE_SOA, &[record(TYPE_SOA, 1, 55, &body)]);
    assert_eq!(
        decode_response(&data, TYPE_SOA),
        Ok(ParsedResult::SOA(vec![SOAResult {
            name_server: b"ns.x".to_vec(),
            hostmaster: b"root.x".to_vec(),
            serial: 2024,
            refresh: 7200,
            retry: 900,
            expire: 1209600,
            min_ttl: 86400,
            ttl: 55,
        }]))
    );
    body.push(0);
    let data = response(TYPE_SOA, &[record(TYPE_SOA, 1, 55, &body)]);
    assert_eq!(decode_response(&data, TYPE_SOA), Err(DecodeError::BadRdata));
}

#[test]
fn caa_record() {
    let mut body = vec![128, 5];
    body.extend_from_slice(b"issue");
    body.extend_from_slice(b"ca.example");
    let data = response(TYPE_CAA, &[record(TYPE_CAA, 1, 4, &body)]);
    assert_eq!(
        decode_response(&data, TYPE_CAA),
        Ok(ParsedResult::CAA(vec![CAAResult {
            critical: true,
            tag: b"issue".to_vec(),
            value: b"ca.example".to_vec(),
            ttl: 4,
        }]))
    );
    let data = response(TYPE_CAA, &[record(TYPE_CAA, 1, 4, &[0, 0])]);
    assert_eq!(decode_response(&data, TYPE_CAA), Err(DecodeError::BadRdata));
    let data = response(TYPE_CAA, &[record(TYPE_CAA, 1, 4, &[0, 3, b'a', b'b'])]);
    assert_eq!(decode_response(&data, TYPE_CAA), Err(DecodeError::BadRdata));
}

#[test]
fn naptr_record() {
    let mut body = vec![0, 100, 0, 10, 1, b'u', 7];
    body.extend_from_slice(b"E2U+sip");
    body.push(4);
    body.extend_from_slice(b"!.*!");
    body.push(0);
    let data = response(TYPE_NAPTR, &[record(TYPE_NAPTR, 1, 3, &body)]);
    assert_eq!(
        decode_response(&data, TYPE_NAPTR),
        Ok(ParsedResult::NAPTR(vec![NAPTRResult {
            order: 100,
            preference: 10,
            flags: b"u".to_vec(),
            service: b"E2U+sip".to_vec(),
            regexp: b"!.*!".to_vec(),
            replacement: vec![],
            ttl: 3,
        }]))
    );
    body.pop();
    let data = response(TYPE_NAPTR, &[record(TYPE_NAPTR, 1, 3, &body)]);
    assert_eq!(decode_response(&data, TYPE_NAPTR), Err(DecodeError::BadRdata));
}

#[test]
fn other_types_come_out_raw() {
    let data = response(99, &[record(99, 4, 3, &[1, 2, 3]), record(TYPE_A, 1, 3, &[1, 2, 3, 4])]);
    assert_eq!(
        decode_response(&data, 99),
        Ok(ParsedResult::Other(vec![RawResult { rtype: 99, class: 4, ttl: 3, data: vec![1, 2, 3] }]))
    );
}

#[test]
fn a_records_through_the_typed_decoder() {
    let data = response(TYPE_A, &[record(TYPE_A, 1, 3, &[1, 2, 3, 4])]);
    match decode_response(&data, TYPE_A).unwrap() {
        ParsedResult::A(res) => {
            assert_eq!(res.len(), 1);
            assert_eq!(res.to_text(), "[{IPv4: 1.2.3.4, TTL: 3, }]");
        }
        other => panic!("{:?}", other),
    }
}

#[test]
fn rdlength_past_the_end_is_truncated_for_every_type() {
    let mut data = response(TYPE_MX, &[record(TYPE_MX, 1, 300, &[0, 10, 0])]);
    let cut = data.len() - 1;
    data.truncate(cut);
    for t in [TYPE_A, TYPE_AAAA, TYPE_MX, TYPE_TXT, 99] {
        assert_eq!(decode_response(&data, t), Err(DecodeError::Truncated));
    }
    // The length field alone says more than is there.
    let mut data = response(TYPE_A, &[record(TYPE_A, 1, 300, &[1, 2, 3, 4])]);
    let at = data.len() - 6;
    data[at] = 0xFF;
    assert_eq!(decode_response(&data, TYPE_A), Err(DecodeError::Truncated));
}

#[test]
fn pointer_bound_is_the_callers_to_set() {
    // The owner points at the question name: one hop.
    let data = response(TYPE_A, &[record(TYPE_A, 1, 3, &[1, 2, 3, 4])]);
    assert!(decode_response_with(&data, TYPE_A, 1).is_ok());
    assert_eq!(decode_response_with(&data, TYPE_A, 0), Err(DecodeError::BadPointer));
}
