use c_ares::a::{query_a_callback, AResults};
use c_ares::addr::Ipv4;
use c_ares::error::{AresError, DecodeError};

fn example_response() -> Vec<u8> {
    let mut v: Vec<u8> = vec![0x12, 0x34, 0x81, 0x80, 0, 1, 0, 1, 0, 0, 0, 0];
    v.push(7);
    v.extend_from_slice(b"example");
    v.push(3);
    v.extend_from_slice(b"com");
    v.push(0);
    v.extend_from_slice(&[0, 1, 0, 1]);
    v.extend_from_slice(&[0xC0, 0x0C, 0, 1, 0, 1, 0, 0, 0x01, 0x2C, 0, 4, 93, 184, 216, 34]);
    v
}

#[test]
fn a_lookup_of_example_com_yields_its_one_address() {
    let res = AResults::parse_from(&example_response()).unwrap();
    assert_eq!(res.len(), 1);
    let first = res.get(0).unwrap();
    assert_eq!(first.ipv4(), Ipv4::from_octets(93, 184, 216, 34));
    assert_eq!(first.ipv4().octets(), [93, 184, 216, 34]);
    assert_eq!(first.ttl(), 300);
    assert_eq!(res.hostname(), b"example.com");
    assert_eq!(res.alias_count(), 0);
    assert_eq!(res.min_ttl(), Some(300));
    assert_eq!(res.get(1), None);
}

#[test]
fn iterator_hands_out_each_record_once() {
    let res = AResults::parse_from(&example_response()).unwrap();
    let mut it = res.iter();
    let first = it.next().unwrap();
    assert_eq!(first.ttl(), 300);
    assert!(it.next().is_none());
    assert!(it.next().is_none());
}

#[test]
fn rdlength_past_the_end_is_truncated() {
    let mut v = example_response();
    v.truncate(v.len() - 1);
    assert_eq!(AResults::parse_from(&v), Err(AresError::Decode(DecodeError::Truncated)));
}

#[test]
fn short_header_is_truncated() {
    assert_eq!(
        AResults::parse_from(&[0u8; 11]),
        Err(AresError::Decode(DecodeError::Truncated))
    );
}

#[test]
fn missing_record_is_a_count_mismatch() {
    let mut v = example_response();
    v.truncate(v.len() - 16);
    assert_eq!(AResults::parse_from(&v), Err(AresError::Decode(DecodeError::CountMismatch)));
}

#[test]
fn trailing_bytes_are_a_count_mismatch() {
    let mut v = example_response();
    v.push(0);
    assert_eq!(AResults::parse_from(&v), Err(AresError::Decode(DecodeError::CountMismatch)));
}

#[test]
fn callback_passes_the_error_through() {
    let r = query_a_callback(Some(AresError::Timeout), 3, &[]);
    assert_eq!(r, Err(AresError::Timeout));
    let r = query_a_callback(Some(AresError::Cancelled), 0, &example_response());
    assert_eq!(r, Err(AresError::Cancelled));
}

#[test]
fn callback_decodes_on_success() {
    let r = query_a_callback(None, 0, &example_response()).unwrap();
    assert_eq!(r.len(), 1);
    assert_eq!(r.get(0).unwrap().ipv4().octets(), [93, 184, 216, 34]);
}

#[test]
fn results_as_text() {
    let res = AResults::parse_from(&example_response()).unwrap();
    assert_eq!(res.to_text(), "[{IPv4: 93.184.216.34, TTL: 300, }]");
    let mut two = example_response();
    two[7] = 2;
    two.extend_from_slice(&[0xC0, 0x0C, 0, 1, 0, 1, 0, 0, 0, 60, 0, 4, 10, 0, 0, 1]);
    let res = AResults::parse_from(&two).unwrap();
    assert_eq!(
        res.to_text(),
        "[{IPv4: 93.184.216.34, TTL: 300, }, {IPv4: 10.0.0.1, TTL: 60, }]"
    );
    let mut none = example_response();
    none[7] = 0;
    none.truncate(none.len() - 16);
    assert_eq!(AResults::parse_from(&none).unwrap().to_text(), "[]");
}
