use c_ares::error::{ConfigError, DecodeError};
use c_ares::name::{decode_name, encode_name, validate_hostname, DEFAULT_MAX_POINTER_HOPS};

#[test]
fn encode_splits_labels() {
    assert_eq!(
        encode_name(b"example.com"),
        Ok(vec![7, b'e', b'x', b'a', b'm', b'p', b'l', b'e', 3, b'c', b'o', b'm', 0])
    );
}

#[test]
fn encode_accepts_one_trailing_dot() {
    assert_eq!(encode_name(b"a.bc."), Ok(vec![1, b'a', 2, b'b', b'c', 0]));
    assert_eq!(encode_name(b"a.bc.."), Err(ConfigError::BadLabel));
}

#[test]
fn encode_root() {
    assert_eq!(encode_name(b""), Ok(vec![0]));
    assert_eq!(encode_name(b"."), Ok(vec![0]));
}

#[test]
fn encode_refuses_empty_labels() {
    assert_eq!(encode_name(b".com"), Err(ConfigError::BadLabel));
    assert_eq!(encode_name(b"a..b"), Err(ConfigError::BadLabel));
    assert_eq!(encode_name(b".."), Err(ConfigError::BadLabel));
}

#[test]
fn label_of_63_bytes_is_the_longest() {
    let ok = vec![b'a'; 63];
    assert!(validate_hostname(&ok).is_ok());
    let long = vec![b'a'; 64];
    assert_eq!(validate_hostname(&long), Err(ConfigError::BadLabel));
}

fn name_of_labels(count: usize, len: usize) -> Vec<u8> {
    let mut v = Vec::new();
    for i in 0..count {
        if i > 0 {
            v.push(b'.');
        }
        v.extend(std::iter::repeat(b'x').take(len));
    }
    v
}

#[test]
fn wire_form_of_255_bytes_is_the_longest() {
    // 3 labels of 63 and one of 61: 4 length bytes + 250 + root = 255.
    let mut name = name_of_labels(3, 63);
    name.push(b'.');
    name.extend(std::iter::repeat(b'y').take(61));
    assert_eq!(name.len(), 253);
    assert_eq!(encode_name(&name).unwrap().len(), 255);
    name.push(b'y');
    assert_eq!(encode_name(&name), Err(ConfigError::NameTooLong));
}

#[test]
fn decode_gives_back_what_encode_took() {
    let wire = encode_name(b"www.example.com.").unwrap();
    let (name, end) = decode_name(&wire, 0, DEFAULT_MAX_POINTER_HOPS).unwrap();
    assert_eq!(name, b"www.example.com");
    assert_eq!(end, wire.len());
}

#[test]
fn decode_follows_a_pointer_and_ends_behind_it() {
    // "com" at 0, then "example" + pointer to 0 at 5.
    let mut data = vec![3, b'c', b'o', b'm', 0];
    data.push(7);
    data.extend_from_slice(b"example");
    data.extend_from_slice(&[0xC0, 0x00]);
    data.push(0xFF);
    let (name, end) = decode_name(&data, 5, 4).unwrap();
    assert_eq!(name, b"example.com");
    assert_eq!(end, 15);
}

#[test]
fn decode_refuses_forward_and_self_pointers() {
    assert_eq!(decode_name(&[0xC0, 0x00], 0, 8), Err(DecodeError::BadPointer));
    assert_eq!(decode_name(&[0xC0, 0x02, 0], 0, 8), Err(DecodeError::BadPointer));
}

#[test]
fn decode_refuses_a_loop_of_pointers() {
    // label "a" at 0, pointer at 2 back to 0: the name never ends.
    let data = [1, b'a', 0xC0, 0x00];
    let r = decode_name(&data, 0, DEFAULT_MAX_POINTER_HOPS);
    assert!(r == Err(DecodeError::BadPointer) || r == Err(DecodeError::BadName));
}

fn chain(pointers: usize) -> Vec<u8> {
    // root at 0; pointer k (from 1) sits at 1 + 2 * (k - 1) and points at
    // the pointer before it, the first at the root.
    let mut data = vec![0u8];
    for k in 1..=pointers {
        let target = if k == 1 { 0 } else { 1 + 2 * (k - 2) };
        data.push(0xC0 | ((target >> 8) as u8));
        data.push((target & 0xFF) as u8);
    }
    data
}

#[test]
fn chain_within_the_bound_is_followed() {
    let data = chain(3);
    let (name, end) = decode_name(&data, 5, 3).unwrap();
    assert!(name.is_empty());
    assert_eq!(end, 7);
}

#[test]
fn chain_longer_than_the_bound_is_refused() {
    let data = chain(4);
    assert_eq!(decode_name(&data, 7, 3), Err(DecodeError::BadPointer));
    let long = chain(DEFAULT_MAX_POINTER_HOPS + 1);
    assert_eq!(
        decode_name(&long, long.len() - 2, DEFAULT_MAX_POINTER_HOPS),
        Err(DecodeError::BadPointer)
    );
    assert!(decode_name(&long, long.len() - 4, DEFAULT_MAX_POINTER_HOPS).is_ok());
}

#[test]
fn decode_refuses_reserved_label_types() {
    assert_eq!(decode_name(&[0x40, 0], 0, 8), Err(DecodeError::BadName));
    assert_eq!(decode_name(&[0x80, 0], 0, 8), Err(DecodeError::BadName));
}

#[test]
fn decode_of_a_cut_name_is_truncated() {
    assert_eq!(decode_name(&[3, b'c', b'o'], 0, 8), Err(DecodeError::Truncated));
    assert_eq!(decode_name(&[3, b'c', b'o', b'm'], 0, 8), Err(DecodeError::Truncated));
    assert_eq!(decode_name(&[0xC0], 0, 8), Err(DecodeError::Truncated));
    assert_eq!(decode_name(&[], 0, 8), Err(DecodeError::Truncated));
    assert_eq!(decode_name(&[0], 5, 8), Err(DecodeError::Truncated));
}

#[test]
fn decode_refuses_a_name_longer_than_253() {
    let mut data = Vec::new();
    for _ in 0..4 {
        data.push(63);
        data.extend(std::iter::repeat(b'x').take(63));
    }
    data.push(0);
    assert_eq!(decode_name(&data, 0, 8), Err(DecodeError::BadName));
}
