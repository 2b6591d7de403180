use c_ares::framing::{push_frame, Reassembler};

#[test]
fn frame_puts_the_length_in_front() {
    let mut out = vec![9u8];
    assert!(push_frame(&mut out, &[1, 2, 3]));
    assert_eq!(out, vec![9, 0, 3, 1, 2, 3]);
    let mut out = Vec::new();
    assert!(push_frame(&mut out, &vec![7u8; 300]));
    assert_eq!(&out[..2], &[1, 44]);
    assert_eq!(out.len(), 302);
}

#[test]
fn frame_refuses_what_the_prefix_cannot_announce() {
    let mut out = vec![1u8];
    assert!(!push_frame(&mut out, &vec![0u8; 65536]));
    assert_eq!(out, vec![1]);
    assert!(push_frame(&mut out, &vec![0u8; 65535]));
    assert_eq!(out.len(), 1 + 2 + 65535);
}

#[test]
fn message_split_across_two_reads_comes_out_whole() {
    let msg: Vec<u8> = (0..40u8).collect();
    let mut stream = Vec::new();
    push_frame(&mut stream, &msg);
    for cut in 0..=stream.len() {
        let mut r = Reassembler::new();
        let first = r.push(&stream[..cut]);
        let second = r.push(&stream[cut..]);
        let mut all = first;
        all.extend(second);
        assert_eq!(all, vec![msg.clone()]);
        assert_eq!(r.buffered(), 0);
    }
}

#[test]
fn prefix_split_across_two_reads() {
    let mut r = Reassembler::new();
    assert!(r.push(&[0]).is_empty());
    assert_eq!(r.buffered(), 1);
    assert_eq!(r.push(&[2, 0xAA, 0xBB]), vec![vec![0xAA, 0xBB]]);
    assert_eq!(r.buffered(), 0);
}

#[test]
fn one_read_with_several_messages() {
    let mut r = Reassembler::new();
    let msgs = r.push(&[0, 1, 7, 0, 0, 0, 2, 8, 9, 0, 5, 1]);
    assert_eq!(msgs, vec![vec![7], vec![], vec![8, 9]]);
    assert_eq!(r.buffered(), 3);
    assert_eq!(r.push(&[2, 3, 4, 5]), vec![vec![1, 2, 3, 4, 5]]);
}
