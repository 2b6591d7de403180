use c_ares::ids::{IdSource, DEFAULT_STATE};

fn scramble(mut x: u64) -> u64 {
    x ^= x << 13;
    x ^= x >> 7;
    x ^= x << 17;
    x
}

#[test]
fn same_seed_same_ids() {
    let mut a = IdSource::new(42);
    let mut b = IdSource::new(42);
    for _ in 0..100 {
        assert_eq!(a.next(), b.next());
    }
    let mut c = IdSource::new(43);
    let first: Vec<u16> = (0..8).map(|_| a.next()).collect();
    let other: Vec<u16> = (0..8).map(|_| c.next()).collect();
    assert_ne!(first, other);
}

#[test]
fn ids_follow_the_generator() {
    let mut s = IdSource::new(1);
    let x1 = scramble(1);
    assert_eq!(s.next(), ((x1 >> 24) & 0xFFFF) as u16);
    assert_eq!(s.state, x1);
    let x2 = scramble(x1);
    assert_eq!(s.next(), ((x2 >> 24) & 0xFFFF) as u16);
    assert_eq!(x1, 0x40822041);
}

#[test]
fn seed_zero_is_replaced() {
    let mut s = IdSource::new(0);
    assert_eq!(s.state, DEFAULT_STATE);
    s.next();
    assert_ne!(s.state, 0);
}
