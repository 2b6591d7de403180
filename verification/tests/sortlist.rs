use c_ares::a::AResult;
use c_ares::addr::{IpAddr, Ipv4, Ipv6};
use c_ares::sortlist::{rank, sort_addresses, SortRule};

fn v4(a: u8, b: u8, c: u8, d: u8) -> IpAddr {
    IpAddr::V4(Ipv4::from_octets(a, b, c, d))
}

fn rule(net: IpAddr, mask: IpAddr) -> SortRule {
    SortRule { addr: net, mask }
}

fn rec(a: u8, b: u8, c: u8, d: u8, ttl: i32) -> AResult {
    AResult { addr: Ipv4::from_octets(a, b, c, d), ttl }
}

#[test]
fn rank_is_the_first_rule_that_matches() {
    let rules = vec![
        rule(v4(10, 1, 0, 0), v4(255, 255, 0, 0)),
        rule(v4(10, 0, 0, 0), v4(255, 0, 0, 0)),
        rule(v4(192, 168, 1, 0), v4(255, 255, 255, 0)),
    ];
    assert_eq!(rank(&rules, &v4(10, 1, 2, 3)), 0);
    assert_eq!(rank(&rules, &v4(10, 2, 2, 3)), 1);
    assert_eq!(rank(&rules, &v4(192, 168, 1, 77)), 2);
    assert_eq!(rank(&rules, &v4(192, 168, 2, 77)), 3);
    assert_eq!(rank(&[], &v4(1, 2, 3, 4)), 0);
}

#[test]
fn families_do_not_match_each_other() {
    let any6 = IpAddr::V6(Ipv6 { hi: 0, lo: 0 });
    let rules = vec![rule(any6, any6), rule(v4(0, 0, 0, 0), v4(0, 0, 0, 0))];
    assert_eq!(rank(&rules, &v4(1, 2, 3, 4)), 1);
    assert_eq!(rank(&rules, &IpAddr::V6(Ipv6 { hi: 7, lo: 9 })), 0);
    let mixed = vec![rule(v4(0, 0, 0, 0), any6)];
    assert_eq!(rank(&mixed, &v4(1, 2, 3, 4)), 1);
}

#[test]
fn ipv6_rule_looks_at_both_halves() {
    let net = IpAddr::V6(Ipv6 { hi: 0x20010db800000000, lo: 0x0000000000001000 });
    let mask = IpAddr::V6(Ipv6 { hi: 0xffffffff00000000, lo: 0x000000000000f000 });
    let rules = vec![rule(net, mask)];
    assert_eq!(rank(&rules, &IpAddr::V6(Ipv6 { hi: 0x20010db8aaaaaaaa, lo: 0x1234 })), 0);
    assert_eq!(rank(&rules, &IpAddr::V6(Ipv6 { hi: 0x20010db8aaaaaaaa, lo: 0x2234 })), 1);
    assert_eq!(rank(&rules, &IpAddr::V6(Ipv6 { hi: 0x20010db9aaaaaaaa, lo: 0x1234 })), 1);
}

#[test]
fn sorting_is_by_rank_and_stable() {
    let rules = vec![
        rule(v4(192, 168, 0, 0), v4(255, 255, 0, 0)),
        rule(v4(10, 0, 0, 0), v4(255, 0, 0, 0)),
    ];
    let addrs = vec![
        rec(8, 8, 8, 8, 1),
        rec(10, 0, 0, 2, 2),
        rec(192, 168, 5, 5, 3),
        rec(10, 0, 0, 1, 4),
        rec(1, 1, 1, 1, 5),
        rec(192, 168, 0, 1, 6),
    ];
    assert_eq!(
        sort_addresses(&addrs, &rules),
        vec![
            rec(192, 168, 5, 5, 3),
            rec(192, 168, 0, 1, 6),
            rec(10, 0, 0, 2, 2),
            rec(10, 0, 0, 1, 4),
            rec(8, 8, 8, 8, 1),
            rec(1, 1, 1, 1, 5),
        ]
    );
}

#[test]
fn sorting_without_rules_changes_nothing() {
    let addrs = vec![rec(3, 3, 3, 3, 1), rec(1, 1, 1, 1, 2), rec(2, 2, 2, 2, 3)];
    assert_eq!(sort_addresses(&addrs, &[]), addrs);
    assert!(sort_addresses(&[], &[]).is_empty());
}
