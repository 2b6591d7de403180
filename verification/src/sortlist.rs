//! The sortlist: rules of address preference, applied to a result with
//! several addresses.
//!
//! A rule is a network, given by an address and a mask. An address has the
//! rank of the first rule whose network it lies in, and the rank behind the
//! last rule where it lies in none. Sorting puts the addresses in the order
//! of their ranks and keeps the order in which the response gave them among
//! those of one rank.

use vstd::prelude::*;
use crate::a::AResult;
use crate::addr::IpAddr;

verus! {

/// One rule of the sortlist: the network of the addresses that agree with
/// `addr` in the bits set in `mask`.
#[derive(Clone, Copy, Debug, PartialEq, Eq, Structural)]
pub struct SortRule {
    pub addr: IpAddr,
    pub mask: IpAddr,
}

impl SortRule {
    /// True when `ip` lies in the network of the rule. An address of one
    /// family lies in no network of the other.
    pub open spec fn spec_matches(self, ip: IpAddr) -> bool {
        match (self.addr, self.mask, ip) {
            (IpAddr::V4(a), IpAddr::V4(m), IpAddr::V4(x)) => x.bits & m.bits == a.bits & m.bits,
            (IpAddr::V6(a), IpAddr::V6(m), IpAddr::V6(x)) => x.hi & m.hi == a.hi & m.hi && x.lo
                & m.lo == a.lo & m.lo,
            _ => false,
        }
    }

    /// Tells whether `ip` lies in the network of the rule.
    pub fn matches(&self, ip: &IpAddr) -> (b: bool)
        ensures
            b == self.spec_matches(*ip),
    {
        match (self.addr, self.mask, *ip) {
            (IpAddr::V4(a), IpAddr::V4(m), IpAddr::V4(x)) => x.bits & m.bits == a.bits & m.bits,
            (IpAddr::V6(a), IpAddr::V6(m), IpAddr::V6(x)) => x.hi & m.hi == a.hi & m.hi && x.lo
                & m.lo == a.lo & m.lo,
            _ => false,
        }
    }
}

/// The rank of `ip` among the rules from number `from` on: the number of the
/// first rule it matches, or the number of rules where it matches none.
pub open spec fn spec_rank_from(rules: Seq<SortRule>, ip: IpAddr, from: int) -> int
    decreases rules.len() - from,
{
    if from < 0 || from >= rules.len() {
        rules.len() as int
    } else if rules[from].spec_matches(ip) {
        from
    } else {
        spec_rank_from(rules, ip, from + 1)
    }
}

/// The rank of `ip` under `rules`.
pub open spec fn spec_rank(rules: Seq<SortRule>, ip: IpAddr) -> int {
    spec_rank_from(rules, ip, 0)
}

/// The rank of `ip` under `rules`.
pub fn rank(rules: &[SortRule], ip: &IpAddr) -> (r: usize)
    ensures
        r == spec_rank(rules@, *ip),
        r <= rules@.len(),
{
    let mut i: usize = 0;
    while i < rules.len()
        invariant
            i <= rules@.len(),
            spec_rank(rules@, *ip) == spec_rank_from(rules@, *ip, i as int),
        decreases rules@.len() - i,
    {
        if rules[i].matches(ip) {
            return i;
        }
        i = i + 1;
    }
    i
}

/// The records of `addrs` whose address has the rank `r`, in their order.
pub open spec fn spec_of_rank(addrs: Seq<AResult>, rules: Seq<SortRule>, r: int) -> Seq<AResult>
    decreases addrs.len(),
{
    if addrs.len() == 0 {
        Seq::empty()
    } else if spec_rank(rules, IpAddr::V4(addrs.last().addr)) == r {
        spec_of_rank(addrs.drop_last(), rules, r).push(addrs.last())
    } else {
        spec_of_rank(addrs.drop_last(), rules, r)
    }
}

/// The records of `addrs` with a rank below `ranks`, by rank, and in their
/// order within one rank.
pub open spec fn spec_sorted(addrs: Seq<AResult>, rules: Seq<SortRule>, ranks: nat) -> Seq<
    AResult,
>
    decreases ranks,
{
    if ranks == 0 {
        Seq::empty()
    } else {
        spec_sorted(addrs, rules, (ranks - 1) as nat) + spec_of_rank(addrs, rules, ranks - 1)
    }
}

/// Appends the records of `addrs` whose address has the rank `r`, in their
/// order.
fn push_of_rank(sorted: &mut Vec<AResult>, addrs: &[AResult], rules: &[SortRule], r: usize)
    ensures
        final(sorted)@ == old(sorted)@ + spec_of_rank(addrs@, rules@, r as int),
{
    let mut i: usize = 0;
    assert(addrs@.take(0) =~= Seq::<AResult>::empty());
    assert(sorted@ =~= old(sorted)@ + spec_of_rank(addrs@.take(0), rules@, r as int));
    while i < addrs.len()
        invariant
            i <= addrs@.len(),
            sorted@ == old(sorted)@ + spec_of_rank(addrs@.take(i as int), rules@, r as int),
        decreases addrs@.len() - i,
    {
        let ip = IpAddr::V4(addrs[i].addr);
        proof {
            assert(addrs@.take(i + 1).drop_last() =~= addrs@.take(i as int));
            assert(addrs@.take(i + 1).last() == addrs@[i as int]);
        }
        if rank(rules, &ip) == r {
            sorted.push(addrs[i]);
            assert(sorted@ =~= old(sorted)@ + spec_of_rank(
                addrs@.take(i + 1),
                rules@,
                r as int,
            ));
        }
        i = i + 1;
    }
    assert(addrs@.take(addrs@.len() as int) =~= addrs@);
}

/// Sorts the records of an A lookup by the sortlist: by the rank of their
/// address, and within one rank in the order given.
pub fn sort_addresses(addrs: &[AResult], rules: &[SortRule]) -> (sorted: Vec<AResult>)
    ensures
        sorted@ == spec_sorted(addrs@, rules@, rules@.len() + 1),
{
    let mut sorted: Vec<AResult> = Vec::new();
    let mut r: usize = 0;
    while r < rules.len()
        invariant
            r <= rules@.len(),
            sorted@ == spec_sorted(addrs@, rules@, r as nat),
        decreases rules@.len() - r,
    {
        push_of_rank(&mut sorted, addrs, rules, r);
        r = r + 1;
    }
    push_of_rank(&mut sorted, addrs, rules, r);
    sorted
}

/// Every record has exactly one rank, and that one is below the number of
/// rules plus one: sorting loses no record and makes none up.
pub proof fn lemma_sorted_keeps_every_record(addrs: Seq<AResult>, rules: Seq<SortRule>)
    ensures
        spec_sorted(addrs, rules, rules.len() + 1).len() == addrs.len(),
{
    lemma_sorted_len(addrs, rules, rules.len() + 1);
    lemma_count_all(addrs, rules);
}

/// How many records of `addrs` have a rank below `ranks`.
pub open spec fn spec_count_below(addrs: Seq<AResult>, rules: Seq<SortRule>, ranks: int) -> nat
    decreases addrs.len(),
{
    if addrs.len() == 0 {
        0
    } else if spec_rank(rules, IpAddr::V4(addrs.last().addr)) < ranks {
        spec_count_below(addrs.drop_last(), rules, ranks) + 1
    } else {
        spec_count_below(addrs.drop_last(), rules, ranks)
    }
}

/// How many records of `addrs` have the rank `r`.
pub proof fn lemma_of_rank_len(addrs: Seq<AResult>, rules: Seq<SortRule>, r: int)
    ensures
        spec_count_below(addrs, rules, r) + spec_of_rank(addrs, rules, r).len()
            == spec_count_below(addrs, rules, r + 1),
    decreases addrs.len(),
{
    if addrs.len() > 0 {
        lemma_of_rank_len(addrs.drop_last(), rules, r);
    }
}

/// The sorted list up to a rank holds the records below that rank.
pub proof fn lemma_sorted_len(addrs: Seq<AResult>, rules: Seq<SortRule>, ranks: nat)
    ensures
        spec_sorted(addrs, rules, ranks).len() == spec_count_below(addrs, rules, ranks as int),
    decreases ranks,
{
    if ranks == 0 {
        lemma_count_none(addrs, rules);
    } else {
        lemma_sorted_len(addrs, rules, (ranks - 1) as nat);
        lemma_of_rank_len(addrs, rules, ranks - 1);
    }
}

/// A rank is never negative and never above the number of rules.
pub proof fn lemma_rank_range(rules: Seq<SortRule>, ip: IpAddr, from: int)
    requires
        0 <= from,
    ensures
        from <= spec_rank_from(rules, ip, from) || spec_rank_from(rules, ip, from) == rules.len(),
        0 <= spec_rank_from(rules, ip, from) <= rules.len(),
    decreases rules.len() - from,
{
    if from < rules.len() && !rules[from].spec_matches(ip) {
        lemma_rank_range(rules, ip, from + 1);
    }
}

/// No record has a rank below 0.
pub proof fn lemma_count_none(addrs: Seq<AResult>, rules: Seq<SortRule>)
    ensures
        spec_count_below(addrs, rules, 0) == 0,
    decreases addrs.len(),
{
    if addrs.len() > 0 {
        lemma_rank_range(rules, IpAddr::V4(addrs.last().addr), 0);
        lemma_count_none(addrs.drop_last(), rules);
    }
}

/// Every record has a rank below the number of rules plus one.
pub proof fn lemma_count_all(addrs: Seq<AResult>, rules: Seq<SortRule>)
    ensures
        spec_count_below(addrs, rules, rules.len() as int + 1) == addrs.len(),
    decreases addrs.len(),
{
    if addrs.len() > 0 {
        lemma_rank_range(rules, IpAddr::V4(addrs.last().addr), 0);
        lemma_count_all(addrs.drop_last(), rules);
    }
}

} // verus!
