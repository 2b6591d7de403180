//! A source of pseudorandom transaction ids, one for each channel: seeded by
//! the caller, it gives the same ids for the same seed.

use vstd::prelude::*;

verus! {

/// The state a source starts with where the seed is 0, which the generator
/// cannot leave.
pub const DEFAULT_STATE: u64 = 0x9E3779B97F4A7C15;

/// One step of the generator: three shifts, each folded in by exclusive or.
pub open spec fn spec_scramble(x: u64) -> u64 {
    let a = x ^ (x << 13);
    let b = a ^ (a >> 7);
    b ^ (b << 17)
}

/// The id that a state gives: sixteen bits from its middle.
pub open spec fn spec_id_of(state: u64) -> u16 {
    ((state >> 24) & 0xFFFF) as u16
}

/// A source of transaction ids.
#[derive(Clone, Copy, Debug, PartialEq, Eq, Structural)]
pub struct IdSource {
    pub state: u64,
}

impl IdSource {
    /// The source for `seed`.
    pub fn new(seed: u64) -> (s: IdSource)
        ensures
            s.state == if seed == 0 {
                DEFAULT_STATE
            } else {
                seed
            },
            s.state != 0,
    {
        if seed == 0 {
            IdSource { state: DEFAULT_STATE }
        } else {
            IdSource { state: seed }
        }
    }

    /// The next id: the generator takes one step, and the id is read off its
    /// new state.
    pub fn next(&mut self) -> (id: u16)
        ensures
            final(self).state == spec_scramble(old(self).state),
            id == spec_id_of(final(self).state),
    {
        let x: u64 = self.state;
        let a: u64 = x ^ (x << 13);
        let b: u64 = a ^ (a >> 7);
        let c: u64 = b ^ (b << 17);
        self.state = c;
        let bits: u64 = (c >> 24) & 0xFFFF;
        assert(bits <= 0xFFFF) by (bit_vector)
            requires
                bits == (c >> 24) & 0xFFFF,
        ;
        bits as u16
    }
}

/// A source never runs dry: a step takes no state but 0 to 0, so a source
/// that starts away from 0 stays away from it.
pub proof fn lemma_scramble_keeps_going(x: u64)
    requires
        x != 0,
    ensures
        spec_scramble(x) != 0,
{
    let a = x ^ (x << 13);
    let b = a ^ (a >> 7);
    assert(a != 0) by (bit_vector)
        requires
            x != 0,
            a == x ^ (x << 13),
    ;
    assert(b != 0) by (bit_vector)
        requires
            a != 0,
            b == a ^ (a >> 7),
    ;
    assert(b ^ (b << 17) != 0) by (bit_vector)
        requires
            b != 0,
    ;
}

} // verus!
