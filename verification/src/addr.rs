//! IPv4 and IPv6 addresses as the numbers their wire forms spell.

use vstd::prelude::*;
use vstd::string::*;
use crate::text::{
    append_decimal, push_decimal, spec_decimal_digits, spec_decimal_text,
};
use crate::bytes::{
    lemma_u32_round_trip, lemma_u64_round_trip, push_u32, push_u64, read_u32, read_u64,
    spec_u32_at, spec_u32_bytes, spec_u64_at, spec_u64_bytes,
};

verus! {

/// Four bytes read as one big-endian number split into the same four bytes.
pub proof fn lemma_octets(a: u8, b: u8, c: u8, d: u8)
    ensures
        spec_u32_bytes(spec_u32_at(seq![a, b, c, d], 0)) == seq![a, b, c, d],
        0 <= spec_u32_at(seq![a, b, c, d], 0) < 4294967296,
{
    let v = spec_u32_at(seq![a, b, c, d], 0);
    assert(v == a * 16777216 + b * 65536 + c * 256 + d);
    assert(v / 16777216 == a);
    assert(v / 65536 == a * 256 + b);
    assert(v / 256 == a * 65536 + b * 256 + c);
    assert((v / 65536) % 256 == b);
    assert((v / 256) % 256 == c);
    assert(v % 256 == d);
    assert(spec_u32_bytes(v) =~= seq![a, b, c, d]);
}

/// The bytes of `.in-addr.arpa`.
pub open spec fn spec_in_addr_arpa() -> Seq<u8> {
    seq![46u8, 105u8, 110u8, 45u8, 97u8, 100u8, 100u8, 114u8, 46u8, 97u8, 114u8, 112u8, 97u8]
}

/// The bytes of `ip6.arpa`.
pub open spec fn spec_ip6_arpa() -> Seq<u8> {
    seq![105u8, 112u8, 54u8, 46u8, 97u8, 114u8, 112u8, 97u8]
}

/// Appends `.in-addr.arpa`.
fn push_in_addr_arpa(out: &mut Vec<u8>)
    ensures
        final(out)@ == old(out)@ + spec_in_addr_arpa(),
{
    out.push(46);
    out.push(105);
    out.push(110);
    out.push(45);
    out.push(97);
    out.push(100);
    out.push(100);
    out.push(114);
    out.push(46);
    out.push(97);
    out.push(114);
    out.push(112);
    out.push(97);
    assert(out@ =~= old(out)@ + spec_in_addr_arpa());
}

/// Appends `ip6.arpa`.
fn push_ip6_arpa(out: &mut Vec<u8>)
    ensures
        final(out)@ == old(out)@ + spec_ip6_arpa(),
{
    out.push(105);
    out.push(112);
    out.push(54);
    out.push(46);
    out.push(97);
    out.push(114);
    out.push(112);
    out.push(97);
    assert(out@ =~= old(out)@ + spec_ip6_arpa());
}

/// The byte of the hexadecimal digit `v`, in lower case.
pub open spec fn spec_hex_digit(v: nat) -> u8 {
    if v < 10 {
        (48 + v) as u8
    } else {
        (87 + v) as u8
    }
}

/// The lowest `count` hexadecimal digits of `v`, lowest first, each followed
/// by a dot.
pub open spec fn spec_nibbles(v: nat, count: nat) -> Seq<u8>
    decreases count,
{
    if count == 0 {
        Seq::empty()
    } else {
        seq![spec_hex_digit(v % 16), 46u8] + spec_nibbles(v / 16, (count - 1) as nat)
    }
}

/// Appends the sixteen hexadecimal digits of `v`, lowest first, each followed
/// by a dot.
fn push_nibbles(out: &mut Vec<u8>, v: u64)
    ensures
        final(out)@ == old(out)@ + spec_nibbles(v as nat, 16),
{
    let mut rest: u64 = v;
    let mut i: usize = 0;
    let ghost mut done: Seq<u8> = Seq::empty();
    assert(out@ =~= old(out)@ + done);
    assert(done + spec_nibbles(rest as nat, 16) =~= spec_nibbles(v as nat, 16));
    while i < 16
        invariant
            i <= 16,
            out@ == old(out)@ + done,
            spec_nibbles(v as nat, 16) == done + spec_nibbles(rest as nat, (16 - i) as nat),
        decreases 16 - i,
    {
        let d: u8 = (rest % 16) as u8;
        let c: u8 = if d < 10 {
            48 + d
        } else {
            87 + d
        };
        out.push(c);
        out.push(46);
        proof {
            let tail = spec_nibbles((rest / 16) as nat, (16 - i - 1) as nat);
            assert(done + (seq![c, 46u8] + tail) =~= (done + seq![c, 46u8]) + tail);
            done = done + seq![c, 46u8];
            assert(out@ =~= old(out)@ + done);
        }
        rest = rest / 16;
        i = i + 1;
    }
    assert(done + Seq::<u8>::empty() =~= done);
}

/// An IPv4 address; `bits` is its four bytes read as one big-endian number.
#[derive(Clone, Copy, Debug, PartialEq, Eq, Structural)]
pub struct Ipv4 {
    pub bits: u32,
}

impl Ipv4 {
    /// The byte at position `i` of the wire form, for `i` from 0 to 3.
    pub open spec fn spec_octet(self, i: int) -> u8 {
        spec_u32_bytes(self.bits as int)[i]
    }

    /// The address whose wire form is `a`, `b`, `c`, `d`.
    pub fn from_octets(a: u8, b: u8, c: u8, d: u8) -> (ip: Ipv4)
        ensures
            ip.bits as int == spec_u32_at(seq![a, b, c, d], 0),
            spec_u32_bytes(ip.bits as int) == seq![a, b, c, d],
    {
        let bits: u32 = ((a as u32 * 256 + b as u32) * 256 + c as u32) * 256 + d as u32;
        proof {
            lemma_octets(a, b, c, d);
        }
        Ipv4 { bits }
    }

    /// The four bytes of the wire form.
    pub fn octets(&self) -> (o: [u8; 4])
        ensures
            o@ == spec_u32_bytes(self.bits as int),
    {
        let o: [u8; 4] = [
            (self.bits / 16777216) as u8,
            ((self.bits / 65536) % 256) as u8,
            ((self.bits / 256) % 256) as u8,
            (self.bits % 256) as u8,
        ];
        assert(o@ =~= spec_u32_bytes(self.bits as int));
        o
    }

    /// Reads an address from its wire form, which is exactly four bytes.
    pub fn from_wire(data: &[u8]) -> (r: Option<Ipv4>)
        ensures
            r == if data@.len() == 4 {
                Some(Ipv4 { bits: spec_u32_at(data@, 0) as u32 })
            } else {
                None
            },
    {
        if data.len() != 4 {
            return None;
        }
        Some(Ipv4 { bits: read_u32(data, 0) })
    }

    /// The address in dotted decimal, such as `192.0.2.1`.
    pub open spec fn spec_text(self) -> Seq<char> {
        spec_decimal_text(self.spec_octet(0) as nat) + seq!['.'] + spec_decimal_text(
            self.spec_octet(1) as nat,
        ) + seq!['.'] + spec_decimal_text(self.spec_octet(2) as nat) + seq!['.']
            + spec_decimal_text(self.spec_octet(3) as nat)
    }

    /// The name under which the address is looked up in reverse: its bytes
    /// in decimal, last first, under `in-addr.arpa`.
    pub open spec fn spec_reverse_name(self) -> Seq<u8> {
        spec_decimal_digits(self.spec_octet(3) as nat) + seq![46u8] + spec_decimal_digits(
            self.spec_octet(2) as nat,
        ) + seq![46u8] + spec_decimal_digits(self.spec_octet(1) as nat) + seq![46u8]
            + spec_decimal_digits(self.spec_octet(0) as nat) + spec_in_addr_arpa()
    }

    /// Appends the address in dotted decimal.
    pub fn append_text(&self, out: &mut String)
        ensures
            final(out)@ == old(out)@ + self.spec_text(),
    {
        let o: [u8; 4] = self.octets();
        proof {
            reveal_strlit(".");
        }
        append_decimal(out, o[0] as u64);
        out.append(".");
        append_decimal(out, o[1] as u64);
        out.append(".");
        append_decimal(out, o[2] as u64);
        out.append(".");
        append_decimal(out, o[3] as u64);
        assert(out@ =~= old(out)@ + self.spec_text());
    }

    /// The address in dotted decimal.
    pub fn to_text(&self) -> (text: String)
        ensures
            text@ == self.spec_text(),
    {
        let mut text = String::new();
        self.append_text(&mut text);
        assert(text@ =~= self.spec_text());
        text
    }

    /// The name under which the address is looked up in reverse.
    pub fn reverse_name(&self) -> (name: Vec<u8>)
        ensures
            name@ == self.spec_reverse_name(),
    {
        let o: [u8; 4] = self.octets();
        let mut name: Vec<u8> = Vec::new();
        push_decimal(&mut name, o[3] as u64);
        name.push(46);
        push_decimal(&mut name, o[2] as u64);
        name.push(46);
        push_decimal(&mut name, o[1] as u64);
        name.push(46);
        push_decimal(&mut name, o[0] as u64);
        push_in_addr_arpa(&mut name);
        assert(name@ =~= self.spec_reverse_name());
        name
    }

    /// The wire form.
    pub fn to_wire(&self) -> (out: Vec<u8>)
        ensures
            out@ == spec_u32_bytes(self.bits as int),
    {
        let mut out: Vec<u8> = Vec::new();
        push_u32(&mut out, self.bits);
        assert(out@ =~= spec_u32_bytes(self.bits as int));
        out
    }
}

/// An IPv6 address; `hi` is the first eight bytes of its wire form read as
/// one big-endian number, `lo` the last eight.
#[derive(Clone, Copy, Debug, PartialEq, Eq, Structural)]
pub struct Ipv6 {
    pub hi: u64,
    pub lo: u64,
}

/// The IPv6 address stored in the sixteen bytes from `pos` on.
pub open spec fn spec_ipv6_at(data: Seq<u8>, pos: int) -> Ipv6 {
    Ipv6 { hi: spec_u64_at(data, pos) as u64, lo: spec_u64_at(data, pos + 8) as u64 }
}

impl Ipv6 {
    /// The sixteen bytes of the wire form.
    pub open spec fn spec_wire(self) -> Seq<u8> {
        spec_u64_bytes(self.hi as int) + spec_u64_bytes(self.lo as int)
    }

    /// Reads the address stored in the sixteen bytes from `pos` on.
    pub fn read(data: &[u8], pos: usize) -> (ip: Ipv6)
        requires
            pos + 16 <= data@.len(),
        ensures
            ip == spec_ipv6_at(data@, pos as int),
    {
        let len: usize = data.len();
        assert(pos + 16 <= len);
        Ipv6 { hi: read_u64(data, pos), lo: read_u64(data, pos + 8) }
    }

    /// Reads an address from its wire form, which is exactly sixteen bytes.
    pub fn from_wire(data: &[u8]) -> (r: Option<Ipv6>)
        ensures
            r == if data@.len() == 16 {
                Some(spec_ipv6_at(data@, 0))
            } else {
                None
            },
    {
        if data.len() != 16 {
            return None;
        }
        Some(Ipv6::read(data, 0))
    }

    /// The name under which the address is looked up in reverse: its
    /// thirty-two hexadecimal digits, last first, under `ip6.arpa`.
    pub open spec fn spec_reverse_name(self) -> Seq<u8> {
        spec_nibbles(self.lo as nat, 16) + spec_nibbles(self.hi as nat, 16) + spec_ip6_arpa()
    }

    /// The name under which the address is looked up in reverse.
    pub fn reverse_name(&self) -> (name: Vec<u8>)
        ensures
            name@ == self.spec_reverse_name(),
    {
        let mut name: Vec<u8> = Vec::new();
        push_nibbles(&mut name, self.lo);
        push_nibbles(&mut name, self.hi);
        push_ip6_arpa(&mut name);
        assert(name@ =~= self.spec_reverse_name());
        name
    }

    /// The wire form.
    pub fn to_wire(&self) -> (out: Vec<u8>)
        ensures
            out@ == self.spec_wire(),
    {
        let mut out: Vec<u8> = Vec::new();
        push_u64(&mut out, self.hi);
        push_u64(&mut out, self.lo);
        assert(out@ =~= self.spec_wire());
        out
    }
}

/// The wire form of an IPv6 address reads back as the address.
pub proof fn lemma_ipv6_round_trip(ip: Ipv6)
    ensures
        ip.spec_wire().len() == 16,
        spec_ipv6_at(ip.spec_wire(), 0) == ip,
{
    let w = ip.spec_wire();
    let h = spec_u64_bytes(ip.hi as int);
    let l = spec_u64_bytes(ip.lo as int);
    lemma_u64_round_trip(ip.hi as int);
    lemma_u64_round_trip(ip.lo as int);
    assert forall|i: int| 0 <= i < 8 implies w[i] == h[i] && w[8 + i] == l[i] by {}
    assert(w[0] == h[0] && w[1] == h[1] && w[2] == h[2] && w[3] == h[3]);
    assert(w[4] == h[4] && w[5] == h[5] && w[6] == h[6] && w[7] == h[7]);
    assert(w[8] == l[0] && w[9] == l[1] && w[10] == l[2] && w[11] == l[3]);
    assert(w[12] == l[4] && w[13] == l[5] && w[14] == l[6] && w[15] == l[7]);
}

/// The wire form of an IPv4 address reads back as the address.
pub proof fn lemma_ipv4_round_trip(ip: Ipv4)
    ensures
        spec_u32_bytes(ip.bits as int).len() == 4,
        spec_u32_at(spec_u32_bytes(ip.bits as int), 0) == ip.bits,
{
    lemma_u32_round_trip(ip.bits as int);
}

/// An address of either family.
#[derive(Clone, Copy, Debug, PartialEq, Eq, Structural)]
pub enum IpAddr {
    V4(Ipv4),
    V6(Ipv6),
}

impl IpAddr {
    /// The name under which the address is looked up in reverse.
    pub open spec fn spec_reverse_name(self) -> Seq<u8> {
        match self {
            IpAddr::V4(ip) => ip.spec_reverse_name(),
            IpAddr::V6(ip) => ip.spec_reverse_name(),
        }
    }

    /// The name under which the address is looked up in reverse, to be asked
    /// for PTR records.
    pub fn reverse_name(&self) -> (name: Vec<u8>)
        ensures
            name@ == self.spec_reverse_name(),
    {
        match self {
            IpAddr::V4(ip) => ip.reverse_name(),
            IpAddr::V6(ip) => ip.reverse_name(),
        }
    }

    /// The wire form: four bytes for IPv4, sixteen for IPv6.
    pub open spec fn spec_wire(self) -> Seq<u8> {
        match self {
            IpAddr::V4(ip) => spec_u32_bytes(ip.bits as int),
            IpAddr::V6(ip) => ip.spec_wire(),
        }
    }

    /// The wire form.
    pub fn to_wire(&self) -> (out: Vec<u8>)
        ensures
            out@ == self.spec_wire(),
    {
        match self {
            IpAddr::V4(ip) => ip.to_wire(),
            IpAddr::V6(ip) => ip.to_wire(),
        }
    }

    /// Reads an address from its wire form: four bytes are an IPv4 address,
    /// sixteen an IPv6 address, and anything else is none.
    pub fn from_wire(data: &[u8]) -> (r: Option<IpAddr>)
        ensures
            r == if data@.len() == 4 {
                Some(IpAddr::V4(Ipv4 { bits: spec_u32_at(data@, 0) as u32 }))
            } else if data@.len() == 16 {
                Some(IpAddr::V6(spec_ipv6_at(data@, 0)))
            } else {
                None
            },
    {
        if data.len() == 4 {
            Some(IpAddr::V4(Ipv4 { bits: read_u32(data, 0) }))
        } else if data.len() == 16 {
            Some(IpAddr::V6(Ipv6::read(data, 0)))
        } else {
            None
        }
    }
}

/// Where datagrams come from and go to: an address and a port.
#[derive(Clone, Copy, Debug, PartialEq, Eq, Structural)]
pub struct Endpoint {
    pub addr: IpAddr,
    pub port: u16,
}

} // verus!
