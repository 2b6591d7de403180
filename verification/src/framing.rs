//! Messages on a TCP stream: each is preceded by its length as a 16-bit
//! big-endian integer, and a read may end anywhere.

use vstd::prelude::*;
use crate::bytes::{
    copy_range, lemma_u16_round_trip, push_range, push_u16, read_u16, spec_u16_at,
    spec_u16_bytes,
};
use crate::name::{push_name, spec_names};

verus! {

/// The longest message a length prefix can announce.
pub const MAX_MESSAGE: usize = 65535;

/// The length prefix and the message behind it.
pub open spec fn spec_frame(msg: Seq<u8>) -> Seq<u8> {
    spec_u16_bytes(msg.len() as int) + msg
}

/// The complete messages at the start of `stream`, in order, and the bytes
/// behind them that do not yet make a message.
pub open spec fn spec_split(stream: Seq<u8>) -> (Seq<Seq<u8>>, Seq<u8>)
    decreases stream.len(),
{
    if stream.len() < 2 {
        (Seq::empty(), stream)
    } else {
        let n = spec_u16_at(stream, 0);
        if stream.len() < 2 + n {
            (Seq::empty(), stream)
        } else {
            let (msgs, rest) = spec_split(stream.subrange(2 + n, stream.len() as int));
            (seq![stream.subrange(2, 2 + n)] + msgs, rest)
        }
    }
}

/// Appends the length prefix and the message to `out`. A message too long for
/// a prefix is not written.
pub fn push_frame(out: &mut Vec<u8>, msg: &[u8]) -> (written: bool)
    ensures
        written == (msg@.len() <= MAX_MESSAGE),
        written ==> final(out)@ == old(out)@ + spec_frame(msg@),
        !written ==> final(out)@ == old(out)@,
{
    if msg.len() > MAX_MESSAGE {
        return false;
    }
    push_u16(out, msg.len() as u16);
    push_range(out, msg, 0, msg.len());
    assert(msg@.subrange(0, msg@.len() as int) =~= msg@);
    assert(out@ =~= old(out)@ + spec_frame(msg@));
    true
}

/// What has arrived on a stream and does not yet make a message.
pub struct Reassembler {
    buf: Vec<u8>,
}

impl View for Reassembler {
    type V = Seq<u8>;

    closed spec fn view(&self) -> Seq<u8> {
        self.buf@
    }
}

impl Reassembler {
    /// A reassembler that holds nothing.
    pub fn new() -> (r: Reassembler)
        ensures
            r@ == Seq::<u8>::empty(),
    {
        Reassembler { buf: Vec::new() }
    }

    /// A reassembler that holds `held`, the bytes an earlier read left over.
    pub fn from_bytes(held: Vec<u8>) -> (r: Reassembler)
        ensures
            r@ == held@,
    {
        Reassembler { buf: held }
    }

    /// The bytes held back.
    pub fn into_bytes(self) -> (held: Vec<u8>)
        ensures
            held@ == self@,
    {
        self.buf
    }

    /// The number of bytes held back.
    pub fn buffered(&self) -> (n: usize)
        ensures
            n == self@.len(),
    {
        self.buf.len()
    }

    /// Takes the bytes of one read and returns the messages they complete, in
    /// order. Bytes that do not yet make a message are held back for the next
    /// read.
    pub fn push(&mut self, chunk: &[u8]) -> (msgs: Vec<Vec<u8>>)
        ensures
            (spec_names(msgs@), final(self)@) == spec_split(old(self)@ + chunk@),
    {
        push_range(&mut self.buf, chunk, 0, chunk.len());
        assert(chunk@.subrange(0, chunk@.len() as int) =~= chunk@);
        let ghost whole = self.buf@;
        let mut msgs: Vec<Vec<u8>> = Vec::new();
        let mut pos: usize = 0;
        let total: usize = self.buf.len();
        assert(whole.subrange(0, total as int) =~= whole);
        assert(spec_names(msgs@) =~= Seq::<Seq<u8>>::empty());
        assert(spec_names(msgs@) + spec_split(whole).0 =~= spec_split(whole).0);
        loop
            invariant_except_break
                spec_split(whole) == (
                    spec_names(msgs@) + spec_split(whole.subrange(pos as int, total as int)).0,
                    spec_split(whole.subrange(pos as int, total as int)).1,
                ),
            invariant
                pos <= total == whole.len(),
                self.buf@ == whole,
            ensures
                spec_split(whole) == (spec_names(msgs@), whole.subrange(pos as int, total as int)),
            decreases total - pos,
        {
            let ghost rest = whole.subrange(pos as int, total as int);
            if total - pos < 2 {
                assert(spec_names(msgs@) + Seq::<Seq<u8>>::empty() =~= spec_names(msgs@));
                break;
            }
            let n: usize = read_u16(self.buf.as_slice(), pos) as usize;
            assert(spec_u16_at(rest, 0) == n);
            if total - pos - 2 < n {
                assert(spec_names(msgs@) + Seq::<Seq<u8>>::empty() =~= spec_names(msgs@));
                break;
            }
            let msg: Vec<u8> = copy_range(self.buf.as_slice(), pos + 2, pos + 2 + n);
            proof {
                assert(rest.subrange(2, 2 + n) =~= msg@);
                assert(rest.subrange(2 + n, rest.len() as int) =~= whole.subrange(
                    pos + 2 + n,
                    total as int,
                ));
                let tail = spec_split(whole.subrange(pos + 2 + n, total as int));
                assert(spec_names(msgs@) + (seq![msg@] + tail.0) =~= spec_names(msgs@).push(msg@)
                    + tail.0);
            }
            push_name(&mut msgs, msg);
            pos = pos + 2 + n;
        }
        let rest: Vec<u8> = copy_range(self.buf.as_slice(), pos, total);
        self.buf = rest;
        msgs
    }
}

/// Splitting a stream that arrives in two parts, the second joined to what
/// the first left over, gives what splitting the whole gives.
pub proof fn lemma_split_in_parts(first: Seq<u8>, second: Seq<u8>)
    ensures
        spec_split(first + second) == (
            spec_split(first).0 + spec_split(spec_split(first).1 + second).0,
            spec_split(spec_split(first).1 + second).1,
        ),
    decreases first.len(),
{
    let whole = first + second;
    if first.len() < 2 || first.len() < 2 + spec_u16_at(first, 0) {
        assert(Seq::<Seq<u8>>::empty() + spec_split(whole).0 =~= spec_split(whole).0);
    } else {
        let n = spec_u16_at(first, 0);
        assert(spec_u16_at(whole, 0) == n);
        let tail = first.subrange(2 + n, first.len() as int);
        assert(whole.subrange(2 + n, whole.len() as int) =~= tail + second);
        assert(whole.subrange(2, 2 + n) =~= first.subrange(2, 2 + n));
        lemma_split_in_parts(tail, second);
        let msg = first.subrange(2, 2 + n);
        assert(seq![msg] + (spec_split(tail).0 + spec_split(spec_split(tail).1 + second).0)
            =~= (seq![msg] + spec_split(tail).0) + spec_split(spec_split(tail).1 + second).0);
    }
}

/// A stream that holds one framed message and nothing else splits into that
/// message, with nothing left over.
pub proof fn lemma_split_frame(msg: Seq<u8>)
    requires
        msg.len() <= MAX_MESSAGE,
    ensures
        spec_split(spec_frame(msg)) == (seq![msg], Seq::<u8>::empty()),
{
    let stream = spec_frame(msg);
    lemma_u16_round_trip(msg.len() as int);
    assert(spec_u16_at(stream, 0) == spec_u16_at(spec_u16_bytes(msg.len() as int), 0));
    let n = msg.len() as int;
    assert(stream.subrange(2, 2 + n) =~= msg);
    let tail = stream.subrange(2 + n, stream.len() as int);
    assert(tail =~= Seq::<u8>::empty());
    assert(spec_split(tail) == (Seq::<Seq<u8>>::empty(), tail));
    assert(stream.len() >= 2 + spec_u16_at(stream, 0));
    assert(seq![msg] + Seq::<Seq<u8>>::empty() =~= seq![msg]);
}

/// A framed message that arrives in two reads, cut at any place, comes out
/// whole once both reads are in: the two reads together yield the message and
/// nothing else, and nothing is left over.
pub proof fn lemma_message_in_two_reads(msg: Seq<u8>, first: Seq<u8>, second: Seq<u8>)
    requires
        msg.len() <= MAX_MESSAGE,
        first + second == spec_frame(msg),
    ensures
        spec_split(first).0 + spec_split(spec_split(first).1 + second).0 == seq![msg],
        spec_split(spec_split(first).1 + second).1 == Seq::<u8>::empty(),
{
    lemma_split_in_parts(first, second);
    lemma_split_frame(msg);
}

} // verus!
