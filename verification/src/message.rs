//! The structure of a DNS message: header, question section and resource
//! records. A parsed message is an index into the buffer it was read from;
//! the typed decoders copy out what they need.

use vstd::prelude::*;
use crate::bytes::{read_u16, read_u32, spec_u16_at, spec_u32_at};
use crate::error::DecodeError;
use crate::name::{
    decode_name, lemma_decode_refuses_long_chain, spec_decode_name, spec_name_walk,
    spec_pointer_chain,
};

verus! {

/// The length of the fixed header.
pub const HEADER_LEN: usize = 12;

/// The length of the fixed fields of a record behind its owner name.
pub const RECORD_FIXED_LEN: usize = 10;

/// The class of the Internet.
pub const CLASS_IN: u16 = 1;

/// The largest time-to-live a record can report.
pub const MAX_TTL: i32 = 2147483647;

/// The record type A: an IPv4 address.
pub const TYPE_A: u16 = 1;

/// The record type NS: an authoritative nameserver.
pub const TYPE_NS: u16 = 2;

/// The record type CNAME: the canonical name of an alias.
pub const TYPE_CNAME: u16 = 5;

/// The record type SOA: the start of a zone of authority.
pub const TYPE_SOA: u16 = 6;

/// The record type PTR: a pointer to a name, as reverse lookups use it.
pub const TYPE_PTR: u16 = 12;

/// The record type MX: a mail exchange.
pub const TYPE_MX: u16 = 15;

/// The record type TXT: text strings.
pub const TYPE_TXT: u16 = 16;

/// The record type AAAA: an IPv6 address.
pub const TYPE_AAAA: u16 = 28;

/// The record type SRV: the location of a service.
pub const TYPE_SRV: u16 = 33;

/// The record type NAPTR: a naming authority pointer.
pub const TYPE_NAPTR: u16 = 35;

/// The record type CAA: a certification authority authorization.
pub const TYPE_CAA: u16 = 257;

/// The twelve bytes every message starts with.
#[derive(Clone, Copy, Debug, PartialEq, Eq, Structural)]
pub struct Header {
    pub id: u16,
    pub flags: u16,
    pub qdcount: u16,
    pub ancount: u16,
    pub nscount: u16,
    pub arcount: u16,
}

/// One entry of the question section.
#[derive(Clone, Copy, Debug, PartialEq, Eq, Structural)]
pub struct Question {
    /// Where the name starts in the buffer.
    pub name_pos: usize,
    pub qtype: u16,
    pub qclass: u16,
}

/// One resource record of the answer, authority or additional section.
#[derive(Clone, Copy, Debug, PartialEq, Eq, Structural)]
pub struct Record {
    /// Where the owner name starts in the buffer.
    pub name_pos: usize,
    pub rtype: u16,
    pub class: u16,
    /// The time-to-live, with values above `MAX_TTL` reported as `MAX_TTL`.
    pub ttl: i32,
    /// Where the body starts in the buffer.
    pub rdata_pos: usize,
    /// The length of the body.
    pub rdata_len: usize,
}

/// A message whose structure has been checked against its buffer.
pub struct Message {
    pub header: Header,
    pub questions: Vec<Question>,
    /// The records of all three sections in wire order.
    pub records: Vec<Record>,
}

/// What a `Message` stands for.
pub struct MessageView {
    pub header: Header,
    pub questions: Seq<Question>,
    pub records: Seq<Record>,
}

impl MessageView {
    /// The records of the answer section.
    pub open spec fn answers(self) -> Seq<Record> {
        self.records.subrange(0, self.header.ancount as int)
    }

    /// True when the message has as many questions and records as its header
    /// announces and the body of every record lies inside `data`.
    pub open spec fn fits(self, data: Seq<u8>) -> bool {
        &&& self.questions.len() == self.header.qdcount
        &&& self.records.len() == self.header.spec_record_count()
        &&& forall|i: int|
            0 <= i < self.records.len() ==> (#[trigger] self.records[i]).spec_in_bounds(data)
    }
}

impl Record {
    /// True when the body of the record lies inside `data`, a buffer that
    /// fits in memory.
    pub open spec fn spec_in_bounds(self, data: Seq<u8>) -> bool {
        self.rdata_pos + self.rdata_len <= data.len() <= usize::MAX
    }
}

impl View for Message {
    type V = MessageView;

    open spec fn view(&self) -> MessageView {
        MessageView { header: self.header, questions: self.questions@, records: self.records@ }
    }
}

/// The header stored in the first twelve bytes of `data`.
pub open spec fn spec_header(data: Seq<u8>) -> Header {
    Header {
        id: spec_u16_at(data, 0) as u16,
        flags: spec_u16_at(data, 2) as u16,
        qdcount: spec_u16_at(data, 4) as u16,
        ancount: spec_u16_at(data, 6) as u16,
        nscount: spec_u16_at(data, 8) as u16,
        arcount: spec_u16_at(data, 10) as u16,
    }
}

/// The twelve bytes that store `h`.
pub open spec fn spec_header_bytes(h: Header) -> Seq<u8> {
    seq![
        (h.id / 256) as u8,
        (h.id % 256) as u8,
        (h.flags / 256) as u8,
        (h.flags % 256) as u8,
        (h.qdcount / 256) as u8,
        (h.qdcount % 256) as u8,
        (h.ancount / 256) as u8,
        (h.ancount % 256) as u8,
        (h.nscount / 256) as u8,
        (h.nscount % 256) as u8,
        (h.arcount / 256) as u8,
        (h.arcount % 256) as u8,
    ]
}

/// Reading the header back from a buffer that starts with its twelve bytes
/// gives the header again.
pub proof fn lemma_header_round_trip(h: Header, data: Seq<u8>)
    requires
        data.len() >= HEADER_LEN,
        data.subrange(0, HEADER_LEN as int) == spec_header_bytes(h),
    ensures
        spec_header(data) == h,
{
    let b = spec_header_bytes(h);
    assert forall|i: int| 0 <= i < 12 implies data[i] == b[i] by {
        assert(data.subrange(0, HEADER_LEN as int)[i] == data[i]);
    }
    assert(data[0] == b[0] && data[1] == b[1] && data[2] == b[2] && data[3] == b[3]);
    assert(data[4] == b[4] && data[5] == b[5] && data[6] == b[6] && data[7] == b[7]);
    assert(data[8] == b[8] && data[9] == b[9] && data[10] == b[10] && data[11] == b[11]);
}

impl Header {
    /// Appends the twelve bytes that store the header.
    pub fn write(&self, out: &mut Vec<u8>)
        ensures
            final(out)@ == old(out)@ + spec_header_bytes(*self),
    {
        out.push((self.id / 256) as u8);
        out.push((self.id % 256) as u8);
        out.push((self.flags / 256) as u8);
        out.push((self.flags % 256) as u8);
        out.push((self.qdcount / 256) as u8);
        out.push((self.qdcount % 256) as u8);
        out.push((self.ancount / 256) as u8);
        out.push((self.ancount % 256) as u8);
        out.push((self.nscount / 256) as u8);
        out.push((self.nscount % 256) as u8);
        out.push((self.arcount / 256) as u8);
        out.push((self.arcount % 256) as u8);
        assert(out@ =~= old(out)@ + spec_header_bytes(*self));
    }

    /// The QR bit: this message is a response.
    pub open spec fn spec_is_response(self) -> bool {
        self.flags >= 32768
    }

    /// The TC bit: the sender cut the message short to fit a datagram.
    pub open spec fn spec_is_truncated(self) -> bool {
        (self.flags as int / 512) % 2 == 1
    }

    /// The RD bit: recursion is desired.
    pub open spec fn spec_recursion_desired(self) -> bool {
        (self.flags as int / 256) % 2 == 1
    }

    /// The response code, the low four bits of the flags.
    pub open spec fn spec_rcode(self) -> int {
        self.flags as int % 16
    }

    /// The number of records the three sections announce together.
    pub open spec fn spec_record_count(self) -> nat {
        (self.ancount + self.nscount + self.arcount) as nat
    }

    /// Tells whether the QR bit is set.
    pub fn is_response(&self) -> (b: bool)
        ensures
            b == self.spec_is_response(),
    {
        self.flags >= 32768
    }

    /// Tells whether the TC bit is set.
    pub fn is_truncated(&self) -> (b: bool)
        ensures
            b == self.spec_is_truncated(),
    {
        (self.flags / 512) % 2 == 1
    }

    /// Tells whether the RD bit is set.
    pub fn recursion_desired(&self) -> (b: bool)
        ensures
            b == self.spec_recursion_desired(),
    {
        (self.flags / 256) % 2 == 1
    }

    /// The response code.
    pub fn rcode(&self) -> (c: u8)
        ensures
            c as int == self.spec_rcode(),
    {
        (self.flags % 16) as u8
    }
}

/// The time-to-live a record reports for the 32-bit value `raw` on the wire.
pub open spec fn spec_clamp_ttl(raw: int) -> i32 {
    if raw > MAX_TTL {
        MAX_TTL
    } else {
        raw as i32
    }
}

/// The question that starts at `pos` and the offset behind it. The buffer
/// ending where a question should start means the count announced too many.
pub open spec fn spec_parse_question(data: Seq<u8>, pos: int, max_hops: nat) -> Result<
    (Question, int),
    DecodeError,
> {
    if pos >= data.len() {
        Err(DecodeError::CountMismatch)
    } else {
        match spec_decode_name(data, pos, max_hops) {
            Err(e) => Err(e),
            Ok((_, p)) => if p + 4 > data.len() {
                Err(DecodeError::Truncated)
            } else {
                Ok(
                    (
                        Question {
                            name_pos: pos as usize,
                            qtype: spec_u16_at(data, p) as u16,
                            qclass: spec_u16_at(data, p + 2) as u16,
                        },
                        p + 4,
                    ),
                )
            },
        }
    }
}

/// The first `count` questions from `start` on and the offset behind them.
pub open spec fn spec_parse_questions(data: Seq<u8>, start: int, count: nat, max_hops: nat) -> Result<
    (Seq<Question>, int),
    DecodeError,
>
    decreases count,
{
    if count == 0 {
        Ok((Seq::empty(), start))
    } else {
        match spec_parse_questions(data, start, (count - 1) as nat, max_hops) {
            Err(e) => Err(e),
            Ok((qs, p)) => match spec_parse_question(data, p, max_hops) {
                Err(e) => Err(e),
                Ok((q, next)) => Ok((qs.push(q), next)),
            },
        }
    }
}

/// The record that starts at `pos` and the offset behind it. The buffer
/// ending where a record should start means the count announced too many; a
/// body that runs past the end of the buffer is a truncation.
pub open spec fn spec_parse_record(data: Seq<u8>, pos: int, max_hops: nat) -> Result<
    (Record, int),
    DecodeError,
> {
    if pos >= data.len() {
        Err(DecodeError::CountMismatch)
    } else {
        match spec_decode_name(data, pos, max_hops) {
            Err(e) => Err(e),
            Ok((_, p)) => if p + RECORD_FIXED_LEN > data.len() {
                Err(DecodeError::Truncated)
            } else if p + RECORD_FIXED_LEN + spec_u16_at(data, p + 8) > data.len() {
                Err(DecodeError::Truncated)
            } else {
                Ok(
                    (
                        Record {
                            name_pos: pos as usize,
                            rtype: spec_u16_at(data, p) as u16,
                            class: spec_u16_at(data, p + 2) as u16,
                            ttl: spec_clamp_ttl(spec_u32_at(data, p + 4)),
                            rdata_pos: (p + RECORD_FIXED_LEN) as usize,
                            rdata_len: spec_u16_at(data, p + 8) as usize,
                        },
                        p + RECORD_FIXED_LEN + spec_u16_at(data, p + 8),
                    ),
                )
            },
        }
    }
}

/// The first `count` records from `start` on and the offset behind them.
pub open spec fn spec_parse_records(data: Seq<u8>, start: int, count: nat, max_hops: nat) -> Result<
    (Seq<Record>, int),
    DecodeError,
>
    decreases count,
{
    if count == 0 {
        Ok((Seq::empty(), start))
    } else {
        match spec_parse_records(data, start, (count - 1) as nat, max_hops) {
            Err(e) => Err(e),
            Ok((rs, p)) => match spec_parse_record(data, p, max_hops) {
                Err(e) => Err(e),
                Ok((r, next)) => Ok((rs.push(r), next)),
            },
        }
    }
}

/// The message stored in `data`: the header, as many questions and records
/// as the header announces, and nothing behind them.
pub open spec fn spec_parse_message(data: Seq<u8>, max_hops: nat) -> Result<
    MessageView,
    DecodeError,
> {
    if data.len() < HEADER_LEN {
        Err(DecodeError::Truncated)
    } else {
        let header = spec_header(data);
        match spec_parse_questions(data, HEADER_LEN as int, header.qdcount as nat, max_hops) {
            Err(e) => Err(e),
            Ok((questions, p)) => match spec_parse_records(
                data,
                p,
                header.spec_record_count(),
                max_hops,
            ) {
                Err(e) => Err(e),
                Ok((records, end)) => if end != data.len() {
                    Err(DecodeError::CountMismatch)
                } else {
                    Ok(MessageView { header, questions, records })
                },
            },
        }
    }
}

/// Once a prefix of the questions fails, every longer prefix fails alike.
pub proof fn lemma_questions_error_stays(
    data: Seq<u8>,
    start: int,
    failed: nat,
    count: nat,
    max_hops: nat,
)
    requires
        failed <= count,
        spec_parse_questions(data, start, failed, max_hops) is Err,
    ensures
        spec_parse_questions(data, start, count, max_hops) == spec_parse_questions(
            data,
            start,
            failed,
            max_hops,
        ),
    decreases count,
{
    if failed < count {
        lemma_questions_error_stays(data, start, failed, (count - 1) as nat, max_hops);
    }
}

/// Once a prefix of the records fails, every longer prefix fails alike.
pub proof fn lemma_records_error_stays(
    data: Seq<u8>,
    start: int,
    failed: nat,
    count: nat,
    max_hops: nat,
)
    requires
        failed <= count,
        spec_parse_records(data, start, failed, max_hops) is Err,
    ensures
        spec_parse_records(data, start, count, max_hops) == spec_parse_records(
            data,
            start,
            failed,
            max_hops,
        ),
    decreases count,
{
    if failed < count {
        lemma_records_error_stays(data, start, failed, (count - 1) as nat, max_hops);
    }
}

/// Reads the header, or nothing where the buffer is shorter than one.
pub fn parse_header(data: &[u8]) -> (r: Option<Header>)
    ensures
        r == if data@.len() < HEADER_LEN {
            None
        } else {
            Some(spec_header(data@))
        },
{
    if data.len() < HEADER_LEN {
        return None;
    }
    Some(
        Header {
            id: read_u16(data, 0),
            flags: read_u16(data, 2),
            qdcount: read_u16(data, 4),
            ancount: read_u16(data, 6),
            nscount: read_u16(data, 8),
            arcount: read_u16(data, 10),
        },
    )
}

/// Reads the question that starts at `pos`.
pub fn parse_question(data: &[u8], pos: usize, max_hops: usize) -> (r: Result<
    (Question, usize),
    DecodeError,
>)
    ensures
        match r {
            Ok((q, next)) => spec_parse_question(data@, pos as int, max_hops as nat) == Ok::<
                (Question, int),
                DecodeError,
            >((q, next as int)) && pos < next <= data@.len(),
            Err(e) => spec_parse_question(data@, pos as int, max_hops as nat) == Err::<
                (Question, int),
                DecodeError,
            >(e),
        },
{
    if pos >= data.len() {
        return Err(DecodeError::CountMismatch);
    }
    match decode_name(data, pos, max_hops) {
        Err(e) => Err(e),
        Ok((_, p)) => {
            if data.len() - p < 4 {
                return Err(DecodeError::Truncated);
            }
            let q = Question {
                name_pos: pos,
                qtype: read_u16(data, p),
                qclass: read_u16(data, p + 2),
            };
            Ok((q, p + 4))
        },
    }
}

/// Reads the record that starts at `pos`.
pub fn parse_record(data: &[u8], pos: usize, max_hops: usize) -> (r: Result<
    (Record, usize),
    DecodeError,
>)
    ensures
        match r {
            Ok((rec, next)) => spec_parse_record(data@, pos as int, max_hops as nat) == Ok::<
                (Record, int),
                DecodeError,
            >((rec, next as int)) && pos < next <= data@.len() && rec.spec_in_bounds(data@),
            Err(e) => spec_parse_record(data@, pos as int, max_hops as nat) == Err::<
                (Record, int),
                DecodeError,
            >(e),
        },
{
    if pos >= data.len() {
        return Err(DecodeError::CountMismatch);
    }
    match decode_name(data, pos, max_hops) {
        Err(e) => Err(e),
        Ok((_, p)) => {
            if data.len() - p < RECORD_FIXED_LEN {
                return Err(DecodeError::Truncated);
            }
            let rdata_len: usize = read_u16(data, p + 8) as usize;
            if data.len() - p - RECORD_FIXED_LEN < rdata_len {
                return Err(DecodeError::Truncated);
            }
            let raw: u32 = read_u32(data, p + 4);
            let ttl: i32 = if raw > MAX_TTL as u32 {
                MAX_TTL
            } else {
                raw as i32
            };
            let rec = Record {
                name_pos: pos,
                rtype: read_u16(data, p),
                class: read_u16(data, p + 2),
                ttl,
                rdata_pos: p + RECORD_FIXED_LEN,
                rdata_len,
            };
            Ok((rec, p + RECORD_FIXED_LEN + rdata_len))
        },
    }
}

/// Reads `count` questions from `start` on.
pub fn parse_questions(data: &[u8], start: usize, count: usize, max_hops: usize) -> (r: Result<
    (Vec<Question>, usize),
    DecodeError,
>)
    requires
        start <= data@.len(),
    ensures
        match r {
            Ok((qs, next)) => spec_parse_questions(
                data@,
                start as int,
                count as nat,
                max_hops as nat,
            ) == Ok::<(Seq<Question>, int), DecodeError>((qs@, next as int)) && start <= next
                <= data@.len() && qs@.len() == count,
            Err(e) => spec_parse_questions(data@, start as int, count as nat, max_hops as nat)
                == Err::<(Seq<Question>, int), DecodeError>(e),
        },
{
    let mut out: Vec<Question> = Vec::new();
    let mut pos: usize = start;
    let mut i: usize = 0;
    while i < count
        invariant
            i <= count,
            start <= pos <= data@.len(),
            out@.len() == i,
            spec_parse_questions(data@, start as int, i as nat, max_hops as nat) == Ok::<
                (Seq<Question>, int),
                DecodeError,
            >((out@, pos as int)),
        decreases count - i,
    {
        match parse_question(data, pos, max_hops) {
            Err(e) => {
                proof {
                    lemma_questions_error_stays(
                        data@,
                        start as int,
                        (i + 1) as nat,
                        count as nat,
                        max_hops as nat,
                    );
                }
                return Err(e);
            },
            Ok((q, next)) => {
                out.push(q);
                pos = next;
                i = i + 1;
            },
        }
    }
    Ok((out, pos))
}

/// Reads `count` records from `start` on.
pub fn parse_records(data: &[u8], start: usize, count: usize, max_hops: usize) -> (r: Result<
    (Vec<Record>, usize),
    DecodeError,
>)
    requires
        start <= data@.len(),
    ensures
        match r {
            Ok((rs, next)) => spec_parse_records(
                data@,
                start as int,
                count as nat,
                max_hops as nat,
            ) == Ok::<(Seq<Record>, int), DecodeError>((rs@, next as int)) && start <= next
                <= data@.len() && rs@.len() == count && forall|i: int|
                0 <= i < rs@.len() ==> (#[trigger] rs@[i]).spec_in_bounds(data@),
            Err(e) => spec_parse_records(data@, start as int, count as nat, max_hops as nat)
                == Err::<(Seq<Record>, int), DecodeError>(e),
        },
{
    let mut out: Vec<Record> = Vec::new();
    let mut pos: usize = start;
    let mut i: usize = 0;
    while i < count
        invariant
            i <= count,
            start <= pos <= data@.len(),
            out@.len() == i,
            forall|j: int| 0 <= j < out@.len() ==> (#[trigger] out@[j]).spec_in_bounds(data@),
            spec_parse_records(data@, start as int, i as nat, max_hops as nat) == Ok::<
                (Seq<Record>, int),
                DecodeError,
            >((out@, pos as int)),
        decreases count - i,
    {
        match parse_record(data, pos, max_hops) {
            Err(e) => {
                proof {
                    lemma_records_error_stays(
                        data@,
                        start as int,
                        (i + 1) as nat,
                        count as nat,
                        max_hops as nat,
                    );
                }
                return Err(e);
            },
            Ok((rec, next)) => {
                out.push(rec);
                pos = next;
                i = i + 1;
            },
        }
    }
    Ok((out, pos))
}

/// The offset behind the question section, where the section parses.
pub open spec fn spec_questions_end(data: Seq<u8>, max_hops: nat) -> int {
    spec_parse_questions(
        data,
        HEADER_LEN as int,
        spec_header(data).qdcount as nat,
        max_hops,
    )->Ok_0.1
}

/// The offset at which record number `k` starts, where the question section
/// and the records before it parse.
pub open spec fn spec_record_start(data: Seq<u8>, max_hops: nat, k: nat) -> int {
    spec_parse_records(data, spec_questions_end(data, max_hops), k, max_hops)->Ok_0.1
}

/// True when the message parses up to the start of record number `k`, which
/// the header announces.
pub open spec fn spec_reaches_record(data: Seq<u8>, max_hops: nat, k: nat) -> bool {
    &&& data.len() >= HEADER_LEN
    &&& k < spec_header(data).spec_record_count()
    &&& spec_parse_questions(
        data,
        HEADER_LEN as int,
        spec_header(data).qdcount as nat,
        max_hops,
    ) is Ok
    &&& spec_parse_records(data, spec_questions_end(data, max_hops), k, max_hops) is Ok
}

/// A message is refused with the error of the first record that fails.
pub proof fn lemma_record_error_fails_message(data: Seq<u8>, max_hops: nat, k: nat)
    requires
        spec_reaches_record(data, max_hops, k),
        spec_parse_record(data, spec_record_start(data, max_hops, k), max_hops) is Err,
    ensures
        spec_parse_message(data, max_hops) == Err::<MessageView, DecodeError>(
            spec_parse_record(data, spec_record_start(data, max_hops, k), max_hops)->Err_0,
        ),
{
    let p = spec_questions_end(data, max_hops);
    let count = spec_header(data).spec_record_count();
    assert(spec_parse_records(data, p, k + 1, max_hops) is Err);
    lemma_records_error_stays(data, p, k + 1, count, max_hops);
}

/// A record whose RDLENGTH exceeds what is left of the buffer makes the whole
/// message `Truncated`: the message parses up to record number `k`, whose
/// owner name and fixed fields are in place, but whose body would end behind
/// the buffer.
pub proof fn lemma_rdlength_overrun_is_truncated(data: Seq<u8>, max_hops: nat, k: nat)
    requires
        spec_reaches_record(data, max_hops, k),
        spec_decode_name(data, spec_record_start(data, max_hops, k), max_hops) is Ok,
        ({
            let fixed = spec_decode_name(
                data,
                spec_record_start(data, max_hops, k),
                max_hops,
            )->Ok_0.1;
            fixed + RECORD_FIXED_LEN <= data.len() && spec_u16_at(data, fixed + 8) > data.len()
                - (fixed + RECORD_FIXED_LEN)
        }),
    ensures
        spec_parse_message(data, max_hops) == Err::<MessageView, DecodeError>(
            DecodeError::Truncated,
        ),
{
    let start = spec_record_start(data, max_hops, k);
    assert(start < data.len()) by {
        if start >= data.len() {
            assert(spec_name_walk(data, start, max_hops, Seq::empty()) is Err);
        }
    }
    lemma_record_error_fails_message(data, max_hops, k);
}

/// A message with a record whose owner name runs through more compression
/// pointers than the bound is refused.
pub proof fn lemma_long_chain_fails_message(data: Seq<u8>, max_hops: nat, k: nat)
    requires
        spec_reaches_record(data, max_hops, k),
        spec_pointer_chain(data, spec_record_start(data, max_hops, k), max_hops + 1),
    ensures
        spec_parse_message(data, max_hops) == Err::<MessageView, DecodeError>(
            DecodeError::BadPointer,
        ) || spec_parse_message(data, max_hops) == Err::<MessageView, DecodeError>(
            DecodeError::BadName,
        ),
{
    let start = spec_record_start(data, max_hops, k);
    lemma_decode_refuses_long_chain(data, start, max_hops);
    lemma_record_error_fails_message(data, max_hops, k);
}

/// A message whose first question name runs through more compression
/// pointers than the bound is refused.
pub proof fn lemma_long_chain_in_question_fails_message(data: Seq<u8>, max_hops: nat)
    requires
        data.len() >= HEADER_LEN,
        spec_header(data).qdcount >= 1,
        spec_pointer_chain(data, HEADER_LEN as int, max_hops + 1),
    ensures
        spec_parse_message(data, max_hops) == Err::<MessageView, DecodeError>(
            DecodeError::BadPointer,
        ) || spec_parse_message(data, max_hops) == Err::<MessageView, DecodeError>(
            DecodeError::BadName,
        ),
{
    lemma_decode_refuses_long_chain(data, HEADER_LEN as int, max_hops);
    assert(spec_parse_questions(data, HEADER_LEN as int, 0, max_hops) == Ok::<
        (Seq<Question>, int),
        DecodeError,
    >((Seq::empty(), HEADER_LEN as int)));
    assert(spec_parse_questions(data, HEADER_LEN as int, 1, max_hops) is Err);
    lemma_questions_error_stays(
        data,
        HEADER_LEN as int,
        1,
        spec_header(data).qdcount as nat,
        max_hops,
    );
}

/// Where every record yields an item, the collection is the list of items.
pub proof fn lemma_collect_all<T>(
    recs: Seq<Record>,
    extract: spec_fn(Record) -> Result<Option<T>, DecodeError>,
    items: Seq<T>,
)
    requires
        items.len() == recs.len(),
        forall|i: int|
            0 <= i < recs.len() ==> extract(#[trigger] recs[i]) == Ok::<Option<T>, DecodeError>(
                Some(items[i]),
            ),
    ensures
        spec_collect(recs, extract) == Ok::<Seq<T>, DecodeError>(items),
    decreases recs.len(),
{
    if recs.len() == 0 {
        assert(items =~= Seq::<T>::empty());
    } else {
        lemma_collect_all(recs.drop_last(), extract, items.drop_last());
        assert(items.drop_last().push(items.last()) =~= items);
        assert(extract(recs[recs.len() - 1]) == Ok::<Option<T>, DecodeError>(
            Some(items[recs.len() - 1]),
        ));
    }
}

/// Where no record yields an item, the collection is empty.
pub proof fn lemma_collect_none<T>(
    recs: Seq<Record>,
    extract: spec_fn(Record) -> Result<Option<T>, DecodeError>,
)
    requires
        forall|i: int|
            0 <= i < recs.len() ==> extract(#[trigger] recs[i]) == Ok::<Option<T>, DecodeError>(
                None,
            ),
    ensures
        spec_collect(recs, extract) == Ok::<Seq<T>, DecodeError>(Seq::empty()),
    decreases recs.len(),
{
    if recs.len() > 0 {
        lemma_collect_none(recs.drop_last(), extract);
        assert(extract(recs[recs.len() - 1]) == Ok::<Option<T>, DecodeError>(None));
    }
}

/// The name that fills the body of `rec` behind its first `skip` bytes. A
/// name that stops short of the end of the body, or runs past it, is
/// malformed.
pub open spec fn spec_name_in_body(data: Seq<u8>, max_hops: nat, rec: Record, skip: int) -> Result<
    Seq<u8>,
    DecodeError,
> {
    if rec.rdata_len <= skip {
        Err(DecodeError::BadRdata)
    } else {
        match spec_decode_name(data, rec.rdata_pos + skip, max_hops) {
            Err(e) => Err(e),
            Ok((name, end)) => if end != rec.rdata_pos + rec.rdata_len {
                Err(DecodeError::BadRdata)
            } else {
                Ok(name)
            },
        }
    }
}

/// Decodes the name that fills the body of `rec` behind its first `skip`
/// bytes.
pub fn name_in_body(data: &[u8], max_hops: usize, rec: &Record, skip: usize) -> (r: Result<
    Vec<u8>,
    DecodeError,
>)
    requires
        rec.spec_in_bounds(data@),
    ensures
        match r {
            Ok(name) => spec_name_in_body(data@, max_hops as nat, *rec, skip as int) == Ok::<
                Seq<u8>,
                DecodeError,
            >(name@),
            Err(e) => spec_name_in_body(data@, max_hops as nat, *rec, skip as int) == Err::<
                Seq<u8>,
                DecodeError,
            >(e),
        },
{
    if rec.rdata_len <= skip {
        return Err(DecodeError::BadRdata);
    }
    match decode_name(data, rec.rdata_pos + skip, max_hops) {
        Err(e) => Err(e),
        Ok((name, end)) => {
            if end != rec.rdata_pos + rec.rdata_len {
                Err(DecodeError::BadRdata)
            } else {
                Ok(name)
            }
        },
    }
}

/// What `extract` yields for each record of `recs`, in order, leaving out the
/// records for which it yields nothing; the first failure ends the collection.
pub open spec fn spec_collect<T>(
    recs: Seq<Record>,
    extract: spec_fn(Record) -> Result<Option<T>, DecodeError>,
) -> Result<Seq<T>, DecodeError>
    decreases recs.len(),
{
    if recs.len() == 0 {
        Ok(Seq::empty())
    } else {
        match spec_collect(recs.drop_last(), extract) {
            Err(e) => Err(e),
            Ok(found) => match extract(recs.last()) {
                Err(e) => Err(e),
                Ok(None) => Ok(found),
                Ok(Some(item)) => Ok(found.push(item)),
            },
        }
    }
}

/// Collecting from the first `k + 1` records is collecting from the first `k`
/// and then looking at record `k`.
pub proof fn lemma_collect_step<T>(
    recs: Seq<Record>,
    extract: spec_fn(Record) -> Result<Option<T>, DecodeError>,
    k: int,
)
    requires
        0 <= k < recs.len(),
    ensures
        spec_collect(recs.take(k + 1), extract) == match spec_collect(recs.take(k), extract) {
            Err(e) => Err(e),
            Ok(found) => match extract(recs[k]) {
                Err(e) => Err(e),
                Ok(None) => Ok(found),
                Ok(Some(item)) => Ok(found.push(item)),
            },
        },
{
    assert(recs.take(k + 1).drop_last() =~= recs.take(k));
    assert(recs.take(k + 1).last() == recs[k]);
}

/// Once a prefix of the records fails, the whole collection fails alike.
pub proof fn lemma_collect_error_stays<T>(
    recs: Seq<Record>,
    extract: spec_fn(Record) -> Result<Option<T>, DecodeError>,
    k: int,
)
    requires
        0 <= k <= recs.len(),
        spec_collect(recs.take(k), extract) is Err,
    ensures
        spec_collect(recs, extract) == spec_collect(recs.take(k), extract),
    decreases recs.len() - k,
{
    if k == recs.len() {
        assert(recs.take(k) =~= recs);
    } else {
        lemma_collect_step(recs, extract, k);
        lemma_collect_error_stays(recs, extract, k + 1);
    }
}

impl Message {
    /// Checks the structure of `data` and indexes its questions and records.
    ///
    /// Names are followed through at most `max_hops` compression pointers.
    pub fn parse(data: &[u8], max_hops: usize) -> (r: Result<Message, DecodeError>)
        ensures
            match r {
                Ok(m) => spec_parse_message(data@, max_hops as nat) == Ok::<
                    MessageView,
                    DecodeError,
                >(m@) && m@.fits(data@),
                Err(e) => spec_parse_message(data@, max_hops as nat) == Err::<
                    MessageView,
                    DecodeError,
                >(e),
            },
    {
        let header = match parse_header(data) {
            None => {
                return Err(DecodeError::Truncated);
            },
            Some(h) => h,
        };
        let (questions, p) = match parse_questions(
            data,
            HEADER_LEN,
            header.qdcount as usize,
            max_hops,
        ) {
            Err(e) => {
                return Err(e);
            },
            Ok(x) => x,
        };
        let total: usize = header.ancount as usize + header.nscount as usize
            + header.arcount as usize;
        let (records, end) = match parse_records(data, p, total, max_hops) {
            Err(e) => {
                return Err(e);
            },
            Ok(x) => x,
        };
        if end != data.len() {
            return Err(DecodeError::CountMismatch);
        }
        Ok(Message { header, questions, records })
    }

    /// The number of records in the answer section.
    pub fn answer_count(&self) -> (n: usize)
        ensures
            n == self.header.ancount,
    {
        self.header.ancount as usize
    }
}

} // verus!
