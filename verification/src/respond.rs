//! Answers as a server gives them, and what decoding makes of them: the
//! records put into an answer come out of the decoder as they went in.

use vstd::prelude::*;
use crate::a::{spec_parse_a, ARecords, AResult, AResultsView};
use crate::bytes::{
    lemma_u32_round_trip, push_range, read_u16, spec_u16_at, spec_u16_bytes, spec_u32_at,
    spec_u32_bytes,
};
use crate::cname::{
    spec_alias_extractor, spec_host_names, spec_question_name, spec_target_extractor,
};
use crate::codec::{spec_encode_query, spec_query_header};
use crate::error::{AresError, DecodeError};
use crate::message::{
    lemma_collect_all, lemma_collect_none, lemma_header_round_trip, spec_header,
    spec_header_bytes, spec_parse_message, spec_parse_question, spec_parse_questions,
    spec_parse_record, spec_parse_records, Header, MessageView, Question, Record, CLASS_IN,
    HEADER_LEN, TYPE_A, TYPE_CNAME,
};
use crate::name::{
    lemma_decode_encoded, spec_encode_name, spec_name_end, spec_name_walk, spec_pointer_target,
    spec_strip_dot,
};
use crate::records::{
    spec_answers, spec_extractor, spec_shapes, Extract, RawRecords, RawResult, RawShape,
};

verus! {

/// The flags of a plain response: QR, RD and RA set, no error.
pub const FLAGS_RESPONSE: u16 = 0x8180;

/// The longest body a record can announce.
pub const MAX_BODY: usize = 65535;

/// The most records a section can announce.
pub const MAX_RECORDS: usize = 65535;

/// The time-to-live as it is written: a negative one is written as 0.
pub open spec fn spec_wire_ttl(ttl: i32) -> int {
    if ttl < 0 {
        0
    } else {
        ttl as int
    }
}

/// The twelve bytes in front of the body of an answer record whose owner is
/// the name of the first question, written as a compression pointer to it.
pub open spec fn spec_answer_head(r: RawShape) -> Seq<u8> {
    seq![
        192u8,
        12u8,
        (r.rtype / 256) as u8,
        (r.rtype % 256) as u8,
        (r.class / 256) as u8,
        (r.class % 256) as u8,
        (spec_wire_ttl(r.ttl) / 16777216) as u8,
        ((spec_wire_ttl(r.ttl) / 65536) % 256) as u8,
        ((spec_wire_ttl(r.ttl) / 256) % 256) as u8,
        (spec_wire_ttl(r.ttl) % 256) as u8,
        (r.data.len() / 256) as u8,
        (r.data.len() % 256) as u8,
    ]
}

/// The bytes of one answer record.
pub open spec fn spec_answer_bytes(r: RawShape) -> Seq<u8> {
    spec_answer_head(r) + r.data
}

/// The bytes of the records `rs` one behind the other.
pub open spec fn spec_answers_bytes(rs: Seq<RawShape>) -> Seq<u8>
    decreases rs.len(),
{
    if rs.len() == 0 {
        Seq::empty()
    } else {
        spec_answers_bytes(rs.drop_last()) + spec_answer_bytes(rs.last())
    }
}

/// True for records that one answer section can hold: no more than a header
/// can announce, each with a body no longer than a record can announce.
pub open spec fn spec_answerable(rs: Seq<RawShape>) -> bool {
    rs.len() <= MAX_RECORDS && forall|i: int|
        0 <= i < rs.len() ==> (#[trigger] rs[i]).data.len() <= MAX_BODY
}

/// The header of the answer to `query` that carries `count` records.
pub open spec fn spec_answer_header(query: Seq<u8>, flags: u16, count: int) -> Header {
    Header {
        id: spec_header(query).id,
        flags,
        qdcount: 1,
        ancount: count as u16,
        nscount: 0,
        arcount: 0,
    }
}

/// The answer to `query` that carries the records `rs`: the id of the query,
/// its question section, and the records in the answer section.
pub open spec fn spec_respond(query: Seq<u8>, flags: u16, rs: Seq<RawShape>) -> Seq<u8> {
    spec_header_bytes(spec_answer_header(query, flags, rs.len() as int)) + query.subrange(
        HEADER_LEN as int,
        query.len() as int,
    ) + spec_answers_bytes(rs)
}

/// Builds the answer to `query` that carries `records`, as a server would.
/// Nothing is built for a query shorter than a header or for records that an
/// answer section cannot hold.
pub fn respond(query: &[u8], flags: u16, records: &[RawResult]) -> (r: Option<Vec<u8>>)
    ensures
        r is Some <==> query@.len() >= HEADER_LEN && spec_answerable(
            spec_shapes::<RawRecords>(records@),
        ),
        r matches Some(bytes) ==> bytes@ == spec_respond(
            query@,
            flags,
            spec_shapes::<RawRecords>(records@),
        ),
{
    let ghost rs = spec_shapes::<RawRecords>(records@);
    if query.len() < HEADER_LEN || records.len() > MAX_RECORDS {
        return None;
    }
    let mut k: usize = 0;
    while k < records.len()
        invariant
            k <= records@.len(),
            rs == spec_shapes::<RawRecords>(records@),
            forall|i: int| 0 <= i < k ==> (#[trigger] rs[i]).data.len() <= MAX_BODY,
        decreases records@.len() - k,
    {
        if records[k].data.len() > MAX_BODY {
            assert(rs[k as int].data.len() > MAX_BODY);
            return None;
        }
        k = k + 1;
    }
    let header = Header {
        id: read_u16(query, 0),
        flags,
        qdcount: 1,
        ancount: records.len() as u16,
        nscount: 0,
        arcount: 0,
    };
    let mut out: Vec<u8> = Vec::new();
    header.write(&mut out);
    push_range(&mut out, query, HEADER_LEN, query.len());
    let ghost head = out@;
    let mut i: usize = 0;
    assert(rs.take(0) =~= Seq::<RawShape>::empty());
    assert(out@ =~= head + spec_answers_bytes(rs.take(0)));
    while i < records.len()
        invariant
            i <= records@.len(),
            rs == spec_shapes::<RawRecords>(records@),
            spec_answerable(rs),
            out@ == head + spec_answers_bytes(rs.take(i as int)),
        decreases records@.len() - i,
    {
        let r: &RawResult = &records[i];
        let ttl: u32 = if r.ttl < 0 {
            0
        } else {
            r.ttl as u32
        };
        let len: usize = r.data.len();
        let ghost before = out@;
        assert(rs[i as int].data == r.data@);
        out.push(192);
        out.push(12);
        out.push((r.rtype / 256) as u8);
        out.push((r.rtype % 256) as u8);
        out.push((r.class / 256) as u8);
        out.push((r.class % 256) as u8);
        out.push((ttl / 16777216) as u8);
        out.push(((ttl / 65536) % 256) as u8);
        out.push(((ttl / 256) % 256) as u8);
        out.push((ttl % 256) as u8);
        out.push((len / 256) as u8);
        out.push((len % 256) as u8);
        assert(out@ =~= before + spec_answer_head(rs[i as int]));
        push_range(&mut out, r.data.as_slice(), 0, len);
        proof {
            assert(r.data@.subrange(0, len as int) =~= r.data@);
            assert(out@ =~= before + spec_answer_bytes(rs[i as int]));
            assert(rs.take(i + 1).drop_last() =~= rs.take(i as int));
            assert(rs.take(i + 1).last() == rs[i as int]);
            assert(out@ =~= head + spec_answers_bytes(rs.take(i + 1)));
        }
        i = i + 1;
    }
    assert(rs.take(rs.len() as int) =~= rs);
    Some(out)
}

/// The offset of record number `k` among the bytes of the records `rs`.
pub open spec fn spec_answer_offset(rs: Seq<RawShape>, k: int) -> int {
    spec_answers_bytes(rs.take(k)).len() as int
}

/// The bytes of the first `k` records are the first bytes of all of them.
pub proof fn lemma_answers_prefix(rs: Seq<RawShape>, k: int)
    requires
        0 <= k <= rs.len(),
    ensures
        spec_answer_offset(rs, k) <= spec_answers_bytes(rs).len(),
        spec_answers_bytes(rs).subrange(0, spec_answer_offset(rs, k)) == spec_answers_bytes(
            rs.take(k),
        ),
    decreases rs.len() - k,
{
    let all = spec_answers_bytes(rs);
    if k == rs.len() {
        assert(rs.take(k) =~= rs);
        assert(all.subrange(0, all.len() as int) =~= all);
    } else {
        lemma_answers_prefix(rs, k + 1);
        assert(rs.take(k + 1).drop_last() =~= rs.take(k));
        let longer = spec_answers_bytes(rs.take(k + 1));
        let shorter = spec_answers_bytes(rs.take(k));
        assert(longer == shorter + spec_answer_bytes(rs.take(k + 1).last()));
        assert(all.subrange(0, shorter.len() as int) =~= all.subrange(
            0,
            longer.len() as int,
        ).subrange(0, shorter.len() as int));
        assert(longer.subrange(0, shorter.len() as int) =~= shorter);
    }
}

/// Record number `k` occupies the bytes from its offset on, and the next
/// record starts right behind it.
pub proof fn lemma_answer_at(rs: Seq<RawShape>, k: int)
    requires
        0 <= k < rs.len(),
    ensures
        spec_answer_offset(rs, k + 1) == spec_answer_offset(rs, k) + 12 + rs[k].data.len(),
        spec_answer_offset(rs, k + 1) <= spec_answers_bytes(rs).len(),
        spec_answers_bytes(rs).subrange(
            spec_answer_offset(rs, k),
            spec_answer_offset(rs, k + 1),
        ) == spec_answer_bytes(rs[k]),
{
    lemma_answers_prefix(rs, k + 1);
    assert(rs.take(k + 1).drop_last() =~= rs.take(k));
    assert(rs.take(k + 1).last() == rs[k]);
    let all = spec_answers_bytes(rs);
    let longer = spec_answers_bytes(rs.take(k + 1));
    let shorter = spec_answers_bytes(rs.take(k));
    assert(longer == shorter + spec_answer_bytes(rs[k]));
    assert(all.subrange(shorter.len() as int, longer.len() as int) =~= all.subrange(
        0,
        longer.len() as int,
    ).subrange(shorter.len() as int, longer.len() as int));
    assert(longer.subrange(shorter.len() as int, longer.len() as int) =~= spec_answer_bytes(
        rs[k],
    ));
}

/// The record that the bytes of `spec_answer_bytes` parse to when they start
/// at `q`.
pub open spec fn spec_wire_record(q: int, r: RawShape) -> Record {
    Record {
        name_pos: q as usize,
        rtype: r.rtype,
        class: r.class,
        ttl: r.ttl,
        rdata_pos: (q + 12) as usize,
        rdata_len: r.data.len() as usize,
    }
}

/// The records that the bytes of `spec_answers_bytes` parse to when they
/// start at `p`.
pub open spec fn spec_wire_records(p: int, rs: Seq<RawShape>) -> Seq<Record> {
    Seq::new(rs.len(), |i: int| spec_wire_record(p + spec_answer_offset(rs, i), rs[i]))
}

/// The bytes written for one record parse to that record, with its body in
/// place, where the name of the first question can be read.
pub proof fn lemma_parse_answer(data: Seq<u8>, q: int, max_hops: nat, r: RawShape)
    requires
        HEADER_LEN < q,
        q + 12 + r.data.len() <= data.len() <= usize::MAX,
        data.subrange(q, q + 12 + r.data.len()) == spec_answer_bytes(r),
        max_hops >= 1,
        spec_name_walk(data, HEADER_LEN as int, (max_hops - 1) as nat, Seq::empty()) is Ok,
        r.ttl >= 0,
        r.data.len() <= MAX_BODY,
    ensures
        spec_parse_record(data, q, max_hops) == Ok::<(Record, int), DecodeError>(
            (spec_wire_record(q, r), q + 12 + r.data.len()),
        ),
        data.subrange(q + 12, q + 12 + r.data.len()) == r.data,
{
    let b = spec_answer_bytes(r);
    let h = spec_answer_head(r);
    let len = r.data.len() as int;
    assert forall|j: int| 0 <= j < 12 + len implies data[q + j] == b[j] by {
        assert(data.subrange(q, q + 12 + len)[j] == data[q + j]);
    }
    assert(data[q + 0] == h[0] && data[q + 1] == h[1] && data[q + 2] == h[2] && data[q + 3]
        == h[3]) by {
        assert(b[0] == h[0] && b[1] == h[1] && b[2] == h[2] && b[3] == h[3]);
    }
    assert(data[q + 4] == h[4] && data[q + 5] == h[5] && data[q + 6] == h[6] && data[q + 7]
        == h[7]) by {
        assert(b[4] == h[4] && b[5] == h[5] && b[6] == h[6] && b[7] == h[7]);
    }
    assert(data[q + 8] == h[8] && data[q + 9] == h[9] && data[q + 10] == h[10] && data[q + 11]
        == h[11]) by {
        assert(b[8] == h[8] && b[9] == h[9] && b[10] == h[10] && b[11] == h[11]);
    }
    assert(data.subrange(q + 12, q + 12 + len) =~= r.data) by {
        assert forall|j: int| 0 <= j < len implies data[q + 12 + j] == r.data[j] by {
            assert(data[q + (12 + j)] == b[12 + j]);
        }
    }
    assert(spec_pointer_target(data, q) == 12);
    assert(spec_name_walk(data, q, max_hops, Seq::empty()) == spec_name_walk(
        data,
        HEADER_LEN as int,
        (max_hops - 1) as nat,
        Seq::empty(),
    ));
    assert(spec_name_end(data, q) == q + 2);
    assert(spec_u16_at(data, q + 2) == r.rtype);
    assert(spec_u16_at(data, q + 4) == r.class);
    assert(spec_u32_at(data, q + 6) == r.ttl);
    assert(spec_u16_at(data, q + 10) == len);
}

/// The first `k` of the records written for `rs` parse to the first `k`
/// records of `spec_wire_records`.
pub proof fn lemma_parse_answers(
    data: Seq<u8>,
    p: int,
    max_hops: nat,
    rs: Seq<RawShape>,
    k: nat,
)
    requires
        HEADER_LEN < p,
        k <= rs.len(),
        data.len() == p + spec_answers_bytes(rs).len(),
        data.len() <= usize::MAX,
        data.subrange(p, data.len() as int) == spec_answers_bytes(rs),
        max_hops >= 1,
        spec_name_walk(data, HEADER_LEN as int, (max_hops - 1) as nat, Seq::empty()) is Ok,
        spec_answerable(rs),
        forall|i: int| 0 <= i < rs.len() ==> (#[trigger] rs[i]).ttl >= 0,
    ensures
        spec_parse_records(data, p, k, max_hops) == Ok::<(Seq<Record>, int), DecodeError>(
            (spec_wire_records(p, rs).take(k as int), p + spec_answer_offset(rs, k as int)),
        ),
    decreases k,
{
    if k == 0 {
        assert(spec_wire_records(p, rs).take(0) =~= Seq::<Record>::empty());
        assert(rs.take(0) =~= Seq::<RawShape>::empty());
    } else {
        let i = (k - 1) as int;
        lemma_parse_answers(data, p, max_hops, rs, (k - 1) as nat);
        lemma_answer_at(rs, i);
        let q = p + spec_answer_offset(rs, i);
        let next = p + spec_answer_offset(rs, i + 1);
        assert(data.subrange(q, next) =~= data.subrange(p, data.len() as int).subrange(
            spec_answer_offset(rs, i),
            spec_answer_offset(rs, i + 1),
        ));
        lemma_parse_answer(data, q, max_hops, rs[i]);
        assert(spec_wire_records(p, rs).take(i).push(spec_wire_record(q, rs[i]))
            =~= spec_wire_records(p, rs).take(k as int));
    }
}

/// The offset at which the records of an answer start: behind the header and
/// the question, whose name has the wire form `wire`.
pub open spec fn spec_records_start(wire: Seq<u8>) -> int {
    HEADER_LEN + wire.len() + 4
}

/// The message that the answer built for a query parses to.
pub open spec fn spec_response_message(
    id: u16,
    name: Seq<u8>,
    rtype: u16,
    response_flags: u16,
    rs: Seq<RawShape>,
) -> MessageView {
    MessageView {
        header: Header {
            id,
            flags: response_flags,
            qdcount: 1,
            ancount: rs.len() as u16,
            nscount: 0,
            arcount: 0,
        },
        questions: seq![Question { name_pos: HEADER_LEN, qtype: rtype, qclass: CLASS_IN }],
        records: spec_wire_records(spec_records_start(spec_encode_name(name)->Ok_0), rs),
    }
}

/// True for what an answer can be built from and read back: a query with a
/// valid name, records that an answer section can hold, none with a
/// negative lifetime, an answer that fits in memory, and at least one
/// compression pointer allowed.
pub open spec fn spec_round_trip_ready(
    id: u16,
    query_flags: u16,
    name: Seq<u8>,
    rtype: u16,
    response_flags: u16,
    rs: Seq<RawShape>,
    max_hops: nat,
) -> bool {
    &&& spec_encode_query(id, query_flags, name, rtype) is Ok
    &&& spec_answerable(rs)
    &&& forall|i: int| 0 <= i < rs.len() ==> (#[trigger] rs[i]).ttl >= 0
    &&& spec_respond(
        spec_encode_query(id, query_flags, name, rtype)->Ok_0,
        response_flags,
        rs,
    ).len() <= usize::MAX
    &&& max_hops >= 1
}

/// How the answer built for a valid query is laid out.
pub proof fn lemma_response_layout(
    id: u16,
    query_flags: u16,
    name: Seq<u8>,
    rtype: u16,
    response_flags: u16,
    rs: Seq<RawShape>,
)
    requires
        spec_encode_query(id, query_flags, name, rtype) is Ok,
        rs.len() <= MAX_RECORDS,
    ensures
        ({
            let query = spec_encode_query(id, query_flags, name, rtype)->Ok_0;
            let wire = spec_encode_name(name)->Ok_0;
            let data = spec_respond(query, response_flags, rs);
            let p = spec_records_start(wire);
            &&& spec_encode_name(name) is Ok
            &&& wire.len() <= 255
            &&& data.len() == p + spec_answers_bytes(rs).len()
            &&& spec_header(data) == spec_response_message(
                id,
                name,
                rtype,
                response_flags,
                rs,
            ).header
            &&& forall|j: int| 0 <= j < wire.len() ==> #[trigger] data[HEADER_LEN + j] == wire[j]
            &&& spec_u16_at(data, HEADER_LEN + wire.len()) == rtype
            &&& spec_u16_at(data, HEADER_LEN + wire.len() + 2) == CLASS_IN
            &&& data.subrange(p, data.len() as int) == spec_answers_bytes(rs)
        }),
{
    let query = spec_encode_query(id, query_flags, name, rtype)->Ok_0;
    let wire = spec_encode_name(name)->Ok_0;
    let data = spec_respond(query, response_flags, rs);
    let header = spec_answer_header(query, response_flags, rs.len() as int);
    let p = spec_records_start(wire);
    assert(query.subrange(0, HEADER_LEN as int) =~= spec_header_bytes(
        spec_query_header(id, query_flags),
    ));
    lemma_header_round_trip(spec_query_header(id, query_flags), query);
    let question = query.subrange(HEADER_LEN as int, query.len() as int);
    assert(question =~= wire + spec_u16_bytes(rtype as int) + spec_u16_bytes(CLASS_IN as int));
    assert(data.subrange(0, HEADER_LEN as int) =~= spec_header_bytes(header));
    lemma_header_round_trip(header, data);
    assert(data.subrange(p, data.len() as int) =~= spec_answers_bytes(rs));
    assert forall|j: int| 0 <= j < wire.len() implies #[trigger] data[HEADER_LEN + j]
        == wire[j] by {
        assert(data[HEADER_LEN + j] == question[j]);
    }
    let wlen = wire.len() as int;
    let name_end = HEADER_LEN + wlen;
    assert(data[name_end + 0] == question[wlen + 0]);
    assert(data[name_end + 1] == question[wlen + 1]);
    assert(data[name_end + 2] == question[wlen + 2]);
    assert(data[name_end + 3] == question[wlen + 3]);
}

/// The answer built for a valid query parses to the message it was built
/// from.
pub proof fn lemma_response_parses(
    id: u16,
    query_flags: u16,
    name: Seq<u8>,
    rtype: u16,
    response_flags: u16,
    rs: Seq<RawShape>,
    max_hops: nat,
)
    requires
        spec_round_trip_ready(id, query_flags, name, rtype, response_flags, rs, max_hops),
    ensures
        spec_parse_message(
            spec_respond(
                spec_encode_query(id, query_flags, name, rtype)->Ok_0,
                response_flags,
                rs,
            ),
            max_hops,
        ) == Ok::<MessageView, DecodeError>(
            spec_response_message(id, name, rtype, response_flags, rs),
        ),
{
    let query = spec_encode_query(id, query_flags, name, rtype)->Ok_0;
    let wire = spec_encode_name(name)->Ok_0;
    let data = spec_respond(query, response_flags, rs);
    let p = spec_records_start(wire);
    let m = spec_response_message(id, name, rtype, response_flags, rs);
    let n = rs.len();
    lemma_response_layout(id, query_flags, name, rtype, response_flags, rs);
    lemma_decode_encoded(data, HEADER_LEN as int, max_hops, name);
    lemma_decode_encoded(data, HEADER_LEN as int, (max_hops - 1) as nat, name);
    assert(spec_parse_question(data, HEADER_LEN as int, max_hops) == Ok::<
        (Question, int),
        DecodeError,
    >((m.questions[0], p)));
    assert(spec_parse_questions(data, HEADER_LEN as int, 0, max_hops) == Ok::<
        (Seq<Question>, int),
        DecodeError,
    >((Seq::empty(), HEADER_LEN as int)));
    assert(Seq::<Question>::empty().push(m.questions[0]) =~= m.questions);
    assert(spec_parse_questions(data, HEADER_LEN as int, 1, max_hops) == Ok::<
        (Seq<Question>, int),
        DecodeError,
    >((m.questions, p)));
    lemma_parse_answers(data, p, max_hops, rs, n);
    assert(m.records.take(n as int) =~= m.records);
    assert(rs.take(n as int) =~= rs);
    assert(m.header.spec_record_count() == n);
}

/// In the answer built for a valid query, the body of every record lies
/// where the parsed record says, and holds what was put in.
pub proof fn lemma_response_bodies(
    id: u16,
    query_flags: u16,
    name: Seq<u8>,
    rtype: u16,
    response_flags: u16,
    rs: Seq<RawShape>,
    max_hops: nat,
    k: int,
)
    requires
        spec_round_trip_ready(id, query_flags, name, rtype, response_flags, rs, max_hops),
        0 <= k < rs.len(),
    ensures
        ({
            let data = spec_respond(
                spec_encode_query(id, query_flags, name, rtype)->Ok_0,
                response_flags,
                rs,
            );
            let rec = spec_response_message(id, name, rtype, response_flags, rs).records[k];
            &&& rec.rtype == rs[k].rtype
            &&& rec.class == rs[k].class
            &&& rec.ttl == rs[k].ttl
            &&& rec.rdata_len == rs[k].data.len()
            &&& rec.rdata_pos + rec.rdata_len <= data.len()
            &&& data.subrange(rec.rdata_pos as int, rec.rdata_pos + rec.rdata_len) == rs[k].data
        }),
{
    let query = spec_encode_query(id, query_flags, name, rtype)->Ok_0;
    let wire = spec_encode_name(name)->Ok_0;
    let data = spec_respond(query, response_flags, rs);
    let p = spec_records_start(wire);
    lemma_response_layout(id, query_flags, name, rtype, response_flags, rs);
    lemma_decode_encoded(data, HEADER_LEN as int, (max_hops - 1) as nat, name);
    lemma_answer_at(rs, k);
    let q = p + spec_answer_offset(rs, k);
    let next = p + spec_answer_offset(rs, k + 1);
    assert(data.subrange(q, next) =~= data.subrange(p, data.len() as int).subrange(
        spec_answer_offset(rs, k),
        spec_answer_offset(rs, k + 1),
    ));
    lemma_parse_answer(data, q, max_hops, rs[k]);
}

/// An answer without CNAME records names the name asked for as canonical
/// name and has no alias.
pub proof fn lemma_response_host_names(
    id: u16,
    query_flags: u16,
    name: Seq<u8>,
    rtype: u16,
    response_flags: u16,
    rs: Seq<RawShape>,
    max_hops: nat,
)
    requires
        spec_round_trip_ready(id, query_flags, name, rtype, response_flags, rs, max_hops),
        forall|i: int| 0 <= i < rs.len() ==> (#[trigger] rs[i]).rtype != TYPE_CNAME,
    ensures
        spec_host_names(
            spec_respond(
                spec_encode_query(id, query_flags, name, rtype)->Ok_0,
                response_flags,
                rs,
            ),
            max_hops,
            spec_response_message(id, name, rtype, response_flags, rs),
        ) == Ok::<(Seq<u8>, Seq<Seq<u8>>), DecodeError>((spec_strip_dot(name), Seq::empty())),
{
    let query = spec_encode_query(id, query_flags, name, rtype)->Ok_0;
    let data = spec_respond(query, response_flags, rs);
    let m = spec_response_message(id, name, rtype, response_flags, rs);
    let records = m.records;
    lemma_response_layout(id, query_flags, name, rtype, response_flags, rs);
    lemma_decode_encoded(data, HEADER_LEN as int, max_hops, name);
    assert(m.answers() =~= records);
    assert forall|i: int| 0 <= i < records.len() implies spec_alias_extractor(data, max_hops)(
        #[trigger] records[i],
    ) == Ok::<Option<Seq<u8>>, DecodeError>(None) by {
        assert(records[i].rtype == rs[i].rtype);
    }
    lemma_collect_none(records, spec_alias_extractor(data, max_hops));
    assert forall|i: int| 0 <= i < records.len() implies spec_target_extractor(data, max_hops)(
        #[trigger] records[i],
    ) == Ok::<Option<Seq<u8>>, DecodeError>(None) by {
        assert(records[i].rtype == rs[i].rtype);
    }
    lemma_collect_none(records, spec_target_extractor(data, max_hops));
    assert(spec_question_name(data, max_hops, m) == Ok::<Seq<u8>, DecodeError>(
        spec_strip_dot(name),
    ));
}

/// Decoding the answer built for a valid query gives back every record that
/// was put in, whatever its type: its type, class, lifetime and body, in the
/// order given, where all records are of the type asked for. The answer
/// carries the id of the query.
pub proof fn lemma_round_trip(
    id: u16,
    query_flags: u16,
    name: Seq<u8>,
    rtype: u16,
    response_flags: u16,
    rs: Seq<RawShape>,
    max_hops: nat,
)
    requires
        spec_round_trip_ready(id, query_flags, name, rtype, response_flags, rs, max_hops),
        forall|i: int| 0 <= i < rs.len() ==> (#[trigger] rs[i]).rtype == rtype,
    ensures
        ({
            let data = spec_respond(
                spec_encode_query(id, query_flags, name, rtype)->Ok_0,
                response_flags,
                rs,
            );
            let m = spec_response_message(id, name, rtype, response_flags, rs);
            &&& spec_header(data).id == id
            &&& spec_parse_message(data, max_hops) == Ok::<MessageView, DecodeError>(m)
            &&& spec_answers(RawRecords { rtype }, data, max_hops, m.answers()) == Ok::<
                Seq<RawShape>,
                DecodeError,
            >(rs)
        }),
{
    let query = spec_encode_query(id, query_flags, name, rtype)->Ok_0;
    let data = spec_respond(query, response_flags, rs);
    let m = spec_response_message(id, name, rtype, response_flags, rs);
    let records = m.records;
    let how = RawRecords { rtype };
    lemma_response_layout(id, query_flags, name, rtype, response_flags, rs);
    lemma_response_parses(id, query_flags, name, rtype, response_flags, rs, max_hops);
    assert(m.answers() =~= records);
    assert forall|i: int| 0 <= i < records.len() implies spec_extractor(how, data, max_hops)(
        #[trigger] records[i],
    ) == Ok::<Option<RawShape>, DecodeError>(Some(rs[i])) by {
        lemma_response_bodies(id, query_flags, name, rtype, response_flags, rs, max_hops, i);
    }
    lemma_collect_all(records, spec_extractor(how, data, max_hops), rs);
}

/// The records of an A lookup as an answer carries them: type A, class IN,
/// and the four bytes of the address as body.
pub open spec fn spec_a_answers(rs: Seq<AResult>) -> Seq<RawShape> {
    Seq::new(
        rs.len(),
        |i: int|
            RawShape {
                rtype: TYPE_A,
                class: CLASS_IN,
                ttl: rs[i].ttl,
                data: spec_u32_bytes(rs[i].addr.bits as int),
            },
    )
}

/// The answer to the A query `query` that carries the records `rs`.
pub open spec fn spec_a_response(query: Seq<u8>, flags: u16, rs: Seq<AResult>) -> Seq<u8> {
    spec_respond(query, flags, spec_a_answers(rs))
}

/// Builds the answer to the A query `query` that carries `records`, as a
/// server would. Nothing is built for a query shorter than a header or for
/// more records than a header can announce.
pub fn a_response(query: &[u8], flags: u16, records: &[AResult]) -> (r: Option<Vec<u8>>)
    ensures
        r is Some <==> query@.len() >= HEADER_LEN && records@.len() <= MAX_RECORDS,
        r matches Some(bytes) ==> bytes@ == spec_a_response(query@, flags, records@),
{
    let mut raws: Vec<RawResult> = Vec::new();
    let mut i: usize = 0;
    assert(spec_shapes::<RawRecords>(raws@) =~= spec_a_answers(records@.take(0)));
    while i < records.len()
        invariant
            i <= records@.len(),
            raws@.len() == i,
            spec_shapes::<RawRecords>(raws@) == spec_a_answers(records@.take(i as int)),
        decreases records@.len() - i,
    {
        let r: AResult = records[i];
        let ghost before = spec_shapes::<RawRecords>(raws@);
        let raw = RawResult { rtype: TYPE_A, class: CLASS_IN, ttl: r.ttl, data: r.addr.to_wire() };
        let ghost shape = RawRecords::spec_shape(raw);
        raws.push(raw);
        proof {
            let now = spec_shapes::<RawRecords>(raws@);
            let want = spec_a_answers(records@.take(i + 1));
            assert(now.len() == want.len());
            assert forall|j: int| 0 <= j < now.len() implies now[j] == want[j] by {
                if j < i {
                    assert(now[j] == before[j]);
                    assert(records@.take(i as int)[j] == records@.take(i + 1)[j]);
                } else {
                    assert(now[j] == shape);
                    assert(records@.take(i + 1)[j] == r);
                }
            }
            assert(now =~= want);
        }
        i = i + 1;
    }
    assert(records@.take(records@.len() as int) =~= records@);
    respond(query, flags, raws.as_slice())
}

/// Decoding the answer built for a valid A query gives back what was put in:
/// the name asked for as canonical name, no alias, and the records with their
/// addresses and lifetimes in the order given. The answer carries the id of
/// the query.
pub proof fn lemma_a_round_trip(
    id: u16,
    query_flags: u16,
    name: Seq<u8>,
    response_flags: u16,
    rs: Seq<AResult>,
    max_hops: nat,
)
    requires
        spec_encode_query(id, query_flags, name, TYPE_A) is Ok,
        rs.len() <= MAX_RECORDS,
        forall|i: int| 0 <= i < rs.len() ==> (#[trigger] rs[i]).ttl >= 0,
        max_hops >= 1,
    ensures
        spec_parse_a(
            spec_a_response(
                spec_encode_query(id, query_flags, name, TYPE_A)->Ok_0,
                response_flags,
                rs,
            ),
            max_hops,
        ) == Ok::<AResultsView, AresError>(
            AResultsView { hostname: spec_strip_dot(name), aliases: Seq::empty(), addrs: rs },
        ),
        spec_header(
            spec_a_response(
                spec_encode_query(id, query_flags, name, TYPE_A)->Ok_0,
                response_flags,
                rs,
            ),
        ).id == id,
{
    let query = spec_encode_query(id, query_flags, name, TYPE_A)->Ok_0;
    let raws = spec_a_answers(rs);
    let data = spec_respond(query, response_flags, raws);
    let m = spec_response_message(id, name, TYPE_A, response_flags, raws);
    let records = m.records;
    lemma_a_answers_fit(id, query_flags, name, response_flags, rs, max_hops);
    lemma_response_layout(id, query_flags, name, TYPE_A, response_flags, raws);
    lemma_response_parses(id, query_flags, name, TYPE_A, response_flags, raws, max_hops);
    lemma_response_host_names(id, query_flags, name, TYPE_A, response_flags, raws, max_hops);
    assert(m.answers() =~= records);
    assert forall|i: int| 0 <= i < records.len() implies spec_extractor(
        ARecords,
        data,
        max_hops,
    )(#[trigger] records[i]) == Ok::<Option<AResult>, DecodeError>(Some(rs[i])) by {
        lemma_response_bodies(id, query_flags, name, TYPE_A, response_flags, raws, max_hops, i);
        let rec = records[i];
        let body = data.subrange(rec.rdata_pos as int, rec.rdata_pos + rec.rdata_len);
        lemma_u32_round_trip(rs[i].addr.bits as int);
        assert(body[0] == data[rec.rdata_pos + 0] && body[1] == data[rec.rdata_pos + 1] && body[2]
            == data[rec.rdata_pos + 2] && body[3] == data[rec.rdata_pos + 3]);
        assert(spec_u32_at(data, rec.rdata_pos as int) == spec_u32_at(body, 0));
    }
    lemma_collect_all(records, spec_extractor(ARecords, data, max_hops), rs);
}

/// The records of an A lookup make an answer that can be read back.
pub proof fn lemma_a_answers_fit(
    id: u16,
    query_flags: u16,
    name: Seq<u8>,
    response_flags: u16,
    rs: Seq<AResult>,
    max_hops: nat,
)
    requires
        spec_encode_query(id, query_flags, name, TYPE_A) is Ok,
        rs.len() <= MAX_RECORDS,
        forall|i: int| 0 <= i < rs.len() ==> (#[trigger] rs[i]).ttl >= 0,
        max_hops >= 1,
    ensures
        spec_round_trip_ready(
            id,
            query_flags,
            name,
            TYPE_A,
            response_flags,
            spec_a_answers(rs),
            max_hops,
        ),
        forall|i: int|
            0 <= i < rs.len() ==> (#[trigger] spec_a_answers(rs)[i]).rtype != TYPE_CNAME,
{
    let raws = spec_a_answers(rs);
    lemma_response_layout(id, query_flags, name, TYPE_A, response_flags, raws);
    assert forall|i: int| 0 <= i < raws.len() implies (#[trigger] raws[i]).data.len() == 4
        && raws[i].ttl >= 0 by {
        assert(raws[i].ttl == rs[i].ttl);
    }
    lemma_answers_len_bound(raws, 4);
    assert(raws.len() * (12 + 4) <= MAX_RECORDS * 16) by (nonlinear_arith)
        requires
            raws.len() <= MAX_RECORDS,
    ;
}

/// Records with bodies of at most `body` bytes take at most `12 + body` bytes
/// each.
pub proof fn lemma_answers_len_bound(rs: Seq<RawShape>, body: nat)
    requires
        forall|i: int| 0 <= i < rs.len() ==> (#[trigger] rs[i]).data.len() <= body,
    ensures
        spec_answers_bytes(rs).len() <= rs.len() * (12 + body),
    decreases rs.len(),
{
    if rs.len() > 0 {
        lemma_answers_len_bound(rs.drop_last(), body);
        assert(rs.last() == rs[rs.len() - 1]);
        assert((rs.len() - 1) * (12 + body) + (12 + body) == rs.len() * (12 + body))
            by (nonlinear_arith);
    }
}

} // verus!
