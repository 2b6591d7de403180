//! The records of each type as an answer carries them, and the law that
//! decoding gives them back.

use vstd::prelude::*;
use crate::addr::{lemma_ipv6_round_trip, spec_ipv6_at};
use crate::bytes::{
    lemma_u16_round_trip, lemma_u32_round_trip, spec_u16_at, spec_u16_bytes, spec_u32_at,
    spec_u32_bytes,
};
use crate::error::DecodeError;
use crate::message::{
    lemma_collect_all, spec_name_in_body, spec_parse_message, MessageView, Record, CLASS_IN, TYPE_A,
    TYPE_AAAA, TYPE_CAA, TYPE_CNAME, TYPE_MX, TYPE_NAPTR, TYPE_NS, TYPE_PTR, TYPE_SOA, TYPE_SRV,
    TYPE_TXT,
};
use crate::codec::spec_encode_query;
use crate::name::{lemma_decode_encoded, spec_encode_name, spec_strip_dot};
use crate::records::{
    spec_answers, spec_char_string, spec_char_strings, spec_extractor, AAAAResult, AaaaRecords,
    CAAShape, CaaRecords, Extract, MXShape, MxRecords, NAPTRShape, NameRecords, NameShape,
    NaptrRecords, RawShape, SOAShape, SRVShape, SoaRecords, SrvRecords,
    TXTShape, TxtRecords,
};
use crate::respond::{
    lemma_answers_len_bound, lemma_response_bodies, lemma_response_host_names,
    lemma_response_layout, lemma_response_parses, lemma_round_trip, spec_respond,
    spec_response_message, spec_round_trip_ready, MAX_RECORDS,
};
use crate::response::{spec_decode_response, AAAAResultsView, ParsedShape};

verus! {

/// True for the types of record that the decoder takes apart.
pub open spec fn spec_is_typed(rtype: u16) -> bool {
    rtype == TYPE_A || rtype == TYPE_AAAA || rtype == TYPE_NS || rtype == TYPE_PTR || rtype
        == TYPE_MX || rtype == TYPE_SRV || rtype == TYPE_TXT || rtype == TYPE_SOA || rtype
        == TYPE_NAPTR || rtype == TYPE_CAA
}

/// Decoding the answer built for a query of a type that the decoder does not
/// take apart gives back the records as they were put in.
pub proof fn lemma_other_round_trip(
    id: u16,
    query_flags: u16,
    name: Seq<u8>,
    rtype: u16,
    response_flags: u16,
    rs: Seq<RawShape>,
    max_hops: nat,
)
    requires
        spec_round_trip_ready(id, query_flags, name, rtype, response_flags, rs, max_hops),
        forall|i: int| 0 <= i < rs.len() ==> (#[trigger] rs[i]).rtype == rtype,
        !spec_is_typed(rtype),
    ensures
        spec_decode_response(
            spec_respond(
                spec_encode_query(id, query_flags, name, rtype)->Ok_0,
                response_flags,
                rs,
            ),
            rtype,
            max_hops,
        ) == Ok::<ParsedShape, DecodeError>(ParsedShape::Other(rs)),
{
    lemma_round_trip(id, query_flags, name, rtype, response_flags, rs, max_hops);
}

/// What the records of the answer built from `raws` yield for one type,
/// where each of them yields the item of `shapes` in its place.
pub proof fn lemma_typed_round_trip<E: Extract>(
    how: E,
    id: u16,
    query_flags: u16,
    name: Seq<u8>,
    rtype: u16,
    response_flags: u16,
    raws: Seq<RawShape>,
    shapes: Seq<E::Shape>,
    max_hops: nat,
)
    requires
        spec_round_trip_ready(id, query_flags, name, rtype, response_flags, raws, max_hops),
        shapes.len() == raws.len(),
        forall|i: int|
            0 <= i < raws.len() ==> how.spec_extract(
                spec_respond(
                    spec_encode_query(id, query_flags, name, rtype)->Ok_0,
                    response_flags,
                    raws,
                ),
                max_hops,
                #[trigger] spec_response_message(id, name, rtype, response_flags, raws).records[i],
            ) == Ok::<Option<E::Shape>, DecodeError>(Some(shapes[i])),
    ensures
        spec_answers(
            how,
            spec_respond(
                spec_encode_query(id, query_flags, name, rtype)->Ok_0,
                response_flags,
                raws,
            ),
            max_hops,
            spec_response_message(id, name, rtype, response_flags, raws).answers(),
        ) == Ok::<Seq<E::Shape>, DecodeError>(shapes),
{
    let data = spec_respond(
        spec_encode_query(id, query_flags, name, rtype)->Ok_0,
        response_flags,
        raws,
    );
    let m = spec_response_message(id, name, rtype, response_flags, raws);
    assert(m.answers() =~= m.records);
    assert forall|i: int| 0 <= i < m.records.len() implies spec_extractor(how, data, max_hops)(
        #[trigger] m.records[i],
    ) == Ok::<Option<E::Shape>, DecodeError>(Some(shapes[i])) by {}
    lemma_collect_all(m.records, spec_extractor(how, data, max_hops), shapes);
}

/// The records of an AAAA lookup as an answer carries them: type AAAA, class
/// IN, and the sixteen bytes of the address as body.
pub open spec fn spec_aaaa_answers(rs: Seq<AAAAResult>) -> Seq<RawShape> {
    Seq::new(
        rs.len(),
        |i: int|
            RawShape {
                rtype: TYPE_AAAA,
                class: CLASS_IN,
                ttl: rs[i].ttl,
                data: rs[i].addr.spec_wire(),
            },
    )
}

/// Sixteen bytes found in a buffer spell the address they spell alone.
pub proof fn lemma_ipv6_in_place(data: Seq<u8>, pos: int, body: Seq<u8>)
    requires
        0 <= pos,
        pos + 16 <= data.len(),
        body.len() == 16,
        data.subrange(pos, pos + 16) == body,
    ensures
        spec_ipv6_at(data, pos) == spec_ipv6_at(body, 0),
{
    assert forall|j: int| 0 <= j < 16 implies data[pos + j] == body[j] by {
        assert(data.subrange(pos, pos + 16)[j] == data[pos + j]);
    }
    assert(data[pos + 0] == body[0] && data[pos + 1] == body[1] && data[pos + 2] == body[2]
        && data[pos + 3] == body[3]);
    assert(data[pos + 4] == body[4] && data[pos + 5] == body[5] && data[pos + 6] == body[6]
        && data[pos + 7] == body[7]);
    assert(data[pos + 8] == body[8] && data[pos + 9] == body[9] && data[pos + 10] == body[10]
        && data[pos + 11] == body[11]);
    assert(data[pos + 12] == body[12] && data[pos + 13] == body[13] && data[pos + 14] == body[14]
        && data[pos + 15] == body[15]);
    assert(spec_u32_at(data, pos) == spec_u32_at(body, 0));
    assert(spec_u32_at(data, pos + 4) == spec_u32_at(body, 4));
    assert(spec_u32_at(data, pos + 8) == spec_u32_at(body, 8));
    assert(spec_u32_at(data, pos + 12) == spec_u32_at(body, 12));
}

/// The records of an AAAA lookup make an answer that can be read back.
pub proof fn lemma_aaaa_answers_fit(
    id: u16,
    query_flags: u16,
    name: Seq<u8>,
    response_flags: u16,
    rs: Seq<AAAAResult>,
    max_hops: nat,
)
    requires
        spec_encode_query(id, query_flags, name, TYPE_AAAA) is Ok,
        rs.len() <= MAX_RECORDS,
        forall|i: int| 0 <= i < rs.len() ==> (#[trigger] rs[i]).ttl >= 0,
        max_hops >= 1,
    ensures
        spec_round_trip_ready(
            id,
            query_flags,
            name,
            TYPE_AAAA,
            response_flags,
            spec_aaaa_answers(rs),
            max_hops,
        ),
        forall|i: int|
            0 <= i < rs.len() ==> (#[trigger] spec_aaaa_answers(rs)[i]).rtype != TYPE_CNAME,
{
    let raws = spec_aaaa_answers(rs);
    lemma_response_layout(id, query_flags, name, TYPE_AAAA, response_flags, raws);
    assert forall|i: int| 0 <= i < raws.len() implies (#[trigger] raws[i]).data.len() == 16
        && raws[i].ttl >= 0 by {
        lemma_ipv6_round_trip(rs[i].addr);
        assert(raws[i].ttl == rs[i].ttl);
    }
    lemma_answers_len_bound(raws, 16);
    assert(raws.len() * (12 + 16) <= MAX_RECORDS * 28) by (nonlinear_arith)
        requires
            raws.len() <= MAX_RECORDS,
    ;
}

/// Each record of the answer built for an AAAA lookup yields the record it
/// was built from.
pub proof fn lemma_aaaa_record(
    id: u16,
    query_flags: u16,
    name: Seq<u8>,
    response_flags: u16,
    rs: Seq<AAAAResult>,
    max_hops: nat,
    i: int,
)
    requires
        spec_round_trip_ready(
            id,
            query_flags,
            name,
            TYPE_AAAA,
            response_flags,
            spec_aaaa_answers(rs),
            max_hops,
        ),
        0 <= i < rs.len(),
    ensures
        AaaaRecords.spec_extract(
            spec_respond(
                spec_encode_query(id, query_flags, name, TYPE_AAAA)->Ok_0,
                response_flags,
                spec_aaaa_answers(rs),
            ),
            max_hops,
            spec_response_message(
                id,
                name,
                TYPE_AAAA,
                response_flags,
                spec_aaaa_answers(rs),
            ).records[i],
        ) == Ok::<Option<AAAAResult>, DecodeError>(Some(rs[i])),
{
    let raws = spec_aaaa_answers(rs);
    let data = spec_respond(
        spec_encode_query(id, query_flags, name, TYPE_AAAA)->Ok_0,
        response_flags,
        raws,
    );
    let m = spec_response_message(id, name, TYPE_AAAA, response_flags, raws);
    lemma_response_bodies(id, query_flags, name, TYPE_AAAA, response_flags, raws, max_hops, i);
    lemma_ipv6_round_trip(rs[i].addr);
    lemma_ipv6_in_place(data, m.records[i].rdata_pos as int, rs[i].addr.spec_wire());
}

/// Decoding the answer built for a valid AAAA query gives back what was put
/// in: the name asked for as canonical name, no alias, and the records with
/// their addresses and lifetimes in the order given.
pub proof fn lemma_aaaa_round_trip(
    id: u16,
    query_flags: u16,
    name: Seq<u8>,
    response_flags: u16,
    rs: Seq<AAAAResult>,
    max_hops: nat,
)
    requires
        spec_encode_query(id, query_flags, name, TYPE_AAAA) is Ok,
        rs.len() <= MAX_RECORDS,
        forall|i: int| 0 <= i < rs.len() ==> (#[trigger] rs[i]).ttl >= 0,
        max_hops >= 1,
    ensures
        spec_decode_response(
            spec_respond(
                spec_encode_query(id, query_flags, name, TYPE_AAAA)->Ok_0,
                response_flags,
                spec_aaaa_answers(rs),
            ),
            TYPE_AAAA,
            max_hops,
        ) == Ok::<ParsedShape, DecodeError>(
            ParsedShape::AAAA(
                AAAAResultsView { hostname: spec_strip_dot(name), aliases: Seq::empty(), addrs: rs },
            ),
        ),
{
    let raws = spec_aaaa_answers(rs);
    let m = spec_response_message(id, name, TYPE_AAAA, response_flags, raws);
    lemma_aaaa_answers_fit(id, query_flags, name, response_flags, rs, max_hops);
    lemma_response_parses(id, query_flags, name, TYPE_AAAA, response_flags, raws, max_hops);
    lemma_response_host_names(id, query_flags, name, TYPE_AAAA, response_flags, raws, max_hops);
    assert forall|i: int| 0 <= i < raws.len() implies AaaaRecords.spec_extract(
        spec_respond(
            spec_encode_query(id, query_flags, name, TYPE_AAAA)->Ok_0,
            response_flags,
            raws,
        ),
        max_hops,
        #[trigger] m.records[i],
    ) == Ok::<Option<AAAAResult>, DecodeError>(Some(rs[i])) by {
        lemma_aaaa_record(id, query_flags, name, response_flags, rs, max_hops, i);
    }
    lemma_typed_round_trip(
        AaaaRecords,
        id,
        query_flags,
        name,
        TYPE_AAAA,
        response_flags,
        raws,
        rs,
        max_hops,
    );
}

/// A name in wire form found at the end of the body of a record, behind
/// `prefix`, reads back as the name.
pub proof fn lemma_name_behind(
    data: Seq<u8>,
    rec: Record,
    prefix: Seq<u8>,
    host: Seq<u8>,
    max_hops: nat,
)
    requires
        spec_encode_name(host) is Ok,
        rec.rdata_pos + rec.rdata_len <= data.len(),
        rec.rdata_len == prefix.len() + spec_encode_name(host)->Ok_0.len(),
        data.subrange(rec.rdata_pos as int, rec.rdata_pos + rec.rdata_len) == prefix
            + spec_encode_name(host)->Ok_0,
    ensures
        spec_name_in_body(data, max_hops, rec, prefix.len() as int) == Ok::<Seq<u8>, DecodeError>(
            spec_strip_dot(host),
        ),
        forall|j: int| 0 <= j < prefix.len() ==> data[rec.rdata_pos + j] == #[trigger] prefix[j],
{
    let wire = spec_encode_name(host)->Ok_0;
    let body = prefix + wire;
    let pos = rec.rdata_pos as int;
    let at = pos + prefix.len();
    assert forall|j: int| 0 <= j < body.len() implies data[pos + j] == body[j] by {
        assert(data.subrange(pos, pos + rec.rdata_len)[j] == data[pos + j]);
    }
    assert forall|j: int| 0 <= j < wire.len() implies #[trigger] data[at + j] == wire[j] by {
        assert(data[pos + (prefix.len() + j)] == body[prefix.len() + j]);
    }
    lemma_decode_encoded(data, at, max_hops, host);
    assert forall|j: int| 0 <= j < prefix.len() implies data[rec.rdata_pos + j]
        == #[trigger] prefix[j] by {
        assert(data[pos + j] == body[j]);
    }
}

/// The records of an SRV lookup as an answer carries them: type SRV, class
/// IN, and priority, weight, port and the target in wire form as body.
pub open spec fn spec_srv_answers(rs: Seq<SRVShape>) -> Seq<RawShape> {
    Seq::new(
        rs.len(),
        |i: int|
            RawShape {
                rtype: TYPE_SRV,
                class: CLASS_IN,
                ttl: rs[i].ttl,
                data: spec_u16_bytes(rs[i].priority as int) + spec_u16_bytes(rs[i].weight as int)
                    + spec_u16_bytes(rs[i].port as int) + spec_encode_name(rs[i].host)->Ok_0,
            },
    )
}

/// The records of an MX lookup as an answer carries them: type MX, class IN,
/// and the preference and the exchange in wire form as body.
pub open spec fn spec_mx_answers(rs: Seq<MXShape>) -> Seq<RawShape> {
    Seq::new(
        rs.len(),
        |i: int|
            RawShape {
                rtype: TYPE_MX,
                class: CLASS_IN,
                ttl: rs[i].ttl,
                data: spec_u16_bytes(rs[i].priority as int) + spec_encode_name(rs[i].host)->Ok_0,
            },
    )
}

/// The records of a lookup for names, such as NS or PTR, as an answer
/// carries them: the type asked for, class IN, and the name in wire form as
/// body.
pub open spec fn spec_name_answers(rtype: u16, rs: Seq<NameShape>) -> Seq<RawShape> {
    Seq::new(
        rs.len(),
        |i: int|
            RawShape {
                rtype,
                class: CLASS_IN,
                ttl: rs[i].ttl,
                data: spec_encode_name(rs[i].name)->Ok_0,
            },
    )
}

/// An SRV record found in an answer yields the record it was built from,
/// with its target without the dot that may close it.
pub proof fn lemma_srv_in_place(data: Seq<u8>, rec: Record, r: SRVShape, max_hops: nat)
    requires
        spec_encode_name(r.host) is Ok,
        rec.rtype == TYPE_SRV,
        rec.class == CLASS_IN,
        rec.ttl == r.ttl,
        rec.rdata_pos + rec.rdata_len <= data.len(),
        rec.rdata_len == 6 + spec_encode_name(r.host)->Ok_0.len(),
        data.subrange(rec.rdata_pos as int, rec.rdata_pos + rec.rdata_len) == spec_u16_bytes(
            r.priority as int,
        ) + spec_u16_bytes(r.weight as int) + spec_u16_bytes(r.port as int) + spec_encode_name(
            r.host,
        )->Ok_0,
    ensures
        SrvRecords.spec_extract(data, max_hops, rec) == Ok::<Option<SRVShape>, DecodeError>(
            Some(SRVShape { host: spec_strip_dot(r.host), ..r }),
        ),
{
    let prefix = spec_u16_bytes(r.priority as int) + spec_u16_bytes(r.weight as int)
        + spec_u16_bytes(r.port as int);
    lemma_name_behind(data, rec, prefix, r.host, max_hops);
    assert(prefix[0] == data[rec.rdata_pos + 0] && prefix[1] == data[rec.rdata_pos + 1]);
    assert(prefix[2] == data[rec.rdata_pos + 2] && prefix[3] == data[rec.rdata_pos + 3]);
    assert(prefix[4] == data[rec.rdata_pos + 4] && prefix[5] == data[rec.rdata_pos + 5]);
    lemma_u16_round_trip(r.priority as int);
    lemma_u16_round_trip(r.weight as int);
    lemma_u16_round_trip(r.port as int);
    assert(spec_u16_at(data, rec.rdata_pos as int) == r.priority);
    assert(spec_u16_at(data, rec.rdata_pos + 2) == r.weight);
    assert(spec_u16_at(data, rec.rdata_pos + 4) == r.port);
}

/// An MX record found in an answer yields the record it was built from, with
/// its exchange without the dot that may close it.
pub proof fn lemma_mx_in_place(data: Seq<u8>, rec: Record, r: MXShape, max_hops: nat)
    requires
        spec_encode_name(r.host) is Ok,
        rec.rtype == TYPE_MX,
        rec.class == CLASS_IN,
        rec.ttl == r.ttl,
        rec.rdata_pos + rec.rdata_len <= data.len(),
        rec.rdata_len == 2 + spec_encode_name(r.host)->Ok_0.len(),
        data.subrange(rec.rdata_pos as int, rec.rdata_pos + rec.rdata_len) == spec_u16_bytes(
            r.priority as int,
        ) + spec_encode_name(r.host)->Ok_0,
    ensures
        MxRecords.spec_extract(data, max_hops, rec) == Ok::<Option<MXShape>, DecodeError>(
            Some(MXShape { host: spec_strip_dot(r.host), ..r }),
        ),
{
    let prefix = spec_u16_bytes(r.priority as int);
    lemma_name_behind(data, rec, prefix, r.host, max_hops);
    assert(prefix[0] == data[rec.rdata_pos + 0] && prefix[1] == data[rec.rdata_pos + 1]);
    lemma_u16_round_trip(r.priority as int);
    assert(spec_u16_at(data, rec.rdata_pos as int) == r.priority);
}

/// A record whose body is one name, found in an answer, yields the record it
/// was built from, with its name without the dot that may close it.
pub proof fn lemma_name_in_place(data: Seq<u8>, rec: Record, r: NameShape, max_hops: nat)
    requires
        spec_encode_name(r.name) is Ok,
        rec.class == CLASS_IN,
        rec.ttl == r.ttl,
        rec.rdata_pos + rec.rdata_len <= data.len(),
        rec.rdata_len == spec_encode_name(r.name)->Ok_0.len(),
        data.subrange(rec.rdata_pos as int, rec.rdata_pos + rec.rdata_len) == spec_encode_name(
            r.name,
        )->Ok_0,
    ensures
        (NameRecords { rtype: rec.rtype }).spec_extract(data, max_hops, rec) == Ok::<
            Option<NameShape>,
            DecodeError,
        >(Some(NameShape { name: spec_strip_dot(r.name), ..r })),
{
    let wire = spec_encode_name(r.name)->Ok_0;
    assert(Seq::<u8>::empty() + wire =~= wire);
    lemma_name_behind(data, rec, Seq::empty(), r.name, max_hops);
}

/// Records with short bodies and no negative lifetime make an answer that
/// can be read back.
pub proof fn lemma_short_answers_fit(
    id: u16,
    query_flags: u16,
    name: Seq<u8>,
    rtype: u16,
    response_flags: u16,
    raws: Seq<RawShape>,
    max_hops: nat,
)
    requires
        spec_encode_query(id, query_flags, name, rtype) is Ok,
        raws.len() <= MAX_RECORDS,
        forall|i: int|
            0 <= i < raws.len() ==> (#[trigger] raws[i]).data.len() <= 300 && raws[i].ttl >= 0,
        max_hops >= 1,
    ensures
        spec_round_trip_ready(id, query_flags, name, rtype, response_flags, raws, max_hops),
{
    lemma_response_layout(id, query_flags, name, rtype, response_flags, raws);
    lemma_answers_len_bound(raws, 300);
    assert(raws.len() * (12 + 300) <= MAX_RECORDS * 312) by (nonlinear_arith)
        requires
            raws.len() <= MAX_RECORDS,
    ;
}

/// The records `rs` with each target without the dot that may close it.
pub open spec fn spec_srv_read_back(rs: Seq<SRVShape>) -> Seq<SRVShape> {
    Seq::new(rs.len(), |i: int| SRVShape { host: spec_strip_dot(rs[i].host), ..rs[i] })
}

/// The records `rs` with each exchange without the dot that may close it.
pub open spec fn spec_mx_read_back(rs: Seq<MXShape>) -> Seq<MXShape> {
    Seq::new(rs.len(), |i: int| MXShape { host: spec_strip_dot(rs[i].host), ..rs[i] })
}

/// The records `rs` with each name without the dot that may close it.
pub open spec fn spec_names_read_back(rs: Seq<NameShape>) -> Seq<NameShape> {
    Seq::new(rs.len(), |i: int| NameShape { name: spec_strip_dot(rs[i].name), ..rs[i] })
}

/// The records of an SRV lookup make an answer that can be read back, with
/// every body as long as its numbers and its name.
pub proof fn lemma_srv_answers_fit(
    id: u16,
    query_flags: u16,
    name: Seq<u8>,
    response_flags: u16,
    rs: Seq<SRVShape>,
    max_hops: nat,
)
    requires
        spec_encode_query(id, query_flags, name, TYPE_SRV) is Ok,
        rs.len() <= MAX_RECORDS,
        forall|i: int|
            0 <= i < rs.len() ==> (#[trigger] rs[i]).ttl >= 0 && spec_encode_name(rs[i].host)
                is Ok,
        max_hops >= 1,
    ensures
        spec_round_trip_ready(
            id,
            query_flags,
            name,
            TYPE_SRV,
            response_flags,
            spec_srv_answers(rs),
            max_hops,
        ),
        forall|i: int|
            0 <= i < rs.len() ==> (#[trigger] spec_srv_answers(rs)[i]).data.len() == 6
                + spec_encode_name(rs[i].host)->Ok_0.len(),
{
    let raws = spec_srv_answers(rs);
    assert forall|i: int| 0 <= i < raws.len() implies (#[trigger] raws[i]).data.len() == 6
        + spec_encode_name(rs[i].host)->Ok_0.len() && raws[i].data.len() <= 300 && raws[i].ttl
        >= 0 by {
        assert(raws[i].ttl == rs[i].ttl);
        assert(spec_encode_name(rs[i].host)->Ok_0.len() <= 255);
    }
    lemma_short_answers_fit(id, query_flags, name, TYPE_SRV, response_flags, raws, max_hops);
}

/// Each record of the answer built for an SRV lookup yields the record it
/// was built from.
pub proof fn lemma_srv_record(
    id: u16,
    query_flags: u16,
    name: Seq<u8>,
    response_flags: u16,
    rs: Seq<SRVShape>,
    max_hops: nat,
    i: int,
)
    requires
        spec_round_trip_ready(
            id,
            query_flags,
            name,
            TYPE_SRV,
            response_flags,
            spec_srv_answers(rs),
            max_hops,
        ),
        0 <= i < rs.len(),
        spec_encode_name(rs[i].host) is Ok,
        spec_srv_answers(rs)[i].data.len() == 6 + spec_encode_name(rs[i].host)->Ok_0.len(),
    ensures
        SrvRecords.spec_extract(
            spec_respond(
                spec_encode_query(id, query_flags, name, TYPE_SRV)->Ok_0,
                response_flags,
                spec_srv_answers(rs),
            ),
            max_hops,
            spec_response_message(id, name, TYPE_SRV, response_flags, spec_srv_answers(rs)).records[i],
        ) == Ok::<Option<SRVShape>, DecodeError>(Some(spec_srv_read_back(rs)[i])),
{
    let raws = spec_srv_answers(rs);
    let data = spec_respond(
        spec_encode_query(id, query_flags, name, TYPE_SRV)->Ok_0,
        response_flags,
        raws,
    );
    let m = spec_response_message(id, name, TYPE_SRV, response_flags, raws);
    lemma_response_bodies(id, query_flags, name, TYPE_SRV, response_flags, raws, max_hops, i);
    lemma_srv_in_place(data, m.records[i], rs[i], max_hops);
}

/// Decoding the answer built for a valid SRV query gives back the records
/// that were put in, in the order given.
pub proof fn lemma_srv_round_trip(
    id: u16,
    query_flags: u16,
    name: Seq<u8>,
    response_flags: u16,
    rs: Seq<SRVShape>,
    max_hops: nat,
)
    requires
        spec_encode_query(id, query_flags, name, TYPE_SRV) is Ok,
        rs.len() <= MAX_RECORDS,
        forall|i: int|
            0 <= i < rs.len() ==> (#[trigger] rs[i]).ttl >= 0 && spec_encode_name(rs[i].host)
                is Ok,
        max_hops >= 1,
    ensures
        spec_decode_response(
            spec_respond(
                spec_encode_query(id, query_flags, name, TYPE_SRV)->Ok_0,
                response_flags,
                spec_srv_answers(rs),
            ),
            TYPE_SRV,
            max_hops,
        ) == Ok::<ParsedShape, DecodeError>(ParsedShape::SRV(spec_srv_read_back(rs))),
{
    let raws = spec_srv_answers(rs);
    let m = spec_response_message(id, name, TYPE_SRV, response_flags, raws);
    lemma_srv_answers_fit(id, query_flags, name, response_flags, rs, max_hops);
    lemma_response_parses(id, query_flags, name, TYPE_SRV, response_flags, raws, max_hops);
    assert forall|i: int| 0 <= i < raws.len() implies SrvRecords.spec_extract(
        spec_respond(
            spec_encode_query(id, query_flags, name, TYPE_SRV)->Ok_0,
            response_flags,
            raws,
        ),
        max_hops,
        #[trigger] m.records[i],
    ) == Ok::<Option<SRVShape>, DecodeError>(Some(spec_srv_read_back(rs)[i])) by {
        lemma_srv_record(id, query_flags, name, response_flags, rs, max_hops, i);
    }
    lemma_typed_round_trip(
        SrvRecords,
        id,
        query_flags,
        name,
        TYPE_SRV,
        response_flags,
        raws,
        spec_srv_read_back(rs),
        max_hops,
    );
}

/// The records of an MX lookup make an answer that can be read back, with
/// every body as long as its numbers and its name.
pub proof fn lemma_mx_answers_fit(
    id: u16,
    query_flags: u16,
    name: Seq<u8>,
    response_flags: u16,
    rs: Seq<MXShape>,
    max_hops: nat,
)
    requires
        spec_encode_query(id, query_flags, name, TYPE_MX) is Ok,
        rs.len() <= MAX_RECORDS,
        forall|i: int|
            0 <= i < rs.len() ==> (#[trigger] rs[i]).ttl >= 0 && spec_encode_name(rs[i].host)
                is Ok,
        max_hops >= 1,
    ensures
        spec_round_trip_ready(
            id,
            query_flags,
            name,
            TYPE_MX,
            response_flags,
            spec_mx_answers(rs),
            max_hops,
        ),
        forall|i: int|
            0 <= i < rs.len() ==> (#[trigger] spec_mx_answers(rs)[i]).data.len() == 2
                + spec_encode_name(rs[i].host)->Ok_0.len(),
{
    let raws = spec_mx_answers(rs);
    assert forall|i: int| 0 <= i < raws.len() implies (#[trigger] raws[i]).data.len() == 2
        + spec_encode_name(rs[i].host)->Ok_0.len() && raws[i].data.len() <= 300 && raws[i].ttl
        >= 0 by {
        assert(raws[i].ttl == rs[i].ttl);
        assert(spec_encode_name(rs[i].host)->Ok_0.len() <= 255);
    }
    lemma_short_answers_fit(id, query_flags, name, TYPE_MX, response_flags, raws, max_hops);
}

/// Each record of the answer built for an MX lookup yields the record it
/// was built from.
pub proof fn lemma_mx_record(
    id: u16,
    query_flags: u16,
    name: Seq<u8>,
    response_flags: u16,
    rs: Seq<MXShape>,
    max_hops: nat,
    i: int,
)
    requires
        spec_round_trip_ready(
            id,
            query_flags,
            name,
            TYPE_MX,
            response_flags,
            spec_mx_answers(rs),
            max_hops,
        ),
        0 <= i < rs.len(),
        spec_encode_name(rs[i].host) is Ok,
        spec_mx_answers(rs)[i].data.len() == 2 + spec_encode_name(rs[i].host)->Ok_0.len(),
    ensures
        MxRecords.spec_extract(
            spec_respond(
                spec_encode_query(id, query_flags, name, TYPE_MX)->Ok_0,
                response_flags,
                spec_mx_answers(rs),
            ),
            max_hops,
            spec_response_message(id, name, TYPE_MX, response_flags, spec_mx_answers(rs)).records[i],
        ) == Ok::<Option<MXShape>, DecodeError>(Some(spec_mx_read_back(rs)[i])),
{
    let raws = spec_mx_answers(rs);
    let data = spec_respond(
        spec_encode_query(id, query_flags, name, TYPE_MX)->Ok_0,
        response_flags,
        raws,
    );
    let m = spec_response_message(id, name, TYPE_MX, response_flags, raws);
    lemma_response_bodies(id, query_flags, name, TYPE_MX, response_flags, raws, max_hops, i);
    lemma_mx_in_place(data, m.records[i], rs[i], max_hops);
}

/// Decoding the answer built for a valid MX query gives back the records
/// that were put in, in the order given.
pub proof fn lemma_mx_round_trip(
    id: u16,
    query_flags: u16,
    name: Seq<u8>,
    response_flags: u16,
    rs: Seq<MXShape>,
    max_hops: nat,
)
    requires
        spec_encode_query(id, query_flags, name, TYPE_MX) is Ok,
        rs.len() <= MAX_RECORDS,
        forall|i: int|
            0 <= i < rs.len() ==> (#[trigger] rs[i]).ttl >= 0 && spec_encode_name(rs[i].host)
                is Ok,
        max_hops >= 1,
    ensures
        spec_decode_response(
            spec_respond(
                spec_encode_query(id, query_flags, name, TYPE_MX)->Ok_0,
                response_flags,
                spec_mx_answers(rs),
            ),
            TYPE_MX,
            max_hops,
        ) == Ok::<ParsedShape, DecodeError>(ParsedShape::MX(spec_mx_read_back(rs))),
{
    let raws = spec_mx_answers(rs);
    let m = spec_response_message(id, name, TYPE_MX, response_flags, raws);
    lemma_mx_answers_fit(id, query_flags, name, response_flags, rs, max_hops);
    lemma_response_parses(id, query_flags, name, TYPE_MX, response_flags, raws, max_hops);
    assert forall|i: int| 0 <= i < raws.len() implies MxRecords.spec_extract(
        spec_respond(
            spec_encode_query(id, query_flags, name, TYPE_MX)->Ok_0,
            response_flags,
            raws,
        ),
        max_hops,
        #[trigger] m.records[i],
    ) == Ok::<Option<MXShape>, DecodeError>(Some(spec_mx_read_back(rs)[i])) by {
        lemma_mx_record(id, query_flags, name, response_flags, rs, max_hops, i);
    }
    lemma_typed_round_trip(
        MxRecords,
        id,
        query_flags,
        name,
        TYPE_MX,
        response_flags,
        raws,
        spec_mx_read_back(rs),
        max_hops,
    );
}

/// Decoding the answer built for a valid NS or PTR query gives back the
/// records that were put in, in the order given.
pub proof fn lemma_names_round_trip(
    id: u16,
    query_flags: u16,
    name: Seq<u8>,
    rtype: u16,
    response_flags: u16,
    rs: Seq<NameShape>,
    max_hops: nat,
)
    requires
        rtype == TYPE_NS || rtype == TYPE_PTR,
        spec_encode_query(id, query_flags, name, rtype) is Ok,
        rs.len() <= MAX_RECORDS,
        forall|i: int|
            0 <= i < rs.len() ==> (#[trigger] rs[i]).ttl >= 0 && spec_encode_name(rs[i].name)
                is Ok,
        max_hops >= 1,
    ensures
        spec_decode_response(
            spec_respond(
                spec_encode_query(id, query_flags, name, rtype)->Ok_0,
                response_flags,
                spec_name_answers(rtype, rs),
            ),
            rtype,
            max_hops,
        ) == Ok::<ParsedShape, DecodeError>(
            if rtype == TYPE_NS {
                ParsedShape::NS(spec_names_read_back(rs))
            } else {
                ParsedShape::PTR(spec_names_read_back(rs))
            },
        ),
{
    let raws = spec_name_answers(rtype, rs);
    let data = spec_respond(
        spec_encode_query(id, query_flags, name, rtype)->Ok_0,
        response_flags,
        raws,
    );
    let m = spec_response_message(id, name, rtype, response_flags, raws);
    let how = NameRecords { rtype };
    assert forall|i: int| 0 <= i < raws.len() implies (#[trigger] raws[i]).data.len() <= 300
        && raws[i].ttl >= 0 by {
        assert(raws[i].ttl == rs[i].ttl);
        assert(spec_encode_name(rs[i].name)->Ok_0.len() <= 255);
    }
    lemma_short_answers_fit(id, query_flags, name, rtype, response_flags, raws, max_hops);
    lemma_response_parses(id, query_flags, name, rtype, response_flags, raws, max_hops);
    assert forall|i: int| 0 <= i < raws.len() implies how.spec_extract(
        data,
        max_hops,
        #[trigger] m.records[i],
    ) == Ok::<Option<NameShape>, DecodeError>(Some(spec_names_read_back(rs)[i])) by {
        lemma_response_bodies(id, query_flags, name, rtype, response_flags, raws, max_hops, i);
        lemma_name_in_place(data, m.records[i], rs[i], max_hops);
    }
    lemma_typed_round_trip(
        how,
        id,
        query_flags,
        name,
        rtype,
        response_flags,
        raws,
        spec_names_read_back(rs),
        max_hops,
    );
}

/// One record of each of the answer built from `raws` yields the item of
/// `shapes` in its place: then decoding for the type `rtype`, which wraps
/// what the records yield by `wrap`, gives back `shapes`.
pub proof fn lemma_decode_typed<E: Extract>(
    how: E,
    id: u16,
    query_flags: u16,
    name: Seq<u8>,
    rtype: u16,
    response_flags: u16,
    raws: Seq<RawShape>,
    shapes: Seq<E::Shape>,
    max_hops: nat,
)
    requires
        spec_round_trip_ready(id, query_flags, name, rtype, response_flags, raws, max_hops),
        shapes.len() == raws.len(),
        forall|i: int|
            0 <= i < raws.len() ==> how.spec_extract(
                spec_respond(
                    spec_encode_query(id, query_flags, name, rtype)->Ok_0,
                    response_flags,
                    raws,
                ),
                max_hops,
                #[trigger] spec_response_message(id, name, rtype, response_flags, raws).records[i],
            ) == Ok::<Option<E::Shape>, DecodeError>(Some(shapes[i])),
    ensures
        spec_parse_message(
            spec_respond(
                spec_encode_query(id, query_flags, name, rtype)->Ok_0,
                response_flags,
                raws,
            ),
            max_hops,
        ) == Ok::<MessageView, DecodeError>(
            spec_response_message(id, name, rtype, response_flags, raws),
        ),
        spec_answers(
            how,
            spec_respond(
                spec_encode_query(id, query_flags, name, rtype)->Ok_0,
                response_flags,
                raws,
            ),
            max_hops,
            spec_response_message(id, name, rtype, response_flags, raws).answers(),
        ) == Ok::<Seq<E::Shape>, DecodeError>(shapes),
{
    lemma_response_parses(id, query_flags, name, rtype, response_flags, raws, max_hops);
    lemma_typed_round_trip(
        how,
        id,
        query_flags,
        name,
        rtype,
        response_flags,
        raws,
        shapes,
        max_hops,
    );
}

/// The byte of flags of a CAA record.
pub open spec fn spec_caa_flags(critical: bool) -> u8 {
    if critical {
        128
    } else {
        0
    }
}

/// The records of a CAA lookup as an answer carries them.
pub open spec fn spec_caa_answers(rs: Seq<CAAShape>) -> Seq<RawShape> {
    Seq::new(
        rs.len(),
        |i: int|
            RawShape {
                rtype: TYPE_CAA,
                class: CLASS_IN,
                ttl: rs[i].ttl,
                data: seq![spec_caa_flags(rs[i].critical), rs[i].tag.len() as u8] + rs[i].tag
                    + rs[i].value,
            },
    )
}

/// A CAA record found in an answer yields the record it was built from.
pub proof fn lemma_caa_in_place(data: Seq<u8>, rec: Record, r: CAAShape, max_hops: nat)
    requires
        1 <= r.tag.len() <= 255,
        rec.rtype == TYPE_CAA,
        rec.class == CLASS_IN,
        rec.ttl == r.ttl,
        rec.rdata_pos + rec.rdata_len <= data.len(),
        rec.rdata_len == 2 + r.tag.len() + r.value.len(),
        data.subrange(rec.rdata_pos as int, rec.rdata_pos + rec.rdata_len) == seq![
            spec_caa_flags(r.critical),
            r.tag.len() as u8,
        ] + r.tag + r.value,
    ensures
        CaaRecords.spec_extract(data, max_hops, rec) == Ok::<Option<CAAShape>, DecodeError>(
            Some(r),
        ),
{
    let pos = rec.rdata_pos as int;
    let body = seq![spec_caa_flags(r.critical), r.tag.len() as u8] + r.tag + r.value;
    assert forall|j: int| 0 <= j < body.len() implies data[pos + j] == body[j] by {
        assert(data.subrange(pos, pos + rec.rdata_len)[j] == data[pos + j]);
    }
    assert(data[pos + 0] == body[0] && data[pos + 1] == body[1]);
    let tag_end = pos + 2 + r.tag.len();
    assert(data.subrange(pos + 2, tag_end) =~= r.tag) by {
        assert forall|j: int| 0 <= j < r.tag.len() implies data[pos + 2 + j] == r.tag[j] by {
            assert(data[pos + (2 + j)] == body[2 + j]);
        }
    }
    assert(data.subrange(tag_end, pos + rec.rdata_len) =~= r.value) by {
        assert forall|j: int| 0 <= j < r.value.len() implies data[tag_end + j] == r.value[j] by {
            assert(data[pos + (2 + r.tag.len() + j)] == body[2 + r.tag.len() + j]);
        }
    }
}

/// Each record of the answer built for a CAA lookup yields the record it
/// was built from.
pub proof fn lemma_caa_record(
    id: u16,
    query_flags: u16,
    name: Seq<u8>,
    response_flags: u16,
    rs: Seq<CAAShape>,
    max_hops: nat,
    i: int,
)
    requires
        spec_round_trip_ready(
            id,
            query_flags,
            name,
            TYPE_CAA,
            response_flags,
            spec_caa_answers(rs),
            max_hops,
        ),
        0 <= i < rs.len(),
        1 <= rs[i].tag.len() <= 255,
    ensures
        CaaRecords.spec_extract(
            spec_respond(
                spec_encode_query(id, query_flags, name, TYPE_CAA)->Ok_0,
                response_flags,
                spec_caa_answers(rs),
            ),
            max_hops,
            spec_response_message(
                id,
                name,
                TYPE_CAA,
                response_flags,
                spec_caa_answers(rs),
            ).records[i],
        ) == Ok::<Option<CAAShape>, DecodeError>(Some(rs[i])),
{
    let raws = spec_caa_answers(rs);
    let data = spec_respond(
        spec_encode_query(id, query_flags, name, TYPE_CAA)->Ok_0,
        response_flags,
        raws,
    );
    let m = spec_response_message(id, name, TYPE_CAA, response_flags, raws);
    lemma_response_bodies(id, query_flags, name, TYPE_CAA, response_flags, raws, max_hops, i);
    assert(raws[i].data.len() == 2 + rs[i].tag.len() + rs[i].value.len());
    lemma_caa_in_place(data, m.records[i], rs[i], max_hops);
}

/// Decoding the answer built for a valid CAA query gives back the records
/// that were put in, in the order given.
pub proof fn lemma_caa_round_trip(
    id: u16,
    query_flags: u16,
    name: Seq<u8>,
    response_flags: u16,
    rs: Seq<CAAShape>,
    max_hops: nat,
)
    requires
        spec_round_trip_ready(
            id,
            query_flags,
            name,
            TYPE_CAA,
            response_flags,
            spec_caa_answers(rs),
            max_hops,
        ),
        forall|i: int| 0 <= i < rs.len() ==> 1 <= (#[trigger] rs[i]).tag.len() <= 255,
    ensures
        spec_decode_response(
            spec_respond(
                spec_encode_query(id, query_flags, name, TYPE_CAA)->Ok_0,
                response_flags,
                spec_caa_answers(rs),
            ),
            TYPE_CAA,
            max_hops,
        ) == Ok::<ParsedShape, DecodeError>(ParsedShape::CAA(rs)),
{
    let raws = spec_caa_answers(rs);
    let m = spec_response_message(id, name, TYPE_CAA, response_flags, raws);
    assert forall|i: int| 0 <= i < raws.len() implies CaaRecords.spec_extract(
        spec_respond(
            spec_encode_query(id, query_flags, name, TYPE_CAA)->Ok_0,
            response_flags,
            raws,
        ),
        max_hops,
        #[trigger] m.records[i],
    ) == Ok::<Option<CAAShape>, DecodeError>(Some(rs[i])) by {
        lemma_caa_record(id, query_flags, name, response_flags, rs, max_hops, i);
    }
    lemma_decode_typed(
        CaaRecords,
        id,
        query_flags,
        name,
        TYPE_CAA,
        response_flags,
        raws,
        rs,
        max_hops,
    );
}

/// The character strings `strings` each behind its length byte.
pub open spec fn spec_strings_bytes(strings: Seq<Seq<u8>>) -> Seq<u8>
    decreases strings.len(),
{
    if strings.len() == 0 {
        Seq::empty()
    } else {
        seq![strings[0].len() as u8] + strings[0] + spec_strings_bytes(
            strings.subrange(1, strings.len() as int),
        )
    }
}

/// Character strings found in a buffer read back as they were written,
/// behind what was read before them.
pub proof fn lemma_strings_in_place(
    data: Seq<u8>,
    pos: int,
    strings: Seq<Seq<u8>>,
    found: Seq<Seq<u8>>,
)
    requires
        0 <= pos,
        pos + spec_strings_bytes(strings).len() <= data.len(),
        data.subrange(pos, pos + spec_strings_bytes(strings).len()) == spec_strings_bytes(
            strings,
        ),
        forall|j: int| 0 <= j < strings.len() ==> (#[trigger] strings[j]).len() <= 255,
    ensures
        spec_char_strings(data, pos, pos + spec_strings_bytes(strings).len(), found) == Some(
            found + strings,
        ),
    decreases strings.len(),
{
    let body = spec_strings_bytes(strings);
    let end = pos + body.len();
    if strings.len() == 0 {
        assert(found + strings =~= found);
    } else {
        let first = strings[0];
        let rest = strings.subrange(1, strings.len() as int);
        let tail = spec_strings_bytes(rest);
        assert(body == seq![first.len() as u8] + first + tail);
        assert forall|j: int| 0 <= j < body.len() implies data[pos + j] == body[j] by {
            assert(data.subrange(pos, end)[j] == data[pos + j]);
        }
        assert(data[pos + 0] == body[0]);
        assert(data[pos] as int == first.len());
        let next = pos + 1 + first.len();
        assert(data.subrange(pos + 1, next) =~= first) by {
            assert forall|j: int| 0 <= j < first.len() implies data[pos + 1 + j] == first[j] by {
                assert(data[pos + (1 + j)] == body[1 + j]);
            }
        }
        assert(data.subrange(next, next + tail.len()) =~= tail) by {
            assert forall|j: int| 0 <= j < tail.len() implies data[next + j] == tail[j] by {
                assert(data[pos + (1 + first.len() + j)] == body[1 + first.len() + j]);
            }
        }
        assert forall|j: int| 0 <= j < rest.len() implies (#[trigger] rest[j]).len() <= 255 by {
            assert(rest[j] == strings[j + 1]);
        }
        lemma_strings_in_place(data, next, rest, found.push(first));
        assert(found.push(first) + rest =~= found + strings);
    }
}

/// The records of a TXT lookup as an answer carries them.
pub open spec fn spec_txt_answers(rs: Seq<TXTShape>) -> Seq<RawShape> {
    Seq::new(
        rs.len(),
        |i: int|
            RawShape {
                rtype: TYPE_TXT,
                class: CLASS_IN,
                ttl: rs[i].ttl,
                data: spec_strings_bytes(rs[i].strings),
            },
    )
}

/// Decoding the answer built for a valid TXT query gives back the records
/// that were put in, in the order given.
pub proof fn lemma_txt_round_trip(
    id: u16,
    query_flags: u16,
    name: Seq<u8>,
    response_flags: u16,
    rs: Seq<TXTShape>,
    max_hops: nat,
)
    requires
        spec_round_trip_ready(
            id,
            query_flags,
            name,
            TYPE_TXT,
            response_flags,
            spec_txt_answers(rs),
            max_hops,
        ),
        forall|i: int, j: int|
            0 <= i < rs.len() && 0 <= j < rs[i].strings.len() ==> (
            #[trigger] rs[i].strings[j]).len() <= 255,
    ensures
        spec_decode_response(
            spec_respond(
                spec_encode_query(id, query_flags, name, TYPE_TXT)->Ok_0,
                response_flags,
                spec_txt_answers(rs),
            ),
            TYPE_TXT,
            max_hops,
        ) == Ok::<ParsedShape, DecodeError>(ParsedShape::TXT(rs)),
{
    let raws = spec_txt_answers(rs);
    let data = spec_respond(
        spec_encode_query(id, query_flags, name, TYPE_TXT)->Ok_0,
        response_flags,
        raws,
    );
    let m = spec_response_message(id, name, TYPE_TXT, response_flags, raws);
    assert forall|i: int| 0 <= i < raws.len() implies TxtRecords.spec_extract(
        data,
        max_hops,
        #[trigger] m.records[i],
    ) == Ok::<Option<TXTShape>, DecodeError>(Some(rs[i])) by {
        lemma_response_bodies(id, query_flags, name, TYPE_TXT, response_flags, raws, max_hops, i);
        assert forall|j: int| 0 <= j < rs[i].strings.len() implies (
        #[trigger] rs[i].strings[j]).len() <= 255 by {}
        lemma_strings_in_place(
            data,
            m.records[i].rdata_pos as int,
            rs[i].strings,
            Seq::empty(),
        );
        assert(Seq::<Seq<u8>>::empty() + rs[i].strings =~= rs[i].strings);
    }
    lemma_decode_typed(
        TxtRecords,
        id,
        query_flags,
        name,
        TYPE_TXT,
        response_flags,
        raws,
        rs,
        max_hops,
    );
}

/// A part of a body found in a buffer lies where the body puts it.
pub proof fn lemma_part_in_place(data: Seq<u8>, pos: int, body: Seq<u8>, at: int, part: Seq<u8>)
    requires
        0 <= pos,
        pos + body.len() <= data.len(),
        data.subrange(pos, pos + body.len()) == body,
        0 <= at,
        at + part.len() <= body.len(),
        body.subrange(at, at + part.len()) == part,
    ensures
        data.subrange(pos + at, pos + at + part.len()) == part,
        forall|j: int| 0 <= j < part.len() ==> #[trigger] data[pos + at + j] == part[j],
{
    assert forall|j: int| 0 <= j < part.len() implies #[trigger] data[pos + at + j]
        == part[j] by {
        assert(data.subrange(pos, pos + body.len())[at + j] == data[pos + (at + j)]);
        assert(body.subrange(at, at + part.len())[j] == body[at + j]);
    }
    assert(data.subrange(pos + at, pos + at + part.len()) =~= part);
}

/// Four bytes found in a buffer spell the number they were written for.
pub proof fn lemma_u32_in_place(data: Seq<u8>, at: int, v: int)
    requires
        0 <= at,
        at + 4 <= data.len(),
        0 <= v < 4294967296,
        data.subrange(at, at + 4) == spec_u32_bytes(v),
    ensures
        spec_u32_at(data, at) == v,
{
    let b = spec_u32_bytes(v);
    lemma_u32_round_trip(v);
    assert forall|j: int| 0 <= j < 4 implies data[at + j] == b[j] by {
        assert(data.subrange(at, at + 4)[j] == data[at + j]);
    }
    assert(data[at + 0] == b[0] && data[at + 1] == b[1] && data[at + 2] == b[2] && data[at + 3]
        == b[3]);
}

/// Two bytes found in a buffer spell the number they were written for.
pub proof fn lemma_u16_in_place(data: Seq<u8>, at: int, v: int)
    requires
        0 <= at,
        at + 2 <= data.len(),
        0 <= v < 65536,
        data.subrange(at, at + 2) == spec_u16_bytes(v),
    ensures
        spec_u16_at(data, at) == v,
{
    let b = spec_u16_bytes(v);
    lemma_u16_round_trip(v);
    assert forall|j: int| 0 <= j < 2 implies data[at + j] == b[j] by {
        assert(data.subrange(at, at + 2)[j] == data[at + j]);
    }
    assert(data[at + 0] == b[0] && data[at + 1] == b[1]);
}

/// The five numbers that close the body of an SOA record.
pub open spec fn spec_soa_numbers(r: SOAShape) -> Seq<u8> {
    spec_u32_bytes(r.serial as int) + spec_u32_bytes(r.refresh as int) + spec_u32_bytes(
        r.retry as int,
    ) + spec_u32_bytes(r.expire as int) + spec_u32_bytes(r.min_ttl as int)
}

/// The body of an SOA record: the two names in wire form, then the five
/// numbers.
pub open spec fn spec_soa_body(r: SOAShape) -> Seq<u8> {
    spec_encode_name(r.name_server)->Ok_0 + spec_encode_name(r.hostmaster)->Ok_0
        + spec_soa_numbers(r)
}

/// The records of an SOA lookup as an answer carries them.
pub open spec fn spec_soa_answers(rs: Seq<SOAShape>) -> Seq<RawShape> {
    Seq::new(
        rs.len(),
        |i: int|
            RawShape { rtype: TYPE_SOA, class: CLASS_IN, ttl: rs[i].ttl, data: spec_soa_body(rs[i]) },
    )
}

/// The record `r` with its names without the dot that may close them.
pub open spec fn spec_soa_read_back(r: SOAShape) -> SOAShape {
    SOAShape {
        name_server: spec_strip_dot(r.name_server),
        hostmaster: spec_strip_dot(r.hostmaster),
        ..r
    }
}

/// The five numbers of an SOA record found in a buffer read back.
pub proof fn lemma_soa_numbers_in_place(data: Seq<u8>, q: int, r: SOAShape)
    requires
        0 <= q,
        q + 20 <= data.len(),
        data.subrange(q, q + 20) == spec_soa_numbers(r),
    ensures
        spec_u32_at(data, q) == r.serial,
        spec_u32_at(data, q + 4) == r.refresh,
        spec_u32_at(data, q + 8) == r.retry,
        spec_u32_at(data, q + 12) == r.expire,
        spec_u32_at(data, q + 16) == r.min_ttl,
{
    let body = spec_soa_numbers(r);
    assert(body.subrange(0, 4) =~= spec_u32_bytes(r.serial as int));
    assert(body.subrange(4, 8) =~= spec_u32_bytes(r.refresh as int));
    assert(body.subrange(8, 12) =~= spec_u32_bytes(r.retry as int));
    assert(body.subrange(12, 16) =~= spec_u32_bytes(r.expire as int));
    assert(body.subrange(16, 20) =~= spec_u32_bytes(r.min_ttl as int));
    lemma_part_in_place(data, q, body, 0, spec_u32_bytes(r.serial as int));
    lemma_part_in_place(data, q, body, 4, spec_u32_bytes(r.refresh as int));
    lemma_part_in_place(data, q, body, 8, spec_u32_bytes(r.retry as int));
    lemma_part_in_place(data, q, body, 12, spec_u32_bytes(r.expire as int));
    lemma_part_in_place(data, q, body, 16, spec_u32_bytes(r.min_ttl as int));
    lemma_u32_in_place(data, q, r.serial as int);
    lemma_u32_in_place(data, q + 4, r.refresh as int);
    lemma_u32_in_place(data, q + 8, r.retry as int);
    lemma_u32_in_place(data, q + 12, r.expire as int);
    lemma_u32_in_place(data, q + 16, r.min_ttl as int);
}

/// An SOA record found in an answer yields the record it was built from.
pub proof fn lemma_soa_in_place(data: Seq<u8>, rec: Record, r: SOAShape, max_hops: nat)
    requires
        spec_encode_name(r.name_server) is Ok,
        spec_encode_name(r.hostmaster) is Ok,
        rec.rtype == TYPE_SOA,
        rec.class == CLASS_IN,
        rec.ttl == r.ttl,
        rec.rdata_pos + rec.rdata_len <= data.len(),
        rec.rdata_len == spec_soa_body(r).len(),
        data.subrange(rec.rdata_pos as int, rec.rdata_pos + rec.rdata_len) == spec_soa_body(r),
    ensures
        SoaRecords.spec_extract(data, max_hops, rec) == Ok::<Option<SOAShape>, DecodeError>(
            Some(spec_soa_read_back(r)),
        ),
{
    let first = spec_encode_name(r.name_server)->Ok_0;
    let second = spec_encode_name(r.hostmaster)->Ok_0;
    let numbers = spec_soa_numbers(r);
    let body = spec_soa_body(r);
    let pos = rec.rdata_pos as int;
    let a = first.len() as int;
    let b = a + second.len();
    let p = pos + a;
    let q = pos + b;
    assert(numbers.len() == 20);
    assert(body.subrange(0, a) =~= first);
    assert(body.subrange(a, b) =~= second);
    assert(body.subrange(b, b + 20) =~= numbers);
    lemma_part_in_place(data, pos, body, 0, first);
    lemma_part_in_place(data, pos, body, a, second);
    lemma_part_in_place(data, pos, body, b, numbers);
    assert forall|j: int| 0 <= j < first.len() implies #[trigger] data[pos + j] == first[j] by {
        assert(data[pos + 0 + j] == first[j]);
    }
    lemma_decode_encoded(data, pos, max_hops, r.name_server);
    assert forall|j: int| 0 <= j < second.len() implies #[trigger] data[p + j] == second[j] by {
        assert(data[pos + a + j] == second[j]);
    }
    lemma_decode_encoded(data, p, max_hops, r.hostmaster);
    lemma_soa_numbers_in_place(data, q, r);
}

/// Each record of the answer built for an SOA lookup yields the record it
/// was built from.
pub proof fn lemma_soa_record(
    id: u16,
    query_flags: u16,
    name: Seq<u8>,
    response_flags: u16,
    rs: Seq<SOAShape>,
    max_hops: nat,
    i: int,
)
    requires
        spec_round_trip_ready(
            id,
            query_flags,
            name,
            TYPE_SOA,
            response_flags,
            spec_soa_answers(rs),
            max_hops,
        ),
        0 <= i < rs.len(),
        spec_encode_name(rs[i].name_server) is Ok,
        spec_encode_name(rs[i].hostmaster) is Ok,
    ensures
        SoaRecords.spec_extract(
            spec_respond(
                spec_encode_query(id, query_flags, name, TYPE_SOA)->Ok_0,
                response_flags,
                spec_soa_answers(rs),
            ),
            max_hops,
            spec_response_message(
                id,
                name,
                TYPE_SOA,
                response_flags,
                spec_soa_answers(rs),
            ).records[i],
        ) == Ok::<Option<SOAShape>, DecodeError>(Some(spec_soa_read_back(rs[i]))),
{
    let raws = spec_soa_answers(rs);
    let data = spec_respond(
        spec_encode_query(id, query_flags, name, TYPE_SOA)->Ok_0,
        response_flags,
        raws,
    );
    let m = spec_response_message(id, name, TYPE_SOA, response_flags, raws);
    lemma_response_bodies(id, query_flags, name, TYPE_SOA, response_flags, raws, max_hops, i);
    lemma_soa_in_place(data, m.records[i], rs[i], max_hops);
}

/// Decoding the answer built for a valid SOA query gives back the records
/// that were put in, in the order given.
pub proof fn lemma_soa_round_trip(
    id: u16,
    query_flags: u16,
    name: Seq<u8>,
    response_flags: u16,
    rs: Seq<SOAShape>,
    max_hops: nat,
)
    requires
        spec_round_trip_ready(
            id,
            query_flags,
            name,
            TYPE_SOA,
            response_flags,
            spec_soa_answers(rs),
            max_hops,
        ),
        forall|i: int|
            0 <= i < rs.len() ==> spec_encode_name((#[trigger] rs[i]).name_server) is Ok
                && spec_encode_name(rs[i].hostmaster) is Ok,
    ensures
        spec_decode_response(
            spec_respond(
                spec_encode_query(id, query_flags, name, TYPE_SOA)->Ok_0,
                response_flags,
                spec_soa_answers(rs),
            ),
            TYPE_SOA,
            max_hops,
        ) == Ok::<ParsedShape, DecodeError>(
            ParsedShape::SOA(Seq::new(rs.len(), |i: int| spec_soa_read_back(rs[i]))),
        ),
{
    let raws = spec_soa_answers(rs);
    let m = spec_response_message(id, name, TYPE_SOA, response_flags, raws);
    let shapes = Seq::new(rs.len(), |i: int| spec_soa_read_back(rs[i]));
    assert forall|i: int| 0 <= i < raws.len() implies SoaRecords.spec_extract(
        spec_respond(
            spec_encode_query(id, query_flags, name, TYPE_SOA)->Ok_0,
            response_flags,
            raws,
        ),
        max_hops,
        #[trigger] m.records[i],
    ) == Ok::<Option<SOAShape>, DecodeError>(Some(shapes[i])) by {
        lemma_soa_record(id, query_flags, name, response_flags, rs, max_hops, i);
    }
    lemma_decode_typed(
        SoaRecords,
        id,
        query_flags,
        name,
        TYPE_SOA,
        response_flags,
        raws,
        shapes,
        max_hops,
    );
}

/// A character string behind its length byte.
pub open spec fn spec_string_bytes(text: Seq<u8>) -> Seq<u8> {
    seq![text.len() as u8] + text
}

/// A character string found in a buffer reads back as it was written.
pub proof fn lemma_string_in_place(data: Seq<u8>, at: int, end: int, text: Seq<u8>)
    requires
        0 <= at,
        at + 1 + text.len() <= end <= data.len(),
        text.len() <= 255,
        data.subrange(at, at + 1 + text.len()) == spec_string_bytes(text),
    ensures
        spec_char_string(data, at, end) == Some((text, at + 1 + text.len())),
{
    let b = spec_string_bytes(text);
    assert forall|j: int| 0 <= j < b.len() implies data[at + j] == b[j] by {
        assert(data.subrange(at, at + 1 + text.len())[j] == data[at + j]);
    }
    assert(data[at + 0] == b[0]);
    assert(data.subrange(at + 1, at + 1 + text.len()) =~= text) by {
        assert forall|j: int| 0 <= j < text.len() implies data[at + 1 + j] == text[j] by {
            assert(data[at + (1 + j)] == b[1 + j]);
        }
    }
}

/// The body of a NAPTR record: order and preference, the three character
/// strings, and the replacement in wire form.
pub open spec fn spec_naptr_body(r: NAPTRShape) -> Seq<u8> {
    spec_u16_bytes(r.order as int) + spec_u16_bytes(r.preference as int) + spec_string_bytes(
        r.flags,
    ) + spec_string_bytes(r.service) + spec_string_bytes(r.regexp) + spec_encode_name(
        r.replacement,
    )->Ok_0
}

/// The records of a NAPTR lookup as an answer carries them.
pub open spec fn spec_naptr_answers(rs: Seq<NAPTRShape>) -> Seq<RawShape> {
    Seq::new(
        rs.len(),
        |i: int|
            RawShape {
                rtype: TYPE_NAPTR,
                class: CLASS_IN,
                ttl: rs[i].ttl,
                data: spec_naptr_body(rs[i]),
            },
    )
}

/// True for a NAPTR record that can be written: character strings of at most
/// 255 bytes and a replacement that is a valid name.
pub open spec fn spec_naptr_writable(r: NAPTRShape) -> bool {
    r.flags.len() <= 255 && r.service.len() <= 255 && r.regexp.len() <= 255 && spec_encode_name(
        r.replacement,
    ) is Ok
}

/// The record `r` with its replacement without the dot that may close it.
pub open spec fn spec_naptr_read_back(r: NAPTRShape) -> NAPTRShape {
    NAPTRShape { replacement: spec_strip_dot(r.replacement), ..r }
}

/// A NAPTR record found in an answer yields the record it was built from.
pub proof fn lemma_naptr_in_place(data: Seq<u8>, rec: Record, r: NAPTRShape, max_hops: nat)
    requires
        spec_naptr_writable(r),
        rec.rtype == TYPE_NAPTR,
        rec.class == CLASS_IN,
        rec.ttl == r.ttl,
        rec.rdata_pos + rec.rdata_len <= data.len(),
        rec.rdata_len == spec_naptr_body(r).len(),
        data.subrange(rec.rdata_pos as int, rec.rdata_pos + rec.rdata_len) == spec_naptr_body(r),
    ensures
        NaptrRecords.spec_extract(data, max_hops, rec) == Ok::<Option<NAPTRShape>, DecodeError>(
            Some(spec_naptr_read_back(r)),
        ),
{
    let body = spec_naptr_body(r);
    let wire = spec_encode_name(r.replacement)->Ok_0;
    let pos = rec.rdata_pos as int;
    let end = pos + rec.rdata_len;
    let a: int = 5 + r.flags.len() as int;
    let b: int = a + 1 + r.service.len() as int;
    let c: int = b + 1 + r.regexp.len() as int;
    assert(body.len() == c + wire.len());
    assert(body.subrange(0, 2) =~= spec_u16_bytes(r.order as int));
    assert(body.subrange(2, 4) =~= spec_u16_bytes(r.preference as int));
    assert(body.subrange(4, a) =~= spec_string_bytes(r.flags));
    assert(body.subrange(a, b) =~= spec_string_bytes(r.service));
    assert(body.subrange(b, c) =~= spec_string_bytes(r.regexp));
    assert(body.subrange(c, c + wire.len()) =~= wire);
    lemma_part_in_place(data, pos, body, 0, spec_u16_bytes(r.order as int));
    lemma_part_in_place(data, pos, body, 2, spec_u16_bytes(r.preference as int));
    lemma_part_in_place(data, pos, body, 4, spec_string_bytes(r.flags));
    lemma_part_in_place(data, pos, body, a, spec_string_bytes(r.service));
    lemma_part_in_place(data, pos, body, b, spec_string_bytes(r.regexp));
    lemma_part_in_place(data, pos, body, c, wire);
    lemma_u16_in_place(data, pos, r.order as int);
    lemma_u16_in_place(data, pos + 2, r.preference as int);
    lemma_string_in_place(data, pos + 4, end, r.flags);
    lemma_string_in_place(data, pos + a, end, r.service);
    lemma_string_in_place(data, pos + b, end, r.regexp);
    assert forall|j: int| 0 <= j < wire.len() implies #[trigger] data[pos + c + j]
        == wire[j] by {}
    lemma_decode_encoded(data, pos + c, max_hops, r.replacement);
}

/// Each record of the answer built for a NAPTR lookup yields the record it
/// was built from.
pub proof fn lemma_naptr_record(
    id: u16,
    query_flags: u16,
    name: Seq<u8>,
    response_flags: u16,
    rs: Seq<NAPTRShape>,
    max_hops: nat,
    i: int,
)
    requires
        spec_round_trip_ready(
            id,
            query_flags,
            name,
            TYPE_NAPTR,
            response_flags,
            spec_naptr_answers(rs),
            max_hops,
        ),
        0 <= i < rs.len(),
        spec_naptr_writable(rs[i]),
    ensures
        NaptrRecords.spec_extract(
            spec_respond(
                spec_encode_query(id, query_flags, name, TYPE_NAPTR)->Ok_0,
                response_flags,
                spec_naptr_answers(rs),
            ),
            max_hops,
            spec_response_message(
                id,
                name,
                TYPE_NAPTR,
                response_flags,
                spec_naptr_answers(rs),
            ).records[i],
        ) == Ok::<Option<NAPTRShape>, DecodeError>(Some(spec_naptr_read_back(rs[i]))),
{
    let raws = spec_naptr_answers(rs);
    let data = spec_respond(
        spec_encode_query(id, query_flags, name, TYPE_NAPTR)->Ok_0,
        response_flags,
        raws,
    );
    let m = spec_response_message(id, name, TYPE_NAPTR, response_flags, raws);
    lemma_response_bodies(id, query_flags, name, TYPE_NAPTR, response_flags, raws, max_hops, i);
    lemma_naptr_in_place(data, m.records[i], rs[i], max_hops);
}

/// Decoding the answer built for a valid NAPTR query gives back the records
/// that were put in, in the order given.
pub proof fn lemma_naptr_round_trip(
    id: u16,
    query_flags: u16,
    name: Seq<u8>,
    response_flags: u16,
    rs: Seq<NAPTRShape>,
    max_hops: nat,
)
    requires
        spec_round_trip_ready(
            id,
            query_flags,
            name,
            TYPE_NAPTR,
            response_flags,
            spec_naptr_answers(rs),
            max_hops,
        ),
        forall|i: int| 0 <= i < rs.len() ==> spec_naptr_writable(#[trigger] rs[i]),
    ensures
        spec_decode_response(
            spec_respond(
                spec_encode_query(id, query_flags, name, TYPE_NAPTR)->Ok_0,
                response_flags,
                spec_naptr_answers(rs),
            ),
            TYPE_NAPTR,
            max_hops,
        ) == Ok::<ParsedShape, DecodeError>(
            ParsedShape::NAPTR(Seq::new(rs.len(), |i: int| spec_naptr_read_back(rs[i]))),
        ),
{
    let raws = spec_naptr_answers(rs);
    let m = spec_response_message(id, name, TYPE_NAPTR, response_flags, raws);
    let shapes = Seq::new(rs.len(), |i: int| spec_naptr_read_back(rs[i]));
    assert forall|i: int| 0 <= i < raws.len() implies NaptrRecords.spec_extract(
        spec_respond(
            spec_encode_query(id, query_flags, name, TYPE_NAPTR)->Ok_0,
            response_flags,
            raws,
        ),
        max_hops,
        #[trigger] m.records[i],
    ) == Ok::<Option<NAPTRShape>, DecodeError>(Some(shapes[i])) by {
        lemma_naptr_record(id, query_flags, name, response_flags, rs, max_hops, i);
    }
    lemma_decode_typed(
        NaptrRecords,
        id,
        query_flags,
        name,
        TYPE_NAPTR,
        response_flags,
        raws,
        shapes,
        max_hops,
    );
}

} // verus!
