//! Queries on their way out.

use vstd::prelude::*;
use crate::bytes::{push_u16, spec_u16_bytes};
use crate::error::ConfigError;
use crate::message::{spec_header_bytes, Header, CLASS_IN, HEADER_LEN};
use crate::name::{encode_name, spec_encode_name};

verus! {

/// The flag bit that asks the server to recurse.
pub const FLAG_RD: u16 = 256;

/// `flags` with the recursion-desired bit set.
pub open spec fn spec_with_rd(flags: u16) -> u16 {
    if (flags as int / FLAG_RD as int) % 2 == 1 {
        flags
    } else {
        (flags + FLAG_RD) as u16
    }
}

/// The header of a query with one question.
pub open spec fn spec_query_header(id: u16, flags: u16) -> Header {
    Header { id, flags: spec_with_rd(flags), qdcount: 1, ancount: 0, nscount: 0, arcount: 0 }
}

/// The bytes of a query for the records of type `rtype` at `name`: a header
/// with the given id, recursion desired and one question of class IN.
pub open spec fn spec_encode_query(id: u16, flags: u16, name: Seq<u8>, rtype: u16) -> Result<
    Seq<u8>,
    ConfigError,
> {
    match spec_encode_name(name) {
        Err(e) => Err(e),
        Ok(wire) => Ok(
            spec_header_bytes(spec_query_header(id, flags)) + wire + spec_u16_bytes(rtype as int)
                + spec_u16_bytes(CLASS_IN as int),
        ),
    }
}

/// A query is its header, the wire form of the name and four bytes more, and
/// so never longer than 271 bytes.
pub proof fn lemma_query_len(id: u16, flags: u16, name: Seq<u8>, rtype: u16)
    requires
        spec_encode_name(name) is Ok,
    ensures
        spec_encode_query(id, flags, name, rtype) is Ok,
        spec_encode_query(id, flags, name, rtype)->Ok_0.len() == HEADER_LEN + spec_encode_name(
            name,
        )->Ok_0.len() + 4,
        spec_encode_name(name)->Ok_0.len() <= 255,
{
}

/// Builds the query for the records of type `rtype` at the dotted name
/// `name`, under the transaction id `id`. `flags` are the header flags the
/// caller wants besides recursion-desired, which is always set.
pub fn encode_query(name: &[u8], rtype: u16, flags: u16, id: u16) -> (r: Result<
    Vec<u8>,
    ConfigError,
>)
    ensures
        match r {
            Ok(bytes) => spec_encode_query(id, flags, name@, rtype) == Ok::<Seq<u8>, ConfigError>(
                bytes@,
            ),
            Err(e) => spec_encode_query(id, flags, name@, rtype) == Err::<Seq<u8>, ConfigError>(
                e,
            ),
        },
{
    let wire = match encode_name(name) {
        Err(e) => {
            return Err(e);
        },
        Ok(wire) => wire,
    };
    let with_rd: u16 = if (flags / FLAG_RD) % 2 == 1 {
        flags
    } else {
        flags + FLAG_RD
    };
    let header = Header { id, flags: with_rd, qdcount: 1, ancount: 0, nscount: 0, arcount: 0 };
    let mut out: Vec<u8> = Vec::new();
    header.write(&mut out);
    let mut wire = wire;
    let ghost wire_bytes = wire@;
    out.append(&mut wire);
    push_u16(&mut out, rtype);
    push_u16(&mut out, CLASS_IN);
    assert(out@ =~= spec_header_bytes(spec_query_header(id, flags)) + wire_bytes + spec_u16_bytes(
        rtype as int,
    ) + spec_u16_bytes(CLASS_IN as int));
    Ok(out)
}

/// The eleven bytes of the OPT record that announces that datagrams of up to
/// `size` bytes are accepted: the root name, type 41, the size in place of
/// the class, and neither flags nor options.
pub open spec fn spec_opt_record(size: u16) -> Seq<u8> {
    seq![0u8, 0u8, 41u8, (size / 256) as u8, (size % 256) as u8, 0u8, 0u8, 0u8, 0u8, 0u8, 0u8]
}

/// The query `query` with an OPT record for `size` as its one additional
/// record.
pub open spec fn spec_with_edns(query: Seq<u8>, size: u16) -> Seq<u8> {
    query.update(11, 1u8) + spec_opt_record(size)
}

/// The bytes of a query as a channel sends it: with an OPT record where a
/// datagram size is to be announced, plain otherwise.
pub open spec fn spec_request(id: u16, name: Seq<u8>, rtype: u16, edns: Option<u16>) -> Result<
    Seq<u8>,
    ConfigError,
> {
    match spec_encode_query(id, 0, name, rtype) {
        Err(e) => Err(e),
        Ok(query) => match edns {
            None => Ok(query),
            Some(size) => Ok(spec_with_edns(query, size)),
        },
    }
}

/// Builds the query as a channel sends it.
pub fn encode_request(name: &[u8], rtype: u16, id: u16, edns: Option<u16>) -> (r: Result<
    Vec<u8>,
    ConfigError,
>)
    ensures
        match r {
            Ok(bytes) => spec_request(id, name@, rtype, edns) == Ok::<Seq<u8>, ConfigError>(
                bytes@,
            ) && bytes@.len() <= 282,
            Err(e) => spec_request(id, name@, rtype, edns) == Err::<Seq<u8>, ConfigError>(e),
        },
{
    let mut query: Vec<u8> = match encode_query(name, rtype, 0, id) {
        Err(e) => {
            return Err(e);
        },
        Ok(bytes) => bytes,
    };
    proof {
        lemma_query_len(id, 0, name@, rtype);
    }
    match edns {
        None => Ok(query),
        Some(size) => {
            let ghost plain = query@;
            query.set(11, 1);
            query.push(0);
            query.push(0);
            query.push(41);
            query.push((size / 256) as u8);
            query.push((size % 256) as u8);
            query.push(0);
            query.push(0);
            query.push(0);
            query.push(0);
            query.push(0);
            query.push(0);
            assert(query@ =~= spec_with_edns(plain, size));
            Ok(query)
        },
    }
}

} // verus!
