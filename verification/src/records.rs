//! The typed results besides A: what the records of one type in the answer
//! section of a response hold, each in wire order.

use vstd::prelude::*;
use crate::addr::{spec_ipv6_at, Ipv6};
use crate::bytes::{copy_range, read_u16, read_u32, spec_u16_at, spec_u32_at};
use crate::error::DecodeError;
use crate::message::{
    lemma_collect_error_stays, lemma_collect_step, name_in_body, spec_collect,
    spec_name_in_body, Message, Record, CLASS_IN,
    TYPE_AAAA, TYPE_CAA, TYPE_MX, TYPE_NAPTR, TYPE_SOA, TYPE_SRV, TYPE_TXT,
};
use crate::name::{decode_name, push_name, spec_decode_name, spec_names};

verus! {

/// How the records of one type are read.
pub trait Extract {
    /// What one record yields.
    type Item;

    /// What an item stands for.
    type Shape;

    /// What `item` stands for.
    spec fn spec_shape(item: Self::Item) -> Self::Shape;

    /// What the record `rec` of the message `data` yields: nothing where it
    /// is of another type.
    spec fn spec_extract(&self, data: Seq<u8>, max_hops: nat, rec: Record) -> Result<
        Option<Self::Shape>,
        DecodeError,
    >;

    /// Reads what the record `rec` yields.
    fn extract(&self, data: &[u8], max_hops: usize, rec: &Record) -> (r: Result<
        Option<Self::Item>,
        DecodeError,
    >)
        requires
            rec.spec_in_bounds(data@),
        ensures
            match r {
                Ok(Some(item)) => self.spec_extract(data@, max_hops as nat, *rec) == Ok::<
                    Option<Self::Shape>,
                    DecodeError,
                >(Some(Self::spec_shape(item))),
                Ok(None) => self.spec_extract(data@, max_hops as nat, *rec) == Ok::<
                    Option<Self::Shape>,
                    DecodeError,
                >(None),
                Err(e) => self.spec_extract(data@, max_hops as nat, *rec) == Err::<
                    Option<Self::Shape>,
                    DecodeError,
                >(e),
            },
    ;
}

/// What a list of items stands for.
pub open spec fn spec_shapes<E: Extract>(items: Seq<E::Item>) -> Seq<E::Shape> {
    Seq::new(items.len(), |i: int| E::spec_shape(items[i]))
}

/// What `how` yields for the records of one message, as a function of the
/// record.
pub open spec fn spec_extractor<E: Extract>(how: E, data: Seq<u8>, max_hops: nat) -> spec_fn(
    Record,
) -> Result<Option<E::Shape>, DecodeError> {
    |rec: Record| how.spec_extract(data, max_hops, rec)
}

/// What the records `answers` of the message `data` yield for one type of
/// record, in wire order. The first record that is malformed fails the lot.
pub open spec fn spec_answers<E: Extract>(
    how: E,
    data: Seq<u8>,
    max_hops: nat,
    answers: Seq<Record>,
) -> Result<Seq<E::Shape>, DecodeError> {
    spec_collect(answers, spec_extractor(how, data, max_hops))
}

/// Reads what the answer section of a checked message yields for one type of
/// record. Records of other types are passed over.
pub fn collect<E: Extract>(how: &E, data: &[u8], max_hops: usize, m: &Message) -> (r: Result<
    Vec<E::Item>,
    DecodeError,
>)
    requires
        m@.fits(data@),
    ensures
        match r {
            Ok(items) => spec_answers(*how, data@, max_hops as nat, m@.answers()) == Ok::<
                Seq<E::Shape>,
                DecodeError,
            >(spec_shapes::<E>(items@)),
            Err(e) => spec_answers(*how, data@, max_hops as nat, m@.answers()) == Err::<
                Seq<E::Shape>,
                DecodeError,
            >(e),
        },
{
    let n: usize = m.answer_count();
    let ghost answers = m@.answers();
    let ghost of = spec_extractor(*how, data@, max_hops as nat);
    let mut out: Vec<E::Item> = Vec::new();
    let mut i: usize = 0;
    assert(answers.take(0) =~= Seq::<Record>::empty());
    assert(spec_shapes::<E>(out@) =~= Seq::<E::Shape>::empty());
    while i < n
        invariant
            i <= n == answers.len(),
            answers == m@.answers(),
            n == m@.header.ancount,
            m@.fits(data@),
            of == spec_extractor(*how, data@, max_hops as nat),
            spec_collect(answers.take(i as int), of) == Ok::<Seq<E::Shape>, DecodeError>(
                spec_shapes::<E>(out@),
            ),
        decreases n - i,
    {
        let rec: Record = m.records[i];
        proof {
            lemma_collect_step(answers, of, i as int);
            assert(answers[i as int] == rec);
            assert(m@.records[i as int] == rec);
            assert(of(rec) == how.spec_extract(data@, max_hops as nat, rec));
        }
        match how.extract(data, max_hops, &rec) {
            Err(e) => {
                proof {
                    lemma_collect_error_stays(answers, of, i + 1);
                }
                return Err(e);
            },
            Ok(None) => {},
            Ok(Some(item)) => {
                let ghost before = out@;
                let ghost shape = E::spec_shape(item);
                out.push(item);
                assert(spec_shapes::<E>(out@) =~= spec_shapes::<E>(before).push(shape));
            },
        }
        i = i + 1;
    }
    assert(answers.take(n as int) =~= answers);
    Ok(out)
}

/// The contents of a single AAAA record.
#[derive(Clone, Copy, Debug, PartialEq, Eq, Structural)]
pub struct AAAAResult {
    pub addr: Ipv6,
    pub ttl: i32,
}

/// How AAAA records are read: an address of exactly sixteen bytes, class IN.
#[derive(Clone, Copy)]
pub struct AaaaRecords;

impl Extract for AaaaRecords {
    type Item = AAAAResult;

    type Shape = AAAAResult;

    open spec fn spec_shape(item: AAAAResult) -> AAAAResult {
        item
    }

    open spec fn spec_extract(&self, data: Seq<u8>, max_hops: nat, rec: Record) -> Result<
        Option<AAAAResult>,
        DecodeError,
    > {
        if rec.rtype != TYPE_AAAA {
            Ok(None)
        } else if rec.class != CLASS_IN {
            Err(DecodeError::UnsupportedClass)
        } else if rec.rdata_len != 16 {
            Err(DecodeError::BadRdata)
        } else {
            Ok(Some(AAAAResult { addr: spec_ipv6_at(data, rec.rdata_pos as int), ttl: rec.ttl }))
        }
    }

    fn extract(&self, data: &[u8], max_hops: usize, rec: &Record) -> (r: Result<
        Option<AAAAResult>,
        DecodeError,
    >) {
        if rec.rtype != TYPE_AAAA {
            Ok(None)
        } else if rec.class != CLASS_IN {
            Err(DecodeError::UnsupportedClass)
        } else if rec.rdata_len != 16 {
            Err(DecodeError::BadRdata)
        } else {
            Ok(Some(AAAAResult { addr: Ipv6::read(data, rec.rdata_pos), ttl: rec.ttl }))
        }
    }
}

/// The contents of a record whose body is one name, such as NS or PTR.
#[derive(Debug, PartialEq, Eq)]
pub struct NameResult {
    pub name: Vec<u8>,
    pub ttl: i32,
}

/// What a `NameResult` stands for.
pub struct NameShape {
    pub name: Seq<u8>,
    pub ttl: i32,
}

/// How the records of type `rtype` are read where the body is one name.
#[derive(Clone, Copy)]
pub struct NameRecords {
    pub rtype: u16,
}

impl Extract for NameRecords {
    type Item = NameResult;

    type Shape = NameShape;

    open spec fn spec_shape(item: NameResult) -> NameShape {
        NameShape { name: item.name@, ttl: item.ttl }
    }

    open spec fn spec_extract(&self, data: Seq<u8>, max_hops: nat, rec: Record) -> Result<
        Option<NameShape>,
        DecodeError,
    > {
        if rec.rtype != self.rtype {
            Ok(None)
        } else if rec.class != CLASS_IN {
            Err(DecodeError::UnsupportedClass)
        } else {
            match spec_name_in_body(data, max_hops, rec, 0) {
                Err(e) => Err(e),
                Ok(name) => Ok(Some(NameShape { name, ttl: rec.ttl })),
            }
        }
    }

    fn extract(&self, data: &[u8], max_hops: usize, rec: &Record) -> (r: Result<
        Option<NameResult>,
        DecodeError,
    >) {
        if rec.rtype != self.rtype {
            Ok(None)
        } else if rec.class != CLASS_IN {
            Err(DecodeError::UnsupportedClass)
        } else {
            match name_in_body(data, max_hops, rec, 0) {
                Err(e) => Err(e),
                Ok(name) => Ok(Some(NameResult { name, ttl: rec.ttl })),
            }
        }
    }
}

/// The contents of a single MX record.
#[derive(Debug, PartialEq, Eq)]
pub struct MXResult {
    /// The mail exchange.
    pub host: Vec<u8>,
    /// The preference; lower is tried first.
    pub priority: u16,
    pub ttl: i32,
}

/// What an `MXResult` stands for.
pub struct MXShape {
    pub host: Seq<u8>,
    pub priority: u16,
    pub ttl: i32,
}

/// How MX records are read: a 16-bit preference, then the exchange.
#[derive(Clone, Copy)]
pub struct MxRecords;

impl Extract for MxRecords {
    type Item = MXResult;

    type Shape = MXShape;

    open spec fn spec_shape(item: MXResult) -> MXShape {
        MXShape { host: item.host@, priority: item.priority, ttl: item.ttl }
    }

    open spec fn spec_extract(&self, data: Seq<u8>, max_hops: nat, rec: Record) -> Result<
        Option<MXShape>,
        DecodeError,
    > {
        if rec.rtype != TYPE_MX {
            Ok(None)
        } else if rec.class != CLASS_IN {
            Err(DecodeError::UnsupportedClass)
        } else {
            match spec_name_in_body(data, max_hops, rec, 2) {
                Err(e) => Err(e),
                Ok(host) => Ok(
                    Some(
                        MXShape {
                            host,
                            priority: spec_u16_at(data, rec.rdata_pos as int) as u16,
                            ttl: rec.ttl,
                        },
                    ),
                ),
            }
        }
    }

    fn extract(&self, data: &[u8], max_hops: usize, rec: &Record) -> (r: Result<
        Option<MXResult>,
        DecodeError,
    >) {
        if rec.rtype != TYPE_MX {
            Ok(None)
        } else if rec.class != CLASS_IN {
            Err(DecodeError::UnsupportedClass)
        } else {
            match name_in_body(data, max_hops, rec, 2) {
                Err(e) => Err(e),
                Ok(host) => Ok(
                    Some(MXResult { host, priority: read_u16(data, rec.rdata_pos), ttl: rec.ttl }),
                ),
            }
        }
    }
}

/// The contents of a single SRV record.
#[derive(Debug, PartialEq, Eq)]
pub struct SRVResult {
    /// The host that offers the service.
    pub host: Vec<u8>,
    pub port: u16,
    pub priority: u16,
    pub weight: u16,
    pub ttl: i32,
}

/// What an `SRVResult` stands for.
pub struct SRVShape {
    pub host: Seq<u8>,
    pub port: u16,
    pub priority: u16,
    pub weight: u16,
    pub ttl: i32,
}

/// How SRV records are read: priority, weight and port of 16 bits each, then
/// the target. The records come out in wire order; sorting them by priority
/// and weight is the caller's.
#[derive(Clone, Copy)]
pub struct SrvRecords;

impl Extract for SrvRecords {
    type Item = SRVResult;

    type Shape = SRVShape;

    open spec fn spec_shape(item: SRVResult) -> SRVShape {
        SRVShape {
            host: item.host@,
            port: item.port,
            priority: item.priority,
            weight: item.weight,
            ttl: item.ttl,
        }
    }

    open spec fn spec_extract(&self, data: Seq<u8>, max_hops: nat, rec: Record) -> Result<
        Option<SRVShape>,
        DecodeError,
    > {
        if rec.rtype != TYPE_SRV {
            Ok(None)
        } else if rec.class != CLASS_IN {
            Err(DecodeError::UnsupportedClass)
        } else {
            match spec_name_in_body(data, max_hops, rec, 6) {
                Err(e) => Err(e),
                Ok(host) => Ok(
                    Some(
                        SRVShape {
                            host,
                            priority: spec_u16_at(data, rec.rdata_pos as int) as u16,
                            weight: spec_u16_at(data, rec.rdata_pos + 2) as u16,
                            port: spec_u16_at(data, rec.rdata_pos + 4) as u16,
                            ttl: rec.ttl,
                        },
                    ),
                ),
            }
        }
    }

    fn extract(&self, data: &[u8], max_hops: usize, rec: &Record) -> (r: Result<
        Option<SRVResult>,
        DecodeError,
    >) {
        if rec.rtype != TYPE_SRV {
            Ok(None)
        } else if rec.class != CLASS_IN {
            Err(DecodeError::UnsupportedClass)
        } else {
            match name_in_body(data, max_hops, rec, 6) {
                Err(e) => Err(e),
                Ok(host) => Ok(
                    Some(
                        SRVResult {
                            host,
                            priority: read_u16(data, rec.rdata_pos),
                            weight: read_u16(data, rec.rdata_pos + 2),
                            port: read_u16(data, rec.rdata_pos + 4),
                            ttl: rec.ttl,
                        },
                    ),
                ),
            }
        }
    }
}

/// The character strings stored from `pos` up to `end`, each behind its
/// length byte, with `found` already read; nothing where a string would end
/// behind `end`.
pub open spec fn spec_char_strings(data: Seq<u8>, pos: int, end: int, found: Seq<Seq<u8>>) -> Option<
    Seq<Seq<u8>>,
>
    decreases end - pos,
{
    if pos >= end || pos < 0 || end > data.len() {
        Some(found)
    } else if pos + 1 + data[pos] > end {
        None
    } else {
        spec_char_strings(
            data,
            pos + 1 + data[pos],
            end,
            found.push(data.subrange(pos + 1, pos + 1 + data[pos])),
        )
    }
}

/// Reads the character strings stored from `pos` up to `end`.
pub fn char_strings(data: &[u8], pos: usize, end: usize) -> (r: Option<Vec<Vec<u8>>>)
    requires
        pos <= end <= data@.len(),
    ensures
        match r {
            Some(strings) => spec_char_strings(data@, pos as int, end as int, Seq::empty())
                == Some(spec_names(strings@)),
            None => spec_char_strings(data@, pos as int, end as int, Seq::empty()).is_none(),
        },
{
    let mut found: Vec<Vec<u8>> = Vec::new();
    let mut at: usize = pos;
    assert(spec_names(found@) =~= Seq::<Seq<u8>>::empty());
    while at < end
        invariant
            pos <= at <= end <= data@.len(),
            spec_char_strings(data@, pos as int, end as int, Seq::empty()) == spec_char_strings(
                data@,
                at as int,
                end as int,
                spec_names(found@),
            ),
        decreases end - at,
    {
        let n: usize = data[at] as usize;
        if n > end - at - 1 {
            return None;
        }
        let s: Vec<u8> = copy_range(data, at + 1, at + 1 + n);
        push_name(&mut found, s);
        at = at + 1 + n;
    }
    Some(found)
}

/// The contents of a single TXT record.
#[derive(Debug, PartialEq, Eq)]
pub struct TXTResult {
    /// The character strings of the record, in order.
    pub strings: Vec<Vec<u8>>,
    pub ttl: i32,
}

/// What a `TXTResult` stands for.
pub struct TXTShape {
    pub strings: Seq<Seq<u8>>,
    pub ttl: i32,
}

/// How TXT records are read: character strings that fill the body exactly.
#[derive(Clone, Copy)]
pub struct TxtRecords;

impl Extract for TxtRecords {
    type Item = TXTResult;

    type Shape = TXTShape;

    open spec fn spec_shape(item: TXTResult) -> TXTShape {
        TXTShape { strings: spec_names(item.strings@), ttl: item.ttl }
    }

    open spec fn spec_extract(&self, data: Seq<u8>, max_hops: nat, rec: Record) -> Result<
        Option<TXTShape>,
        DecodeError,
    > {
        if rec.rtype != TYPE_TXT {
            Ok(None)
        } else if rec.class != CLASS_IN {
            Err(DecodeError::UnsupportedClass)
        } else {
            match spec_char_strings(
                data,
                rec.rdata_pos as int,
                rec.rdata_pos + rec.rdata_len,
                Seq::empty(),
            ) {
                None => Err(DecodeError::BadRdata),
                Some(strings) => Ok(Some(TXTShape { strings, ttl: rec.ttl })),
            }
        }
    }

    fn extract(&self, data: &[u8], max_hops: usize, rec: &Record) -> (r: Result<
        Option<TXTResult>,
        DecodeError,
    >) {
        if rec.rtype != TYPE_TXT {
            Ok(None)
        } else if rec.class != CLASS_IN {
            Err(DecodeError::UnsupportedClass)
        } else {
            match char_strings(data, rec.rdata_pos, rec.rdata_pos + rec.rdata_len) {
                None => Err(DecodeError::BadRdata),
                Some(strings) => Ok(Some(TXTResult { strings, ttl: rec.ttl })),
            }
        }
    }
}

/// The contents of a single SOA record.
#[derive(Debug, PartialEq, Eq)]
pub struct SOAResult {
    /// The primary nameserver of the zone.
    pub name_server: Vec<u8>,
    /// The mailbox of the person responsible, as a name.
    pub hostmaster: Vec<u8>,
    pub serial: u32,
    pub refresh: u32,
    pub retry: u32,
    pub expire: u32,
    pub min_ttl: u32,
    pub ttl: i32,
}

/// What an `SOAResult` stands for.
pub struct SOAShape {
    pub name_server: Seq<u8>,
    pub hostmaster: Seq<u8>,
    pub serial: u32,
    pub refresh: u32,
    pub retry: u32,
    pub expire: u32,
    pub min_ttl: u32,
    pub ttl: i32,
}

/// How SOA records are read: two names, then five numbers of 32 bits that
/// end the body.
#[derive(Clone, Copy)]
pub struct SoaRecords;

impl Extract for SoaRecords {
    type Item = SOAResult;

    type Shape = SOAShape;

    open spec fn spec_shape(item: SOAResult) -> SOAShape {
        SOAShape {
            name_server: item.name_server@,
            hostmaster: item.hostmaster@,
            serial: item.serial,
            refresh: item.refresh,
            retry: item.retry,
            expire: item.expire,
            min_ttl: item.min_ttl,
            ttl: item.ttl,
        }
    }

    open spec fn spec_extract(&self, data: Seq<u8>, max_hops: nat, rec: Record) -> Result<
        Option<SOAShape>,
        DecodeError,
    > {
        if rec.rtype != TYPE_SOA {
            Ok(None)
        } else if rec.class != CLASS_IN {
            Err(DecodeError::UnsupportedClass)
        } else if rec.rdata_len < 22 {
            Err(DecodeError::BadRdata)
        } else {
            match spec_decode_name(data, rec.rdata_pos as int, max_hops) {
                Err(e) => Err(e),
                Ok((name_server, p)) => match spec_decode_name(data, p, max_hops) {
                    Err(e) => Err(e),
                    Ok((hostmaster, q)) => if q + 20 != rec.rdata_pos + rec.rdata_len {
                        Err(DecodeError::BadRdata)
                    } else {
                        Ok(
                            Some(
                                SOAShape {
                                    name_server,
                                    hostmaster,
                                    serial: spec_u32_at(data, q) as u32,
                                    refresh: spec_u32_at(data, q + 4) as u32,
                                    retry: spec_u32_at(data, q + 8) as u32,
                                    expire: spec_u32_at(data, q + 12) as u32,
                                    min_ttl: spec_u32_at(data, q + 16) as u32,
                                    ttl: rec.ttl,
                                },
                            ),
                        )
                    },
                },
            }
        }
    }

    fn extract(&self, data: &[u8], max_hops: usize, rec: &Record) -> (r: Result<
        Option<SOAResult>,
        DecodeError,
    >) {
        if rec.rtype != TYPE_SOA {
            return Ok(None);
        }
        if rec.class != CLASS_IN {
            return Err(DecodeError::UnsupportedClass);
        }
        if rec.rdata_len < 22 {
            return Err(DecodeError::BadRdata);
        }
        let (name_server, p) = match decode_name(data, rec.rdata_pos, max_hops) {
            Err(e) => {
                return Err(e);
            },
            Ok(x) => x,
        };
        let (hostmaster, q) = match decode_name(data, p, max_hops) {
            Err(e) => {
                return Err(e);
            },
            Ok(x) => x,
        };
        let end: usize = rec.rdata_pos + rec.rdata_len;
        if q > end || end - q != 20 {
            return Err(DecodeError::BadRdata);
        }
        Ok(
            Some(
                SOAResult {
                    name_server,
                    hostmaster,
                    serial: read_u32(data, q),
                    refresh: read_u32(data, q + 4),
                    retry: read_u32(data, q + 8),
                    expire: read_u32(data, q + 12),
                    min_ttl: read_u32(data, q + 16),
                    ttl: rec.ttl,
                },
            ),
        )
    }
}

/// The contents of a single CAA record.
#[derive(Debug, PartialEq, Eq)]
pub struct CAAResult {
    /// Whether an issuer that does not know the tag must refuse.
    pub critical: bool,
    /// The tag, such as `issue`.
    pub tag: Vec<u8>,
    /// The value that goes with the tag.
    pub value: Vec<u8>,
    pub ttl: i32,
}

/// What a `CAAResult` stands for.
pub struct CAAShape {
    pub critical: bool,
    pub tag: Seq<u8>,
    pub value: Seq<u8>,
    pub ttl: i32,
}

/// How CAA records are read: a byte of flags, of which the highest bit says
/// critical, the length of the tag, the tag of at least one byte, and the
/// value, which is the rest of the body.
#[derive(Clone, Copy)]
pub struct CaaRecords;

impl Extract for CaaRecords {
    type Item = CAAResult;

    type Shape = CAAShape;

    open spec fn spec_shape(item: CAAResult) -> CAAShape {
        CAAShape { critical: item.critical, tag: item.tag@, value: item.value@, ttl: item.ttl }
    }

    open spec fn spec_extract(&self, data: Seq<u8>, max_hops: nat, rec: Record) -> Result<
        Option<CAAShape>,
        DecodeError,
    > {
        if rec.rtype != TYPE_CAA {
            Ok(None)
        } else if rec.class != CLASS_IN {
            Err(DecodeError::UnsupportedClass)
        } else if rec.rdata_len < 2 || data[rec.rdata_pos + 1] == 0 || 2 + data[rec.rdata_pos + 1]
            > rec.rdata_len {
            Err(DecodeError::BadRdata)
        } else {
            let tag_end = rec.rdata_pos + 2 + data[rec.rdata_pos + 1];
            Ok(
                Some(
                    CAAShape {
                        critical: data[rec.rdata_pos as int] >= 128,
                        tag: data.subrange(rec.rdata_pos + 2, tag_end),
                        value: data.subrange(tag_end, rec.rdata_pos + rec.rdata_len),
                        ttl: rec.ttl,
                    },
                ),
            )
        }
    }

    fn extract(&self, data: &[u8], max_hops: usize, rec: &Record) -> (r: Result<
        Option<CAAResult>,
        DecodeError,
    >) {
        if rec.rtype != TYPE_CAA {
            return Ok(None);
        }
        if rec.class != CLASS_IN {
            return Err(DecodeError::UnsupportedClass);
        }
        if rec.rdata_len < 2 {
            return Err(DecodeError::BadRdata);
        }
        let tag_len: usize = data[rec.rdata_pos + 1] as usize;
        if tag_len == 0 || 2 + tag_len > rec.rdata_len {
            return Err(DecodeError::BadRdata);
        }
        let tag_end: usize = rec.rdata_pos + 2 + tag_len;
        Ok(
            Some(
                CAAResult {
                    critical: data[rec.rdata_pos] >= 128,
                    tag: copy_range(data, rec.rdata_pos + 2, tag_end),
                    value: copy_range(data, tag_end, rec.rdata_pos + rec.rdata_len),
                    ttl: rec.ttl,
                },
            ),
        )
    }
}

/// The character string stored at `pos`, behind its length byte, and the
/// offset behind it; nothing where it would end behind `end`.
pub open spec fn spec_char_string(data: Seq<u8>, pos: int, end: int) -> Option<(Seq<u8>, int)> {
    if pos < 0 || pos >= end || end > data.len() || pos + 1 + data[pos] > end {
        None
    } else {
        Some((data.subrange(pos + 1, pos + 1 + data[pos]), pos + 1 + data[pos]))
    }
}

/// Reads the character string stored at `pos`.
pub fn char_string(data: &[u8], pos: usize, end: usize) -> (r: Option<(Vec<u8>, usize)>)
    requires
        end <= data@.len(),
    ensures
        match r {
            Some((s, next)) => spec_char_string(data@, pos as int, end as int) == Some(
                (s@, next as int),
            ) && pos < next <= end,
            None => spec_char_string(data@, pos as int, end as int).is_none(),
        },
{
    if pos >= end {
        return None;
    }
    let n: usize = data[pos] as usize;
    if n > end - pos - 1 {
        return None;
    }
    Some((copy_range(data, pos + 1, pos + 1 + n), pos + 1 + n))
}

/// The contents of a single NAPTR record.
#[derive(Debug, PartialEq, Eq)]
pub struct NAPTRResult {
    pub order: u16,
    pub preference: u16,
    pub flags: Vec<u8>,
    pub service: Vec<u8>,
    pub regexp: Vec<u8>,
    pub replacement: Vec<u8>,
    pub ttl: i32,
}

/// What a `NAPTRResult` stands for.
pub struct NAPTRShape {
    pub order: u16,
    pub preference: u16,
    pub flags: Seq<u8>,
    pub service: Seq<u8>,
    pub regexp: Seq<u8>,
    pub replacement: Seq<u8>,
    pub ttl: i32,
}

/// How NAPTR records are read: order and preference of 16 bits each, three
/// character strings, and the replacement, a name that ends the body.
#[derive(Clone, Copy)]
pub struct NaptrRecords;

impl Extract for NaptrRecords {
    type Item = NAPTRResult;

    type Shape = NAPTRShape;

    open spec fn spec_shape(item: NAPTRResult) -> NAPTRShape {
        NAPTRShape {
            order: item.order,
            preference: item.preference,
            flags: item.flags@,
            service: item.service@,
            regexp: item.regexp@,
            replacement: item.replacement@,
            ttl: item.ttl,
        }
    }

    open spec fn spec_extract(&self, data: Seq<u8>, max_hops: nat, rec: Record) -> Result<
        Option<NAPTRShape>,
        DecodeError,
    > {
        let end = rec.rdata_pos + rec.rdata_len;
        if rec.rtype != TYPE_NAPTR {
            Ok(None)
        } else if rec.class != CLASS_IN {
            Err(DecodeError::UnsupportedClass)
        } else if rec.rdata_len < 4 {
            Err(DecodeError::BadRdata)
        } else {
            match spec_char_string(data, rec.rdata_pos + 4, end) {
                None => Err(DecodeError::BadRdata),
                Some((flags, p)) => match spec_char_string(data, p, end) {
                    None => Err(DecodeError::BadRdata),
                    Some((service, q)) => match spec_char_string(data, q, end) {
                        None => Err(DecodeError::BadRdata),
                        Some((regexp, r)) => if r >= end {
                            Err(DecodeError::BadRdata)
                        } else {
                            match spec_decode_name(data, r, max_hops) {
                                Err(e) => Err(e),
                                Ok((replacement, stop)) => if stop != end {
                                    Err(DecodeError::BadRdata)
                                } else {
                                    Ok(
                                        Some(
                                            NAPTRShape {
                                                order: spec_u16_at(data, rec.rdata_pos as int)
                                                    as u16,
                                                preference: spec_u16_at(data, rec.rdata_pos + 2)
                                                    as u16,
                                                flags,
                                                service,
                                                regexp,
                                                replacement,
                                                ttl: rec.ttl,
                                            },
                                        ),
                                    )
                                },
                            }
                        },
                    },
                },
            }
        }
    }

    fn extract(&self, data: &[u8], max_hops: usize, rec: &Record) -> (r: Result<
        Option<NAPTRResult>,
        DecodeError,
    >) {
        if rec.rtype != TYPE_NAPTR {
            return Ok(None);
        }
        if rec.class != CLASS_IN {
            return Err(DecodeError::UnsupportedClass);
        }
        if rec.rdata_len < 4 {
            return Err(DecodeError::BadRdata);
        }
        let end: usize = rec.rdata_pos + rec.rdata_len;
        let (flags, p) = match char_string(data, rec.rdata_pos + 4, end) {
            None => {
                return Err(DecodeError::BadRdata);
            },
            Some(x) => x,
        };
        let (service, q) = match char_string(data, p, end) {
            None => {
                return Err(DecodeError::BadRdata);
            },
            Some(x) => x,
        };
        let (regexp, at) = match char_string(data, q, end) {
            None => {
                return Err(DecodeError::BadRdata);
            },
            Some(x) => x,
        };
        if at >= end {
            return Err(DecodeError::BadRdata);
        }
        let (replacement, stop) = match decode_name(data, at, max_hops) {
            Err(e) => {
                return Err(e);
            },
            Ok(x) => x,
        };
        if stop != end {
            return Err(DecodeError::BadRdata);
        }
        Ok(
            Some(
                NAPTRResult {
                    order: read_u16(data, rec.rdata_pos),
                    preference: read_u16(data, rec.rdata_pos + 2),
                    flags,
                    service,
                    regexp,
                    replacement,
                    ttl: rec.ttl,
                },
            ),
        )
    }
}

/// The contents of a record of any type, with its body as it came.
#[derive(Debug, PartialEq, Eq)]
pub struct RawResult {
    pub rtype: u16,
    pub class: u16,
    pub ttl: i32,
    pub data: Vec<u8>,
}

/// What a `RawResult` stands for.
pub struct RawShape {
    pub rtype: u16,
    pub class: u16,
    pub ttl: i32,
    pub data: Seq<u8>,
}

/// How the records of type `rtype` are read where nothing is known of their
/// body.
#[derive(Clone, Copy)]
pub struct RawRecords {
    pub rtype: u16,
}

impl Extract for RawRecords {
    type Item = RawResult;

    type Shape = RawShape;

    open spec fn spec_shape(item: RawResult) -> RawShape {
        RawShape { rtype: item.rtype, class: item.class, ttl: item.ttl, data: item.data@ }
    }

    open spec fn spec_extract(&self, data: Seq<u8>, max_hops: nat, rec: Record) -> Result<
        Option<RawShape>,
        DecodeError,
    > {
        if rec.rtype != self.rtype {
            Ok(None)
        } else {
            Ok(
                Some(
                    RawShape {
                        rtype: rec.rtype,
                        class: rec.class,
                        ttl: rec.ttl,
                        data: data.subrange(rec.rdata_pos as int, rec.rdata_pos + rec.rdata_len),
                    },
                ),
            )
        }
    }

    fn extract(&self, data: &[u8], max_hops: usize, rec: &Record) -> (r: Result<
        Option<RawResult>,
        DecodeError,
    >) {
        if rec.rtype != self.rtype {
            Ok(None)
        } else {
            Ok(
                Some(
                    RawResult {
                        rtype: rec.rtype,
                        class: rec.class,
                        ttl: rec.ttl,
                        data: copy_range(data, rec.rdata_pos, rec.rdata_pos + rec.rdata_len),
                    },
                ),
            )
        }
    }
}

} // verus!
