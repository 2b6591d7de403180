//! Decoding a response into the typed result that was asked for.

use vstd::prelude::*;
use crate::a::{spec_a_from_message, spec_parse_a, AResults, AResultsView};
use crate::cname::{host_names, spec_host_names};
use crate::error::{AresError, DecodeError};
use crate::message::{
    lemma_long_chain_fails_message, lemma_long_chain_in_question_fails_message,
    lemma_rdlength_overrun_is_truncated, spec_header,
    spec_parse_message, spec_reaches_record, spec_record_start, Message, MessageView, HEADER_LEN,
    RECORD_FIXED_LEN, TYPE_A, TYPE_AAAA, TYPE_CAA, TYPE_MX, TYPE_NAPTR, TYPE_NS, TYPE_PTR,
    TYPE_SOA, TYPE_SRV, TYPE_TXT,
};
use crate::bytes::spec_u16_at;
use crate::name::{spec_decode_name, spec_names, spec_pointer_chain, DEFAULT_MAX_POINTER_HOPS};
use crate::records::{
    collect, spec_answers, spec_shapes, AAAAResult, AaaaRecords, CAAResult, CAAShape, CaaRecords,
    MXResult, MXShape, MxRecords, NAPTRResult, NAPTRShape, NameRecords, NameResult, NameShape,
    NaptrRecords, RawRecords, RawResult, RawShape, SOAResult, SOAShape, SRVResult, SRVShape,
    SoaRecords, SrvRecords, TXTResult, TXTShape, TxtRecords,
};

verus! {

/// The result of a successful AAAA lookup.
#[derive(Debug, PartialEq, Eq)]
pub struct AAAAResults {
    pub hostname: Vec<u8>,
    pub aliases: Vec<Vec<u8>>,
    pub addrs: Vec<AAAAResult>,
}

/// What an `AAAAResults` stands for.
pub struct AAAAResultsView {
    /// The canonical name in dotted form.
    pub hostname: Seq<u8>,
    /// The names that are aliases of it, in wire order.
    pub aliases: Seq<Seq<u8>>,
    /// The AAAA records of the answer section, in wire order.
    pub addrs: Seq<AAAAResult>,
}

impl View for AAAAResults {
    type V = AAAAResultsView;

    open spec fn view(&self) -> AAAAResultsView {
        AAAAResultsView {
            hostname: self.hostname@,
            aliases: spec_names(self.aliases@),
            addrs: self.addrs@,
        }
    }
}

impl AAAAResults {
    /// The smallest time-to-live among the AAAA records: the one value to
    /// use where the whole answer needs a single lifetime.
    pub fn min_ttl(&self) -> (r: Option<i32>)
        ensures
            r is None <==> self@.addrs.len() == 0,
            r matches Some(t) ==> (forall|i: int|
                0 <= i < self@.addrs.len() ==> t <= (#[trigger] self@.addrs[i]).ttl) && (exists|
                i: int,
            |
                0 <= i < self@.addrs.len() && (#[trigger] self@.addrs[i]).ttl == t),
    {
        if self.addrs.len() == 0 {
            return None;
        }
        let mut best: i32 = self.addrs[0].ttl;
        let mut at: Ghost<int> = Ghost(0);
        let mut i: usize = 1;
        while i < self.addrs.len()
            invariant
                1 <= i <= self.addrs@.len(),
                0 <= at@ < i,
                self.addrs@[at@].ttl == best,
                forall|j: int| 0 <= j < i ==> best <= (#[trigger] self.addrs@[j]).ttl,
            decreases self.addrs@.len() - i,
        {
            if self.addrs[i].ttl < best {
                best = self.addrs[i].ttl;
                proof {
                    at@ = i as int;
                }
            }
            i = i + 1;
        }
        assert(self@.addrs[at@].ttl == best);
        Some(best)
    }
}

/// A typed set of records: what a response holds for the type asked for.
#[derive(Debug, PartialEq, Eq)]
pub enum ParsedResult {
    A(AResults),
    AAAA(AAAAResults),
    NS(Vec<NameResult>),
    PTR(Vec<NameResult>),
    MX(Vec<MXResult>),
    SRV(Vec<SRVResult>),
    TXT(Vec<TXTResult>),
    SOA(Vec<SOAResult>),
    NAPTR(Vec<NAPTRResult>),
    CAA(Vec<CAAResult>),
    /// Records of a type this library does not take apart.
    Other(Vec<RawResult>),
}

/// What a `ParsedResult` stands for.
pub enum ParsedShape {
    A(AResultsView),
    AAAA(AAAAResultsView),
    NS(Seq<NameShape>),
    PTR(Seq<NameShape>),
    MX(Seq<MXShape>),
    SRV(Seq<SRVShape>),
    TXT(Seq<TXTShape>),
    SOA(Seq<SOAShape>),
    NAPTR(Seq<NAPTRShape>),
    CAA(Seq<CAAShape>),
    Other(Seq<RawShape>),
}

impl View for ParsedResult {
    type V = ParsedShape;

    open spec fn view(&self) -> ParsedShape {
        match self {
            ParsedResult::A(r) => ParsedShape::A(r@),
            ParsedResult::AAAA(r) => ParsedShape::AAAA(r@),
            ParsedResult::NS(r) => ParsedShape::NS(spec_shapes::<NameRecords>(r@)),
            ParsedResult::PTR(r) => ParsedShape::PTR(spec_shapes::<NameRecords>(r@)),
            ParsedResult::MX(r) => ParsedShape::MX(spec_shapes::<MxRecords>(r@)),
            ParsedResult::SRV(r) => ParsedShape::SRV(spec_shapes::<SrvRecords>(r@)),
            ParsedResult::TXT(r) => ParsedShape::TXT(spec_shapes::<TxtRecords>(r@)),
            ParsedResult::SOA(r) => ParsedShape::SOA(spec_shapes::<SoaRecords>(r@)),
            ParsedResult::NAPTR(r) => ParsedShape::NAPTR(spec_shapes::<NaptrRecords>(r@)),
            ParsedResult::CAA(r) => ParsedShape::CAA(spec_shapes::<CaaRecords>(r@)),
            ParsedResult::Other(r) => ParsedShape::Other(spec_shapes::<RawRecords>(r@)),
        }
    }
}

/// The result of an AAAA lookup that the checked message `m` of `data`
/// carries.
pub open spec fn spec_aaaa_from_message(data: Seq<u8>, max_hops: nat, m: MessageView) -> Result<
    AAAAResultsView,
    DecodeError,
> {
    match spec_answers(AaaaRecords, data, max_hops, m.answers()) {
        Err(e) => Err(e),
        Ok(addrs) => match spec_host_names(data, max_hops, m) {
            Err(e) => Err(e),
            Ok((hostname, aliases)) => Ok(AAAAResultsView { hostname, aliases, addrs }),
        },
    }
}

/// `found` wrapped by `wrap`, where something was found.
pub open spec fn spec_wrap<T>(found: Result<Seq<T>, DecodeError>, wrap: spec_fn(Seq<T>) -> ParsedShape) -> Result<
    ParsedShape,
    DecodeError,
> {
    match found {
        Err(e) => Err(e),
        Ok(items) => Ok(wrap(items)),
    }
}

/// The typed set of records of type `rtype` that the checked message `m` of
/// `data` carries in its answer section.
pub open spec fn spec_typed(data: Seq<u8>, rtype: u16, max_hops: nat, m: MessageView) -> Result<
    ParsedShape,
    DecodeError,
> {
    let answers = m.answers();
    if rtype == TYPE_A {
        match spec_a_from_message(data, max_hops, m) {
            Err(e) => Err(e),
            Ok(r) => Ok(ParsedShape::A(r)),
        }
    } else if rtype == TYPE_AAAA {
        match spec_aaaa_from_message(data, max_hops, m) {
            Err(e) => Err(e),
            Ok(r) => Ok(ParsedShape::AAAA(r)),
        }
    } else if rtype == TYPE_NS {
        spec_wrap(
            spec_answers(NameRecords { rtype: TYPE_NS }, data, max_hops, answers),
            |s: Seq<NameShape>| ParsedShape::NS(s),
        )
    } else if rtype == TYPE_PTR {
        spec_wrap(
            spec_answers(NameRecords { rtype: TYPE_PTR }, data, max_hops, answers),
            |s: Seq<NameShape>| ParsedShape::PTR(s),
        )
    } else if rtype == TYPE_MX {
        spec_wrap(
            spec_answers(MxRecords, data, max_hops, answers),
            |s: Seq<MXShape>| ParsedShape::MX(s),
        )
    } else if rtype == TYPE_SRV {
        spec_wrap(
            spec_answers(SrvRecords, data, max_hops, answers),
            |s: Seq<SRVShape>| ParsedShape::SRV(s),
        )
    } else if rtype == TYPE_TXT {
        spec_wrap(
            spec_answers(TxtRecords, data, max_hops, answers),
            |s: Seq<TXTShape>| ParsedShape::TXT(s),
        )
    } else if rtype == TYPE_SOA {
        spec_wrap(
            spec_answers(SoaRecords, data, max_hops, answers),
            |s: Seq<SOAShape>| ParsedShape::SOA(s),
        )
    } else if rtype == TYPE_NAPTR {
        spec_wrap(
            spec_answers(NaptrRecords, data, max_hops, answers),
            |s: Seq<NAPTRShape>| ParsedShape::NAPTR(s),
        )
    } else if rtype == TYPE_CAA {
        spec_wrap(
            spec_answers(CaaRecords, data, max_hops, answers),
            |s: Seq<CAAShape>| ParsedShape::CAA(s),
        )
    } else {
        spec_wrap(
            spec_answers(RawRecords { rtype }, data, max_hops, answers),
            |s: Seq<RawShape>| ParsedShape::Other(s),
        )
    }
}

/// The typed set of records of type `rtype` that the response `data`
/// carries: the structure of the whole message is checked first, then the
/// records of the type asked for are read out of the answer section, and
/// records of other types are passed over.
pub open spec fn spec_decode_response(data: Seq<u8>, rtype: u16, max_hops: nat) -> Result<
    ParsedShape,
    DecodeError,
> {
    match spec_parse_message(data, max_hops) {
        Err(e) => Err(e),
        Ok(m) => spec_typed(data, rtype, max_hops, m),
    }
}

/// Decodes the response `data` to a query for records of type `rtype`,
/// following each name through at most `max_hops` compression pointers.
pub fn decode_response_with(data: &[u8], rtype: u16, max_hops: usize) -> (r: Result<
    ParsedResult,
    DecodeError,
>)
    ensures
        match r {
            Ok(res) => spec_decode_response(data@, rtype, max_hops as nat) == Ok::<
                ParsedShape,
                DecodeError,
            >(res@),
            Err(e) => spec_decode_response(data@, rtype, max_hops as nat) == Err::<
                ParsedShape,
                DecodeError,
            >(e),
        },
{
    let m = match Message::parse(data, max_hops) {
        Err(e) => {
            return Err(e);
        },
        Ok(m) => m,
    };
    if rtype == TYPE_A {
        match AResults::from_message(data, max_hops, &m) {
            Err(e) => Err(e),
            Ok(r) => Ok(ParsedResult::A(r)),
        }
    } else if rtype == TYPE_AAAA {
        let addrs = match collect(&AaaaRecords, data, max_hops, &m) {
            Err(e) => {
                return Err(e);
            },
            Ok(addrs) => addrs,
        };
        assert(spec_shapes::<AaaaRecords>(addrs@) =~= addrs@);
        match host_names(data, max_hops, &m) {
            Err(e) => Err(e),
            Ok((hostname, aliases)) => Ok(
                ParsedResult::AAAA(AAAAResults { hostname, aliases, addrs }),
            ),
        }
    } else if rtype == TYPE_NS {
        match collect(&NameRecords { rtype: TYPE_NS }, data, max_hops, &m) {
            Err(e) => Err(e),
            Ok(r) => Ok(ParsedResult::NS(r)),
        }
    } else if rtype == TYPE_PTR {
        match collect(&NameRecords { rtype: TYPE_PTR }, data, max_hops, &m) {
            Err(e) => Err(e),
            Ok(r) => Ok(ParsedResult::PTR(r)),
        }
    } else if rtype == TYPE_MX {
        match collect(&MxRecords, data, max_hops, &m) {
            Err(e) => Err(e),
            Ok(r) => Ok(ParsedResult::MX(r)),
        }
    } else if rtype == TYPE_SRV {
        match collect(&SrvRecords, data, max_hops, &m) {
            Err(e) => Err(e),
            Ok(r) => Ok(ParsedResult::SRV(r)),
        }
    } else if rtype == TYPE_TXT {
        match collect(&TxtRecords, data, max_hops, &m) {
            Err(e) => Err(e),
            Ok(r) => Ok(ParsedResult::TXT(r)),
        }
    } else if rtype == TYPE_SOA {
        match collect(&SoaRecords, data, max_hops, &m) {
            Err(e) => Err(e),
            Ok(r) => Ok(ParsedResult::SOA(r)),
        }
    } else if rtype == TYPE_NAPTR {
        match collect(&NaptrRecords, data, max_hops, &m) {
            Err(e) => Err(e),
            Ok(r) => Ok(ParsedResult::NAPTR(r)),
        }
    } else if rtype == TYPE_CAA {
        match collect(&CaaRecords, data, max_hops, &m) {
            Err(e) => Err(e),
            Ok(r) => Ok(ParsedResult::CAA(r)),
        }
    } else {
        match collect(&RawRecords { rtype }, data, max_hops, &m) {
            Err(e) => Err(e),
            Ok(r) => Ok(ParsedResult::Other(r)),
        }
    }
}

/// Decodes the response `data` to a query for records of type `rtype`.
pub fn decode_response(data: &[u8], rtype: u16) -> (r: Result<ParsedResult, DecodeError>)
    ensures
        match r {
            Ok(res) => spec_decode_response(data@, rtype, DEFAULT_MAX_POINTER_HOPS as nat) == Ok::<
                ParsedShape,
                DecodeError,
            >(res@),
            Err(e) => spec_decode_response(data@, rtype, DEFAULT_MAX_POINTER_HOPS as nat) == Err::<
                ParsedShape,
                DecodeError,
            >(e),
        },
{
    decode_response_with(data, rtype, DEFAULT_MAX_POINTER_HOPS)
}

/// Decoding a response for A records agrees with `AResults::parse_from`.
pub proof fn lemma_decode_a_agrees(data: Seq<u8>, max_hops: nat)
    ensures
        match spec_decode_response(data, TYPE_A, max_hops) {
            Ok(shape) => shape is A && spec_parse_a(data, max_hops) == Ok::<
                AResultsView,
                AresError,
            >(shape->A_0),
            Err(e) => spec_parse_a(data, max_hops) == Err::<AResultsView, AresError>(
                AresError::Decode(e),
            ),
        },
{
}

/// A response whose structure is refused is refused for every type asked
/// for, with the same error.
pub proof fn lemma_decode_fails_with_message(data: Seq<u8>, rtype: u16, max_hops: nat)
    requires
        spec_parse_message(data, max_hops) is Err,
    ensures
        spec_decode_response(data, rtype, max_hops) == Err::<ParsedShape, DecodeError>(
            spec_parse_message(data, max_hops)->Err_0,
        ),
{
}

/// Decoding a response with a record whose RDLENGTH exceeds what is left of
/// the buffer returns `Truncated`, whatever type was asked for: the message
/// parses up to record number `k`, whose owner name and fixed fields are in
/// place, but whose body would end behind the buffer.
pub proof fn lemma_decode_rdlength_overrun(data: Seq<u8>, rtype: u16, max_hops: nat, k: nat)
    requires
        spec_reaches_record(data, max_hops, k),
        spec_decode_name(data, spec_record_start(data, max_hops, k), max_hops) is Ok,
        ({
            let fixed = spec_decode_name(
                data,
                spec_record_start(data, max_hops, k),
                max_hops,
            )->Ok_0.1;
            fixed + RECORD_FIXED_LEN <= data.len() && spec_u16_at(data, fixed + 8) > data.len()
                - (fixed + RECORD_FIXED_LEN)
        }),
    ensures
        spec_decode_response(data, rtype, max_hops) == Err::<ParsedShape, DecodeError>(
            DecodeError::Truncated,
        ),
{
    lemma_rdlength_overrun_is_truncated(data, max_hops, k);
}

/// Decoding a response fails where the owner name of a record runs through
/// more compression pointers than the bound.
pub proof fn lemma_decode_long_chain(data: Seq<u8>, rtype: u16, max_hops: nat, k: nat)
    requires
        spec_reaches_record(data, max_hops, k),
        spec_pointer_chain(data, spec_record_start(data, max_hops, k), max_hops + 1),
    ensures
        spec_decode_response(data, rtype, max_hops) == Err::<ParsedShape, DecodeError>(
            DecodeError::BadPointer,
        ) || spec_decode_response(data, rtype, max_hops) == Err::<ParsedShape, DecodeError>(
            DecodeError::BadName,
        ),
{
    lemma_long_chain_fails_message(data, max_hops, k);
}

/// Decoding a response fails where the name of the first question runs
/// through more compression pointers than the bound.
pub proof fn lemma_decode_long_chain_in_question(data: Seq<u8>, rtype: u16, max_hops: nat)
    requires
        data.len() >= HEADER_LEN,
        spec_header(data).qdcount >= 1,
        spec_pointer_chain(data, HEADER_LEN as int, max_hops + 1),
    ensures
        spec_decode_response(data, rtype, max_hops) == Err::<ParsedShape, DecodeError>(
            DecodeError::BadPointer,
        ) || spec_decode_response(data, rtype, max_hops) == Err::<ParsedShape, DecodeError>(
            DecodeError::BadName,
        ),
{
    lemma_long_chain_in_question_fails_message(data, max_hops);
}

} // verus!
