//! The result of an A lookup: IPv4 addresses with their time-to-live, the
//! canonical name and its aliases.

use vstd::prelude::*;
use vstd::string::*;
use crate::addr::Ipv4;
use crate::bytes::{read_u32, spec_u32_at};
use crate::cname::{host_names, spec_host_names};
use crate::error::{AresError, DecodeError};
use crate::message::{spec_parse_message, Message, MessageView, Record, CLASS_IN, TYPE_A};
use crate::name::{spec_names, DEFAULT_MAX_POINTER_HOPS};
use crate::records::{collect, spec_answers, spec_shapes, Extract};
use crate::text::{append_signed, spec_signed_text};

verus! {

/// The contents of a single A record.
#[derive(Clone, Copy, Debug, PartialEq, Eq, Structural)]
pub struct AResult {
    pub addr: Ipv4,
    pub ttl: i32,
}

/// The result of a successful A lookup.
#[derive(Debug, PartialEq, Eq)]
pub struct AResults {
    hostname: Vec<u8>,
    aliases: Vec<Vec<u8>>,
    addrs: Vec<AResult>,
}

/// What an `AResults` stands for.
pub struct AResultsView {
    /// The canonical name in dotted form.
    pub hostname: Seq<u8>,
    /// The names that are aliases of it, in wire order.
    pub aliases: Seq<Seq<u8>>,
    /// The A records of the answer section, in wire order.
    pub addrs: Seq<AResult>,
}

impl View for AResults {
    type V = AResultsView;

    closed spec fn view(&self) -> AResultsView {
        AResultsView {
            hostname: self.hostname@,
            aliases: spec_names(self.aliases@),
            addrs: self.addrs@,
        }
    }
}

/// Iterator of `AResult`s.
#[derive(Clone, Copy)]
pub struct AResultsIter<'a> {
    next: usize,
    results: &'a AResults,
}

/// What the record `rec` contributes to an A lookup: nothing unless it is an
/// A record, and then its address and time-to-live. An A record must be of
/// class IN and hold exactly four bytes.
pub open spec fn spec_a_of(data: Seq<u8>, rec: Record) -> Result<Option<AResult>, DecodeError> {
    if rec.rtype != TYPE_A {
        Ok(None)
    } else if rec.class != CLASS_IN {
        Err(DecodeError::UnsupportedClass)
    } else if rec.rdata_len != 4 {
        Err(DecodeError::BadRdata)
    } else {
        Ok(
            Some(
                AResult {
                    addr: Ipv4 { bits: spec_u32_at(data, rec.rdata_pos as int) as u32 },
                    ttl: rec.ttl,
                },
            ),
        )
    }
}

/// How A records are read: an address of exactly four bytes, class IN.
#[derive(Clone, Copy)]
pub struct ARecords;

impl Extract for ARecords {
    type Item = AResult;

    type Shape = AResult;

    open spec fn spec_shape(item: AResult) -> AResult {
        item
    }

    open spec fn spec_extract(&self, data: Seq<u8>, max_hops: nat, rec: Record) -> Result<
        Option<AResult>,
        DecodeError,
    > {
        spec_a_of(data, rec)
    }

    fn extract(&self, data: &[u8], max_hops: usize, rec: &Record) -> (r: Result<
        Option<AResult>,
        DecodeError,
    >) {
        if rec.rtype != TYPE_A {
            Ok(None)
        } else if rec.class != CLASS_IN {
            Err(DecodeError::UnsupportedClass)
        } else if rec.rdata_len != 4 {
            Err(DecodeError::BadRdata)
        } else {
            Ok(Some(AResult { addr: Ipv4 { bits: read_u32(data, rec.rdata_pos) }, ttl: rec.ttl }))
        }
    }
}

/// The result of an A lookup that the checked message `m` of `data` carries:
/// the A records of its answer section, and what its CNAME records say of
/// the name asked for.
pub open spec fn spec_a_from_message(data: Seq<u8>, max_hops: nat, m: MessageView) -> Result<
    AResultsView,
    DecodeError,
> {
    match spec_answers(ARecords, data, max_hops, m.answers()) {
        Err(e) => Err(e),
        Ok(addrs) => match spec_host_names(data, max_hops, m) {
            Err(e) => Err(e),
            Ok((hostname, aliases)) => Ok(AResultsView { hostname, aliases, addrs }),
        },
    }
}

/// The result of an A lookup that the response `data` carries.
pub open spec fn spec_parse_a(data: Seq<u8>, max_hops: nat) -> Result<AResultsView, AresError> {
    match spec_parse_message(data, max_hops) {
        Err(e) => Err(AresError::Decode(e)),
        Ok(m) => match spec_a_from_message(data, max_hops, m) {
            Err(e) => Err(AresError::Decode(e)),
            Ok(results) => Ok(results),
        },
    }
}

impl AResults {
    /// Obtain an `AResults` from a message whose structure has been checked.
    pub fn from_message(data: &[u8], max_hops: usize, m: &Message) -> (r: Result<
        AResults,
        DecodeError,
    >)
        requires
            m@.fits(data@),
        ensures
            match r {
                Ok(res) => spec_a_from_message(data@, max_hops as nat, m@) == Ok::<
                    AResultsView,
                    DecodeError,
                >(res@),
                Err(e) => spec_a_from_message(data@, max_hops as nat, m@) == Err::<
                    AResultsView,
                    DecodeError,
                >(e),
            },
    {
        let addrs = match collect(&ARecords, data, max_hops, m) {
            Err(e) => {
                return Err(e);
            },
            Ok(addrs) => addrs,
        };
        assert(spec_shapes::<ARecords>(addrs@) =~= addrs@);
        match host_names(data, max_hops, m) {
            Err(e) => Err(e),
            Ok((hostname, aliases)) => Ok(AResults { hostname, aliases, addrs }),
        }
    }

    /// Obtain an `AResults` from the response to an A lookup, following each
    /// name through at most `max_hops` compression pointers.
    pub fn parse_with(data: &[u8], max_hops: usize) -> (r: Result<AResults, AresError>)
        ensures
            match r {
                Ok(res) => spec_parse_a(data@, max_hops as nat) == Ok::<AResultsView, AresError>(
                    res@,
                ),
                Err(e) => spec_parse_a(data@, max_hops as nat) == Err::<AResultsView, AresError>(
                    e,
                ),
            },
    {
        match Message::parse(data, max_hops) {
            Err(e) => Err(AresError::Decode(e)),
            Ok(m) => match AResults::from_message(data, max_hops, &m) {
                Err(e) => Err(AresError::Decode(e)),
                Ok(results) => Ok(results),
            },
        }
    }

    /// Obtain an `AResults` from the response to an A lookup.
    pub fn parse_from(data: &[u8]) -> (r: Result<AResults, AresError>)
        ensures
            match r {
                Ok(res) => spec_parse_a(data@, DEFAULT_MAX_POINTER_HOPS as nat) == Ok::<
                    AResultsView,
                    AresError,
                >(res@),
                Err(e) => spec_parse_a(data@, DEFAULT_MAX_POINTER_HOPS as nat) == Err::<
                    AResultsView,
                    AresError,
                >(e),
            },
    {
        AResults::parse_with(data, DEFAULT_MAX_POINTER_HOPS)
    }

    /// Returns an iterator over the `AResult` values in this `AResults`.
    pub fn iter(&self) -> (it: AResultsIter<'_>)
        ensures
            it.spec_position() == 0,
            it.spec_results() == self@,
    {
        AResultsIter { next: 0, results: self }
    }

    /// The number of A records.
    pub fn len(&self) -> (n: usize)
        ensures
            n == self@.addrs.len(),
    {
        self.addrs.len()
    }

    /// The A record at position `i`, if there is one.
    pub fn get(&self, i: usize) -> (r: Option<AResult>)
        ensures
            r == if i < self@.addrs.len() {
                Some(self@.addrs[i as int])
            } else {
                None
            },
    {
        if i < self.addrs.len() {
            Some(self.addrs[i])
        } else {
            None
        }
    }

    /// The canonical name in dotted form.
    pub fn hostname(&self) -> (name: &[u8])
        ensures
            name@ == self@.hostname,
    {
        self.hostname.as_slice()
    }

    /// The number of aliases.
    pub fn alias_count(&self) -> (n: usize)
        ensures
            n == self@.aliases.len(),
    {
        self.aliases.len()
    }

    /// The alias at position `i`.
    pub fn alias(&self, i: usize) -> (name: &[u8])
        requires
            i < self@.aliases.len(),
        ensures
            name@ == self@.aliases[i as int],
    {
        self.aliases[i].as_slice()
    }

    /// The results as text: the records between square brackets, each
    /// between braces, with a comma and a space between two of them.
    pub fn to_text(&self) -> (text: String)
        ensures
            text@ == spec_results_text(self@.addrs),
    {
        proof {
            reveal_strlit("[");
            reveal_strlit("]");
            reveal_strlit(", {");
            reveal_strlit("{");
            reveal_strlit("}");
        }
        let mut text = String::new();
        text.append("[");
        let mut i: usize = 0;
        assert(self.addrs@.take(0) =~= Seq::<AResult>::empty());
        assert(text@ =~= seq!['['] + spec_records_text(self.addrs@.take(0)));
        while i < self.addrs.len()
            invariant
                i <= self.addrs@.len(),
                text@ == seq!['['] + spec_records_text(self.addrs@.take(i as int)),
            decreases self.addrs@.len() - i,
        {
            let ghost before = text@;
            proof {
                reveal_strlit(", {");
                reveal_strlit("{");
                reveal_strlit("}");
            }
            if i == 0 {
                text.append("{");
            } else {
                text.append(", {");
            }
            self.addrs[i].append_text(&mut text);
            text.append("}");
            proof {
                let shown = self.addrs@.take(i + 1);
                assert(shown.drop_last() =~= self.addrs@.take(i as int));
                assert(shown.last() == self.addrs@[i as int]);
                let item = spec_record_text(self.addrs@[i as int]);
                if i == 0 {
                    assert(spec_records_text(shown.drop_last()) =~= Seq::<char>::empty());
                    assert(text@ =~= before + seq!['{'] + item + seq!['}']);
                } else {
                    assert(text@ =~= before + seq![',', ' ', '{'] + item + seq!['}']);
                }
                assert(text@ =~= seq!['['] + spec_records_text(shown));
            }
            i = i + 1;
        }
        text.append("]");
        assert(self.addrs@.take(i as int) =~= self.addrs@);
        assert(text@ =~= spec_results_text(self@.addrs));
        text
    }

    /// The smallest time-to-live among the A records: the one value to use
    /// where the whole answer needs a single lifetime.
    pub fn min_ttl(&self) -> (r: Option<i32>)
        ensures
            r is None <==> self@.addrs.len() == 0,
            r matches Some(t) ==> (forall|i: int|
                0 <= i < self@.addrs.len() ==> t <= (#[trigger] self@.addrs[i]).ttl) && (exists|
                i: int,
            |
                0 <= i < self@.addrs.len() && (#[trigger] self@.addrs[i]).ttl == t),
    {
        if self.addrs.len() == 0 {
            return None;
        }
        let mut best: i32 = self.addrs[0].ttl;
        let mut at: Ghost<int> = Ghost(0);
        let mut i: usize = 1;
        while i < self.addrs.len()
            invariant
                1 <= i <= self.addrs@.len(),
                0 <= at@ < i,
                self.addrs@[at@].ttl == best,
                forall|j: int| 0 <= j < i ==> best <= (#[trigger] self.addrs@[j]).ttl,
            decreases self.addrs@.len() - i,
        {
            if self.addrs[i].ttl < best {
                best = self.addrs[i].ttl;
                proof {
                    at@ = i as int;
                }
            }
            i = i + 1;
        }
        assert(self@.addrs[at@].ttl == best);
        Some(best)
    }
}

impl<'a> AResultsIter<'a> {
    /// How many records the iterator has handed out.
    pub closed spec fn spec_position(self) -> int {
        self.next as int
    }

    /// The results the iterator walks over.
    pub closed spec fn spec_results(self) -> AResultsView {
        self.results@
    }

    /// The next record, or nothing once every record has been handed out.
    pub fn next(&mut self) -> (r: Option<AResult>)
        ensures
            final(self).spec_results() == old(self).spec_results(),
            old(self).spec_position() < old(self).spec_results().addrs.len() ==> r == Some(
                old(self).spec_results().addrs[old(self).spec_position()],
            ) && final(self).spec_position() == old(self).spec_position() + 1,
            old(self).spec_position() >= old(self).spec_results().addrs.len() ==> r.is_none()
                && final(self).spec_position() == old(self).spec_position(),
    {
        let next: usize = self.next;
        if next >= self.results.addrs.len() {
            None
        } else {
            self.next = next + 1;
            Some(self.results.addrs[next])
        }
    }
}

/// One record as text: the address, then the lifetime.
pub open spec fn spec_record_text(r: AResult) -> Seq<char> {
    "IPv4: "@ + r.addr.spec_text() + ", TTL: "@ + spec_signed_text(r.ttl as int) + ", "@
}

/// The records as text, each between braces, with a comma and a space
/// between two of them.
pub open spec fn spec_records_text(rs: Seq<AResult>) -> Seq<char>
    decreases rs.len(),
{
    if rs.len() == 0 {
        Seq::empty()
    } else if rs.len() == 1 {
        seq!['{'] + spec_record_text(rs.last()) + seq!['}']
    } else {
        spec_records_text(rs.drop_last()) + seq![',', ' ', '{'] + spec_record_text(rs.last())
            + seq!['}']
    }
}

/// The records as text between square brackets.
pub open spec fn spec_results_text(rs: Seq<AResult>) -> Seq<char> {
    seq!['['] + spec_records_text(rs) + seq![']']
}

impl AResult {
    /// Appends the record as text.
    pub fn append_text(&self, out: &mut String)
        ensures
            final(out)@ == old(out)@ + spec_record_text(*self),
    {
        out.append("IPv4: ");
        self.addr.append_text(out);
        out.append(", TTL: ");
        append_signed(out, self.ttl as i64);
        out.append(", ");
        assert(out@ =~= old(out)@ + spec_record_text(*self));
    }

    /// The record as text: the address, then the lifetime.
    pub fn to_text(&self) -> (text: String)
        ensures
            text@ == spec_record_text(*self),
    {
        let mut text = String::new();
        self.append_text(&mut text);
        assert(text@ =~= spec_record_text(*self));
        text
    }

    /// Returns the IPv4 address in this `AResult`.
    pub fn ipv4(&self) -> (ip: Ipv4)
        ensures
            ip == self.addr,
    {
        self.addr
    }

    /// Returns the time-to-live in this `AResult`.
    pub fn ttl(&self) -> (t: i32)
        ensures
            t == self.ttl,
    {
        self.ttl
    }
}

/// What the completion handler of an A query is to be called with: the error
/// the query ended with, or else what the response bytes decode to.
///
/// `timeouts` is the number of attempts that ran out of time before the query
/// ended; it does not change the result.
pub fn query_a_callback(status: Option<AresError>, timeouts: u32, abuf: &[u8]) -> (r: Result<
    AResults,
    AresError,
>)
    ensures
        match status {
            Some(e) => r == Err::<AResults, AresError>(e),
            None => match r {
                Ok(res) => spec_parse_a(abuf@, DEFAULT_MAX_POINTER_HOPS as nat) == Ok::<
                    AResultsView,
                    AresError,
                >(res@),
                Err(e) => spec_parse_a(abuf@, DEFAULT_MAX_POINTER_HOPS as nat) == Err::<
                    AResultsView,
                    AresError,
                >(e),
            },
        },
{
    match status {
        Some(e) => Err(e),
        None => AResults::parse_from(abuf),
    }
}

} // verus!
