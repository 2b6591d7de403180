//! Canonical names: what the CNAME records of an answer say about the name
//! that was asked for.

use vstd::prelude::*;
use crate::error::DecodeError;
use crate::message::{
    lemma_collect_error_stays, lemma_collect_step, name_in_body, spec_collect,
    spec_name_in_body, Message, MessageView, Record, CLASS_IN, TYPE_CNAME,
};
use crate::name::{decode_name, push_name, spec_decode_name, spec_names};

verus! {

/// True for a CNAME record of class IN.
pub open spec fn spec_is_cname(rec: Record) -> bool {
    rec.rtype == TYPE_CNAME && rec.class == CLASS_IN
}

/// The owner name of `rec` if it is a CNAME record: a name that is an alias.
pub open spec fn spec_alias_of(data: Seq<u8>, max_hops: nat, rec: Record) -> Result<
    Option<Seq<u8>>,
    DecodeError,
> {
    if !spec_is_cname(rec) {
        Ok(None)
    } else {
        match spec_decode_name(data, rec.name_pos as int, max_hops) {
            Err(e) => Err(e),
            Ok((name, _)) => Ok(Some(name)),
        }
    }
}

/// The name `rec` points to if it is a CNAME record.
pub open spec fn spec_target_of(data: Seq<u8>, max_hops: nat, rec: Record) -> Result<
    Option<Seq<u8>>,
    DecodeError,
> {
    if !spec_is_cname(rec) {
        Ok(None)
    } else {
        match spec_name_in_body(data, max_hops, rec, 0) {
            Err(e) => Err(e),
            Ok(name) => Ok(Some(name)),
        }
    }
}

/// `spec_alias_of` for the records of one message, as a function of the
/// record.
pub open spec fn spec_alias_extractor(data: Seq<u8>, max_hops: nat) -> spec_fn(Record) -> Result<
    Option<Seq<u8>>,
    DecodeError,
> {
    |rec: Record| spec_alias_of(data, max_hops, rec)
}

/// `spec_target_of` for the records of one message, as a function of the
/// record.
pub open spec fn spec_target_extractor(data: Seq<u8>, max_hops: nat) -> spec_fn(Record) -> Result<
    Option<Seq<u8>>,
    DecodeError,
> {
    |rec: Record| spec_target_of(data, max_hops, rec)
}

/// The name of the first question, or the empty name where the message asks
/// nothing.
pub open spec fn spec_question_name(data: Seq<u8>, max_hops: nat, m: MessageView) -> Result<
    Seq<u8>,
    DecodeError,
> {
    if m.questions.len() == 0 {
        Ok(Seq::empty())
    } else {
        match spec_decode_name(data, m.questions[0].name_pos as int, max_hops) {
            Err(e) => Err(e),
            Ok((name, _)) => Ok(name),
        }
    }
}

/// The aliases and the canonical name an answer gives: every CNAME owner in
/// wire order, and the target of the last CNAME record, or the name asked for
/// where the answer holds no CNAME record.
pub open spec fn spec_host_names(data: Seq<u8>, max_hops: nat, m: MessageView) -> Result<
    (Seq<u8>, Seq<Seq<u8>>),
    DecodeError,
> {
    match spec_collect(m.answers(), spec_alias_extractor(data, max_hops)) {
        Err(e) => Err(e),
        Ok(aliases) => match spec_collect(m.answers(), spec_target_extractor(data, max_hops)) {
            Err(e) => Err(e),
            Ok(targets) => if targets.len() > 0 {
                Ok((targets.last(), aliases))
            } else {
                match spec_question_name(data, max_hops, m) {
                    Err(e) => Err(e),
                    Ok(name) => Ok((name, aliases)),
                }
            },
        },
    }
}

/// Reads the canonical name and the aliases out of the answer section.
pub fn host_names(data: &[u8], max_hops: usize, m: &Message) -> (r: Result<
    (Vec<u8>, Vec<Vec<u8>>),
    DecodeError,
>)
    requires
        m@.fits(data@),
    ensures
        match r {
            Ok((hostname, aliases)) => spec_host_names(data@, max_hops as nat, m@) == Ok::<
                (Seq<u8>, Seq<Seq<u8>>),
                DecodeError,
            >((hostname@, spec_names(aliases@))),
            Err(e) => spec_host_names(data@, max_hops as nat, m@) == Err::<
                (Seq<u8>, Seq<Seq<u8>>),
                DecodeError,
            >(e),
        },
{
    let n: usize = m.answer_count();
    let ghost answers = m@.answers();
    let ghost alias_of = spec_alias_extractor(data@, max_hops as nat);
    let ghost target_of = spec_target_extractor(data@, max_hops as nat);
    let mut aliases: Vec<Vec<u8>> = Vec::new();
    let mut i: usize = 0;
    assert(answers.take(0) =~= Seq::<Record>::empty());
    assert(spec_names(aliases@) =~= Seq::<Seq<u8>>::empty());
    while i < n
        invariant
            i <= n == answers.len(),
            answers == m@.answers(),
            n <= m.records@.len(),
            n == m@.header.ancount,
            alias_of == spec_alias_extractor(data@, max_hops as nat),
            spec_collect(answers.take(i as int), alias_of) == Ok::<Seq<Seq<u8>>, DecodeError>(
                spec_names(aliases@),
            ),
        decreases n - i,
    {
        let rec: Record = m.records[i];
        proof {
            lemma_collect_step(answers, alias_of, i as int);
            assert(answers[i as int] == rec);
            assert(alias_of(rec) == spec_alias_of(data@, max_hops as nat, rec));
        }
        if rec.rtype == TYPE_CNAME && rec.class == CLASS_IN {
            match decode_name(data, rec.name_pos, max_hops) {
                Err(e) => {
                    proof {
                        lemma_collect_error_stays(answers, alias_of, i + 1);
                    }
                    return Err(e);
                },
                Ok((name, _)) => {
                    push_name(&mut aliases, name);
                },
            }
        }
        i = i + 1;
    }
    assert(answers.take(n as int) =~= answers);
    let mut last: Option<Vec<u8>> = None;
    let ghost mut targets: Seq<Seq<u8>> = Seq::empty();
    i = 0;
    while i < n
        invariant
            i <= n == answers.len(),
            answers == m@.answers(),
            n <= m.records@.len(),
            n == m@.header.ancount,
            m@.fits(data@),
            spec_collect(answers, spec_alias_extractor(data@, max_hops as nat)) == Ok::<
                Seq<Seq<u8>>,
                DecodeError,
            >(spec_names(aliases@)),
            target_of == spec_target_extractor(data@, max_hops as nat),
            spec_collect(answers.take(i as int), target_of) == Ok::<Seq<Seq<u8>>, DecodeError>(
                targets,
            ),
            match last {
                None => targets.len() == 0,
                Some(name) => targets.len() > 0 && targets.last() == name@,
            },
        decreases n - i,
    {
        let rec: Record = m.records[i];
        proof {
            lemma_collect_step(answers, target_of, i as int);
            assert(answers[i as int] == rec);
            assert(m@.records[i as int] == rec);
            assert(target_of(rec) == spec_target_of(data@, max_hops as nat, rec));
        }
        if rec.rtype == TYPE_CNAME && rec.class == CLASS_IN {
            match name_in_body(data, max_hops, &rec, 0) {
                Err(e) => {
                    proof {
                        lemma_collect_error_stays(answers, target_of, i + 1);
                    }
                    return Err(e);
                },
                Ok(name) => {
                    proof {
                        targets = targets.push(name@);
                    }
                    last = Some(name);
                },
            }
        }
        i = i + 1;
    }
    match last {
        Some(name) => Ok((name, aliases)),
        None => {
            if m.questions.len() == 0 {
                Ok((Vec::new(), aliases))
            } else {
                match decode_name(data, m.questions[0].name_pos, max_hops) {
                    Err(e) => Err(e),
                    Ok((name, _)) => Ok((name, aliases)),
                }
            }
        },
    }
}

} // verus!
