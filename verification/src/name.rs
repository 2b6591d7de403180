//! Domain names: the dotted form a caller writes and the label-prefixed form
//! on the wire, with compression pointers on the way in.

use vstd::prelude::*;
use crate::bytes::push_range;
use crate::error::{ConfigError, DecodeError};

verus! {

/// The byte that separates labels in the dotted form.
pub const DOT: u8 = 46;

/// The longest label, in bytes.
pub const MAX_LABEL: usize = 63;

/// The longest name on the wire, length bytes and root label included.
pub const MAX_WIRE_NAME: usize = 255;

/// The longest name in dotted form without a trailing dot.
pub const MAX_DOTTED_NAME: usize = 253;

/// How many compression pointers one name may run through unless the caller
/// configures another bound.
pub const DEFAULT_MAX_POINTER_HOPS: usize = 128;

/// `acc` with `label` added as its last label.
pub open spec fn spec_join(acc: Seq<u8>, label: Seq<u8>) -> Seq<u8> {
    if acc.len() == 0 {
        label
    } else {
        acc + seq![DOT] + label
    }
}

/// Where a compression pointer at `pos` points.
pub open spec fn spec_pointer_target(data: Seq<u8>, pos: int) -> int {
    (data[pos] as int - 192) * 256 + data[pos + 1] as int
}

/// The dotted name read by starting at `pos` with `acc` already collected and
/// `hops` pointers still allowed.
///
/// A length byte below 64 introduces a label, one from 192 up is the first
/// byte of a pointer, and anything between is reserved. A pointer must point
/// strictly before itself.
pub open spec fn spec_name_walk(data: Seq<u8>, pos: int, hops: nat, acc: Seq<u8>) -> Result<
    Seq<u8>,
    DecodeError,
>
    decreases hops, data.len() - pos,
{
    if pos < 0 || pos >= data.len() {
        Err(DecodeError::Truncated)
    } else {
        let b = data[pos] as int;
        if b == 0 {
            Ok(acc)
        } else if b >= 192 {
            if pos + 1 >= data.len() {
                Err(DecodeError::Truncated)
            } else if spec_pointer_target(data, pos) >= pos {
                Err(DecodeError::BadPointer)
            } else if hops == 0 {
                Err(DecodeError::BadPointer)
            } else {
                spec_name_walk(data, spec_pointer_target(data, pos), (hops - 1) as nat, acc)
            }
        } else if b >= 64 {
            Err(DecodeError::BadName)
        } else if pos + 1 + b > data.len() {
            Err(DecodeError::Truncated)
        } else {
            let joined = spec_join(acc, data.subrange(pos + 1, pos + 1 + b));
            if joined.len() > MAX_DOTTED_NAME {
                Err(DecodeError::BadName)
            } else {
                spec_name_walk(data, pos + 1 + b, hops, joined)
            }
        }
    }
}

/// The offset just behind the name that starts at `pos`: behind its root label
/// or behind its first pointer, whichever comes first.
pub open spec fn spec_name_end(data: Seq<u8>, pos: int) -> int
    decreases data.len() - pos,
{
    if pos < 0 || pos >= data.len() {
        pos
    } else {
        let b = data[pos] as int;
        if b == 0 {
            pos + 1
        } else if b >= 192 {
            pos + 2
        } else if b >= 64 || pos + 1 + b > data.len() {
            pos
        } else {
            spec_name_end(data, pos + 1 + b)
        }
    }
}

/// The name that starts at `pos` and the offset behind it.
pub open spec fn spec_decode_name(data: Seq<u8>, pos: int, max_hops: nat) -> Result<
    (Seq<u8>, int),
    DecodeError,
> {
    match spec_name_walk(data, pos, max_hops, Seq::empty()) {
        Ok(name) => Ok((name, spec_name_end(data, pos))),
        Err(e) => Err(e),
    }
}

/// Decodes the name that starts at `start`, following at most `max_hops`
/// compression pointers, and returns it in dotted form together with the
/// offset at which the enclosing structure continues.
pub fn decode_name(data: &[u8], start: usize, max_hops: usize) -> (r: Result<
    (Vec<u8>, usize),
    DecodeError,
>)
    ensures
        match r {
            Ok((name, end)) => spec_decode_name(data@, start as int, max_hops as nat) == Ok::<
                (Seq<u8>, int),
                DecodeError,
            >((name@, end as int)) && start < end <= data@.len(),
            Err(e) => spec_decode_name(data@, start as int, max_hops as nat) == Err::<
                (Seq<u8>, int),
                DecodeError,
            >(e),
        },
{
    let mut pos: usize = start;
    let mut hops: usize = max_hops;
    let mut acc: Vec<u8> = Vec::new();
    let mut end: usize = 0;
    let mut jumped: bool = false;
    loop
        invariant
            spec_name_walk(data@, start as int, max_hops as nat, Seq::empty()) == spec_name_walk(
                data@,
                pos as int,
                hops as nat,
                acc@,
            ),
            jumped ==> end as int == spec_name_end(data@, start as int) && start < end
                <= data@.len(),
            !jumped ==> spec_name_end(data@, start as int) == spec_name_end(data@, pos as int)
                && start <= pos,
            acc@.len() <= MAX_DOTTED_NAME,
        decreases hops, data@.len() - pos,
    {
        if pos >= data.len() {
            return Err(DecodeError::Truncated);
        }
        let b: u8 = data[pos];
        if b == 0 {
            if !jumped {
                end = pos + 1;
            }
            return Ok((acc, end));
        } else if b >= 192 {
            if pos + 1 >= data.len() {
                return Err(DecodeError::Truncated);
            }
            let target: usize = (b as usize - 192) * 256 + data[pos + 1] as usize;
            if target >= pos {
                return Err(DecodeError::BadPointer);
            }
            if hops == 0 {
                return Err(DecodeError::BadPointer);
            }
            if !jumped {
                end = pos + 2;
                jumped = true;
            }
            pos = target;
            hops = hops - 1;
        } else if b >= 64 {
            return Err(DecodeError::BadName);
        } else {
            let len: usize = b as usize;
            if len > data.len() - pos - 1 {
                return Err(DecodeError::Truncated);
            }
            let extra: usize = if acc.len() == 0 {
                len
            } else {
                len + 1
            };
            if acc.len() + extra > MAX_DOTTED_NAME {
                return Err(DecodeError::BadName);
            }
            let ghost before = acc@;
            if acc.len() > 0 {
                acc.push(DOT);
            }
            push_range(&mut acc, data, pos + 1, pos + 1 + len);
            assert(acc@ =~= spec_join(before, data@.subrange(pos + 1, pos + 1 + len)));
            pos = pos + 1 + len;
        }
    }
}

/// True when the name that starts at `pos` runs through at least `n`
/// compression pointers, with every label and pointer before the last of them
/// inside the buffer.
pub open spec fn spec_pointer_chain(data: Seq<u8>, pos: int, n: nat) -> bool
    decreases n, data.len() - pos,
{
    if n == 0 {
        true
    } else if pos < 0 || pos >= data.len() {
        false
    } else {
        let b = data[pos] as int;
        if b == 0 {
            false
        } else if b >= 192 {
            pos + 1 < data.len() && spec_pointer_chain(
                data,
                spec_pointer_target(data, pos),
                (n - 1) as nat,
            )
        } else if b >= 64 {
            false
        } else {
            pos + 1 + b <= data.len() && spec_pointer_chain(data, pos + 1 + b, n)
        }
    }
}

/// A name whose chain of compression pointers is longer than the bound is
/// refused, whatever has been collected of it: the walk ends with
/// `BadPointer`, or with `BadName` where the name grew too long on the way.
pub proof fn lemma_long_chain_is_refused(data: Seq<u8>, pos: int, max_hops: nat, acc: Seq<u8>)
    requires
        spec_pointer_chain(data, pos, max_hops + 1),
    ensures
        spec_name_walk(data, pos, max_hops, acc) == Err::<Seq<u8>, DecodeError>(
            DecodeError::BadPointer,
        ) || spec_name_walk(data, pos, max_hops, acc) == Err::<Seq<u8>, DecodeError>(
            DecodeError::BadName,
        ),
    decreases max_hops, data.len() - pos,
{
    let b = data[pos] as int;
    if b >= 192 {
        if spec_pointer_target(data, pos) < pos && max_hops > 0 {
            lemma_long_chain_is_refused(
                data,
                spec_pointer_target(data, pos),
                (max_hops - 1) as nat,
                acc,
            );
        }
    } else {
        let joined = spec_join(acc, data.subrange(pos + 1, pos + 1 + b));
        if joined.len() <= MAX_DOTTED_NAME {
            lemma_long_chain_is_refused(data, pos + 1 + b, max_hops, joined);
        }
    }
}

/// Decoding a name whose chain of compression pointers is longer than the
/// bound fails.
pub proof fn lemma_decode_refuses_long_chain(data: Seq<u8>, pos: int, max_hops: nat)
    requires
        spec_pointer_chain(data, pos, max_hops + 1),
    ensures
        spec_decode_name(data, pos, max_hops) == Err::<(Seq<u8>, int), DecodeError>(
            DecodeError::BadPointer,
        ) || spec_decode_name(data, pos, max_hops) == Err::<(Seq<u8>, int), DecodeError>(
            DecodeError::BadName,
        ),
{
    lemma_long_chain_is_refused(data, pos, max_hops, Seq::empty());
}

/// The end of the label that starts at `from` in a dotted name: the offset of
/// the next dot, or the length of the name where none follows.
pub open spec fn spec_label_end(name: Seq<u8>, from: int) -> int
    decreases name.len() - from,
{
    if from < 0 || from >= name.len() || name[from] == DOT {
        from
    } else {
        spec_label_end(name, from + 1)
    }
}

/// The wire form of the labels of `name` from offset `from` on, closed by the
/// root label. Every label has between one and `MAX_LABEL` bytes; one dot
/// behind the last label is allowed.
pub open spec fn spec_encode_labels(name: Seq<u8>, from: int) -> Result<Seq<u8>, ConfigError>
    decreases name.len() - from,
{
    let stop = spec_label_end(name, from);
    let len = stop - from;
    if len <= 0 || len > MAX_LABEL {
        Err(ConfigError::BadLabel)
    } else if stop >= name.len() - 1 {
        Ok(seq![len as u8] + name.subrange(from, stop) + seq![0u8])
    } else {
        match spec_encode_labels(name, stop + 1) {
            Err(e) => Err(e),
            Ok(rest) => Ok(seq![len as u8] + name.subrange(from, stop) + rest),
        }
    }
}

/// The wire form of the dotted name `name`. The empty name and a single dot
/// stand for the root. A name whose wire form is longer than `MAX_WIRE_NAME`
/// is refused, not cut.
pub open spec fn spec_encode_name(name: Seq<u8>) -> Result<Seq<u8>, ConfigError> {
    if name.len() == 0 || (name.len() == 1 && name[0] == DOT) {
        Ok(seq![0u8])
    } else {
        match spec_encode_labels(name, 0) {
            Err(e) => Err(e),
            Ok(wire) => if wire.len() > MAX_WIRE_NAME {
                Err(ConfigError::NameTooLong)
            } else {
                Ok(wire)
            },
        }
    }
}

/// `rest` with `prefix` put in front, where there is a `rest`.
pub open spec fn spec_prepend(prefix: Seq<u8>, rest: Result<Seq<u8>, ConfigError>) -> Result<
    Seq<u8>,
    ConfigError,
> {
    match rest {
        Err(e) => Err(e),
        Ok(bytes) => Ok(prefix + bytes),
    }
}

/// Finds the end of the label that starts at `from`.
fn label_end(name: &[u8], from: usize) -> (end: usize)
    requires
        from <= name@.len(),
    ensures
        end as int == spec_label_end(name@, from as int),
        from <= end <= name@.len(),
{
    let mut i: usize = from;
    while i < name.len() && name[i] != DOT
        invariant
            from <= i <= name@.len(),
            spec_label_end(name@, from as int) == spec_label_end(name@, i as int),
        decreases name@.len() - i,
    {
        i = i + 1;
    }
    i
}

/// Encodes the dotted name `name` for the wire.
pub fn encode_name(name: &[u8]) -> (r: Result<Vec<u8>, ConfigError>)
    ensures
        match r {
            Ok(wire) => spec_encode_name(name@) == Ok::<Seq<u8>, ConfigError>(wire@),
            Err(e) => spec_encode_name(name@) == Err::<Seq<u8>, ConfigError>(e),
        },
{
    let mut out: Vec<u8> = Vec::new();
    if name.len() == 0 || (name.len() == 1 && name[0] == DOT) {
        out.push(0);
        assert(out@ =~= seq![0u8]);
        return Ok(out);
    }
    let mut from: usize = 0;
    assert(Seq::<u8>::empty() + spec_encode_labels(name@, 0)->Ok_0 =~= spec_encode_labels(
        name@,
        0,
    )->Ok_0);
    loop
        invariant_except_break
            from < name@.len(),
            spec_encode_labels(name@, 0) == spec_prepend(
                out@,
                spec_encode_labels(name@, from as int),
            ),
        invariant
            !(name@.len() == 0 || (name@.len() == 1 && name@[0] == DOT)),
        ensures
            spec_encode_labels(name@, 0) == Ok::<Seq<u8>, ConfigError>(out@),
        decreases name@.len() - from,
    {
        let stop: usize = label_end(name, from);
        let len: usize = stop - from;
        if len == 0 || len > MAX_LABEL {
            return Err(ConfigError::BadLabel);
        }
        let ghost before = out@;
        out.push(len as u8);
        push_range(&mut out, name, from, stop);
        if stop >= name.len() - 1 {
            out.push(0);
            assert(out@ =~= before + (seq![len as u8] + name@.subrange(from as int, stop as int)
                + seq![0u8]));
            break;
        }
        proof {
            let rest = spec_encode_labels(name@, stop + 1);
            if rest is Ok {
                assert(before + (seq![len as u8] + name@.subrange(from as int, stop as int)
                    + rest->Ok_0) =~= out@ + rest->Ok_0);
            }
        }
        from = stop + 1;
    }
    if out.len() > MAX_WIRE_NAME {
        return Err(ConfigError::NameTooLong);
    }
    Ok(out)
}

/// Checks a dotted name against the limits of the wire form without encoding
/// it: labels of one to `MAX_LABEL` bytes and a wire form of at most
/// `MAX_WIRE_NAME` bytes.
pub fn validate_hostname(name: &[u8]) -> (r: Result<(), ConfigError>)
    ensures
        match r {
            Ok(_) => spec_encode_name(name@) is Ok,
            Err(e) => spec_encode_name(name@) == Err::<Seq<u8>, ConfigError>(e),
        },
{
    match encode_name(name) {
        Ok(_) => Ok(()),
        Err(e) => Err(e),
    }
}

/// A dotted name without the one dot that may close it.
pub open spec fn spec_strip_dot(name: Seq<u8>) -> Seq<u8> {
    if name.len() > 0 && name.last() == DOT {
        name.drop_last()
    } else {
        name
    }
}

/// A label ends at a dot or at the end of the name and holds no dot itself.
pub proof fn lemma_label_end(name: Seq<u8>, from: int)
    requires
        0 <= from <= name.len(),
    ensures
        from <= spec_label_end(name, from) <= name.len(),
        spec_label_end(name, from) < name.len() ==> name[spec_label_end(name, from)] == DOT,
        forall|i: int| from <= i < spec_label_end(name, from) ==> name[i] != DOT,
    decreases name.len() - from,
{
    if from < name.len() && name[from] != DOT {
        lemma_label_end(name, from + 1);
    }
}

/// The wire form of the labels from `from` on is two bytes longer than what
/// is left of the dotted name.
pub proof fn lemma_encoded_len(name: Seq<u8>, from: int)
    requires
        0 <= from < name.len(),
        spec_encode_labels(name, from) is Ok,
    ensures
        spec_encode_labels(name, from)->Ok_0.len() == spec_strip_dot(name).len() - from + 2,
    decreases name.len() - from,
{
    lemma_label_end(name, from);
    let stop = spec_label_end(name, from);
    if stop < name.len() - 1 {
        lemma_encoded_len(name, stop + 1);
    }
}

/// Walking over the wire form of the labels of `name` from `from` on, with
/// the labels before them already collected, yields the dotted name and ends
/// behind the root label.
pub proof fn lemma_walk_encoded(
    data: Seq<u8>,
    pos: int,
    hops: nat,
    acc: Seq<u8>,
    name: Seq<u8>,
    from: int,
)
    requires
        0 <= from < name.len(),
        spec_encode_labels(name, from) is Ok,
        0 <= pos,
        pos + spec_encode_labels(name, from)->Ok_0.len() <= data.len(),
        forall|j: int|
            0 <= j < spec_encode_labels(name, from)->Ok_0.len() ==> #[trigger] data[pos + j]
                == spec_encode_labels(name, from)->Ok_0[j],
        from == 0 ==> acc.len() == 0,
        from > 0 ==> acc == name.subrange(0, from - 1) && from > 1 && name[from - 1] == DOT,
        spec_strip_dot(name).len() <= MAX_DOTTED_NAME,
    ensures
        spec_name_walk(data, pos, hops, acc) == Ok::<Seq<u8>, DecodeError>(spec_strip_dot(name)),
        spec_name_end(data, pos) == pos + spec_encode_labels(name, from)->Ok_0.len(),
    decreases name.len() - from,
{
    lemma_label_end(name, from);
    let wire = spec_encode_labels(name, from)->Ok_0;
    let stop = spec_label_end(name, from);
    let len = stop - from;
    let label = name.subrange(from, stop);
    assert(data[pos + 0] == wire[0]);
    assert(data[pos] as int == len);
    assert(data.subrange(pos + 1, pos + 1 + len) =~= label) by {
        assert forall|j: int| 0 <= j < len implies data[pos + 1 + j] == label[j] by {
            assert(data[pos + (1 + j)] == wire[1 + j]);
        }
    }
    let joined = spec_join(acc, label);
    assert(joined =~= name.subrange(0, stop));
    if stop >= name.len() - 1 {
        assert(data[pos + (1 + len)] == wire[1 + len]);
        assert(joined =~= spec_strip_dot(name));
        assert(spec_name_walk(data, pos + 1 + len, hops, joined) == Ok::<Seq<u8>, DecodeError>(
            joined,
        ));
        assert(spec_name_end(data, pos + 1 + len) == pos + 1 + len + 1);
    } else {
        let rest = spec_encode_labels(name, stop + 1)->Ok_0;
        assert forall|j: int| 0 <= j < rest.len() implies #[trigger] data[pos + 1 + len + j]
            == rest[j] by {
            assert(data[pos + (1 + len + j)] == wire[1 + len + j]);
        }
        lemma_walk_encoded(data, pos + 1 + len, hops, joined, name, stop + 1);
    }
}

/// Decoding the wire form of a dotted name gives the name back, without the
/// dot that may close it, and ends right behind the wire form.
pub proof fn lemma_decode_encoded(data: Seq<u8>, pos: int, max_hops: nat, name: Seq<u8>)
    requires
        spec_encode_name(name) is Ok,
        0 <= pos,
        pos + spec_encode_name(name)->Ok_0.len() <= data.len(),
        forall|j: int|
            0 <= j < spec_encode_name(name)->Ok_0.len() ==> #[trigger] data[pos + j]
                == spec_encode_name(name)->Ok_0[j],
    ensures
        spec_decode_name(data, pos, max_hops) == Ok::<(Seq<u8>, int), DecodeError>(
            (spec_strip_dot(name), pos + spec_encode_name(name)->Ok_0.len()),
        ),
        spec_strip_dot(name).len() <= MAX_DOTTED_NAME,
{
    let wire = spec_encode_name(name)->Ok_0;
    assert(data[pos + 0] == wire[0]);
    if name.len() == 0 || (name.len() == 1 && name[0] == DOT) {
        assert(spec_strip_dot(name) =~= Seq::<u8>::empty());
    } else {
        lemma_encoded_len(name, 0);
        lemma_walk_encoded(data, pos, max_hops, Seq::empty(), name, 0);
    }
}

/// The names held by a list of byte vectors.
pub open spec fn spec_names(v: Seq<Vec<u8>>) -> Seq<Seq<u8>> {
    Seq::new(v.len(), |i: int| v[i]@)
}

/// Appends `name` to `names`.
pub fn push_name(names: &mut Vec<Vec<u8>>, name: Vec<u8>)
    ensures
        spec_names(final(names)@) == spec_names(old(names)@).push(name@),
{
    names.push(name);
    assert(spec_names(names@) =~= spec_names(old(names)@).push(name@));
}

} // verus!
