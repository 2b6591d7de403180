//! Version numbers of the form `major_minor_patch` and the features a version
//! of the resolver brings.

use vstd::prelude::*;
use vstd::string::*;

verus! {

/// The byte that separates the fields of a version.
pub const SEPARATOR: u8 = 95;

/// The byte of the optional plus sign in front of a number.
pub const PLUS: u8 = 43;

/// True for the bytes `0` to `9`.
pub open spec fn spec_is_digit(b: u8) -> bool {
    48 <= b <= 57
}

/// The value of the digit `b`, and 0 for any other byte.
pub open spec fn spec_digit_value(b: u8) -> nat {
    if spec_is_digit(b) {
        (b - 48) as nat
    } else {
        0
    }
}

/// True when every byte of `s` is a digit.
pub open spec fn spec_all_digits(s: Seq<u8>) -> bool {
    forall|i: int| 0 <= i < s.len() ==> spec_is_digit(#[trigger] s[i])
}

/// The number that the digits of `s` spell in base ten.
pub open spec fn spec_decimal(s: Seq<u8>) -> nat
    decreases s.len(),
{
    if s.len() == 0 {
        0
    } else {
        spec_decimal(s.drop_last()) * 10 + spec_digit_value(s.last())
    }
}

/// The unsigned 64-bit number that `s` spells: an optional plus sign, then at
/// least one digit, and a value that fits.
pub open spec fn spec_number(s: Seq<u8>) -> Option<u64> {
    let digits = if s.len() > 0 && s[0] == PLUS {
        s.subrange(1, s.len() as int)
    } else {
        s
    };
    if digits.len() == 0 || !spec_all_digits(digits) || spec_decimal(digits) > u64::MAX {
        None
    } else {
        Some(spec_decimal(digits) as u64)
    }
}

/// The end of the field that starts at `from`: the offset of the next
/// separator, or the length of `s` where none follows.
pub open spec fn spec_field_end(s: Seq<u8>, from: int) -> int
    decreases s.len() - from,
{
    if from < 0 || from >= s.len() || s[from] == SEPARATOR {
        from
    } else {
        spec_field_end(s, from + 1)
    }
}

/// Major, minor and patch number in one value: sixteen bits up, eight bits
/// up, and as it is.
pub open spec fn spec_pack(major: u64, minor: u64, patch: u64) -> u64 {
    (major << 16) | (minor << 8) | patch
}

/// The version that `s` spells: its first three fields, each a number. Fields
/// behind the third are ignored.
pub open spec fn spec_version(s: Seq<u8>) -> Option<u64> {
    let e0 = spec_field_end(s, 0);
    let e1 = spec_field_end(s, e0 + 1);
    let e2 = spec_field_end(s, e1 + 1);
    if e0 >= s.len() || e1 >= s.len() {
        None
    } else {
        match (
            spec_number(s.subrange(0, e0)),
            spec_number(s.subrange(e0 + 1, e1)),
            spec_number(s.subrange(e1 + 1, e2)),
        ) {
            (Some(major), Some(minor), Some(patch)) => Some(spec_pack(major, minor, patch)),
            _ => None,
        }
    }
}

/// The digits of a prefix spell no more than the digits of the whole.
pub proof fn lemma_decimal_grows(s: Seq<u8>, k: int)
    requires
        0 <= k <= s.len(),
    ensures
        spec_decimal(s.take(k)) <= spec_decimal(s),
    decreases s.len() - k,
{
    if k == s.len() {
        assert(s.take(k) =~= s);
    } else {
        lemma_decimal_grows(s, k + 1);
        assert(s.take(k + 1).drop_last() =~= s.take(k));
    }
}

/// Finds the end of the field that starts at `from`.
fn field_end(s: &[u8], from: usize) -> (end: usize)
    requires
        from <= s@.len(),
    ensures
        end as int == spec_field_end(s@, from as int),
        from <= end <= s@.len(),
{
    let mut i: usize = from;
    while i < s.len() && s[i] != SEPARATOR
        invariant
            from <= i <= s@.len(),
            spec_field_end(s@, from as int) == spec_field_end(s@, i as int),
        decreases s@.len() - i,
    {
        i = i + 1;
    }
    i
}

/// Reads the number that `s[from..to]` spells.
fn parse_number(s: &[u8], from: usize, to: usize) -> (r: Option<u64>)
    requires
        from <= to <= s@.len(),
    ensures
        r == spec_number(s@.subrange(from as int, to as int)),
{
    let ghost field = s@.subrange(from as int, to as int);
    let start: usize = if from < to && s[from] == PLUS {
        from + 1
    } else {
        from
    };
    let ghost digits = s@.subrange(start as int, to as int);
    assert(digits =~= if field.len() > 0 && field[0] == PLUS {
        field.subrange(1, field.len() as int)
    } else {
        field
    });
    if start == to {
        return None;
    }
    let mut acc: u64 = 0;
    let mut i: usize = start;
    assert(digits.take(0) =~= Seq::<u8>::empty());
    while i < to
        invariant
            start <= i <= to <= s@.len(),
            digits == s@.subrange(start as int, to as int),
            digits.len() > 0,
            spec_number(s@.subrange(from as int, to as int)) == if !spec_all_digits(digits)
                || spec_decimal(digits) > u64::MAX {
                None
            } else {
                Some(spec_decimal(digits) as u64)
            },
            spec_all_digits(digits.take(i - start)),
            acc as nat == spec_decimal(digits.take(i - start)),
        decreases to - i,
    {
        let b: u8 = s[i];
        assert(digits[i - start] == b);
        assert(digits.take(i - start + 1).drop_last() =~= digits.take(i - start));
        assert(digits.take(i - start + 1).last() == b);
        if b < 48 || b > 57 {
            return None;
        }
        let d: u64 = (b - 48) as u64;
        if acc > (u64::MAX - d) / 10 {
            proof {
                lemma_decimal_grows(digits, i - start + 1);
            }
            return None;
        }
        acc = acc * 10 + d;
        i = i + 1;
    }
    assert(digits.take(to - start) =~= digits);
    Some(acc)
}

/// Reads a version of the form `major_minor_patch`, or nothing where `version`
/// has fewer than three fields or one of the first three is not a number.
pub fn try_parse_version(version: &str) -> (r: Option<u64>)
    ensures
        r == spec_version(version.spec_bytes()),
{
    let s: &[u8] = version.as_bytes();
    let e0: usize = field_end(s, 0);
    if e0 >= s.len() {
        return None;
    }
    let e1: usize = field_end(s, e0 + 1);
    if e1 >= s.len() {
        return None;
    }
    let e2: usize = field_end(s, e1 + 1);
    let major: u64 = match parse_number(s, 0, e0) {
        None => {
            return None;
        },
        Some(n) => n,
    };
    let minor: u64 = match parse_number(s, e0 + 1, e1) {
        None => {
            return None;
        },
        Some(n) => n,
    };
    let patch: u64 = match parse_number(s, e1 + 1, e2) {
        None => {
            return None;
        },
        Some(n) => n,
    };
    Some((major << 16) | (minor << 8) | patch)
}

/// Reads a version of the form `major_minor_patch`.
pub fn parse_version(version: &str) -> (v: u64)
    requires
        spec_version(version.spec_bytes()) is Some,
    ensures
        spec_version(version.spec_bytes()) == Some(v),
{
    match try_parse_version(version) {
        Some(v) => v,
        None => 0,
    }
}

/// The resolver features that depend on the version of the library.
#[derive(Clone, Copy, Debug, PartialEq, Eq, Structural)]
pub struct Features {
    /// Present from 1.15.0 on.
    pub cares1_15: bool,
    /// Present from 1.18.0 on.
    pub cares1_18: bool,
    /// Present from 1.19.0 on.
    pub cares1_19: bool,
    /// Present from 1.20.0 on.
    pub cares1_20: bool,
}

/// The features that the packed version `version` brings.
pub fn features_of(version: u64) -> (f: Features)
    ensures
        f == (Features {
            cares1_15: version >= 0x1_0f_00,
            cares1_18: version >= 0x1_12_00,
            cares1_19: version >= 0x1_13_00,
            cares1_20: version >= 0x1_14_00,
        }),
{
    Features {
        cares1_15: version >= 0x1_0f_00,
        cares1_18: version >= 0x1_12_00,
        cares1_19: version >= 0x1_13_00,
        cares1_20: version >= 0x1_14_00,
    }
}

} // verus!
