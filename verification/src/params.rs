//! Parameter ingestion: decimal parsing of the command-line values, with a
//! default and an upper bound.

use vstd::prelude::*;
use vstd::string::StringSliceAdditionalSpecFns;

verus! {

/// Whether every byte is an ASCII decimal digit.
pub open spec fn spec_all_digits(s: Seq<u8>) -> bool {
    forall|i: int| 0 <= i < s.len() ==> 48 <= #[trigger] s[i] <= 57
}

/// The value of a string of decimal digits.
pub open spec fn spec_decimal_val(s: Seq<u8>) -> nat
    decreases s.len(),
{
    if s.len() == 0 {
        0
    } else {
        spec_decimal_val(s.drop_last()) * 10 + (s.last() - 48) as nat
    }
}

/// The value of a digit string never shrinks when digits follow.
pub proof fn lemma_decimal_val_take(s: Seq<u8>, i: int)
    requires
        0 <= i <= s.len(),
        spec_all_digits(s),
    ensures
        spec_decimal_val(s.take(i)) <= spec_decimal_val(s),
    decreases s.len(),
{
    if i < s.len() {
        lemma_decimal_val_take(s.drop_last(), i);
        assert(s.drop_last().take(i) =~= s.take(i));
        assert(spec_all_digits(s.drop_last())) by {
            assert(forall|j: int|
                0 <= j < s.drop_last().len() ==> s.drop_last()[j] == #[trigger] s[j]);
        }
    } else {
        assert(s.take(i) =~= s);
    }
}

/// The parse of a decimal string: its value, unless the string is empty,
/// holds a byte that is no digit, or does not fit in 64 bits.
pub open spec fn spec_parse_decimal(s: Seq<u8>) -> Option<u64> {
    if s.len() == 0 || !spec_all_digits(s) || spec_decimal_val(s) > u64::MAX {
        None
    } else {
        Some(spec_decimal_val(s) as u64)
    }
}

/// Parses a decimal string, as [`spec_parse_decimal`] describes.
pub fn parse_decimal(s: &str) -> (r: Option<u64>)
    ensures
        r == spec_parse_decimal(s.spec_bytes()),
{
    let bytes = s.as_bytes();
    let n = bytes.len();
    if n == 0 {
        return None;
    }
    let mut acc: u64 = 0;
    let mut i: usize = 0;
    while i < n
        invariant
            n == bytes@.len(),
            bytes@ == s.spec_bytes(),
            i <= n,
            spec_all_digits(bytes@.take(i as int)),
            acc == spec_decimal_val(bytes@.take(i as int)),
        decreases n - i,
    {
        let b = bytes[i];
        if b < 48 || b > 57 {
            return None;
        }
        let d = b - 48;
        proof {
            assert(bytes@.take(i + 1).drop_last() =~= bytes@.take(i as int));
            assert(bytes@.take(i + 1).last() == bytes@[i as int]);
        }
        if acc > (u64::MAX - d as u64) / 10 {
            proof {
                if spec_all_digits(bytes@) {
                    lemma_decimal_val_take(bytes@, i + 1);
                }
            }
            return None;
        }
        acc = acc * 10 + d as u64;
        i = i + 1;
    }
    proof {
        assert(bytes@.take(n as int) =~= bytes@);
    }
    Some(acc)
}

/// Parses an optional decimal argument against a default, and rejects a
/// value over `max_value`: the parsed value of the given string, or of the
/// default when none was given; `None` when the parse fails or the value is
/// too large.
pub fn parse_unsigned_integer(raw_value: Option<&str>, default: &str, max_value: u64) -> (r:
    Option<u64>)
    ensures
        r == (match spec_parse_decimal(
            (match raw_value {
                Some(s) => s.spec_bytes(),
                None => default.spec_bytes(),
            }),
        ) {
            Some(v) => if v <= max_value {
                Some(v)
            } else {
                None
            },
            None => None,
        }),
{
    let chosen = match raw_value {
        Some(s) => s,
        None => default,
    };
    match parse_decimal(chosen) {
        Some(v) => {
            if v <= max_value {
                Some(v)
            } else {
                None
            }
        },
        None => None,
    }
}

} // verus!
