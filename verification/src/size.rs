//! Sizes: a run of decimal digits followed by an optional unit suffix.

use vstd::prelude::*;

use crate::text::{debug_quote, debug_repr, is_ascii_digit, is_digit, str_eq};

verus! {

/// Number of leading ASCII digits of `s`.
pub open spec fn digit_prefix_len(s: Seq<char>) -> nat
    decreases s.len(),
{
    if s.len() == 0 || !is_digit(s[0]) {
        0
    } else {
        1 + digit_prefix_len(s.drop_first())
    }
}

/// The value of one ASCII digit.
pub open spec fn digit_value(c: char) -> nat {
    (c as int - '0' as int) as nat
}

/// The value of a string of ASCII digits read in base ten.
pub open spec fn digits_value(s: Seq<char>) -> nat
    decreases s.len(),
{
    if s.len() == 0 {
        0
    } else {
        digits_value(s.drop_last()) * 10 + digit_value(s.last())
    }
}

/// The multiplier that a unit suffix stands for, or `None` for an unknown
/// suffix (`b` is a 512-byte block; `kB`, `MB`, ... are powers of 1000;
/// `K`, `M`, ... and `KiB`, `MiB`, ... are powers of 1024; `k` is `K`).
pub open spec fn multiplier_of(suffix: Seq<char>) -> Option<u128> {
    if suffix == ""@ {
        Some(1)
    } else if suffix == "b"@ {
        Some(512)
    } else if suffix == "kB"@ {
        Some(1_000)
    } else if suffix == "k"@ || suffix == "K"@ || suffix == "KiB"@ {
        Some(1_024)
    } else if suffix == "MB"@ {
        Some(1_000_000)
    } else if suffix == "M"@ || suffix == "MiB"@ {
        Some(1_048_576)
    } else if suffix == "GB"@ {
        Some(1_000_000_000)
    } else if suffix == "G"@ || suffix == "GiB"@ {
        Some(1_073_741_824)
    } else if suffix == "TB"@ {
        Some(1_000_000_000_000)
    } else if suffix == "T"@ || suffix == "TiB"@ {
        Some(1_099_511_627_776)
    } else if suffix == "PB"@ {
        Some(1_000_000_000_000_000)
    } else if suffix == "P"@ || suffix == "PiB"@ {
        Some(1_125_899_906_842_624)
    } else if suffix == "EB"@ {
        Some(1_000_000_000_000_000_000)
    } else if suffix == "E"@ || suffix == "EiB"@ {
        Some(1_152_921_504_606_846_976)
    } else if suffix == "ZB"@ {
        Some(1_000_000_000_000_000_000_000)
    } else if suffix == "Z"@ || suffix == "ZiB"@ {
        Some(1_180_591_620_717_411_303_424)
    } else if suffix == "YB"@ {
        Some(1_000_000_000_000_000_000_000_000)
    } else if suffix == "Y"@ || suffix == "YiB"@ {
        Some(1_208_925_819_614_629_174_706_176)
    } else if suffix == "RB"@ {
        Some(1_000_000_000_000_000_000_000_000_000)
    } else if suffix == "R"@ || suffix == "RiB"@ {
        Some(1_237_940_039_285_380_274_899_124_224)
    } else if suffix == "QB"@ {
        Some(1_000_000_000_000_000_000_000_000_000_000)
    } else if suffix == "Q"@ || suffix == "QiB"@ {
        Some(1_267_650_600_228_229_401_496_703_205_376)
    } else {
        None
    }
}

/// Why a size was refused.
#[derive(Debug, Clone, Copy, PartialEq, Eq, Structural)]
pub enum SizeError {
    /// No leading digits, or more than 128 bits of them.
    InvalidCount,
    /// The text after the digits is not a known unit.
    InvalidSuffix,
    /// The value times the unit does not fit in `u64`.
    TooLarge,
}

/// What a size string means: its value, or why it is refused.
pub open spec fn size_outcome(s: Seq<char>) -> Result<u64, SizeError> {
    let k = digit_prefix_len(s) as int;
    let base = digits_value(s.take(k));
    if k == 0 || base > u128::MAX {
        Err(SizeError::InvalidCount)
    } else {
        match multiplier_of(s.skip(k)) {
            None => Err(SizeError::InvalidSuffix),
            Some(m) => if base * m > u64::MAX {
                Err(SizeError::TooLarge)
            } else {
                Ok((base * m) as u64)
            },
        }
    }
}

/// The part of `s` that the message for `e` quotes: the suffix for an
/// unknown suffix, the whole input otherwise.
pub open spec fn size_error_subject(s: Seq<char>, e: SizeError) -> Seq<char> {
    match e {
        SizeError::InvalidSuffix => s.skip(digit_prefix_len(s) as int),
        _ => s,
    }
}

/// The message for `e`, given the quoted subject.
pub open spec fn size_error_text(e: SizeError, quoted: Seq<char>) -> Seq<char> {
    match e {
        SizeError::InvalidCount => "invalid count: "@ + quoted,
        SizeError::InvalidSuffix => "invalid suffix in count: "@ + quoted,
        SizeError::TooLarge => "count is too large: "@ + quoted,
    }
}

proof fn lemma_digit_prefix_len(s: Seq<char>, i: int)
    requires
        0 <= i <= s.len(),
        forall|j: int| 0 <= j < i ==> is_digit(#[trigger] s[j]),
        i == s.len() || !is_digit(s[i]),
    ensures
        digit_prefix_len(s) == i,
    decreases i,
{
    if i > 0 {
        let t = s.drop_first();
        assert forall|j: int| 0 <= j < i - 1 implies is_digit(#[trigger] t[j]) by {
            assert(t[j] == s[j + 1]);
        }
        if i - 1 < t.len() {
            assert(t[i - 1] == s[i]);
        }
        lemma_digit_prefix_len(t, i - 1);
    }
}

/// A longer digit string is worth at least as much as its prefix.
proof fn lemma_digits_value_prefix(s: Seq<char>, i: int)
    requires
        0 <= i <= s.len(),
    ensures
        digits_value(s.take(i)) <= digits_value(s),
    decreases s.len() - i,
{
    if i < s.len() {
        lemma_digits_value_prefix(s, i + 1);
        assert(s.take(i + 1).drop_last() =~= s.take(i));
    } else {
        assert(s.take(i) =~= s);
    }
}

/// Split the leading digit sequence from the trailing suffix.
fn split_num_suffix(s: &str) -> (r: (&str, &str))
    ensures
        r.0@ == s@.take(digit_prefix_len(s@) as int),
        r.1@ == s@.skip(digit_prefix_len(s@) as int),
        digit_prefix_len(s@) <= s@.len(),
        forall|j: int| 0 <= j < r.0@.len() ==> is_digit(#[trigger] r.0@[j]),
{
    let n: usize = s.unicode_len();
    let mut i: usize = 0;
    while i < n && is_ascii_digit(s.get_char(i))
        invariant
            n == s@.len(),
            i <= n,
            forall|j: int| 0 <= j < i ==> is_digit(#[trigger] s@[j]),
        decreases n - i,
    {
        i += 1;
    }
    proof {
        lemma_digit_prefix_len(s@, i as int);
    }
    (s.substring_char(0, i), s.substring_char(i, n))
}

/// The value of a string of ASCII digits, or `None` where it does not fit
/// in `u128`.
fn parse_digits(num: &str) -> (r: Option<u128>)
    requires
        forall|j: int| 0 <= j < num@.len() ==> is_digit(#[trigger] num@[j]),
    ensures
        r == (if digits_value(num@) <= u128::MAX {
            Some(digits_value(num@) as u128)
        } else {
            None::<u128>
        }),
{
    let n: usize = num.unicode_len();
    let mut v: u128 = 0;
    let mut i: usize = 0;
    assert(num@.take(0) =~= Seq::<char>::empty());
    while i < n
        invariant
            n == num@.len(),
            i <= n,
            v == digits_value(num@.take(i as int)),
            forall|j: int| 0 <= j < num@.len() ==> is_digit(#[trigger] num@[j]),
        decreases n - i,
    {
        let c: char = num.get_char(i);
        assert(is_digit(num@[i as int]));
        let d: u128 = (c as u32 - '0' as u32) as u128;
        assert(num@.take(i + 1).drop_last() =~= num@.take(i as int));
        assert(digits_value(num@.take(i + 1)) == v * 10 + d);
        match v.checked_mul(10) {
            None => {
                proof {
                    lemma_digits_value_prefix(num@, i + 1);
                }
                return None;
            },
            Some(t) => match t.checked_add(d) {
                None => {
                    proof {
                        lemma_digits_value_prefix(num@, i + 1);
                    }
                    return None;
                },
                Some(w) => {
                    v = w;
                },
            },
        }
        i += 1;
    }
    assert(num@.take(n as int) =~= num@);
    Some(v)
}

/// The multiplier for a unit suffix, or `None` for an unknown suffix.
fn get_multiplier(suffix: &str) -> (r: Option<u128>)
    ensures
        r == multiplier_of(suffix@),
{
    if str_eq(suffix, "") {
        Some(1)
    } else if str_eq(suffix, "b") {
        Some(512)
    } else if str_eq(suffix, "kB") {
        Some(1_000)
    } else if str_eq(suffix, "k") || str_eq(suffix, "K") || str_eq(suffix, "KiB") {
        Some(1_024)
    } else if str_eq(suffix, "MB") {
        Some(1_000_000)
    } else if str_eq(suffix, "M") || str_eq(suffix, "MiB") {
        Some(1_048_576)
    } else if str_eq(suffix, "GB") {
        Some(1_000_000_000)
    } else if str_eq(suffix, "G") || str_eq(suffix, "GiB") {
        Some(1_073_741_824)
    } else if str_eq(suffix, "TB") {
        Some(1_000_000_000_000)
    } else if str_eq(suffix, "T") || str_eq(suffix, "TiB") {
        Some(1_099_511_627_776)
    } else if str_eq(suffix, "PB") {
        Some(1_000_000_000_000_000)
    } else if str_eq(suffix, "P") || str_eq(suffix, "PiB") {
        Some(1_125_899_906_842_624)
    } else if str_eq(suffix, "EB") {
        Some(1_000_000_000_000_000_000)
    } else if str_eq(suffix, "E") || str_eq(suffix, "EiB") {
        Some(1_152_921_504_606_846_976)
    } else if str_eq(suffix, "ZB") {
        Some(1_000_000_000_000_000_000_000)
    } else if str_eq(suffix, "Z") || str_eq(suffix, "ZiB") {
        Some(1_180_591_620_717_411_303_424)
    } else if str_eq(suffix, "YB") {
        Some(1_000_000_000_000_000_000_000_000)
    } else if str_eq(suffix, "Y") || str_eq(suffix, "YiB") {
        Some(1_208_925_819_614_629_174_706_176)
    } else if str_eq(suffix, "RB") {
        Some(1_000_000_000_000_000_000_000_000_000)
    } else if str_eq(suffix, "R") || str_eq(suffix, "RiB") {
        Some(1_237_940_039_285_380_274_899_124_224)
    } else if str_eq(suffix, "QB") {
        Some(1_000_000_000_000_000_000_000_000_000_000)
    } else if str_eq(suffix, "Q") || str_eq(suffix, "QiB") {
        Some(1_267_650_600_228_229_401_496_703_205_376)
    } else {
        None
    }
}

/// The message for a refused size, given the quoted text it names.
pub fn size_error_message(e: SizeError, quoted: &str) -> (r: String)
    ensures
        r@ == size_error_text(e, quoted@),
{
    let mut msg = match e {
        SizeError::InvalidCount => String::from_str("invalid count: "),
        SizeError::InvalidSuffix => String::from_str("invalid suffix in count: "),
        SizeError::TooLarge => String::from_str("count is too large: "),
    };
    msg.append(quoted);
    msg
}

/// Parse a size string (digits optionally followed by a unit suffix) into a
/// number of bytes or lines.
///
/// The value is the digits read in base ten times the suffix's multiplier.
/// The string is refused when it has no leading digits or more than fit in
/// 128 bits ("invalid count"), when the suffix is unknown ("invalid suffix
/// in count", quoting the suffix), and when the product does not fit in
/// `u64` ("count is too large").
pub fn parse_size(s: &str) -> (r: Result<u64, String>)
    ensures
        r is Ok <==> size_outcome(s@) is Ok,
        r matches Ok(v) ==> size_outcome(s@) == Ok::<u64, SizeError>(v),
        r matches Err(msg) ==> size_outcome(s@) matches Err(e) && msg@ == size_error_text(
            e,
            debug_repr(size_error_subject(s@, e)),
        ),
{
    let (num_part, suffix) = split_num_suffix(s);
    if num_part.unicode_len() == 0 {
        return Err(size_error_message(SizeError::InvalidCount, debug_quote(s).as_str()));
    }
    let base: u128 = match parse_digits(num_part) {
        Some(b) => b,
        None => {
            return Err(size_error_message(SizeError::InvalidCount, debug_quote(s).as_str()));
        },
    };
    let multiplier: u128 = match get_multiplier(suffix) {
        Some(m) => m,
        None => {
            return Err(size_error_message(SizeError::InvalidSuffix, debug_quote(suffix).as_str()));
        },
    };
    match base.checked_mul(multiplier) {
        Some(v) => {
            if v <= u64::MAX as u128 {
                Ok(v as u64)
            } else {
                Err(size_error_message(SizeError::TooLarge, debug_quote(s).as_str()))
            }
        },
        None => Err(size_error_message(SizeError::TooLarge, debug_quote(s).as_str())),
    }
}

} // verus!
