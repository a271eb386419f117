//! Number helpers of the script utilities, and text conversions for the
//! platform's wide-string APIs.
use vstd::prelude::*;
use vstd::string::StringSliceAdditionalSpecFns;

use crate::error::Error;
use crate::text::{chars_of, concat_str};

verus! {

/// The value of an ASCII digit in `radix` (10 or 16), if it is one.
pub open spec fn digit_in(b: u8, radix: int) -> Option<int> {
    if 0x30 <= b <= 0x39 {
        Some(b - 0x30)
    } else if radix == 16 && 0x41 <= b <= 0x46 {
        Some(b - 0x41 + 10)
    } else if radix == 16 && 0x61 <= b <= 0x66 {
        Some(b - 0x61 + 10)
    } else {
        None
    }
}

/// The value of the digits `s` in `radix`, if all are digits and it fits in 64 bits.
pub open spec fn radix_value(s: Seq<u8>, radix: int) -> Option<int>
    decreases s.len(),
{
    if s.len() == 0 {
        Some(0)
    } else {
        match radix_value(s.drop_last(), radix) {
            None => None,
            Some(v) => match digit_in(s.last(), radix) {
                None => None,
                Some(d) => if v * radix + d > u64::MAX {
                    None
                } else {
                    Some(v * radix + d)
                },
            },
        }
    }
}

/// The digits of a number's text and their radix: after `0x` hexadecimal,
/// else decimal; a leading `+` is allowed.
pub open spec fn number_digits(b: Seq<u8>) -> (Seq<u8>, int) {
    let (d, radix) = if b.len() >= 2 && b[0] == 0x30 && b[1] == 0x78 {
        (b.subrange(2, b.len() as int), 16int)
    } else {
        (b, 10int)
    };
    if d.len() > 0 && d[0] == 0x2b {
        (d.drop_first(), radix)
    } else {
        (d, radix)
    }
}

/// The value of a number's text, if it is one.
pub open spec fn number_value(b: Seq<u8>) -> Option<int> {
    let (d, radix) = number_digits(b);
    if d.len() == 0 {
        None
    } else {
        radix_value(d, radix)
    }
}

proof fn lemma_radix_none_extends(s: Seq<u8>, radix: int, k: int)
    requires
        0 <= k <= s.len(),
        radix_value(s.take(k), radix) is None,
    ensures
        radix_value(s, radix) is None,
    decreases s.len() - k,
{
    if k < s.len() {
        assert(s.take(k + 1).drop_last() =~= s.take(k));
        lemma_radix_none_extends(s, radix, k + 1);
    } else {
        assert(s.take(k) =~= s);
    }
}

/// A 64-bit value as its two 32-bit halves, high first.
pub open spec fn halves(value: u64) -> (u32, u32) {
    ((value >> 32u64) as u32, (value & 0xFFFF_FFFFu64) as u32)
}

/// UTF-16 code units of a text: one unit below 0x10000, else a surrogate pair.
pub open spec fn utf16_encode(s: Seq<char>) -> Seq<u16>
    decreases s.len(),
{
    if s.len() == 0 {
        Seq::empty()
    } else {
        let c = s.last() as u32;
        let rest = utf16_encode(s.drop_last());
        if c < 0x10000 {
            rest.push(c as u16)
        } else {
            rest.push((0xD800 + ((c - 0x10000) as u32 >> 10u32)) as u16).push(
                (0xDC00 + ((c - 0x10000) as u32 & 0x3FFu32)) as u16,
            )
        }
    }
}

/// The text's UTF-16 code units, in order.
pub(crate) fn encode_utf16(s: &str) -> (r: Vec<u16>)
    ensures
        r@ == utf16_encode(s@),
{
    let cs = chars_of(s);
    let mut out: Vec<u16> = Vec::new();
    let mut i: usize = 0;
    while i < cs.len()
        invariant
            0 <= i <= cs@.len(),
            cs@ == s@,
            out@ == utf16_encode(cs@.take(i as int)),
        decreases cs@.len() - i,
    {
        let c = cs[i] as u32;
        assert(cs@.take(i + 1).drop_last() =~= cs@.take(i as int));
        assert(cs@.take(i + 1).last() == cs@[i as int]);
        if c < 0x10000 {
            out.push(c as u16);
        } else {
            proof {
                vstd::utf8::char_is_scalar(cs@[i as int]);
            }
            let v: u32 = c - 0x10000;
            assert(v <= 0xFFFFF ==> (v >> 10u32) <= 0x3FF) by (bit_vector);
            assert((v & 0x3FFu32) <= 0x3FF) by (bit_vector);
            out.push((0xD800 + (v >> 10u32)) as u16);
            out.push((0xDC00 + (v & 0x3FFu32)) as u16);
        }
        i = i + 1;
    }
    assert(cs@.take(i as int) =~= cs@);
    out
}

/// The decimal digits of `n`, without leading zeros.
pub open spec fn decimal(n: nat) -> Seq<char>
    decreases n,
{
    if n < 10 {
        seq![(('0' as u32) + n) as char]
    } else {
        decimal(n / 10).push((('0' as u32) + (n % 10)) as char)
    }
}

/// The text `MONSTER HUNTER: WORLD(`, which begins the host window's title.
pub open spec fn title_prefix() -> Seq<char> {
    "MONSTER HUNTER: WORLD("@
}

/// Relies on the decimal `Display` of `u32` (through `ToString`).
#[verifier::external_body]
fn decimal_text(n: u32) -> (r: String)
    ensures
        r@ == decimal(n as nat),
{
    n.to_string()
}

/// The text as UTF-16 code units, ended by a zero unit.
pub fn to_wstring_bytes_with_nul(s: &str) -> (r: Vec<u16>)
    ensures
        r@ == utf16_encode(s@).push(0),
{
    let mut v = encode_utf16(s);
    v.push(0);
    v
}

/// The title of the host's window for a game revision, where it is known.
pub fn get_game_window_title(revision: Option<u32>) -> (r: Option<String>)
    ensures
        match revision {
            None => r is None,
            Some(n) => r is Some && r->Some_0@ == title_prefix() + decimal(n as nat) + ")"@,
        },
{
    match revision {
        None => None,
        Some(n) => {
            let digits = decimal_text(n);
            let head = concat_str("MONSTER HUNTER: WORLD(", digits.as_str());
            Some(concat_str(head.as_str(), ")"))
        },
    }
}

/// Numeric helpers of the script utilities.
pub struct UtilityModule;

impl UtilityModule {
    /// The 64-bit value whose high and low halves are given.
    pub fn merge_to_u64(high: u32, low: u32) -> (r: u64)
        ensures
            r == high as u64 * 0x1_0000_0000 + low as u64,
            halves(r) == (high, low),
    {
        let r = ((high as u64) << 32u64) | (low as u64);
        assert(((high as u64) << 32u64) | (low as u64) == high as u64 * 0x1_0000_0000 + low as u64)
            by (bit_vector);
        assert(((((high as u64) << 32u64) | (low as u64)) >> 32u64) as u32 == high && ((((
        high as u64) << 32u64) | (low as u64)) & 0xFFFF_FFFFu64) as u32 == low) by (bit_vector);
        r
    }

    /// The high and low halves of `value`.
    pub fn split_u64_to_u32(value: u64) -> (r: (u32, u32))
        ensures
            r == halves(value),
            value == r.0 as u64 * 0x1_0000_0000 + r.1 as u64,
    {
        let r = ((value >> 32u64) as u32, (value & 0xFFFF_FFFFu64) as u32);
        assert(value == ((value >> 32u64) as u32) as u64 * 0x1_0000_0000 + ((value
            & 0xFFFF_FFFFu64) as u32) as u64) by (bit_vector);
        r
    }

    /// Reads an unsigned 64-bit number: hexadecimal after `0x`, else decimal.
    pub fn parse_string_to_u64(s: &str) -> (r: Result<u64, Error>)
        ensures
            match number_value(s.spec_bytes()) {
                Some(v) => r == Ok::<u64, Error>(v as u64),
                None => match r {
                    Err(Error::ParseInt(t)) => t@ == s@,
                    _ => false,
                },
            },
    {
        let b = s.as_bytes();
        let n = b.len();
        let mut start: usize = 0;
        let mut radix: u64 = 10;
        if n >= 2 && b[0] == 0x30 && b[1] == 0x78 {
            start = 2;
            radix = 16;
        }
        if start < n && b[start] == 0x2b {
            start = start + 1;
        }
        let ghost digits = number_digits(b@).0;
        assert(digits =~= b@.subrange(start as int, n as int));
        assert(number_digits(b@).1 == radix as int);
        if start == n {
            return Err(Error::ParseInt(s.to_owned()));
        }
        let mut i: usize = start;
        let mut value: u64 = 0;
        while i < n
            invariant
                start <= i <= n,
                start < n,
                n == b@.len(),
                b@ == s.spec_bytes(),
                digits == number_digits(b@).0,
                number_digits(b@).1 == radix as int,
                radix == 10 || radix == 16,
                digits =~= b@.subrange(start as int, n as int),
                radix_value(digits.take(i - start), radix as int) == Some(value as int),
            decreases n - i,
        {
            let c = b[i];
            assert(digits.take(i - start + 1).drop_last() =~= digits.take(i - start));
            assert(digits.take(i - start + 1).last() == c);
            let d: u64 = if 0x30 <= c && c <= 0x39 {
                (c - 0x30) as u64
            } else if radix == 16 && 0x41 <= c && c <= 0x46 {
                (c - 0x41 + 10) as u64
            } else if radix == 16 && 0x61 <= c && c <= 0x66 {
                (c - 0x61 + 10) as u64
            } else {
                proof {
                    lemma_radix_none_extends(digits, radix as int, i - start + 1);
                }
                return Err(Error::ParseInt(s.to_owned()));
            };
            let next = match value.checked_mul(radix) {
                None => None,
                Some(m) => m.checked_add(d),
            };
            match next {
                None => {
                    proof {
                        lemma_radix_none_extends(digits, radix as int, i - start + 1);
                    }
                    return Err(Error::ParseInt(s.to_owned()));
                },
                Some(v) => {
                    value = v;
                },
            }
            i = i + 1;
        }
        assert(digits.take(n - start) =~= digits);
        Ok(value)
    }
}

} // verus!
