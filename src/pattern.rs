//! Byte-pattern signatures: parsing the textual form and scanning a byte range.
//!
//! A signature is written as whitespace-separated tokens. Each token is either a
//! hexadecimal byte (`48`, `0x` is not accepted) or one of the wildcard markers
//! `?`, `??`, `*`, `**`, which match any byte. Scans move a window over the
//! range and, where it does not match, skip ahead by a table of the pattern's
//! bytes, in the manner of Horspool's search.
use vstd::prelude::*;
use crate::text::chars_of;

verus! {

/// One token of a parsed signature.
#[derive(Clone, Copy, Debug, PartialEq, Eq, Structural)]
pub enum PatternByte {
    /// Matches exactly this byte.
    Exact(u8),
    /// Matches any byte.
    Any,
}

/// Whether `c` separates tokens: a Unicode white-space character, as
/// `char::is_whitespace` and `str::split_whitespace` take them.
pub open spec fn is_ws(c: char) -> bool {
    let u = c as u32;
    (0x09 <= u <= 0x0d) || u == 0x20 || u == 0x85 || u == 0xa0 || u == 0x1680 || (0x2000 <= u
        <= 0x200a) || u == 0x2028 || u == 0x2029 || u == 0x202f || u == 0x205f || u == 0x3000
}

/// Splitting state after reading `t`: the finished tokens and the token being read.
pub open spec fn split_state(t: Seq<char>) -> (Seq<Seq<char>>, Seq<char>)
    decreases t.len(),
{
    if t.len() == 0 {
        (Seq::empty(), Seq::empty())
    } else {
        let (done, cur) = split_state(t.drop_last());
        let c = t.last();
        if is_ws(c) {
            if cur.len() > 0 {
                (done.push(cur), Seq::empty())
            } else {
                (done, cur)
            }
        } else {
            (done, cur.push(c))
        }
    }
}

/// The whitespace-separated tokens of `t`, in order, none of them empty.
pub open spec fn tokens(t: Seq<char>) -> Seq<Seq<char>> {
    let (done, cur) = split_state(t);
    if cur.len() > 0 {
        done.push(cur)
    } else {
        done
    }
}

/// Whether `c` is an ASCII hexadecimal digit.
pub open spec fn is_hex_digit(c: char) -> bool {
    let u = c as u32;
    (0x30 <= u <= 0x39) || (0x41 <= u <= 0x46) || (0x61 <= u <= 0x66)
}

/// The value of the hexadecimal digit `c`.
pub open spec fn hex_digit_value(c: char) -> int {
    let u = c as u32;
    if 0x30 <= u <= 0x39 {
        u - 0x30
    } else if 0x41 <= u <= 0x46 {
        u - 0x41 + 10
    } else {
        u - 0x61 + 10
    }
}

/// Reads hexadecimal digits left to right, as `u8::from_str_radix` does: the
/// first character that is no digit, or the first digit that takes the value
/// above 0xFF, decides the error.
pub open spec fn hex_scan(s: Seq<char>) -> Result<int, TokenError>
    decreases s.len(),
{
    if s.len() == 0 {
        Ok(0)
    } else {
        match hex_scan(s.drop_last()) {
            Err(e) => Err(e),
            Ok(v) => if !is_hex_digit(s.last()) {
                Err(TokenError::InvalidDigit)
            } else if v * 16 + hex_digit_value(s.last()) > 255 {
                Err(TokenError::TooLarge)
            } else {
                Ok(v * 16 + hex_digit_value(s.last()))
            },
        }
    }
}

/// The digits of a byte token: an optional leading `+` is allowed.
pub open spec fn token_digits(tok: Seq<char>) -> Seq<char> {
    if tok.len() > 0 && tok[0] == '+' {
        tok.drop_first()
    } else {
        tok
    }
}

/// Whether a token is one of the wildcard markers `?`, `??`, `*`, `**`.
pub open spec fn is_wildcard(tok: Seq<char>) -> bool {
    tok == seq!['?'] || tok == seq!['?', '?'] || tok == seq!['*'] || tok == seq!['*', '*']
}

/// How one token fails to be a byte.
#[derive(Clone, Copy, Debug, PartialEq, Eq, Structural)]
pub enum TokenError {
    /// A character that is not a hexadecimal digit, or no digit at all.
    InvalidDigit,
    /// A value above 0xFF.
    TooLarge,
}

/// What a single token stands for.
pub open spec fn token_meaning(tok: Seq<char>) -> Result<PatternByte, TokenError> {
    if is_wildcard(tok) {
        Ok(PatternByte::Any)
    } else if token_digits(tok).len() == 0 {
        Err(TokenError::InvalidDigit)
    } else {
        match hex_scan(token_digits(tok)) {
            Err(e) => Err(e),
            Ok(v) => Ok(PatternByte::Exact(v as u8)),
        }
    }
}

/// The first token of `toks` that is no byte or wildcard, if any.
pub open spec fn first_token_error(toks: Seq<Seq<char>>) -> Option<TokenError>
    decreases toks.len(),
{
    if toks.len() == 0 {
        None
    } else {
        match token_meaning(toks[0]) {
            Err(e) => Some(e),
            Ok(_) => first_token_error(toks.drop_first()),
        }
    }
}

/// The parsed form of a signature whose tokens are all valid.
pub open spec fn meanings(toks: Seq<Seq<char>>) -> Seq<PatternByte> {
    toks.map_values(|tok: Seq<char>| token_meaning(tok)->Ok_0)
}

/// Result of parsing the text `t` of a signature.
pub open spec fn parse_spec(t: Seq<char>) -> Result<Seq<PatternByte>, TokenError> {
    match first_token_error(tokens(t)) {
        Some(e) => Err(e),
        None => Ok(meanings(tokens(t))),
    }
}

/// Whether `pat` matches `mem` starting at `i`.
pub open spec fn matches_at(mem: Seq<u8>, pat: Seq<PatternByte>, i: int) -> bool {
    &&& 0 <= i
    &&& i + pat.len() <= mem.len()
    &&& forall|j: int|
        0 <= j < pat.len() ==> match #[trigger] pat[j] {
            PatternByte::Any => true,
            PatternByte::Exact(b) => mem[i + j] == b,
        }
}

/// Start offsets, from `i` on, of the non-overlapping matches found by a
/// left-to-right scan that resumes after the end of each match.
pub open spec fn scan_from(mem: Seq<u8>, pat: Seq<PatternByte>, i: int) -> Seq<int>
    decreases mem.len() - i,
{
    if i < 0 || pat.len() == 0 || i + pat.len() > mem.len() {
        Seq::empty()
    } else if matches_at(mem, pat, i) {
        seq![i].add(scan_from(mem, pat, i + pat.len()))
    } else {
        scan_from(mem, pat, i + 1)
    }
}

/// Every non-overlapping match of `pat` in `mem`, as offsets from the start.
pub open spec fn scan_spec(mem: Seq<u8>, pat: Seq<PatternByte>) -> Seq<int> {
    scan_from(mem, pat, 0)
}

/// Whether `c` is white space, as `is_ws` defines it.
fn char_is_ws(c: char) -> (r: bool)
    ensures
        r == is_ws(c),
{
    let u = c as u32;
    (0x09 <= u && u <= 0x0d) || u == 0x20 || u == 0x85 || u == 0xa0 || u == 0x1680 || (0x2000 <= u
        && u <= 0x200a) || u == 0x2028 || u == 0x2029 || u == 0x202f || u == 0x205f || u == 0x3000
}

/// Reads one token as a pattern byte.
fn parse_token(tok: &Vec<char>) -> (r: Result<PatternByte, TokenError>)
    requires
        tok@.len() > 0,
    ensures
        r == token_meaning(tok@),
{
    let n = tok.len();
    let wild = (n == 1 && (tok[0] == '?' || tok[0] == '*')) || (n == 2 && ((tok[0] == '?' && tok[1]
        == '?') || (tok[0] == '*' && tok[1] == '*')));
    proof {
        if tok@ == seq!['?'] || tok@ == seq!['*'] {
            assert(tok@.len() == 1 && tok@[0] == seq!['?'][0] || tok@[0] == seq!['*'][0]);
        }
        if tok@ == seq!['?', '?'] {
            assert(tok@.len() == 2 && tok@[0] == '?' && tok@[1] == seq!['?', '?'][1]);
        }
        if tok@ == seq!['*', '*'] {
            assert(tok@.len() == 2 && tok@[0] == '*' && tok@[1] == seq!['*', '*'][1]);
        }
        if wild {
            if n == 1 && tok[0] == '?' {
                assert(tok@ =~= seq!['?']);
            } else if n == 1 {
                assert(tok@ =~= seq!['*']);
            } else if tok[0] == '?' {
                assert(tok@ =~= seq!['?', '?']);
            } else {
                assert(tok@ =~= seq!['*', '*']);
            }
        }
    }
    if wild {
        return Ok(PatternByte::Any);
    }
    assert(!is_wildcard(tok@));
    let start: usize = if tok[0] == '+' {
        1
    } else {
        0
    };
    let ghost digits = token_digits(tok@);
    assert(digits =~= tok@.subrange(start as int, n as int));
    if start == n {
        return Err(TokenError::InvalidDigit);
    }
    let mut i: usize = start;
    let mut value: u32 = 0;
    while i < n
        invariant
            start <= i <= n,
            n == tok@.len(),
            !is_wildcard(tok@),
            digits == token_digits(tok@),
            digits =~= tok@.subrange(start as int, n as int),
            hex_scan(digits.take(i - start)) == Ok::<int, TokenError>(value as int),
            value <= 255,
        decreases n - i,
    {
        let u = tok[i] as u32;
        assert(digits.take(i - start + 1).drop_last() =~= digits.take(i - start));
        assert(digits.take(i - start + 1).last() == tok@[i as int]);
        let is_digit = (0x30 <= u && u <= 0x39) || (0x41 <= u && u <= 0x46) || (0x61 <= u && u
            <= 0x66);
        if !is_digit {
            proof {
                lemma_hex_scan_err_extends(digits, i - start + 1);
            }
            return Err(TokenError::InvalidDigit);
        }
        let d: u32 = if u <= 0x39 {
            u - 0x30
        } else if u <= 0x46 {
            u - 0x41 + 10
        } else {
            u - 0x61 + 10
        };
        value = value * 16 + d;
        i = i + 1;
        if value > 255 {
            proof {
                lemma_hex_scan_err_extends(digits, i - start);
            }
            return Err(TokenError::TooLarge);
        }
    }
    assert(digits.take(n - start) =~= digits);
    Ok(PatternByte::Exact(value as u8))
}

/// Once a prefix of the digits fails, the whole string fails the same way.
proof fn lemma_hex_scan_err_extends(s: Seq<char>, k: int)
    requires
        0 <= k <= s.len(),
        hex_scan(s.take(k)) is Err,
    ensures
        hex_scan(s) == hex_scan(s.take(k)),
    decreases s.len() - k,
{
    if k < s.len() {
        assert(s.take(k + 1).drop_last() =~= s.take(k));
        lemma_hex_scan_err_extends(s, k + 1);
    } else {
        assert(s.take(k) =~= s);
    }
}

/// The whitespace-separated tokens of `text`, in order.
pub fn split_tokens(text: &str) -> (r: Vec<Vec<char>>)
    ensures
        r@.map_values(|v: Vec<char>| v@) == tokens(text@),
{
    let t = chars_of(text);
    let mut out: Vec<Vec<char>> = Vec::new();
    let mut cur: Vec<char> = Vec::new();
    let mut i: usize = 0;
    while i < t.len()
        invariant
            0 <= i <= t@.len(),
            t@ == text@,
            split_state(t@.take(i as int)) == (out@.map_values(|v: Vec<char>| v@), cur@),
        decreases t@.len() - i,
    {
        let c = t[i];
        assert(t@.take(i + 1).drop_last() =~= t@.take(i as int));
        assert(t@.take(i + 1).last() == c);
        if char_is_ws(c) {
            if cur.len() > 0 {
                let ghost before = out@.map_values(|v: Vec<char>| v@);
                let done = cur;
                out.push(done);
                assert(out@.map_values(|v: Vec<char>| v@) =~= before.push(done@));
                cur = Vec::new();
            }
        } else {
            cur.push(c);
        }
        i = i + 1;
    }
    assert(t@.take(t@.len() as int) =~= t@);
    if cur.len() > 0 {
        let ghost before = out@.map_values(|v: Vec<char>| v@);
        let done = cur;
        out.push(done);
        assert(out@.map_values(|v: Vec<char>| v@) =~= before.push(done@));
    }
    out
}

proof fn lemma_first_error_push(toks: Seq<Seq<char>>, x: Seq<char>)
    ensures
        first_token_error(toks.push(x)) == match first_token_error(toks) {
            Some(e) => Some(e),
            None => match token_meaning(x) {
                Err(e) => Some(e),
                Ok(_) => None,
            },
        },
    decreases toks.len(),
{
    if toks.len() > 0 {
        assert(toks.push(x).drop_first() =~= toks.drop_first().push(x));
        assert(toks.push(x)[0] == toks[0]);
        lemma_first_error_push(toks.drop_first(), x);
        assert(first_token_error(toks.push(x).drop_first()) == first_token_error(
            toks.drop_first().push(x),
        ));
    } else {
        assert(toks.push(x).drop_first() =~= Seq::<Seq<char>>::empty());
        assert(toks.push(x)[0] == x);
    }
}

/// Once a token fails, the tokens after it do not change the first error.
proof fn lemma_first_error_prefix(toks: Seq<Seq<char>>, k: int)
    requires
        0 <= k <= toks.len(),
        first_token_error(toks.take(k)) is Some,
    ensures
        first_token_error(toks) == first_token_error(toks.take(k)),
    decreases toks.len() - k,
{
    if k < toks.len() {
        assert(toks.take(k + 1) =~= toks.take(k).push(toks[k]));
        lemma_first_error_push(toks.take(k), toks[k]);
        lemma_first_error_prefix(toks, k + 1);
    } else {
        assert(toks.take(k) =~= toks);
    }
}

/// Parses a signature: its tokens, in order, each a byte or a wildcard.
pub fn parse_pattern(text: &str) -> (r: Result<Vec<PatternByte>, TokenError>)
    ensures
        match r {
            Ok(v) => parse_spec(text@) == Ok::<Seq<PatternByte>, TokenError>(v@),
            Err(e) => parse_spec(text@) == Err::<Seq<PatternByte>, TokenError>(e),
        },
{
    let toks = split_tokens(text);
    let ghost ts = toks@.map_values(|v: Vec<char>| v@);
    let mut out: Vec<PatternByte> = Vec::new();
    let mut k: usize = 0;
    while k < toks.len()
        invariant
            0 <= k <= toks@.len(),
            ts == toks@.map_values(|v: Vec<char>| v@),
            ts == tokens(text@),
            first_token_error(ts.take(k as int)) is None,
            out@ == meanings(ts.take(k as int)),
        decreases toks@.len() - k,
    {
        assert(ts[k as int] == toks@[k as int]@);
        assert(ts.take(k + 1) =~= ts.take(k as int).push(ts[k as int]));
        proof {
            lemma_first_error_push(ts.take(k as int), ts[k as int]);
            assert(ts[k as int].len() > 0) by {
                lemma_tokens_nonempty(text@);
            }
        }
        match parse_token(&toks[k]) {
            Err(e) => {
                proof {
                    lemma_first_error_prefix(ts, k + 1);
                }
                return Err(e);
            },
            Ok(pb) => {
                out.push(pb);
                assert(meanings(ts.take(k + 1)) =~= meanings(ts.take(k as int)).push(pb));
            },
        }
        k = k + 1;
    }
    assert(ts.take(k as int) =~= ts);
    Ok(out)
}

/// No token is empty.
proof fn lemma_tokens_nonempty(t: Seq<char>)
    ensures
        forall|i: int| 0 <= i < tokens(t).len() ==> (#[trigger] tokens(t)[i]).len() > 0,
{
    lemma_split_state_nonempty(t);
}

proof fn lemma_split_state_nonempty(t: Seq<char>)
    ensures
        forall|i: int| 0 <= i < split_state(t).0.len() ==> (#[trigger] split_state(t).0[i]).len() > 0,
    decreases t.len(),
{
    if t.len() > 0 {
        lemma_split_state_nonempty(t.drop_last());
        let (done, cur) = split_state(t.drop_last());
        assert forall|i: int| 0 <= i < split_state(t).0.len() implies (#[trigger] split_state(t).0[i]).len() > 0 by {
            if i < done.len() {
                assert(split_state(t).0[i] == done[i]);
            }
        }
    }
}

/// Whether `pat` matches `mem` at offset `i`.
fn match_at(mem: &[u8], pat: &Vec<PatternByte>, i: usize) -> (r: bool)
    requires
        i + pat@.len() <= mem@.len(),
    ensures
        r == matches_at(mem@, pat@, i as int),
{
    let n = mem.len();
    let mut j: usize = 0;
    while j < pat.len()
        invariant
            0 <= j <= pat@.len(),
            n == mem@.len(),
            i + pat@.len() <= mem@.len(),
            forall|k: int|
                0 <= k < j ==> match #[trigger] pat@[k] {
                    PatternByte::Any => true,
                    PatternByte::Exact(b) => mem@[i + k] == b,
                },
        decreases pat@.len() - j,
    {
        match pat[j] {
            PatternByte::Any => {},
            PatternByte::Exact(b) => {
                if mem[i + j] != b {
                    return false;
                }
            },
        }
        j = j + 1;
    }
    true
}

/// Whether the pattern token `p` accepts byte `b`.
pub open spec fn accepts(p: PatternByte, b: u8) -> bool {
    match p {
        PatternByte::Any => true,
        PatternByte::Exact(x) => x == b,
    }
}

/// A skip table for `pat` (of length `m`): under a window whose last byte is
/// `b`, no token of the last `table[b] - 1` places before the last one accepts
/// `b`, so the window may move by `table[b]` without passing a match.
pub open spec fn skip_table_ok(pat: Seq<PatternByte>, table: Seq<usize>) -> bool {
    &&& table.len() == 256
    &&& forall|b: int| 0 <= b < 256 ==> 1 <= #[trigger] table[b] <= pat.len()
    &&& forall|b: int, j: int|
        0 <= b < 256 && pat.len() - 1 - table[b] < j <= pat.len() - 2 ==> !#[trigger] accepts(pat[j], b as u8) && 0 <= j
}

/// Builds the skip table of a non-empty pattern.
fn skip_table(pat: &Vec<PatternByte>) -> (r: Vec<usize>)
    requires
        pat@.len() > 0,
    ensures
        skip_table_ok(pat@, r@),
{
    let m = pat.len();
    let mut table: Vec<usize> = Vec::new();
    let mut c: usize = 0;
    while c < 256
        invariant
            0 <= c <= 256,
            table@.len() == c,
            forall|b: int| 0 <= b < c ==> #[trigger] table@[b] == m,
        decreases 256 - c,
    {
        table.push(m);
        c = c + 1;
    }
    let mut j: usize = 0;
    while j + 1 < m
        invariant
            m == pat@.len(),
            m > 0,
            0 <= j <= m - 1,
            table@.len() == 256,
            forall|b: int| 0 <= b < 256 ==> 1 <= #[trigger] table@[b] <= m,
            forall|b: int| 0 <= b < 256 ==> m - 1 - table@[b] < j || #[trigger] table@[b] == m,
            forall|b: int, k: int|
                0 <= b < 256 && m - 1 - table@[b] < k < j ==> !#[trigger] accepts(pat@[k], b as u8)
                    && 0 <= k,
        decreases m - 1 - j,
    {
        match pat[j] {
            PatternByte::Exact(x) => {
                table.set(x as usize, m - 1 - j);
            },
            PatternByte::Any => {
                let mut d: usize = 0;
                while d < 256
                    invariant
                        0 <= d <= 256,
                        m == pat@.len(),
                        0 <= j < m - 1,
                        pat@[j as int] == PatternByte::Any,
                        table@.len() == 256,
                        forall|b: int| 0 <= b < d ==> #[trigger] table@[b] == m - 1 - j,
                        forall|b: int| 0 <= b < 256 ==> 1 <= #[trigger] table@[b] <= m,
                        forall|b: int| d <= b < 256 ==> m - 1 - table@[b] < j || #[trigger] table@[b] == m,
                        forall|b: int, k: int|
                            d <= b < 256 && m - 1 - table@[b] < k < j ==> !#[trigger] accepts(pat@[k], b as u8) && 0 <= k,
                    decreases 256 - d,
                {
                    table.set(d, m - 1 - j);
                    d = d + 1;
                }
            },
        }
        proof {
            assert forall|b: int, k: int|
                0 <= b < 256 && m - 1 - table@[b] < k < j + 1 implies !#[trigger] accepts(pat@[k], b as u8) && 0 <= k by {
                if k == j {
                    assert(table@[b] != m - 1 - j);
                }
            }
        }
        j = j + 1;
    }
    table
}

/// A window that does not match can move by the skip of its last byte.
proof fn lemma_skip_passes_no_match(
    mem: Seq<u8>,
    pat: Seq<PatternByte>,
    table: Seq<usize>,
    i: int,
    t: int,
)
    requires
        skip_table_ok(pat, table),
        pat.len() > 0,
        0 <= i,
        i + pat.len() <= mem.len(),
        1 <= t < table[mem[i + pat.len() - 1] as int],
    ensures
        !matches_at(mem, pat, i + t),
{
    let m = pat.len() as int;
    let b = mem[i + m - 1];
    if matches_at(mem, pat, i + t) {
        let j = m - 1 - t;
        assert(0 <= j < m);
        assert(accepts(pat[j], mem[i + t + j]));
        assert(mem[i + t + j] == b);
        assert(m - 1 - table[b as int] < j <= m - 2);
        assert(!accepts(pat[j], (b as int) as u8));
    }
}

/// Positions where nothing matches add nothing to a scan.
proof fn lemma_scan_skips(mem: Seq<u8>, pat: Seq<PatternByte>, i: int, k: int)
    requires
        0 <= i,
        0 <= k,
        pat.len() > 0,
        forall|t: int| 0 <= t < k ==> !matches_at(mem, pat, #[trigger] (i + t)),
    ensures
        scan_from(mem, pat, i) == scan_from(mem, pat, i + k),
    decreases k,
{
    if k > 0 {
        assert(!matches_at(mem, pat, i + 0));
        assert forall|t: int| 0 <= t < k - 1 implies !matches_at(mem, pat, #[trigger] ((i + 1) + t)) by {
            assert(!matches_at(mem, pat, i + (t + 1)));
        }
        lemma_scan_skips(mem, pat, i + 1, k - 1);
        if i + pat.len() > mem.len() {
            assert(scan_from(mem, pat, i) == Seq::<int>::empty());
            assert(scan_from(mem, pat, i + 1) == Seq::<int>::empty());
        }
    }
}

/// Every non-overlapping match of a parsed signature in `mem`, as offsets. A
/// window that does not match moves by the skip of its last byte.
pub fn find_all(mem: &[u8], pat: &Vec<PatternByte>) -> (r: Vec<usize>)
    ensures
        r@.map_values(|x: usize| x as int) == scan_spec(mem@, pat@),
{
    let mut out: Vec<usize> = Vec::new();
    if pat.len() == 0 {
        assert(out@.map_values(|x: usize| x as int) =~= scan_spec(mem@, pat@));
        return out;
    }
    let table = skip_table(pat);
    let m = pat.len();
    let n = mem.len();
    let mut i: usize = 0;
    while i <= n && m <= n - i
        invariant
            m == pat@.len(),
            m > 0,
            n == mem@.len(),
            skip_table_ok(pat@, table@),
            0 <= i,
            out@.map_values(|x: usize| x as int) + scan_from(mem@, pat@, i as int) == scan_spec(
                mem@,
                pat@,
            ),
        decreases mem@.len() + 1 - i,
    {
        let ghost before = out@.map_values(|x: usize| x as int);
        if match_at(mem, pat, i) {
            out.push(i);
            assert(out@.map_values(|x: usize| x as int) =~= before.push(i as int));
            assert(before.push(i as int) + scan_from(mem@, pat@, i + pat@.len()) =~= before + (
            seq![i as int].add(scan_from(mem@, pat@, i + pat@.len()))));
            i = i + m;
        } else {
            let s = table[mem[i + m - 1] as usize];
            proof {
                assert forall|t: int| 0 <= t < s implies !matches_at(mem@, pat@, #[trigger] (i + t)) by {
                    if t > 0 {
                        lemma_skip_passes_no_match(mem@, pat@, table@, i as int, t);
                    }
                }
                lemma_scan_skips(mem@, pat@, i as int, s as int);
            }
            i = i + s;
        }
    }
    assert(scan_from(mem@, pat@, i as int) =~= Seq::<int>::empty());
    assert(out@.map_values(|x: usize| x as int) + Seq::<int>::empty() =~= out@.map_values(
        |x: usize| x as int,
    ));
    out
}

/// The first match of a parsed signature in `mem`, as an offset.
pub fn find_first(mem: &[u8], pat: &Vec<PatternByte>) -> (r: Option<usize>)
    ensures
        match r {
            Some(i) => scan_spec(mem@, pat@).len() > 0 && scan_spec(mem@, pat@)[0] == i as int,
            None => scan_spec(mem@, pat@).len() == 0,
        },
{
    if pat.len() == 0 {
        return None;
    }
    let table = skip_table(pat);
    let m = pat.len();
    let n = mem.len();
    let mut i: usize = 0;
    while i <= n && m <= n - i
        invariant
            m == pat@.len(),
            m > 0,
            n == mem@.len(),
            skip_table_ok(pat@, table@),
            scan_from(mem@, pat@, i as int) == scan_spec(mem@, pat@),
        decreases mem@.len() + 1 - i,
    {
        if match_at(mem, pat, i) {
            return Some(i);
        }
        let s = table[mem[i + m - 1] as usize];
        proof {
            assert forall|t: int| 0 <= t < s implies !matches_at(mem@, pat@, #[trigger] (i + t)) by {
                if t > 0 {
                    lemma_skip_passes_no_match(mem@, pat@, table@, i as int, t);
                }
            }
            lemma_scan_skips(mem@, pat@, i as int, s as int);
        }
        i = i + s;
    }
    None
}

/// Every offset a scan reports is a match, the offsets increase, and no two
/// reported matches overlap.
pub proof fn lemma_scan_sound(mem: Seq<u8>, pat: Seq<PatternByte>)
    ensures
        forall|k: int|
            0 <= k < scan_spec(mem, pat).len() ==> matches_at(mem, pat, #[trigger] scan_spec(mem, pat)[k]),
        forall|k: int|
            0 <= k < scan_spec(mem, pat).len() - 1 ==> #[trigger] scan_spec(mem, pat)[k] + pat.len()
                <= scan_spec(mem, pat)[k + 1],
{
    lemma_scan_from_sound(mem, pat, 0);
}

proof fn lemma_scan_from_sound(mem: Seq<u8>, pat: Seq<PatternByte>, i: int)
    ensures
        forall|k: int|
            0 <= k < scan_from(mem, pat, i).len() ==> matches_at(mem, pat, #[trigger] scan_from(mem, pat, i)[k])
                && scan_from(mem, pat, i)[k] >= i,
        forall|k: int|
            0 <= k < scan_from(mem, pat, i).len() - 1 ==> #[trigger] scan_from(mem, pat, i)[k]
                + pat.len() <= scan_from(mem, pat, i)[k + 1],
    decreases mem.len() - i,
{
    if i < 0 || pat.len() == 0 || i + pat.len() > mem.len() {
    } else if matches_at(mem, pat, i) {
        lemma_scan_from_sound(mem, pat, i + pat.len());
        let rest = scan_from(mem, pat, i + pat.len());
        let all = scan_from(mem, pat, i);
        assert(all == seq![i].add(rest));
        assert forall|k: int| 0 <= k < all.len() implies matches_at(mem, pat, #[trigger] all[k]) && all[k] >= i by {
            if k > 0 {
                assert(all[k] == rest[k - 1]);
            }
        }
        assert forall|k: int| 0 <= k < all.len() - 1 implies #[trigger] all[k] + pat.len() <= all[k + 1] by {
            assert(all[k + 1] == rest[k]);
            if k > 0 {
                assert(all[k] == rest[k - 1]);
            }
        }
    } else {
        lemma_scan_from_sound(mem, pat, i + 1);
        assert(scan_from(mem, pat, i) == scan_from(mem, pat, i + 1));
    }
}

/// Every place where the pattern matches is either reported or lies inside a
/// reported match: the scan misses no match that does not overlap one it found.
pub proof fn lemma_scan_complete(mem: Seq<u8>, pat: Seq<PatternByte>, j: int)
    requires
        pat.len() > 0,
        matches_at(mem, pat, j),
    ensures
        exists|k: int|
            0 <= k < scan_spec(mem, pat).len() && #[trigger] scan_spec(mem, pat)[k] <= j < scan_spec(mem, pat)[k]
                + pat.len(),
{
    lemma_scan_from_complete(mem, pat, 0, j);
    let k = choose|k: int|
        0 <= k < scan_from(mem, pat, 0).len() && #[trigger] scan_from(mem, pat, 0)[k] <= j
            < scan_from(mem, pat, 0)[k] + pat.len();
    assert(scan_spec(mem, pat)[k] == scan_from(mem, pat, 0)[k]);
}

proof fn lemma_scan_from_complete(mem: Seq<u8>, pat: Seq<PatternByte>, i: int, j: int)
    requires
        pat.len() > 0,
        0 <= i <= j,
        matches_at(mem, pat, j),
    ensures
        exists|k: int|
            0 <= k < scan_from(mem, pat, i).len() && #[trigger] scan_from(mem, pat, i)[k] <= j
                < scan_from(mem, pat, i)[k] + pat.len(),
    decreases mem.len() - i,
{
    let all = scan_from(mem, pat, i);
    if matches_at(mem, pat, i) {
        let rest = scan_from(mem, pat, i + pat.len());
        assert(all == seq![i].add(rest));
        if j < i + pat.len() {
            assert(all[0] == i);
        } else {
            lemma_scan_from_complete(mem, pat, i + pat.len(), j);
            let k = choose|k: int| 0 <= k < rest.len() && #[trigger] rest[k] <= j < rest[k] + pat.len();
            assert(all[k + 1] == rest[k]);
        }
    } else {
        assert(i != j);
        lemma_scan_from_complete(mem, pat, i + 1, j);
        assert(all == scan_from(mem, pat, i + 1));
    }
}

/// The scan is the leftmost one: no match starts before the first reported
/// offset, between the end of one reported match and the next offset, or
/// after the end of the last reported match; where nothing is reported,
/// nothing matches.
pub proof fn lemma_scan_leftmost(mem: Seq<u8>, pat: Seq<PatternByte>)
    requires
        pat.len() > 0,
    ensures
        ({
            let s = scan_spec(mem, pat);
            &&& s.len() == 0 ==> forall|j: int| 0 <= j ==> !#[trigger] matches_at(mem, pat, j)
            &&& s.len() > 0 ==> forall|j: int| 0 <= j < s[0] ==> !#[trigger] matches_at(mem, pat, j)
            &&& forall|k: int, j: int|
                #![trigger matches_at(mem, pat, j), s[k]]
                0 <= k < s.len() - 1 && s[k] + pat.len() <= j < s[k + 1] ==> !matches_at(mem, pat, j)
            &&& s.len() > 0 ==> forall|j: int|
                s[s.len() - 1] + pat.len() <= j ==> !#[trigger] matches_at(mem, pat, j)
        }),
{
    lemma_scan_from_leftmost(mem, pat, 0);
}

proof fn lemma_scan_from_leftmost(mem: Seq<u8>, pat: Seq<PatternByte>, i: int)
    requires
        pat.len() > 0,
        0 <= i,
    ensures
        ({
            let s = scan_from(mem, pat, i);
            &&& s.len() == 0 ==> forall|j: int| i <= j ==> !#[trigger] matches_at(mem, pat, j)
            &&& s.len() > 0 ==> forall|j: int| i <= j < s[0] ==> !#[trigger] matches_at(mem, pat, j)
            &&& forall|k: int, j: int|
                #![trigger matches_at(mem, pat, j), s[k]]
                0 <= k < s.len() - 1 && s[k] + pat.len() <= j < s[k + 1] ==> !matches_at(mem, pat, j)
            &&& s.len() > 0 ==> forall|j: int|
                s[s.len() - 1] + pat.len() <= j ==> !#[trigger] matches_at(mem, pat, j)
        }),
    decreases mem.len() - i,
{
    let s = scan_from(mem, pat, i);
    if i + pat.len() > mem.len() {
        assert forall|j: int| i <= j implies !#[trigger] matches_at(mem, pat, j) by {}
    } else if matches_at(mem, pat, i) {
        lemma_scan_from_leftmost(mem, pat, i + pat.len());
        let rest = scan_from(mem, pat, i + pat.len());
        assert(s == seq![i].add(rest));
        assert forall|k: int, j: int|
            #![trigger matches_at(mem, pat, j), s[k]]
            0 <= k < s.len() - 1 && s[k] + pat.len() <= j < s[k + 1] implies !matches_at(mem, pat, j) by {
            assert(s[k + 1] == rest[k]);
            if k > 0 {
                assert(s[k] == rest[k - 1]);
            }
        }
        if rest.len() > 0 {
            assert(s[s.len() - 1] == rest[rest.len() - 1]);
        }
    } else {
        lemma_scan_from_leftmost(mem, pat, i + 1);
        assert(s == scan_from(mem, pat, i + 1));
    }
}

} // verus!
