//! The memory layer: signature scans over a byte range that starts at a known
//! address, and the checks made before raw memory is read or written.
use vstd::prelude::*;

use crate::error::MemoryError;
use crate::text::concat_str;
use crate::pattern::{
    find_all, find_first, matches_at, parse_pattern, parse_spec, scan_from, scan_spec, PatternByte,
    TokenError,
};

verus! {

/// Whether an address lies in the low guard area or above the signed range,
/// where no readable object can live.
pub open spec fn reserved(address: int) -> bool {
    address <= 0x10000 || address > 0x7fff_ffff_ffff_ffff
}

/// Access rights of a memory page, as the platform reports them.
#[derive(Clone, Copy, Debug, PartialEq, Eq, Structural)]
pub struct MemoryPermission {
    pub read: bool,
    pub write: bool,
    pub execute: bool,
    pub commit: bool,
}

/// What a scan of `mem`, which starts at `base`, for the signature `text` gives:
/// the absolute addresses of every non-overlapping match, or the error.
pub open spec fn scan_outcome(base: int, mem: Seq<u8>, text: Seq<char>) -> Result<
    Seq<int>,
    MemoryError,
> {
    match parse_spec(text) {
        Err(e) => Err(MemoryError::InvalidPattern(e)),
        Ok(p) => if p.len() == 0 {
            Err(MemoryError::EmptyPattern)
        } else if scan_spec(mem, p).len() == 0 {
            Err(MemoryError::NotFound)
        } else {
            Ok(scan_spec(mem, p).map_values(|i: int| base + i))
        },
    }
}

proof fn lemma_scan_bounds(mem: Seq<u8>, pat: Seq<PatternByte>, i: int)
    requires
        0 <= i,
    ensures
        forall|k: int|
            0 <= k < scan_from(mem, pat, i).len() ==> i <= #[trigger] scan_from(mem, pat, i)[k]
                < mem.len(),
    decreases mem.len() - i,
{
    if i < 0 || pat.len() == 0 || i + pat.len() > mem.len() {
    } else if matches_at(mem, pat, i) {
        lemma_scan_bounds(mem, pat, i + pat.len());
        let s = scan_from(mem, pat, i);
        let rest = scan_from(mem, pat, i + pat.len());
        assert(s == seq![i].add(rest));
        assert forall|k: int| 0 <= k < s.len() implies i <= #[trigger] s[k] < mem.len() by {
            if k > 0 {
                assert(s[k] == rest[k - 1]);
            } else {
                assert(s[k] == i);
            }
        }
    } else {
        lemma_scan_bounds(mem, pat, i + 1);
        assert(scan_from(mem, pat, i) == scan_from(mem, pat, i + 1));
    }
}
/// Memory helpers that work on plain values: the caller reads the bytes and the
/// page permissions, these functions decide.
pub struct MemoryUtils;

impl MemoryUtils {
    /// Parses `pattern`, rejecting an empty one.
    fn parse_nonempty(pattern: &str) -> (r: Result<Vec<PatternByte>, MemoryError>)
        ensures
            match parse_spec(pattern@) {
                Err(e) => r == Err::<Vec<PatternByte>, MemoryError>(MemoryError::InvalidPattern(e)),
                Ok(p) => if p.len() == 0 {
                    r == Err::<Vec<PatternByte>, MemoryError>(MemoryError::EmptyPattern)
                } else {
                    r is Ok && r->Ok_0@ == p
                },
            },
    {
        match parse_pattern(pattern) {
            Err(e) => Err(MemoryError::InvalidPattern(e)),
            Ok(p) => if p.len() == 0 {
                Err(MemoryError::EmptyPattern)
            } else {
                Ok(p)
            },
        }
    }

    /// The address of the first match of `pattern` in `memory`, which starts at `base`.
    pub fn scan_first(base: usize, memory: &[u8], pattern: &str) -> (r: Result<
        usize,
        MemoryError,
    >)
        requires
            base + memory@.len() <= usize::MAX,
        ensures
            match scan_outcome(base as int, memory@, pattern@) {
                Err(e) => r == Err::<usize, MemoryError>(e),
                Ok(addrs) => r is Ok && r->Ok_0 as int == addrs[0],
            },
    {
        let p = match Self::parse_nonempty(pattern) {
            Err(e) => {
                return Err(e);
            },
            Ok(p) => p,
        };
        match find_first(memory, &p) {
            None => Err(MemoryError::NotFound),
            Some(i) => {
                proof {
                    lemma_scan_bounds(memory@, p@, 0);
                }
                Ok(base + i)
            },
        }
    }

    /// The addresses of every non-overlapping match of `pattern` in `memory`,
    /// which starts at `base`, in increasing order; no match is an error.
    pub fn scan_all(base: usize, memory: &[u8], pattern: &str) -> (r: Result<
        Vec<usize>,
        MemoryError,
    >)
        requires
            base + memory@.len() <= usize::MAX,
        ensures
            match scan_outcome(base as int, memory@, pattern@) {
                Err(e) => r == Err::<Vec<usize>, MemoryError>(e),
                Ok(addrs) => r is Ok && r->Ok_0@.map_values(|a: usize| a as int) == addrs,
            },
    {
        let p = match Self::parse_nonempty(pattern) {
            Err(e) => {
                return Err(e);
            },
            Ok(p) => p,
        };
        let offsets = find_all(memory, &p);
        if offsets.len() == 0 {
            assert(offsets@.map_values(|x: usize| x as int).len() == 0);
            return Err(MemoryError::NotFound);
        }
        let ghost spec_offsets = scan_spec(memory@, p@);
        proof {
            lemma_scan_bounds(memory@, p@, 0);
            assert(offsets@.map_values(|x: usize| x as int) == spec_offsets);
        }
        let mut out: Vec<usize> = Vec::new();
        let mut k: usize = 0;
        while k < offsets.len()
            invariant
                0 <= k <= offsets@.len(),
                offsets@.map_values(|x: usize| x as int) == spec_offsets,
                base + memory@.len() <= usize::MAX,
                forall|j: int| 0 <= j < spec_offsets.len() ==> 0 <= #[trigger] spec_offsets[j] < memory@.len(),
                out@.len() == k,
                forall|j: int| 0 <= j < k ==> #[trigger] out@[j] as int == base + spec_offsets[j],
            decreases offsets@.len() - k,
        {
            assert(offsets@.map_values(|x: usize| x as int)[k as int] == offsets@[k as int] as int);
            out.push(base + offsets[k]);
            k = k + 1;
        }
        assert(out@.map_values(|a: usize| a as int) =~= spec_offsets.map_values(
            |i: int| base + i,
        ));
        Ok(out)
    }

    /// The address of the only match of `pattern` in `memory`, which starts at
    /// `base`; several matches are an error of their own.
    pub fn scan_unique(base: usize, memory: &[u8], pattern: &str) -> (r: Result<
        usize,
        MemoryError,
    >)
        requires
            base + memory@.len() <= usize::MAX,
        ensures
            match scan_outcome(base as int, memory@, pattern@) {
                Err(e) => r == Err::<usize, MemoryError>(e),
                Ok(addrs) => if addrs.len() == 1 {
                    r is Ok && r->Ok_0 as int == addrs[0]
                } else {
                    r == Err::<usize, MemoryError>(MemoryError::MultipleMatchesFound)
                },
            },
    {
        let all = Self::scan_all(base, memory, pattern)?;
        if all.len() == 1 {
            assert(all@.map_values(|a: usize| a as int)[0] == all@[0] as int);
            Ok(all[0])
        } else {
            Err(MemoryError::MultipleMatchesFound)
        }
    }

    /// Whether an address lies where no readable object can live.
    pub fn is_in_reserved_range(address: usize) -> (r: bool)
        ensures
            r == reserved(address as int),
    {
        address <= 0x10000 || address as u64 > 0x7fff_ffff_ffff_ffffu64
    }

    /// Checks that a page can be read and written.
    pub fn check_permission_rw(address: usize, permission: MemoryPermission) -> (r: Result<
        (),
        MemoryError,
    >)
        ensures
            r is Ok <==> (permission.read && permission.write),
            r is Err ==> r == Err::<(), MemoryError>(MemoryError::PagePermNoRead(address)),
    {
        if !(permission.read && permission.write) {
            return Err(MemoryError::PagePermNoRead(address));
        }
        Ok(())
    }

    /// Checks that a page holds executable code.
    pub fn check_permission_execute(address: usize, permission: MemoryPermission) -> (r: Result<
        (),
        MemoryError,
    >)
        ensures
            r is Ok <==> permission.execute,
            r is Err ==> r == Err::<(), MemoryError>(MemoryError::PagePermNoRead(address)),
    {
        if !permission.execute {
            return Err(MemoryError::PagePermNoRead(address));
        }
        Ok(())
    }

    /// Checks that a page is committed, before a hook is placed in it.
    pub fn check_page_commit(address: usize, permission: MemoryPermission) -> (r: Result<
        (),
        MemoryError,
    >)
        ensures
            r is Ok <==> permission.commit,
            r is Err ==> r == Err::<(), MemoryError>(MemoryError::PageNotCommit(address)),
    {
        if !permission.commit {
            return Err(MemoryError::PageNotCommit(address));
        }
        Ok(())
    }

    /// Decides whether `size` bytes may be read at `address`. `permission` is the
    /// page's access rights where the caller asked for a checked read, `None`
    /// for an unchecked one.
    pub fn check_read(address: usize, size: usize, permission: Option<MemoryPermission>) -> (r:
        Result<(), MemoryError>)
        ensures
            r == (if size == 0 {
                Err::<(), MemoryError>(MemoryError::InvalidSize(size))
            } else if reserved(address as int) {
                Err(MemoryError::PagePermNoRead(address))
            } else if permission is Some && !permission->Some_0.read {
                Err(MemoryError::PagePermNoRead(address))
            } else {
                Ok(())
            }),
    {
        if size == 0 {
            return Err(MemoryError::InvalidSize(size));
        }
        if Self::is_in_reserved_range(address) {
            return Err(MemoryError::PagePermNoRead(address));
        }
        if let Some(p) = permission {
            if !p.read {
                return Err(MemoryError::PagePermNoRead(address));
            }
        }
        Ok(())
    }

    /// Decides whether a read of at most eight bytes may be made.
    pub fn check_quick_read(address: usize, size: u32, permission: Option<MemoryPermission>) -> (r:
        Result<(), MemoryError>)
        ensures
            r == (if size == 0 || size > 8 {
                Err::<(), MemoryError>(MemoryError::InvalidSize(size as usize))
            } else if reserved(address as int) {
                Err(MemoryError::PagePermNoRead(address))
            } else if permission is Some && !permission->Some_0.read {
                Err(MemoryError::PagePermNoRead(address))
            } else {
                Ok(())
            }),
    {
        if size == 0 || size > 8 {
            return Err(MemoryError::InvalidSize(size as usize));
        }
        Self::check_read(address, size as usize, permission)
    }

    /// Decides whether `len` bytes may be written at `address`. Nothing to write
    /// is always allowed.
    pub fn check_write(address: usize, len: usize, permission: Option<MemoryPermission>) -> (r:
        Result<(), MemoryError>)
        ensures
            r == (if len == 0 {
                Ok::<(), MemoryError>(())
            } else if reserved(address as int) {
                Err(MemoryError::PagePermNoWrite(address))
            } else if permission is Some && !permission->Some_0.write {
                Err(MemoryError::PagePermNoWrite(address))
            } else {
                Ok(())
            }),
    {
        if len == 0 {
            return Ok(());
        }
        if Self::is_in_reserved_range(address) {
            return Err(MemoryError::PagePermNoWrite(address));
        }
        if let Some(p) = permission {
            if !p.write {
                return Err(MemoryError::PagePermNoWrite(address));
            }
        }
        Ok(())
    }
}

/// The byte a pattern token stands for in a byte string: a wildcard becomes 0xFF.
pub open spec fn token_byte(b: PatternByte) -> u8 {
    match b {
        PatternByte::Exact(x) => x,
        PatternByte::Any => 0xFF,
    }
}

/// The reason `u8::from_str_radix` gives for a token that is no byte.
pub open spec fn token_error_text(e: TokenError) -> Seq<char> {
    match e {
        TokenError::InvalidDigit => "invalid digit found in string"@,
        TokenError::TooLarge => "number too large to fit in target type"@,
    }
}

/// Reads whitespace-separated hexadecimal bytes; wildcard tokens read as 0xFF.
/// A token that is no byte gives `Failed to parse hex byte: ` and the reason.
pub fn space_hex_to_bytes(text_hex: &str) -> (r: Result<Vec<u8>, String>)
    ensures
        match parse_spec(text_hex@) {
            Ok(p) => r is Ok && r->Ok_0@ == p.map_values(|b: PatternByte| token_byte(b)),
            Err(e) => r is Err && r->Err_0@ == "Failed to parse hex byte: "@ + token_error_text(e),
        },
{
    match parse_pattern(text_hex) {
        Err(e) => {
            let reason = match e {
                TokenError::InvalidDigit => "invalid digit found in string",
                TokenError::TooLarge => "number too large to fit in target type",
            };
            Err(concat_str("Failed to parse hex byte: ", reason))
        },
        Ok(p) => {
            let mut out: Vec<u8> = Vec::new();
            let mut i: usize = 0;
            while i < p.len()
                invariant
                    0 <= i <= p@.len(),
                    out@ =~= p@.take(i as int).map_values(|b: PatternByte| token_byte(b)),
                decreases p@.len() - i,
            {
                let b = match p[i] {
                    PatternByte::Exact(x) => x,
                    PatternByte::Any => 0xFF,
                };
                out.push(b);
                i = i + 1;
            }
            assert(p@.take(i as int) =~= p@);
            Ok(out)
        },
    }
}

} // verus!
