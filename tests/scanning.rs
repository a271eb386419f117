use lua_framework::error::{Error, MemoryError};
use lua_framework::address::{AddressRecord, AddressRepository};
use lua_framework::memory::{space_hex_to_bytes, MemoryPermission, MemoryUtils};
use lua_framework::pattern::{parse_pattern, PatternByte, TokenError};

#[test]
fn test_pattern_scan() {
    let pattern =
        "81 08 10 00 00 48 ? ? ? ? ? ? 66 44 89 01 48 3B D0 74 ? 44 89 ? ? ? ? ? 44 88 00";
    let bytes = space_hex_to_bytes("45 33 C0 48 8D 81 08 10 00 00 48 8D 15 B7 FF AA 00 66 44 89 01 48 3B D0 74 0A 44 89 81 04 10 00 00 44 88 00").unwrap();
    let bytes_slice = bytes.as_slice();
    let found = MemoryUtils::scan_first(0, bytes_slice, pattern).unwrap();
    assert_eq!(found, 5);
}

#[test]
fn parses_bytes_and_wildcards() {
    let p = parse_pattern("AA ?? * ** ? 0f +1").unwrap();
    assert_eq!(
        p,
        vec![
            PatternByte::Exact(0xAA),
            PatternByte::Any,
            PatternByte::Any,
            PatternByte::Any,
            PatternByte::Any,
            PatternByte::Exact(0x0F),
            PatternByte::Exact(0x01),
        ]
    );
}

#[test]
fn parse_rejects_bad_tokens() {
    assert_eq!(parse_pattern("AA GG"), Err(TokenError::InvalidDigit));
    assert_eq!(parse_pattern("100"), Err(TokenError::TooLarge));
    assert_eq!(parse_pattern("+"), Err(TokenError::InvalidDigit));
    assert_eq!(parse_pattern("FFF G"), Err(TokenError::TooLarge));
    assert_eq!(parse_pattern("0x10"), Err(TokenError::InvalidDigit));
    assert_eq!(parse_pattern("  \t\n"), Ok(vec![]));
}

#[test]
fn space_hex_reads_wildcards_as_ff() {
    assert_eq!(space_hex_to_bytes("01 ?? 7f").unwrap(), vec![0x01, 0xFF, 0x7F]);
    assert_eq!(
        space_hex_to_bytes("01 zz"),
        Err("Failed to parse hex byte: invalid digit found in string".to_string())
    );
    assert_eq!(
        space_hex_to_bytes("1FF"),
        Err("Failed to parse hex byte: number too large to fit in target type".to_string())
    );
}

#[test]
fn scan_all_returns_non_overlapping_matches() {
    let mem = [0xAAu8, 0xAA, 0xAA, 0xAA, 0xAA];
    assert_eq!(MemoryUtils::scan_all(100, &mem, "AA AA").unwrap(), vec![100, 102]);
    let mem2 = [1u8, 2, 3, 1, 9, 3, 1, 2];
    assert_eq!(MemoryUtils::scan_all(0, &mem2, "01 ?? 03").unwrap(), vec![0, 3]);
}

#[test]
fn scan_without_match_is_not_found() {
    let mem = [1u8, 2, 3];
    assert_eq!(MemoryUtils::scan_all(0, &mem, "04"), Err(MemoryError::NotFound));
    assert_eq!(MemoryUtils::scan_first(0, &mem, "02 04"), Err(MemoryError::NotFound));
    assert_eq!(MemoryUtils::scan_first(0, &mem, "01 02 03 04"), Err(MemoryError::NotFound));
    assert_eq!(MemoryUtils::scan_first(0, &[], "01"), Err(MemoryError::NotFound));
}

#[test]
fn scan_rejects_empty_and_invalid_patterns() {
    let mem = [1u8, 2, 3];
    assert_eq!(MemoryUtils::scan_first(0, &mem, ""), Err(MemoryError::EmptyPattern));
    assert_eq!(
        MemoryUtils::scan_all(0, &mem, "x1"),
        Err(MemoryError::InvalidPattern(TokenError::InvalidDigit))
    );
}

#[test]
fn scan_unique_distinguishes_many_from_none() {
    let mem = [5u8, 6, 5, 6, 7];
    assert_eq!(MemoryUtils::scan_unique(10, &mem, "06 07"), Ok(13));
    assert_eq!(MemoryUtils::scan_unique(10, &mem, "05 06"), Err(MemoryError::MultipleMatchesFound));
    assert_eq!(MemoryUtils::scan_unique(10, &mem, "08"), Err(MemoryError::NotFound));
}

#[test]
fn scan_first_adds_base() {
    let mem = [0u8, 0, 0x48, 0x8B];
    assert_eq!(MemoryUtils::scan_first(0x1000, &mem, "48 8B"), Ok(0x1002));
}

#[test]
fn resolve_record_scenario() {
    let mut repo = AddressRepository::new();
    repo.set_record(AddressRecord::new("X", "AA BB ?? DD", 2));
    let mem = [0xAAu8, 0xBB, 0xCC, 0xDD];
    let base = 0x4000;
    assert_eq!(repo.get_address("X", base, &mem), Ok(base + 2));
}

#[test]
fn resolution_is_cached() {
    let mut repo = AddressRepository::new();
    repo.set_record(AddressRecord::new("F", "11 22", -1));
    let mut mem = vec![0u8, 0x11, 0x22, 0];
    let first = repo.get_address("F", 0x100, &mem).unwrap();
    assert_eq!(first, 0x100);
    assert_eq!(repo.get_address("F", 0x100, &mem), Ok(first));
    mem[1] = 0;
    mem[2] = 0x11;
    mem[3] = 0x22;
    assert_eq!(repo.get_address("F", 0x100, &mem), Ok(first));
    repo.set_record(AddressRecord::new("F", "33", 0));
    assert_eq!(repo.get_address("F", 0x100, &mem), Ok(first));
    repo.invalidate("F");
    assert_eq!(repo.get_address("F", 0x100, &mem), Err(Error::Memory(MemoryError::NotFound)));
}

#[test]
fn resolve_errors() {
    let mut repo = AddressRepository::new();
    let mem = [1u8, 2, 3];
    assert_eq!(repo.get_address("nope", 0, &mem), Err(Error::AddressRecordNotFound("nope".to_string())));
    repo.set_record(AddressRecord::new("low", "01", -5));
    assert_eq!(repo.get_address("low", 0, &mem), Err(Error::AddressOutOfRange("low".to_string())));
    repo.set_record(AddressRecord::new("bad", "zz", 0));
    assert_eq!(
        repo.get_address("bad", 0, &mem),
        Err(Error::Memory(MemoryError::InvalidPattern(TokenError::InvalidDigit)))
    );
}

#[test]
fn get_or_insert_registers_only_when_missing() {
    let mut repo = AddressRepository::new();
    let mem = [9u8, 8, 7];
    assert_eq!(repo.get_or_insert(AddressRecord::new("A", "08", 0), 50, &mem), Ok(51));
    assert_eq!(repo.get_or_insert(AddressRecord::new("A", "07", 0), 50, &mem), Ok(51));
    repo.set_record(AddressRecord::new("B", "06", 0));
    assert_eq!(repo.get_or_insert(AddressRecord::new("B", "07", 0), 50, &mem), Ok(52));
    repo.set_record(AddressRecord::new("C", "zz", 0));
    assert_eq!(
        repo.get_or_insert(AddressRecord::new("C", "07", 0), 50, &mem),
        Err(Error::Memory(MemoryError::InvalidPattern(TokenError::InvalidDigit)))
    );
}

#[test]
fn builtin_records_are_known() {
    let mut repo = AddressRepository::new_with_internal();
    let mem = [0u8; 4];
    assert!(!matches!(
        repo.get_address(AddressRepository::MONSTER_CTOR, 0, &mem),
        Err(Error::AddressRecordNotFound(_))
    ));
    assert_eq!(
        repo.get_address(AddressRepository::MONSTER_CTOR, 0, &mem),
        Err(Error::Memory(MemoryError::NotFound))
    );
}

#[test]
fn permission_checks() {
    let rw = MemoryPermission { read: true, write: true, execute: false, commit: true };
    let ro = MemoryPermission { read: true, write: false, execute: true, commit: false };
    assert_eq!(MemoryUtils::check_permission_rw(0x5000, rw), Ok(()));
    assert_eq!(MemoryUtils::check_permission_rw(0x5000, ro), Err(MemoryError::PagePermNoRead(0x5000)));
    assert_eq!(MemoryUtils::check_permission_execute(0x5000, ro), Ok(()));
    assert_eq!(MemoryUtils::check_permission_execute(0x5000, rw), Err(MemoryError::PagePermNoRead(0x5000)));
    assert_eq!(MemoryUtils::check_page_commit(0x5000, ro), Err(MemoryError::PageNotCommit(0x5000)));
    assert_eq!(MemoryUtils::check_page_commit(0x5000, rw), Ok(()));
}

#[test]
fn read_and_write_checks() {
    let ro = MemoryPermission { read: true, write: false, execute: false, commit: true };
    assert!(MemoryUtils::is_in_reserved_range(0x10000));
    assert!(!MemoryUtils::is_in_reserved_range(0x10001));
    assert!(MemoryUtils::is_in_reserved_range(0x8000_0000_0000_0000));
    assert_eq!(MemoryUtils::check_read(0x20000, 0, None), Err(MemoryError::InvalidSize(0)));
    assert_eq!(MemoryUtils::check_read(0x100, 4, None), Err(MemoryError::PagePermNoRead(0x100)));
    assert_eq!(MemoryUtils::check_read(0x20000, 4, Some(ro)), Ok(()));
    assert_eq!(MemoryUtils::check_quick_read(0x20000, 9, None), Err(MemoryError::InvalidSize(9)));
    assert_eq!(MemoryUtils::check_quick_read(0x20000, 8, None), Ok(()));
    assert_eq!(MemoryUtils::check_write(0x20000, 0, Some(ro)), Ok(()));
    assert_eq!(MemoryUtils::check_write(0x20000, 2, Some(ro)), Err(MemoryError::PagePermNoWrite(0x20000)));
    assert_eq!(MemoryUtils::check_write(0x20000, 2, None), Ok(()));
}

fn naive_scan(mem: &[u8], pat: &[Option<u8>]) -> Vec<usize> {
    let mut out = Vec::new();
    let mut i = 0;
    while i + pat.len() <= mem.len() {
        if pat.iter().enumerate().all(|(j, p)| p.map_or(true, |b| mem[i + j] == b)) {
            out.push(i);
            i += pat.len();
        } else {
            i += 1;
        }
    }
    out
}

#[test]
fn skip_search_agrees_with_direct_scan() {
    let mut seed: u32 = 12345;
    let mut next = move || {
        seed = seed.wrapping_mul(1103515245).wrapping_add(12345);
        (seed >> 16) as u8
    };
    for round in 0..300 {
        let len = 20 + (round % 40);
        let mem: Vec<u8> = (0..len).map(|_| next() % 4).collect();
        let plen = 1 + (round % 5);
        let pat: Vec<Option<u8>> = (0..plen)
            .map(|_| {
                let v = next();
                if v % 5 == 0 { None } else { Some(v % 4) }
            })
            .collect();
        let text = pat
            .iter()
            .map(|p| match p {
                None => "??".to_string(),
                Some(b) => format!("{:02X}", b),
            })
            .collect::<Vec<_>>()
            .join(" ");
        let expected = naive_scan(&mem, &pat);
        let got = MemoryUtils::scan_all(0, &mem, &text);
        if expected.is_empty() {
            assert_eq!(got, Err(MemoryError::NotFound));
            assert_eq!(MemoryUtils::scan_first(0, &mem, &text), Err(MemoryError::NotFound));
        } else {
            assert_eq!(got, Ok(expected.clone()));
            assert_eq!(MemoryUtils::scan_first(0, &mem, &text), Ok(expected[0]));
        }
    }
}

#[test]
fn skip_search_with_trailing_wildcard() {
    let mem = [0x10u8, 0x20, 0x30, 0x10, 0x20, 0x99, 0x10, 0x21];
    assert_eq!(MemoryUtils::scan_all(0, &mem, "10 20 ??").unwrap(), vec![0, 3]);
    assert_eq!(MemoryUtils::scan_all(0, &mem, "?? 21").unwrap(), vec![6]);
}

#[test]
fn tokens_split_on_unicode_whitespace() {
    assert_eq!(
        parse_pattern("AA\u{3000}BB\u{a0}??\u{2028}CC").unwrap(),
        vec![PatternByte::Exact(0xAA), PatternByte::Exact(0xBB), PatternByte::Any, PatternByte::Exact(0xCC)]
    );
    assert_eq!(space_hex_to_bytes("01\u{85}02").unwrap(), vec![1, 2]);
    assert_eq!(parse_pattern("AA\u{200b}BB"), Err(TokenError::InvalidDigit));
}
