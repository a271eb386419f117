//! The address resolver: named signature records and the cache of their
//! resolved addresses.
use vstd::prelude::*;

use crate::error::{Error, MemoryError};
use crate::memory::{scan_outcome, MemoryUtils};
use crate::text::str_eq;

verus! {

/// A named signature and the offset that turns its first match into the address
/// the name stands for.
#[derive(Clone, Debug)]
pub struct AddressRecord {
    pub name: String,
    pub pattern: String,
    pub offset: isize,
}

impl AddressRecord {
    pub fn new(name: &str, pattern: &str, offset: isize) -> (r: AddressRecord)
        ensures
            r.name@ == name@,
            r.pattern@ == pattern@,
            r.offset == offset,
    {
        AddressRecord { name: name.to_owned(), pattern: pattern.to_owned(), offset }
    }

    /// A copy of the record.
    pub fn duplicate(&self) -> (r: AddressRecord)
        ensures
            r.name@ == self.name@,
            r.pattern@ == self.pattern@,
            r.offset == self.offset,
    {
        AddressRecord { name: self.name.clone(), pattern: self.pattern.clone(), offset: self.offset }
    }
}

/// The records of a table as a map from name to signature and offset; a later
/// entry of a name replaces an earlier one.
pub open spec fn record_entries(s: Seq<AddressRecord>) -> Map<Seq<char>, (Seq<char>, int)>
    decreases s.len(),
{
    if s.len() == 0 {
        Map::empty()
    } else {
        record_entries(s.drop_last()).insert(
            s.last().name@,
            (s.last().pattern@, s.last().offset as int),
        )
    }
}

/// The cache as a map from name to address; a later entry replaces an earlier one.
pub open spec fn cache_entries(s: Seq<(String, usize)>) -> Map<Seq<char>, usize>
    decreases s.len(),
{
    if s.len() == 0 {
        Map::empty()
    } else {
        cache_entries(s.drop_last()).insert(s.last().0@, s.last().1)
    }
}

/// How a name resolves against a cache, a record table and a memory range.
pub enum Resolution {
    /// The cache holds the address.
    Cached(usize),
    /// Neither the cache nor the table knows the name.
    NoRecord,
    /// The record's signature could not be found.
    ScanFailed(MemoryError),
    /// The offset takes the match outside the address space.
    OutOfRange,
    /// A fresh scan found this address; it is cached from now on.
    Found(usize),
}

/// The outcome of resolving `name` over `mem`, which starts at `base`.
pub open spec fn resolution(
    cache: Map<Seq<char>, usize>,
    records: Map<Seq<char>, (Seq<char>, int)>,
    name: Seq<char>,
    base: int,
    mem: Seq<u8>,
) -> Resolution {
    if cache.contains_key(name) {
        Resolution::Cached(cache[name])
    } else if !records.contains_key(name) {
        Resolution::NoRecord
    } else {
        let (pattern, offset) = records[name];
        match scan_outcome(base, mem, pattern) {
            Err(e) => Resolution::ScanFailed(e),
            Ok(addrs) => if 0 <= addrs[0] + offset <= usize::MAX {
                Resolution::Found((addrs[0] + offset) as usize)
            } else {
                Resolution::OutOfRange
            },
        }
    }
}

/// Whether `r`, and the cache going from `before` to `after`, are what the
/// resolution `res` of `name` gives.
pub open spec fn outcome(
    res: Resolution,
    name: Seq<char>,
    r: Result<usize, Error>,
    before: Map<Seq<char>, usize>,
    after: Map<Seq<char>, usize>,
) -> bool {
    match res {
        Resolution::Cached(a) => r == Ok::<usize, Error>(a) && after == before,
        Resolution::NoRecord => after == before && match r {
            Err(Error::AddressRecordNotFound(n)) => n@ == name,
            _ => false,
        },
        Resolution::ScanFailed(e) => r == Err::<usize, Error>(Error::Memory(e)) && after == before,
        Resolution::OutOfRange => after == before && match r {
            Err(Error::AddressOutOfRange(n)) => n@ == name,
            _ => false,
        },
        Resolution::Found(a) => r == Ok::<usize, Error>(a) && after == before.insert(name, a),
    }
}

/// Once a name resolved to an address, it resolves to that address again,
/// whatever the memory range then holds: nothing is scanned twice.
pub proof fn lemma_resolution_is_stable(
    cache: Map<Seq<char>, usize>,
    records: Map<Seq<char>, (Seq<char>, int)>,
    name: Seq<char>,
    base: int,
    mem: Seq<u8>,
    later_base: int,
    later_mem: Seq<u8>,
)
    ensures
        match resolution(cache, records, name, base, mem) {
            Resolution::Cached(a) => resolution(cache, records, name, later_base, later_mem)
                == Resolution::Cached(a),
            Resolution::Found(a) => resolution(
                cache.insert(name, a),
                records,
                name,
                later_base,
                later_mem,
            ) == Resolution::Cached(a),
            _ => true,
        },
{
}

/// Registering a record, under any name, leaves every resolved address as it was.
pub proof fn lemma_registration_keeps_cache(
    cache: Map<Seq<char>, usize>,
    records: Map<Seq<char>, (Seq<char>, int)>,
    name: Seq<char>,
    entry: (Seq<char>, (Seq<char>, int)),
    base: int,
    mem: Seq<u8>,
)
    requires
        cache.contains_key(name),
    ensures
        resolution(cache, records.insert(entry.0, entry.1), name, base, mem) == Resolution::Cached(
            cache[name],
        ),
{
}

/// Named signature records, and the addresses resolved from them so far.
///
/// Registering a record under a name that already resolved does not drop the
/// cached address: the name keeps resolving to it until `invalidate` is called.
pub struct AddressRepository {
    records: Vec<AddressRecord>,
    cache: Vec<(String, usize)>,
}

impl AddressRepository {
    /// The registered records.
    pub closed spec fn records(&self) -> Map<Seq<char>, (Seq<char>, int)> {
        record_entries(self.records@)
    }

    /// The resolved addresses.
    pub closed spec fn cache(&self) -> Map<Seq<char>, usize> {
        cache_entries(self.cache@)
    }

    pub const CORE_POST_MH_MAIN_CTOR: &'static str = "Core:PostMhMainCtor";
    pub const CORE_MAP_CLOCK_LOCAL: &'static str = "Core::MapClockLocal";
    pub const C_SYSTEM_CTOR: &'static str = "cSystem:Ctor";
    pub const CHAT_MESSAGE_SENT: &'static str = "Chat:MessageSent";
    pub const MONSTER_CTOR: &'static str = "Monster:Ctor";
    pub const MONSTER_DTOR: &'static str = "Monster:Dtor";

    /// An empty repository.
    pub fn new() -> (r: AddressRepository)
        ensures
            r.records() == Map::<Seq<char>, (Seq<char>, int)>::empty(),
            r.cache() == Map::<Seq<char>, usize>::empty(),
    {
        AddressRepository { records: Vec::new(), cache: Vec::new() }
    }

    /// A repository holding the records the runtime itself relies on.
    pub fn new_with_internal() -> (r: AddressRepository)
        ensures
            r.cache() == Map::<Seq<char>, usize>::empty(),
            r.records() == Map::<Seq<char>, (Seq<char>, int)>::empty().insert(
                Self::CORE_POST_MH_MAIN_CTOR@,
                ("C6 80 23 2C 00 00 01 E8 ?? ?? ?? ?? 48 8B C3"@, 15),
            ).insert(
                Self::C_SYSTEM_CTOR@,
                ("48 83 C1 08 FF 15 ?? ?? ?? ?? 48 8B C3 C6 43 30 01 48 83 C4 20 5B C3"@, -19),
            ).insert(
                Self::CORE_MAP_CLOCK_LOCAL@,
                ("E8 ?? ?? ?? ?? 48 8B 4B 08 0F 57 FF 48 8B"@, -32),
            ).insert(
                Self::CHAT_MESSAGE_SENT@,
                ("44 89 ?? ?? ?? ?? ?? 44 88 00 4C 89 ?? ?? ?? ?? ?? 4C 89 ?? ?? ?? ?? ?? 44 89"@, -26),
            ).insert(
                Self::MONSTER_CTOR@,
                ("4C 89 B3 10 76 00 00"@, -60),
            ).insert(
                Self::MONSTER_DTOR@,
                ("48 83 EC 20 48 8B B9 A0 09 00 00"@, -20),
            ).insert(
                "GUITitle:Play"@,
                ("48 89 83 D8 1C 00 00 48 8D BB 08 29 00 00"@, -42),
            ).insert(
                "D3DRender12:SwapChainPresentCall"@,
                ("FF 50 40 C6 83 D9 10 00 00 01 85 C0 75 1A 41 FF C4 44 8D 78 01"@, 0),
            ).insert(
                "D3DRender11:SwapChainPresentCall"@,
                ("FF 50 40 8B F0 85 C0 75 5F FF C3 3B 9F A0 14 00 00"@, 0),
            ),
    {
        let mut r = AddressRepository::new();
        r.set_record(
            AddressRecord::new(
                Self::CORE_POST_MH_MAIN_CTOR,
                "C6 80 23 2C 00 00 01 E8 ?? ?? ?? ?? 48 8B C3",
                15,
            ),
        );
        r.set_record(
            AddressRecord::new(
                Self::C_SYSTEM_CTOR,
                "48 83 C1 08 FF 15 ?? ?? ?? ?? 48 8B C3 C6 43 30 01 48 83 C4 20 5B C3",
                -19,
            ),
        );
        r.set_record(
            AddressRecord::new(
                Self::CORE_MAP_CLOCK_LOCAL,
                "E8 ?? ?? ?? ?? 48 8B 4B 08 0F 57 FF 48 8B",
                -32,
            ),
        );
        r.set_record(
            AddressRecord::new(
                Self::CHAT_MESSAGE_SENT,
                "44 89 ?? ?? ?? ?? ?? 44 88 00 4C 89 ?? ?? ?? ?? ?? 4C 89 ?? ?? ?? ?? ?? 44 89",
                -26,
            ),
        );
        r.set_record(AddressRecord::new(Self::MONSTER_CTOR, "4C 89 B3 10 76 00 00", -60));
        r.set_record(
            AddressRecord::new(Self::MONSTER_DTOR, "48 83 EC 20 48 8B B9 A0 09 00 00", -20),
        );
        r.set_record(
            AddressRecord::new("GUITitle:Play", "48 89 83 D8 1C 00 00 48 8D BB 08 29 00 00", -42),
        );
        r.set_record(
            AddressRecord::new(
                "D3DRender12:SwapChainPresentCall",
                "FF 50 40 C6 83 D9 10 00 00 01 85 C0 75 1A 41 FF C4 44 8D 78 01",
                0,
            ),
        );
        r.set_record(
            AddressRecord::new(
                "D3DRender11:SwapChainPresentCall",
                "FF 50 40 8B F0 85 C0 75 5F FF C3 3B 9F A0 14 00 00",
                0,
            ),
        );
        r
    }

    /// The address `name` stands for in `memory`, which starts at `base`: the
    /// cached one if there is one, else the first match of the record's
    /// signature moved by its offset, which is then cached.
    pub fn get_address(&mut self, name: &str, base: usize, memory: &[u8]) -> (r: Result<
        usize,
        Error,
    >)
        requires
            base + memory@.len() <= usize::MAX,
        ensures
            final(self).records() == old(self).records(),
            outcome(
                resolution(old(self).cache(), old(self).records(), name@, base as int, memory@),
                name@,
                r,
                old(self).cache(),
                final(self).cache(),
            ),
    {
        if let Some(a) = self.cached(name) {
            return Ok(a);
        }
        let k = match self.find_record(name) {
            None => {
                return Err(Error::AddressRecordNotFound(name.to_owned()));
            },
            Some(k) => k,
        };
        let pattern = self.records[k].pattern.as_str();
        let offset = self.records[k].offset;
        assert(pattern@ == old(self).records()[name@].0);
        let m = match MemoryUtils::scan_first(base, memory, pattern) {
            Err(e) => {
                return Err(Error::Memory(e));
            },
            Ok(m) => m,
        };
        assert(offset as int == old(self).records()[name@].1);
        match m.checked_add_signed(offset) {
            None => Err(Error::AddressOutOfRange(name.to_owned())),
            Some(a) => {
                let entry = (name.to_owned(), a);
                self.cache.push(entry);
                proof {
                    assert(self.cache@.drop_last() =~= old(self).cache@);
                    assert(self.cache@.last() == entry);
                }
                Ok(a)
            },
        }
    }

    /// The cached address of `name`, if any.
    fn cached(&self, name: &str) -> (r: Option<usize>)
        ensures
            r == (if self.cache().contains_key(name@) {
                Some(self.cache()[name@])
            } else {
                None::<usize>
            }),
    {
        let mut i = self.cache.len();
        assert(self.cache@.take(i as int) =~= self.cache@);
        while i > 0
            invariant
                i <= self.cache@.len(),
                cache_entries(self.cache@.take(i as int)).contains_key(name@)
                    == self.cache().contains_key(name@),
                cache_entries(self.cache@.take(i as int)).contains_key(name@) ==> cache_entries(
                    self.cache@.take(i as int),
                )[name@] == self.cache()[name@],
            decreases i,
        {
            assert(self.cache@.take(i as int).drop_last() =~= self.cache@.take(i - 1));
            assert(self.cache@.take(i as int).last() == self.cache@[i - 1]);
            if str_eq(self.cache[i - 1].0.as_str(), name) {
                return Some(self.cache[i - 1].1);
            }
            i = i - 1;
        }
        None
    }

    /// The index of the record that holds `name`, if any.
    fn find_record(&self, name: &str) -> (r: Option<usize>)
        ensures
            match r {
                Some(k) => k < self.records@.len() && self.records().contains_key(name@)
                    && self.records()[name@] == (
                    self.records@[k as int].pattern@,
                    self.records@[k as int].offset as int,
                ),
                None => !self.records().contains_key(name@),
            },
    {
        let mut i = self.records.len();
        assert(self.records@.take(i as int) =~= self.records@);
        while i > 0
            invariant
                i <= self.records@.len(),
                record_entries(self.records@.take(i as int)).contains_key(name@)
                    == self.records().contains_key(name@),
                record_entries(self.records@.take(i as int)).contains_key(name@)
                    ==> record_entries(self.records@.take(i as int))[name@]
                    == self.records()[name@],
            decreases i,
        {
            assert(self.records@.take(i as int).drop_last() =~= self.records@.take(i - 1));
            assert(self.records@.take(i as int).last() == self.records@[i - 1]);
            if str_eq(self.records[i - 1].name.as_str(), name) {
                return Some(i - 1);
            }
            i = i - 1;
        }
        None
    }

    /// Registers `record`, replacing any record of the same name. The cache is
    /// left as it is.
    pub fn set_record(&mut self, record: AddressRecord)
        ensures
            final(self).records() == old(self).records().insert(
                record.name@,
                (record.pattern@, record.offset as int),
            ),
            final(self).cache() == old(self).cache(),
    {
        let ghost n = record.name@;
        let mut kept: Vec<AddressRecord> = Vec::new();
        let mut i: usize = 0;
        while i < self.records.len()
            invariant
                0 <= i <= self.records@.len(),
                self.records == old(self).records,
                self.cache == old(self).cache,
                n == record.name@,
                record_entries(kept@) == record_entries(self.records@.take(i as int)).remove(n),
            decreases self.records@.len() - i,
        {
            assert(self.records@.take(i + 1).drop_last() =~= self.records@.take(i as int));
            assert(self.records@.take(i + 1).last() == self.records@[i as int]);
            if !str_eq(self.records[i].name.as_str(), record.name.as_str()) {
                let r = self.records[i].duplicate();
                let ghost prev = kept@;
                kept.push(r);
                assert(kept@.drop_last() =~= prev);
                assert(record_entries(kept@) =~= record_entries(
                    self.records@.take(i + 1),
                ).remove(n));
            } else {
                assert(record_entries(self.records@.take(i + 1)).remove(n) =~= record_entries(
                    self.records@.take(i as int),
                ).remove(n));
            }
            i = i + 1;
        }
        assert(self.records@.take(self.records@.len() as int) =~= self.records@);
        let ghost prev = kept@;
        kept.push(record);
        assert(kept@.drop_last() =~= prev);
        self.records = kept;
        assert(self.records() =~= old(self).records().insert(
            n,
            (record.pattern@, record.offset as int),
        ));
    }

    /// Forgets the cached address of `name`, so that the next resolution scans again.
    pub fn invalidate(&mut self, name: &str)
        ensures
            final(self).records() == old(self).records(),
            final(self).cache() == old(self).cache().remove(name@),
    {
        let mut kept: Vec<(String, usize)> = Vec::new();
        let mut i: usize = 0;
        while i < self.cache.len()
            invariant
                0 <= i <= self.cache@.len(),
                self.records == old(self).records,
                self.cache == old(self).cache,
                cache_entries(kept@) == cache_entries(self.cache@.take(i as int)).remove(name@),
            decreases self.cache@.len() - i,
        {
            assert(self.cache@.take(i + 1).drop_last() =~= self.cache@.take(i as int));
            assert(self.cache@.take(i + 1).last() == self.cache@[i as int]);
            if !str_eq(self.cache[i].0.as_str(), name) {
                let e = (self.cache[i].0.clone(), self.cache[i].1);
                let ghost prev = kept@;
                kept.push(e);
                assert(kept@.drop_last() =~= prev);
                assert(cache_entries(kept@) =~= cache_entries(self.cache@.take(i + 1)).remove(
                    name@,
                ));
            } else {
                assert(cache_entries(self.cache@.take(i + 1)).remove(name@) =~= cache_entries(
                    self.cache@.take(i as int),
                ).remove(name@));
            }
            i = i + 1;
        }
        assert(self.cache@.take(self.cache@.len() as int) =~= self.cache@);
        self.cache = kept;
    }

    /// Resolves the record's name; where no record of that name exists, or its
    /// signature matches nothing, the record is registered and the name
    /// resolved again. Otherwise the existing record is kept.
    pub fn get_or_insert(&mut self, record: AddressRecord, base: usize, memory: &[u8]) -> (r:
        Result<usize, Error>)
        requires
            base + memory@.len() <= usize::MAX,
        ensures
            ({
                let registered = if resolution(
                    old(self).cache(),
                    old(self).records(),
                    record.name@,
                    base as int,
                    memory@,
                ) is NoRecord || resolution(
                    old(self).cache(),
                    old(self).records(),
                    record.name@,
                    base as int,
                    memory@,
                ) == Resolution::ScanFailed(MemoryError::NotFound) {
                    old(self).records().insert(record.name@, (record.pattern@, record.offset as int))
                } else {
                    old(self).records()
                };
                &&& final(self).records() == registered
                &&& outcome(
                    resolution(old(self).cache(), registered, record.name@, base as int, memory@),
                    record.name@,
                    r,
                    old(self).cache(),
                    final(self).cache(),
                )
            }),
    {
        let first = self.get_address(record.name.as_str(), base, memory);
        match first {
            Err(Error::AddressRecordNotFound(_)) => {},
            Err(Error::Memory(MemoryError::NotFound)) => {},
            _ => {
                return first;
            },
        }
        let name = record.name.clone();
        self.set_record(record);
        self.get_address(name.as_str(), base, memory)
    }
}

} // verus!
