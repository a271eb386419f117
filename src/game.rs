//! Host objects the runtime tracks: live monsters, and named singletons.
use vstd::prelude::*;

use crate::text::str_eq;

verus! {

/// Addresses of the monsters alive now, in the order they were constructed.
pub struct MonsterRegistry {
    monsters: Vec<usize>,
}

/// `s` without any occurrence of `x`, in order.
pub open spec fn without_value(s: Seq<usize>, x: usize) -> Seq<usize>
    decreases s.len(),
{
    if s.len() == 0 {
        Seq::empty()
    } else if s.last() == x {
        without_value(s.drop_last(), x)
    } else {
        without_value(s.drop_last(), x).push(s.last())
    }
}

impl MonsterRegistry {
    pub closed spec fn view_monsters(&self) -> Seq<usize> {
        self.monsters@
    }

    pub fn new() -> (r: Self)
        ensures
            r.view_monsters() == Seq::<usize>::empty(),
    {
        MonsterRegistry { monsters: Vec::new() }
    }

    /// A monster was constructed at `monster`.
    pub fn on_construct(&mut self, monster: usize)
        ensures
            final(self).view_monsters() == old(self).view_monsters().push(monster),
    {
        self.monsters.push(monster);
    }

    /// The monster at `monster` was destroyed.
    pub fn on_destroy(&mut self, monster: usize)
        ensures
            final(self).view_monsters() == without_value(old(self).view_monsters(), monster),
    {
        let mut kept: Vec<usize> = Vec::new();
        let mut i: usize = 0;
        while i < self.monsters.len()
            invariant
                0 <= i <= self.monsters@.len(),
                self.monsters == old(self).monsters,
                kept@ == without_value(self.monsters@.take(i as int), monster),
            decreases self.monsters@.len() - i,
        {
            assert(self.monsters@.take(i + 1).drop_last() =~= self.monsters@.take(i as int));
            if self.monsters[i] != monster {
                kept.push(self.monsters[i]);
            }
            i = i + 1;
        }
        assert(self.monsters@.take(i as int) =~= self.monsters@);
        self.monsters = kept;
    }

    /// Whether a monster lives at `monster`.
    pub fn contains_monster(&self, monster: usize) -> (r: bool)
        ensures
            r == self.view_monsters().contains(monster),
    {
        let mut i: usize = 0;
        while i < self.monsters.len()
            invariant
                0 <= i <= self.monsters@.len(),
                forall|k: int| 0 <= k < i ==> self.monsters@[k] != monster,
            decreases self.monsters@.len() - i,
        {
            if self.monsters[i] == monster {
                assert(self.monsters@[i as int] == monster);
                return true;
            }
            i = i + 1;
        }
        false
    }
}

/// The addresses of the monsters alive now.
pub fn get_monsters(registry: &MonsterRegistry) -> (r: Vec<usize>)
    ensures
        r@ == registry.view_monsters(),
{
    registry.monsters.clone()
}

/// Named singleton objects of the host and their addresses.
pub struct SingletonManager {
    singletons: Vec<(String, usize)>,
}

/// The singletons as a map; a later entry of a name replaces an earlier one.
pub open spec fn singleton_entries(s: Seq<(String, usize)>) -> Map<Seq<char>, usize>
    decreases s.len(),
{
    if s.len() == 0 {
        Map::empty()
    } else {
        singleton_entries(s.drop_last()).insert(s.last().0@, s.last().1)
    }
}

/// The singletons `m` becomes once the named ones of `found` are recorded, in order.
pub open spec fn record_found(m: Map<Seq<char>, usize>, found: Seq<(Option<String>, usize)>) -> Map<
    Seq<char>,
    usize,
>
    decreases found.len(),
{
    if found.len() == 0 {
        m
    } else {
        let before = record_found(m, found.drop_last());
        match found.last().0 {
            Some(name) => before.insert(name@, found.last().1),
            None => before,
        }
    }
}

/// How many entries of `found` carry a name.
pub open spec fn count_named(found: Seq<(Option<String>, usize)>) -> nat
    decreases found.len(),
{
    if found.len() == 0 {
        0
    } else {
        count_named(found.drop_last()) + if found.last().0 is Some {
            1nat
        } else {
            0nat
        }
    }
}

proof fn lemma_same_entries(a: Seq<(String, usize)>, b: Seq<(String, usize)>)
    requires
        a.len() == b.len(),
        forall|k: int| 0 <= k < a.len() ==> (#[trigger] a[k]).0@ == b[k].0@ && a[k].1 == b[k].1,
    ensures
        singleton_entries(a) == singleton_entries(b),
    decreases a.len(),
{
    if a.len() > 0 {
        assert forall|k: int| 0 <= k < a.drop_last().len() implies (#[trigger] a.drop_last()[k]).0@
            == b.drop_last()[k].0@ && a.drop_last()[k].1 == b.drop_last()[k].1 by {
            assert(a.drop_last()[k] == a[k] && b.drop_last()[k] == b[k]);
        }
        lemma_same_entries(a.drop_last(), b.drop_last());
        assert(a.last() == a[a.len() - 1]);
    }
}

impl SingletonManager {
    pub closed spec fn view_singletons(&self) -> Map<Seq<char>, usize> {
        singleton_entries(self.singletons@)
    }

    pub fn new() -> (r: Self)
        ensures
            r.view_singletons() == Map::<Seq<char>, usize>::empty(),
    {
        SingletonManager { singletons: Vec::new() }
    }

    /// Records the singleton `name` at `address`.
    pub fn insert(&mut self, name: &str, address: usize)
        ensures
            final(self).view_singletons() == old(self).view_singletons().insert(name@, address),
    {
        let e = (name.to_owned(), address);
        let ghost before = self.singletons@;
        self.singletons.push(e);
        assert(self.singletons@.drop_last() =~= before);
    }

    /// The address of the singleton `name`.
    pub fn get_address(&self, name: &str) -> (r: Option<usize>)
        ensures
            r == (if self.view_singletons().contains_key(name@) {
                Some(self.view_singletons()[name@])
            } else {
                None::<usize>
            }),
    {
        let mut i = self.singletons.len();
        assert(self.singletons@.take(i as int) =~= self.singletons@);
        while i > 0
            invariant
                i <= self.singletons@.len(),
                singleton_entries(self.singletons@.take(i as int)).contains_key(name@)
                    == self.view_singletons().contains_key(name@),
                singleton_entries(self.singletons@.take(i as int)).contains_key(name@)
                    ==> singleton_entries(self.singletons@.take(i as int))[name@]
                    == self.view_singletons()[name@],
            decreases i,
        {
            assert(self.singletons@.take(i as int).drop_last() =~= self.singletons@.take(i - 1));
            assert(self.singletons@.take(i as int).last() == self.singletons@[i - 1]);
            if str_eq(self.singletons[i - 1].0.as_str(), name) {
                return Some(self.singletons[i - 1].1);
            }
            i = i - 1;
        }
        None
    }

    /// The recorded singletons as (name, address) entries; where a name
    /// appears twice, the later entry holds its address.
    pub fn singletons(&self) -> (r: Vec<(String, usize)>)
        ensures
            singleton_entries(r@) == self.view_singletons(),
    {
        let mut out: Vec<(String, usize)> = Vec::new();
        let mut i: usize = 0;
        while i < self.singletons.len()
            invariant
                0 <= i <= self.singletons@.len(),
                out@.len() == i,
                forall|k: int| 0 <= k < i ==> (#[trigger] out@[k]).0@ == self.singletons@[k].0@ && out@[k].1
                    == self.singletons@[k].1,
            decreases self.singletons@.len() - i,
        {
            out.push((self.singletons[i].0.clone(), self.singletons[i].1));
            i = i + 1;
        }
        proof {
            lemma_same_entries(out@, self.singletons@);
        }
        out
    }

    /// Records the singletons found at construction time, given as the names
    /// read from their type descriptors (`None` where none could be read) and
    /// their addresses. Returns how many were recorded.
    pub fn parse_singletons(&mut self, found: &Vec<(Option<String>, usize)>) -> (r: usize)
        ensures
            r == count_named(found@),
            final(self).view_singletons() == record_found(old(self).view_singletons(), found@),
    {
        let mut n: usize = 0;
        let mut i: usize = 0;
        while i < found.len()
            invariant
                0 <= i <= found@.len(),
                n <= i,
                n == count_named(found@.take(i as int)),
                self.view_singletons() == record_found(old(self).view_singletons(), found@.take(i as int)),
            decreases found@.len() - i,
        {
            assert(found@.take(i + 1).drop_last() =~= found@.take(i as int));
            assert(found@.take(i + 1).last() == found@[i as int]);
            match &found[i].0 {
                Some(name) => {
                    self.insert(name.as_str(), found[i].1);
                    n = n + 1;
                },
                None => {},
            }
            i = i + 1;
        }
        assert(found@.take(i as int) =~= found@);
        n
    }
}

} // verus!
