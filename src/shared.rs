//! The key/value store that sandboxes share. Keys are the text form of a
//! script value; values are whatever the binding layer stores.
use vstd::prelude::*;

use crate::text::str_eq;

verus! {

/// The entries as a map; a later entry of a key replaces an earlier one.
pub open spec fn state_entries<V>(s: Seq<(String, V)>) -> Map<Seq<char>, V>
    decreases s.len(),
{
    if s.len() == 0 {
        Map::empty()
    } else {
        state_entries(s.drop_last()).insert(s.last().0@, s.last().1)
    }
}

/// Replacing the last entry of a key replaces its value in the map.
proof fn lemma_update_last<V>(s: Seq<(String, V)>, k: int, e: (String, V))
    requires
        0 <= k < s.len(),
        s[k].0@ == e.0@,
        forall|j: int| k < j < s.len() ==> #[trigger] s[j].0@ != e.0@,
    ensures
        state_entries(s.update(k, e)) == state_entries(s).insert(e.0@, e.1),
    decreases s.len(),
{
    let t = s.update(k, e);
    if k == s.len() - 1 {
        assert(t.drop_last() =~= s.drop_last());
        assert(state_entries(t) =~= state_entries(s).insert(e.0@, e.1));
    } else {
        assert(t.drop_last() =~= s.drop_last().update(k, e));
        lemma_update_last(s.drop_last(), k, e);
        assert(s.last().0@ != e.0@);
        assert(state_entries(t) =~= state_entries(s).insert(e.0@, e.1));
    }
}

/// Values shared across sandboxes, cleared when file-backed sandboxes reload.
pub struct SharedState<V> {
    entries: Vec<(String, V)>,
}

impl<V> SharedState<V> {
    pub closed spec fn view_states(&self) -> Map<Seq<char>, V> {
        state_entries(self.entries@)
    }

    pub fn new() -> (r: Self)
        ensures
            r.view_states() == Map::<Seq<char>, V>::empty(),
    {
        SharedState { entries: Vec::new() }
    }

    /// The index of the last entry of `key`.
    fn find(&self, key: &str) -> (r: Option<usize>)
        ensures
            match r {
                Some(k) => k < self.entries@.len() && self.entries@[k as int].0@ == key@ && forall|j: int|
                    k < j < self.entries@.len() ==> #[trigger] self.entries@[j].0@ != key@,
                None => !self.view_states().contains_key(key@),
            },
            r is Some ==> self.view_states().contains_key(key@) && self.view_states()[key@]
                == self.entries@[r->Some_0 as int].1,
    {
        let mut i = self.entries.len();
        assert(self.entries@.take(i as int) =~= self.entries@);
        while i > 0
            invariant
                i <= self.entries@.len(),
                forall|j: int| i <= j < self.entries@.len() ==> #[trigger] self.entries@[j].0@ != key@,
                state_entries(self.entries@.take(i as int)).contains_key(key@)
                    == self.view_states().contains_key(key@),
                state_entries(self.entries@.take(i as int)).contains_key(key@) ==> state_entries(
                    self.entries@.take(i as int),
                )[key@] == self.view_states()[key@],
            decreases i,
        {
            assert(self.entries@.take(i as int).drop_last() =~= self.entries@.take(i - 1));
            assert(self.entries@.take(i as int).last() == self.entries@[i - 1]);
            if str_eq(self.entries[i - 1].0.as_str(), key) {
                return Some(i - 1);
            }
            i = i - 1;
        }
        None
    }

    /// The value stored under `key`.
    pub fn get_state(&self, key: &str) -> (r: Option<&V>)
        ensures
            r == (if self.view_states().contains_key(key@) {
                Some(&self.view_states()[key@])
            } else {
                None::<&V>
            }),
    {
        match self.find(key) {
            None => None,
            Some(k) => Some(&self.entries[k].1),
        }
    }

    /// Stores `value` under `key`, replacing what was there.
    pub fn set_state(&mut self, key: &str, value: V)
        ensures
            final(self).view_states() == old(self).view_states().insert(key@, value),
    {
        let e = (key.to_owned(), value);
        match self.find(key) {
            None => {
                let ghost before = self.entries@;
                self.entries.push(e);
                assert(self.entries@.drop_last() =~= before);
            },
            Some(k) => {
                proof {
                    lemma_update_last(self.entries@, k as int, e);
                }
                self.entries.set(k, e);
            },
        }
    }

    /// Removes every value.
    pub fn clear_states(&mut self)
        ensures
            final(self).view_states() == Map::<Seq<char>, V>::empty(),
    {
        self.entries = Vec::new();
    }
}

} // verus!
