//! The sandbox table: which script sandboxes exist, under which identifier and
//! name, which of them are virtual (created by code, not from a script file),
//! and which script names are disabled.
use vstd::prelude::*;
use vstd::string::StringSliceAdditionalSpecFns;

use crate::error::Error;
use crate::text::{concat_str, bytes_end_with, ends_with_bytes, has_extension, lemma_push_contains, str_eq};

verus! {

/// One sandbox: identifier, name, and whether it is virtual.
pub struct SandboxEntry {
    pub id: u32,
    pub name: String,
    pub is_virtual: bool,
}

/// A sandbox as the contracts see it.
pub type SandboxView = (u32, Seq<char>, bool);

/// The contracts' view of a sandbox entry.
pub open spec fn sandbox_view(e: SandboxEntry) -> SandboxView {
    (e.id, e.name@, e.is_virtual)
}

/// The characters `virtual:` that begin the name of a virtual sandbox.
pub open spec fn virtual_prefix() -> Seq<char> {
    "virtual:"@
}

/// The bytes of `.lua`, the extension of script files.
pub open spec fn script_ext() -> Seq<u8> {
    seq![0x2eu8, 0x6cu8, 0x75u8, 0x61u8]
}

/// The sandboxes of `s` that are virtual, in order.
pub open spec fn virtual_only(s: Seq<SandboxView>) -> Seq<SandboxView>
    decreases s.len(),
{
    if s.len() == 0 {
        Seq::empty()
    } else if s.last().2 {
        virtual_only(s.drop_last()).push(s.last())
    } else {
        virtual_only(s.drop_last())
    }
}

/// The identifiers of the sandboxes of `s` that are not virtual, in order.
pub open spec fn physical_ids(s: Seq<SandboxView>) -> Seq<u32>
    decreases s.len(),
{
    if s.len() == 0 {
        Seq::empty()
    } else if s.last().2 {
        physical_ids(s.drop_last())
    } else {
        physical_ids(s.drop_last()).push(s.last().0)
    }
}

/// Whether some sandbox of `s` has identifier `id`.
pub open spec fn has_id(s: Seq<SandboxView>, id: u32) -> bool {
    exists|i: int| 0 <= i < s.len() && #[trigger] s[i].0 == id
}

/// The names of the directory entries to load as scripts, in order: files with
/// the script extension whose name is not disabled.
pub open spec fn scripts_to_load(entries: Seq<(Seq<char>, bool)>, disabled: Seq<Seq<char>>) -> Seq<
    Seq<char>,
>
    decreases entries.len(),
{
    if entries.len() == 0 {
        Seq::empty()
    } else {
        let rest = scripts_to_load(entries.drop_last(), disabled);
        let (name, is_dir) = entries.last();
        if !is_dir && has_extension(vstd::utf8::encode_utf8(name), script_ext()) && !disabled.contains(
            name,
        ) {
            rest.push(name)
        } else {
            rest
        }
    }
}

/// The table of sandboxes, in the order they were registered.
pub struct SandboxManager {
    sandboxes: Vec<SandboxEntry>,
    disabled: Vec<String>,
    next_id: u32,
}

impl SandboxManager {
    pub closed spec fn view_sandboxes(&self) -> Seq<SandboxView> {
        self.sandboxes@.map_values(|e: SandboxEntry| sandbox_view(e))
    }

    /// The script names that are disabled.
    pub closed spec fn view_disabled(&self) -> Seq<Seq<char>> {
        self.disabled@.map_values(|s: String| s@)
    }

    /// The identifier the next sandbox gets.
    pub closed spec fn view_next_id(&self) -> u32 {
        self.next_id
    }

    /// Identifiers are unique and below the next one to hand out.
    pub closed spec fn wf(&self) -> bool {
        &&& forall|i: int|
            0 <= i < self.sandboxes@.len() ==> #[trigger] self.sandboxes@[i].id < self.next_id
        &&& forall|i: int, j: int|
            0 <= i < j < self.sandboxes@.len() ==> #[trigger] self.sandboxes@[i].id
                != #[trigger] self.sandboxes@[j].id
    }

    pub fn new() -> (r: Self)
        ensures
            r.wf(),
            r.view_sandboxes() == Seq::<SandboxView>::empty(),
            r.view_disabled() == Seq::<Seq<char>>::empty(),
            r.view_next_id() == 1,
    {
        let r = SandboxManager { sandboxes: Vec::new(), disabled: Vec::new(), next_id: 1 };
        assert(r.view_sandboxes() =~= Seq::<SandboxView>::empty());
        assert(r.view_disabled() =~= Seq::<Seq<char>>::empty());
        r
    }

    /// Registers a sandbox under a fresh identifier, which is returned.
    fn add(&mut self, name: String, is_virtual: bool) -> (r: Result<u32, Error>)
        requires
            old(self).wf(),
        ensures
            final(self).wf(),
            final(self).view_disabled() == old(self).view_disabled(),
            (r is Ok) == (old(self).view_next_id() < u32::MAX),
            r is Ok ==> r->Ok_0 == old(self).view_next_id() && final(self).view_next_id()
                == old(self).view_next_id() + 1,
            match r {
                Ok(id) => !has_id(old(self).view_sandboxes(), id) && final(self).view_sandboxes()
                    == old(self).view_sandboxes().push((id, name@, is_virtual)),
                Err(e) => e == Error::TooManySandboxes && final(self).view_sandboxes() == old(
                    self,
                ).view_sandboxes(),
            },
    {
        if self.next_id == u32::MAX {
            return Err(Error::TooManySandboxes);
        }
        let id = self.next_id;
        let ghost before = self.view_sandboxes();
        assert forall|i: int| 0 <= i < before.len() implies #[trigger] before[i].0 != id by {
            assert(before[i].0 == self.sandboxes@[i].id);
        }
        let e = SandboxEntry { id, name, is_virtual };
        self.sandboxes.push(e);
        self.next_id = id + 1;
        assert(self.view_sandboxes() =~= before.push(sandbox_view(e)));
        assert forall|i: int, j: int|
            0 <= i < j < self.sandboxes@.len() implies #[trigger] self.sandboxes@[i].id
            != #[trigger] self.sandboxes@[j].id by {
            if j == before.len() {
                assert(before[i].0 == self.sandboxes@[i].id);
            }
        }
        Ok(id)
    }

    /// Registers the sandbox of the script file `file_name`.
    pub fn add_vm(&mut self, file_name: &str) -> (r: Result<u32, Error>)
        requires
            old(self).wf(),
        ensures
            final(self).wf(),
            final(self).view_disabled() == old(self).view_disabled(),
            (r is Ok) == (old(self).view_next_id() < u32::MAX),
            r is Ok ==> r->Ok_0 == old(self).view_next_id() && final(self).view_next_id()
                == old(self).view_next_id() + 1,
            match r {
                Ok(id) => !has_id(old(self).view_sandboxes(), id) && final(self).view_sandboxes()
                    == old(self).view_sandboxes().push((id, file_name@, false)),
                Err(e) => e == Error::TooManySandboxes && final(self).view_sandboxes() == old(
                    self,
                ).view_sandboxes(),
            },
    {
        self.add(file_name.to_owned(), false)
    }

    /// Registers a virtual sandbox, named `virtual:` followed by `name`.
    pub fn add_virtual_vm(&mut self, name: &str) -> (r: Result<u32, Error>)
        requires
            old(self).wf(),
        ensures
            final(self).wf(),
            final(self).view_disabled() == old(self).view_disabled(),
            (r is Ok) == (old(self).view_next_id() < u32::MAX),
            r is Ok ==> r->Ok_0 == old(self).view_next_id() && final(self).view_next_id()
                == old(self).view_next_id() + 1,
            match r {
                Ok(id) => !has_id(old(self).view_sandboxes(), id) && final(self).view_sandboxes()
                    == old(self).view_sandboxes().push((id, virtual_prefix() + name@, true)),
                Err(e) => e == Error::TooManySandboxes && final(self).view_sandboxes() == old(
                    self,
                ).view_sandboxes(),
            },
    {
        let full = concat_str("virtual:", name);
        self.add(full, true)
    }

    /// The index of the sandbox `id`.
    fn index_of(&self, id: u32) -> (r: Option<usize>)
        ensures
            match r {
                Some(k) => k < self.view_sandboxes().len() && self.view_sandboxes()[k as int].0
                    == id,
                None => !has_id(self.view_sandboxes(), id),
            },
    {
        let mut i: usize = 0;
        while i < self.sandboxes.len()
            invariant
                0 <= i <= self.sandboxes@.len(),
                forall|k: int| 0 <= k < i ==> #[trigger] self.view_sandboxes()[k].0 != id,
            decreases self.sandboxes@.len() - i,
        {
            if self.sandboxes[i].id == id {
                return Some(i);
            }
            i = i + 1;
        }
        None
    }

    /// Whether the sandbox `id` exists: the liveness test made before a hook
    /// callback is run in it.
    pub fn contains(&self, id: u32) -> (r: bool)
        ensures
            r == has_id(self.view_sandboxes(), id),
    {
        self.index_of(id).is_some()
    }

    /// The name of the sandbox `id`, if it exists.
    pub fn name_of(&self, id: u32) -> (r: Option<String>)
        ensures
            match r {
                None => !has_id(self.view_sandboxes(), id),
                Some(n) => exists|i: int|
                    0 <= i < self.view_sandboxes().len() && #[trigger] self.view_sandboxes()[i].0 == id
                        && self.view_sandboxes()[i].1 == n@,
            },
    {
        match self.index_of(id) {
            None => None,
            Some(k) => {
                let n = self.sandboxes[k].name.clone();
                assert(self.view_sandboxes()[k as int].1 == n@);
                Some(n)
            },
        }
    }

    /// Whether the sandbox `id` exists and is virtual.
    pub fn is_virtual(&self, id: u32) -> (r: bool)
        requires
            self.wf(),
        ensures
            r == (exists|i: int|
                0 <= i < self.view_sandboxes().len() && #[trigger] self.view_sandboxes()[i].0 == id
                    && self.view_sandboxes()[i].2),
    {
        match self.index_of(id) {
            None => false,
            Some(k) => {
                let v = self.sandboxes[k].is_virtual;
                proof {
                    if !v {
                        assert forall|i: int|
                            0 <= i < self.view_sandboxes().len() && #[trigger] self.view_sandboxes()[i].0
                                == id implies !self.view_sandboxes()[i].2 by {
                            if i != k {
                                assert(self.sandboxes@[i].id == self.view_sandboxes()[i].0);
                                assert(self.sandboxes@[k as int].id == self.view_sandboxes()[k as int].0);
                                if i < k {
                                    assert(self.sandboxes@[i].id != self.sandboxes@[k as int].id);
                                } else {
                                    assert(self.sandboxes@[k as int].id != self.sandboxes@[i].id);
                                }
                            }
                        }
                    }
                }
                v
            },
        }
    }

    /// The identifiers of all sandboxes, in registration order.
    pub fn ids(&self) -> (r: Vec<u32>)
        ensures
            r@ == self.view_sandboxes().map_values(|s: SandboxView| s.0),
    {
        let mut out: Vec<u32> = Vec::new();
        let mut i: usize = 0;
        while i < self.sandboxes.len()
            invariant
                0 <= i <= self.sandboxes@.len(),
                out@ =~= self.view_sandboxes().take(i as int).map_values(|s: SandboxView| s.0),
            decreases self.sandboxes@.len() - i,
        {
            out.push(self.sandboxes[i].id);
            i = i + 1;
        }
        assert(self.view_sandboxes().take(i as int) =~= self.view_sandboxes());
        out
    }

    /// Removes the sandbox `id`; returns whether it existed.
    pub fn remove_vm(&mut self, id: u32) -> (r: bool)
        requires
            old(self).wf(),
        ensures
            final(self).view_next_id() == old(self).view_next_id(),
            final(self).wf(),
            final(self).view_disabled() == old(self).view_disabled(),
            r == has_id(old(self).view_sandboxes(), id),
            !has_id(final(self).view_sandboxes(), id),
            r ==> exists|k: int|
                0 <= k < old(self).view_sandboxes().len() && #[trigger] old(
                    self,
                ).view_sandboxes()[k].0 == id && final(self).view_sandboxes() == old(
                    self,
                ).view_sandboxes().remove(k),
            !r ==> final(self).view_sandboxes() == old(self).view_sandboxes(),
    {
        match self.index_of(id) {
            None => false,
            Some(k) => {
                let ghost before = self.view_sandboxes();
                let ghost raw = self.sandboxes@;
                self.sandboxes.remove(k);
                assert(self.view_sandboxes() =~= before.remove(k as int));
                assert forall|i: int, j: int|
                    0 <= i < j < self.sandboxes@.len() implies #[trigger] self.sandboxes@[i].id
                    != #[trigger] self.sandboxes@[j].id by {
                    let a = if i < k { i } else { i + 1 };
                    let b = if j < k { j } else { j + 1 };
                    assert(self.sandboxes@[i] == raw[a] && self.sandboxes@[j] == raw[b]);
                }
                assert forall|i: int| 0 <= i < self.view_sandboxes().len() implies #[trigger] self.view_sandboxes()[i].0 != id by {
                    let a = if i < k { i } else { i + 1 };
                    assert(self.view_sandboxes()[i] == before[a]);
                    assert(raw[a].id != raw[k as int].id);
                }
                true
            },
        }
    }

    /// Removes every sandbox that is not virtual and returns their
    /// identifiers, in registration order. Virtual sandboxes stay, in order.
    pub fn remove_physical_vms(&mut self) -> (r: Vec<u32>)
        requires
            old(self).wf(),
        ensures
            final(self).view_next_id() == old(self).view_next_id(),
            final(self).wf(),
            final(self).view_disabled() == old(self).view_disabled(),
            final(self).view_sandboxes() == virtual_only(old(self).view_sandboxes()),
            r@ == physical_ids(old(self).view_sandboxes()),
    {
        let ghost vs = self.view_sandboxes();
        let ghost raw = self.sandboxes@;
        let ghost next = self.next_id;
        let mut rest: Vec<SandboxEntry> = Vec::new();
        std::mem::swap(&mut rest, &mut self.sandboxes);
        let mut removed: Vec<u32> = Vec::new();
        let n = rest.len();
        let mut i: usize = 0;
        while rest.len() > 0
            invariant
                i + rest@.len() == n,
                n == vs.len(),
                vs == raw.map_values(|e: SandboxEntry| sandbox_view(e)),
                self.next_id == next,
                self.disabled == old(self).disabled,
                forall|y: int| 0 <= y < raw.len() ==> #[trigger] raw[y].id < next,
                forall|a: int, b: int| 0 <= a < b < raw.len() ==> #[trigger] raw[a].id != #[trigger] raw[b].id,
                forall|y: int| 0 <= y < rest@.len() ==> #[trigger] rest@[y] == raw[i + y],
                self.view_sandboxes() == virtual_only(vs.take(i as int)),
                forall|y: int| 0 <= y < self.sandboxes@.len() ==> exists|z: int| 0 <= z < i && #[trigger] self.sandboxes@[y] == raw[z],
                forall|a: int, b: int| 0 <= a < b < self.sandboxes@.len() ==> exists|za: int, zb: int| 0 <= za < zb < i && #[trigger] self.sandboxes@[a] == raw[za] && #[trigger] self.sandboxes@[b] == raw[zb],
                removed@ == physical_ids(vs.take(i as int)),
            decreases rest@.len(),
        {
            let e = rest.remove(0);
            assert(e == raw[i as int]);
            assert(vs[i as int] == sandbox_view(e));
            assert(vs.take(i + 1).drop_last() =~= vs.take(i as int));
            assert(vs.take(i + 1).last() == vs[i as int]);
            if e.is_virtual {
                let ghost before = self.view_sandboxes();
                let ghost before_raw = self.sandboxes@;
                self.sandboxes.push(e);
                assert(self.view_sandboxes() =~= before.push(sandbox_view(e)));
                assert forall|y: int| 0 <= y < self.sandboxes@.len() implies exists|z: int| 0 <= z < i + 1 && #[trigger] self.sandboxes@[y] == raw[z] by {
                    if y < before_raw.len() {
                        assert(self.sandboxes@[y] == before_raw[y]);
                    } else {
                        assert(self.sandboxes@[y] == raw[i as int]);
                    }
                }
                assert forall|a: int, b: int| 0 <= a < b < self.sandboxes@.len() implies exists|za: int, zb: int| 0 <= za < zb < i + 1 && #[trigger] self.sandboxes@[a] == raw[za] && #[trigger] self.sandboxes@[b] == raw[zb] by {
                    if b < before_raw.len() {
                        assert(self.sandboxes@[a] == before_raw[a] && self.sandboxes@[b] == before_raw[b]);
                    } else {
                        assert(self.sandboxes@[a] == before_raw[a]);
                        let za = choose|z: int| 0 <= z < i && #[trigger] before_raw[a] == raw[z];
                        assert(self.sandboxes@[b] == raw[i as int]);
                        assert(self.sandboxes@[a] == raw[za]);
                    }
                }
            } else {
                removed.push(e.id);
            }
            i = i + 1;
            assert forall|y: int| 0 <= y < rest@.len() implies #[trigger] rest@[y] == raw[i + y] by {}
        }
        assert(vs.take(n as int) =~= vs);
        assert forall|y: int| 0 <= y < self.sandboxes@.len() implies #[trigger] self.sandboxes@[y].id < self.next_id by {
            let z = choose|z: int| 0 <= z < i && #[trigger] self.sandboxes@[y] == raw[z];
        }
        assert forall|a: int, b: int| 0 <= a < b < self.sandboxes@.len() implies #[trigger] self.sandboxes@[a].id != #[trigger] self.sandboxes@[b].id by {
            let (za, zb) = choose|za: int, zb: int| 0 <= za < zb < i && #[trigger] self.sandboxes@[a] == raw[za] && #[trigger] self.sandboxes@[b] == raw[zb];
        }
        removed
    }

    /// Marks the script name as disabled; nothing is reloaded.
    pub fn disable_vm(&mut self, name: &str)
        ensures
            final(self).view_next_id() == old(self).view_next_id(),
            final(self).view_sandboxes() == old(self).view_sandboxes(),
            final(self).wf() == old(self).wf(),
            final(self).view_disabled().contains(name@),
            forall|n: Seq<char>| n != name@ ==> (#[trigger] final(self).view_disabled().contains(n) == old(self).view_disabled().contains(n)),
    {
        if !self.is_vm_name_enabled(name) {
            return;
        }
        let ghost before = self.view_disabled();
        self.disabled.push(name.to_owned());
        assert(self.view_disabled() =~= before.push(name@));
        assert forall|n: Seq<char>| true implies #[trigger] self.view_disabled().contains(n) == (
        before.contains(n) || name@ == n) by {
            lemma_push_contains(before, name@, n);
        }
    }

    /// Marks the script name as enabled again; nothing is reloaded.
    pub fn enable_vm(&mut self, name: &str)
        ensures
            final(self).view_next_id() == old(self).view_next_id(),
            final(self).view_sandboxes() == old(self).view_sandboxes(),
            final(self).wf() == old(self).wf(),
            !final(self).view_disabled().contains(name@),
            forall|n: Seq<char>| n != name@ ==> (#[trigger] final(self).view_disabled().contains(n) == old(self).view_disabled().contains(n)),
    {
        let ghost before = self.view_disabled();
        let mut kept: Vec<String> = Vec::new();
        let mut i: usize = 0;
        while i < self.disabled.len()
            invariant
                0 <= i <= self.disabled@.len(),
                self.sandboxes == old(self).sandboxes,
                self.next_id == old(self).next_id,
                before == self.view_disabled(),
                forall|k: int| 0 <= k < kept@.len() ==> #[trigger] kept@[k]@ != name@,
                forall|n: Seq<char>| n != name@ ==> (kept@.map_values(|s: String| s@).contains(n) == #[trigger] before.take(i as int).contains(n)),
            decreases self.disabled@.len() - i,
        {
            let ghost kv = kept@.map_values(|s: String| s@);
            assert(before[i as int] == self.disabled@[i as int]@);
            assert(before.take(i + 1) =~= before.take(i as int).push(before[i as int]));
            if !str_eq(self.disabled[i].as_str(), name) {
                let c = self.disabled[i].clone();
                kept.push(c);
                assert(kept@.map_values(|s: String| s@) =~= kv.push(before[i as int]));
                assert forall|n: Seq<char>| n != name@ implies (kept@.map_values(|s: String| s@).contains(n) == #[trigger] before.take(i + 1).contains(n)) by {
                    lemma_push_contains(kv, before[i as int], n);
                    lemma_push_contains(before.take(i as int), before[i as int], n);
                }
            } else {
                assert forall|n: Seq<char>| n != name@ implies (kept@.map_values(|s: String| s@).contains(n) == #[trigger] before.take(i + 1).contains(n)) by {
                    lemma_push_contains(before.take(i as int), before[i as int], n);
                }
            }
            i = i + 1;
        }
        assert(before.take(i as int) =~= before);
        self.disabled = kept;
        assert forall|k: int| 0 <= k < self.view_disabled().len() implies #[trigger] self.view_disabled()[k] != name@ by {
            assert(self.view_disabled()[k] == kept@[k]@);
        }
    }

    /// Whether scripts of this name may be loaded.
    pub fn is_vm_name_enabled(&self, name: &str) -> (r: bool)
        ensures
            r == !self.view_disabled().contains(name@),
    {
        let mut i: usize = 0;
        while i < self.disabled.len()
            invariant
                0 <= i <= self.disabled@.len(),
                forall|k: int| 0 <= k < i ==> #[trigger] self.view_disabled()[k] != name@,
            decreases self.disabled@.len() - i,
        {
            if str_eq(self.disabled[i].as_str(), name) {
                assert(self.view_disabled()[i as int] == name@);
                return false;
            }
            i = i + 1;
        }
        true
    }

    /// The directory entries (name, is a directory) to load as scripts, in
    /// order: files with the `.lua` extension whose name is not disabled.
    pub fn select_scripts(&self, entries: &Vec<(String, bool)>) -> (r: Vec<String>)
        ensures
            r@.map_values(|s: String| s@) == scripts_to_load(
                entries@.map_values(|e: (String, bool)| (e.0@, e.1)),
                self.view_disabled(),
            ),
    {
        let ghost es = entries@.map_values(|e: (String, bool)| (e.0@, e.1));
        let ext_arr: [u8; 4] = [0x2e, 0x6c, 0x75, 0x61];
        let ext = ext_arr.as_slice();
        assert(ext@ == script_ext()) by {
            broadcast use vstd::array::group_array_axioms;

            assert(ext_arr@ =~= script_ext());
        }
        let mut out: Vec<String> = Vec::new();
        let mut i: usize = 0;
        while i < entries.len()
            invariant
                0 <= i <= entries@.len(),
                es == entries@.map_values(|e: (String, bool)| (e.0@, e.1)),
                ext@ == script_ext(),
                out@.map_values(|s: String| s@) == scripts_to_load(es.take(i as int), self.view_disabled()),
            decreases entries@.len() - i,
        {
            assert(es.take(i + 1).drop_last() =~= es.take(i as int));
            assert(es.take(i + 1).last() == es[i as int]);
            assert(es[i as int] == (entries@[i as int].0@, entries@[i as int].1));
            let name = entries[i].0.as_str();
            let is_dir = entries[i].1;
            let ends = ends_with_bytes(name, ext);
            let long = name.as_bytes().len() > 4;
            let enabled = self.is_vm_name_enabled(name);
            let wanted = !is_dir && ends && long && enabled;
            assert(is_dir == es[i as int].1);
            assert(ends == bytes_end_with(vstd::utf8::encode_utf8(es[i as int].0), script_ext()));
            assert(long == (vstd::utf8::encode_utf8(es[i as int].0).len() > 4));
            assert(enabled == !self.view_disabled().contains(es[i as int].0));
            assert(script_ext().len() == 4);
            assert(name.spec_bytes() == vstd::utf8::encode_utf8(es[i as int].0));
            assert(wanted == (!es[i as int].1 && has_extension(
                vstd::utf8::encode_utf8(es[i as int].0),
                script_ext(),
            ) && !self.view_disabled().contains(es[i as int].0)));
            if wanted {
                let ghost before = out@.map_values(|s: String| s@);
                out.push(entries[i].0.clone());
                assert(out@.map_values(|s: String| s@) =~= before.push(es[i as int].0));
            }
            i = i + 1;
        }
        assert(es.take(i as int) =~= es);
        out
    }

    /// The disabled script names, for persisting them across reloads.
    pub fn disabled_names(&self) -> (r: Vec<String>)
        ensures
            r@.map_values(|s: String| s@) == self.view_disabled(),
    {
        let mut out: Vec<String> = Vec::new();
        let mut i: usize = 0;
        while i < self.disabled.len()
            invariant
                0 <= i <= self.disabled@.len(),
                out@.map_values(|s: String| s@) =~= self.view_disabled().take(i as int),
            decreases self.disabled@.len() - i,
        {
            assert(self.view_disabled()[i as int] == self.disabled@[i as int]@);
            let ghost before = out@.map_values(|s: String| s@);
            out.push(self.disabled[i].clone());
            assert(out@.map_values(|s: String| s@) =~= before.push(self.view_disabled()[i as int]));
            assert(self.view_disabled().take(i + 1) =~= self.view_disabled().take(i as int).push(self.view_disabled()[i as int]));
            i = i + 1;
        }
        assert(self.view_disabled().take(i as int) =~= self.view_disabled());
        out
    }

    /// Forgets every disabled name.
    pub fn clear_disabled(&mut self)
        ensures
            final(self).view_next_id() == old(self).view_next_id(),
            final(self).view_sandboxes() == old(self).view_sandboxes(),
            final(self).wf() == old(self).wf(),
            final(self).view_disabled() == Seq::<Seq<char>>::empty(),
    {
        self.disabled = Vec::new();
        assert(self.view_disabled() =~= Seq::<Seq<char>>::empty());
    }
}

} // verus!
