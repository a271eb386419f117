//! The registry of native extensions: which modules loaded, and the shared
//! table of named native functions they contribute.
//!
//! Functions that a module registers while its entry function runs are held
//! back, and enter the shared table only if the entry function succeeds: a
//! module that fails contributes nothing.
use vstd::prelude::*;
use vstd::string::StringSliceAdditionalSpecFns;

use crate::error::Error;
use crate::text::{ends_with_bytes, has_extension, bytes_end_with, str_eq};

verus! {

/// A table of named entries as a map; a later entry of a name replaces an
/// earlier one.
pub open spec fn named_entries(s: Seq<(String, usize)>) -> Map<Seq<char>, usize>
    decreases s.len(),
{
    if s.len() == 0 {
        Map::empty()
    } else {
        named_entries(s.drop_last()).insert(s.last().0@, s.last().1)
    }
}

/// The bytes of `.dll`, the extension of native modules.
pub open spec fn module_ext() -> Seq<u8> {
    seq![0x2eu8, 0x64u8, 0x6cu8, 0x6cu8]
}

/// The directory entries (name, is a directory) to load as modules, in order.
pub open spec fn modules_to_load(entries: Seq<(Seq<char>, bool)>) -> Seq<Seq<char>>
    decreases entries.len(),
{
    if entries.len() == 0 {
        Seq::empty()
    } else {
        let rest = modules_to_load(entries.drop_last());
        let (name, is_dir) = entries.last();
        if !is_dir && has_extension(vstd::utf8::encode_utf8(name), module_ext()) {
            rest.push(name)
        } else {
            rest
        }
    }
}

proof fn lemma_named_entries_append(a: Seq<(String, usize)>, b: Seq<(String, usize)>)
    ensures
        named_entries(a + b) == named_entries(a).union_prefer_right(named_entries(b)),
    decreases b.len(),
{
    if b.len() == 0 {
        assert(a + b =~= a);
        assert(named_entries(a).union_prefer_right(named_entries(b)) =~= named_entries(a));
    } else {
        assert((a + b).drop_last() =~= a + b.drop_last());
        assert((a + b).last() == b.last());
        lemma_named_entries_append(a, b.drop_last());
        assert(named_entries(a + b) =~= named_entries(a).union_prefer_right(named_entries(b)));
    }
}

/// Count of modules found, and of those that loaded.
#[derive(Clone, Copy, Debug, PartialEq, Eq, Structural)]
pub struct LoadStats {
    pub total: usize,
    pub loaded: usize,
}

/// Loaded extensions and the functions they registered.
pub struct CoreAPI {
    extensions: Vec<String>,
    functions: Vec<(String, usize)>,
    pending: Vec<(String, usize)>,
    loading: bool,
}

impl CoreAPI {
    /// The names of the loaded extensions, in load order.
    pub closed spec fn view_extensions(&self) -> Seq<Seq<char>> {
        self.extensions@.map_values(|s: String| s@)
    }

    /// The shared function table: name to function address.
    pub closed spec fn view_functions(&self) -> Map<Seq<char>, usize> {
        named_entries(self.functions@)
    }

    /// The functions registered by the module being loaded, not yet shared.
    pub closed spec fn view_pending(&self) -> Map<Seq<char>, usize> {
        named_entries(self.pending@)
    }

    /// Whether a module's entry function is running.
    pub closed spec fn view_loading(&self) -> bool {
        self.loading
    }

    pub fn new() -> (r: Self)
        ensures
            r.view_extensions() == Seq::<Seq<char>>::empty(),
            r.view_functions() == Map::<Seq<char>, usize>::empty(),
            r.view_pending() == Map::<Seq<char>, usize>::empty(),
            !r.view_loading(),
    {
        let r = CoreAPI { extensions: Vec::new(), functions: Vec::new(), pending: Vec::new(), loading: false };
        assert(r.view_extensions() =~= Seq::<Seq<char>>::empty());
        r
    }

    /// Registers a function under `name`. While a module loads, it is held
    /// back until the module's entry function succeeds.
    pub fn register_function(&mut self, name: &str, function: usize)
        ensures
            final(self).view_extensions() == old(self).view_extensions(),
            final(self).view_loading() == old(self).view_loading(),
            old(self).view_loading() ==> final(self).view_pending() == old(self).view_pending().insert(name@, function)
                && final(self).view_functions() == old(self).view_functions(),
            !old(self).view_loading() ==> final(self).view_functions() == old(self).view_functions().insert(name@, function)
                && final(self).view_pending() == old(self).view_pending(),
    {
        let e = (name.to_owned(), function);
        if self.loading {
            let ghost before = self.pending@;
            self.pending.push(e);
            assert(self.pending@.drop_last() =~= before);
        } else {
            let ghost before = self.functions@;
            self.functions.push(e);
            assert(self.functions@.drop_last() =~= before);
        }
    }

    /// The function registered under `name`.
    pub fn get_function(&self, name: &str) -> (r: Option<usize>)
        ensures
            r == (if self.view_functions().contains_key(name@) {
                Some(self.view_functions()[name@])
            } else {
                None::<usize>
            }),
    {
        let mut i = self.functions.len();
        assert(self.functions@.take(i as int) =~= self.functions@);
        while i > 0
            invariant
                i <= self.functions@.len(),
                named_entries(self.functions@.take(i as int)).contains_key(name@)
                    == self.view_functions().contains_key(name@),
                named_entries(self.functions@.take(i as int)).contains_key(name@) ==> named_entries(
                    self.functions@.take(i as int),
                )[name@] == self.view_functions()[name@],
            decreases i,
        {
            assert(self.functions@.take(i as int).drop_last() =~= self.functions@.take(i - 1));
            assert(self.functions@.take(i as int).last() == self.functions@[i - 1]);
            if str_eq(self.functions[i - 1].0.as_str(), name) {
                return Some(self.functions[i - 1].1);
            }
            i = i - 1;
        }
        None
    }

    /// Whether an extension of this name is loaded.
    pub fn has_extension(&self, name: &str) -> (r: bool)
        ensures
            r == self.view_extensions().contains(name@),
    {
        let mut i: usize = 0;
        while i < self.extensions.len()
            invariant
                0 <= i <= self.extensions@.len(),
                forall|k: int| 0 <= k < i ==> #[trigger] self.view_extensions()[k] != name@,
            decreases self.extensions@.len() - i,
        {
            if str_eq(self.extensions[i].as_str(), name) {
                assert(self.view_extensions()[i as int] == name@);
                return true;
            }
            i = i + 1;
        }
        false
    }

    /// Starts loading a module: what it registers is held back from now on.
    pub fn begin_load(&mut self)
        ensures
            final(self).view_extensions() == old(self).view_extensions(),
            final(self).view_functions() == old(self).view_functions(),
            final(self).view_pending() == Map::<Seq<char>, usize>::empty(),
            final(self).view_loading(),
    {
        self.pending = Vec::new();
        self.loading = true;
    }

    /// Ends loading the module `name`, whose entry function returned `code`.
    /// On 0 the module counts as loaded and what it registered is shared; on
    /// any other code it is dropped, and the error carries the code.
    pub fn finish_load(&mut self, name: &str, code: i32) -> (r: Result<(), Error>)
        ensures
            !final(self).view_loading(),
            final(self).view_pending() == Map::<Seq<char>, usize>::empty(),
            code == 0 ==> r is Ok && final(self).view_functions() == old(self).view_functions().union_prefer_right(
                old(self).view_pending(),
            ) && final(self).view_extensions() == old(self).view_extensions().push(name@),
            code != 0 ==> r == Err::<(), Error>(Error::InitCoreExtension(code))
                && final(self).view_functions() == old(self).view_functions()
                && final(self).view_extensions() == old(self).view_extensions(),
    {
        let mut pending: Vec<(String, usize)> = Vec::new();
        std::mem::swap(&mut pending, &mut self.pending);
        self.loading = false;
        assert(self.pending@ =~= Seq::<(String, usize)>::empty());
        if code != 0 {
            return Err(Error::InitCoreExtension(code));
        }
        let ghost base = self.functions@;
        let mut k: usize = 0;
        while k < pending.len()
            invariant
                0 <= k <= pending@.len(),
                pending@ == old(self).pending@,
                self.functions@ == base + pending@.take(k as int),
                self.extensions == old(self).extensions,
                self.pending@ == Seq::<(String, usize)>::empty(),
                !self.loading,
            decreases pending@.len() - k,
        {
            let e = (pending[k].0.clone(), pending[k].1);
            self.functions.push(e);
            assert(base + pending@.take(k + 1) =~= (base + pending@.take(k as int)).push(pending@[k as int]));
            k = k + 1;
        }
        assert(pending@.take(k as int) =~= pending@);
        proof {
            lemma_named_entries_append(base, pending@);
        }
        let ghost before = self.view_extensions();
        self.extensions.push(name.to_owned());
        assert(self.view_extensions() =~= before.push(name@));
        Ok(())
    }

    /// The directory entries (name, is a directory) to load as modules, in
    /// order: files with the `.dll` extension.
    pub fn select_modules(entries: &Vec<(String, bool)>) -> (r: Vec<String>)
        ensures
            r@.map_values(|s: String| s@) == modules_to_load(
                entries@.map_values(|e: (String, bool)| (e.0@, e.1)),
            ),
    {
        let ghost es = entries@.map_values(|e: (String, bool)| (e.0@, e.1));
        let ext_arr: [u8; 4] = [0x2e, 0x64, 0x6c, 0x6c];
        let ext = ext_arr.as_slice();
        assert(ext@ == module_ext()) by {
            broadcast use vstd::array::group_array_axioms;

            assert(ext_arr@ =~= module_ext());
        }
        let mut out: Vec<String> = Vec::new();
        let mut i: usize = 0;
        while i < entries.len()
            invariant
                0 <= i <= entries@.len(),
                es == entries@.map_values(|e: (String, bool)| (e.0@, e.1)),
                ext@ == module_ext(),
                out@.map_values(|s: String| s@) == modules_to_load(es.take(i as int)),
            decreases entries@.len() - i,
        {
            assert(es.take(i + 1).drop_last() =~= es.take(i as int));
            assert(es.take(i + 1).last() == es[i as int]);
            assert(es[i as int] == (entries@[i as int].0@, entries@[i as int].1));
            let name = entries[i].0.as_str();
            let is_dir = entries[i].1;
            let ends = ends_with_bytes(name, ext);
            let long = name.as_bytes().len() > 4;
            assert(module_ext().len() == 4);
            assert(name.spec_bytes() == vstd::utf8::encode_utf8(es[i as int].0));
            assert(ends == bytes_end_with(vstd::utf8::encode_utf8(es[i as int].0), module_ext()));
            if !is_dir && ends && long {
                let ghost before = out@.map_values(|s: String| s@);
                out.push(entries[i].0.clone());
                assert(out@.map_values(|s: String| s@) =~= before.push(es[i as int].0));
            }
            i = i + 1;
        }
        assert(es.take(i as int) =~= es);
        out
    }

    /// Counts one module found, and whether its load succeeded.
    pub fn count_load(stats: LoadStats, result: &Result<(), Error>) -> (r: LoadStats)
        requires
            stats.total < usize::MAX,
            stats.loaded <= stats.total,
        ensures
            r.total == stats.total + 1,
            r.loaded == stats.loaded + (if result is Ok { 1int } else { 0 }),
            r.loaded <= r.total,
    {
        match result {
            Ok(()) => LoadStats { total: stats.total + 1, loaded: stats.loaded + 1 },
            Err(_) => LoadStats { total: stats.total + 1, loaded: stats.loaded },
        }
    }
}

} // verus!
