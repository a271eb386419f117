//! The top-level owner of the services: resolver, dispatcher, patch table,
//! sandbox table, extension registry and shared state, and the ordered teardown
//! of a sandbox across them.
use vstd::prelude::*;

use crate::address::AddressRepository;
use crate::dispatcher::{
    has_point, lemma_strip_leaves_no_owner, point_index, strip_owner, without_owner, HookKind,
    InterceptorDispatcher, PointView, Registration,
};
use crate::extension::CoreAPI;
use crate::patch::{
    lemma_patches_without_owner, patches_without, restores_of, MemoryPatchManager, PatchView,
};
use crate::sandbox::{has_id, SandboxManager};
use crate::shared::SharedState;

verus! {

/// The steps of a sandbox's destruction, in the order they must run: a hook
/// must never fire into a sandbox whose state is gone.
#[derive(Clone, Copy, Debug, PartialEq, Eq, Structural)]
pub enum TeardownStep {
    /// Run the sandbox's own finalizer callback.
    RunFinalizer,
    /// Detach every hook the sandbox owns.
    ReleaseHooks,
    /// Undo every memory patch the sandbox applied.
    RestorePatches,
    /// Tell the extensions that the sandbox's interpreter state is gone.
    NotifyExtensions,
}

impl TeardownStep {
    pub fn first() -> (r: TeardownStep)
        ensures
            r == TeardownStep::RunFinalizer,
    {
        TeardownStep::RunFinalizer
    }

    /// The step after this one, `None` after the last.
    pub fn next(self) -> (r: Option<TeardownStep>)
        ensures
            r == match self {
                TeardownStep::RunFinalizer => Some(TeardownStep::ReleaseHooks),
                TeardownStep::ReleaseHooks => Some(TeardownStep::RestorePatches),
                TeardownStep::RestorePatches => Some(TeardownStep::NotifyExtensions),
                TeardownStep::NotifyExtensions => None::<TeardownStep>,
            },
    {
        match self {
            TeardownStep::RunFinalizer => Some(TeardownStep::ReleaseHooks),
            TeardownStep::ReleaseHooks => Some(TeardownStep::RestorePatches),
            TeardownStep::RestorePatches => Some(TeardownStep::NotifyExtensions),
            TeardownStep::NotifyExtensions => None,
        }
    }
}

/// What the caller must do to finish a sandbox's teardown: release these
/// native listeners, and write these bytes back.
pub struct Teardown<L> {
    pub listeners: Vec<L>,
    pub restores: Vec<(usize, Vec<u8>)>,
}

/// Destroying a sandbox leaves no hook registration and no patch of it, and
/// hands back, for writing, the pre-patch bytes of every range it patched.
pub proof fn lemma_teardown_is_complete<L>(pts: Seq<PointView<L>>, ps: Seq<PatchView>, owner: u32)
    ensures
        forall|k: int, j: int|
            0 <= k < strip_owner(pts, owner).1.len() && 0 <= j < strip_owner(
                pts,
                owner,
            ).1[k].2.len() ==> #[trigger] strip_owner(pts, owner).1[k].2[j].owner != owner,
        forall|i: int|
            0 <= i < patches_without(ps, owner).len() ==> #[trigger] patches_without(
                ps,
                owner,
            )[i].3 != owner,
        forall|i: int|
            0 <= i < ps.len() && #[trigger] ps[i].3 == owner ==> restores_of(ps, owner).contains(
                (ps[i].0, ps[i].2),
            ),
{
    lemma_strip_leaves_no_owner(pts, owner);
    lemma_patches_without_owner(ps, owner);
    lemma_restores_cover(ps, owner);
}

proof fn lemma_restores_cover(ps: Seq<PatchView>, owner: u32)
    ensures
        forall|i: int|
            0 <= i < ps.len() && #[trigger] ps[i].3 == owner ==> restores_of(ps, owner).contains(
                (ps[i].0, ps[i].2),
            ),
    decreases ps.len(),
{
    if ps.len() > 0 {
        let init = ps.drop_last();
        lemma_restores_cover(init, owner);
        assert forall|i: int| 0 <= i < ps.len() && #[trigger] ps[i].3 == owner implies restores_of(
            ps,
            owner,
        ).contains((ps[i].0, ps[i].2)) by {
            let r = restores_of(ps, owner);
            if i == ps.len() - 1 {
                assert(r[r.len() - 1] == (ps[i].0, ps[i].2));
            } else {
                assert(init[i] == ps[i]);
                let w = restores_of(init, owner);
                let k = choose|k: int| 0 <= k < w.len() && w[k] == (ps[i].0, ps[i].2);
                assert(r[k] == w[k]);
            }
        }
    }
}

/// Where `a` owns no registration, removing those of another owner leaves it
/// owning none.
proof fn lemma_strip_keeps_absent<L>(pts: Seq<PointView<L>>, owner: u32, a: u32)
    requires
        forall|k: int, j: int|
            0 <= k < pts.len() && 0 <= j < pts[k].2.len() ==> #[trigger] pts[k].2[j].owner != a,
    ensures
        forall|k: int, j: int|
            0 <= k < strip_owner(pts, owner).1.len() && 0 <= j < strip_owner(
                pts,
                owner,
            ).1[k].2.len() ==> #[trigger] strip_owner(pts, owner).1[k].2[j].owner != a,
    decreases pts.len(),
{
    if pts.len() > 0 {
        let init = pts.drop_last();
        assert forall|k: int, j: int| 0 <= k < init.len() && 0 <= j < init[k].2.len() implies #[trigger] init[k].2[j].owner != a by {
            assert(init[k] == pts[k]);
        }
        lemma_strip_keeps_absent(init, owner, a);
        let p = pts.last();
        assert forall|j: int| 0 <= j < p.2.len() implies #[trigger] p.2[j].owner != a by {
            assert(pts[pts.len() - 1].2[j].owner != a);
        }
        lemma_without_keeps_absent(p.2, owner, a);
        let kept = strip_owner(init, owner).1;
        let out = strip_owner(pts, owner).1;
        assert forall|k: int, j: int| 0 <= k < out.len() && 0 <= j < out[k].2.len() implies #[trigger] out[k].2[j].owner != a by {
            if k < kept.len() {
                assert(out[k] == kept[k]);
            }
        }
    }
}

proof fn lemma_without_keeps_absent(regs: Seq<Registration>, owner: u32, a: u32)
    requires
        forall|j: int| 0 <= j < regs.len() ==> #[trigger] regs[j].owner != a,
    ensures
        forall|j: int| 0 <= j < without_owner(regs, owner).len() ==> #[trigger] without_owner(regs, owner)[j].owner != a,
    decreases regs.len(),
{
    if regs.len() > 0 {
        let init = regs.drop_last();
        assert forall|j: int| 0 <= j < init.len() implies #[trigger] init[j].owner != a by {
            assert(init[j] == regs[j]);
        }
        lemma_without_keeps_absent(init, owner, a);
        let w = without_owner(init, owner);
        let out = without_owner(regs, owner);
        assert forall|j: int| 0 <= j < out.len() implies #[trigger] out[j].owner != a by {
            if j < w.len() {
                assert(out[j] == w[j]);
            } else {
                assert(out[j] == regs[regs.len() - 1]);
            }
        }
    }
}

/// Where `a` made no patch, removing those of another owner leaves it none.
proof fn lemma_patches_keep_absent(ps: Seq<PatchView>, owner: u32, a: u32)
    requires
        forall|i: int| 0 <= i < ps.len() ==> #[trigger] ps[i].3 != a,
    ensures
        forall|i: int| 0 <= i < patches_without(ps, owner).len() ==> #[trigger] patches_without(ps, owner)[i].3 != a,
    decreases ps.len(),
{
    if ps.len() > 0 {
        let init = ps.drop_last();
        assert forall|i: int| 0 <= i < init.len() implies #[trigger] init[i].3 != a by {
            assert(init[i] == ps[i]);
        }
        lemma_patches_keep_absent(init, owner, a);
        let w = patches_without(init, owner);
        let out = patches_without(ps, owner);
        assert forall|i: int| 0 <= i < out.len() implies #[trigger] out[i].3 != a by {
            if i < w.len() {
                assert(out[i] == w[i]);
            } else {
                assert(out[i] == ps[ps.len() - 1]);
            }
        }
    }
}

/// The registrations of `regs` of `kind` whose sandbox is still in `live`, in
/// order: those whose callbacks an event runs.
pub open spec fn live_targets(regs: Seq<Registration>, kind: HookKind, live: Seq<crate::sandbox::SandboxView>) -> Seq<Registration>
    decreases regs.len(),
{
    if regs.len() == 0 {
        Seq::empty()
    } else {
        let rest = live_targets(regs.drop_last(), kind, live);
        let r = regs.last();
        if r.handle.spec_kind() == kind && has_id(live, r.owner) {
            rest.push(r)
        } else {
            rest
        }
    }
}

/// The points left once every registration of each owner in `ids` is gone,
/// owner after owner.
pub open spec fn strip_all<L>(pts: Seq<PointView<L>>, ids: Seq<u32>) -> Seq<PointView<L>>
    decreases ids.len(),
{
    if ids.len() == 0 {
        pts
    } else {
        strip_owner(strip_all(pts, ids.drop_last()), ids.last()).1
    }
}

/// The patches left once those of each owner in `ids` are undone.
pub open spec fn patches_without_all(ps: Seq<PatchView>, ids: Seq<u32>) -> Seq<PatchView>
    decreases ids.len(),
{
    if ids.len() == 0 {
        ps
    } else {
        patches_without(patches_without_all(ps, ids.drop_last()), ids.last())
    }
}

/// The registrations of `regs` that `owner` made, in order.
pub open spec fn owned_by(regs: Seq<Registration>, owner: u32) -> Seq<Registration>
    decreases regs.len(),
{
    if regs.len() == 0 {
        Seq::empty()
    } else if regs.last().owner == owner {
        owned_by(regs.drop_last(), owner).push(regs.last())
    } else {
        owned_by(regs.drop_last(), owner)
    }
}

/// The hooks of `owner`: for each point, in order, its address and the
/// registrations of `owner` there, where it has any.
pub open spec fn hooks_of<L>(pts: Seq<PointView<L>>, owner: u32) -> Seq<(usize, Seq<Registration>)>
    decreases pts.len(),
{
    if pts.len() == 0 {
        Seq::empty()
    } else {
        let p = pts.last();
        let mine = owned_by(p.2, owner);
        if mine.len() == 0 {
            hooks_of(pts.drop_last(), owner)
        } else {
            hooks_of(pts.drop_last(), owner).push((p.0, mine))
        }
    }
}

/// The patches of `ps` that `owner` made, in order.
pub open spec fn patches_of(ps: Seq<PatchView>, owner: u32) -> Seq<PatchView>
    decreases ps.len(),
{
    if ps.len() == 0 {
        Seq::empty()
    } else if ps.last().3 == owner {
        patches_of(ps.drop_last(), owner).push(ps.last())
    } else {
        patches_of(ps.drop_last(), owner)
    }
}

proof fn lemma_without_keeps_owned(regs: Seq<Registration>, gone: u32, owner: u32)
    requires
        gone != owner,
    ensures
        owned_by(without_owner(regs, gone), owner) == owned_by(regs, owner),
    decreases regs.len(),
{
    if regs.len() > 0 {
        lemma_without_keeps_owned(regs.drop_last(), gone, owner);
        let w = without_owner(regs.drop_last(), gone);
        if regs.last().owner != gone {
            assert(without_owner(regs, gone).drop_last() == w);
        }
    }
}

proof fn lemma_without_len(regs: Seq<Registration>, gone: u32)
    ensures
        without_owner(regs, gone).len() <= regs.len(),
        without_owner(regs, gone).len() == 0 ==> forall|j: int| 0 <= j < regs.len() ==> #[trigger] regs[j].owner == gone,
    decreases regs.len(),
{
    if regs.len() > 0 {
        lemma_without_len(regs.drop_last(), gone);
        if without_owner(regs, gone).len() == 0 {
            assert forall|j: int| 0 <= j < regs.len() implies #[trigger] regs[j].owner == gone by {
                if j < regs.len() - 1 {
                    assert(regs.drop_last()[j] == regs[j]);
                }
            }
        }
    }
}

proof fn lemma_owned_empty(regs: Seq<Registration>, owner: u32)
    requires
        forall|j: int| 0 <= j < regs.len() ==> #[trigger] regs[j].owner != owner,
    ensures
        owned_by(regs, owner).len() == 0,
    decreases regs.len(),
{
    if regs.len() > 0 {
        assert forall|j: int| 0 <= j < regs.drop_last().len() implies #[trigger] regs.drop_last()[j].owner != owner by {
            assert(regs.drop_last()[j] == regs[j]);
        }
        lemma_owned_empty(regs.drop_last(), owner);
    }
}

/// Removing the hooks of one sandbox leaves the hooks of every other sandbox
/// as they were.
pub proof fn lemma_strip_keeps_other_hooks<L>(pts: Seq<PointView<L>>, gone: u32, owner: u32)
    requires
        gone != owner,
    ensures
        hooks_of(strip_owner(pts, gone).1, owner) == hooks_of(pts, owner),
    decreases pts.len(),
{
    if pts.len() > 0 {
        lemma_strip_keeps_other_hooks(pts.drop_last(), gone, owner);
        let p = pts.last();
        let w = without_owner(p.2, gone);
        lemma_without_keeps_owned(p.2, gone, owner);
        let kept = strip_owner(pts.drop_last(), gone).1;
        if w.len() == 0 {
            lemma_without_len(p.2, gone);
            lemma_owned_empty(p.2, owner);
        } else {
            let out = kept.push((p.0, p.1, w));
            assert(out.drop_last() == kept);
        }
    }
}

/// Undoing the patches of one sandbox leaves the patches of every other
/// sandbox as they were.
pub proof fn lemma_patches_keep_other(ps: Seq<PatchView>, gone: u32, owner: u32)
    requires
        gone != owner,
    ensures
        patches_of(patches_without(ps, gone), owner) == patches_of(ps, owner),
    decreases ps.len(),
{
    if ps.len() > 0 {
        lemma_patches_keep_other(ps.drop_last(), gone, owner);
        if ps.last().3 != gone {
            assert(patches_without(ps, gone).drop_last() == patches_without(ps.drop_last(), gone));
        }
    }
}

/// Removing the hooks and patches of the sandboxes `ids`, one after the
/// other, leaves those of every sandbox not among them as they were.
pub proof fn lemma_others_survive<L>(pts: Seq<PointView<L>>, ps: Seq<PatchView>, ids: Seq<u32>, owner: u32)
    requires
        !ids.contains(owner),
    ensures
        hooks_of(strip_all(pts, ids), owner) == hooks_of(pts, owner),
        patches_of(patches_without_all(ps, ids), owner) == patches_of(ps, owner),
    decreases ids.len(),
{
    if ids.len() > 0 {
        assert(!ids.drop_last().contains(owner)) by {
            if ids.drop_last().contains(owner) {
                let k = choose|k: int| 0 <= k < ids.drop_last().len() && ids.drop_last()[k] == owner;
                assert(ids[k] == owner);
            }
        }
        assert(ids.last() != owner) by {
            assert(ids[ids.len() - 1] == ids.last());
        }
        lemma_others_survive(pts, ps, ids.drop_last(), owner);
        lemma_strip_keeps_other_hooks(strip_all(pts, ids.drop_last()), ids.last(), owner);
        lemma_patches_keep_other(patches_without_all(ps, ids.drop_last()), ids.last(), owner);
    }
}

/// The services of one process, owned in one place.
pub struct Runtime<L, V> {
    pub resolver: AddressRepository,
    pub dispatcher: InterceptorDispatcher<L>,
    pub patches: MemoryPatchManager,
    pub sandboxes: SandboxManager,
    pub extensions: CoreAPI,
    pub shared: SharedState<V>,
}

impl<L, V> Runtime<L, V> {
    pub open spec fn wf(&self) -> bool {
        &&& self.dispatcher.wf()
        &&& self.patches.wf()
        &&& self.sandboxes.wf()
    }

    pub fn new() -> (r: Self)
        ensures
            r.wf(),
    {
        Runtime {
            resolver: AddressRepository::new(),
            dispatcher: InterceptorDispatcher::new(),
            patches: MemoryPatchManager::new(),
            sandboxes: SandboxManager::new(),
            extensions: CoreAPI::new(),
            shared: SharedState::new(),
        }
    }

    /// The registrations of `kind` at `addr` whose callbacks an event there
    /// runs, in the order they were attached: those of sandboxes that were
    /// destroyed meanwhile are skipped.
    pub fn dispatch_targets(&self, addr: usize, kind: HookKind) -> (r: Vec<Registration>)
        ensures
            r@ == live_targets(
                if has_point(self.dispatcher.view_points(), addr) {
                    self.dispatcher.view_points()[point_index(self.dispatcher.view_points(), addr)].2
                } else {
                    Seq::<Registration>::empty()
                },
                kind,
                self.sandboxes.view_sandboxes(),
            ),
    {
        let regs = self.dispatcher.registrations_at(addr);
        let mut out: Vec<Registration> = Vec::new();
        let mut j: usize = 0;
        while j < regs.len()
            invariant
                0 <= j <= regs@.len(),
                out@ == live_targets(regs@.take(j as int), kind, self.sandboxes.view_sandboxes()),
            decreases regs@.len() - j,
        {
            assert(regs@.take(j + 1).drop_last() =~= regs@.take(j as int));
            assert(regs@.take(j + 1).last() == regs@[j as int]);
            let r = regs[j];
            if r.handle.kind() == kind && self.sandboxes.contains(r.owner) {
                out.push(r);
            }
            j = j + 1;
        }
        assert(regs@.take(regs@.len() as int) =~= regs@);
        out
    }

    /// Releases the hooks and then the patches of sandbox `owner`, the two
    /// middle steps of its teardown.
    fn release_owned(&mut self, owner: u32) -> (r: Teardown<L>)
        requires
            old(self).wf(),
        ensures
            final(self).wf(),
            final(self).sandboxes == old(self).sandboxes,
            final(self).shared == old(self).shared,
            (r.listeners@, final(self).dispatcher.view_points()) == strip_owner(
                old(self).dispatcher.view_points(),
                owner,
            ),
            final(self).patches.view_patches() == patches_without(
                old(self).patches.view_patches(),
                owner,
            ),
            r.restores@.map_values(|w: (usize, Vec<u8>)| (w.0, w.1@)) == restores_of(
                old(self).patches.view_patches(),
                owner,
            ),
    {
        let listeners = self.dispatcher.detach_owner(owner);
        let restores = self.patches.restore_owner(owner);
        Teardown { listeners, restores }
    }

    /// Removes sandbox `id` and releases what it owns: its hooks first, then
    /// its patches. The caller has run its finalizer before, and notifies the
    /// extensions after. `None` where no such sandbox exists.
    pub fn destroy_sandbox(&mut self, id: u32) -> (r: Option<Teardown<L>>)
        requires
            old(self).wf(),
        ensures
            final(self).wf(),
            !has_id(final(self).sandboxes.view_sandboxes(), id),
            match r {
                None => !has_id(old(self).sandboxes.view_sandboxes(), id) && final(self).dispatcher
                    == old(self).dispatcher && final(self).patches == old(self).patches,
                Some(t) => has_id(old(self).sandboxes.view_sandboxes(), id) && (
                t.listeners@,
                final(self).dispatcher.view_points(),
                ) == strip_owner(old(self).dispatcher.view_points(), id)
                    && final(self).patches.view_patches() == patches_without(
                    old(self).patches.view_patches(),
                    id,
                ) && t.restores@.map_values(|w: (usize, Vec<u8>)| (w.0, w.1@)) == restores_of(
                    old(self).patches.view_patches(),
                    id,
                ),
            },
    {
        if !self.sandboxes.remove_vm(id) {
            return None;
        }
        Some(self.release_owned(id))
    }

    /// Destroys every sandbox that is not virtual, in registration order, and
    /// clears the shared state. Returns the identifiers removed and, for each,
    /// what remains to release. Virtual sandboxes keep their identity, name,
    /// order, hooks and patches.
    pub fn reload_physical(&mut self) -> (r: (Vec<u32>, Vec<Teardown<L>>))
        requires
            old(self).wf(),
        ensures
            final(self).wf(),
            final(self).sandboxes.view_sandboxes() == crate::sandbox::virtual_only(
                old(self).sandboxes.view_sandboxes(),
            ),
            r.0@ == crate::sandbox::physical_ids(old(self).sandboxes.view_sandboxes()),
            r.1@.len() == r.0@.len(),
            final(self).dispatcher.view_points() == strip_all(old(self).dispatcher.view_points(), r.0@),
            final(self).patches.view_patches() == patches_without_all(old(self).patches.view_patches(), r.0@),
            final(self).shared.view_states() == Map::<Seq<char>, V>::empty(),
            forall|i: int, k: int, j: int|
                0 <= i < r.0@.len() && 0 <= k < final(self).dispatcher.view_points().len() && 0
                    <= j < final(self).dispatcher.view_points()[k].2.len()
                    ==> #[trigger] final(self).dispatcher.view_points()[k].2[j].owner
                    != #[trigger] r.0@[i],
            forall|i: int, k: int|
                0 <= i < r.0@.len() && 0 <= k < final(self).patches.view_patches().len()
                    ==> #[trigger] final(self).patches.view_patches()[k].3 != #[trigger] r.0@[i],
    {
        let removed = self.sandboxes.remove_physical_vms();
        let mut teardowns: Vec<Teardown<L>> = Vec::new();
        let mut i: usize = 0;
        while i < removed.len()
            invariant
                0 <= i <= removed@.len(),
                self.wf(),
                teardowns@.len() == i,
                self.sandboxes.view_sandboxes() == crate::sandbox::virtual_only(
                    old(self).sandboxes.view_sandboxes(),
                ),
                self.dispatcher.view_points() == strip_all(old(self).dispatcher.view_points(), removed@.take(i as int)),
                self.patches.view_patches() == patches_without_all(old(self).patches.view_patches(), removed@.take(i as int)),
                removed@ == crate::sandbox::physical_ids(old(self).sandboxes.view_sandboxes()),
                forall|a: int, k: int, j: int|
                    0 <= a < i && 0 <= k < self.dispatcher.view_points().len() && 0 <= j
                        < self.dispatcher.view_points()[k].2.len()
                        ==> #[trigger] self.dispatcher.view_points()[k].2[j].owner
                        != #[trigger] removed@[a],
                forall|a: int, k: int|
                    0 <= a < i && 0 <= k < self.patches.view_patches().len()
                        ==> #[trigger] self.patches.view_patches()[k].3 != #[trigger] removed@[a],
            decreases removed@.len() - i,
        {
            let owner = removed[i];
            let ghost pts = self.dispatcher.view_points();
            let ghost ps = self.patches.view_patches();
            let t = self.release_owned(owner);
            proof {
                lemma_strip_leaves_no_owner(pts, owner);
                lemma_patches_without_owner(ps, owner);
                assert forall|a: int, k: int, j: int|
                    0 <= a < i && 0 <= k < self.dispatcher.view_points().len() && 0 <= j
                        < self.dispatcher.view_points()[k].2.len() implies #[trigger] self.dispatcher.view_points()[k].2[j].owner
                        != #[trigger] removed@[a] by {
                    let x = removed@[a];
                    assert forall|k2: int, j2: int| 0 <= k2 < pts.len() && 0 <= j2 < pts[k2].2.len() implies #[trigger] pts[k2].2[j2].owner != x by {
                        assert(pts[k2].2[j2].owner != removed@[a]);
                    }
                    lemma_strip_keeps_absent(pts, owner, x);
                }
                assert forall|a: int, k: int|
                    0 <= a < i && 0 <= k < self.patches.view_patches().len()
                        implies #[trigger] self.patches.view_patches()[k].3 != #[trigger] removed@[a] by {
                    let x = removed@[a];
                    assert forall|k2: int| 0 <= k2 < ps.len() implies #[trigger] ps[k2].3 != x by {
                        assert(ps[k2].3 != removed@[a]);
                    }
                    lemma_patches_keep_absent(ps, owner, x);
                }
            }
            teardowns.push(t);
            assert(removed@.take(i + 1).drop_last() =~= removed@.take(i as int));
            assert(removed@.take(i + 1).last() == owner);
            i = i + 1;
        }
        assert(removed@.take(i as int) =~= removed@);
        self.shared.clear_states();
        (removed, teardowns)
    }
}

} // verus!
