//! In-place memory patches: which ranges are patched, by which sandbox, and the
//! bytes each range held before, so that it can be restored.
//!
//! The bytes themselves are read and written by the caller; this table decides
//! whether a patch may be made and hands back what must be written to undo one.
use vstd::prelude::*;

use crate::error::{Error, MemoryError};

verus! {

/// One applied patch.
pub struct MemoryPatch {
    pub address: usize,
    pub size: usize,
    /// What the range held before it was patched.
    pub backup: Vec<u8>,
    /// The sandbox that made the patch.
    pub owner: u32,
}

/// A patch as the contracts see it: address, size, backup, owner.
pub type PatchView = (usize, usize, Seq<u8>, u32);

/// The contracts' view of a patch.
pub open spec fn patch_view(p: MemoryPatch) -> PatchView {
    (p.address, p.size, p.backup@, p.owner)
}

/// Whether `[a, a + s)` and `[b, b + t)` share a byte.
pub open spec fn ranges_overlap(a: int, s: int, b: int, t: int) -> bool {
    a < b + t && b < a + s
}

/// Whether some patch of `ps` overlaps `[address, address + size)`.
pub open spec fn overlaps_any(ps: Seq<PatchView>, address: int, size: int) -> bool {
    exists|i: int| 0 <= i < ps.len() && ranges_overlap(#[trigger] ps[i].0 as int, ps[i].1 as int, address, size)
}

/// The patches of `ps` that `owner` did not make, in order.
pub open spec fn patches_without(ps: Seq<PatchView>, owner: u32) -> Seq<PatchView>
    decreases ps.len(),
{
    if ps.len() == 0 {
        Seq::empty()
    } else if ps.last().3 == owner {
        patches_without(ps.drop_last(), owner)
    } else {
        patches_without(ps.drop_last(), owner).push(ps.last())
    }
}

/// The writes that undo the patches of `owner` in `ps`: address and backup, in
/// the order the patches were made.
pub open spec fn restores_of(ps: Seq<PatchView>, owner: u32) -> Seq<(usize, Seq<u8>)>
    decreases ps.len(),
{
    if ps.len() == 0 {
        Seq::empty()
    } else if ps.last().3 == owner {
        restores_of(ps.drop_last(), owner).push((ps.last().0, ps.last().2))
    } else {
        restores_of(ps.drop_last(), owner)
    }
}

/// Patched ranges do not overlap, each ends inside the address space and its
/// backup has its size.
pub open spec fn patches_wf(ps: Seq<PatchView>) -> bool {
    &&& forall|i: int| 0 <= i < ps.len() ==> #[trigger] ps[i].0 + ps[i].1 <= usize::MAX
    &&& forall|i: int| 0 <= i < ps.len() ==> #[trigger] ps[i].2.len() == ps[i].1
    &&& forall|i: int, j: int|
        0 <= i < j < ps.len() ==> !ranges_overlap(
            #[trigger] ps[i].0 as int,
            ps[i].1 as int,
            #[trigger] ps[j].0 as int,
            ps[j].1 as int,
        )
}

/// No patch of `owner` is left once its patches are restored.
pub proof fn lemma_patches_without_owner(ps: Seq<PatchView>, owner: u32)
    ensures
        forall|i: int|
            0 <= i < patches_without(ps, owner).len() ==> #[trigger] patches_without(
                ps,
                owner,
            )[i].3 != owner,
    decreases ps.len(),
{
    if ps.len() > 0 {
        lemma_patches_without_owner(ps.drop_last(), owner);
        let kept = patches_without(ps.drop_last(), owner);
        let out = patches_without(ps, owner);
        assert forall|i: int| 0 <= i < out.len() implies #[trigger] out[i].3 != owner by {
            if i < kept.len() {
                assert(out[i] == kept[i]);
            }
        }
    }
}

/// Every patch left by `patches_without` is one of the patches it was given.
proof fn lemma_patches_without_sub(ps: Seq<PatchView>, owner: u32)
    ensures
        forall|i: int|
            0 <= i < patches_without(ps, owner).len() ==> exists|k: int|
                0 <= k < ps.len() && ps[k] == #[trigger] patches_without(ps, owner)[i],
    decreases ps.len(),
{
    if ps.len() > 0 {
        lemma_patches_without_sub(ps.drop_last(), owner);
        let init = ps.drop_last();
        let out = patches_without(ps, owner);
        assert forall|i: int| 0 <= i < out.len() implies exists|k: int|
            0 <= k < ps.len() && ps[k] == #[trigger] out[i] by {
            if i < patches_without(init, owner).len() {
                let k = choose|k: int| 0 <= k < init.len() && init[k] == #[trigger] patches_without(init, owner)[i];
                assert(ps[k] == out[i]);
            } else {
                assert(ps[ps.len() - 1] == out[i]);
            }
        }
    }
}

proof fn lemma_patches_without_wf(ps: Seq<PatchView>, owner: u32)
    requires
        patches_wf(ps),
    ensures
        patches_wf(patches_without(ps, owner)),
    decreases ps.len(),
{
    if ps.len() > 0 {
        let init = ps.drop_last();
        assert(patches_wf(init)) by {
            assert forall|i: int, j: int| 0 <= i < j < init.len() implies !ranges_overlap(
                #[trigger] init[i].0 as int,
                init[i].1 as int,
                #[trigger] init[j].0 as int,
                init[j].1 as int,
            ) by {
                assert(init[i] == ps[i] && init[j] == ps[j]);
            }
            assert forall|i: int| 0 <= i < init.len() implies #[trigger] init[i].0 + init[i].1
                <= usize::MAX by {
                assert(init[i] == ps[i]);
            }
            assert forall|i: int| 0 <= i < init.len() implies #[trigger] init[i].2.len()
                == init[i].1 by {
                assert(init[i] == ps[i]);
            }
        }
        lemma_patches_without_wf(init, owner);
        lemma_patches_without_sub(init, owner);
        let kept = patches_without(init, owner);
        let out = patches_without(ps, owner);
        let p = ps.last();
        if p.3 != owner {
            assert forall|i: int, j: int| 0 <= i < j < out.len() implies !ranges_overlap(
                #[trigger] out[i].0 as int,
                out[i].1 as int,
                #[trigger] out[j].0 as int,
                out[j].1 as int,
            ) by {
                if j == kept.len() {
                    let k = choose|k: int| 0 <= k < init.len() && init[k] == #[trigger] kept[i];
                    assert(ps[k] == out[i]);
                    assert(!ranges_overlap(
                        ps[k].0 as int,
                        ps[k].1 as int,
                        ps[ps.len() - 1].0 as int,
                        ps[ps.len() - 1].1 as int,
                    ));
                } else {
                    assert(out[i] == kept[i] && out[j] == kept[j]);
                }
            }
        }
    }
}

/// Memory `m` after `bytes` are written at `addr`; addresses outside the
/// map's domain stay outside it.
pub open spec fn write_bytes(m: Map<int, u8>, addr: int, bytes: Seq<u8>) -> Map<int, u8> {
    Map::new(
        |k: int| m.dom().contains(k),
        |k: int|
            if addr <= k < addr + bytes.len() {
                bytes[k - addr]
            } else {
                m[k]
            },
    )
}

/// Memory `m` after each write of `ws`, in order.
pub open spec fn write_all(m: Map<int, u8>, ws: Seq<(usize, Seq<u8>)>) -> Map<int, u8>
    decreases ws.len(),
{
    if ws.len() == 0 {
        m
    } else {
        write_bytes(write_all(m, ws.drop_last()), ws.last().0 as int, ws.last().1)
    }
}

/// Memory `m` after the patches `ps` wrote `data`, one patch after the other.
pub open spec fn patched_image(m: Map<int, u8>, ps: Seq<PatchView>, data: Seq<Seq<u8>>) -> Map<
    int,
    u8,
>
    decreases ps.len(),
{
    if ps.len() == 0 || data.len() == 0 {
        m
    } else {
        write_bytes(patched_image(m, ps.drop_last(), data.drop_last()), ps.last().0 as int, data.last())
    }
}

/// Whether patch `p` covers address `k`.
pub open spec fn covers(p: PatchView, k: int) -> bool {
    p.0 <= k < p.0 + p.1
}

proof fn lemma_wf_prefix(ps: Seq<PatchView>)
    requires
        ps.len() > 0,
        patches_wf(ps),
    ensures
        patches_wf(ps.drop_last()),
{
    let init = ps.drop_last();
    assert forall|i: int, j: int| 0 <= i < j < init.len() implies !ranges_overlap(
        #[trigger] init[i].0 as int,
        init[i].1 as int,
        #[trigger] init[j].0 as int,
        init[j].1 as int,
    ) by {
        assert(init[i] == ps[i] && init[j] == ps[j]);
    }
    assert forall|i: int| 0 <= i < init.len() implies #[trigger] init[i].0 + init[i].1 <= usize::MAX by {
        assert(init[i] == ps[i]);
    }
    assert forall|i: int| 0 <= i < init.len() implies #[trigger] init[i].2.len() == init[i].1 by {
        assert(init[i] == ps[i]);
    }
}

/// What the patched image holds: inside a patch, that patch's data; outside
/// every patch, the memory before.
proof fn lemma_patched_image(m: Map<int, u8>, ps: Seq<PatchView>, data: Seq<Seq<u8>>)
    requires
        patches_wf(ps),
        data.len() == ps.len(),
        forall|i: int| 0 <= i < ps.len() ==> (#[trigger] data[i]).len() == ps[i].1,
    ensures
        patched_image(m, ps, data).dom() == m.dom(),
        forall|i: int, k: int|
            0 <= i < ps.len() && m.dom().contains(k) && covers(#[trigger] ps[i], k) ==> #[trigger] patched_image(
                m,
                ps,
                data,
            )[k] == data[i][k - ps[i].0],
        forall|k: int|
            m.dom().contains(k) && (forall|i: int| 0 <= i < ps.len() ==> !covers(#[trigger] ps[i], k))
                ==> #[trigger] patched_image(m, ps, data)[k] == m[k],
    decreases ps.len(),
{
    if ps.len() > 0 {
        let init = ps.drop_last();
        let dinit = data.drop_last();
        lemma_wf_prefix(ps);
        assert forall|i: int| 0 <= i < init.len() implies (#[trigger] dinit[i]).len() == init[i].1 by {
            assert(dinit[i] == data[i] && init[i] == ps[i]);
        }
        lemma_patched_image(m, init, dinit);
        let prev = patched_image(m, init, dinit);
        let out = patched_image(m, ps, data);
        let last = ps.len() - 1;
        assert(out.dom() =~= m.dom());
        assert forall|i: int, k: int|
            0 <= i < ps.len() && m.dom().contains(k) && covers(#[trigger] ps[i], k) implies #[trigger] out[k]
            == data[i][k - ps[i].0] by {
            if i < last {
                assert(init[i] == ps[i] && dinit[i] == data[i]);
                assert(!ranges_overlap(ps[i].0 as int, ps[i].1 as int, ps[last].0 as int, ps[last].1 as int));
                assert(prev[k] == data[i][k - ps[i].0]);
            }
        }
        assert forall|k: int|
            m.dom().contains(k) && (forall|i: int| 0 <= i < ps.len() ==> !covers(#[trigger] ps[i], k))
                implies #[trigger] out[k] == m[k] by {
            assert(!covers(ps[last], k));
            assert forall|i: int| 0 <= i < init.len() implies !covers(#[trigger] init[i], k) by {
                assert(init[i] == ps[i]);
                assert(!covers(ps[i], k));
            }
        }
    }
}

/// What writing back the backups of `owner`'s patches does: inside such a
/// patch, its backup; elsewhere, the memory as it was.
proof fn lemma_restore_image(m: Map<int, u8>, ps: Seq<PatchView>, owner: u32)
    requires
        patches_wf(ps),
    ensures
        write_all(m, restores_of(ps, owner)).dom() == m.dom(),
        forall|i: int, k: int|
            0 <= i < ps.len() && ps[i].3 == owner && m.dom().contains(k) && covers(#[trigger] ps[i], k)
                ==> #[trigger] write_all(m, restores_of(ps, owner))[k] == ps[i].2[k - ps[i].0],
        forall|k: int|
            m.dom().contains(k) && (forall|i: int|
                0 <= i < ps.len() && ps[i].3 == owner ==> !covers(#[trigger] ps[i], k))
                ==> #[trigger] write_all(m, restores_of(ps, owner))[k] == m[k],
    decreases ps.len(),
{
    if ps.len() > 0 {
        let init = ps.drop_last();
        lemma_wf_prefix(ps);
        lemma_restore_image(m, init, owner);
        let prev = write_all(m, restores_of(init, owner));
        let out = write_all(m, restores_of(ps, owner));
        let last = ps.len() - 1;
        let p = ps[last];
        if p.3 == owner {
            let ws = restores_of(ps, owner);
            assert(ws.drop_last() == restores_of(init, owner));
            assert(ws.last() == (p.0, p.2));
        } else {
            assert(restores_of(ps, owner) == restores_of(init, owner));
        }
        assert(out.dom() =~= m.dom());
        assert forall|i: int, k: int|
            0 <= i < ps.len() && ps[i].3 == owner && m.dom().contains(k) && covers(#[trigger] ps[i], k)
                implies #[trigger] out[k] == ps[i].2[k - ps[i].0] by {
            if i < last {
                assert(init[i] == ps[i]);
                assert(!ranges_overlap(ps[i].0 as int, ps[i].1 as int, ps[last].0 as int, ps[last].1 as int));
                assert(prev[k] == ps[i].2[k - ps[i].0]);
            }
        }
        assert forall|k: int|
            m.dom().contains(k) && (forall|i: int|
                0 <= i < ps.len() && ps[i].3 == owner ==> !covers(#[trigger] ps[i], k)) implies #[trigger] out[k]
            == m[k] by {
            assert forall|i: int| 0 <= i < init.len() && init[i].3 == owner implies !covers(#[trigger] init[i], k) by {
                assert(init[i] == ps[i]);
                assert(!covers(ps[i], k));
            }
            if p.3 == owner {
                assert(!covers(ps[last], k));
            }
        }
    }
}

/// Patches applied one after another over memory `m`, each recording as its
/// backup what its range held in `m`, and then undone for one sandbox with the
/// writes `restore_owner` hands back: every byte that sandbox patched holds
/// its content from before the patches again, and every other byte is as the
/// patches left it.
pub proof fn lemma_restore_undoes_patches(
    m: Map<int, u8>,
    ps: Seq<PatchView>,
    data: Seq<Seq<u8>>,
    owner: u32,
)
    requires
        patches_wf(ps),
        data.len() == ps.len(),
        forall|i: int| 0 <= i < ps.len() ==> (#[trigger] data[i]).len() == ps[i].1,
        forall|i: int, j: int|
            0 <= i < ps.len() && 0 <= j < ps[i].1 ==> #[trigger] ps[i].2[j] == m[ps[i].0 + j],
    ensures
        ({
            let image = patched_image(m, ps, data);
            let after = write_all(image, restores_of(ps, owner));
            &&& after.dom() == m.dom()
            &&& forall|i: int, k: int|
                0 <= i < ps.len() && ps[i].3 == owner && m.dom().contains(k) && covers(#[trigger] ps[i], k)
                    ==> #[trigger] after[k] == m[k]
            &&& forall|k: int|
                m.dom().contains(k) && (forall|i: int|
                    0 <= i < ps.len() && ps[i].3 == owner ==> !covers(#[trigger] ps[i], k))
                    ==> #[trigger] after[k] == image[k]
        }),
{
    lemma_patched_image(m, ps, data);
    let image = patched_image(m, ps, data);
    lemma_restore_image(image, ps, owner);
    let after = write_all(image, restores_of(ps, owner));
    assert forall|i: int, k: int|
        0 <= i < ps.len() && ps[i].3 == owner && m.dom().contains(k) && covers(#[trigger] ps[i], k)
            implies #[trigger] after[k] == m[k] by {
        assert(after[k] == ps[i].2[k - ps[i].0]);
        assert(ps[i].2[k - ps[i].0] == m[ps[i].0 + (k - ps[i].0)]);
    }
}

/// The table of applied patches.
pub struct MemoryPatchManager {
    patches: Vec<MemoryPatch>,
}

impl MemoryPatchManager {
    /// The patches, in the order they were made.
    pub closed spec fn view_patches(&self) -> Seq<PatchView> {
        self.patches@.map_values(|p: MemoryPatch| patch_view(p))
    }

    pub closed spec fn wf(&self) -> bool {
        patches_wf(self.view_patches())
    }

    pub fn new() -> (r: Self)
        ensures
            r.wf(),
            r.view_patches() == Seq::<PatchView>::empty(),
    {
        let r = MemoryPatchManager { patches: Vec::new() };
        assert(r.view_patches() =~= Seq::<PatchView>::empty());
        r
    }

    /// Whether a patch overlaps `[address, address + size)`.
    pub fn is_patch_exists(&self, address: usize, size: usize) -> (r: bool)
        ensures
            r == overlaps_any(self.view_patches(), address as int, size as int),
    {
        let mut i: usize = 0;
        while i < self.patches.len()
            invariant
                0 <= i <= self.patches@.len(),
                forall|k: int|
                    0 <= k < i ==> !ranges_overlap(
                        #[trigger] self.view_patches()[k].0 as int,
                        self.view_patches()[k].1 as int,
                        address as int,
                        size as int,
                    ),
            decreases self.patches@.len() - i,
        {
            let p = &self.patches[i];
            assert(self.view_patches()[i as int] == patch_view(*p));
            if Self::range_overlaps(p.address, p.size, address, size) {
                assert(ranges_overlap(
                    self.view_patches()[i as int].0 as int,
                    self.view_patches()[i as int].1 as int,
                    address as int,
                    size as int,
                ));
                return true;
            }
            i = i + 1;
        }
        false
    }

    /// Whether `[a, a + s)` and `[b, b + t)` share a byte.
    pub fn range_overlaps(a: usize, s: usize, b: usize, t: usize) -> (r: bool)
        ensures
            r == ranges_overlap(a as int, s as int, b as int, t as int),
    {
        (a as u128) < (b as u128) + (t as u128) && (b as u128) < (a as u128) + (s as u128)
    }

    /// Records the patch that `owner` is about to apply at `address`, given
    /// what the range holds now. It is refused where it would overlap another
    /// patch, or run past the end of the address space.
    pub fn new_patch(&mut self, address: usize, backup: Vec<u8>, owner: u32) -> (r: Result<
        (),
        Error,
    >)
        requires
            old(self).wf(),
        ensures
            final(self).wf(),
            ({
                let ps = old(self).view_patches();
                if address + backup@.len() > usize::MAX {
                    r == Err::<(), Error>(Error::Memory(MemoryError::InvalidSize(backup@.len() as usize)))
                        && final(self).view_patches() == ps
                } else if overlaps_any(ps, address as int, backup@.len() as int) {
                    r == Err::<(), Error>(Error::PatchAlreadyExists(address))
                        && final(self).view_patches() == ps
                } else {
                    r == Ok::<(), Error>(()) && final(self).view_patches() == ps.push(
                        (address, backup@.len() as usize, backup@, owner),
                    )
                }
            }),
    {
        let size = backup.len();
        if address.checked_add(size).is_none() {
            return Err(Error::Memory(MemoryError::InvalidSize(size)));
        }
        if self.is_patch_exists(address, size) {
            return Err(Error::PatchAlreadyExists(address));
        }
        let ghost ps = self.view_patches();
        let p = MemoryPatch { address, size, backup, owner };
        self.patches.push(p);
        assert(self.view_patches() =~= ps.push(patch_view(p)));
        assert forall|i: int, j: int|
            0 <= i < j < self.view_patches().len() implies !ranges_overlap(
            #[trigger] self.view_patches()[i].0 as int,
            self.view_patches()[i].1 as int,
            #[trigger] self.view_patches()[j].0 as int,
            self.view_patches()[j].1 as int,
        ) by {
            if j == ps.len() {
                assert(self.view_patches()[i] == ps[i]);
            } else {
                assert(self.view_patches()[i] == ps[i] && self.view_patches()[j] == ps[j]);
            }
        }
        Ok(())
    }

    /// The sandbox that made the patch starting at `address`, if any.
    pub fn owner_of_patch(&self, address: usize) -> (r: Option<u32>)
        ensures
            match r {
                None => forall|i: int|
                    0 <= i < self.view_patches().len() ==> #[trigger] self.view_patches()[i].0 != address,
                Some(o) => exists|k: int|
                    0 <= k < self.view_patches().len() && #[trigger] self.view_patches()[k].0 == address
                        && self.view_patches()[k].3 == o,
            },
    {
        let mut i: usize = 0;
        while i < self.patches.len()
            invariant
                0 <= i <= self.patches@.len(),
                forall|k: int| 0 <= k < i ==> #[trigger] self.view_patches()[k].0 != address,
            decreases self.patches@.len() - i,
        {
            if self.patches[i].address == address {
                assert(self.view_patches()[i as int].0 == address);
                return Some(self.patches[i].owner);
            }
            i = i + 1;
        }
        None
    }

    /// Forgets the patch at `address` and returns its backup, which the caller
    /// writes back; `None` where no patch starts there.
    pub fn restore_patch(&mut self, address: usize) -> (r: Option<Vec<u8>>)
        requires
            old(self).wf(),
        ensures
            final(self).wf(),
            match r {
                None => final(self).view_patches() == old(self).view_patches() && forall|i: int|
                    0 <= i < old(self).view_patches().len() ==> #[trigger] old(
                        self,
                    ).view_patches()[i].0 != address,
                Some(b) => exists|k: int|
                    0 <= k < old(self).view_patches().len() && #[trigger] old(
                        self,
                    ).view_patches()[k].0 == address && b@ == old(self).view_patches()[k].2
                        && final(self).view_patches() == old(self).view_patches().remove(k),
            },
    {
        let ghost ps = self.view_patches();
        let mut i: usize = 0;
        while i < self.patches.len()
            invariant
                0 <= i <= self.patches@.len(),
                ps == self.view_patches(),
                ps == old(self).view_patches(),
                patches_wf(ps),
                forall|k: int| 0 <= k < i ==> #[trigger] ps[k].0 != address,
            decreases self.patches@.len() - i,
        {
            if self.patches[i].address == address {
                let p = self.patches.remove(i);
                assert(self.view_patches() =~= ps.remove(i as int));
                assert(patch_view(p) == ps[i as int]);
                assert(ps[i as int].0 == address && p.backup@ == ps[i as int].2);
                assert(self.view_patches() == old(self).view_patches().remove(i as int));
                assert forall|a: int, b: int|
                    0 <= a < b < self.view_patches().len() implies !ranges_overlap(
                    #[trigger] self.view_patches()[a].0 as int,
                    self.view_patches()[a].1 as int,
                    #[trigger] self.view_patches()[b].0 as int,
                    self.view_patches()[b].1 as int,
                ) by {
                    let x = if a < i { a } else { a + 1 };
                    let y = if b < i { b } else { b + 1 };
                    assert(self.view_patches()[a] == ps[x] && self.view_patches()[b] == ps[y]);
                }
                assert forall|a: int| 0 <= a < self.view_patches().len() implies #[trigger] self.view_patches()[a].0 + self.view_patches()[a].1 <= usize::MAX && self.view_patches()[a].2.len() == self.view_patches()[a].1 by {
                    let x = if a < i { a } else { a + 1 };
                    assert(self.view_patches()[a] == ps[x]);
                }
                return Some(p.backup);
            }
            i = i + 1;
        }
        None
    }

    /// Forgets every patch of `owner` and returns what undoes them: address and
    /// backup of each, in the order they were made.
    pub fn restore_owner(&mut self, owner: u32) -> (r: Vec<(usize, Vec<u8>)>)
        requires
            old(self).wf(),
        ensures
            final(self).wf(),
            final(self).view_patches() == patches_without(old(self).view_patches(), owner),
            r@.map_values(|w: (usize, Vec<u8>)| (w.0, w.1@)) == restores_of(
                old(self).view_patches(),
                owner,
            ),
    {
        let ghost ps = self.view_patches();
        let mut rest: Vec<MemoryPatch> = Vec::new();
        std::mem::swap(&mut rest, &mut self.patches);
        assert(rest@.map_values(|p: MemoryPatch| patch_view(p)) == ps);
        let mut writes: Vec<(usize, Vec<u8>)> = Vec::new();
        let mut i: usize = 0;
        let n = rest.len();
        while rest.len() > 0
            invariant
                i + rest@.len() == n,
                n == ps.len(),
                forall|y: int| 0 <= y < rest@.len() ==> patch_view(#[trigger] rest@[y]) == ps[i + y],
                self.view_patches() == patches_without(ps.take(i as int), owner),
                writes@.map_values(|w: (usize, Vec<u8>)| (w.0, w.1@)) == restores_of(
                    ps.take(i as int),
                    owner,
                ),
            decreases rest@.len(),
        {
            let p = rest.remove(0);
            assert(patch_view(p) == ps[i as int]);
            assert(ps.take(i + 1).drop_last() =~= ps.take(i as int));
            assert(ps.take(i + 1).last() == ps[i as int]);
            if p.owner == owner {
                let ghost before = writes@.map_values(|w: (usize, Vec<u8>)| (w.0, w.1@));
                let w = (p.address, p.backup);
                writes.push(w);
                assert(writes@.map_values(|w: (usize, Vec<u8>)| (w.0, w.1@)) =~= before.push(
                    (w.0, w.1@),
                ));
            } else {
                let ghost before = self.view_patches();
                self.patches.push(p);
                assert(self.view_patches() =~= before.push(patch_view(p)));
            }
            i = i + 1;
            assert forall|y: int| 0 <= y < rest@.len() implies patch_view(#[trigger] rest@[y]) == ps[i + y] by {}
        }
        assert(ps.take(n as int) =~= ps);
        proof {
            lemma_patches_without_wf(ps, owner);
        }
        writes
    }
}

} // verus!
