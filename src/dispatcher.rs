//! The interception dispatcher: logical hook registrations multiplexed onto
//! physical interception points, one native listener per code address.
//!
//! The dispatcher is generic over the listener resource `L` that the hooking
//! engine hands out when a native listener is installed. It never installs or
//! releases one itself: `attach` takes a freshly installed listener where the
//! address has none yet, and `detach` hands back the listener of an address
//! whose last registration went away, for the caller to release.
use rand::RngCore;
use vstd::prelude::*;
use vstd::string::StringSliceAdditionalSpecFns;

use crate::error::Error;

verus! {

/// What a hook fires on.
#[derive(Clone, Copy, Debug, PartialEq, Eq, Structural, Hash)]
pub enum HookKind {
    /// Entry to and exit from a function.
    Inline,
    /// One instruction, with the full register file.
    Mid,
}

/// The capability returned by an attach, and needed to detach.
#[derive(Clone, Copy, Debug, PartialEq, Eq, Structural, Hash)]
pub enum InterceptorHandle {
    Inline(u32),
    Mid(u32),
}

/// The handle of the given kind and identifier.
pub open spec fn handle_of(kind: HookKind, id: u32) -> InterceptorHandle {
    match kind {
        HookKind::Inline => InterceptorHandle::Inline(id),
        HookKind::Mid => InterceptorHandle::Mid(id),
    }
}

impl InterceptorHandle {
    pub open spec fn spec_kind(self) -> HookKind {
        match self {
            InterceptorHandle::Inline(_) => HookKind::Inline,
            InterceptorHandle::Mid(_) => HookKind::Mid,
        }
    }

    pub open spec fn spec_id(self) -> u32 {
        match self {
            InterceptorHandle::Inline(id) => id,
            InterceptorHandle::Mid(id) => id,
        }
    }

    /// The handle of the given kind and identifier.
    pub fn new(kind: HookKind, id: u32) -> (r: InterceptorHandle)
        ensures
            r == handle_of(kind, id),
    {
        match kind {
            HookKind::Inline => InterceptorHandle::Inline(id),
            HookKind::Mid => InterceptorHandle::Mid(id),
        }
    }

    pub fn id(&self) -> (r: u32)
        ensures
            r == self.spec_id(),
    {
        match self {
            InterceptorHandle::Inline(id) => *id,
            InterceptorHandle::Mid(id) => *id,
        }
    }

    pub fn kind(&self) -> (r: HookKind)
        ensures
            r == self.spec_kind(),
    {
        match self {
            InterceptorHandle::Inline(_) => HookKind::Inline,
            InterceptorHandle::Mid(_) => HookKind::Mid,
        }
    }
}

/// One logical hook: its handle and the sandbox that owns it.
#[derive(Clone, Copy, Debug, PartialEq, Eq, Structural)]
pub struct Registration {
    pub handle: InterceptorHandle,
    pub owner: u32,
}

/// A physical interception point: its address, its native listener and the
/// registrations on it, in the order they were made.
pub struct InterceptionPoint<L> {
    pub address: usize,
    pub listener: L,
    pub registrations: Vec<Registration>,
}

/// A point as the contracts see it: address, listener, registrations.
pub type PointView<L> = (usize, L, Seq<Registration>);

/// The contracts' view of a point.
pub open spec fn point_view<L>(p: InterceptionPoint<L>) -> PointView<L> {
    (p.address, p.listener, p.registrations@)
}

/// Whether some point of `pts` sits at `addr`.
pub open spec fn has_point<L>(pts: Seq<PointView<L>>, addr: usize) -> bool {
    exists|k: int| 0 <= k < pts.len() && #[trigger] pts[k].0 == addr
}

/// Whether `k` is the first point of `pts` at `addr`.
pub open spec fn first_point<L>(pts: Seq<PointView<L>>, addr: usize, k: int) -> bool {
    &&& 0 <= k < pts.len()
    &&& pts[k].0 == addr
    &&& forall|y: int| 0 <= y < k ==> #[trigger] pts[y].0 != addr
}

/// The index of the point at `addr`, where there is one.
pub open spec fn point_index<L>(pts: Seq<PointView<L>>, addr: usize) -> int {
    choose|k: int| first_point(pts, addr, k)
}

/// Whether some registration of `pts` holds `h`.
pub open spec fn has_handle<L>(pts: Seq<PointView<L>>, h: InterceptorHandle) -> bool {
    exists|k: int, j: int|
        0 <= k < pts.len() && 0 <= j < pts[k].2.len() && #[trigger] pts[k].2[j].handle == h
}

/// Whether `(k, j)` is the first place, point by point, that holds `h`.
pub open spec fn first_handle<L>(pts: Seq<PointView<L>>, h: InterceptorHandle, k: int, j: int) -> bool {
    &&& 0 <= k < pts.len()
    &&& 0 <= j < pts[k].2.len()
    &&& pts[k].2[j].handle == h
    &&& forall|y: int, z: int|
        0 <= y < k && 0 <= z < pts[y].2.len() ==> #[trigger] pts[y].2[z].handle != h
    &&& forall|z: int| 0 <= z < j ==> #[trigger] pts[k].2[z].handle != h
}

/// Where `h` is registered, where it is.
pub open spec fn handle_place<L>(pts: Seq<PointView<L>>, h: InterceptorHandle) -> (int, int) {
    choose|p: (int, int)| first_handle(pts, h, p.0, p.1)
}

/// Point addresses are unique: one native listener per address.
pub open spec fn points_wf<L>(pts: Seq<PointView<L>>) -> bool {
    forall|i: int, j: int| 0 <= i < j < pts.len() ==> #[trigger] pts[i].0 != #[trigger] pts[j].0
}

/// What `attach` gives: the result, and the points afterwards.
pub open spec fn attach_spec<L>(
    pts: Seq<PointView<L>>,
    h: InterceptorHandle,
    addr: usize,
    owner: u32,
    listener: Option<L>,
) -> (Result<InterceptorHandle, Error>, Seq<PointView<L>>) {
    let reg = Registration { handle: h, owner };
    if has_handle(pts, h) {
        (Err(Error::HookAlreadyExists(h.spec_id())), pts)
    } else if has_point(pts, addr) {
        let k = point_index(pts, addr);
        (Ok(h), pts.update(k, (addr, pts[k].1, pts[k].2.push(reg))))
    } else if listener is None {
        (Err(Error::NoListener(addr)), pts)
    } else {
        (Ok(h), pts.push((addr, listener->Some_0, seq![reg])))
    }
}

/// What `detach` gives: whether `h` was registered, the listener released with
/// the last registration of its address, and the points afterwards.
pub open spec fn detach_spec<L>(pts: Seq<PointView<L>>, h: InterceptorHandle) -> (
    bool,
    Option<L>,
    Seq<PointView<L>>,
) {
    if !has_handle(pts, h) {
        (false, None, pts)
    } else {
        let (k, j) = handle_place(pts, h);
        let rest = pts[k].2.remove(j);
        if rest.len() == 0 {
            (true, Some(pts[k].1), pts.remove(k))
        } else {
            (true, None, pts.update(k, (pts[k].0, pts[k].1, rest)))
        }
    }
}

/// The handles of `kind` among `regs`, in order.
pub open spec fn handles_of_kind(regs: Seq<Registration>, kind: HookKind) -> Seq<InterceptorHandle>
    decreases regs.len(),
{
    if regs.len() == 0 {
        Seq::empty()
    } else {
        let rest = handles_of_kind(regs.drop_last(), kind);
        if regs.last().handle.spec_kind() == kind {
            rest.push(regs.last().handle)
        } else {
            rest
        }
    }
}

/// The handles of `kind` registered at `addr`, in the order they were attached:
/// the order in which their callbacks fire.
pub open spec fn handles_at_spec<L>(pts: Seq<PointView<L>>, addr: usize, kind: HookKind) -> Seq<
    InterceptorHandle,
> {
    if has_point(pts, addr) {
        handles_of_kind(pts[point_index(pts, addr)].2, kind)
    } else {
        Seq::empty()
    }
}

/// The registrations of `regs` that `owner` does not own.
pub open spec fn without_owner(regs: Seq<Registration>, owner: u32) -> Seq<Registration>
    decreases regs.len(),
{
    if regs.len() == 0 {
        Seq::empty()
    } else {
        let rest = without_owner(regs.drop_last(), owner);
        if regs.last().owner == owner {
            rest
        } else {
            rest.push(regs.last())
        }
    }
}

/// The points left once every registration of `owner` is gone, and the
/// listeners of the points that lost their last registration.
pub open spec fn strip_owner<L>(pts: Seq<PointView<L>>, owner: u32) -> (Seq<L>, Seq<PointView<L>>)
    decreases pts.len(),
{
    if pts.len() == 0 {
        (Seq::empty(), Seq::empty())
    } else {
        let (released, kept) = strip_owner(pts.drop_last(), owner);
        let p = pts.last();
        let regs = without_owner(p.2, owner);
        if regs.len() == 0 {
            (released.push(p.1), kept)
        } else {
            (released, kept.push((p.0, p.1, regs)))
        }
    }
}

proof fn lemma_first_point_unique<L>(pts: Seq<PointView<L>>, addr: usize, k: int)
    requires
        first_point(pts, addr, k),
    ensures
        has_point(pts, addr),
        point_index(pts, addr) == k,
{
    assert(pts[k].0 == addr);
    let c = point_index(pts, addr);
    assert(first_point(pts, addr, c));
    if c < k {
        assert(pts[c].0 != addr);
    } else if c > k {
        assert(pts[k].0 != addr);
    }
}

proof fn lemma_first_handle_unique<L>(pts: Seq<PointView<L>>, h: InterceptorHandle, k: int, j: int)
    requires
        first_handle(pts, h, k, j),
    ensures
        has_handle(pts, h),
        handle_place(pts, h) == (k, j),
{
    assert(pts[k].2[j].handle == h);
    let w = (k, j);
    assert(first_handle(pts, h, w.0, w.1));
    let c = handle_place(pts, h);
    assert(first_handle(pts, h, c.0, c.1));
    if c.0 < k {
        assert(pts[c.0].2[c.1].handle != h);
    } else if c.0 > k {
        assert(pts[k].2[j].handle != h);
    } else if c.1 < j {
        assert(pts[k].2[c.1].handle != h);
    } else if c.1 > j {
        assert(pts[k].2[j].handle != h);
    }
}

/// Every address of the stripped points is an address of the points given.
proof fn lemma_strip_addresses<L>(pts: Seq<PointView<L>>, owner: u32)
    ensures
        forall|i: int|
            0 <= i < strip_owner(pts, owner).1.len() ==> has_point(
                pts,
                #[trigger] strip_owner(pts, owner).1[i].0,
            ),
    decreases pts.len(),
{
    if pts.len() > 0 {
        lemma_strip_addresses(pts.drop_last(), owner);
        let kept = strip_owner(pts.drop_last(), owner).1;
        assert forall|i: int|
            0 <= i < strip_owner(pts, owner).1.len() implies has_point(
            pts,
            #[trigger] strip_owner(pts, owner).1[i].0,
        ) by {
            let a = strip_owner(pts, owner).1[i].0;
            if i < kept.len() {
                assert(has_point(pts.drop_last(), a));
                let k = choose|k: int| 0 <= k < pts.drop_last().len() && #[trigger] pts.drop_last()[k].0 == a;
                assert(pts[k].0 == a);
            } else {
                assert(pts[pts.len() - 1].0 == a);
            }
        }
    }
}

proof fn lemma_strip_wf<L>(pts: Seq<PointView<L>>, owner: u32)
    requires
        points_wf(pts),
    ensures
        points_wf(strip_owner(pts, owner).1),
    decreases pts.len(),
{
    if pts.len() > 0 {
        let init = pts.drop_last();
        assert(points_wf(init)) by {
            assert forall|i: int, j: int| 0 <= i < j < init.len() implies #[trigger] init[i].0
                != #[trigger] init[j].0 by {
                assert(init[i] == pts[i] && init[j] == pts[j]);
            }
        }
        lemma_strip_wf(init, owner);
        lemma_strip_addresses(init, owner);
        let kept = strip_owner(init, owner).1;
        let p = pts.last();
        let out = strip_owner(pts, owner).1;
        assert forall|i: int, j: int| 0 <= i < j < out.len() implies #[trigger] out[i].0
            != #[trigger] out[j].0 by {
            if j >= kept.len() {
                assert(out[j].0 == p.0);
                assert(out[i] == kept[i]);
                assert(has_point(init, kept[i].0));
                let k = choose|k: int| 0 <= k < init.len() && #[trigger] init[k].0 == kept[i].0;
                assert(pts[k].0 == init[k].0);
                assert(pts[k].0 != pts[pts.len() - 1].0);
            } else {
                assert(out[i] == kept[i] && out[j] == kept[j]);
            }
        }
    }
}

/// Detaching every hook of a sandbox leaves no registration of it behind.
pub proof fn lemma_strip_leaves_no_owner<L>(pts: Seq<PointView<L>>, owner: u32)
    ensures
        forall|k: int, j: int|
            0 <= k < strip_owner(pts, owner).1.len() && 0 <= j < strip_owner(
                pts,
                owner,
            ).1[k].2.len() ==> #[trigger] strip_owner(pts, owner).1[k].2[j].owner != owner,
    decreases pts.len(),
{
    if pts.len() > 0 {
        lemma_strip_leaves_no_owner(pts.drop_last(), owner);
        lemma_without_owner(pts.last().2, owner);
        let kept = strip_owner(pts.drop_last(), owner).1;
        let out = strip_owner(pts, owner).1;
        assert forall|k: int, j: int|
            0 <= k < out.len() && 0 <= j < out[k].2.len() implies #[trigger] out[k].2[j].owner
            != owner by {
            if k < kept.len() {
                assert(out[k] == kept[k]);
            }
        }
    }
}

proof fn lemma_without_owner(regs: Seq<Registration>, owner: u32)
    ensures
        forall|j: int|
            0 <= j < without_owner(regs, owner).len() ==> #[trigger] without_owner(
                regs,
                owner,
            )[j].owner != owner,
    decreases regs.len(),
{
    if regs.len() > 0 {
        lemma_without_owner(regs.drop_last(), owner);
    }
}

proof fn lemma_attach_spec_wf<L>(
    pts: Seq<PointView<L>>,
    h: InterceptorHandle,
    addr: usize,
    owner: u32,
    listener: Option<L>,
)
    requires
        points_wf(pts),
    ensures
        points_wf(attach_spec(pts, h, addr, owner, listener).1),
{
    let out = attach_spec(pts, h, addr, owner, listener).1;
    if has_handle(pts, h) {
    } else if has_point(pts, addr) {
        let w = choose|k: int| 0 <= k < pts.len() && #[trigger] pts[k].0 == addr;
        lemma_least_point(pts, addr, w);
        let k = point_index(pts, addr);
        assert forall|i: int, j: int| 0 <= i < j < out.len() implies #[trigger] out[i].0
            != #[trigger] out[j].0 by {
            assert(out[i].0 == pts[i].0 && out[j].0 == pts[j].0);
        }
    } else if listener is None {
    } else {
        assert forall|i: int, j: int| 0 <= i < j < out.len() implies #[trigger] out[i].0
            != #[trigger] out[j].0 by {
            if j < pts.len() {
                assert(out[i].0 == pts[i].0 && out[j].0 == pts[j].0);
            } else {
                assert(out[i].0 == pts[i].0);
                assert(out[j].0 == addr);
            }
        }
    }
}

/// Where a point at `addr` exists, attaching there keeps its index and listener
/// and appends the registration.
proof fn lemma_attach_spec_point<L>(
    pts: Seq<PointView<L>>,
    h: InterceptorHandle,
    addr: usize,
    owner: u32,
    listener: Option<L>,
)
    requires
        attach_spec(pts, h, addr, owner, listener).0 is Ok,
    ensures
        ({
            let out = attach_spec(pts, h, addr, owner, listener).1;
            let reg = Registration { handle: h, owner };
            &&& has_point(out, addr)
            &&& first_point(out, addr, point_index(out, addr))
            &&& out.len() >= pts.len()
            &&& forall|y: int| 0 <= y < pts.len() ==> #[trigger] out[y].0 == pts[y].0
            &&& if has_point(pts, addr) {
                &&& point_index(out, addr) == point_index(pts, addr)
                &&& out[point_index(out, addr)].1 == pts[point_index(pts, addr)].1
                &&& out[point_index(out, addr)].2 == pts[point_index(pts, addr)].2.push(reg)
            } else {
                &&& point_index(out, addr) == pts.len()
                &&& out[point_index(out, addr)].1 == listener->Some_0
                &&& out[point_index(out, addr)].2 == seq![reg]
            }
        }),
{
    let out = attach_spec(pts, h, addr, owner, listener).1;
    if has_point(pts, addr) {
        let k = point_index(pts, addr);
        let w = choose|k: int| 0 <= k < pts.len() && #[trigger] pts[k].0 == addr;
        lemma_least_point(pts, addr, w);
        assert(first_point(pts, addr, k));
        assert(first_point(out, addr, k));
        lemma_first_point_unique(out, addr, k);
    } else {
        assert(first_point(out, addr, pts.len() as int));
        lemma_first_point_unique(out, addr, pts.len() as int);
    }
}

/// Where some point sits at `addr`, a first one does.
proof fn lemma_least_point<L>(pts: Seq<PointView<L>>, addr: usize, w: int)
    requires
        0 <= w < pts.len(),
        pts[w].0 == addr,
    ensures
        first_point(pts, addr, point_index(pts, addr)),
    decreases w,
{
    if exists|y: int| 0 <= y < w && #[trigger] pts[y].0 == addr {
        let y = choose|y: int| 0 <= y < w && #[trigger] pts[y].0 == addr;
        lemma_least_point(pts, addr, y);
    } else {
        assert(first_point(pts, addr, w));
    }
}

/// Two hooks attached at one address get distinct handles, share a single
/// point and so a single native listener (the one the address already had, or
/// the first one supplied), and fire in the order they were attached.
pub proof fn lemma_two_hooks_share_one_point<L>(
    pts: Seq<PointView<L>>,
    h1: InterceptorHandle,
    h2: InterceptorHandle,
    addr: usize,
    owner1: u32,
    owner2: u32,
    listener1: Option<L>,
    listener2: Option<L>,
)
    requires
        points_wf(pts),
        h1.spec_kind() == h2.spec_kind(),
    ensures
        ({
            let (r1, s1) = attach_spec(pts, h1, addr, owner1, listener1);
            let (r2, s2) = attach_spec(s1, h2, addr, owner2, listener2);
            (r1 is Ok && r2 is Ok) ==> {
                &&& h1 != h2
                &&& points_wf(s2)
                &&& has_point(s2, addr)
                &&& forall|i: int|
                    0 <= i < s2.len() && #[trigger] s2[i].0 == addr ==> i == point_index(s2, addr)
                &&& s2[point_index(s2, addr)].1 == (if has_point(pts, addr) {
                    pts[point_index(pts, addr)].1
                } else {
                    listener1->Some_0
                })
                &&& handles_at_spec(s2, addr, h1.spec_kind()) == handles_at_spec(
                    pts,
                    addr,
                    h1.spec_kind(),
                ).push(h1).push(h2)
            }
        }),
{
    let (r1, s1) = attach_spec(pts, h1, addr, owner1, listener1);
    let (r2, s2) = attach_spec(s1, h2, addr, owner2, listener2);
    if r1 is Ok && r2 is Ok {
        lemma_attach_spec_wf(pts, h1, addr, owner1, listener1);
        lemma_attach_spec_wf(s1, h2, addr, owner2, listener2);
        lemma_attach_spec_point(pts, h1, addr, owner1, listener1);
        lemma_attach_spec_point(s1, h2, addr, owner2, listener2);
        let k = point_index(s1, addr);
        assert(s1[k].2.last().handle == h1);
        assert(!has_handle(s1, h2));
        if h1 == h2 {
            assert(s1[k].2[s1[k].2.len() - 1].handle == h2);
        }
        let kind = h1.spec_kind();
        let reg1 = Registration { handle: h1, owner: owner1 };
        let reg2 = Registration { handle: h2, owner: owner2 };
        assert(s2[k].2.drop_last() =~= s1[k].2);
        if has_point(pts, addr) {
            assert(s1[k].2.drop_last() =~= pts[point_index(pts, addr)].2);
        } else {
            assert(s1[k].2.drop_last() =~= Seq::<Registration>::empty());
        }
        assert forall|i: int| 0 <= i < s2.len() && #[trigger] s2[i].0 == addr implies i
            == point_index(s2, addr) by {
            let c = point_index(s2, addr);
            if i != c {
                if i < c {
                    assert(s2[i].0 != s2[c].0);
                } else {
                    assert(s2[c].0 != s2[i].0);
                }
            }
        }
        assert(handles_of_kind(s2[k].2, kind) == handles_of_kind(s1[k].2, kind).push(h2));
        if has_point(pts, addr) {
            assert(handles_of_kind(s1[k].2, kind) == handles_of_kind(
                pts[point_index(pts, addr)].2,
                kind,
            ).push(h1));
        } else {
            assert(handles_of_kind(s1[k].2.drop_last(), kind) =~= Seq::<InterceptorHandle>::empty());
            assert(handles_of_kind(s1[k].2, kind) =~= Seq::<InterceptorHandle>::empty().push(h1));
        }
        assert(point_index(s2, addr) == k);
        assert(handles_at_spec(s2, addr, kind) == handles_at_spec(pts, addr, kind).push(h1).push(h2));
    }
}

/// Of two hooks attached at an address that had none, detaching the first
/// leaves the second registered there, firing, on the same listener; detaching
/// the second releases that listener and removes the point, so that the next
/// attach there needs a new listener, and installs the one it is given.
pub proof fn lemma_detach_releases_listener_last<L>(
    pts: Seq<PointView<L>>,
    h1: InterceptorHandle,
    h2: InterceptorHandle,
    addr: usize,
    owner1: u32,
    owner2: u32,
    listener: L,
    h3: InterceptorHandle,
    owner3: u32,
    fresh: L,
)
    requires
        points_wf(pts),
        !has_point(pts, addr),
        h1.spec_kind() == h2.spec_kind(),
    ensures
        ({
            let (r1, s1) = attach_spec(pts, h1, addr, owner1, Some(listener));
            let (r2, s2) = attach_spec(s1, h2, addr, owner2, None);
            let (found1, released1, s3) = detach_spec(s2, h1);
            let (found2, released2, s4) = detach_spec(s3, h2);
            (r1 is Ok && r2 is Ok) ==> {
                &&& found1 && released1 is None
                &&& has_point(s3, addr)
                &&& s3[point_index(s3, addr)].1 == listener
                &&& handles_at_spec(s3, addr, h2.spec_kind()) == seq![h2]
                &&& found2 && released2 == Some(listener)
                &&& !has_point(s4, addr)
                &&& s4 == pts
                &&& !has_handle(s4, h3) ==> {
                    &&& attach_spec(s4, h3, addr, owner3, None).0 == Err::<
                        InterceptorHandle,
                        Error,
                    >(Error::NoListener(addr))
                    &&& attach_spec(s4, h3, addr, owner3, Some(fresh)).1 == s4.push(
                        (addr, fresh, seq![Registration { handle: h3, owner: owner3 }]),
                    )
                }
            }
        }),
{
    let (r1, s1) = attach_spec(pts, h1, addr, owner1, Some(listener));
    let (r2, s2) = attach_spec(s1, h2, addr, owner2, None);
    if r1 is Ok && r2 is Ok {
        lemma_two_hooks_share_one_point(pts, h1, h2, addr, owner1, owner2, Some(listener), None);
        lemma_attach_spec_point(pts, h1, addr, owner1, Some(listener));
        lemma_attach_spec_point(s1, h2, addr, owner2, None);
        let n = pts.len() as int;
        let reg1 = Registration { handle: h1, owner: owner1 };
        let reg2 = Registration { handle: h2, owner: owner2 };
        assert(s1 == pts.push((addr, listener, seq![reg1])));
        assert(seq![reg1].push(reg2) =~= seq![reg1, reg2]);
        assert(s2 =~= pts.push((addr, listener, seq![reg1, reg2])));
        assert(!has_handle(pts, h1));
        assert(!has_handle(s1, h2));
        assert forall|y: int, z: int| 0 <= y < n && 0 <= z < s2[y].2.len() implies #[trigger] s2[y].2[z].handle != h1 by {
            assert(s2[y] == pts[y]);
        }
        assert(first_handle(s2, h1, n, 0));
        lemma_first_handle_unique(s2, h1, n, 0);
        let (found1, released1, s3) = detach_spec(s2, h1);
        assert(seq![reg1, reg2].remove(0) =~= seq![reg2]);
        assert(s3 =~= pts.push((addr, listener, seq![reg2])));
        assert(first_point(s3, addr, n));
        lemma_first_point_unique(s3, addr, n);
        assert(seq![reg2].drop_last() =~= Seq::<Registration>::empty());
        assert forall|y: int, z: int| 0 <= y < n && 0 <= z < s3[y].2.len() implies #[trigger] s3[y].2[z].handle != h2 by {
            assert(s3[y] == s1[y]);
        }
        assert(first_handle(s3, h2, n, 0));
        lemma_first_handle_unique(s3, h2, n, 0);
        let (found2, released2, s4) = detach_spec(s3, h2);
        assert(seq![reg2].remove(0) =~= Seq::<Registration>::empty());
        assert(s4 =~= pts);
        assert(handles_of_kind(seq![reg2].drop_last(), h2.spec_kind()) =~= Seq::<InterceptorHandle>::empty());
        assert(handles_at_spec(s3, addr, h2.spec_kind()) =~= seq![h2]);
    }
}

/// In any state, detaching a hook registered once, at the point of `addr`:
/// where another registration stays there, the point keeps its listener and
/// the other registrations, in order, and nothing is released; where it was
/// the last one, its listener is released and the address has no point left.
pub proof fn lemma_detach_at_point<L>(pts: Seq<PointView<L>>, addr: usize, h: InterceptorHandle, j: int)
    requires
        points_wf(pts),
        has_point(pts, addr),
        0 <= j < pts[point_index(pts, addr)].2.len(),
        pts[point_index(pts, addr)].2[j].handle == h,
        forall|y: int, z: int|
            0 <= y < pts.len() && 0 <= z < pts[y].2.len() && #[trigger] pts[y].2[z].handle == h ==> y
                == point_index(pts, addr) && z == j,
    ensures
        ({
            let k = point_index(pts, addr);
            let (found, released, after) = detach_spec(pts, h);
            &&& found
            &&& points_wf(after)
            &&& if pts[k].2.len() > 1 {
                &&& released is None
                &&& has_point(after, addr)
                &&& after[point_index(after, addr)].1 == pts[k].1
                &&& after[point_index(after, addr)].2 == pts[k].2.remove(j)
            } else {
                &&& released == Some(pts[k].1)
                &&& !has_point(after, addr)
            }
        }),
{
    let w = choose|k: int| 0 <= k < pts.len() && #[trigger] pts[k].0 == addr;
    lemma_least_point(pts, addr, w);
    let k = point_index(pts, addr);
    assert forall|y: int, z: int| 0 <= y < k && 0 <= z < pts[y].2.len() implies #[trigger] pts[y].2[z].handle != h by {
        if pts[y].2[z].handle == h {
            assert(y == k);
        }
    }
    assert forall|z: int| 0 <= z < j implies #[trigger] pts[k].2[z].handle != h by {
        if pts[k].2[z].handle == h {
            assert(z == j);
        }
    }
    assert(first_handle(pts, h, k, j));
    lemma_first_handle_unique(pts, h, k, j);
    let (found, released, after) = detach_spec(pts, h);
    if pts[k].2.len() > 1 {
        assert(after == pts.update(k, (pts[k].0, pts[k].1, pts[k].2.remove(j))));
        assert(first_point(after, addr, k));
        lemma_first_point_unique(after, addr, k);
        assert forall|a: int, b: int| 0 <= a < b < after.len() implies #[trigger] after[a].0
            != #[trigger] after[b].0 by {
            assert(after[a].0 == pts[a].0 && after[b].0 == pts[b].0);
        }
    } else {
        assert(after == pts.remove(k));
        assert forall|a: int, b: int| 0 <= a < b < after.len() implies #[trigger] after[a].0
            != #[trigger] after[b].0 by {
            let x = if a < k { a } else { a + 1 };
            let y = if b < k { b } else { b + 1 };
            assert(after[a].0 == pts[x].0 && after[b].0 == pts[y].0);
        }
        if has_point(after, addr) {
            let q = choose|q: int| 0 <= q < after.len() && #[trigger] after[q].0 == addr;
            let x = if q < k { q } else { q + 1 };
            assert(pts[x].0 == addr);
            if x < k {
                assert(pts[x].0 != pts[k].0);
            } else {
                assert(pts[k].0 != pts[x].0);
            }
        }
    }
}

/// Relies on rand::thread_rng and RngCore::next_u32: a number drawn at random.
#[verifier::external_body]
fn random_u32() -> u32 {
    rand::thread_rng().next_u32()
}

/// The registry of interception points.
pub struct InterceptorDispatcher<L> {
    points: Vec<InterceptionPoint<L>>,
}

impl<L> InterceptorDispatcher<L> {
    /// The points, in the order they were created.
    pub closed spec fn view_points(&self) -> Seq<PointView<L>> {
        self.points@.map_values(|p: InterceptionPoint<L>| point_view(p))
    }

    pub closed spec fn wf(&self) -> bool {
        points_wf(self.view_points())
    }

    /// A dispatcher without points.
    pub fn new() -> (r: Self)
        ensures
            r.wf(),
            r.view_points() == Seq::<PointView<L>>::empty(),
    {
        let r = InterceptorDispatcher { points: Vec::new() };
        assert(r.view_points() =~= Seq::<PointView<L>>::empty());
        r
    }

    /// The index of the point at `addr`.
    fn find_point(&self, addr: usize) -> (r: Option<usize>)
        ensures
            match r {
                Some(k) => first_point(self.view_points(), addr, k as int),
                None => !has_point(self.view_points(), addr),
            },
    {
        let mut i: usize = 0;
        while i < self.points.len()
            invariant
                0 <= i <= self.points@.len(),
                forall|y: int| 0 <= y < i ==> #[trigger] self.view_points()[y].0 != addr,
            decreases self.points@.len() - i,
        {
            if self.points[i].address == addr {
                return Some(i);
            }
            i = i + 1;
        }
        None
    }

    /// Where `h` is registered: point and position.
    fn find_handle(&self, h: InterceptorHandle) -> (r: Option<(usize, usize)>)
        ensures
            match r {
                Some(p) => first_handle(self.view_points(), h, p.0 as int, p.1 as int),
                None => !has_handle(self.view_points(), h),
            },
    {
        let ghost pts = self.view_points();
        let mut k: usize = 0;
        while k < self.points.len()
            invariant
                0 <= k <= self.points@.len(),
                pts == self.view_points(),
                forall|y: int, z: int|
                    0 <= y < k && 0 <= z < pts[y].2.len() ==> #[trigger] pts[y].2[z].handle != h,
            decreases self.points@.len() - k,
        {
            let regs = &self.points[k].registrations;
            assert(pts[k as int].2 == regs@);
            let mut j: usize = 0;
            while j < regs.len()
                invariant
                    0 <= j <= regs@.len(),
                    0 <= k < pts.len(),
                    pts == self.view_points(),
                    pts[k as int].2 == regs@,
                    forall|y: int, z: int|
                        0 <= y < k && 0 <= z < pts[y].2.len() ==> #[trigger] pts[y].2[z].handle
                            != h,
                    forall|z: int| 0 <= z < j ==> #[trigger] pts[k as int].2[z].handle != h,
                decreases regs@.len() - j,
            {
                if regs[j].handle == h {
                    return Some((k, j));
                }
                j = j + 1;
            }
            k = k + 1;
        }
        None
    }

    /// Whether an attach at `addr` needs a freshly installed native listener.
    pub fn needs_listener(&self, addr: usize) -> (r: bool)
        ensures
            r == !has_point(self.view_points(), addr),
    {
        self.find_point(addr).is_none()
    }

    /// Registers the hook `InterceptorHandle::new(kind, id)` of `owner` at
    /// `addr`. Where the address has no point yet, `listener` must be the native
    /// listener just installed there; it is ignored otherwise.
    pub fn attach_with_id(
        &mut self,
        kind: HookKind,
        id: u32,
        addr: usize,
        owner: u32,
        listener: Option<L>,
    ) -> (r: Result<InterceptorHandle, Error>)
        requires
            old(self).wf(),
        ensures
            final(self).wf(),
            r is Ok ==> r->Ok_0.spec_kind() == kind && r->Ok_0.spec_id() == id,
            (r, final(self).view_points()) == attach_spec(
                old(self).view_points(),
                handle_of(kind, id),
                addr,
                owner,
                listener,
            ),
    {
        let h = InterceptorHandle::new(kind, id);
        let ghost pts = self.view_points();
        let reg = Registration { handle: h, owner };
        if self.find_handle(h).is_some() {
            return Err(Error::HookAlreadyExists(id));
        }
        match self.find_point(addr) {
            Some(k) => {
                proof {
                    lemma_first_point_unique(pts, addr, k as int);
                }
                let mut p = self.points.remove(k);
                p.registrations.push(reg);
                self.points.insert(k, p);
                assert(self.view_points() =~= pts.update(k as int, (addr, pts[k as int].1, pts[k as int].2.push(reg))));
                assert forall|i: int, j: int|
                    0 <= i < j < self.view_points().len() implies #[trigger] self.view_points()[i].0
                    != #[trigger] self.view_points()[j].0 by {
                    assert(self.view_points()[i].0 == pts[i].0);
                    assert(self.view_points()[j].0 == pts[j].0);
                }
                Ok(h)
            },
            None => {
                match listener {
                    None => Err(Error::NoListener(addr)),
                    Some(l) => {
                        let mut regs: Vec<Registration> = Vec::new();
                        regs.push(reg);
                        let p = InterceptionPoint { address: addr, listener: l, registrations: regs };
                        self.points.push(p);
                        assert(regs@ =~= seq![reg]);
                        assert(self.view_points() =~= pts.push((addr, l, seq![reg])));
                        assert forall|i: int, j: int|
                            0 <= i < j < self.view_points().len() implies #[trigger] self.view_points()[i].0
                            != #[trigger] self.view_points()[j].0 by {
                            if j == pts.len() {
                                assert(self.view_points()[i].0 == pts[i].0);
                            }
                        }
                        Ok(h)
                    },
                }
            },
        }
    }

    /// Registers a hook of `kind` for `owner` at `addr` under a handle whose
    /// identifier is drawn at random, drawn again a few times while it is
    /// taken, and then the first free one. It succeeds wherever a free
    /// identifier exists and the address has a point or a listener is given. Where the address has no point yet,
    /// `listener` must be the native listener just installed there.
    pub fn attach(&mut self, kind: HookKind, addr: usize, owner: u32, listener: Option<L>) -> (r:
        Result<InterceptorHandle, Error>)
        requires
            old(self).wf(),
        ensures
            final(self).wf(),
            r is Ok ==> r->Ok_0.spec_kind() == kind,
            (has_point(old(self).view_points(), addr) || listener is Some) && (exists|id: u32|
                !has_handle(old(self).view_points(), #[trigger] handle_of(kind, id))) ==> r is Ok,
            exists|id: u32|
                (r, final(self).view_points()) == #[trigger] attach_spec(
                    old(self).view_points(),
                    handle_of(kind, id),
                    addr,
                    owner,
                    listener,
                ),
    {
        let mut id = random_u32();
        let mut tries: u32 = 1;
        while tries < 8 && self.find_handle(InterceptorHandle::new(kind, id)).is_some()
            invariant
                1 <= tries <= 8,
            decreases 8 - tries,
        {
            id = random_u32();
            tries = tries + 1;
        }
        if self.find_handle(InterceptorHandle::new(kind, id)).is_some() {
            id = self.first_free_id(kind);
        }
        self.attach_with_id(kind, id, addr, owner, listener)
    }

    /// The smallest identifier of `kind` that no registration holds; where
    /// all are taken, the largest.
    fn first_free_id(&self, kind: HookKind) -> (r: u32)
        ensures
            (exists|id: u32| !has_handle(self.view_points(), #[trigger] handle_of(kind, id)))
                ==> !has_handle(self.view_points(), handle_of(kind, r)),
    {
        let mut id: u32 = 0;
        while id < u32::MAX
            invariant
                forall|x: u32| x < id ==> has_handle(self.view_points(), #[trigger] handle_of(kind, x)),
            decreases u32::MAX - id,
        {
            if self.find_handle(InterceptorHandle::new(kind, id)).is_none() {
                return id;
            }
            id = id + 1;
        }
        id
    }


    /// Removes the registration of `h`. Returns whether there was one and, when
    /// it was the last at its address, the listener of that address, which the
    /// caller releases.
    pub fn detach(&mut self, h: InterceptorHandle) -> (r: (bool, Option<L>))
        requires
            old(self).wf(),
        ensures
            final(self).wf(),
            (r.0, r.1, final(self).view_points()) == detach_spec(old(self).view_points(), h),
    {
        let ghost pts = self.view_points();
        match self.find_handle(h) {
            None => (false, None),
            Some((k, j)) => {
                proof {
                    lemma_first_handle_unique(pts, h, k as int, j as int);
                }
                let mut p = self.points.remove(k);
                p.registrations.remove(j);
                if p.registrations.len() == 0 {
                    assert(self.view_points() =~= pts.remove(k as int));
                    assert forall|i: int, jj: int|
                        0 <= i < jj < self.view_points().len() implies #[trigger] self.view_points()[i].0
                        != #[trigger] self.view_points()[jj].0 by {
                        let a = if i < k { i } else { i + 1 };
                        let b = if jj < k { jj } else { jj + 1 };
                        assert(self.view_points()[i].0 == pts[a].0);
                        assert(self.view_points()[jj].0 == pts[b].0);
                    }
                    (true, Some(p.listener))
                } else {
                    let ghost rest = p.registrations@;
                    self.points.insert(k, p);
                    assert(self.view_points() =~= pts.update(k as int, (pts[k as int].0, pts[k as int].1, rest)));
                    assert forall|i: int, jj: int|
                        0 <= i < jj < self.view_points().len() implies #[trigger] self.view_points()[i].0
                        != #[trigger] self.view_points()[jj].0 by {
                        assert(self.view_points()[i].0 == pts[i].0);
                        assert(self.view_points()[jj].0 == pts[jj].0);
                    }
                    (true, None)
                }
            },
        }
    }

    /// The handles of `kind` at `addr`, in the order their callbacks fire.
    pub fn handles_at(&self, addr: usize, kind: HookKind) -> (r: Vec<InterceptorHandle>)
        ensures
            r@ == handles_at_spec(self.view_points(), addr, kind),
    {
        let mut out: Vec<InterceptorHandle> = Vec::new();
        match self.find_point(addr) {
            None => out,
            Some(k) => {
                proof {
                    lemma_first_point_unique(self.view_points(), addr, k as int);
                }
                let regs = &self.points[k].registrations;
                let mut j: usize = 0;
                while j < regs.len()
                    invariant
                        0 <= j <= regs@.len(),
                        out@ == handles_of_kind(regs@.take(j as int), kind),
                    decreases regs@.len() - j,
                {
                    assert(regs@.take(j + 1).drop_last() =~= regs@.take(j as int));
                    assert(regs@.take(j + 1).last() == regs@[j as int]);
                    if regs[j].handle.kind() == kind {
                        out.push(regs[j].handle);
                    }
                    j = j + 1;
                }
                assert(regs@.take(regs@.len() as int) =~= regs@);
                out
            },
        }
    }

    /// The registrations at `addr`, in the order they were made.
    pub fn registrations_at(&self, addr: usize) -> (r: Vec<Registration>)
        ensures
            r@ == (if has_point(self.view_points(), addr) {
                self.view_points()[point_index(self.view_points(), addr)].2
            } else {
                Seq::<Registration>::empty()
            }),
    {
        match self.find_point(addr) {
            None => Vec::new(),
            Some(k) => {
                proof {
                    lemma_first_point_unique(self.view_points(), addr, k as int);
                }
                self.points[k].registrations.clone()
            },
        }
    }

    /// The owner of the registration `h`, if it is registered.
    pub fn owner_of(&self, h: InterceptorHandle) -> (r: Option<u32>)
        ensures
            match r {
                Some(o) => has_handle(self.view_points(), h) && o == self.view_points()[handle_place(
                    self.view_points(),
                    h,
                ).0].2[handle_place(self.view_points(), h).1].owner,
                None => !has_handle(self.view_points(), h),
            },
    {
        match self.find_handle(h) {
            None => None,
            Some((k, j)) => {
                proof {
                    lemma_first_handle_unique(self.view_points(), h, k as int, j as int);
                }
                Some(self.points[k].registrations[j].owner)
            },
        }
    }

    /// Removes every registration of `owner`. Returns the listeners of the
    /// points that lost their last registration, which the caller releases.
    pub fn detach_owner(&mut self, owner: u32) -> (r: Vec<L>)
        requires
            old(self).wf(),
        ensures
            final(self).wf(),
            (r@, final(self).view_points()) == strip_owner(old(self).view_points(), owner),
    {
        let ghost pts = self.view_points();
        let mut rest: Vec<InterceptionPoint<L>> = Vec::new();
        std::mem::swap(&mut rest, &mut self.points);
        assert(rest@.map_values(|p: InterceptionPoint<L>| point_view(p)) == pts);
        let mut released: Vec<L> = Vec::new();
        let mut i: usize = 0;
        let n = rest.len();
        while rest.len() > 0
            invariant
                i + rest@.len() == n,
                n == pts.len(),
                forall|y: int| 0 <= y < rest@.len() ==> point_view(#[trigger] rest@[y]) == pts[i + y],
                (released@, self.view_points()) == strip_owner(pts.take(i as int), owner),
            decreases rest@.len(),
        {
            let p = rest.remove(0);
            assert(point_view(p) == pts[i as int]);
            assert(pts.take(i + 1).drop_last() =~= pts.take(i as int));
            assert(pts.take(i + 1).last() == pts[i as int]);
            let regs = Self::registrations_without(&p.registrations, owner);
            if regs.len() == 0 {
                released.push(p.listener);
            } else {
                let q = InterceptionPoint { address: p.address, listener: p.listener, registrations: regs };
                let ghost before = self.view_points();
                self.points.push(q);
                assert(self.view_points() =~= before.push(point_view(q)));
            }
            i = i + 1;
            assert forall|y: int| 0 <= y < rest@.len() implies point_view(#[trigger] rest@[y]) == pts[i + y] by {}
        }
        assert(pts.take(n as int) =~= pts);
        proof {
            lemma_strip_wf(pts, owner);
        }
        released
    }

    /// The registrations of `regs` that `owner` does not own, in order.
    fn registrations_without(regs: &Vec<Registration>, owner: u32) -> (r: Vec<Registration>)
        ensures
            r@ == without_owner(regs@, owner),
    {
        let mut out: Vec<Registration> = Vec::new();
        let mut j: usize = 0;
        while j < regs.len()
            invariant
                0 <= j <= regs@.len(),
                out@ == without_owner(regs@.take(j as int), owner),
            decreases regs@.len() - j,
        {
            assert(regs@.take(j + 1).drop_last() =~= regs@.take(j as int));
            assert(regs@.take(j + 1).last() == regs@[j as int]);
            if regs[j].owner != owner {
                out.push(regs[j]);
            }
            j = j + 1;
        }
        assert(regs@.take(regs@.len() as int) =~= regs@);
        out
    }
}

/// A general-purpose register of the register file a probe callback sees.
#[derive(Clone, Copy, Debug, PartialEq, Eq, Structural)]
pub enum Register {
    Rax,
    Rbx,
    Rcx,
    Rdx,
    Rdi,
    Rsi,
    Rbp,
    Rsp,
    R8,
    R9,
    R10,
    R11,
    R12,
    R13,
    R14,
    R15,
    Rip,
}

/// The register a name stands for, if any.
pub open spec fn register_of_name(b: Seq<u8>) -> Option<Register> {
    if b == seq![0x72u8, 0x61u8, 0x78u8] {
        Some(Register::Rax)
    } else if b == seq![0x72u8, 0x62u8, 0x78u8] {
        Some(Register::Rbx)
    } else if b == seq![0x72u8, 0x63u8, 0x78u8] {
        Some(Register::Rcx)
    } else if b == seq![0x72u8, 0x64u8, 0x78u8] {
        Some(Register::Rdx)
    } else if b == seq![0x72u8, 0x64u8, 0x69u8] {
        Some(Register::Rdi)
    } else if b == seq![0x72u8, 0x73u8, 0x69u8] {
        Some(Register::Rsi)
    } else if b == seq![0x72u8, 0x62u8, 0x70u8] {
        Some(Register::Rbp)
    } else if b == seq![0x72u8, 0x73u8, 0x70u8] {
        Some(Register::Rsp)
    } else if b == seq![0x72u8, 0x38u8] {
        Some(Register::R8)
    } else if b == seq![0x72u8, 0x39u8] {
        Some(Register::R9)
    } else if b == seq![0x72u8, 0x31u8, 0x30u8] {
        Some(Register::R10)
    } else if b == seq![0x72u8, 0x31u8, 0x31u8] {
        Some(Register::R11)
    } else if b == seq![0x72u8, 0x31u8, 0x32u8] {
        Some(Register::R12)
    } else if b == seq![0x72u8, 0x31u8, 0x33u8] {
        Some(Register::R13)
    } else if b == seq![0x72u8, 0x31u8, 0x34u8] {
        Some(Register::R14)
    } else if b == seq![0x72u8, 0x31u8, 0x35u8] {
        Some(Register::R15)
    } else if b == seq![0x72u8, 0x69u8, 0x70u8] {
        Some(Register::Rip)
    } else {
        None
    }
}

/// The register called `name` in a probe callback.
pub fn register_from_name(name: &str) -> (r: Option<Register>)
    ensures
        r == register_of_name(name.spec_bytes()),
{
    let b = name.as_bytes();
    if b.len() == 3 && b[0] == 0x72u8 && b[1] == 0x61u8 && b[2] == 0x78u8 {
        assert(b@ =~= seq![0x72u8, 0x61u8, 0x78u8]);
        return Some(Register::Rax);
    }
    if b.len() == 3 && b[0] == 0x72u8 && b[1] == 0x62u8 && b[2] == 0x78u8 {
        assert(b@ =~= seq![0x72u8, 0x62u8, 0x78u8]);
        return Some(Register::Rbx);
    }
    if b.len() == 3 && b[0] == 0x72u8 && b[1] == 0x63u8 && b[2] == 0x78u8 {
        assert(b@ =~= seq![0x72u8, 0x63u8, 0x78u8]);
        return Some(Register::Rcx);
    }
    if b.len() == 3 && b[0] == 0x72u8 && b[1] == 0x64u8 && b[2] == 0x78u8 {
        assert(b@ =~= seq![0x72u8, 0x64u8, 0x78u8]);
        return Some(Register::Rdx);
    }
    if b.len() == 3 && b[0] == 0x72u8 && b[1] == 0x64u8 && b[2] == 0x69u8 {
        assert(b@ =~= seq![0x72u8, 0x64u8, 0x69u8]);
        return Some(Register::Rdi);
    }
    if b.len() == 3 && b[0] == 0x72u8 && b[1] == 0x73u8 && b[2] == 0x69u8 {
        assert(b@ =~= seq![0x72u8, 0x73u8, 0x69u8]);
        return Some(Register::Rsi);
    }
    if b.len() == 3 && b[0] == 0x72u8 && b[1] == 0x62u8 && b[2] == 0x70u8 {
        assert(b@ =~= seq![0x72u8, 0x62u8, 0x70u8]);
        return Some(Register::Rbp);
    }
    if b.len() == 3 && b[0] == 0x72u8 && b[1] == 0x73u8 && b[2] == 0x70u8 {
        assert(b@ =~= seq![0x72u8, 0x73u8, 0x70u8]);
        return Some(Register::Rsp);
    }
    if b.len() == 2 && b[0] == 0x72u8 && b[1] == 0x38u8 {
        assert(b@ =~= seq![0x72u8, 0x38u8]);
        return Some(Register::R8);
    }
    if b.len() == 2 && b[0] == 0x72u8 && b[1] == 0x39u8 {
        assert(b@ =~= seq![0x72u8, 0x39u8]);
        return Some(Register::R9);
    }
    if b.len() == 3 && b[0] == 0x72u8 && b[1] == 0x31u8 && b[2] == 0x30u8 {
        assert(b@ =~= seq![0x72u8, 0x31u8, 0x30u8]);
        return Some(Register::R10);
    }
    if b.len() == 3 && b[0] == 0x72u8 && b[1] == 0x31u8 && b[2] == 0x31u8 {
        assert(b@ =~= seq![0x72u8, 0x31u8, 0x31u8]);
        return Some(Register::R11);
    }
    if b.len() == 3 && b[0] == 0x72u8 && b[1] == 0x31u8 && b[2] == 0x32u8 {
        assert(b@ =~= seq![0x72u8, 0x31u8, 0x32u8]);
        return Some(Register::R12);
    }
    if b.len() == 3 && b[0] == 0x72u8 && b[1] == 0x31u8 && b[2] == 0x33u8 {
        assert(b@ =~= seq![0x72u8, 0x31u8, 0x33u8]);
        return Some(Register::R13);
    }
    if b.len() == 3 && b[0] == 0x72u8 && b[1] == 0x31u8 && b[2] == 0x34u8 {
        assert(b@ =~= seq![0x72u8, 0x31u8, 0x34u8]);
        return Some(Register::R14);
    }
    if b.len() == 3 && b[0] == 0x72u8 && b[1] == 0x31u8 && b[2] == 0x35u8 {
        assert(b@ =~= seq![0x72u8, 0x31u8, 0x35u8]);
        return Some(Register::R15);
    }
    if b.len() == 3 && b[0] == 0x72u8 && b[1] == 0x69u8 && b[2] == 0x70u8 {
        assert(b@ =~= seq![0x72u8, 0x69u8, 0x70u8]);
        return Some(Register::Rip);
    }
    None
}

/// The kind of key a script uses on a call view.
#[derive(Clone, Debug, PartialEq, Eq)]
pub enum ViewKey {
    /// An integer key.
    Index(u32),
    /// A string key.
    Name(String),
    /// Any other value.
    Other,
}

/// What a key on a call view stands for.
#[derive(Clone, Copy, Debug, PartialEq, Eq, Structural)]
pub enum ViewSlot {
    /// The argument at this position.
    Argument(u32),
    /// The return value.
    ReturnValue,
    /// A register of the register file.
    Reg(Register),
    /// A thread-local scratch value, passed from entry to exit.
    Scratch,
    /// Nothing: reading gives nil.
    Nothing,
    /// A use the view refuses.
    Refused,
}

/// What `key` stands for on the view of a boundary hook's entry (`leaving`
/// false) or exit, or of a probe, when read or (`writing`) written.
pub open spec fn view_slot(key: ViewKey, probe: bool, leaving: bool, writing: bool) -> ViewSlot {
    if probe {
        match key {
            ViewKey::Name(n) => match register_of_name(vstd::utf8::encode_utf8(n@)) {
                Some(r) => ViewSlot::Reg(r),
                None => ViewSlot::Refused,
            },
            _ => ViewSlot::Refused,
        }
    } else {
        match key {
            ViewKey::Index(i) => if !leaving {
                ViewSlot::Argument(i)
            } else if writing {
                ViewSlot::Refused
            } else {
                ViewSlot::Nothing
            },
            ViewKey::Name(n) => if leaving && n@ == "retval"@ {
                ViewSlot::ReturnValue
            } else {
                ViewSlot::Scratch
            },
            ViewKey::Other => ViewSlot::Scratch,
        }
    }
}

/// Classifies a key used on a call view, as `view_slot` says.
pub fn classify_view_key(key: &ViewKey, probe: bool, leaving: bool, writing: bool) -> (r: ViewSlot)
    ensures
        r == view_slot(*key, probe, leaving, writing),
{
    if probe {
        return match key {
            ViewKey::Name(n) => match register_from_name(n.as_str()) {
                Some(r) => ViewSlot::Reg(r),
                None => ViewSlot::Refused,
            },
            _ => ViewSlot::Refused,
        };
    }
    match key {
        ViewKey::Index(i) => if !leaving {
            ViewSlot::Argument(*i)
        } else if writing {
            ViewSlot::Refused
        } else {
            ViewSlot::Nothing
        },
        ViewKey::Name(n) => if leaving && crate::text::str_eq(n.as_str(), "retval") {
            ViewSlot::ReturnValue
        } else {
            ViewSlot::Scratch
        },
        ViewKey::Other => ViewSlot::Scratch,
    }
}

} // verus!
