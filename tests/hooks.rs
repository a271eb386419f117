use lua_framework::dispatcher::{HookKind, InterceptorDispatcher, InterceptorHandle};
use lua_framework::error::Error;

#[test]
fn two_hooks_share_one_listener() {
    let mut d: InterceptorDispatcher<u32> = InterceptorDispatcher::new();
    assert!(d.needs_listener(0x1000));
    let h1 = d.attach_with_id(HookKind::Inline, 1, 0x1000, 7, Some(100)).unwrap();
    assert!(!d.needs_listener(0x1000));
    let h2 = d.attach_with_id(HookKind::Inline, 2, 0x1000, 8, None).unwrap();
    assert_ne!(h1, h2);
    assert_eq!(h1, InterceptorHandle::Inline(1));
    assert_eq!(d.handles_at(0x1000, HookKind::Inline), vec![h1, h2]);
    assert_eq!(d.handles_at(0x1000, HookKind::Mid), vec![]);
    assert_eq!(d.owner_of(h2), Some(8));
}

#[test]
fn detach_keeps_other_and_releases_last() {
    let mut d: InterceptorDispatcher<u32> = InterceptorDispatcher::new();
    let h1 = d.attach_with_id(HookKind::Inline, 1, 0x2000, 1, Some(55)).unwrap();
    let h2 = d.attach_with_id(HookKind::Inline, 2, 0x2000, 1, None).unwrap();
    assert_eq!(d.detach(h1), (true, None));
    assert_eq!(d.handles_at(0x2000, HookKind::Inline), vec![h2]);
    assert!(!d.needs_listener(0x2000));
    assert_eq!(d.detach(h1), (false, None));
    assert_eq!(d.detach(h2), (true, Some(55)));
    assert!(d.needs_listener(0x2000));
    assert_eq!(
        d.attach_with_id(HookKind::Inline, 3, 0x2000, 1, None),
        Err(Error::NoListener(0x2000))
    );
    let h3 = d.attach_with_id(HookKind::Inline, 3, 0x2000, 1, Some(56)).unwrap();
    assert_eq!(d.detach(h3), (true, Some(56)));
}

#[test]
fn duplicate_handle_is_refused() {
    let mut d: InterceptorDispatcher<u32> = InterceptorDispatcher::new();
    d.attach_with_id(HookKind::Mid, 9, 0x3000, 1, Some(1)).unwrap();
    assert_eq!(
        d.attach_with_id(HookKind::Mid, 9, 0x4000, 1, Some(2)),
        Err(Error::HookAlreadyExists(9))
    );
    assert_eq!(d.handles_at(0x3000, HookKind::Mid), vec![InterceptorHandle::Mid(9)]);
}

#[test]
fn probe_and_boundary_hooks_are_kept_apart() {
    let mut d: InterceptorDispatcher<u32> = InterceptorDispatcher::new();
    let a = d.attach_with_id(HookKind::Inline, 1, 0x5000, 1, Some(1)).unwrap();
    let b = d.attach_with_id(HookKind::Mid, 1, 0x5000, 1, None).unwrap();
    assert_eq!(d.handles_at(0x5000, HookKind::Inline), vec![a]);
    assert_eq!(d.handles_at(0x5000, HookKind::Mid), vec![b]);
    assert_eq!(a.id(), 1);
    assert_eq!(b.kind(), HookKind::Mid);
}

#[test]
fn random_handles_differ() {
    let mut d: InterceptorDispatcher<u32> = InterceptorDispatcher::new();
    let h1 = d.attach(HookKind::Inline, 0x6000, 1, Some(1)).unwrap();
    let h2 = d.attach(HookKind::Inline, 0x6000, 1, None).unwrap();
    assert_ne!(h1, h2);
    assert_eq!(h1.kind(), HookKind::Inline);
    assert_eq!(d.handles_at(0x6000, HookKind::Inline), vec![h1, h2]);
}

#[test]
fn detach_owner_removes_only_that_owner() {
    let mut d: InterceptorDispatcher<u32> = InterceptorDispatcher::new();
    let a = d.attach_with_id(HookKind::Inline, 1, 0x10, 1, Some(10)).unwrap();
    let b = d.attach_with_id(HookKind::Inline, 2, 0x10, 2, None).unwrap();
    let c = d.attach_with_id(HookKind::Inline, 3, 0x20, 1, Some(20)).unwrap();
    let released = d.detach_owner(1);
    assert_eq!(released, vec![20]);
    assert_eq!(d.owner_of(a), None);
    assert_eq!(d.owner_of(c), None);
    assert_eq!(d.owner_of(b), Some(2));
    assert!(d.needs_listener(0x20));
    assert!(!d.needs_listener(0x10));
}
