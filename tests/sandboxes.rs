use lua_framework::dispatcher::HookKind;
use lua_framework::error::Error;
use lua_framework::extension::{CoreAPI, LoadStats};
use lua_framework::patch::MemoryPatchManager;
use lua_framework::runtime::{Runtime, TeardownStep};
use lua_framework::sandbox::SandboxManager;
use lua_framework::shared::SharedState;

#[test]
fn destroying_a_sandbox_releases_hooks_and_patches() {
    let mut rt: Runtime<u32, i64> = Runtime::new();
    let id = rt.sandboxes.add_vm("a.lua").unwrap();
    let other = rt.sandboxes.add_vm("b.lua").unwrap();
    let h1 = rt.dispatcher.attach_with_id(HookKind::Inline, 1, 0x100, id, Some(1)).unwrap();
    let h2 = rt.dispatcher.attach_with_id(HookKind::Mid, 2, 0x200, id, Some(2)).unwrap();
    let h3 = rt.dispatcher.attach_with_id(HookKind::Inline, 3, 0x100, other, None).unwrap();
    rt.patches.new_patch(0x1000, vec![1, 2, 3], id).unwrap();
    rt.patches.new_patch(0x2000, vec![4], id).unwrap();
    rt.patches.new_patch(0x3000, vec![5], other).unwrap();
    let t = rt.destroy_sandbox(id).unwrap();
    assert_eq!(t.listeners, vec![2]);
    assert_eq!(t.restores, vec![(0x1000, vec![1, 2, 3]), (0x2000, vec![4])]);
    assert_eq!(rt.dispatcher.owner_of(h1), None);
    assert_eq!(rt.dispatcher.owner_of(h2), None);
    assert_eq!(rt.dispatcher.owner_of(h3), Some(other));
    assert!(!rt.sandboxes.contains(id));
    assert!(rt.sandboxes.contains(other));
    assert_eq!(rt.patches.restore_patch(0x1000), None);
    assert_eq!(rt.patches.restore_patch(0x3000), Some(vec![5]));
    assert!(rt.destroy_sandbox(id).is_none());
}

#[test]
fn reload_keeps_virtual_sandboxes() {
    let mut rt: Runtime<u32, i64> = Runtime::new();
    let file = rt.sandboxes.add_vm("script.lua").unwrap();
    let virt = rt.sandboxes.add_virtual_vm("test.lua").unwrap();
    rt.dispatcher.attach_with_id(HookKind::Inline, 1, 0x10, file, Some(1)).unwrap();
    let vh = rt.dispatcher.attach_with_id(HookKind::Inline, 2, 0x20, virt, Some(2)).unwrap();
    rt.shared.set_state("string:k", 5);
    let (removed, teardowns) = rt.reload_physical();
    assert_eq!(removed, vec![file]);
    assert_eq!(teardowns.len(), 1);
    assert_eq!(teardowns[0].listeners, vec![1]);
    assert_eq!(rt.sandboxes.ids(), vec![virt]);
    assert!(rt.sandboxes.is_virtual(virt));
    assert_eq!(rt.dispatcher.owner_of(vh), Some(virt));
    assert_eq!(rt.shared.get_state("string:k"), None);
    let again = rt.sandboxes.add_vm("script.lua").unwrap();
    assert_ne!(again, file);
    assert_eq!(rt.sandboxes.ids(), vec![virt, again]);
}

#[test]
fn sandbox_ids_are_fresh_and_removal_reports() {
    let mut m = SandboxManager::new();
    let a = m.add_vm("a.lua").unwrap();
    let b = m.add_virtual_vm("b").unwrap();
    assert_ne!(a, b);
    assert!(!m.is_virtual(a));
    assert!(m.is_virtual(b));
    assert_eq!(m.name_of(a), Some("a.lua".to_string()));
    assert_eq!(m.name_of(b), Some("virtual:b".to_string()));
    assert!(m.remove_vm(a));
    assert!(!m.remove_vm(a));
    assert_eq!(m.name_of(a), None);
    assert_eq!(m.ids(), vec![b]);
}

#[test]
fn disabled_scripts_are_skipped() {
    let mut m = SandboxManager::new();
    m.disable_vm("b.lua");
    assert!(!m.is_vm_name_enabled("b.lua"));
    let entries = vec![
        ("a.lua".to_string(), false),
        ("b.lua".to_string(), false),
        ("dir.lua".to_string(), true),
        ("notes.txt".to_string(), false),
        (".lua".to_string(), false),
        ("c.lua".to_string(), false),
    ];
    assert_eq!(m.select_scripts(&entries), vec!["a.lua".to_string(), "c.lua".to_string()]);
    assert_eq!(m.disabled_names(), vec!["b.lua".to_string()]);
    m.enable_vm("b.lua");
    assert!(m.is_vm_name_enabled("b.lua"));
    m.disable_vm("x.lua");
    m.clear_disabled();
    assert!(m.is_vm_name_enabled("x.lua"));
}

#[test]
fn failed_extension_contributes_nothing() {
    let mut api = CoreAPI::new();
    let mut stats = LoadStats { total: 0, loaded: 0 };
    api.begin_load();
    api.register_function("bad_fn", 0xdead);
    let r = api.finish_load("bad", 3);
    assert_eq!(r, Err(Error::InitCoreExtension(3)));
    stats = CoreAPI::count_load(stats, &r);
    assert_eq!(api.get_function("bad_fn"), None);
    assert!(!api.has_extension("bad"));
    api.begin_load();
    api.register_function("good_fn", 0xbeef);
    let r = api.finish_load("good", 0);
    assert_eq!(r, Ok(()));
    stats = CoreAPI::count_load(stats, &r);
    assert_eq!(api.get_function("good_fn"), Some(0xbeef));
    assert!(api.has_extension("good"));
    assert_eq!(stats, LoadStats { total: 2, loaded: 1 });
    api.register_function("late", 1);
    assert_eq!(api.get_function("late"), Some(1));
}

#[test]
fn module_selection() {
    let entries = vec![
        ("one.dll".to_string(), false),
        ("two.txt".to_string(), false),
        ("sub.dll".to_string(), true),
        (".dll".to_string(), false),
    ];
    assert_eq!(CoreAPI::select_modules(&entries), vec!["one.dll".to_string()]);
}

#[test]
fn patches_refuse_overlap() {
    let mut p = MemoryPatchManager::new();
    assert_eq!(p.new_patch(100, vec![0, 0, 0, 0], 1), Ok(()));
    assert_eq!(p.new_patch(103, vec![1], 2), Err(Error::PatchAlreadyExists(103)));
    assert_eq!(p.new_patch(104, vec![1], 2), Ok(()));
    assert!(p.is_patch_exists(99, 2));
    assert!(!p.is_patch_exists(96, 4));
    assert_eq!(p.new_patch(usize::MAX, vec![1, 2], 2).is_err(), true);
    assert_eq!(p.owner_of_patch(104), Some(2));
    assert_eq!(p.owner_of_patch(101), None);
    assert_eq!(p.restore_owner(1), vec![(100, vec![0, 0, 0, 0])]);
    assert!(!p.is_patch_exists(100, 4));
}

#[test]
fn shared_state_replaces_values() {
    let mut s: SharedState<String> = SharedState::new();
    s.set_state("string:a", "1".to_string());
    s.set_state("string:a", "2".to_string());
    assert_eq!(s.get_state("string:a"), Some(&"2".to_string()));
    assert_eq!(s.get_state("string:b"), None);
    s.clear_states();
    assert_eq!(s.get_state("string:a"), None);
}

#[test]
fn teardown_order() {
    let mut steps = vec![TeardownStep::first()];
    while let Some(next) = steps.last().unwrap().next() {
        steps.push(next);
    }
    assert_eq!(
        steps,
        vec![
            TeardownStep::RunFinalizer,
            TeardownStep::ReleaseHooks,
            TeardownStep::RestorePatches,
            TeardownStep::NotifyExtensions,
        ]
    );
}

#[test]
fn dispatch_skips_removed_sandboxes() {
    let mut rt: Runtime<u32, i64> = Runtime::new();
    let a = rt.sandboxes.add_vm("a.lua").unwrap();
    let b = rt.sandboxes.add_vm("b.lua").unwrap();
    let ha = rt.dispatcher.attach_with_id(HookKind::Inline, 1, 0x700, a, Some(1)).unwrap();
    let hb = rt.dispatcher.attach_with_id(HookKind::Inline, 2, 0x700, b, None).unwrap();
    rt.dispatcher.attach_with_id(HookKind::Mid, 3, 0x700, b, None).unwrap();
    let targets: Vec<_> = rt.dispatch_targets(0x700, HookKind::Inline).iter().map(|r| r.handle).collect();
    assert_eq!(targets, vec![ha, hb]);
    assert!(rt.sandboxes.remove_vm(a));
    let targets: Vec<_> = rt.dispatch_targets(0x700, HookKind::Inline).iter().map(|r| (r.handle, r.owner)).collect();
    assert_eq!(targets, vec![(hb, b)]);
    assert!(rt.dispatch_targets(0x800, HookKind::Inline).is_empty());
}
