use lua_framework::command::{handle_command, GameCommand};
use lua_framework::config::{default_log_level, default_menu_key, LogConfig, LogLevel, ScriptsConfig};
use lua_framework::error::Error;
use lua_framework::dispatcher::{classify_view_key, register_from_name, Register, ViewKey, ViewSlot};
use lua_framework::ffi::{prepare_call, ArgType, ArgumentType, CallError};
use lua_framework::game::{get_monsters, MonsterRegistry, SingletonManager};
use lua_framework::input::{ControllerButton, CoreAPIInput, Input, KeyCode, KeyboardState};
use lua_framework::utility::{get_game_window_title, to_wstring_bytes_with_nul, UtilityModule};
use lua_framework::string::{Encoding, ManagedString};
use lua_framework::version::{require_version, version_verdict};

#[test]
fn chat_commands() {
    assert_eq!(handle_command("luaf reload"), GameCommand::Reload);
    assert_eq!(handle_command("  luaf   reload  now"), GameCommand::Reload);
    assert_eq!(handle_command("luaf"), GameCommand::Ignored);
    assert_eq!(handle_command("hello luaf reload"), GameCommand::Ignored);
    assert_eq!(handle_command("luaf frob"), GameCommand::Unknown(vec!['f', 'r', 'o', 'b']));
    assert_eq!(handle_command("luaf\u{3000}reload"), GameCommand::Reload);
    assert_eq!(handle_command("\u{2003}luaf\treload"), GameCommand::Reload);
}

#[test]
fn u64_helpers() {
    assert_eq!(UtilityModule::merge_to_u64(1, 2), 0x1_0000_0002);
    assert_eq!(UtilityModule::split_u64_to_u32(0xDEAD_BEEF_0000_0001), (0xDEAD_BEEF, 1));
    assert_eq!(UtilityModule::parse_string_to_u64("0x1F"), Ok(31));
    assert_eq!(UtilityModule::parse_string_to_u64("+42"), Ok(42));
    assert_eq!(UtilityModule::parse_string_to_u64("18446744073709551615"), Ok(u64::MAX));
    assert_eq!(
        UtilityModule::parse_string_to_u64("18446744073709551616"),
        Err(Error::ParseInt("18446744073709551616".to_string()))
    );
    assert_eq!(UtilityModule::parse_string_to_u64("0x"), Err(Error::ParseInt("0x".to_string())));
    assert_eq!(UtilityModule::parse_string_to_u64("1F"), Err(Error::ParseInt("1F".to_string())));
    assert_eq!(UtilityModule::parse_string_to_u64(""), Err(Error::ParseInt("".to_string())));
}

#[test]
fn wide_strings_end_with_nul() {
    assert_eq!(to_wstring_bytes_with_nul("ab"), vec![97, 98, 0]);
    assert_eq!(to_wstring_bytes_with_nul("\u{1F600}"), vec![0xD83D, 0xDE00, 0]);
    assert_eq!(to_wstring_bytes_with_nul(""), vec![0]);
}

#[test]
fn window_title() {
    assert_eq!(get_game_window_title(Some(421810)), Some("MONSTER HUNTER: WORLD(421810)".to_string()));
    assert_eq!(get_game_window_title(None), None);
}

#[test]
fn key_and_button_queries() {
    let mut kb = KeyboardState::zeroed();
    let mut vk = vec![0u8; 256];
    vk[KeyCode::F7.code() as usize] = 0x76;
    kb.on[0x76 / 32] = 1 << (0x76 % 32);
    kb.trg[0x76 / 32] = 1 << (0x76 % 32);
    let state = CoreAPIInput {
        keyboard: kb,
        vk_table: vk,
        pad_down: ControllerButton::Cross.bit(),
        pad_trg: 0,
        pad_rel: ControllerButton::L1.bit(),
        pad_chg: 0,
    };
    let input = Input(&state);
    assert!(input.keyboard().is_down(KeyCode::F7));
    assert!(input.keyboard().is_pressed(KeyCode::F7));
    assert!(!input.keyboard().is_down(KeyCode::F8));
    assert!(!input.keyboard().is_released(KeyCode::F7));
    assert!(input.controller().is_down(ControllerButton::Cross));
    assert!(!input.controller().is_pressed(ControllerButton::Cross));
    assert!(input.controller().is_released(ControllerButton::L1));
    assert_eq!(KeyCode::from_repr(65), Some(KeyCode::F7));
    assert_eq!(KeyCode::from_repr(84), None);
    assert_eq!(ControllerButton::from_repr(1 << 14), Some(ControllerButton::Cross));
    assert_eq!(ControllerButton::from_repr(3), None);
}

#[test]
fn ffi_call_checks() {
    assert_eq!(CallError::UnmatchingArgCount(1, 2).as_code(), 1);
    assert_eq!(CallError::InvalidFFIArgType(99).as_code(), 2);
    assert_eq!(CallError::LibFFI("x".to_string()).as_code(), 3);
    assert_eq!(prepare_call(&vec![6, 6], 1, 6), Err(CallError::UnmatchingArgCount(2, 1)));
    assert_eq!(prepare_call(&vec![6, 42, 77], 3, 6), Err(CallError::InvalidFFIArgType(42)));
    assert_eq!(
        prepare_call(&vec![6, 11], 2, 100),
        Ok((vec![ArgType::Sint32, ArgType::Pointer], ArgType::Void))
    );
    assert_eq!(ArgType::from_repr(9), Some(ArgType::Float));
    assert_eq!(ArgType::Double.code(), 10);
}

#[test]
fn config_defaults() {
    assert_eq!(default_log_level(), LogLevel::Info);
    assert_eq!(default_menu_key(), KeyCode::F7);
    assert_eq!(LogConfig::new().level, LogLevel::Info);
    assert!(ScriptsConfig::new().disabled_scripts.is_empty());
    assert_eq!(LogLevel::from_repr(3), Some(LogLevel::Warn));
    assert_eq!(LogLevel::from_repr(5), None);
    assert_eq!(LogLevel::Error.code(), 4);
}

#[test]
fn monsters_and_singletons() {
    let mut m = MonsterRegistry::new();
    m.on_construct(10);
    m.on_construct(20);
    m.on_construct(10);
    m.on_destroy(10);
    assert_eq!(get_monsters(&m), vec![20]);
    assert!(m.contains_monster(20));
    assert!(!m.contains_monster(10));
    let mut s = SingletonManager::new();
    let n = s.parse_singletons(&vec![(Some("sMhKeyboard".to_string()), 0x10), (None, 0x20)]);
    assert_eq!(n, 1);
    assert_eq!(s.get_address("sMhKeyboard"), Some(0x10));
    s.insert("sMhKeyboard", 0x30);
    assert_eq!(s.get_address("sMhKeyboard"), Some(0x30));
    assert_eq!(s.get_address("other"), None);
    let listed = s.singletons();
    assert_eq!(listed.last(), Some(&("sMhKeyboard".to_string(), 0x30)));
}

#[test]
fn version_requirements() {
    assert_eq!(require_version("^1.2", "1.3.0"), Ok(()));
    assert_eq!(
        require_version(">=2.0.0", "1.3.0"),
        Err(Error::VersionMismatch("1.3.0".to_string(), ">=2.0.0".to_string()))
    );
    assert_eq!(require_version("@@", "1.3.0"), Err(Error::InvalidVersion("@@".to_string())));
    assert_eq!(require_version("^1", "one"), Err(Error::InvalidVersion("one".to_string())));
    assert_eq!(version_verdict(true, "1.0.0", "^1"), Ok(()));
}

#[test]
fn names_of_registers_and_types() {
    assert_eq!(register_from_name("rip"), Some(Register::Rip));
    assert_eq!(register_from_name("r15"), Some(Register::R15));
    assert_eq!(register_from_name("eax"), None);
    assert_eq!(register_from_name(""), None);
    assert_eq!(ArgumentType::from_type_name("u8"), Some(ArgumentType::UInt8));
    assert_eq!(ArgumentType::from_type_name("double"), Some(ArgumentType::Double));
    assert_eq!(ArgumentType::from_type_name("string"), Some(ArgumentType::String));
    assert_eq!(ArgumentType::from_type_name("u128"), None);
}

#[test]
fn managed_string_bytes() {
    let u8s = ManagedString::new_utf8("hé".to_string());
    assert_eq!(u8s.to_bytes(), vec![0x68, 0xC3, 0xA9]);
    assert_eq!(u8s.to_bytes_with_nul(), vec![0x68, 0xC3, 0xA9, 0]);
    let u16s = ManagedString::new("A\u{1F600}".to_string(), Encoding::Utf16);
    assert_eq!(u16s.to_bytes(), vec![0x41, 0x00, 0x3D, 0xD8, 0x00, 0xDE]);
    assert_eq!(u16s.to_bytes_with_nul(), vec![0x41, 0x00, 0x3D, 0xD8, 0x00, 0xDE, 0, 0]);
    assert_eq!(u16s.encoding(), Encoding::Utf16);
    assert_eq!(u16s.data(), "A\u{1F600}");
}

#[test]
fn call_view_keys() {
    assert_eq!(classify_view_key(&ViewKey::Index(2), false, false, true), ViewSlot::Argument(2));
    assert_eq!(classify_view_key(&ViewKey::Index(2), false, true, false), ViewSlot::Nothing);
    assert_eq!(classify_view_key(&ViewKey::Index(2), false, true, true), ViewSlot::Refused);
    assert_eq!(classify_view_key(&ViewKey::Name("retval".to_string()), false, true, true), ViewSlot::ReturnValue);
    assert_eq!(classify_view_key(&ViewKey::Name("retval".to_string()), false, false, false), ViewSlot::Scratch);
    assert_eq!(classify_view_key(&ViewKey::Other, false, false, false), ViewSlot::Scratch);
    assert_eq!(classify_view_key(&ViewKey::Name("rcx".to_string()), true, false, false), ViewSlot::Reg(Register::Rcx));
    assert_eq!(classify_view_key(&ViewKey::Name("ecx".to_string()), true, false, false), ViewSlot::Refused);
    assert_eq!(classify_view_key(&ViewKey::Index(0), true, false, false), ViewSlot::Refused);
}
