//! The parts of the persisted configuration that the runtime decides on.
use vstd::prelude::*;

use crate::input::KeyCode;

verus! {

/// Log verbosity, as the extension ABI numbers it.
#[derive(Clone, Copy, Debug, PartialEq, Eq, Structural, Hash)]
pub enum LogLevel {
    Trace,
    Debug,
    Info,
    Warn,
    Error,
}

/// The number of a level in the extension ABI.
pub open spec fn level_code(l: LogLevel) -> i32 {
    match l {
        LogLevel::Trace => 0,
        LogLevel::Debug => 1,
        LogLevel::Info => 2,
        LogLevel::Warn => 3,
        LogLevel::Error => 4,
    }
}

impl LogLevel {
    /// The level's number in the extension ABI.
    pub fn code(self) -> (r: i32)
        ensures
            r == level_code(self),
    {
        match self {
            LogLevel::Trace => 0,
            LogLevel::Debug => 1,
            LogLevel::Info => 2,
            LogLevel::Warn => 3,
            LogLevel::Error => 4,
        }
    }

    /// The level numbered `code`.
    pub fn from_repr(code: i32) -> (r: Option<LogLevel>)
        ensures
            match r {
                Some(l) => level_code(l) == code,
                None => code < 0 || code > 4,
            },
    {
        match code {
            0 => Some(LogLevel::Trace),
            1 => Some(LogLevel::Debug),
            2 => Some(LogLevel::Info),
            3 => Some(LogLevel::Warn),
            4 => Some(LogLevel::Error),
            _ => None,
        }
    }
}

/// The level used where the configuration names none.
pub fn default_log_level() -> (r: LogLevel)
    ensures
        r == LogLevel::Info,
{
    LogLevel::Info
}

/// The key that opens the menu where the configuration names none.
pub fn default_menu_key() -> (r: KeyCode)
    ensures
        r == KeyCode::F7,
{
    KeyCode::F7
}

/// Logging settings.
#[derive(Clone, Copy, Debug, PartialEq, Eq, Structural)]
pub struct LogConfig {
    pub level: LogLevel,
}

impl LogConfig {
    pub fn new() -> (r: LogConfig)
        ensures
            r.level == LogLevel::Info,
    {
        LogConfig { level: default_log_level() }
    }
}

/// Script settings: the names of the scripts not to load.
#[derive(Clone, Debug, PartialEq, Eq)]
pub struct ScriptsConfig {
    pub disabled_scripts: Vec<String>,
}

impl ScriptsConfig {
    pub fn new() -> (r: ScriptsConfig)
        ensures
            r.disabled_scripts@.len() == 0,
    {
        ScriptsConfig { disabled_scripts: Vec::new() }
    }
}

/// Where a configuration file holds a version this runtime does not know.
pub fn is_supported_version(version: i32) -> (r: bool)
    ensures
        r == (version == 1),
{
    version == 1
}

} // verus!
