//! A runtime core for a script host embedded in another process: a resolver that
//! finds code by byte signatures, a dispatcher that multiplexes logical hooks onto
//! physical interception points, a registry of native extensions, and a manager of
//! script sandboxes that owns hooks and memory patches.
pub mod error;
pub mod text;
pub mod pattern;
pub mod memory;
pub mod address;
pub mod dispatcher;
pub mod patch;
pub mod sandbox;
pub mod shared;
pub mod extension;
pub mod runtime;
pub mod command;
pub mod config;
pub mod ffi;
pub mod game;
pub mod input;
pub mod string;
pub mod utility;
pub mod version;
