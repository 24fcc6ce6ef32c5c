//! Verified core of a voice dictation input method.
use vstd::prelude::*;

pub mod asr;
pub mod audio;
pub mod commands;
pub mod config;
pub mod ctl;
pub mod dbus;
pub mod endpoint;
pub mod files;
pub mod json;
pub mod lifecycle;
pub mod openai_compat;
pub mod outcomes;
pub mod outside;
pub mod pipeline;
pub mod prompt;
pub mod protocol;
pub mod secrets;
pub mod settings;
pub mod store;
pub mod text;
pub mod vocabulary;
pub mod worker;

verus! {

/// Well-known bus name of the dictation daemon.
pub const BUS_NAME: &'static str = "io.github.ddy314.NatsuTypeless";

/// Object path under which the daemon serves its interface.
pub const OBJECT_PATH: &'static str = "/io/github/ddy314/NatsuTypeless";

/// Name of the served interface.
pub const INTERFACE_NAME: &'static str = "io.github.ddy314.NatsuTypeless";

} // verus!
