//! Verified core of a desktop-workspace manager.
//!
//! The crate keeps several independent desktop profiles, each backed by its
//! own folder and a saved icon layout, and switches between them by
//! redirecting the OS desktop folder and (optionally) the OS virtual-desktop
//! slot.  Everything that decides or computes lives here and is verified;
//! the host application performs the file, registry and shell calls and
//! feeds their observations back in as plain values.

pub mod codec;
pub mod config;
pub mod hotkeys;
pub mod icons;
pub mod json;
pub mod layout;
pub mod manager;
pub mod paths;
pub mod state_codec;
pub mod text;
pub mod vdesk;
pub mod workspace;
pub mod world;
