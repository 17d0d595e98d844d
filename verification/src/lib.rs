//! Verified core of a terminal color-scheme manager.
//!
//! The library keeps a palette of RGB triples cached on disk, resolves
//! named themes layered across two configuration roots and two variants,
//! and renders the OSC escape sequences that push a palette to live
//! pseudo-terminal devices.  Everything here is pure: file contents and
//! directory listings come in as byte vectors, and the callers perform
//! the actual reads and writes.

pub mod bytes;
pub mod cache;
pub mod hex;
pub mod lines;
pub mod reload;
pub mod terminal;
pub mod theme;
