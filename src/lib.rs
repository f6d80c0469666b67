//! Capture, compression and replay of keyboard and mouse macros.

pub mod keymap;
pub mod text;
pub mod event;
pub mod storage;
pub mod timeline;
pub mod player;
pub mod recorder;
