//! Battery viewer core: decoding of the macOS battery registry entry, the
//! `pmset` cycle limit, command-line settings, key handling and the text of
//! the information panels.

pub mod text;
pub mod civil;
pub mod plist_model;
pub mod extras;
pub mod config;
pub mod events;
pub mod panels;
pub mod tabs;
