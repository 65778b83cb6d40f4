//! Core of a system-information "fetch" tool.
//!
//! - `stripes`: the stripe-weight banding algorithm.
//! - `template`, `asset`, `scheme`: compiling hand-written icons and looking
//!   icons and colour schemes up by name.
//! - `archive`: the binary archive of compiled icons and colour schemes.
//! - `colorizer`, `config`: the two colouring strategies and the settings
//!   that choose between them.
//! - `info`: the probe interface and the ordered records of a probing pass.
//! - `linux`, `gpu`, `macos`, `windows`: the text handling of the platform
//!   backends (parsing what the system reports, composing what is shown).
//! - `color`, `text`: shared value types and string helpers.

pub mod archive;
pub mod asset;
pub mod color;
pub mod colorizer;
pub mod config;
pub mod gpu;
pub mod info;
pub mod linux;
pub mod macos;
pub mod scheme;
pub mod stripes;
pub mod template;
pub mod text;
pub mod windows;
