//! Session registries and streaming-event logic for pseudo-terminal sessions
//! and filesystem watches.

pub mod base64;
pub mod event;
pub mod files;
pub mod introspect;
pub mod probe;
pub mod pty;
pub mod reader;
pub mod registry;
pub mod text;
pub mod watcher;
pub mod writer;
