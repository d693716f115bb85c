//! A small static-site generator: turns a directory of templated HTML,
//! Markdown and opaque assets into an output tree, and in development mode
//! drives a watch/rebuild/reload loop.
//!
//! The library holds the logic: file classification, the component-slot
//! grammar and its substitution, reload-script injection, output-path
//! mapping, the watcher's event decisions and the pending-connection queue
//! drained by the reload broadcaster. I/O (directory walking, file reads
//! and writes, sockets) stays with the binary that embeds the library.

pub mod component;
pub mod errors;
pub mod inject;
pub mod paths;
pub mod relay;
pub mod tree;
pub mod slots;
pub mod text;
pub mod watch;
