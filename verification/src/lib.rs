//! Watches one directory for files whose name matches a selector (a file
//! extension) and produces a single ordered sequence of matching paths:
//! first every matching file already present, then every matching file
//! created afterwards.
//!
//! The kernel event feed and the directory listing are I/O collaborators
//! supplied by the caller; this crate holds the verified decision logic:
//! which names match, which events yield a path, and how the one-shot
//! enumeration and the live event feed compose into one sequence.
//! Names and paths are raw bytes, as the operating system hands them over.

pub mod selector;
pub mod enumerate;
pub mod watch;
pub mod unified;
