//! Scanning a library: which files there are, what is known of them, and what has to be
//! done again.

pub mod files;
pub mod index;
pub mod progress;
pub mod run;
pub mod stale;
