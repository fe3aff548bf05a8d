//! What the tools beside the server decide.

pub mod cleanup;
pub mod cli;
pub mod jellyfin;
