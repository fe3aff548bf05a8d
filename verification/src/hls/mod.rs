//! Segmented delivery: the plan of a file's segments, the playlist, the cache
//! layout, and the rules by which encoders are started and throttled.

pub mod cache;
pub mod command;
pub mod hwenc;
pub mod package;
pub mod plan;
pub mod playlist;
pub mod producer;
pub mod request;
