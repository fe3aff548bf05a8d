//! Decision logic of a self-hosted media server.
//!
//! Everything the server decides stands here as functions on plain values:
//! how file names are read, what a scan has to redo, how a file is segmented
//! and delivered, who is in a watch party and where it plays. Disks, sockets,
//! databases and child processes belong to the program around the library.

pub mod analytics;
pub mod auth;
pub mod client;
pub mod clock;
pub mod decimal;
pub mod filename;
pub mod fingerprint;
pub mod hls;
pub mod ids;
pub mod library;
pub mod markers;
pub mod media_info;
pub mod mp4;
pub mod nfo;
pub mod numbers;
pub mod pages;
pub mod paths;
pub mod registration;
pub mod remux;
pub mod room_client;
pub mod scanner;
pub mod search;
pub mod subtitles;
pub mod syncplay;
pub mod text;
pub mod tools;
pub mod trickplay;
pub mod types;
pub mod users;
pub mod views;
pub mod watch;
