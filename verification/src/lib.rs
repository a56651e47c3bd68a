//! The logic of a background-freeze daemon for Android: which processes of the
//! managed applications to freeze and to release, the bookkeeping of frozen processes
//! and of the status view, the reading of `/proc` files, the in-memory log, and the
//! request handling of the web UI.

pub mod cli;
pub mod config;
pub mod engine;
pub mod httpd;
pub mod logger;
pub mod sys;
pub mod text;
