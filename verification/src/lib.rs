//! Rank overlay for matches on the wmpvp platform: the rules behind the pages.
//!
//! Everything here is a function of plain values. Sockets, files, clocks and windows are left to
//! the program around the library, which hands events in and carries out the actions that come
//! back.

pub mod config;
pub mod connection;
pub mod console;
pub mod datalog;
pub mod form;
pub mod json;
pub mod kills;
pub mod mock;
pub mod monitor;
pub mod number;
pub mod plugin;
pub mod rank;
pub mod server;
pub mod session;
pub mod source;
pub mod state;
pub mod status;
pub mod table;
pub mod text;
pub mod wmpvp;
