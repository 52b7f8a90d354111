//! A terminal reader for 5ch-style bulletin boards: the verified core.
//!
//! The modules hold the text formats the reader speaks (board menu,
//! `subject.txt`, DAT logs, local caches, form bodies), the state machine of
//! the user interface, and the decisions taken around each network or disk
//! operation.  Every operation that touches the network, the disk or the
//! terminal is performed by the application around this library.

pub mod text;
pub mod types;
pub mod sjis;
pub mod posts;
pub mod threads;
pub mod order;
pub mod boards;
pub mod posting;
pub mod image;
pub mod ansi;
pub mod lists;
pub mod state;
pub mod reading;
pub mod compose;
pub mod flow;
pub mod display;
pub mod debug;
pub mod paths;
pub mod keys;
