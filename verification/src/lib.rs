//! A remote rescue shell: the decisions behind a shared terminal session.
pub mod access;
pub mod ansi;
pub mod ascii;
pub mod buffer;
pub mod common;
pub mod console;
pub mod helper;
pub mod io;
pub mod link;
pub mod osc_extractor;
pub mod osc_filter;
pub mod pairing;
pub mod protocol;
pub mod screen;
pub mod session;
pub mod shell;
pub mod strings;
pub mod text;
pub mod time;
pub mod util;
pub mod victim;
pub mod vt;
