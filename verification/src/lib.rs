//! The decisions behind a text editor's contact with the outside: files and
//! commands that reach it from the system, from other processes and from menus.
//!
//! The functions work on plain values and say what is to be done; windows, sockets
//! and the file system are left to the program around them.

pub mod assets;
pub mod dock;
pub mod external_sources;
pub mod file_path;
pub mod focus;
pub mod fulgur;
pub mod ipc;
pub mod menu;
pub mod open_request;
pub mod pending;
pub mod search;
pub mod startup;
pub mod text;
pub mod window_activation;
