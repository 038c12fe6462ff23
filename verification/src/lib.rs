//! A debugger for Leo programs: breakpoints, stepping, the run of a call, and the terminal interface.

pub mod breakpoints;
pub mod debug;
pub mod debug_info;
pub mod debug_map;
pub mod hook;
pub mod laws;
pub mod layout;
pub mod literals;
pub mod locate;
pub mod panes;
pub mod paths;
pub mod precedence;
pub mod records;
pub mod session;
pub mod text;
pub mod tui;
pub mod vm;
