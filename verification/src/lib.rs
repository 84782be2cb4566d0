//! Verified core of a dark-mode injector for desktop applications: window
//! classification, colour configuration and colour remapping rules, the
//! planning of window recolouring, PE import-table scanning over a module
//! image, and the bookkeeping state machines of the hook and watcher sides.
//! Everything that touches the operating system lives outside this crate and
//! hands plain values in and out.

pub mod text;
pub mod classify;
pub mod win32;
pub mod config;
pub mod patch;
pub mod gdihook;
pub mod color;
pub mod lossy;
pub mod iat;
pub mod shared_state;
pub mod cairohook;
pub mod hook;
pub mod enum_windows;
pub mod worker;
pub mod scanner;
pub mod watcher;
