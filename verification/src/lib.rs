//! Inventory of the windows a user would call "open", and the rules that pick
//! which of them a bulk close may ask to close.
//!
//! The library works on plain snapshots: a list of processes and a list of
//! windows, as one poll found them. From these it works out the set of
//! applications that may be closed, and for a bulk close the windows to which
//! a close request goes. Reading the process table and the window list,
//! posting the requests and listening for the hotkey are left to the caller.

pub mod desktop;
pub mod hotkey;
pub mod name_list;
pub mod names;
pub mod process_list;
pub mod state;
pub mod text;

pub use desktop::{close_by_pid, get_hwnd_by_pid, is_pseudo_open_in_taskbar, Desktop, WindowInfo};
pub use hotkey::{hotkey_event, HotkeyEvent};
pub use name_list::NameList;
pub use names::{loosely_check_if_real_app, strip_file_extension};
pub use process_list::{AppEntry, ProcessList};
pub use state::{Expurgate, ProcessRecord, SavedState};
