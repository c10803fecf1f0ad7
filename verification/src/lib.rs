//! Verified core of a desktop-entry launcher: parsing desktop entries, the entry
//! database, launch plans and the rofi script-mode protocol.

pub mod assoc;
pub mod cli;
pub mod config;
pub mod entry;
pub mod entry_cache;
pub mod launch;
pub mod order;
pub mod rofi;
pub mod text;
