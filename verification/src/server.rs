//! What the file server decides on its side of the wire: which names and paths it lets
//! through, which bytes a range asks for, what it records of a file, and the settings it
//! runs with.

pub mod browse;
pub mod catalog;
pub mod config;
pub mod template;
pub mod uploads;
pub mod utils;
