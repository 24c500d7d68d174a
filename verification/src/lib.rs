//! Verified core of a storage appliance daemon: the parsers for the text that
//! system tools and kernel files produce, the rules that decide which records
//! are shown, and the commands and configuration text that the daemon writes.

pub mod harness;
pub mod named_map;
pub mod num;
pub mod services;
pub mod text;
