//! Time-of-day wallpaper scheduling: a circular schedule of entries, the
//! decisions of the loop that applies them, and the supervisor that restarts
//! that loop around system sleep.

pub mod config;
pub mod structs;
pub mod control;
