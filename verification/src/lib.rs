//! Decides which image files of watched directories are uploaded, and under which name.

pub mod classify;
pub mod config;
pub mod event_handler;
pub mod identity;
pub mod path_match;
pub mod pattern_laws;
pub mod scan;
pub mod tags;
pub mod text;
pub mod upload;
