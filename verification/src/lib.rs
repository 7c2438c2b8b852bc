//! Published-page snapshots and view sharing, with their rules stated and proved.

pub mod database;
pub mod delta;
pub mod document;
pub mod dto;
pub mod ids;
pub mod json;
pub mod parse;
pub mod sharing;
pub mod slate;
pub mod snapshot;
