//! Recovers a short-lived, authenticated gacha-history URL from a local game
//! log and pages through the provider's history API, normalizing and
//! de-duplicating records across banner categories into one ordered result.

pub mod error;
pub mod log_parser;
pub mod text;
pub mod weburl;
pub mod wish_fetcher;
