//! A price-oracle relay library.
//!
//! The library fetches nothing itself: it holds the logic of a single-shot
//! relay run — picking a price-feed provider from the clock, extracting a
//! USD price from each provider's response data, normalizing it to a
//! fixed-point integer, and planning the on-chain submission — all with
//! verified contracts. The surrounding binary performs the HTTP, keystore
//! and RPC work and feeds plain values in and out.

pub mod adapters;
pub mod decimal;
pub mod errors;
pub mod orchestrate;
pub mod quotes;
pub mod selector;
pub mod splitbytes;
pub mod submit;
