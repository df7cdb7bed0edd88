//! Lodestar: an authoritative DNS server and zone administration, verified.
pub mod addr;
pub mod auth;
pub mod config;
pub mod digits;
pub mod dns;
pub mod handlers;
pub mod ids;
pub mod laws;
pub mod order;
pub mod seed;
pub mod store;
pub mod text;
pub mod zonefile;

pub use crate::ids::{new_id, now_secs};
