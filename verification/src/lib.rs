//! Verified core of a live-stream television proxy.
pub mod foreign;
pub mod text;
pub mod m3u8;
pub mod db;
pub mod store;
pub mod cache;
pub mod state;
pub mod native;
pub mod reply;
pub mod cctv;
pub mod provincial;
pub mod gateway;
pub mod browser;
pub mod startup;
