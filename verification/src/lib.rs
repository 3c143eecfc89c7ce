//! The decisions of a Wi-Fi access-point control daemon, verified.
//!
//! The daemon around this library runs the system's tools and serves
//! requests; the library decides. It takes and returns plain values:
//! configuration text, the output of a tool, the arguments of the next
//! command.
//!
//! - [`text`]: trimming, splitting and the like, over characters.
//! - [`entries`]: the ordered key/value store.
//! - [`config`]: the configuration text format and the rules a
//!   configuration must obey.
//! - [`settings`]: merging a partial settings update into the
//!   configuration.
//! - [`nm`] and [`connection`]: what the network manager reports, and the
//!   commands that change its connections.
//! - [`resolve`]: which interface carries the primary connectivity.
//! - [`hotspot`]: the access-point service and the stale interfaces it can
//!   leave behind.
//! - [`services`], [`auth`], [`api`]: managed services, the access token,
//!   and what the request handlers decide.

pub mod api;
pub mod auth;
pub mod config;
pub mod connection;
pub mod entries;
pub mod hotspot;
pub mod nm;
pub mod resolve;
pub mod services;
pub mod settings;
pub mod text;
