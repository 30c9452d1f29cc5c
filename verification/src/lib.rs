//! The decisions of a caching proxy in front of Giphy's search and media.
//!
//! Everything the proxy decides or computes is here. What talks to the network
//! or the disk calls this library and carries out what it answers.

pub mod answering_laws;
pub mod auth;
pub mod auth_laws;
pub mod config;
pub mod disk_cache;
pub mod disk_cache_laws;
pub mod downloads;
pub mod giphy;
pub mod index_laws;
pub mod media;
pub mod media_laws;
pub mod order;
pub mod query;
pub mod query_laws;
pub mod recency;
pub mod search;
pub mod search_laws;
pub mod serving_laws;
pub mod sharing_laws;
pub mod status;
pub mod text;
pub mod text_laws;
