//! Verified core of PIVSS, a P2P incentivized versioned storage service.
pub mod announce;
pub mod api;
pub mod client;
pub mod config;
pub mod crypto;
pub mod discover;
pub mod history;
pub mod json;
pub mod lists;
pub mod ln;
pub mod manifest;
pub mod nostr;
pub mod order;
pub mod outcomes;
pub mod outside;
pub mod proto;
pub mod seeder;
pub mod server;
pub mod state;
pub mod storage_proof;
pub mod store;
pub mod text;
pub mod torrent;
