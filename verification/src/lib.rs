//! Content-addressed binary cache core: validated store-path identifiers,
//! content hashes with a canonical text form, the line-oriented manifest
//! codec and its round-trip law, the chunked deduplication store, and the
//! upload protocol framing rules.
#![allow(unused_imports)]

use vstd::prelude::*;

pub mod access;
pub mod api;
pub mod cache;
pub mod cache_config;
pub mod chunking;
pub mod dedup;
pub mod entity;
pub mod error;
pub mod hash;
pub mod narinfo;
pub mod nix_manifest;
pub mod nix_store;
pub mod server_error;
pub mod text;
pub mod upload_path;
