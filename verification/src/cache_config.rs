//! Cache configuration payloads, as exchanged with clients. Key material is
//! carried opaquely; signing itself stays outside this crate.

use vstd::prelude::*;

verus! {

/// A signing keypair, carried as opaque encoded text.
#[derive(Debug, Clone)]
pub struct Keypair {
    pub public_key: String,
    pub private_key: String,
}

/// How a new cache gets its keypair.
#[derive(Debug, Clone)]
pub enum KeypairConfig {
    /// Generate a fresh keypair server-side.
    Generate,
    /// Use the supplied keypair.
    Keypair(Keypair),
}

/// Retention policy of one cache.
#[derive(Debug, Clone, Copy, PartialEq, Eq, Structural)]
pub enum RetentionPeriodConfig {
    /// Follow the global default.
    Global,
    /// Keep objects for this many seconds.
    Period(u32),
}

/// A request to create a cache.
#[derive(Debug, Clone)]
pub struct CreateCacheRequest {
    pub keypair: KeypairConfig,
    pub is_public: bool,
    pub store_dir: String,
    pub priority: i32,
    pub upstream_cache_key_names: Vec<String>,
}

/// Partial cache configuration: absent fields are left unchanged.
#[derive(Debug, Clone)]
pub struct CacheConfig {
    pub keypair: Option<KeypairConfig>,
    pub substituter_endpoint: Option<String>,
    pub api_endpoint: Option<String>,
    pub public_key: Option<String>,
    pub is_public: Option<bool>,
    pub store_dir: Option<String>,
    pub priority: Option<i32>,
    pub upstream_cache_key_names: Option<Vec<String>>,
    pub retention_period: Option<RetentionPeriodConfig>,
}

impl CacheConfig {
    /// A configuration that changes nothing: every field absent.
    pub fn blank() -> (r: CacheConfig)
        ensures
            r.keypair is None,
            r.substituter_endpoint is None,
            r.api_endpoint is None,
            r.public_key is None,
            r.is_public is None,
            r.store_dir is None,
            r.priority is None,
            r.upstream_cache_key_names is None,
            r.retention_period is None,
    {
        CacheConfig {
            keypair: Option::None,
            substituter_endpoint: Option::None,
            api_endpoint: Option::None,
            public_key: Option::None,
            is_public: Option::None,
            store_dir: Option::None,
            priority: Option::None,
            upstream_cache_key_names: Option::None,
            retention_period: Option::None,
        }
    }
}

} // verus!
