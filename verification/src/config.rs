//! The settings.
use vstd::prelude::*;
use crate::cache::QueryTemplate;

verus! {

#[derive(Debug)]
pub struct Config {
    pub database: DatabaseConfig,
    pub queries: Vec<QueryTemplate>,
    pub cache: CacheConfig,
    pub server: ServerConfig,
}

#[derive(Debug)]
pub struct DatabaseConfig {
    pub url: String,
    pub host: String,
    pub port: String,
    pub user: String,
    pub password: String,
    pub database: String,
}

impl Clone for DatabaseConfig {
    fn clone(&self) -> (copy: Self)
        ensures
            copy == *self,
    {
        DatabaseConfig {
            url: self.url.clone(),
            host: self.host.clone(),
            port: self.port.clone(),
            user: self.user.clone(),
            password: self.password.clone(),
            database: self.database.clone(),
        }
    }
}

impl DatabaseConfig {
    /// Where the database listens: its host and its port.
    pub fn address(&self) -> (address: String)
        ensures
            address@ == self.host@ + ":"@ + self.port@,
    {
        let mut address: String = self.host.clone();
        address.append(":");
        address.append(self.port.as_str());
        address
    }
}

#[derive(Debug, PartialEq, Eq)]
pub struct CacheSettings {
    pub global_ttl: u64,
    pub cache_size: u64,
    pub cache_shards: usize,
}

#[derive(Debug)]
pub struct CacheConfig {
    pub global_ttl: Option<u64>,
    pub max_size_mib: Option<u64>,
    pub cache_shards: Option<u8>,
}

impl CacheConfig {
    /// The settings of the cache: what is configured, else 60 seconds, 100 MiB and 16 shards.
    pub fn get_cache_settings(&self) -> (settings: CacheSettings)
        ensures
            settings.global_ttl == self.global_ttl.unwrap_or(60),
            settings.cache_size == self.max_size_mib.unwrap_or(100),
            settings.cache_shards == self.cache_shards.unwrap_or(16),
    {
        let global_ttl: u64 = match self.global_ttl {
            Some(ttl) => ttl,
            None => 60,
        };
        let cache_size: u64 = match self.max_size_mib {
            Some(size) => size,
            None => 100,
        };
        let cache_shards: usize = match self.cache_shards {
            Some(shards) => shards as usize,
            None => 16,
        };
        CacheSettings { global_ttl, cache_size, cache_shards }
    }
}

#[derive(Debug)]
pub struct ServerConfig {
    pub port: u16,
    pub https_port: Option<u16>,
    pub tls_cert_path: Option<String>,
    pub tls_key_path: Option<String>,
}

} // verus!
