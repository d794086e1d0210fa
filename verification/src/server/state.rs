//! What all connections share.
use std::sync::Arc;
use vstd::prelude::*;
use crate::cache::lfu::{Cache, CacheState};
use crate::cache::matcher::QueryMatcher;
use crate::cache::Template;
use crate::config::DatabaseConfig;

verus! {

pub struct AppState {
    pub database_config: DatabaseConfig,
    pub matcher: Arc<QueryMatcher>,
    pub cache: Cache,
    /// For how many seconds responses are cached where a template does not say.
    pub global_ttl: u64,
}

/// What the planning of a session reads of an [`AppState`].
#[verifier::ext_equal]
pub struct Shared {
    pub templates: Map<Seq<char>, Template>,
    pub cache: CacheState,
    pub global_ttl: u64,
}

impl View for AppState {
    type V = Shared;

    open spec fn view(&self) -> Shared {
        Shared { templates: self.matcher@, cache: self.cache@, global_ttl: self.global_ttl }
    }
}

impl AppState {
    pub open spec fn wf(self) -> bool {
        self.cache.wf()
    }
}

} // verus!
