//! What is cached, and for which queries.
pub mod laws;
pub mod lfu;
pub mod matcher;
pub mod store;

use vstd::prelude::*;

verus! {

/// A query whose responses are cached.
#[derive(Debug)]
pub struct QueryTemplate {
    pub sql: String,
    /// For how many seconds; where it is missing, the setting for all queries holds.
    pub ttl: Option<u64>,
}

/// What a [`QueryTemplate`] says.
pub struct Template {
    pub sql: Seq<char>,
    pub ttl: Option<u64>,
}

impl View for QueryTemplate {
    type V = Template;

    open spec fn view(&self) -> Template {
        Template { sql: self.sql@, ttl: self.ttl }
    }
}

impl Clone for QueryTemplate {
    fn clone(&self) -> (copy: Self)
        ensures
            copy@ == self@,
    {
        QueryTemplate { sql: self.sql.clone(), ttl: self.ttl }
    }
}

} // verus!
