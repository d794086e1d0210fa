//! Queries that come as a request of their own, with their parameters as JSON.
use vstd::prelude::*;
use crate::cache::store::{cache_key_wire, wire_key};
use crate::clock::Moment;
use crate::server::state::AppState;
use crate::wire::cache_planner::{get_from_cache, same_but_cache};
use crate::wire::messages::value_list;
use crate::wire::plan_model::after_lookup;

verus! {

/// The status of a request that cannot be served as it stands.
pub const BAD_REQUEST: u16 = 400;

pub const UNSUPPORTED_PARAMETER: &'static str = "Unsupported parameter type";

/// What kind of JSON value a parameter is.
#[derive(Clone, Copy, Debug, PartialEq, Eq, Structural)]
pub enum ParameterKind {
    Null,
    Boolean,
    /// A number that fits 64 bits with a sign.
    Integer,
    /// Any other number.
    OtherNumber,
    Text,
    Array,
    Object,
}

/// As what a parameter is bound to a query.
#[derive(Clone, Copy, Debug, PartialEq, Eq, Structural)]
pub enum ParameterBinding {
    Integer,
    Text,
    Boolean,
    Array,
    Float,
}

/// Why a request is refused.
#[derive(Debug)]
pub struct RequestError {
    pub status: u16,
    pub message: String,
}

/// As what a parameter of a kind is bound; none where it cannot be.
pub open spec fn binding_of(kind: ParameterKind) -> Option<ParameterBinding> {
    match kind {
        ParameterKind::Integer => Some(ParameterBinding::Integer),
        ParameterKind::Text => Some(ParameterBinding::Text),
        ParameterKind::Boolean => Some(ParameterBinding::Boolean),
        ParameterKind::Array => Some(ParameterBinding::Array),
        ParameterKind::OtherNumber => Some(ParameterBinding::Float),
        ParameterKind::Null | ParameterKind::Object => None,
    }
}

/// Finds as what a parameter is bound.
pub fn choose_binding(kind: &ParameterKind) -> (binding: Option<ParameterBinding>)
    ensures
        binding == binding_of(*kind),
{
    match kind {
        ParameterKind::Integer => Some(ParameterBinding::Integer),
        ParameterKind::Text => Some(ParameterBinding::Text),
        ParameterKind::Boolean => Some(ParameterBinding::Boolean),
        ParameterKind::Array => Some(ParameterBinding::Array),
        ParameterKind::OtherNumber => Some(ParameterBinding::Float),
        ParameterKind::Null => None,
        ParameterKind::Object => None,
    }
}

/// Finds as what each parameter is bound. One that cannot be bound is the end of the request.
pub fn bind_parameters(kinds: &Vec<ParameterKind>) -> (result: Result<
    Vec<ParameterBinding>,
    RequestError,
>)
    ensures
        match result {
            Ok(bindings) => bindings.len() == kinds.len() && forall|i: int|
                0 <= i < kinds.len() ==> binding_of(#[trigger] kinds[i]) == Some(bindings[i]),
            Err(error) => {
                &&& exists|i: int|
                    0 <= i < kinds.len() && binding_of(#[trigger] kinds[i]) is None
                &&& error.status == BAD_REQUEST
                &&& error.message@ == UNSUPPORTED_PARAMETER@
            },
        },
{
    let mut bindings: Vec<ParameterBinding> = Vec::new();
    let mut i: usize = 0;
    while i < kinds.len()
        invariant
            i <= kinds.len(),
            bindings.len() == i,
            forall|j: int| 0 <= j < i ==> binding_of(#[trigger] kinds[j]) == Some(bindings[j]),
        decreases kinds.len() - i,
    {
        match choose_binding(&kinds[i]) {
            Some(binding) => bindings.push(binding),
            None => {
                return Err(
                    RequestError {
                        status: BAD_REQUEST,
                        message: UNSUPPORTED_PARAMETER.to_string(),
                    },
                );
            },
        }
        i = i + 1;
    }
    Ok(bindings)
}

/// Under which key a query is looked up, and whether it was found.
pub struct QueryLookup {
    pub key: String,
    pub hit: bool,
}

/// Looks a query up in the cache, if it is to be cached. A parameter stands for its JSON text.
pub fn look_up_query(
    app_state: &mut AppState,
    sql: &str,
    params: &Vec<Option<Vec<u8>>>,
    now: Moment,
) -> (lookup: QueryLookup)
    requires
        old(app_state).wf(),
    ensures
        final(app_state).wf(),
        same_but_cache(*old(app_state), *final(app_state)),
        ({
            let key = wire_key(sql@, value_list(params@));
            let cached = old(app_state)@.templates.contains_key(sql@);
            &&& lookup.key@ == key
            &&& lookup.hit == (cached && old(app_state)@.cache.served(key, now) is Some)
            &&& final(app_state)@ == if cached {
                after_lookup(old(app_state)@, key, now)
            } else {
                old(app_state)@
            }
        }),
{
    let key: String = cache_key_wire(sql, params);
    let mut hit: bool = false;
    if app_state.matcher.find_template(sql).is_some() {
        hit = get_from_cache(app_state, key.as_str(), now).is_some();
    }
    QueryLookup { key, hit }
}

/// A parameter cannot be bound exactly if it is null or an object. Each other kind is bound as what
/// it is: a whole number as an integer and any other number as a float.
pub proof fn law_parameters_are_bound_as_what_they_are(kind: ParameterKind)
    ensures
        binding_of(kind) is None <==> kind == ParameterKind::Null || kind == ParameterKind::Object,
        binding_of(kind) == Some(ParameterBinding::Integer) <==> kind == ParameterKind::Integer,
        binding_of(kind) == Some(ParameterBinding::Float) <==> kind == ParameterKind::OtherNumber,
        binding_of(kind) == Some(ParameterBinding::Text) <==> kind == ParameterKind::Text,
        binding_of(kind) == Some(ParameterBinding::Boolean) <==> kind == ParameterKind::Boolean,
        binding_of(kind) == Some(ParameterBinding::Array) <==> kind == ParameterKind::Array,
{
}

} // verus!
