//! The keys under which responses are cached.
use vstd::prelude::*;
use crate::text::{hex, law_hex_tells_bytes_apart, lemma_hex, push_hex};
use crate::wire::messages::{optional_bytes, value_list};

verus! {

/// How a parameter value stands in a key: `n` for null, else `v` and the bytes in hexadecimal.
pub open spec fn value_key(value: Option<Seq<u8>>) -> Seq<char> {
    match value {
        None => seq!['n'],
        Some(bytes) => seq!['v'] + hex(bytes),
    }
}

/// The key of `query` with the parameter values `values`: the values, `q`, the text of the query.
pub open spec fn wire_key(query: Seq<char>, values: Seq<Option<Seq<u8>>>) -> Seq<char>
    decreases values.len(),
{
    if values.len() == 0 {
        seq!['q'] + query
    } else {
        value_key(values[0]) + wire_key(query, values.skip(1))
    }
}

/// The key under which the response to `query` with the parameter values `params` is cached.
pub fn cache_key_wire(query: &str, params: &Vec<Option<Vec<u8>>>) -> (key: String)
    ensures
        key@ == wire_key(query@, value_list(params@)),
{
    let mut key: String = String::new();
    let mut i: usize = 0;
    let ghost values = value_list(params@);
    assert(values.skip(0) =~= values);
    assert(key@ + wire_key(query@, values) =~= wire_key(query@, values));
    while i < params.len()
        invariant
            i <= params.len(),
            values == value_list(params@),
            key@ + wire_key(query@, values.skip(i as int)) == wire_key(query@, values),
        decreases params.len() - i,
    {
        let ghost before = key@;
        let ghost rest = values.skip(i as int);
        proof {
            reveal_strlit("n");
            reveal_strlit("v");
            assert(rest[0] == optional_bytes(params[i as int]));
            assert(rest.skip(1) =~= values.skip(i + 1));
        }
        match &params[i] {
            None => {
                key.append("n");
                assert("n"@ =~= seq!['n']);
            },
            Some(bytes) => {
                key.append("v");
                push_hex(&mut key, bytes);
                assert("v"@ =~= seq!['v']);
                assert(key@ =~= before + (seq!['v'] + hex(bytes@)));
            },
        }
        proof {
            assert(key@ + wire_key(query@, rest.skip(1)) =~= before + wire_key(query@, rest));
        }
        i = i + 1;
    }
    proof {
        reveal_strlit("q");
        assert("q"@ =~= seq!['q']);
    }
    let ghost before = key@;
    key.append("q");
    key.append(query);
    assert(key@ =~= before + (seq!['q'] + query@));
    key
}

/// Two keys are the same only for the same query with the same parameter values.
pub proof fn law_keys_tell_queries_apart(
    query: Seq<char>,
    values: Seq<Option<Seq<u8>>>,
    other_query: Seq<char>,
    other_values: Seq<Option<Seq<u8>>>,
)
    requires
        wire_key(query, values) == wire_key(other_query, other_values),
    ensures
        query == other_query,
        values == other_values,
    decreases values.len(),
{
    let key = wire_key(query, values);
    if values.len() == 0 {
        assert(key[0] == 'q');
        assert(other_values.len() == 0);
        assert(query =~= key.skip(1));
        assert(other_query =~= key.skip(1));
        assert(values =~= other_values);
    } else {
        assert(key[0] == value_key(values[0])[0]);
        assert(other_values.len() > 0);
        let rest = wire_key(query, values.skip(1));
        let other_rest = wire_key(other_query, other_values.skip(1));
        lemma_key_start(query, values.skip(1));
        lemma_key_start(other_query, other_values.skip(1));
        match (values[0], other_values[0]) {
            (Some(bytes), Some(other_bytes)) => {
                lemma_hex(bytes);
                lemma_hex(other_bytes);
                let ours = hex(bytes);
                let theirs = hex(other_bytes);
                assert(key.skip(1) =~= ours + rest);
                assert(key.skip(1) =~= theirs + other_rest);
                if ours.len() < theirs.len() {
                    assert((ours + rest)[ours.len() as int] == rest[0]);
                    assert((theirs + other_rest)[ours.len() as int] == theirs[ours.len() as int]);
                    assert(false);
                }
                if theirs.len() < ours.len() {
                    assert((theirs + other_rest)[theirs.len() as int] == other_rest[0]);
                    assert((ours + rest)[theirs.len() as int] == ours[theirs.len() as int]);
                    assert(false);
                }
                assert(ours =~= key.skip(1).take(ours.len() as int));
                assert(theirs =~= key.skip(1).take(ours.len() as int));
                assert(rest =~= key.skip(1).skip(ours.len() as int));
                assert(other_rest =~= key.skip(1).skip(ours.len() as int));
                law_hex_tells_bytes_apart(bytes, other_bytes);
            },
            (None, None) => {
                assert(rest =~= key.skip(1));
                assert(other_rest =~= key.skip(1));
            },
            _ => {
                assert(false);
            },
        }
        law_keys_tell_queries_apart(query, values.skip(1), other_query, other_values.skip(1));
        assert(values =~= seq![values[0]] + values.skip(1));
        assert(other_values =~= seq![other_values[0]] + other_values.skip(1));
    }
}

proof fn lemma_key_start(query: Seq<char>, values: Seq<Option<Seq<u8>>>)
    ensures
        wire_key(query, values).len() > 0,
        wire_key(query, values)[0] == 'n' || wire_key(query, values)[0] == 'v' || wire_key(
            query,
            values,
        )[0] == 'q',
{
}

} // verus!
