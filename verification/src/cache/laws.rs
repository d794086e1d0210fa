//! What holds of the cache whatever is asked of it.
use vstd::prelude::*;
use vstd::utf8::encode_utf8;
use crate::cache::lfu::{
    accounted_size, home, lemma_lookup_valid, lemma_shard_replaced, lemma_share, lemma_total_same,
    lemma_with_entry, lemma_with_room, lemma_without, total_entries, total_used, CacheState,
    ResponseBytes, ShardState,
};
use crate::clock::Moment;

verus! {

/// Whatever is asked of a cache, it stays in order: each key in its own shard and listed once, and
/// no shard over its bounds. The shards keep their number and size.
pub proof fn law_operations_keep_order(
    cache: CacheState,
    key: Seq<char>,
    response: ResponseBytes,
    expires_at: Moment,
    now: Moment,
)
    requires
        cache.valid(),
    ensures
        cache.after_get(key, now).valid(),
        cache.without(key).valid(),
        cache.with_entry(key, response, expires_at).valid(),
        cache.after_get(key, now).shards.len() == cache.shards.len(),
        cache.without(key).shards.len() == cache.shards.len(),
        cache.with_entry(key, response, expires_at).shards.len() == cache.shards.len(),
        forall|i: int|
            #![trigger cache.shards[i]]
            0 <= i < cache.shards.len() ==> {
                &&& cache.after_get(key, now).shards[i].max_size == cache.shards[i].max_size
                &&& cache.without(key).shards[i].max_size == cache.shards[i].max_size
                &&& cache.with_entry(key, response, expires_at).shards[i].max_size
                    == cache.shards[i].max_size
            },
{
    let shard = cache.shard_of(key);
    assert(0 <= home(key, cache.shards.len() as usize) < cache.shards.len());
    lemma_lookup_valid(shard, key, now);
    lemma_without(shard.after_lookup(key, now), key);
    lemma_without(shard, key);
    lemma_with_entry(shard, key, response, expires_at);
    lemma_shard_replaced(cache, key, shard.after_lookup(key, now).without_expired(key, now));
    lemma_shard_replaced(cache, key, shard.without(key));
    lemma_shard_replaced(cache, key, shard.with_entry(key, response, expires_at));
}

/// A cache never holds more bytes than its shards may hold together.
pub proof fn law_size_is_bounded(cache: CacheState)
    requires
        cache.valid(),
    ensures
        total_used(cache.shards) <= cache.shards.len() * cache.shards[0].max_size,
{
    lemma_total_bounded(cache, cache.shards.len() as int);
    assert(cache.shards.take(cache.shards.len() as int) =~= cache.shards);
}

proof fn lemma_total_bounded(cache: CacheState, count: int)
    requires
        cache.valid(),
        0 <= count <= cache.shards.len(),
    ensures
        total_used(cache.shards.take(count)) <= count * cache.shards[0].max_size,
    decreases count,
{
    if count > 0 {
        lemma_total_bounded(cache, count - 1);
        assert(cache.shards.take(count).drop_last() =~= cache.shards.take(count - 1));
        assert(cache.shards.take(count).last() == cache.shards[count - 1]);
        lemma_share(count - 1, cache.shards.len() as int, cache.shards[0].max_size as int);
    }
}

/// What was put in is served until it expires, if it fits a shard at all.
pub proof fn law_insert_then_get(
    cache: CacheState,
    key: Seq<char>,
    response: ResponseBytes,
    expires_at: Moment,
    now: Moment,
)
    requires
        cache.valid(),
        accounted_size(key, response) <= cache.shard_of(key).max_size,
        !expires_at.before(now),
    ensures
        cache.with_entry(key, response, expires_at).served(key, now) == Some(response),
{
    assert(0 <= home(key, cache.shards.len() as usize) < cache.shards.len());
}

/// What was put in is not served once it has expired, and asking for it then drops it.
pub proof fn law_expired_is_not_served(
    cache: CacheState,
    key: Seq<char>,
    response: ResponseBytes,
    expires_at: Moment,
    now: Moment,
)
    requires
        cache.valid(),
        accounted_size(key, response) <= cache.shard_of(key).max_size,
        expires_at.before(now),
    ensures
        cache.with_entry(key, response, expires_at).served(key, now) is None,
        !cache.with_entry(key, response, expires_at).after_get(key, now).shard_of(
            key,
        ).entries.contains_key(key),
{
    assert(0 <= home(key, cache.shards.len() as usize) < cache.shards.len());
}

/// What is larger than a shard is not taken in, and drives nothing out.
pub proof fn law_oversize_changes_nothing(
    cache: CacheState,
    key: Seq<char>,
    response: ResponseBytes,
    expires_at: Moment,
)
    requires
        cache.valid(),
        accounted_size(key, response) > cache.shard_of(key).max_size,
    ensures
        cache.with_entry(key, response, expires_at) == cache,
{
    assert(cache.with_entry(key, response, expires_at).shards =~= cache.shards);
}

/// What was removed is not served.
pub proof fn law_remove_then_get(cache: CacheState, key: Seq<char>, now: Moment)
    requires
        cache.valid(),
    ensures
        cache.without(key).served(key, now) is None,
{
    assert(0 <= home(key, cache.shards.len() as usize) < cache.shards.len());
}

/// Asking for a key or removing it changes nothing of what is held under another.
pub proof fn law_other_keys_stay(
    cache: CacheState,
    key: Seq<char>,
    other: Seq<char>,
    now: Moment,
    later: Moment,
)
    requires
        cache.valid(),
        key != other,
    ensures
        cache.after_get(key, now).served(other, later) == cache.served(other, later),
        cache.without(key).served(other, later) == cache.served(other, later),
{
    assert(0 <= home(key, cache.shards.len() as usize) < cache.shards.len());
    assert(0 <= home(other, cache.shards.len() as usize) < cache.shards.len());
}

/// Putting an entry in touches no other shard.
pub proof fn law_other_shards_stay(
    cache: CacheState,
    key: Seq<char>,
    other: Seq<char>,
    response: ResponseBytes,
    expires_at: Moment,
)
    requires
        cache.valid(),
        home(key, cache.shards.len() as usize) != home(other, cache.shards.len() as usize),
    ensures
        cache.with_entry(key, response, expires_at).shard_of(other) == cache.shard_of(other),
{
    assert(0 <= home(other, cache.shards.len() as usize) < cache.shards.len());
}

/// A hit counts one use and changes nothing else; a miss changes nothing.
pub proof fn law_hit_counts_one_use(shard: ShardState, key: Seq<char>, now: Moment)
    requires
        shard.valid(),
    ensures
        shard.served(key, now) is None ==> shard.after_lookup(key, now) == shard,
        shard.served(key, now) is Some ==> {
            let after = shard.after_lookup(key, now);
            &&& shard.entries[key].counter < u64::MAX ==> after.entries[key].counter
                == shard.entries[key].counter + 1
            &&& after.entries[key].response == shard.entries[key].response
            &&& after.entries[key].expires_at == shard.entries[key].expires_at
            &&& after.entries.remove(key) == shard.entries.remove(key)
            &&& after.order == shard.order
            &&& after.used() == shard.used()
            &&& after.max_size == shard.max_size
        },
{
    let after = shard.after_lookup(key, now);
    if shard.served(key, now) is Some {
        assert(after.entries.remove(key) =~= shard.entries.remove(key));
        lemma_total_same(shard.order, shard.entries, after.entries);
    }
}

/// An entry that takes the place of another under its key keeps that one's count.
pub proof fn law_reinsertion_keeps_the_count(
    shard: ShardState,
    key: Seq<char>,
    response: ResponseBytes,
    expires_at: Moment,
)
    requires
        shard.valid(),
        shard.entries.contains_key(key),
    ensures
        shard.with_entry(key, response, expires_at).entries[key].counter
            == shard.entries[key].counter,
{
}

/// An eviction takes out one entry, of those that are used least, and leaves the others as they
/// are.
pub proof fn law_eviction_takes_the_least_used(shard: ShardState)
    requires
        shard.valid(),
        shard.order.len() > 0,
    ensures
        shard.entries.contains_key(shard.victim()),
        forall|key: Seq<char>| #[trigger]
            shard.entries.contains_key(key) ==> shard.entries[shard.victim()].counter
                <= shard.entries[key].counter,
        shard.evicted().entries == shard.entries.remove(shard.victim()),
        shard.evicted().order.len() == shard.order.len() - 1,
        shard.evicted().valid(),
{
    shard.lemma_least_used(shard.order.len());
    assert(shard.order.contains(shard.victim()));
    lemma_without(shard, shard.victim());
    assert forall|key: Seq<char>| #[trigger] shard.entries.contains_key(key) implies shard.entries[
    shard.victim()].counter <= shard.entries[key].counter by {
        assert(shard.order.contains(key));
        let i = choose|i: int| 0 <= i < shard.order.len() && shard.order[i] == key;
        assert(shard.entries[shard.order[i]] == shard.entries[key]);
    }
}

/// Where a new entry fits beside the others, none is driven out.
pub proof fn law_nothing_is_evicted_in_vain(
    shard: ShardState,
    key: Seq<char>,
    response: ResponseBytes,
    expires_at: Moment,
)
    requires
        shard.valid(),
        shard.without(key).used() + accounted_size(key, response) <= shard.max_size,
    ensures
        shard.with_entry(key, response, expires_at).entries.remove(key) == shard.entries.remove(
            key,
        ),
{
    lemma_without(shard, key);
    assert(shard.with_entry(key, response, expires_at).entries.remove(key) =~= shard.entries.remove(
        key,
    ));
}

/// What a new entry drives out was used no more than what it leaves, and what it leaves is as it
/// was.
pub proof fn law_what_is_driven_out(
    shard: ShardState,
    key: Seq<char>,
    response: ResponseBytes,
    expires_at: Moment,
    out: Seq<char>,
    kept: Seq<char>,
)
    requires
        shard.valid(),
        kept != key,
        out != key,
        shard.with_entry(key, response, expires_at).entries.contains_key(kept),
        shard.entries.contains_key(out),
        !shard.with_entry(key, response, expires_at).entries.contains_key(out),
    ensures
        shard.entries.contains_key(kept),
        shard.with_entry(key, response, expires_at).entries[kept] == shard.entries[kept],
        shard.entries[out].counter <= shard.entries[kept].counter,
{
    let rest = shard.without(key);
    let size = accounted_size(key, response);
    lemma_without(shard, key);
    lemma_with_room(rest, size);
    lemma_driven_out(rest, size, out, kept);
}

proof fn lemma_driven_out(shard: ShardState, size: nat, out: Seq<char>, kept: Seq<char>)
    requires
        shard.valid(),
        shard.with_room(size).entries.contains_key(kept),
        shard.entries.contains_key(out),
        !shard.with_room(size).entries.contains_key(out),
    ensures
        shard.entries.contains_key(kept),
        shard.entries[out].counter <= shard.entries[kept].counter,
    decreases shard.order.len(),
{
    lemma_with_room(shard, size);
    if shard.order.len() > 0 && shard.used() + size > shard.max_size {
        law_eviction_takes_the_least_used(shard);
        if out != shard.victim() {
            lemma_driven_out(shard.evicted(), size, out, kept);
        }
        lemma_with_room(shard.evicted(), size);
    }
}

/// The size of an entry counts every byte of its response and of its key, and 24 more for its
/// counter and its expiry.
pub proof fn law_size_counts_every_part(key: Seq<char>, response: ResponseBytes)
    ensures
        accounted_size(key, response) == response.data.len() + (if response.row_desc is Some {
            response.row_desc->0.len()
        } else {
            0
        }) + (if response.param_desc is Some {
            response.param_desc->0.len()
        } else {
            0
        }) + encode_utf8(key).len() + 24,
{
}

/// An entry that was put in holds the response and the expiry that it was put in with, and is the
/// youngest. A new one counts as used once.
pub proof fn law_new_entry(
    shard: ShardState,
    key: Seq<char>,
    response: ResponseBytes,
    expires_at: Moment,
)
    requires
        shard.valid(),
        accounted_size(key, response) <= shard.max_size,
    ensures
        ({
            let after = shard.with_entry(key, response, expires_at);
            &&& after.entries.contains_key(key)
            &&& after.entries[key].response == response
            &&& after.entries[key].expires_at == expires_at
            &&& !shard.entries.contains_key(key) ==> after.entries[key].counter == 1
            &&& after.order.len() > 0
            &&& after.order.last() == key
        }),
{
}

/// Of the entries that are used least, the oldest goes first: all older ones are used more.
pub proof fn law_oldest_of_the_least_used_goes_first(shard: ShardState)
    requires
        shard.valid(),
        shard.order.len() > 0,
    ensures
        exists|at: int|
            {
                &&& 0 <= at < shard.order.len()
                &&& #[trigger] shard.order[at] == shard.victim()
                &&& forall|i: int|
                    0 <= i < at ==> (#[trigger] shard.entries[shard.order[i]]).counter
                        > shard.entries[shard.victim()].counter
            },
{
    shard.lemma_least_used(shard.order.len());
    lemma_oldest(shard, shard.order.len());
    let at = shard.least_used_of(shard.order.len());
    assert(shard.order[at] == shard.victim());
}

proof fn lemma_oldest(shard: ShardState, count: nat)
    requires
        0 < count <= shard.order.len(),
    ensures
        forall|i: int|
            0 <= i < shard.least_used_of(count) ==> (#[trigger] shard.entries[shard.order[i]]).counter
                > shard.entries[shard.order[shard.least_used_of(count)]].counter,
    decreases count,
{
    if count > 1 {
        lemma_oldest(shard, (count - 1) as nat);
        shard.lemma_least_used((count - 1) as nat);
    }
}

/// No more is evicted than it takes: before the last eviction the new bytes did not fit.
pub proof fn law_no_more_is_evicted_than_it_takes(shard: ShardState, size: nat)
    requires
        shard.valid(),
    ensures
        shard.with_room(size) == shard || exists|before: ShardState|
            {
                &&& #[trigger] before.valid()
                &&& before.used() + size > shard.max_size
                &&& shard.with_room(size) == before.evicted()
            },
        shard.used() + size <= shard.max_size ==> shard.with_room(size) == shard,
        size <= shard.max_size ==> shard.with_room(size).used() + size <= shard.max_size,
    decreases shard.order.len(),
{
    lemma_with_room(shard, size);
    if shard.order.len() > 0 && shard.used() + size > shard.max_size {
        law_eviction_takes_the_least_used(shard);
        let next = shard.evicted();
        law_no_more_is_evicted_than_it_takes(next, size);
        if next.with_room(size) == next {
            assert(shard.valid() && shard.with_room(size) == shard.evicted());
        }
    }
}

/// A hit on an entry whose count is at its end starts over at zero.
pub proof fn law_count_starts_over(shard: ShardState, key: Seq<char>, now: Moment)
    requires
        shard.served(key, now) is Some,
        shard.entries[key].counter == u64::MAX,
    ensures
        shard.after_lookup(key, now).entries[key].counter == 0,
{
}

proof fn lemma_total_updated(shards: Seq<ShardState>, at: int, shard: ShardState)
    requires
        0 <= at < shards.len(),
    ensures
        total_used(shards.update(at, shard)) + shards[at].used() == total_used(shards)
            + shard.used(),
        total_entries(shards.update(at, shard)) + shards[at].entries.len() == total_entries(shards)
            + shard.entries.len(),
    decreases shards.len(),
{
    let after = shards.update(at, shard);
    if at == shards.len() - 1 {
        assert(after.drop_last() =~= shards.drop_last());
    } else {
        assert(after.drop_last() =~= shards.drop_last().update(at, shard));
        lemma_total_updated(shards.drop_last(), at, shard);
    }
}

/// The counts of entries and bytes follow what is taken out: removing an entry takes one and its
/// size off, removing nothing takes nothing off.
pub proof fn law_counts_follow_removal(cache: CacheState, key: Seq<char>)
    requires
        cache.valid(),
    ensures
        ({
            let shard = cache.shard_of(key);
            let after = cache.without(key);
            &&& shard.entries.contains_key(key) ==> {
                &&& total_entries(after.shards) + 1 == total_entries(cache.shards)
                &&& total_used(after.shards) + accounted_size(key, shard.entries[key].response)
                    == total_used(cache.shards)
            }
            &&& !shard.entries.contains_key(key) ==> after == cache
        }),
{
    let at = home(key, cache.shards.len() as usize);
    assert(0 <= at < cache.shards.len());
    let shard = cache.shard_of(key);
    lemma_without(shard, key);
    lemma_total_updated(cache.shards, at, shard.without(key));
    lemma_finite(shard);
    if shard.entries.contains_key(key) {
        assert(shard.entries.remove(key).dom() =~= shard.entries.dom().remove(key));
    } else {
        assert(cache.without(key).shards =~= cache.shards);
    }
}

/// The counts of entries and bytes follow what is put in: an entry under a new key that fits beside
/// the others adds one and its size.
pub proof fn law_counts_follow_insertion(
    cache: CacheState,
    key: Seq<char>,
    response: ResponseBytes,
    expires_at: Moment,
)
    requires
        cache.valid(),
        !cache.shard_of(key).entries.contains_key(key),
        cache.shard_of(key).used() + accounted_size(key, response) <= cache.shard_of(key).max_size,
    ensures
        ({
            let after = cache.with_entry(key, response, expires_at);
            &&& total_entries(after.shards) == total_entries(cache.shards) + 1
            &&& total_used(after.shards) == total_used(cache.shards) + accounted_size(key, response)
        }),
{
    let at = home(key, cache.shards.len() as usize);
    assert(0 <= at < cache.shards.len());
    let shard = cache.shard_of(key);
    let after = shard.with_entry(key, response, expires_at);
    lemma_without(shard, key);
    lemma_finite(shard);
    lemma_total_updated(cache.shards, at, after);
    assert(after.order == shard.order.push(key));
    assert(after.order.drop_last() =~= shard.order);
    assert forall|i: int| 0 <= i < shard.order.len() implies (#[trigger]
    shard.entries[shard.order[i]]).response == after.entries[shard.order[i]].response by {
        assert(shard.order.contains(shard.order[i]));
    }
    lemma_total_same(shard.order, shard.entries, after.entries);
    assert(after.entries.dom() =~= shard.entries.dom().insert(key));
}

/// A shard in order holds finitely many entries.
proof fn lemma_finite(shard: ShardState)
    requires
        shard.valid(),
    ensures
        shard.entries.dom().finite(),
{
    shard.order.unique_seq_to_set();
    assert(shard.order.to_set() =~= shard.entries.dom());
}

/// An entry that fits beside the others leaves what is served under every other key.
pub proof fn law_insertion_leaves_what_it_fits_beside(
    cache: CacheState,
    key: Seq<char>,
    response: ResponseBytes,
    expires_at: Moment,
    other: Seq<char>,
    now: Moment,
)
    requires
        cache.valid(),
        other != key,
        cache.shard_of(key).without(key).used() + accounted_size(key, response) <= cache.shard_of(
            key,
        ).max_size,
    ensures
        cache.with_entry(key, response, expires_at).served(other, now) == cache.served(other, now),
{
    assert(0 <= home(key, cache.shards.len() as usize) < cache.shards.len());
    assert(0 <= home(other, cache.shards.len() as usize) < cache.shards.len());
    let shard = cache.shard_of(key);
    law_nothing_is_evicted_in_vain(shard, key, response, expires_at);
    let after = shard.with_entry(key, response, expires_at);
    assert(after.entries.remove(key).contains_key(other) == shard.entries.remove(key).contains_key(
        other,
    ));
    if shard.entries.contains_key(other) {
        assert(after.entries.remove(key)[other] == shard.entries.remove(key)[other]);
    }
}

/// What is served is what is held and has not expired: until its expiry, and at it, not after.
pub proof fn law_served_until_expiry(cache: CacheState, key: Seq<char>, now: Moment)
    ensures
        ({
            let entries = cache.shard_of(key).entries;
            &&& cache.served(key, now) is Some <==> entries.contains_key(key)
                && !entries[key].expires_at.before(now)
            &&& cache.served(key, now) is Some ==> cache.served(key, now)->0
                == entries[key].response
        }),
{
}

/// The entries keep the order in which they came in: an entry that is put in goes to the end, one
/// that is taken out leaves the others where they are, and a lookup moves none.
pub proof fn law_entries_keep_their_order(
    shard: ShardState,
    key: Seq<char>,
    response: ResponseBytes,
    expires_at: Moment,
    now: Moment,
)
    requires
        shard.valid(),
    ensures
        shard.without(key).order == shard.order.remove_value(key),
        shard.after_lookup(key, now).order == shard.order,
        shard.order.len() > 0 ==> shard.evicted().order == shard.order.remove_value(shard.victim()),
        shard.without(key).used() + accounted_size(key, response) <= shard.max_size
            ==> shard.with_entry(key, response, expires_at).order == shard.order.remove_value(
            key,
        ).push(key),
{
    lemma_without(shard, key);
}

} // verus!
