//! The response cache: sharded, bounded in bytes, emptied from its least frequently used end.
use std::hash::{DefaultHasher, Hash, Hasher};
use std::sync::Arc;
use vstd::hash_map::StringHashMap;
use vstd::prelude::*;
use vstd::std_specs::hash::DefaultHasherAdditionalSpecFns;
use vstd::utf8::encode_utf8;
use crate::clock::{Clock, Moment};
use crate::wire::messages::optional_bytes;

verus! {

broadcast use vstd::hash_map::group_hash_map_axioms;

/// A response of the database as it is replayed to a client.
#[derive(Debug, PartialEq)]
pub struct CachedResponse {
    pub param_desc: Option<Vec<u8>>,
    pub row_desc: Option<Vec<u8>>,
    pub data: Vec<u8>,
}

/// What a [`CachedResponse`] holds.
pub struct ResponseBytes {
    pub param_desc: Option<Seq<u8>>,
    pub row_desc: Option<Seq<u8>>,
    pub data: Seq<u8>,
}

/// How many bytes an optional part of a response takes.
pub open spec fn part_len(bytes: Option<Seq<u8>>) -> nat {
    match bytes {
        Some(bytes) => bytes.len(),
        None => 0,
    }
}

impl View for CachedResponse {
    type V = ResponseBytes;

    open spec fn view(&self) -> ResponseBytes {
        ResponseBytes {
            param_desc: optional_bytes(self.param_desc),
            row_desc: optional_bytes(self.row_desc),
            data: self.data@,
        }
    }
}

impl CachedResponse {
    pub fn has_data(&self) -> (has: bool)
        ensures
            has == (self@.data.len() > 0),
    {
        !self.data.is_empty()
    }

    pub fn has_row_desc(&self) -> (has: bool)
        ensures
            has == (self@.row_desc is Some),
    {
        self.row_desc.is_some()
    }

    pub fn has_param_desc(&self) -> (has: bool)
        ensures
            has == (self@.param_desc is Some),
    {
        self.param_desc.is_some()
    }
}

/// One cached response, when it expires and how often it was asked for.
pub struct Entry {
    pub data: Arc<CachedResponse>,
    pub expires_at: Moment,
    pub counter: u64,
}

/// What an [`Entry`] holds.
pub struct EntryState {
    pub response: ResponseBytes,
    pub expires_at: Moment,
    pub counter: u64,
}

impl View for Entry {
    type V = EntryState;

    open spec fn view(&self) -> EntryState {
        EntryState { response: self.data@, expires_at: self.expires_at, counter: self.counter }
    }
}

/// How many bytes the counter of an entry takes.
pub const COUNTER_SIZE: u64 = 8;

/// How many bytes the expiry of an entry takes: its seconds, its nanoseconds, and what aligns them.
pub const EXPIRY_SIZE: u64 = 16;

/// How many bytes a response takes in the cache under `key`: its own bytes, those of the key, and
/// those of the counter and the expiry kept with it.
pub open spec fn accounted_size(key: Seq<char>, response: ResponseBytes) -> nat {
    response.data.len() + part_len(response.row_desc) + part_len(response.param_desc)
        + encode_utf8(key).len() + COUNTER_SIZE as nat + EXPIRY_SIZE as nat
}

fn part_size(bytes: &Option<Vec<u8>>) -> (size: u64)
    ensures
        size == part_len(optional_bytes(*bytes)),
{
    match bytes {
        Some(bytes) => bytes.len() as u64,
        None => 0,
    }
}

/// The size that a response would be accounted with, where it fits 64 bits.
fn checked_size(key: &str, response: &CachedResponse) -> (size: Option<u64>)
    ensures
        match size {
            Some(size) => size == accounted_size(key@, response@),
            None => accounted_size(key@, response@) > u64::MAX,
        },
{
    let data_len: u64 = response.data.len() as u64;
    let with_rows: u64 = match data_len.checked_add(part_size(&response.row_desc)) {
        Some(sum) => sum,
        None => return None,
    };
    let with_params: u64 = match with_rows.checked_add(part_size(&response.param_desc)) {
        Some(sum) => sum,
        None => return None,
    };
    let with_key: u64 = match with_params.checked_add(key.as_bytes().len() as u64) {
        Some(sum) => sum,
        None => return None,
    };
    let with_counter: u64 = match with_key.checked_add(COUNTER_SIZE) {
        Some(sum) => sum,
        None => return None,
    };
    with_counter.checked_add(EXPIRY_SIZE)
}

impl Entry {
    pub fn get_size(&self, key: &str) -> (size: u64)
        requires
            accounted_size(key@, self@.response) <= u64::MAX,
        ensures
            size == accounted_size(key@, self@.response),
    {
        let data_length: u64 = self.data.data.len() as u64 + part_size(&self.data.row_desc)
            + part_size(&self.data.param_desc);
        data_length + key.as_bytes().len() as u64 + COUNTER_SIZE + EXPIRY_SIZE
    }
}

/// How many bytes the entries of `keys` take together.
pub open spec fn total_size(keys: Seq<Seq<char>>, entries: Map<Seq<char>, EntryState>) -> nat
    decreases keys.len(),
{
    if keys.len() == 0 {
        0
    } else {
        total_size(keys.drop_last(), entries) + accounted_size(
            keys.last(),
            entries[keys.last()].response,
        )
    }
}

/// What a shard of the cache holds.
#[verifier::ext_equal]
pub struct ShardState {
    /// The keys, in the order in which their entries came in.
    pub order: Seq<Seq<char>>,
    pub entries: Map<Seq<char>, EntryState>,
    /// How many bytes the shard may hold.
    pub max_size: nat,
}

impl ShardState {
    /// The bytes that are held.
    pub open spec fn used(self) -> nat {
        total_size(self.order, self.entries)
    }

    /// The keys are those of the entries, each listed once, and the bytes held are within bounds.
    pub open spec fn valid(self) -> bool {
        &&& self.order.no_duplicates()
        &&& forall|key: Seq<char>| #[trigger]
            self.order.contains(key) <==> self.entries.contains_key(key)
        &&& self.used() <= self.max_size
    }

    /// The entry of `key` is past its expiry.
    pub open spec fn expired(self, key: Seq<char>, now: Moment) -> bool {
        self.entries.contains_key(key) && self.entries[key].expires_at.before(now)
    }

    /// What is served for `key` at the time `now`.
    pub open spec fn served(self, key: Seq<char>, now: Moment) -> Option<ResponseBytes> {
        if self.entries.contains_key(key) && !self.expired(key, now) {
            Some(self.entries[key].response)
        } else {
            None
        }
    }

    /// The shard after `key` was looked up: a hit is counted.
    pub open spec fn after_lookup(self, key: Seq<char>, now: Moment) -> ShardState {
        if self.served(key, now) is Some {
            let entry = self.entries[key];
            let counted = EntryState {
                counter: if entry.counter == u64::MAX {
                    0
                } else {
                    (entry.counter + 1) as u64
                },
                ..entry
            };
            ShardState { entries: self.entries.insert(key, counted), ..self }
        } else {
            self
        }
    }

    /// The shard without the entry of `key`.
    pub open spec fn without(self, key: Seq<char>) -> ShardState {
        ShardState {
            order: self.order.remove_value(key),
            entries: self.entries.remove(key),
            ..self
        }
    }

    /// The shard without the entry of `key`, if that is past its expiry.
    pub open spec fn without_expired(self, key: Seq<char>, now: Moment) -> ShardState {
        if self.expired(key, now) {
            self.without(key)
        } else {
            self
        }
    }

    /// The place of the least frequently used among the first `count` entries, the oldest of them
    /// where several are used equally little.
    pub open spec fn least_used_of(self, count: nat) -> int
        decreases count,
    {
        if count <= 1 {
            0
        } else {
            let least = self.least_used_of((count - 1) as nat);
            if self.entries[self.order[count - 1]].counter
                < self.entries[self.order[least]].counter {
                count - 1
            } else {
                least
            }
        }
    }

    /// The key that is evicted first.
    pub open spec fn victim(self) -> Seq<char> {
        self.order[self.least_used_of(self.order.len())]
    }

    /// The shard after an eviction.
    pub open spec fn evicted(self) -> ShardState {
        if self.order.len() == 0 {
            self
        } else {
            self.without(self.victim())
        }
    }

    /// The shard after as many evictions as it takes to fit `size` more bytes.
    pub open spec fn with_room(self, size: nat) -> ShardState
        decreases self.order.len(),
        when self.valid()
        via Self::with_room_decreases
    {
        if self.order.len() == 0 || self.used() + size <= self.max_size {
            self
        } else {
            self.evicted().with_room(size)
        }
    }

    #[via_fn]
    proof fn with_room_decreases(self, size: nat) {
        if self.order.len() > 0 {
            self.lemma_least_used(self.order.len());
            assert(self.order.contains(self.victim()));
            lemma_without(self, self.victim());
        }
    }

    /// How often the entry of `key` was used; a new one counts as used once.
    pub open spec fn uses(self, key: Seq<char>) -> u64 {
        if self.entries.contains_key(key) {
            self.entries[key].counter
        } else {
            1
        }
    }

    /// The shard after `response` was put under `key`. One that is larger than the whole shard is
    /// dropped. An entry that takes another's place keeps its count.
    pub open spec fn with_entry(
        self,
        key: Seq<char>,
        response: ResponseBytes,
        expires_at: Moment,
    ) -> ShardState {
        let size = accounted_size(key, response);
        if size > self.max_size {
            self
        } else {
            let roomy = self.without(key).with_room(size);
            ShardState {
                order: roomy.order.push(key),
                entries: roomy.entries.insert(
                    key,
                    EntryState { response, expires_at, counter: self.uses(key) },
                ),
                ..roomy
            }
        }
    }

    pub(crate) proof fn lemma_least_used(self, count: nat)
        requires
            0 < count <= self.order.len(),
        ensures
            0 <= self.least_used_of(count) < count,
            forall|i: int|
                0 <= i < count ==> self.entries[self.order[self.least_used_of(count)]].counter
                    <= (#[trigger] self.entries[self.order[i]]).counter,
        decreases count,
    {
        if count > 1 {
            self.lemma_least_used((count - 1) as nat);
        }
    }
}

pub(crate) proof fn lemma_total_same(
    keys: Seq<Seq<char>>,
    one: Map<Seq<char>, EntryState>,
    other: Map<Seq<char>, EntryState>,
)
    requires
        forall|i: int|
            0 <= i < keys.len() ==> (#[trigger] one[keys[i]]).response == other[keys[i]].response,
    ensures
        total_size(keys, one) == total_size(keys, other),
    decreases keys.len(),
{
    if keys.len() > 0 {
        assert forall|i: int| 0 <= i < keys.drop_last().len() implies (#[trigger]
        one[keys.drop_last()[i]]).response == other[keys.drop_last()[i]].response by {
            assert(keys.drop_last()[i] == keys[i]);
        }
        lemma_total_same(keys.drop_last(), one, other);
        assert(keys.last() == keys[keys.len() - 1]);
    }
}

proof fn lemma_total_without(keys: Seq<Seq<char>>, entries: Map<Seq<char>, EntryState>, at: int)
    requires
        0 <= at < keys.len(),
    ensures
        total_size(keys.remove(at), entries) + accounted_size(
            keys[at],
            entries[keys[at]].response,
        ) == total_size(keys, entries),
    decreases keys.len(),
{
    if at == keys.len() - 1 {
        assert(keys.remove(at) =~= keys.drop_last());
    } else {
        lemma_total_without(keys.drop_last(), entries, at);
        assert(keys.remove(at).drop_last() =~= keys.drop_last().remove(at));
    }
}

/// Taking out an entry leaves the others, and frees its bytes.
pub(crate) proof fn lemma_without(shard: ShardState, key: Seq<char>)
    requires
        shard.valid(),
    ensures
        shard.without(key).valid(),
        !shard.entries.contains_key(key) ==> shard.without(key) == shard,
        shard.entries.contains_key(key) ==> shard.without(key).used() + accounted_size(
            key,
            shard.entries[key].response,
        ) == shard.used(),
        shard.entries.contains_key(key) ==> shard.without(key).order.len() == shard.order.len() - 1,
{
    let rest = shard.without(key);
    if shard.entries.contains_key(key) {
        assert(shard.order.contains(key));
        shard.order.index_of_first_ensures(key);
        let at = shard.order.index_of_first(key).unwrap();
        assert(rest.order == shard.order.remove(at));
        lemma_total_without(shard.order, shard.entries, at);
        assert forall|i: int| 0 <= i < rest.order.len() implies (#[trigger]
        shard.entries[rest.order[i]]).response == rest.entries[rest.order[i]].response by {
            let j = if i < at { i } else { i + 1 };
            assert(rest.order[i] == shard.order[j]);
        }
        lemma_total_same(rest.order, shard.entries, rest.entries);
        assert(rest.order.no_duplicates());
        assert forall|other: Seq<char>| #[trigger]
            rest.order.contains(other) <==> rest.entries.contains_key(other) by {
            if rest.order.contains(other) {
                let i = choose|i: int| 0 <= i < rest.order.len() && rest.order[i] == other;
                let j = if i < at { i } else { i + 1 };
                assert(shard.order[j] == other);
                assert(shard.order.contains(other));
            }
            if rest.entries.contains_key(other) {
                assert(shard.order.contains(other));
                let j = choose|j: int| 0 <= j < shard.order.len() && shard.order[j] == other;
                let i = if j < at { j } else { j - 1 };
                assert(rest.order[i] == other);
            }
        }
    } else {
        assert(!shard.order.contains(key));
        shard.order.index_of_first_ensures(key);
        assert(rest.entries =~= shard.entries);
    }
}

/// Calls `Arc::clone`, which hands out another pointer to the same value.
#[verifier::external_body]
pub(crate) fn share(response: &Arc<CachedResponse>) -> (shared: Arc<CachedResponse>)
    ensures
        shared == *response,
{
    response.clone()
}

/// The bytes of a response that may be missing.
pub open spec fn response_bytes(response: Option<Arc<CachedResponse>>) -> Option<ResponseBytes> {
    match response {
        Some(response) => Some(response@),
        None => None,
    }
}

/// The entry of a valid shard takes no more than all of them.
pub(crate) proof fn lemma_member_size(shard: ShardState, key: Seq<char>)
    requires
        shard.valid(),
        shard.entries.contains_key(key),
    ensures
        accounted_size(key, shard.entries[key].response) <= shard.used(),
{
    lemma_without(shard, key);
}

/// One more entry, under a key that is not listed and within bounds, leaves a shard in order.
proof fn lemma_pushed(roomy: ShardState, key: Seq<char>, entry: EntryState)
    requires
        roomy.valid(),
        !roomy.order.contains(key),
        roomy.used() + accounted_size(key, entry.response) <= roomy.max_size,
    ensures
        (ShardState {
            order: roomy.order.push(key),
            entries: roomy.entries.insert(key, entry),
            ..roomy
        }).valid(),
        total_size(roomy.order.push(key), roomy.entries.insert(key, entry)) == roomy.used()
            + accounted_size(key, entry.response),
{
    let order = roomy.order.push(key);
    let entries = roomy.entries.insert(key, entry);
    assert(order.drop_last() =~= roomy.order);
    assert forall|i: int| 0 <= i < roomy.order.len() implies (#[trigger]
    roomy.entries[roomy.order[i]]).response == entries[roomy.order[i]].response by {
        assert(roomy.order.contains(roomy.order[i]));
    }
    lemma_total_same(roomy.order, roomy.entries, entries);
    assert forall|other: Seq<char>| #[trigger]
        order.contains(other) <==> entries.contains_key(other) by {
        if order.contains(other) && other != key {
            let i = choose|i: int| 0 <= i < order.len() && order[i] == other;
            assert(roomy.order[i] == other);
            assert(roomy.order.contains(other));
        }
        if entries.contains_key(other) {
            if other == key {
                assert(order[roomy.order.len() as int] == key);
            } else {
                assert(roomy.order.contains(other));
                let i = choose|i: int| 0 <= i < roomy.order.len() && roomy.order[i] == other;
                assert(order[i] == other);
            }
        }
    }
    assert(order.no_duplicates());
}

/// One shard of the cache.
pub struct CacheInner {
    pub entries: StringHashMap<Entry>,
    pub current_size_bytes: u64,
    pub max_size_bytes: u64,
    pub order: Vec<String>,
    pub clock: Clock,
}

impl View for CacheInner {
    type V = ShardState;

    open spec fn view(&self) -> ShardState {
        ShardState {
            order: self.order@.map_values(|key: String| key@),
            entries: self.entries@.map_values(|entry: Entry| entry@),
            max_size: self.max_size_bytes as nat,
        }
    }
}

impl CacheInner {
    /// The shard is in order, and its byte count is that of what it holds.
    pub open spec fn wf(self) -> bool {
        &&& self@.valid()
        &&& self.current_size_bytes == self@.used()
    }

    /// A shard counts the bytes of what it holds, and holds no more of them than it may.
    pub proof fn law_bounded(self)
        requires
            self.wf(),
        ensures
            self@.valid(),
            self.current_size_bytes == self@.used(),
            self.max_size_bytes == self@.max_size,
            self.current_size_bytes <= self.max_size_bytes,
            self.entries@.dom() == self@.entries.dom(),
            forall|key: Seq<char>| #[trigger]
                self.entries@.contains_key(key) ==> self.entries@[key]@ == self@.entries[key],
    {
    }

    pub fn new(max_size_bytes: u64) -> (shard: Self)
        ensures
            shard.wf(),
            shard.clock.started(),
            shard@.order == Seq::<Seq<char>>::empty(),
            shard@.entries == Map::<Seq<char>, EntryState>::empty(),
            shard@.max_size == max_size_bytes,
    {
        Self::with_clock(max_size_bytes, Clock::start())
    }

    /// An empty shard that reads `clock`.
    pub fn with_clock(max_size_bytes: u64, clock: Clock) -> (shard: Self)
        ensures
            shard.wf(),
            shard.clock == clock,
            shard@.order == Seq::<Seq<char>>::empty(),
            shard@.entries == Map::<Seq<char>, EntryState>::empty(),
            shard@.max_size == max_size_bytes,
    {
        CacheInner {
            entries: StringHashMap::new(),
            current_size_bytes: 0,
            max_size_bytes,
            order: Vec::new(),
            clock,
        }
    }

    /// The time on the clock by which entries expire.
    pub fn now(&self) -> (now: Moment)
        ensures
            self.clock.shows(now),
            now.nanos < 1_000_000_000,
    {
        self.clock.now()
    }

    /// Looks up `key` at the current time.
    ///
    /// Returns the response, and whether the entry should be removed because it has expired.
    pub fn get(&mut self, key: &str) -> (result: (Option<Arc<CachedResponse>>, bool))
        requires
            old(self).wf(),
        ensures
            final(self).wf(),
            final(self).clock == old(self).clock,
            exists|now: Moment|
                {
                    &&& old(self).clock.shows(now)
                    &&& response_bytes(result.0) == #[trigger] old(self)@.served(key@, now)
                    &&& result.1 == old(self)@.expired(key@, now)
                    &&& final(self)@ == old(self)@.after_lookup(key@, now)
                },
    {
        let now = self.now();
        self.get_at(key, now)
    }

    /// Looks up `key` at the time `now`.
    ///
    /// Returns the response, and whether the entry should be removed because it has expired.
    pub fn get_at(&mut self, key: &str, now: Moment) -> (result: (
        Option<Arc<CachedResponse>>,
        bool,
    ))
        requires
            old(self).wf(),
        ensures
            final(self).wf(),
            final(self).clock == old(self).clock,
            response_bytes(result.0) == old(self)@.served(key@, now),
            result.1 == old(self)@.expired(key@, now),
            final(self)@ == old(self)@.after_lookup(key@, now),
    {
        let (data, expires_at, counter) = match self.entries.get(key) {
            None => return (None, false),
            Some(entry) => {
                if entry.expires_at.is_before(&now) {
                    return (None, true);
                }
                (share(&entry.data), entry.expires_at, entry.counter)
            },
        };
        let counted = Entry { data: share(&data), expires_at, counter: counter.wrapping_add(1) };
        self.entries.insert(key.to_string(), counted);
        proof {
            let before = old(self)@;
            assert(self@.entries =~= before.after_lookup(key@, now).entries);
            assert(self@ == before.after_lookup(key@, now));
            lemma_total_same(before.order, before.entries, self@.entries);
        }
        (Some(data), false)
    }

    /// Removes the entry of `key` if it has expired by now.
    pub fn remove_if_expired(&mut self, key: &str)
        requires
            old(self).wf(),
        ensures
            final(self).wf(),
            final(self).clock == old(self).clock,
            exists|now: Moment|
                {
                    &&& old(self).clock.shows(now)
                    &&& final(self)@ == #[trigger] old(self)@.without_expired(key@, now)
                },
    {
        let now = self.now();
        self.remove_if_expired_at(key, now);
    }

    /// Removes the entry of `key` if it has expired by `now`.
    pub fn remove_if_expired_at(&mut self, key: &str, now: Moment)
        requires
            old(self).wf(),
        ensures
            final(self).wf(),
            final(self).clock == old(self).clock,
            final(self)@ == old(self)@.without_expired(key@, now),
    {
        if let Some(entry) = self.entries.get(key) {
            if !entry.expires_at.is_before(&now) {
                return ;
            }
        }
        proof {
            lemma_without(self@, key@);
        }
        self.remove(key);
    }

    /// Removes the entry of `key`.
    pub fn remove(&mut self, key: &str)
        requires
            old(self).wf(),
        ensures
            final(self).wf(),
            final(self).clock == old(self).clock,
            final(self)@ == old(self)@.without(key@),
    {
        proof {
            lemma_without(self@, key@);
        }
        let size: u64 = match self.entries.get(key) {
            None => return ,
            Some(entry) => {
                proof {
                    lemma_member_size(self@, key@);
                }
                entry.get_size(key)
            },
        };
        let at: usize = self.position(key);
        self.entries.remove(key);
        self.order.remove(at);
        self.current_size_bytes = self.current_size_bytes - size;
        proof {
            let before = old(self)@;
            before.order.index_of_first_ensures(key@);
            assert(self@.order =~= before.without(key@).order);
            assert(self@.entries =~= before.without(key@).entries);
        }
    }

    /// Where `key` stands in the order of entry.
    fn position(&self, key: &str) -> (at: usize)
        requires
            self.wf(),
            self@.entries.contains_key(key@),
        ensures
            at < self@.order.len(),
            Some(at as int) == self@.order.index_of_first(key@),
    {
        let wanted: String = key.to_string();
        let mut at: usize = 0;
        proof {
            assert(self@.order.contains(key@));
            self@.order.index_of_first_ensures(key@);
        }
        while self.order[at] != wanted
            invariant
                at < self.order.len(),
                wanted@ == key@,
                self@.order.len() == self.order.len(),
                self@.order.no_duplicates(),
                self@.order.index_of_first(key@) is Some,
                at <= self@.order.index_of_first(key@).unwrap() < self@.order.len(),
                self@.order[self@.order.index_of_first(key@).unwrap()] == key@,
                forall|i: int| 0 <= i < self.order.len() ==> self.order[i]@ == self@.order[i],
            decreases self.order.len() - at,
        {
            at = at + 1;
        }
        proof {
            assert(self@.order[at as int] == key@);
        }
        at
    }

    /// Puts `data` under `key`, evicting what is used least until it fits.
    pub fn insert(&mut self, key: String, data: Arc<CachedResponse>, expires_at: Moment)
        requires
            old(self).wf(),
        ensures
            final(self).wf(),
            final(self).clock == old(self).clock,
            final(self)@ == old(self)@.with_entry(key@, data@, expires_at),
    {
        let size: u64 = match checked_size(key.as_str(), &*data) {
            Some(size) => size,
            None => return ,
        };
        if size > self.max_size_bytes {
            return ;
        }
        let counter: u64 = match self.entries.get(key.as_str()) {
            Some(entry) => entry.counter,
            None => 1,
        };
        self.remove(key.as_str());
        proof {
            lemma_without(old(self)@, key@);
        }
        let ghost emptied = self@;
        while self.current_size_bytes > self.max_size_bytes - size
            invariant
                self.wf(),
                size <= self.max_size_bytes,
                self@.max_size == emptied.max_size,
                self.clock == old(self).clock,
                !self@.entries.contains_key(key@),
                self@.with_room(size as nat) == emptied.with_room(size as nat),
            decreases self@.order.len(),
        {
            proof {
                if self@.order.len() == 0 {
                    assert(self@.used() == 0);
                }
                self@.lemma_least_used(self@.order.len());
                assert(self@.order.contains(self@.victim()));
                lemma_without(self@, self@.victim());
            }
            self.evict_lfu();
        }
        let entry = Entry { data, expires_at, counter };
        let ghost roomy = self@;
        proof {
            assert(roomy == emptied.with_room(size as nat));
            assert(!roomy.order.contains(key@));
        }
        self.order.push(key.clone());
        self.entries.insert(key, entry);
        self.current_size_bytes = self.current_size_bytes + size;
        proof {
            assert(self@.order =~= roomy.order.push(key@));
            assert(self@.entries =~= roomy.entries.insert(key@, entry@));
            assert(self@ == old(self)@.with_entry(key@, entry@.response, expires_at));
            lemma_pushed(roomy, key@, entry@);
        }
    }

    /// Evicts the entry that is used least, if there is any.
    pub fn evict_lfu(&mut self)
        requires
            old(self).wf(),
        ensures
            final(self).wf(),
            final(self).clock == old(self).clock,
            final(self)@ == old(self)@.evicted(),
    {
        if self.order.len() == 0 {
            return ;
        }
        let mut least: usize = 0;
        let mut count: usize = 1;
        let mut fewest: u64 = self.counter_at(0);
        while count < self.order.len()
            invariant
                self.wf(),
                0 < count <= self.order.len(),
                self.order.len() == self@.order.len(),
                least < count,
                least == self@.least_used_of(count as nat),
                fewest == self@.entries[self@.order[least as int]].counter,
            decreases self.order.len() - count,
        {
            let counter: u64 = self.counter_at(count);
            if counter < fewest {
                fewest = counter;
                least = count;
            }
            count = count + 1;
        }
        let key: String = self.order[least].clone();
        assert(key@ == self@.victim());
        self.remove(key.as_str());
    }

    fn counter_at(&self, at: usize) -> (counter: u64)
        requires
            self.wf(),
            at < self@.order.len(),
        ensures
            counter == self@.entries[self@.order[at as int]].counter,
    {
        let key: &String = &self.order[at];
        assert(key@ == self@.order[at as int]);
        assert(self@.order.contains(key@));
        match self.entries.get(key.as_str()) {
            Some(entry) => entry.counter,
            None => 0,
        }
    }
}

/// What a hasher that was written `before` holds once `key` was hashed into it.
pub uninterp spec fn hash_writes(before: Seq<Seq<u8>>, key: Seq<char>) -> Seq<Seq<u8>>;

/// Calls `Hash::hash` of `str`, which feeds the text to the hasher. What it feeds depends on the
/// text alone; how the text is laid out for that is left unsaid.
#[verifier::external_body]
fn hash_into(key: &str, hasher: &mut DefaultHasher)
    ensures
        final(hasher)@ == hash_writes(old(hasher)@, key@),
{
    key.hash(hasher)
}

/// The shard, of `shards`, in which `key` belongs.
pub open spec fn home(key: Seq<char>, shards: usize) -> int {
    (DefaultHasher::spec_finish(hash_writes(Seq::empty(), key)) as usize % shards) as int
}

/// How many bytes the shards hold together.
pub open spec fn total_used(shards: Seq<ShardState>) -> nat
    decreases shards.len(),
{
    if shards.len() == 0 {
        0
    } else {
        total_used(shards.drop_last()) + shards.last().used()
    }
}

/// How many entries the shards hold together.
pub open spec fn total_entries(shards: Seq<ShardState>) -> nat
    decreases shards.len(),
{
    if shards.len() == 0 {
        0
    } else {
        total_entries(shards.drop_last()) + shards.last().entries.len()
    }
}

/// What a cache holds.
#[verifier::ext_equal]
pub struct CacheState {
    pub shards: Seq<ShardState>,
}

impl CacheState {
    /// The shard in which `key` belongs.
    pub open spec fn shard_of(self, key: Seq<char>) -> ShardState {
        self.shards[home(key, self.shards.len() as usize)]
    }

    /// The cache with another shard in the place where `key` belongs.
    pub open spec fn with_shard(self, key: Seq<char>, shard: ShardState) -> CacheState {
        CacheState { shards: self.shards.update(home(key, self.shards.len() as usize), shard) }
    }

    /// There are shards, all of one size, and every key lies where it belongs.
    pub open spec fn valid(self) -> bool {
        &&& 0 < self.shards.len() <= usize::MAX
        &&& self.shards.len() * self.shards[0].max_size <= u64::MAX
        &&& forall|i: int|
            0 <= i < self.shards.len() ==> (#[trigger] self.shards[i]).valid()
                && self.shards[i].max_size == self.shards[0].max_size
        &&& forall|i: int, key: Seq<char>|
            0 <= i < self.shards.len() && #[trigger] self.shards[i].entries.contains_key(key)
                ==> home(key, self.shards.len() as usize) == i
    }

    /// What is served for `key` at the time `now`.
    pub open spec fn served(self, key: Seq<char>, now: Moment) -> Option<ResponseBytes> {
        self.shard_of(key).served(key, now)
    }

    /// The cache after `key` was asked for: a hit is counted, an expired entry is dropped.
    pub open spec fn after_get(self, key: Seq<char>, now: Moment) -> CacheState {
        self.with_shard(key, self.shard_of(key).after_lookup(key, now).without_expired(key, now))
    }

    pub open spec fn without(self, key: Seq<char>) -> CacheState {
        self.with_shard(key, self.shard_of(key).without(key))
    }

    pub open spec fn with_entry(
        self,
        key: Seq<char>,
        response: ResponseBytes,
        expires_at: Moment,
    ) -> CacheState {
        self.with_shard(key, self.shard_of(key).with_entry(key, response, expires_at))
    }
}

/// The response cache.
pub struct Cache {
    pub inner: Vec<CacheInner>,
    pub shards: usize,
    pub clock: Clock,
}

impl View for Cache {
    type V = CacheState;

    open spec fn view(&self) -> CacheState {
        CacheState { shards: self.inner@.map_values(|shard: CacheInner| shard@) }
    }
}

impl Cache {
    /// The shards are in order and read the cache's own clock, and every key lies where it belongs.
    pub open spec fn wf(self) -> bool {
        &&& self.shards == self.inner.len()
        &&& forall|i: int|
            0 <= i < self.inner.len() ==> (#[trigger] self.inner[i]).wf() && self.inner[i].clock
                == self.clock
        &&& self@.valid()
    }

    /// A cache of `cache_shards` shards that together hold `max_cache_size_mib` MiB at most.
    pub fn new(max_cache_size_mib: u64, cache_shards: usize) -> (cache: Self)
        requires
            cache_shards > 0,
            max_cache_size_mib * 1024 * 1024 <= u64::MAX,
        ensures
            cache.wf(),
            cache.clock.started(),
            cache@.shards.len() == cache_shards,
            forall|i: int|
                #![trigger cache@.shards[i]]
                0 <= i < cache_shards ==> {
                    &&& cache@.shards[i].order == Seq::<Seq<char>>::empty()
                    &&& cache@.shards[i].entries == Map::<Seq<char>, EntryState>::empty()
                    &&& cache@.shards[i].max_size == max_cache_size_mib * 1024 * 1024 / (
                    cache_shards as int)
                },
    {
        let max_shard_size: u64 = (max_cache_size_mib * 1024 * 1024) / (cache_shards as u64);
        let clock = Clock::start();
        let mut inner: Vec<CacheInner> = Vec::new();
        while inner.len() < cache_shards
            invariant
                inner.len() <= cache_shards,
                forall|i: int|
                    #![trigger inner[i]]
                    0 <= i < inner.len() ==> {
                        &&& inner[i].wf()
                        &&& inner[i].clock == clock
                        &&& inner[i]@.order == Seq::<Seq<char>>::empty()
                        &&& inner[i]@.entries == Map::<Seq<char>, EntryState>::empty()
                        &&& inner[i]@.max_size == max_shard_size
                    },
            decreases cache_shards - inner.len(),
        {
            inner.push(CacheInner::with_clock(max_shard_size, clock));
        }
        proof {
            let all = max_cache_size_mib * 1024 * 1024;
            assert(cache_shards * (all / (cache_shards as int)) <= all) by (nonlinear_arith)
                requires
                    cache_shards > 0,
                    all >= 0,
            ;
        }
        let cache = Cache { inner, shards: cache_shards, clock };
        assert(forall|i: int|
            0 <= i < cache_shards ==> #[trigger] cache@.shards[i] == cache.inner[i]@);
        cache
    }

    /// The time on the clock by which entries expire.
    pub fn now(&self) -> (now: Moment)
        ensures
            self.clock.shows(now),
            now.nanos < 1_000_000_000,
    {
        self.clock.now()
    }

    /// The response under `key`, if there is one that has not expired.
    pub fn get(&mut self, key: &str) -> (response: Option<Arc<CachedResponse>>)
        requires
            old(self).wf(),
        ensures
            final(self).wf(),
            final(self).clock == old(self).clock,
            exists|now: Moment|
                {
                    &&& old(self).clock.shows(now)
                    &&& response_bytes(response) == #[trigger] old(self)@.served(key@, now)
                    &&& final(self)@ == old(self)@.after_get(key@, now)
                },
    {
        let now = self.now();
        self.get_at(key, now)
    }

    /// The response under `key`, if there is one that has not expired by `now`.
    pub fn get_at(&mut self, key: &str, now: Moment) -> (response: Option<Arc<CachedResponse>>)
        requires
            old(self).wf(),
        ensures
            final(self).wf(),
            final(self).clock == old(self).clock,
            response_bytes(response) == old(self)@.served(key@, now),
            final(self)@ == old(self)@.after_get(key@, now),
    {
        let shard = self.get_cache_shard(key);
        let ghost before = shard@;
        let (data, should_remove) = shard.get_at(key, now);
        if should_remove {
            shard.remove_if_expired_at(key, now);
        }
        proof {
            lemma_lookup_valid(before, key@, now);
            lemma_without(before.after_lookup(key@, now), key@);
            lemma_cache_replaced(*old(self), *self, key@);
        }
        data
    }

    pub fn remove(&mut self, key: &str)
        requires
            old(self).wf(),
        ensures
            final(self).wf(),
            final(self).clock == old(self).clock,
            final(self)@ == old(self)@.without(key@),
    {
        let shard = self.get_cache_shard(key);
        proof {
            lemma_without(shard@, key@);
        }
        shard.remove(key);
        proof {
            lemma_cache_replaced(*old(self), *self, key@);
        }
    }

    pub fn insert(&mut self, key: String, data: CachedResponse, expires_at: Moment)
        requires
            old(self).wf(),
        ensures
            final(self).wf(),
            final(self).clock == old(self).clock,
            final(self)@ == old(self)@.with_entry(key@, data@, expires_at),
    {
        let arc_data = Arc::new(data);
        let shard = self.get_cache_shard(key.as_str());
        proof {
            lemma_with_entry(shard@, key@, data@, expires_at);
        }
        shard.insert(key, arc_data, expires_at);
        proof {
            lemma_cache_replaced(*old(self), *self, key@);
        }
    }

    /// How many entries there are.
    pub fn entry_count(&self) -> (count: u64)
        requires
            self.wf(),
        ensures
            count == total_entries(self@.shards),
    {
        let mut count: u64 = 0;
        let mut i: usize = 0;
        while i < self.inner.len()
            invariant
                self.wf(),
                i <= self.inner.len(),
                count == total_entries(self@.shards.take(i as int)),
                count <= i * self@.shards[0].max_size,
            decreases self.inner.len() - i,
        {
            proof {
                let shards = self@.shards;
                assert(shards.take(i + 1).drop_last() =~= shards.take(i as int));
                assert(shards[i as int] == self.inner[i as int]@);
                lemma_entries_fit(shards[i as int]);
                assert(self.inner[i as int].entries@.dom() =~= shards[i as int].entries.dom());
                lemma_share(i as int, shards.len() as int, shards[0].max_size as int);
            }
            count = count + self.inner[i].entries.len() as u64;
            i = i + 1;
        }
        assert(self@.shards.take(i as int) =~= self@.shards);
        count
    }

    /// How many bytes the entries take.
    pub fn cache_size_bytes(&self) -> (size: u64)
        requires
            self.wf(),
        ensures
            size == total_used(self@.shards),
    {
        let mut size: u64 = 0;
        let mut i: usize = 0;
        while i < self.inner.len()
            invariant
                self.wf(),
                i <= self.inner.len(),
                size == total_used(self@.shards.take(i as int)),
                size <= i * self@.shards[0].max_size,
            decreases self.inner.len() - i,
        {
            proof {
                let shards = self@.shards;
                assert(shards.take(i + 1).drop_last() =~= shards.take(i as int));
                assert(shards[i as int] == self.inner[i as int]@);
                lemma_share(i as int, shards.len() as int, shards[0].max_size as int);
            }
            size = size + self.inner[i].current_size_bytes;
            i = i + 1;
        }
        assert(self@.shards.take(i as int) =~= self@.shards);
        size
    }

    /// The shard in which `key` belongs.
    fn get_cache_shard(&mut self, key: &str) -> (shard: &mut CacheInner)
        requires
            old(self).wf(),
        ensures
            *shard == old(self).inner[home(key@, old(self).shards)],
            shard.wf(),
            shard@ == old(self)@.shard_of(key@),
            final(self).inner@ == old(self).inner@.update(
                home(key@, old(self).shards),
                *final(shard),
            ),
            final(self).shards == old(self).shards,
            final(self).clock == old(self).clock,
    {
        let at: usize = self.get_cache_shard_key(key);
        &mut self.inner[at]
    }

    /// The place of the shard in which `key` belongs.
    pub fn get_cache_shard_key(&self, key: &str) -> (at: usize)
        requires
            self.shards > 0,
        ensures
            at == home(key@, self.shards),
            at < self.shards,
            at == DefaultHasher::spec_finish(hash_writes(Seq::empty(), key@)) as usize
                % self.shards,
    {
        let mut hasher = DefaultHasher::new();
        hash_into(key, &mut hasher);
        hasher.finish() as usize % self.shards
    }
}

/// A cache with a shard replaced by one in order, as large as before and with no other key added.
proof fn lemma_cache_replaced(before: Cache, after: Cache, key: Seq<char>)
    requires
        before.wf(),
        after.shards == before.shards,
        after.clock == before.clock,
        after.inner@ == before.inner@.update(
            home(key, before.shards),
            after.inner[home(key, before.shards)],
        ),
        after.inner[home(key, before.shards)].wf(),
        after.inner[home(key, before.shards)].clock == before.clock,
        after.inner[home(key, before.shards)]@.max_size == before@.shard_of(key).max_size,
        forall|other: Seq<char>| #[trigger]
            after.inner[home(key, before.shards)]@.entries.contains_key(other) ==> other == key
                || before@.shard_of(key).entries.contains_key(other),
    ensures
        after.wf(),
        after@ == before@.with_shard(key, after.inner[home(key, before.shards)]@),
{
    let at = home(key, before.shards);
    assert(0 <= at < before.inner.len());
    let shard = after.inner[at]@;
    assert(after@.shards =~= before@.shards.update(at, shard));
    lemma_shard_replaced(before@, key, shard);
    assert forall|i: int| 0 <= i < after.inner.len() implies (#[trigger]
    after.inner[i]).wf() && after.inner[i].clock == after.clock by {
        if i != at {
            assert(after.inner[i] == before.inner[i]);
        }
    }
}

/// A shard in order, as large as before and with no other key added, fits the cache.
pub(crate) proof fn lemma_shard_replaced(cache: CacheState, key: Seq<char>, shard: ShardState)
    requires
        cache.valid(),
        shard.valid(),
        shard.max_size == cache.shard_of(key).max_size,
        forall|other: Seq<char>| #[trigger]
            shard.entries.contains_key(other) ==> other == key || cache.shard_of(
                key,
            ).entries.contains_key(other),
    ensures
        cache.with_shard(key, shard).valid(),
{
    let at = home(key, cache.shards.len() as usize);
    assert(0 <= at < cache.shards.len());
    let after = cache.with_shard(key, shard);
    assert forall|i: int, other: Seq<char>|
        0 <= i < after.shards.len() && #[trigger] after.shards[i].entries.contains_key(
            other,
        ) implies home(other, after.shards.len() as usize) == i by {
        if i != at {
            assert(cache.shards[i].entries.contains_key(other));
        } else if other != key {
            assert(cache.shards[at].entries.contains_key(other));
        }
    }
}

/// The first `i` of `n` equal parts, and one more, are no more than all of them.
pub(crate) proof fn lemma_share(i: int, n: int, part: int)
    requires
        0 <= i < n,
        0 <= part,
    ensures
        i * part + part == (i + 1) * part,
        (i + 1) * part <= n * part,
{
    assert(i * part + part == (i + 1) * part) by (nonlinear_arith);
    assert((i + 1) * part <= n * part) by (nonlinear_arith)
        requires
            i + 1 <= n,
            0 <= part,
    ;
}

/// A lookup leaves a valid shard valid.
pub(crate) proof fn lemma_lookup_valid(shard: ShardState, key: Seq<char>, now: Moment)
    requires
        shard.valid(),
    ensures
        shard.after_lookup(key, now).valid(),
        shard.after_lookup(key, now).entries.dom() == shard.entries.dom(),
{
    let after = shard.after_lookup(key, now);
    if shard.served(key, now) is Some {
        assert(after.entries.dom() =~= shard.entries.dom());
        lemma_total_same(shard.order, shard.entries, after.entries);
    }
}

/// Making room leaves a valid shard valid, and takes in nothing.
pub(crate) proof fn lemma_with_room(shard: ShardState, size: nat)
    requires
        shard.valid(),
    ensures
        shard.with_room(size).valid(),
        shard.with_room(size).max_size == shard.max_size,
        size <= shard.max_size ==> shard.with_room(size).used() + size <= shard.max_size,
        forall|key: Seq<char>| #[trigger]
            shard.with_room(size).entries.contains_key(key) ==> shard.entries.contains_key(key)
                && shard.with_room(size).entries[key] == shard.entries[key],
    decreases shard.order.len(),
{
    if shard.order.len() > 0 && shard.used() + size > shard.max_size {
        shard.lemma_least_used(shard.order.len());
        assert(shard.order.contains(shard.victim()));
        lemma_without(shard, shard.victim());
        lemma_with_room(shard.evicted(), size);
    }
}

/// Putting an entry in leaves a valid shard valid, and takes in no other key.
pub(crate) proof fn lemma_with_entry(
    shard: ShardState,
    key: Seq<char>,
    response: ResponseBytes,
    expires_at: Moment,
)
    requires
        shard.valid(),
    ensures
        shard.with_entry(key, response, expires_at).valid(),
        shard.with_entry(key, response, expires_at).max_size == shard.max_size,
        forall|other: Seq<char>| #[trigger]
            shard.with_entry(key, response, expires_at).entries.contains_key(other) ==> other == key
                || shard.entries.contains_key(other),
{
    lemma_without(shard, key);
    lemma_with_room(shard.without(key), accounted_size(key, response));
    if accounted_size(key, response) <= shard.max_size {
        let roomy = shard.without(key).with_room(accounted_size(key, response));
        assert(!roomy.order.contains(key));
        lemma_pushed(
            roomy,
            key,
            EntryState { response, expires_at, counter: shard.uses(key) },
        );
    }
}

/// A shard has as many entries as it lists keys, and no more entries than bytes.
proof fn lemma_entries_fit(shard: ShardState)
    requires
        shard.valid(),
    ensures
        shard.entries.len() == shard.order.len(),
        shard.entries.len() <= shard.used(),
{
    shard.order.unique_seq_to_set();
    assert(shard.order.to_set() =~= shard.entries.dom());
    lemma_size_per_key(shard.order, shard.entries);
}

proof fn lemma_size_per_key(keys: Seq<Seq<char>>, entries: Map<Seq<char>, EntryState>)
    ensures
        keys.len() <= total_size(keys, entries),
    decreases keys.len(),
{
    if keys.len() > 0 {
        lemma_size_per_key(keys.drop_last(), entries);
    }
}

} // verus!
