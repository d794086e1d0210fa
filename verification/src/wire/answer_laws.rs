//! What becomes of captured answers.
use vstd::prelude::*;
use crate::cache::laws::{law_insert_then_get, law_operations_keep_order};
use crate::cache::lfu::{accounted_size, home, CacheState, ResponseBytes};
use crate::clock::Moment;
use crate::server::state::Shared;
use crate::wire::capture_model::{
    captured, nothing_yet, response_of, with_message, Answer, Partial, COMMAND_COMPLETE_TYPE,
    READY_FOR_QUERY_TYPE,
};
use crate::wire::message_framer::{
    concatenated, is_frame, lemma_concatenated_joined, lemma_concatenated_push,
    lemma_frame_in_front,
};
use crate::wire::messages::{query_content, QueryText};
use crate::wire::plan_model::{after_query, body, plan_of, single, Run};
use crate::wire::reader::Fault;
use crate::wire::types::{CaptureText, DescribeKind, Plan, ProtocolMode, ReplayText, Slot};

verus! {

/// What has come in of a response after `messages`.
pub open spec fn after_all(mode: ProtocolMode, partial: Partial, messages: Seq<Seq<u8>>) -> Partial
    decreases messages.len(),
{
    if messages.len() == 0 {
        partial
    } else {
        after_all(mode, with_message(mode, partial, messages[0]), messages.skip(1))
    }
}

/// The cache with what has come in of a captured response, `partial`, under its key.
pub open spec fn with_response(
    capture: CaptureText,
    partial: Partial,
    cache: CacheState,
    now: Moment,
) -> CacheState {
    cache.with_entry(capture.key, response_of(capture, partial), now.later(capture.ttl as nat))
}

/// The cache after `messages` of a captured response, of which `partial` had come in before: with
/// each completed command, what has come in by then is cached.
pub open spec fn stored(
    capture: CaptureText,
    partial: Partial,
    messages: Seq<Seq<u8>>,
    cache: CacheState,
    now: Moment,
) -> CacheState
    decreases messages.len(),
{
    if messages.len() == 0 {
        cache
    } else {
        let after = with_message(capture.protocol_mode, partial, messages[0]);
        let cache_after = if messages[0][0] == COMMAND_COMPLETE_TYPE {
            with_response(capture, after, cache, now)
        } else {
            cache
        };
        stored(capture, after, messages.skip(1), cache_after, now)
    }
}

/// `messages` are whole messages, and the database is not ready for the next query yet.
pub open spec fn not_ready(messages: Seq<Seq<u8>>) -> bool {
    forall|i: int|
        0 <= i < messages.len() ==> {
            &&& is_frame(#[trigger] messages[i])
            &&& messages[i][0] != READY_FOR_QUERY_TYPE
        }
}

/// None of `messages` completes a command.
pub open spec fn completes_nothing(messages: Seq<Seq<u8>>) -> bool {
    forall|i: int|
        0 <= i < messages.len() ==> (#[trigger] messages[i])[0] != COMMAND_COMPLETE_TYPE
}

/// The answer to a captured query goes to the client up to its ReadyForQuery, without what is kept
/// apart or left out, and each completed command is cached.
pub proof fn law_answer_is_captured(
    capture: CaptureText,
    partial: Partial,
    messages: Seq<Seq<u8>>,
    ready: Seq<u8>,
    rest: Seq<u8>,
    cache: CacheState,
    now: Moment,
)
    requires
        not_ready(messages),
        is_frame(ready),
        ready[0] == READY_FOR_QUERY_TYPE,
    ensures
        captured(capture, partial, concatenated(messages) + (ready + rest), cache, now) == (Answer {
            output: after_all(capture.protocol_mode, partial, messages).data + ready,
            pending: rest,
            cache: stored(capture, partial, messages, cache, now),
            error: None,
        }),
    decreases messages.len(),
{
    let tail = ready + rest;
    if messages.len() == 0 {
        assert(concatenated(messages) + tail =~= tail);
        lemma_frame_in_front(ready, rest);
    } else {
        let more = messages.skip(1);
        let after = with_message(capture.protocol_mode, partial, messages[0]);
        let cache_after = if messages[0][0] == COMMAND_COMPLETE_TYPE {
            with_response(capture, after, cache, now)
        } else {
            cache
        };
        assert(concatenated(messages) + tail =~= messages[0] + (concatenated(more) + tail));
        lemma_frame_in_front(messages[0], concatenated(more) + tail);
        assert forall|i: int| 0 <= i < more.len() implies {
            &&& is_frame(#[trigger] more[i])
            &&& more[i][0] != READY_FOR_QUERY_TYPE
        } by {
            assert(more[i] == messages[i + 1]);
        }
        law_answer_is_captured(capture, after, more, ready, rest, cache_after, now);
    }
}

proof fn lemma_stored_joined(
    capture: CaptureText,
    partial: Partial,
    first: Seq<Seq<u8>>,
    second: Seq<Seq<u8>>,
    cache: CacheState,
    now: Moment,
)
    ensures
        after_all(capture.protocol_mode, partial, first + second) == after_all(
            capture.protocol_mode,
            after_all(capture.protocol_mode, partial, first),
            second,
        ),
        stored(capture, partial, first + second, cache, now) == stored(
            capture,
            after_all(capture.protocol_mode, partial, first),
            second,
            stored(capture, partial, first, cache, now),
            now,
        ),
    decreases first.len(),
{
    if first.len() == 0 {
        assert(first + second =~= second);
    } else {
        let after = with_message(capture.protocol_mode, partial, first[0]);
        let cache_after = if first[0][0] == COMMAND_COMPLETE_TYPE {
            with_response(capture, after, cache, now)
        } else {
            cache
        };
        assert((first + second).skip(1) =~= first.skip(1) + second);
        lemma_stored_joined(capture, after, first.skip(1), second, cache_after, now);
    }
}

proof fn lemma_nothing_stored(
    capture: CaptureText,
    partial: Partial,
    messages: Seq<Seq<u8>>,
    cache: CacheState,
    now: Moment,
)
    requires
        completes_nothing(messages),
    ensures
        stored(capture, partial, messages, cache, now) == cache,
    decreases messages.len(),
{
    if messages.len() > 0 {
        let more = messages.skip(1);
        assert forall|i: int| 0 <= i < more.len() implies (#[trigger] more[i])[0]
            != COMMAND_COMPLETE_TYPE by {
            assert(more[i] == messages[i + 1]);
        }
        lemma_nothing_stored(
            capture,
            with_message(capture.protocol_mode, partial, messages[0]),
            more,
            cache,
            now,
        );
    }
}

proof fn lemma_stored_keeps_order(
    capture: CaptureText,
    partial: Partial,
    messages: Seq<Seq<u8>>,
    cache: CacheState,
    now: Moment,
)
    requires
        cache.valid(),
    ensures
        stored(capture, partial, messages, cache, now).valid(),
        stored(capture, partial, messages, cache, now).shards.len() == cache.shards.len(),
        stored(capture, partial, messages, cache, now).shard_of(capture.key).max_size
            == cache.shard_of(capture.key).max_size,
    decreases messages.len(),
{
    if messages.len() > 0 {
        let after = with_message(capture.protocol_mode, partial, messages[0]);
        let expires_at = now.later(capture.ttl as nat);
        law_operations_keep_order(cache, capture.key, response_of(capture, after), expires_at, now);
        assert(0 <= home(capture.key, cache.shards.len() as usize) < cache.shards.len());
        let cache_after = if messages[0][0] == COMMAND_COMPLETE_TYPE {
            with_response(capture, after, cache, now)
        } else {
            cache
        };
        assert(cache_after.shard_of(capture.key).max_size == cache.shard_of(capture.key).max_size);
        lemma_stored_keeps_order(capture, after, messages.skip(1), cache_after, now);
    }
}

/// An answer: what comes in up to its last CommandComplete, that CommandComplete, what comes in
/// behind it, and the ReadyForQuery at its end.
pub struct Reply {
    pub messages: Seq<Seq<u8>>,
    pub complete: Seq<u8>,
    pub trailing: Seq<Seq<u8>>,
    pub ready: Seq<u8>,
}

impl Reply {
    pub open spec fn valid(self) -> bool {
        &&& not_ready(self.messages)
        &&& is_frame(self.complete)
        &&& self.complete[0] == COMMAND_COMPLETE_TYPE
        &&& not_ready(self.trailing)
        &&& completes_nothing(self.trailing)
        &&& is_frame(self.ready)
        &&& self.ready[0] == READY_FOR_QUERY_TYPE
    }

    /// What comes from the database.
    pub open spec fn bytes(self) -> Seq<u8> {
        concatenated(self.messages) + self.complete + concatenated(self.trailing) + self.ready
    }

    /// What has come in with the last CommandComplete.
    pub open spec fn whole(self, mode: ProtocolMode) -> Partial {
        with_message(mode, after_all(mode, nothing_yet(), self.messages), self.complete)
    }
}

/// Of an answer with several CommandCompletes, what has come in with the last one is what stays
/// cached, for the time that the capture says and with the descriptions that were asked for. All
/// that is kept as data goes to the client.
pub proof fn law_last_completion_is_cached(
    capture: CaptureText,
    reply: Reply,
    rest: Seq<u8>,
    cache: CacheState,
    now: Moment,
)
    requires
        reply.valid(),
    ensures
        captured(capture, nothing_yet(), reply.bytes() + rest, cache, now) == (Answer {
            output: after_all(
                capture.protocol_mode,
                reply.whole(capture.protocol_mode),
                reply.trailing,
            ).data + reply.ready,
            pending: rest,
            cache: with_response(
                capture,
                reply.whole(capture.protocol_mode),
                stored(capture, nothing_yet(), reply.messages, cache, now),
                now,
            ),
            error: None,
        }),
{
    let mode = capture.protocol_mode;
    let head = reply.messages.push(reply.complete);
    let all = head + reply.trailing;
    assert forall|i: int| 0 <= i < all.len() implies {
        &&& is_frame(#[trigger] all[i])
        &&& all[i][0] != READY_FOR_QUERY_TYPE
    } by {
        if i < reply.messages.len() {
            assert(all[i] == reply.messages[i]);
        } else if i > reply.messages.len() {
            assert(all[i] == reply.trailing[i - head.len()]);
        }
    }
    law_answer_is_captured(capture, nothing_yet(), all, reply.ready, rest, cache, now);
    lemma_concatenated_push(reply.messages, reply.complete);
    lemma_concatenated_joined(head, reply.trailing);
    assert(concatenated(all) + (reply.ready + rest) =~= reply.bytes() + rest);
    let before = after_all(mode, nothing_yet(), reply.messages);
    let cache_before = stored(capture, nothing_yet(), reply.messages, cache, now);
    let last = seq![reply.complete];
    assert(head =~= reply.messages + last);
    lemma_stored_joined(capture, nothing_yet(), reply.messages, last, cache, now);
    let whole = reply.whole(mode);
    let cache_whole = with_response(capture, whole, cache_before, now);
    assert(last.skip(1) =~= Seq::<Seq<u8>>::empty());
    assert(after_all(mode, whole, last.skip(1)) == whole);
    assert(after_all(mode, before, last) == whole);
    assert(stored(capture, whole, last.skip(1), cache_whole, now) == cache_whole);
    assert(stored(capture, before, last, cache_before, now) == cache_whole);
    lemma_stored_joined(capture, nothing_yet(), head, reply.trailing, cache, now);
    lemma_nothing_stored(capture, whole, reply.trailing, cache_whole, now);
}

/// Once an answer is captured, what has come in with its last CommandComplete is served under its
/// key until it expires, if it fits the cache.
pub proof fn law_captured_answer_is_served(
    capture: CaptureText,
    reply: Reply,
    rest: Seq<u8>,
    cache: CacheState,
    completed: Moment,
    now: Moment,
)
    requires
        cache.valid(),
        reply.valid(),
        accounted_size(capture.key, response_of(capture, reply.whole(capture.protocol_mode)))
            <= cache.shard_of(capture.key).max_size,
        !completed.later(capture.ttl as nat).before(now),
    ensures
        captured(capture, nothing_yet(), reply.bytes() + rest, cache, completed).cache.served(
            capture.key,
            now,
        ) == Some(response_of(capture, reply.whole(capture.protocol_mode))),
{
    law_last_completion_is_cached(capture, reply, rest, cache, completed);
    lemma_stored_keeps_order(capture, nothing_yet(), reply.messages, cache, completed);
    law_insert_then_get(
        stored(capture, nothing_yet(), reply.messages, cache, completed),
        capture.key,
        response_of(capture, reply.whole(capture.protocol_mode)),
        completed.later(capture.ttl as nat),
        now,
    );
}

/// The capture of a simple query.
pub open spec fn simple_capture(message: Seq<u8>, plan: Plan, query: Seq<char>) -> CaptureText {
    CaptureText {
        bytes: message,
        key: plan.key,
        describe_kind: DescribeKind::Nothing,
        protocol_mode: ProtocolMode::Simple,
        query,
        ttl: plan.ttl,
    }
}

/// The response to a simple query that is cached: the messages up to its last completion.
pub open spec fn simple_response(reply: Reply) -> ResponseBytes {
    ResponseBytes {
        param_desc: None,
        row_desc: None,
        data: concatenated(reply.messages) + reply.complete,
    }
}

proof fn lemma_simple_data(partial: Partial, messages: Seq<Seq<u8>>)
    ensures
        after_all(ProtocolMode::Simple, partial, messages).data == partial.data + concatenated(
            messages,
        ),
    decreases messages.len(),
{
    if messages.len() > 0 {
        let after = with_message(ProtocolMode::Simple, partial, messages[0]);
        lemma_simple_data(after, messages.skip(1));
        assert(after.data + concatenated(messages.skip(1)) =~= partial.data + concatenated(
            messages,
        ));
    } else {
        assert(partial.data + concatenated(messages) =~= partial.data);
    }
}

/// A simple query that is to be cached and is not is captured. Once its answer is complete, the
/// same query is answered with it, up to its last CommandComplete, until it expires, without the
/// database.
pub proof fn law_second_query_is_answered_from_the_cache(
    run: Run,
    later_run: Run,
    message: Seq<u8>,
    query: Seq<char>,
    reply: Reply,
    rest: Seq<u8>,
    asked: Moment,
    completed: Moment,
    asked_again: Moment,
)
    requires
        run.shared.cache.valid(),
        query_content(body(message)) == Ok::<QueryText, Fault>(QueryText { query }),
        plan_of(run.shared, query, Seq::empty()) is Some,
        reply.valid(),
        ({
            let plan = plan_of(run.shared, query, Seq::empty()).unwrap();
            &&& run.shared.cache.served(plan.key, asked) is None
            // The response comes in and fits the cache.
            &&& later_run.shared == (Shared {
                cache: captured(
                    simple_capture(message, plan, query),
                    nothing_yet(),
                    reply.bytes() + rest,
                    after_query(run, message, asked).0.shared.cache,
                    completed,
                ).cache,
                ..run.shared
            })
            &&& accounted_size(plan.key, simple_response(reply)) <= run.shared.cache.shard_of(
                plan.key,
            ).max_size
            &&& !completed.later(plan.ttl as nat).before(asked_again)
        }),
    ensures
        ({
            let plan = plan_of(run.shared, query, Seq::empty()).unwrap();
            &&& after_query(run, message, asked).0.cycles == run.cycles.push(
                single(Slot::Capture(simple_capture(message, plan, query))),
            )
            &&& after_query(later_run, message, asked_again).0.cycles == later_run.cycles.push(
                single(
                    Slot::Replay(
                        ReplayText {
                            key: plan.key,
                            data: simple_response(reply),
                            describe_kind: DescribeKind::Nothing,
                            protocol_mode: ProtocolMode::Simple,
                            query,
                        },
                    ),
                ),
            )
        }),
{
    let plan = plan_of(run.shared, query, Seq::empty()).unwrap();
    let capture = simple_capture(message, plan, query);
    let cache = after_query(run, message, asked).0.shared.cache;
    let response = response_of(capture, reply.whole(ProtocolMode::Simple));
    lemma_simple_data(nothing_yet(), reply.messages);
    assert(nothing_yet().data + concatenated(reply.messages) =~= concatenated(reply.messages));
    assert(response == simple_response(reply));
    law_operations_keep_order(run.shared.cache, plan.key, response, completed, asked);
    assert(0 <= home(plan.key, run.shared.cache.shards.len() as usize)
        < run.shared.cache.shards.len());
    assert(cache.shard_of(plan.key).max_size == run.shared.cache.shard_of(plan.key).max_size);
    law_captured_answer_is_served(capture, reply, rest, cache, completed, asked_again);
}

} // verus!
