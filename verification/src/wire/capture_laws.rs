//! What of the database's answers is kept, and what goes on to the client.
use vstd::prelude::*;
use crate::cache::lfu::{accounted_size, CacheState, ResponseBytes};
use crate::clock::Moment;
use crate::wire::answer_laws::{
    after_all, law_captured_answer_is_served, law_last_completion_is_cached, not_ready, Reply,
};
use crate::wire::capture_model::{
    all_captured, answered, captured, captures_of, dropped, nothing_yet, places_of, replays_of,
    response_of, with_message, Answer, Partial, COMMAND_COMPLETE_TYPE, DATA_ROW_TYPE,
    PARAMETER_DESCRIPTION_TYPE, READY_FOR_QUERY_TYPE, ROW_DESCRIPTION_TYPE,
};
use crate::wire::message_framer::{
    after_first_frame, after_frames, concatenated, first_frame, frames, framing_error, is_frame,
    law_framing_keeps_every_byte, lemma_concatenated_joined, lemma_concatenated_push,
    lemma_frame_in_front,
};
use crate::wire::types::{CaptureText, DescribeKind, ProtocolMode, Slot};

verus! {

/// The rows and the completions among `messages`.
pub open spec fn rows_and_completions(messages: Seq<Seq<u8>>) -> Seq<Seq<u8>> {
    messages.filter(
        |message: Seq<u8>|
            message[0] == DATA_ROW_TYPE || message[0] == COMMAND_COMPLETE_TYPE,
    )
}

/// The last of `messages` with the type byte `byte`; no bytes where there is none.
pub open spec fn last_of(messages: Seq<Seq<u8>>, byte: u8) -> Seq<u8>
    decreases messages.len(),
{
    if messages.len() == 0 {
        Seq::empty()
    } else if messages.last()[0] == byte {
        messages.last()
    } else {
        last_of(messages.drop_last(), byte)
    }
}

/// What is cached of the answer `reply` to `capture`: of a simple query all up to its last
/// CommandComplete; of an execution the rows and completions up to there, and the last
/// descriptions before it that were asked for.
pub open spec fn cached_of(capture: CaptureText, reply: Reply) -> ResponseBytes {
    match capture.protocol_mode {
        ProtocolMode::Simple => ResponseBytes {
            param_desc: None,
            row_desc: None,
            data: concatenated(reply.messages) + reply.complete,
        },
        ProtocolMode::Extended => ResponseBytes {
            param_desc: if capture.describe_kind == DescribeKind::Statement {
                Some(last_of(reply.messages, PARAMETER_DESCRIPTION_TYPE))
            } else {
                None
            },
            row_desc: if capture.describe_kind == DescribeKind::Nothing {
                None
            } else {
                Some(last_of(reply.messages, ROW_DESCRIPTION_TYPE))
            },
            data: concatenated(rows_and_completions(reply.messages)) + reply.complete,
        },
    }
}

/// What goes to the client of the answer `reply` to `capture`: of that to a simple query all; of
/// that to an execution the rows, the completions and the ReadyForQuery.
pub open spec fn passed_of(capture: CaptureText, reply: Reply) -> Seq<u8> {
    match capture.protocol_mode {
        ProtocolMode::Simple => reply.bytes(),
        ProtocolMode::Extended => concatenated(
            rows_and_completions(reply.messages.push(reply.complete) + reply.trailing),
        ) + reply.ready,
    }
}

proof fn lemma_after_all_push(
    mode: ProtocolMode,
    partial: Partial,
    messages: Seq<Seq<u8>>,
    message: Seq<u8>,
)
    ensures
        after_all(mode, partial, messages.push(message)) == with_message(
            mode,
            after_all(mode, partial, messages),
            message,
        ),
    decreases messages.len(),
{
    let all = messages.push(message);
    if messages.len() == 0 {
        assert(all.skip(1) =~= Seq::<Seq<u8>>::empty());
        assert(after_all(mode, with_message(mode, partial, message), all.skip(1)) == with_message(
            mode,
            partial,
            message,
        ));
    } else {
        assert(all.skip(1) =~= messages.skip(1).push(message));
        lemma_after_all_push(
            mode,
            with_message(mode, partial, messages[0]),
            messages.skip(1),
            message,
        );
    }
}

proof fn lemma_kept_apart(messages: Seq<Seq<u8>>)
    ensures
        ({
            let extended = after_all(ProtocolMode::Extended, nothing_yet(), messages);
            &&& extended.data == concatenated(rows_and_completions(messages))
            &&& extended.row_desc == last_of(messages, ROW_DESCRIPTION_TYPE)
            &&& extended.param_desc == last_of(messages, PARAMETER_DESCRIPTION_TYPE)
        }),
        after_all(ProtocolMode::Simple, nothing_yet(), messages).data == concatenated(messages),
    decreases messages.len(),
{
    reveal(Seq::filter);
    if messages.len() == 0 {
        assert(rows_and_completions(messages) =~= Seq::<Seq<u8>>::empty());
        assert(concatenated(rows_and_completions(messages)) =~= Seq::<u8>::empty());
    } else {
        let rest = messages.drop_last();
        let last = messages.last();
        lemma_kept_apart(rest);
        assert(messages =~= rest.push(last));
        lemma_after_all_push(ProtocolMode::Extended, nothing_yet(), rest, last);
        lemma_after_all_push(ProtocolMode::Simple, nothing_yet(), rest, last);
        lemma_concatenated_push(rest, last);
        lemma_concatenated_push(rows_and_completions(rest), last);
    }
}

proof fn lemma_after_all_joined(
    mode: ProtocolMode,
    partial: Partial,
    first: Seq<Seq<u8>>,
    second: Seq<Seq<u8>>,
)
    ensures
        after_all(mode, partial, first + second) == after_all(
            mode,
            after_all(mode, partial, first),
            second,
        ),
    decreases second.len(),
{
    if second.len() == 0 {
        assert(first + second =~= first);
    } else {
        let rest = second.drop_last();
        lemma_after_all_joined(mode, partial, first, rest);
        lemma_after_all_push(mode, partial, first + rest, second.last());
        lemma_after_all_push(mode, after_all(mode, partial, first), rest, second.last());
        assert(first + second =~= (first + rest).push(second.last()));
        assert(second =~= rest.push(second.last()));
    }
}

proof fn lemma_whole(capture: CaptureText, reply: Reply)
    requires
        reply.valid(),
    ensures
        response_of(capture, reply.whole(capture.protocol_mode)) == cached_of(capture, reply),
        after_all(
            capture.protocol_mode,
            reply.whole(capture.protocol_mode),
            reply.trailing,
        ).data + reply.ready == passed_of(capture, reply),
{
    let mode = capture.protocol_mode;
    let head = reply.messages.push(reply.complete);
    lemma_kept_apart(reply.messages);
    lemma_kept_apart(head + reply.trailing);
    lemma_after_all_push(mode, nothing_yet(), reply.messages, reply.complete);
    lemma_after_all_joined(mode, nothing_yet(), head, reply.trailing);
    lemma_concatenated_push(reply.messages, reply.complete);
    lemma_concatenated_joined(head, reply.trailing);
}

/// The answer to a captured request goes to the client up to its ReadyForQuery: all of it for a
/// simple query; its rows and completions, each of them and in their order, for an execution. What
/// stands behind the ReadyForQuery is left.
pub proof fn law_every_row_goes_to_the_client(
    capture: CaptureText,
    reply: Reply,
    rest: Seq<u8>,
    cache: CacheState,
    now: Moment,
)
    requires
        reply.valid(),
    ensures
        ({
            let answer = captured(capture, nothing_yet(), reply.bytes() + rest, cache, now);
            &&& answer.output == passed_of(capture, reply)
            &&& answer.pending == rest
            &&& answer.error is None
        }),
{
    law_last_completion_is_cached(capture, reply, rest, cache, now);
    lemma_whole(capture, reply);
}

/// Once the answer to a captured request has come in, its rows and completions up to the last
/// CommandComplete, each of them and in their order, are served under its key until they expire,
/// with the last descriptions that were asked for, if they fit the cache.
pub proof fn law_every_row_is_cached(
    capture: CaptureText,
    reply: Reply,
    rest: Seq<u8>,
    cache: CacheState,
    completed: Moment,
    now: Moment,
)
    requires
        cache.valid(),
        reply.valid(),
        accounted_size(capture.key, cached_of(capture, reply)) <= cache.shard_of(
            capture.key,
        ).max_size,
        !completed.later(capture.ttl as nat).before(now),
    ensures
        captured(capture, nothing_yet(), reply.bytes() + rest, cache, completed).cache.served(
            capture.key,
            now,
        ) == Some(cached_of(capture, reply)),
{
    lemma_whole(capture, reply);
    law_captured_answer_is_served(capture, reply, rest, cache, completed, now);
}

/// An answer without a CommandComplete leaves the cache alone, and one that is not complete yet
/// gives nothing to the client.
pub proof fn law_nothing_is_cached_before_completion(
    capture: CaptureText,
    partial: Partial,
    messages: Seq<Seq<u8>>,
    rest: Seq<u8>,
    cache: CacheState,
    now: Moment,
)
    requires
        not_ready(messages),
        forall|i: int|
            0 <= i < messages.len() ==> (#[trigger] messages[i])[0] != COMMAND_COMPLETE_TYPE,
        frames(rest).len() == 0 || rest[0] == READY_FOR_QUERY_TYPE,
    ensures
        ({
            let answer = captured(capture, partial, concatenated(messages) + rest, cache, now);
            &&& answer.cache == cache
            &&& frames(rest).len() == 0 ==> answer.output.len() == 0 && answer.pending == rest
        }),
    decreases messages.len(),
{
    if messages.len() == 0 {
        assert(concatenated(messages) + rest =~= rest);
    } else {
        let more = messages.skip(1);
        assert(concatenated(messages) + rest =~= messages[0] + (concatenated(more) + rest));
        lemma_frame_in_front(messages[0], concatenated(more) + rest);
        assert forall|i: int| 0 <= i < more.len() implies {
            &&& is_frame(#[trigger] more[i])
            &&& more[i][0] != READY_FOR_QUERY_TYPE
        } by {
            assert(more[i] == messages[i + 1]);
        }
        assert forall|i: int| 0 <= i < more.len() implies (#[trigger] more[i])[0]
            != COMMAND_COMPLETE_TYPE by {
            assert(more[i] == messages[i + 1]);
        }
        law_nothing_is_cached_before_completion(
            capture,
            with_message(capture.protocol_mode, partial, messages[0]),
            more,
            rest,
            cache,
            now,
        );
    }
}

/// The bytes of the answers `replies`, one behind the other.
pub open spec fn all_bytes(replies: Seq<Reply>) -> Seq<u8> {
    concatenated(replies.map_values(|reply: Reply| reply.bytes()))
}

/// What goes to the client of the answers `replies` to `captures`.
pub open spec fn all_passed(captures: Seq<CaptureText>, replies: Seq<Reply>) -> Seq<u8> {
    concatenated(Seq::new(captures.len(), |i: int| passed_of(captures[i], replies[i])))
}

/// Several captures take the answers one after the other: the first answer belongs to the first
/// capture, the second to the second, and what goes to the client follows in that order.
pub proof fn law_each_capture_takes_its_own_answer(
    captures: Seq<CaptureText>,
    replies: Seq<Reply>,
    output: Seq<u8>,
    rest: Seq<u8>,
    cache: CacheState,
    now: Moment,
)
    requires
        captures.len() == replies.len(),
        forall|i: int| 0 <= i < replies.len() ==> (#[trigger] replies[i]).valid(),
    ensures
        ({
            let answer = all_captured(captures, output, all_bytes(replies) + rest, cache, now);
            &&& answer.output == output + all_passed(captures, replies)
            &&& answer.pending == rest
            &&& answer.error is None
        }),
    decreases captures.len(),
{
    if captures.len() == 0 {
        assert(all_bytes(replies) + rest =~= rest);
        assert(output + all_passed(captures, replies) =~= output);
    } else {
        let more_captures = captures.skip(1);
        let more = replies.skip(1);
        let tail = all_bytes(more) + rest;
        lemma_first_parts(captures, replies);
        assert(all_bytes(replies) + rest =~= replies[0].bytes() + tail);
        law_every_row_goes_to_the_client(captures[0], replies[0], tail, cache, now);
        let first = captured(captures[0], nothing_yet(), replies[0].bytes() + tail, cache, now);
        law_each_capture_takes_its_own_answer(
            more_captures,
            more,
            output + first.output,
            rest,
            first.cache,
            now,
        );
        assert(output + all_passed(captures, replies) =~= output + first.output + all_passed(
            more_captures,
            more,
        ));
    }
}

proof fn lemma_first_parts(captures: Seq<CaptureText>, replies: Seq<Reply>)
    requires
        captures.len() == replies.len(),
        captures.len() > 0,
    ensures
        all_bytes(replies) == replies[0].bytes() + all_bytes(replies.skip(1)),
        all_passed(captures, replies) == passed_of(captures[0], replies[0]) + all_passed(
            captures.skip(1),
            replies.skip(1),
        ),
{
    let bytes_of = |reply: Reply| reply.bytes();
    assert(replies.map_values(bytes_of).skip(1) =~= replies.skip(1).map_values(bytes_of));
    let passed = Seq::new(captures.len(), |i: int| passed_of(captures[i], replies[i]));
    assert(passed.skip(1) =~= Seq::new(
        captures.skip(1).len(),
        |i: int| passed_of(captures.skip(1)[i], replies.skip(1)[i]),
    ));
}

proof fn lemma_captured_last(
    captures: Seq<CaptureText>,
    output: Seq<u8>,
    pending: Seq<u8>,
    cache: CacheState,
    now: Moment,
)
    requires
        captures.len() > 0,
        all_captured(captures.drop_last(), output, pending, cache, now).error is None,
    ensures
        ({
            let before = all_captured(captures.drop_last(), output, pending, cache, now);
            all_captured(captures, output, pending, cache, now).cache == captured(
                captures.last(),
                nothing_yet(),
                before.pending,
                before.cache,
                now,
            ).cache
        }),
    decreases captures.len(),
{
    let first = captured(captures[0], nothing_yet(), pending, cache, now);
    if captures.len() == 1 {
        assert(captures.skip(1) =~= Seq::<CaptureText>::empty());
        assert(all_captured(
            captures.skip(1),
            output + first.output,
            first.pending,
            first.cache,
            now,
        ).cache == first.cache);
    } else {
        assert(captures.drop_last().skip(1) =~= captures.skip(1).drop_last());
        assert(captures.drop_last()[0] == captures[0]);
        lemma_captured_last(
            captures.skip(1),
            output + first.output,
            first.pending,
            first.cache,
            now,
        );
    }
}

/// The last of several captured answers is cached as it would be alone, in the cache that those
/// before it leave.
pub proof fn law_last_capture_is_cached_on_top(
    captures: Seq<CaptureText>,
    replies: Seq<Reply>,
    output: Seq<u8>,
    rest: Seq<u8>,
    cache: CacheState,
    now: Moment,
)
    requires
        captures.len() == replies.len(),
        captures.len() > 0,
        forall|i: int| 0 <= i < replies.len() ==> (#[trigger] replies[i]).valid(),
    ensures
        all_captured(captures, output, all_bytes(replies) + rest, cache, now).cache == captured(
            captures.last(),
            nothing_yet(),
            replies.last().bytes() + rest,
            all_captured(
                captures.drop_last(),
                output,
                all_bytes(replies) + rest,
                cache,
                now,
            ).cache,
            now,
        ).cache,
{
    lemma_last_bytes(replies);
    let fewer = replies.drop_last();
    let last = replies.last().bytes() + rest;
    assert(all_bytes(replies) + rest =~= all_bytes(fewer) + last);
    law_each_capture_takes_its_own_answer(
        captures.drop_last(),
        fewer,
        output,
        last,
        cache,
        now,
    );
    lemma_captured_last(captures, output, all_bytes(replies) + rest, cache, now);
}

proof fn lemma_last_bytes(replies: Seq<Reply>)
    requires
        replies.len() > 0,
    ensures
        all_bytes(replies) == all_bytes(replies.drop_last()) + replies.last().bytes(),
{
    let bytes_of = |reply: Reply| reply.bytes();
    assert(replies.map_values(bytes_of) =~= replies.drop_last().map_values(bytes_of).push(
        replies.last().bytes(),
    ));
    lemma_concatenated_push(replies.drop_last().map_values(bytes_of), replies.last().bytes());
}

/// Dropping messages takes that many off the front, and all whole ones where there are fewer.
pub proof fn law_dropping_takes_from_the_front(
    messages: Seq<Seq<u8>>,
    partial: Seq<u8>,
    count: nat,
)
    requires
        forall|i: int| 0 <= i < messages.len() ==> is_frame(#[trigger] messages[i]),
        first_frame(partial) == Ok::<Option<Seq<u8>>, Seq<char>>(None),
    ensures
        dropped(concatenated(messages) + partial, count) == (
            concatenated(
                messages.skip(
                    if count < messages.len() {
                        count as int
                    } else {
                        messages.len() as int
                    },
                ),
            ) + partial,
            None::<Seq<char>>,
        ),
    decreases count,
{
    let pending = concatenated(messages) + partial;
    if count == 0 {
        assert(messages.skip(0) =~= messages);
    } else if messages.len() == 0 {
        assert(pending =~= partial);
        assert(messages.skip(0) =~= messages);
        law_dropping_takes_from_the_front(messages, partial, (count - 1) as nat);
    } else {
        let more = messages.skip(1);
        assert(pending =~= messages[0] + (concatenated(more) + partial));
        lemma_frame_in_front(messages[0], concatenated(more) + partial);
        assert forall|i: int| 0 <= i < more.len() implies is_frame(#[trigger] more[i]) by {
            assert(more[i] == messages[i + 1]);
        }
        law_dropping_takes_from_the_front(more, partial, (count - 1) as nat);
        let kept = if count < messages.len() {
            count as int
        } else {
            messages.len() as int
        };
        assert(messages.skip(kept) =~= more.skip(kept - 1));
    }
}

/// The captures among some slots are those slots that are captures, in their order; so are the
/// replays.
pub proof fn law_captures_and_replays_are_picked_in_order(slots: Seq<Slot>)
    ensures
        captures_of(slots) == slots.filter(|slot: Slot| slot is Capture).map_values(
            |slot: Slot| slot->Capture_0,
        ),
        replays_of(slots) == slots.filter(|slot: Slot| slot is Replay).map_values(
            |slot: Slot| slot->Replay_0,
        ),
    decreases slots.len(),
{
    reveal(Seq::filter);
    if slots.len() > 0 {
        let rest = slots.drop_last();
        law_captures_and_replays_are_picked_in_order(rest);
        assert(captures_of(slots) =~= slots.filter(|slot: Slot| slot is Capture).map_values(
            |slot: Slot| slot->Capture_0,
        ));
        assert(replays_of(slots) =~= slots.filter(|slot: Slot| slot is Replay).map_values(
            |slot: Slot| slot->Replay_0,
        ));
    } else {
        assert(captures_of(slots) =~= slots.filter(|slot: Slot| slot is Capture).map_values(
            |slot: Slot| slot->Capture_0,
        ));
        assert(replays_of(slots) =~= slots.filter(|slot: Slot| slot is Replay).map_values(
            |slot: Slot| slot->Replay_0,
        ));
    }
}

/// The places of the wanted slots are all of them, each once and from the front to the back.
pub proof fn law_places_are_those_wanted(slots: Seq<Slot>, wanted: spec_fn(Slot) -> bool)
    requires
        slots.len() <= usize::MAX,
    ensures
        forall|i: int|
            #![trigger places_of(slots, wanted)[i]]
            0 <= i < places_of(slots, wanted).len() ==> {
                &&& places_of(slots, wanted)[i] < slots.len()
                &&& wanted(slots[places_of(slots, wanted)[i] as int])
            },
        forall|i: int, j: int|
            0 <= i < j < places_of(slots, wanted).len() ==> places_of(slots, wanted)[i] < places_of(
                slots,
                wanted,
            )[j],
        places_of(slots, wanted).len() == slots.filter(wanted).len(),
    decreases slots.len(),
{
    reveal(Seq::filter);
    if slots.len() > 0 {
        let rest = slots.drop_last();
        law_places_are_those_wanted(rest, wanted);
        let places = places_of(slots, wanted);
        let before = places_of(rest, wanted);
        assert forall|i: int| #![trigger places[i]] 0 <= i < places.len() implies {
            &&& places[i] < slots.len()
            &&& wanted(slots[places[i] as int])
        } by {
            if i < before.len() {
                assert(places[i] == before[i]);
                assert(rest[before[i] as int] == slots[before[i] as int]);
            }
        }
        assert forall|i: int, j: int| 0 <= i < j < places.len() implies places[i] < places[j] by {
            assert(places[i] == before[i]);
            if j < before.len() {
                assert(places[j] == before[j]);
            }
        }
    }
}

/// Where no slot has to do with the cache, the database's answer goes to the client as it is: what
/// goes there and what is not a whole message yet make up the answer. The cache is left alone.
pub proof fn law_uncached_answer_is_passed_on(
    slots: Seq<Slot>,
    pending: Seq<u8>,
    cache: CacheState,
    now: Moment,
)
    requires
        forall|i: int|
            0 <= i < slots.len() ==> !((#[trigger] slots[i]) is Replay) && !(slots[i] is Capture),
    ensures
        ({
            let answer = answered(slots, pending, cache, now);
            &&& answer.output + answer.pending == pending
            &&& frames(answer.pending).len() == 0
            &&& answer.cache == cache
            &&& answer.error == framing_error(pending)
        }),
    decreases slots.len(),
{
    lemma_nothing_picked(slots);
    law_framing_keeps_every_byte(pending);
    lemma_nothing_behind(pending);
}

proof fn lemma_nothing_picked(slots: Seq<Slot>)
    requires
        forall|i: int|
            0 <= i < slots.len() ==> !((#[trigger] slots[i]) is Replay) && !(slots[i] is Capture),
    ensures
        captures_of(slots).len() == 0,
        replays_of(slots).len() == 0,
    decreases slots.len(),
{
    if slots.len() > 0 {
        let rest = slots.drop_last();
        assert forall|i: int| 0 <= i < rest.len() implies !((#[trigger] rest[i]) is Replay) && !(
        rest[i] is Capture) by {
            assert(rest[i] == slots[i]);
        }
        lemma_nothing_picked(rest);
        assert(slots.last() == slots[slots.len() - 1]);
    }
}

proof fn lemma_nothing_behind(pending: Seq<u8>)
    ensures
        frames(after_frames(pending)).len() == 0,
    decreases pending.len(),
{
    if let Ok(Some(_)) = first_frame(pending) {
        lemma_nothing_behind(after_first_frame(pending));
    }
}

/// Where slots are captured, each takes its own answer, and of what stands behind these as many
/// messages are dropped as there are slots.
pub proof fn law_captured_answers_are_passed_on(
    slots: Seq<Slot>,
    replies: Seq<Reply>,
    messages: Seq<Seq<u8>>,
    partial: Seq<u8>,
    cache: CacheState,
    now: Moment,
)
    requires
        replies.len() == slots.filter(|slot: Slot| slot is Capture).len(),
        replies.len() > 0,
        forall|i: int| 0 <= i < replies.len() ==> (#[trigger] replies[i]).valid(),
        forall|i: int| 0 <= i < messages.len() ==> is_frame(#[trigger] messages[i]),
        first_frame(partial) == Ok::<Option<Seq<u8>>, Seq<char>>(None),
    ensures
        ({
            let captures = slots.filter(|slot: Slot| slot is Capture).map_values(
                |slot: Slot| slot->Capture_0,
            );
            let pending = all_bytes(replies) + (concatenated(messages) + partial);
            let answer = answered(slots, pending, cache, now);
            &&& answer.output == all_passed(captures, replies)
            &&& answer.pending == concatenated(
                messages.skip(
                    if slots.len() < messages.len() {
                        slots.len() as int
                    } else {
                        messages.len() as int
                    },
                ),
            ) + partial
            &&& answer.cache == all_captured(captures, Seq::empty(), pending, cache, now).cache
            &&& answer.error is None
        }),
{
    law_captures_and_replays_are_picked_in_order(slots);
    let rest = concatenated(messages) + partial;
    law_each_capture_takes_its_own_answer(
        captures_of(slots),
        replies,
        Seq::empty(),
        rest,
        cache,
        now,
    );
    law_dropping_takes_from_the_front(messages, partial, slots.len());
    assert(Seq::<u8>::empty() + all_passed(captures_of(slots), replies) =~= all_passed(
        captures_of(slots),
        replies,
    ));
}

/// Where slots are answered from the cache and none is captured, nothing of the database's answer
/// goes to the client: as many messages are dropped as there are slots. The cache is left alone.
pub proof fn law_answers_to_replays_are_dropped(
    slots: Seq<Slot>,
    messages: Seq<Seq<u8>>,
    partial: Seq<u8>,
    cache: CacheState,
    now: Moment,
)
    requires
        slots.filter(|slot: Slot| slot is Capture).len() == 0,
        slots.filter(|slot: Slot| slot is Replay).len() > 0,
        forall|i: int| 0 <= i < messages.len() ==> is_frame(#[trigger] messages[i]),
        first_frame(partial) == Ok::<Option<Seq<u8>>, Seq<char>>(None),
    ensures
        answered(slots, concatenated(messages) + partial, cache, now) == (Answer {
            output: Seq::empty(),
            pending: concatenated(
                messages.skip(
                    if slots.len() < messages.len() {
                        slots.len() as int
                    } else {
                        messages.len() as int
                    },
                ),
            ) + partial,
            cache,
            error: None,
        }),
{
    law_captures_and_replays_are_picked_in_order(slots);
    law_dropping_takes_from_the_front(messages, partial, slots.len());
}

/// A message of an impossible length fails the capture with its text: nothing goes to the client,
/// and the bytes from there on are left.
pub proof fn law_broken_answer_fails(
    capture: CaptureText,
    partial: Partial,
    messages: Seq<Seq<u8>>,
    broken: Seq<u8>,
    text: Seq<char>,
    cache: CacheState,
    now: Moment,
)
    requires
        not_ready(messages),
        first_frame(broken) == Err::<Option<Seq<u8>>, Seq<char>>(text),
    ensures
        ({
            let answer = captured(capture, partial, concatenated(messages) + broken, cache, now);
            &&& answer.output.len() == 0
            &&& answer.pending == broken
            &&& answer.error == Some(text)
        }),
    decreases messages.len(),
{
    if messages.len() == 0 {
        assert(concatenated(messages) + broken =~= broken);
    } else {
        let more = messages.skip(1);
        assert(concatenated(messages) + broken =~= messages[0] + (concatenated(more) + broken));
        lemma_frame_in_front(messages[0], concatenated(more) + broken);
        assert forall|i: int| 0 <= i < more.len() implies {
            &&& is_frame(#[trigger] more[i])
            &&& more[i][0] != READY_FOR_QUERY_TYPE
        } by {
            assert(more[i] == messages[i + 1]);
        }
        let after = with_message(capture.protocol_mode, partial, messages[0]);
        let cache_after = if messages[0][0] == COMMAND_COMPLETE_TYPE {
            cache.with_entry(
                capture.key,
                response_of(capture, after),
                now.later(capture.ttl as nat),
            )
        } else {
            cache
        };
        law_broken_answer_fails(capture, after, more, broken, text, cache_after, now);
    }
}

} // verus!
