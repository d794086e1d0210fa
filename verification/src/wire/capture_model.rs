//! What capturing comes to: which parts of the database's answer are cached, and which go on to
//! the client.
use vstd::prelude::*;
use crate::cache::lfu::{CacheState, ResponseBytes};
use crate::clock::Moment;
use crate::wire::message_framer::{
    after_first_frame, after_frames, concatenated, first_frame, frames, framing_error,
};
use crate::wire::types::{CaptureText, DescribeKind, ProtocolMode, ReplayText, Slot};

verus! {

/// The type byte of a CommandComplete, `C`.
pub const COMMAND_COMPLETE_TYPE: u8 = 0x43;

/// The type byte of a ReadyForQuery, `Z`.
pub const READY_FOR_QUERY_TYPE: u8 = 0x5A;

/// The type byte of a ParameterDescription, `t`.
pub const PARAMETER_DESCRIPTION_TYPE: u8 = 0x74;

/// The type byte of a RowDescription, `T`.
pub const ROW_DESCRIPTION_TYPE: u8 = 0x54;

/// The type byte of a DataRow, `D`.
pub const DATA_ROW_TYPE: u8 = 0x44;

/// What has come in of a response.
pub struct Partial {
    pub data: Seq<u8>,
    pub param_desc: Seq<u8>,
    pub row_desc: Seq<u8>,
}

/// Nothing has come in yet.
pub open spec fn nothing_yet() -> Partial {
    Partial { data: Seq::empty(), param_desc: Seq::empty(), row_desc: Seq::empty() }
}

/// `partial` with `message` as well. The answer to a simple query is kept as it comes; of that to
/// an execution, the descriptions are kept apart and all but rows and completion is left out.
pub open spec fn with_message(mode: ProtocolMode, partial: Partial, message: Seq<u8>) -> Partial {
    let byte = message[0];
    match mode {
        ProtocolMode::Simple => Partial { data: partial.data + message, ..partial },
        ProtocolMode::Extended => if byte == COMMAND_COMPLETE_TYPE || byte == DATA_ROW_TYPE {
            Partial { data: partial.data + message, ..partial }
        } else if byte == PARAMETER_DESCRIPTION_TYPE {
            Partial { param_desc: message, ..partial }
        } else if byte == ROW_DESCRIPTION_TYPE {
            Partial { row_desc: message, ..partial }
        } else {
            partial
        },
    }
}

/// The response that is cached of `partial`: with the descriptions that were asked for.
pub open spec fn response_of(capture: CaptureText, partial: Partial) -> ResponseBytes {
    let described = capture.protocol_mode == ProtocolMode::Extended;
    ResponseBytes {
        param_desc: if described && capture.describe_kind == DescribeKind::Statement {
            Some(partial.param_desc)
        } else {
            None
        },
        row_desc: if described && capture.describe_kind != DescribeKind::Nothing {
            Some(partial.row_desc)
        } else {
            None
        },
        data: partial.data,
    }
}

/// Where capturing stands: what goes to the client, the bytes of the database that are left, the
/// cache, and the error text where a message has an impossible length.
#[verifier::ext_equal]
pub struct Answer {
    pub output: Seq<u8>,
    pub pending: Seq<u8>,
    pub cache: CacheState,
    pub error: Option<Seq<char>>,
}

/// What comes of `capture` on `pending` when `partial` has come in before: each completed command
/// is cached, and a ReadyForQuery ends it.
pub open spec fn captured(
    capture: CaptureText,
    partial: Partial,
    pending: Seq<u8>,
    cache: CacheState,
    now: Moment,
) -> Answer
    decreases pending.len(),
{
    match first_frame(pending) {
        Err(message) => Answer { output: Seq::empty(), pending, cache, error: Some(message) },
        Ok(None) => Answer { output: Seq::empty(), pending, cache, error: None },
        Ok(Some(message)) => {
            let rest = after_first_frame(pending);
            if message[0] == READY_FOR_QUERY_TYPE {
                Answer { output: partial.data + message, pending: rest, cache, error: None }
            } else {
                let after = with_message(capture.protocol_mode, partial, message);
                let cache_after = if message[0] == COMMAND_COMPLETE_TYPE {
                    cache.with_entry(
                        capture.key,
                        response_of(capture, after),
                        now.later(capture.ttl as nat),
                    )
                } else {
                    cache
                };
                captured(capture, after, rest, cache_after, now)
            }
        },
    }
}

/// What comes of `captures`, one after the other, when `output` goes to the client already.
pub open spec fn all_captured(
    captures: Seq<CaptureText>,
    output: Seq<u8>,
    pending: Seq<u8>,
    cache: CacheState,
    now: Moment,
) -> Answer
    decreases captures.len(),
{
    if captures.len() == 0 {
        Answer { output, pending, cache, error: None }
    } else {
        let first = captured(captures[0], nothing_yet(), pending, cache, now);
        if first.error is Some {
            Answer { output, ..first }
        } else {
            all_captured(
                captures.skip(1),
                output + first.output,
                first.pending,
                first.cache,
                now,
            )
        }
    }
}

/// What is left of `pending` once up to `count` more messages are dropped, and the error text where
/// one has an impossible length.
pub open spec fn dropped(pending: Seq<u8>, count: nat) -> (Seq<u8>, Option<Seq<char>>)
    decreases count,
{
    if count == 0 {
        (pending, None)
    } else {
        match first_frame(pending) {
            Err(message) => (pending, Some(message)),
            Ok(_) => dropped(after_first_frame(pending), (count - 1) as nat),
        }
    }
}

/// The captures among `slots`.
pub open spec fn captures_of(slots: Seq<Slot>) -> Seq<CaptureText>
    decreases slots.len(),
{
    if slots.len() == 0 {
        Seq::empty()
    } else {
        let before = captures_of(slots.drop_last());
        match slots.last() {
            Slot::Capture(capture) => before.push(capture),
            _ => before,
        }
    }
}

/// The replays among `slots`.
pub open spec fn replays_of(slots: Seq<Slot>) -> Seq<ReplayText>
    decreases slots.len(),
{
    if slots.len() == 0 {
        Seq::empty()
    } else {
        let before = replays_of(slots.drop_last());
        match slots.last() {
            Slot::Replay(replay) => before.push(replay),
            _ => before,
        }
    }
}

/// Where the slots stand of which `wanted` holds.
pub open spec fn places_of(slots: Seq<Slot>, wanted: spec_fn(Slot) -> bool) -> Seq<usize>
    decreases slots.len(),
{
    if slots.len() == 0 {
        Seq::empty()
    } else {
        let before = places_of(slots.drop_last(), wanted);
        if wanted(slots.last()) {
            before.push((slots.len() - 1) as usize)
        } else {
            before
        }
    }
}

/// What comes of the database's answer `pending` to the messages of `slots`. Where none of them has
/// to do with the cache, all of it goes to the client.
pub open spec fn answered(
    slots: Seq<Slot>,
    pending: Seq<u8>,
    cache: CacheState,
    now: Moment,
) -> Answer {
    if replays_of(slots).len() == 0 && captures_of(slots).len() == 0 {
        Answer {
            output: concatenated(frames(pending)),
            pending: after_frames(pending),
            cache,
            error: framing_error(pending),
        }
    } else {
        let after = all_captured(captures_of(slots), Seq::empty(), pending, cache, now);
        if after.error is Some {
            after
        } else {
            let (rest, error) = dropped(after.pending, slots.len());
            Answer { pending: rest, error, ..after }
        }
    }
}

} // verus!
