//! When the database is ready for the next query.
use vstd::prelude::*;
use crate::wire::answer_laws::not_ready;
use crate::wire::capture_model::READY_FOR_QUERY_TYPE;
use crate::wire::data_phase::until_ready;
use crate::wire::message_framer::{
    after_first_frame, after_frames, concatenated, first_frame, frames, is_frame,
    lemma_first_frame_stays, lemma_frame_in_front,
};
use crate::wire::startup_phase::{
    after_exchange, StartupStep, SSL_ACCEPTED, SSL_REFUSED, SSL_UNSUPPORTED,
};
use crate::wire::types::WireProtocolStates;

verus! {

/// The database is ready with its first ReadyForQuery, whatever came before it, and what stands
/// behind that is left.
pub proof fn law_ready_with_the_first_ready_for_query(
    messages: Seq<Seq<u8>>,
    ready: Seq<u8>,
    rest: Seq<u8>,
)
    requires
        not_ready(messages),
        is_frame(ready),
        ready[0] == READY_FOR_QUERY_TYPE,
    ensures
        until_ready(concatenated(messages) + (ready + rest)) == (true, rest),
    decreases messages.len(),
{
    let tail = ready + rest;
    if messages.len() == 0 {
        assert(concatenated(messages) + tail =~= tail);
        lemma_frame_in_front(ready, rest);
    } else {
        let more = messages.skip(1);
        assert(concatenated(messages) + tail =~= messages[0] + (concatenated(more) + tail));
        lemma_frame_in_front(messages[0], concatenated(more) + tail);
        assert forall|i: int| 0 <= i < more.len() implies {
            &&& is_frame(#[trigger] more[i])
            &&& more[i][0] != READY_FOR_QUERY_TYPE
        } by {
            assert(more[i] == messages[i + 1]);
        }
        law_ready_with_the_first_ready_for_query(more, ready, rest);
    }
}

/// Without a ReadyForQuery among the whole messages that came in, the database is not ready. The
/// messages are taken, and what is not a whole message yet is left.
pub proof fn law_not_ready_without_ready_for_query(messages: Seq<Seq<u8>>, partial: Seq<u8>)
    requires
        not_ready(messages),
        frames(partial).len() == 0,
    ensures
        until_ready(concatenated(messages) + partial) == (false, partial),
    decreases messages.len(),
{
    if messages.len() == 0 {
        assert(concatenated(messages) + partial =~= partial);
    } else {
        let more = messages.skip(1);
        assert(concatenated(messages) + partial =~= messages[0] + (concatenated(more) + partial));
        lemma_frame_in_front(messages[0], concatenated(more) + partial);
        assert forall|i: int| 0 <= i < more.len() implies {
            &&& is_frame(#[trigger] more[i])
            &&& more[i][0] != READY_FOR_QUERY_TYPE
        } by {
            assert(more[i] == messages[i + 1]);
        }
        law_not_ready_without_ready_for_query(more, partial);
    }
}

/// The database is ready exactly if one of the whole messages that came in is a ReadyForQuery. If
/// it is not, all whole messages are taken.
pub proof fn law_ready_exactly_with_ready_for_query(pending: Seq<u8>)
    ensures
        until_ready(pending).0 <==> exists|i: int|
            0 <= i < frames(pending).len() && (#[trigger] frames(pending)[i])[0]
                == READY_FOR_QUERY_TYPE,
        !until_ready(pending).0 ==> until_ready(pending).1 == after_frames(pending),
    decreases pending.len(),
{
    if let Ok(Some(message)) = first_frame(pending) {
        let rest = after_first_frame(pending);
        law_ready_exactly_with_ready_for_query(rest);
        assert(frames(pending)[0] == message);
        if message[0] != READY_FOR_QUERY_TYPE {
            if until_ready(rest).0 {
                let i = choose|i: int|
                    0 <= i < frames(rest).len() && (#[trigger] frames(rest)[i])[0]
                        == READY_FOR_QUERY_TYPE;
                assert(frames(pending)[i + 1] == frames(rest)[i]);
            } else {
                assert forall|i: int| 0 <= i < frames(pending).len() implies (#[trigger] frames(
                    pending,
                )[i])[0] != READY_FOR_QUERY_TYPE by {
                    if i > 0 {
                        assert(frames(rest)[i - 1] == frames(pending)[i]);
                    }
                }
            }
        }
    }
}

/// It does not matter in how many pieces the database's answer comes in: where the first piece does
/// not make it ready, what is left of it and the next one do what both together do; where it does,
/// the next one is left behind it.
pub proof fn law_pieces_do_not_matter_to_readiness(pending: Seq<u8>, more: Seq<u8>)
    ensures
        until_ready(pending).0 ==> until_ready(pending + more) == (
            true,
            until_ready(pending).1 + more,
        ),
        !until_ready(pending).0 ==> until_ready(pending + more) == until_ready(
            until_ready(pending).1 + more,
        ),
    decreases pending.len(),
{
    if let Ok(Some(message)) = first_frame(pending) {
        lemma_first_frame_stays(pending, more);
        law_pieces_do_not_matter_to_readiness(after_first_frame(pending), more);
    }
}

/// A database that refuses encryption goes on to the startup, one that accepts it ends the
/// connection, and any other answer is waited on.
pub proof fn law_encryption_is_refused(first: u8, pending: Seq<u8>)
    ensures
        after_exchange(WireProtocolStates::WaitingForSSL, first, pending) == if first
            == SSL_ACCEPTED {
            StartupStep::GivenUp(SSL_UNSUPPORTED@)
        } else if first == SSL_REFUSED {
            StartupStep::Next(WireProtocolStates::WaitingForStartup)
        } else {
            StartupStep::Next(WireProtocolStates::WaitingForSSL)
        },
{
}

/// The startup ends exactly with a ReadyForQuery of the database, whatever the first byte is, and
/// stays ended.
pub proof fn law_startup_ends_with_ready_for_query(first: u8, pending: Seq<u8>)
    ensures
        after_exchange(WireProtocolStates::WaitingForStartup, first, pending) == StartupStep::Next(
            if exists|i: int|
                0 <= i < frames(pending).len() && (#[trigger] frames(pending)[i])[0]
                    == READY_FOR_QUERY_TYPE {
                WireProtocolStates::ReadyForQuery
            } else {
                WireProtocolStates::WaitingForStartup
            },
        ),
        after_exchange(WireProtocolStates::ReadyForQuery, first, pending) == StartupStep::Next(
            WireProtocolStates::ReadyForQuery,
        ),
{
    law_ready_exactly_with_ready_for_query(pending);
}

} // verus!
