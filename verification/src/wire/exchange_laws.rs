//! What holds of the planning of all that a client sends.
use vstd::prelude::*;
use crate::clock::Moment;
use crate::wire::message_framer::{
    after_first_frame, after_frames, first_frame, frames, is_frame, lemma_first_frame_stays,
    lemma_frame_in_front,
};
use crate::wire::plan_model::{
    after_message, after_messages, after_query, single, Run, Verdict, TERMINATE_TYPE,
};
use crate::wire::types::{empty_scratch, MessageKind, Session, Slot};

verus! {

/// It does not matter to the planning in how many pieces a client's bytes come in, as long as it
/// does not give the connection up.
pub proof fn law_pieces_do_not_matter_to_planning(
    run: Run,
    first: Seq<u8>,
    second: Seq<u8>,
    now: Moment,
)
    requires
        after_messages(run, first, now).2 is None,
        forall|i: int|
            0 <= i < frames(first).len() ==> (#[trigger] frames(first)[i])[0] != TERMINATE_TYPE,
    ensures
        after_messages(run, first + second, now) == after_messages(
            after_messages(run, first, now).0,
            after_messages(run, first, now).1 + second,
            now,
        ),
    decreases first.len(),
{
    if let Ok(Some(message)) = first_frame(first) {
        let rest = after_first_frame(first);
        lemma_first_frame_stays(first, second);
        assert(frames(first)[0] == message);
        assert forall|i: int| 0 <= i < frames(rest).len() implies (#[trigger] frames(rest)[i])[0]
            != TERMINATE_TYPE by {
            assert(frames(first)[i + 1] == frames(rest)[i]);
        }
        let (after, verdict) = after_message(run, message, now);
        assert(verdict is GoesOn);
        law_pieces_do_not_matter_to_planning(after, rest, second, now);
    }
}

/// A Terminate goes to the database and stops the planning at once: what waits for a Sync is
/// dropped, and what stands behind it is left alone.
pub proof fn law_terminate_stops(run: Run, message: Seq<u8>, rest: Seq<u8>, now: Moment)
    requires
        is_frame(message),
        message[0] == TERMINATE_TYPE,
    ensures
        after_messages(run, message + rest, now) == (
            Run {
                session: Session { scratch: empty_scratch(), ..run.session },
                cycles: run.cycles.push(
                    single(Slot::Passthrough { bytes: message, kind: MessageKind::Terminate }),
                ),
                ..run
            },
            rest,
            None::<Seq<char>>,
        ),
{
    lemma_frame_in_front(message, rest);
}

/// A simple query does away with the unnamed statement and leaves the named ones and what waits for
/// a Sync alone.
pub proof fn law_query_ends_the_unnamed_statement(run: Run, message: Seq<u8>, now: Moment)
    ensures
        ({
            let after = after_query(run, message, now).0.session;
            &&& after.statements == run.session.statements.remove(Seq::empty())
            &&& after.portals == run.session.portals
            &&& after.scratch == run.session.scratch
        }),
{
}

/// The messages of a client are handled one after the other: the first as if it came alone, and
/// those behind it by what it left, as long as nothing fails and the connection is not given up.
pub proof fn law_messages_are_handled_one_by_one(
    run: Run,
    message: Seq<u8>,
    rest: Seq<u8>,
    now: Moment,
)
    requires
        is_frame(message),
    ensures
        match after_message(run, message, now) {
            (after, Verdict::GoesOn) => after_messages(run, message + rest, now) == after_messages(
                after,
                rest,
                now,
            ),
            (after, Verdict::Stops) => after_messages(run, message + rest, now) == (
                after,
                rest,
                None::<Seq<char>>,
            ),
            (after, Verdict::Fails(text)) => after_messages(run, message + rest, now) == (
                after,
                rest,
                Some(text),
            ),
        },
{
    lemma_frame_in_front(message, rest);
}

/// Unless something fails or the connection is given up, every whole message is handled, and what
/// is left is not a whole message.
pub proof fn law_every_whole_message_is_handled(run: Run, pending: Seq<u8>, now: Moment)
    requires
        after_messages(run, pending, now).2 is None,
        forall|i: int|
            0 <= i < frames(pending).len() ==> (#[trigger] frames(pending)[i])[0] != TERMINATE_TYPE,
    ensures
        after_messages(run, pending, now).1 == after_frames(pending),
    decreases pending.len(),
{
    if let Ok(Some(message)) = first_frame(pending) {
        let rest = after_first_frame(pending);
        assert(frames(pending)[0] == message);
        assert forall|i: int| 0 <= i < frames(rest).len() implies (#[trigger] frames(rest)[i])[0]
            != TERMINATE_TYPE by {
            assert(frames(pending)[i + 1] == frames(rest)[i]);
        }
        let (after, verdict) = after_message(run, message, now);
        assert(verdict is GoesOn);
        law_every_whole_message_is_handled(after, rest, now);
    }
}

} // verus!
