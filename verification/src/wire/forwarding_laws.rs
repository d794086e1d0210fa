//! What becomes of messages that have nothing to do with the cache.
use vstd::prelude::*;
use crate::clock::Moment;
use crate::server::state::Shared;
use crate::wire::data_phase::{cycle_writes, db_writes, slot_write, slot_writes, sync_message};
use crate::wire::message_framer::{
    after_first_frame, concatenated, first_frame, frames, lemma_concatenated_joined,
    lemma_concatenated_push,
};
use crate::wire::messages::{execute_content, parse_content, query_content};
use crate::wire::plan_model::{
    after_entries, after_entry, after_message, after_messages, at_sync, body, final_slots, plan_of,
    portal_plan, single, waiting_kind, Progress, Run, Verdict, PARSE_TYPE, QUERY_TYPE, SYNC_TYPE,
    TERMINATE_TYPE,
};
use crate::wire::types::{CycleText, EntryText, MessageKind, Session, Slot};

verus! {

/// The message `entry`, passed on.
pub open spec fn passed(entry: EntryText) -> Slot {
    Slot::Passthrough { bytes: entry.bytes, kind: entry.kind }
}

/// The message at `index` is no execution that is to be cached, as the planning stands before it.
pub open spec fn entry_uncached(progress: Progress, index: usize) -> bool {
    let entry = progress.session.scratch.entries[index as int];
    entry.kind == MessageKind::Execute ==> match execute_content(body(entry.bytes)) {
        Ok(content) => content.row_limit == 0 ==> portal_plan(
            progress.shared,
            progress.session,
            content.portal,
        ) is None,
        Err(_) => true,
    }
}

/// None of the messages that wait for a Sync is an execution that is to be cached.
pub open spec fn waiting_uncached(session: Session, shared: Shared, now: Moment) -> bool {
    forall|i: nat|
        i < session.scratch.entries.len() ==> entry_uncached(
            (#[trigger] after_entries(session, shared, i, now)).0,
            i as usize,
        )
}

proof fn lemma_all_passed(session: Session, shared: Shared, count: nat, now: Moment)
    requires
        waiting_uncached(session, shared, now),
        count <= session.scratch.entries.len() <= usize::MAX,
    ensures
        ({
            let progress = after_entries(session, shared, count, now).0;
            &&& progress.shared == shared
            &&& progress.session.scratch.entries == session.scratch.entries
            &&& progress.slots.len() == session.scratch.entries.len()
            &&& forall|i: int|
                0 <= i < progress.slots.len() && (#[trigger] progress.slots[i]) is Some
                    ==> progress.slots[i] == Some(passed(session.scratch.entries[i]))
        }),
    decreases count,
{
    if count > 0 {
        lemma_all_passed(session, shared, (count - 1) as nat, now);
        let (before, error) = after_entries(session, shared, (count - 1) as nat, now);
        let index = (count - 1) as usize;
        assert(entry_uncached(before, index));
        if error is None {
            if let Ok(after) = after_entry(before, index, now) {
                assert forall|i: int|
                    0 <= i < after.slots.len() && (#[trigger] after.slots[i]) is Some implies
                    after.slots[i] == Some(passed(session.scratch.entries[i])) by {
                    if i != index {
                        assert(after.slots[i] == before.slots[i]);
                    }
                }
            }
        }
    }
}

/// Where no execution up to a Sync is to be cached, every message goes to the database as it is,
/// and the cache is left alone.
pub proof fn law_uncached_messages_are_passed_on(session: Session, shared: Shared, now: Moment)
    requires
        waiting_uncached(session, shared, now),
        session.scratch.entries.len() <= usize::MAX,
        at_sync(session, shared, now).1 is None,
    ensures
        at_sync(session, shared, now).0.shared == shared,
        final_slots(session.scratch.entries, at_sync(session, shared, now).0.slots)
            == session.scratch.entries.map_values(|entry: EntryText| passed(entry)),
{
    lemma_all_passed(session, shared, session.scratch.entries.len(), now);
    assert(final_slots(session.scratch.entries, at_sync(session, shared, now).0.slots)
        =~= session.scratch.entries.map_values(|entry: EntryText| passed(entry)));
}

/// The bytes that wait for the next Sync.
pub open spec fn waiting_bytes(session: Session) -> Seq<u8> {
    concatenated(session.scratch.entries.map_values(|entry: EntryText| entry.bytes))
}

/// The bytes that were written to the database.
pub open spec fn written_bytes(cycles: Seq<CycleText>) -> Seq<u8> {
    concatenated(db_writes(cycles))
}

proof fn lemma_passed_writes(entries: Seq<EntryText>)
    ensures
        slot_writes(entries.map_values(|entry: EntryText| passed(entry))) == entries.map_values(
            |entry: EntryText| entry.bytes,
        ),
    decreases entries.len(),
{
    let slots = entries.map_values(|entry: EntryText| passed(entry));
    let texts = entries.map_values(|entry: EntryText| entry.bytes);
    if entries.len() > 0 {
        let rest = entries.drop_last();
        lemma_passed_writes(rest);
        assert(slots.drop_last() =~= rest.map_values(|entry: EntryText| passed(entry)));
        assert(texts =~= rest.map_values(|entry: EntryText| entry.bytes).push(
            entries.last().bytes,
        ));
    } else {
        assert(slot_writes(slots) =~= texts);
    }
}

proof fn lemma_writes_push(cycles: Seq<CycleText>, cycle: CycleText)
    ensures
        written_bytes(cycles.push(cycle)) == written_bytes(cycles) + concatenated(
            cycle_writes(cycle),
        ),
{
    assert(cycles.push(cycle).drop_last() =~= cycles);
    lemma_concatenated_joined(db_writes(cycles), cycle_writes(cycle));
}

proof fn lemma_single_write(slot: Slot, bytes: Seq<u8>)
    requires
        slot_write(slot) == Some(bytes),
    ensures
        concatenated(cycle_writes(single(slot))) == bytes,
{
    let slots = seq![slot];
    assert(slots.drop_last() =~= Seq::<Slot>::empty());
    assert(slot_writes(slots.drop_last()) =~= Seq::<Seq<u8>>::empty());
    assert(slot_writes(slots) =~= seq![bytes]);
    lemma_concatenated_push(Seq::empty(), bytes);
    assert(Seq::<Seq<u8>>::empty().push(bytes) =~= seq![bytes]);
    assert(concatenated(Seq::<Seq<u8>>::empty()) + bytes =~= bytes);
}

/// A message that keeps the order: a Sync has no body, and a simple query or the end of the
/// connection comes when nothing waits.
pub open spec fn orderly(message: Seq<u8>, session: Session) -> bool {
    &&& message[0] == SYNC_TYPE ==> message == sync_message()
    &&& message[0] == QUERY_TYPE ==> session.scratch.entries.len() == 0
    &&& message[0] == TERMINATE_TYPE ==> session.scratch.entries.len() == 0
}

/// `message` has nothing to do with the cache: it is no simple query that is to be cached, and no
/// Sync behind an execution that is.
pub open spec fn message_uncached(run: Run, message: Seq<u8>, now: Moment) -> bool {
    &&& message[0] == QUERY_TYPE ==> match query_content(body(message)) {
        Ok(content) => plan_of(run.shared, content.query, Seq::empty()) is None,
        Err(_) => true,
    }
    &&& message[0] == SYNC_TYPE ==> waiting_uncached(run.session, run.shared, now)
}

/// A message that has nothing to do with the cache goes to the database, or waits to, behind those
/// that came before it.
pub proof fn law_uncached_message_is_forwarded(run: Run, message: Seq<u8>, now: Moment)
    requires
        message_uncached(run, message, now),
        run.session.scratch.entries.len() <= usize::MAX,
        orderly(message, run.session),
        !(after_message(run, message, now).1 is Fails),
    ensures
        ({
            let after = after_message(run, message, now).0;
            &&& after.shared == run.shared
            &&& written_bytes(after.cycles) + waiting_bytes(after.session) == written_bytes(
                run.cycles,
            ) + waiting_bytes(run.session) + message
        }),
{
    let after = after_message(run, message, now).0;
    let entry_bytes = |entry: EntryText| entry.bytes;
    let entries = run.session.scratch.entries;
    if let Some(kind) = waiting_kind(message[0]) {
        assert(after.session.scratch.entries.map_values(entry_bytes) =~= entries.map_values(
            entry_bytes,
        ).push(message));
        lemma_concatenated_push(entries.map_values(entry_bytes), message);
        assert(written_bytes(after.cycles) + waiting_bytes(after.session) =~= written_bytes(
            run.cycles,
        ) + waiting_bytes(run.session) + message);
    } else if message[0] == SYNC_TYPE {
        law_uncached_messages_are_passed_on(run.session, run.shared, now);
        lemma_all_passed(run.session, run.shared, entries.len(), now);
        let cycle = after.cycles.last();
        lemma_writes_push(run.cycles, cycle);
        lemma_passed_writes(entries);
        lemma_concatenated_push(slot_writes(cycle.slots), sync_message());
        assert(after.session.scratch.entries.map_values(entry_bytes) =~= Seq::<Seq<u8>>::empty());
        assert(written_bytes(after.cycles) + waiting_bytes(after.session) =~= written_bytes(
            run.cycles,
        ) + waiting_bytes(run.session) + message);
    } else {
        let kind = if message[0] == QUERY_TYPE {
            MessageKind::Query
        } else {
            MessageKind::Terminate
        };
        let slot = Slot::Passthrough { bytes: message, kind };
        lemma_writes_push(run.cycles, single(slot));
        lemma_single_write(slot, message);
        assert(entries.map_values(entry_bytes) =~= Seq::<Seq<u8>>::empty());
        assert(after.session.scratch.entries.map_values(entry_bytes) =~= Seq::<Seq<u8>>::empty());
        assert(written_bytes(after.cycles) + waiting_bytes(after.session) =~= written_bytes(
            run.cycles,
        ) + waiting_bytes(run.session) + message);
    }
}

/// All messages of `pending` keep the order when their turn comes.
pub open spec fn all_orderly(run: Run, pending: Seq<u8>, now: Moment) -> bool
    decreases pending.len(),
{
    match first_frame(pending) {
        Ok(Some(message)) => {
            &&& orderly(message, run.session)
            &&& run.session.scratch.entries.len() < usize::MAX
            &&& match after_message(run, message, now) {
                (after, Verdict::GoesOn) => all_orderly(after, after_first_frame(pending), now),
                _ => true,
            }
        },
        _ => true,
    }
}

/// No message of `pending` has to do with the cache when its turn comes.
pub open spec fn all_uncached(run: Run, pending: Seq<u8>, now: Moment) -> bool
    decreases pending.len(),
{
    match first_frame(pending) {
        Ok(Some(message)) => {
            &&& message_uncached(run, message, now)
            &&& match after_message(run, message, now) {
                (after, Verdict::GoesOn) => all_uncached(after, after_first_frame(pending), now),
                _ => true,
            }
        },
        _ => true,
    }
}

/// To traffic that has nothing to do with the cache, the proxy is transparent: what was written to
/// the database, what waits for a Sync and what is not handled yet make up what the client sent,
/// byte by byte and in order.
pub proof fn law_uncached_traffic_is_unchanged(run: Run, pending: Seq<u8>, now: Moment)
    requires
        all_uncached(run, pending, now),
        all_orderly(run, pending, now),
        after_messages(run, pending, now).2 is None,
    ensures
        ({
            let (after, rest, _) = after_messages(run, pending, now);
            &&& after.shared == run.shared
            &&& written_bytes(after.cycles) + waiting_bytes(after.session) + rest == written_bytes(
                run.cycles,
            ) + waiting_bytes(run.session) + pending
        }),
    decreases pending.len(),
{
    if let Ok(Some(message)) = first_frame(pending) {
        let rest = after_first_frame(pending);
        let (after, verdict) = after_message(run, message, now);
        assert(pending =~= message + rest);
        assert(!(verdict is Fails));
        law_uncached_message_is_forwarded(run, message, now);
        if verdict is GoesOn {
            law_uncached_traffic_is_unchanged(after, rest, now);
        }
        assert(written_bytes(run.cycles) + waiting_bytes(run.session) + pending =~= written_bytes(
            run.cycles,
        ) + waiting_bytes(run.session) + message + rest);
    }
}

/// The statements that `session` knows have no template.
pub open spec fn known_without_template(session: Session, shared: Shared) -> bool {
    forall|name: Seq<char>| #[trigger]
        session.statements.contains_key(name) ==> !shared.templates.contains_key(
            session.statements[name].query,
        )
}

/// The statement that a request to prepare says has no template.
pub open spec fn parse_without_template(message: Seq<u8>, shared: Shared) -> bool {
    match parse_content(body(message)) {
        Ok(content) => !shared.templates.contains_key(content.query),
        Err(_) => true,
    }
}

/// The statements that `session` knows, and those that wait to be prepared, have no template.
pub open spec fn session_without_template(session: Session, shared: Shared) -> bool {
    &&& known_without_template(session, shared)
    &&& forall|i: int|
        0 <= i < session.scratch.entries.len() && (#[trigger] session.scratch.entries[i]).kind
            == MessageKind::Parse ==> parse_without_template(
            session.scratch.entries[i].bytes,
            shared,
        )
}

/// What `message` asks to prepare, or asks as a simple query, has no template.
pub open spec fn message_without_template(message: Seq<u8>, shared: Shared) -> bool {
    &&& message[0] == PARSE_TYPE ==> parse_without_template(message, shared)
    &&& message[0] == QUERY_TYPE ==> match query_content(body(message)) {
        Ok(content) => !shared.templates.contains_key(content.query),
        Err(_) => true,
    }
}

proof fn lemma_without_template(session: Session, shared: Shared, count: nat, now: Moment)
    requires
        session_without_template(session, shared),
        count <= session.scratch.entries.len() <= usize::MAX,
    ensures
        ({
            let progress = after_entries(session, shared, count, now).0;
            &&& progress.shared == shared
            &&& progress.session.scratch.entries == session.scratch.entries
            &&& known_without_template(progress.session, shared)
            &&& count < session.scratch.entries.len() ==> entry_uncached(progress, count as usize)
        }),
    decreases count,
{
    if count > 0 {
        lemma_without_template(session, shared, (count - 1) as nat, now);
        let (before, error) = after_entries(session, shared, (count - 1) as nat, now);
        let index = (count - 1) as usize;
        assert(before.session.scratch.entries[index as int]
            == session.scratch.entries[index as int]);
        if error is None {
            if let Ok(after) = after_entry(before, index, now) {
                assert forall|name: Seq<char>| #[trigger]
                    after.session.statements.contains_key(name) implies
                    !shared.templates.contains_key(after.session.statements[name].query) by {
                    if before.session.statements.contains_key(name) {
                        assert(!shared.templates.contains_key(
                            before.session.statements[name].query,
                        ));
                    }
                }
            }
        }
    }
}

proof fn lemma_without_template_uncached(run: Run, pending: Seq<u8>, now: Moment)
    requires
        session_without_template(run.session, run.shared),
        forall|i: int|
            0 <= i < frames(pending).len() ==> message_without_template(
                #[trigger] frames(pending)[i],
                run.shared,
            ),
        all_orderly(run, pending, now),
    ensures
        all_uncached(run, pending, now),
    decreases pending.len(),
{
    if let Ok(Some(message)) = first_frame(pending) {
        let rest = after_first_frame(pending);
        let (after, verdict) = after_message(run, message, now);
        let entries = run.session.scratch.entries;
        assert(frames(pending)[0] == message);
        assert forall|i: nat| i < entries.len() implies entry_uncached(
            (#[trigger] after_entries(run.session, run.shared, i, now)).0,
            i as usize,
        ) by {
            lemma_without_template(run.session, run.shared, i, now);
        }
        lemma_without_template(run.session, run.shared, entries.len(), now);
        if verdict is GoesOn {
            assert(after.shared == run.shared);
            assert(known_without_template(after.session, run.shared));
            assert forall|i: int|
                0 <= i < after.session.scratch.entries.len() && (#[trigger]
                after.session.scratch.entries[i]).kind == MessageKind::Parse implies
                parse_without_template(after.session.scratch.entries[i].bytes, run.shared) by {
                if i < entries.len() {
                    assert(entries[i] == after.session.scratch.entries[i]);
                }
            }
            assert forall|i: int| 0 <= i < frames(rest).len() implies message_without_template(
                #[trigger] frames(rest)[i],
                run.shared,
            ) by {
                assert(frames(pending)[i + 1] == frames(rest)[i]);
            }
            lemma_without_template_uncached(after, rest, now);
        }
    }
}

/// To a client whose statements and queries have no template, the proxy is transparent, whatever
/// templates there are: what was written to the database, what waits for a Sync and what is not
/// handled yet make up what the client sent, byte by byte and in order. The cache is left alone.
pub proof fn law_traffic_without_template_is_unchanged(run: Run, pending: Seq<u8>, now: Moment)
    requires
        session_without_template(run.session, run.shared),
        forall|i: int|
            0 <= i < frames(pending).len() ==> message_without_template(
                #[trigger] frames(pending)[i],
                run.shared,
            ),
        all_orderly(run, pending, now),
        after_messages(run, pending, now).2 is None,
    ensures
        ({
            let (after, rest, _) = after_messages(run, pending, now);
            &&& after.shared == run.shared
            &&& written_bytes(after.cycles) + waiting_bytes(after.session) + rest == written_bytes(
                run.cycles,
            ) + waiting_bytes(run.session) + pending
        }),
{
    lemma_without_template_uncached(run, pending, now);
    law_uncached_traffic_is_unchanged(run, pending, now);
}

} // verus!
