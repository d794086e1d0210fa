//! What holds of planning whatever a client sends.
use vstd::prelude::*;
use crate::cache::laws::{law_operations_keep_order, law_other_keys_stay};
use crate::cache::lfu::{home, CacheState, ResponseBytes};
use crate::clock::Moment;
use crate::server::state::Shared;
use crate::wire::messages::{execute_content, ExecuteText, ParseText};
use crate::wire::plan_model::{
    after_entries, after_entry, after_execute, after_message, after_parse, at_sync, body,
    final_slots, lemma_waiting_in_order, portal_plan, satisfies, waiting_kind, Progress, Run,
    SYNC_TYPE,
};
use crate::wire::types::{
    scratch_in_order, CycleText, EntryText, MessageKind, Session, Slot, StatementText,
};

verus! {

/// `slot` is a decision on the message `entry`: it carries that message's bytes and kind, and only
/// an execution is answered or captured.
pub open spec fn decides_on(entry: EntryText, slot: Slot) -> bool {
    match slot {
        Slot::Passthrough { bytes, kind } => bytes == entry.bytes && kind == entry.kind,
        Slot::Skip { bytes, kind } => {
            &&& bytes == entry.bytes
            &&& kind == entry.kind
            &&& (kind == MessageKind::Parse || kind == MessageKind::Bind || kind
                == MessageKind::Describe)
        },
        Slot::Replay(_) => entry.kind == MessageKind::Execute,
        Slot::Capture(capture) => capture.bytes == entry.bytes && entry.kind
            == MessageKind::Execute,
    }
}

/// Every slot is a decision on its own message.
pub open spec fn slots_in_order(progress: Progress) -> bool {
    let entries = progress.session.scratch.entries;
    &&& progress.slots.len() == entries.len()
    &&& forall|i: int|
        0 <= i < entries.len() && (#[trigger] progress.slots[i]) is Some ==> decides_on(
            entries[i],
            progress.slots[i].unwrap(),
        )
}

/// What the handling of one message keeps.
proof fn lemma_entry(progress: Progress, index: usize, now: Moment)
    requires
        scratch_in_order(progress.session.scratch),
        slots_in_order(progress),
        index < progress.session.scratch.entries.len(),
        after_entry(progress, index, now) is Ok,
    ensures
        ({
            let after = after_entry(progress, index, now)->Ok_0;
            &&& scratch_in_order(after.session.scratch)
            &&& slots_in_order(after)
            &&& after.session.scratch.entries == progress.session.scratch.entries
            &&& after.shared.templates == progress.shared.templates
            &&& after.shared.global_ttl == progress.shared.global_ttl
            // Only an execution's own message decides on it.
            &&& forall|i: int|
                0 <= i < progress.slots.len() && i != index
                    && progress.session.scratch.entries[i].kind == MessageKind::Execute
                    ==> #[trigger] after.slots[i] == progress.slots[i]
        }),
{
    let entry = progress.session.scratch.entries[index as int];
    if entry.kind == MessageKind::Execute {
        let content = execute_content(body(entry.bytes))->Ok_0;
        lemma_execute(progress, index, content, now);
    }
}

proof fn lemma_execute(progress: Progress, index: usize, content: ExecuteText, now: Moment)
    requires
        scratch_in_order(progress.session.scratch),
        slots_in_order(progress),
        index < progress.session.scratch.entries.len(),
        progress.session.scratch.entries[index as int].kind == MessageKind::Execute,
    ensures
        ({
            let after = after_execute(progress, index, content, now);
            &&& slots_in_order(after)
            &&& after.session == progress.session
            &&& forall|i: int|
                0 <= i < progress.slots.len() && i != index
                    && progress.session.scratch.entries[i].kind == MessageKind::Execute
                    ==> #[trigger] after.slots[i] == progress.slots[i]
        }),
{
}

/// What the handling of the first `count` messages keeps.
proof fn lemma_entries(session: Session, shared: Shared, count: nat, now: Moment)
    requires
        scratch_in_order(session.scratch),
        count <= session.scratch.entries.len() <= usize::MAX,
    ensures
        ({
            let progress = after_entries(session, shared, count, now).0;
            &&& scratch_in_order(progress.session.scratch)
            &&& slots_in_order(progress)
            &&& progress.session.scratch.entries == session.scratch.entries
            &&& progress.shared.templates == shared.templates
            &&& progress.shared.global_ttl == shared.global_ttl
        }),
    decreases count,
{
    if count > 0 {
        lemma_entries(session, shared, (count - 1) as nat, now);
        let (before, error) = after_entries(session, shared, (count - 1) as nat, now);
        if error is None && after_entry(before, (count - 1) as usize, now) is Ok {
            lemma_entry(before, (count - 1) as usize, now);
        }
    }
}

/// A Sync decides on every message that came in since the last one, in their order, and each
/// decision carries the bytes and the kind of its own message. Only executions are answered from
/// the cache or captured, and only what led to an answered execution is left out.
pub proof fn law_every_message_is_decided_on(session: Session, shared: Shared, now: Moment)
    requires
        scratch_in_order(session.scratch),
        session.scratch.entries.len() <= usize::MAX,
        at_sync(session, shared, now).1 is None,
    ensures
        ({
            let progress = at_sync(session, shared, now).0;
            let slots = final_slots(session.scratch.entries, progress.slots);
            &&& progress.session.scratch.entries == session.scratch.entries
            &&& slots.len() == session.scratch.entries.len()
            &&& forall|i: int|
                0 <= i < slots.len() ==> decides_on(
                    session.scratch.entries[i],
                    #[trigger] slots[i],
                )
        }),
{
    lemma_entries(session, shared, session.scratch.entries.len(), now);
}

/// The decision on an execution is made when its turn comes.
pub(crate) proof fn lemma_execution_stays(
    session: Session,
    shared: Shared,
    index: int,
    count: nat,
    now: Moment,
)
    requires
        scratch_in_order(session.scratch),
        0 <= index < count <= session.scratch.entries.len() <= usize::MAX,
        session.scratch.entries[index].kind == MessageKind::Execute,
        after_entries(session, shared, count, now).1 is None,
    ensures
        after_entries(session, shared, (index + 1) as nat, now).1 is None,
        after_entries(session, shared, count, now).0.slots[index] == after_entries(
            session,
            shared,
            (index + 1) as nat,
            now,
        ).0.slots[index],
    decreases count,
{
    if count > index + 1 {
        lemma_execution_stays(session, shared, index, (count - 1) as nat, now);
        lemma_entries(session, shared, (count - 1) as nat, now);
        let (before, _) = after_entries(session, shared, (count - 1) as nat, now);
        lemma_entry(before, (count - 1) as usize, now);
    }
}

/// An execution that asks for a limited number of rows always goes to the database as it is.
pub proof fn law_limited_execution_is_passed_on(
    session: Session,
    shared: Shared,
    index: int,
    content: ExecuteText,
    now: Moment,
)
    requires
        scratch_in_order(session.scratch),
        0 <= index < session.scratch.entries.len() <= usize::MAX,
        session.scratch.entries[index].kind == MessageKind::Execute,
        execute_content(body(session.scratch.entries[index].bytes)) == Ok::<
            ExecuteText,
            crate::wire::reader::Fault,
        >(content),
        content.row_limit != 0,
        at_sync(session, shared, now).1 is None,
    ensures
        final_slots(session.scratch.entries, at_sync(session, shared, now).0.slots)[index]
            == (Slot::Passthrough {
            bytes: session.scratch.entries[index].bytes,
            kind: MessageKind::Execute,
        }),
{
    let count = session.scratch.entries.len();
    lemma_entries(session, shared, count, now);
    lemma_entries(session, shared, index as nat, now);
    lemma_execution_stays(session, shared, index, count, now);
}

/// Asking for a key does not change what is served at that time, under that key or another.
proof fn lemma_served_stays(cache: CacheState, key: Seq<char>, other: Seq<char>, now: Moment)
    requires
        cache.valid(),
    ensures
        cache.after_get(key, now).served(other, now) == cache.served(other, now),
{
    if key == other {
        assert(0 <= home(key, cache.shards.len() as usize) < cache.shards.len());
    } else {
        law_other_keys_stay(cache, key, other, now, now);
    }
}

/// What a decision promises of the cache: an answer is what is served, and all that was asked for;
/// nothing is captured that could have been answered.
pub open spec fn backed_by(slot: Slot, cache: CacheState, now: Moment) -> bool {
    match slot {
        Slot::Replay(replay) => {
            &&& cache.served(replay.key, now) == Some(replay.data)
            &&& satisfies(replay.data, replay.describe_kind)
        },
        Slot::Capture(capture) => {
            let cached = cache.served(capture.key, now);
            !(cached is Some && satisfies(cached.unwrap(), capture.describe_kind))
        },
        _ => true,
    }
}

proof fn lemma_backed(session: Session, shared: Shared, count: nat, now: Moment)
    requires
        scratch_in_order(session.scratch),
        shared.cache.valid(),
        count <= session.scratch.entries.len() <= usize::MAX,
    ensures
        ({
            let progress = after_entries(session, shared, count, now).0;
            &&& progress.shared.cache.valid()
            &&& forall|key: Seq<char>| #[trigger]
                progress.shared.cache.served(key, now) == shared.cache.served(key, now)
            &&& forall|i: int|
                0 <= i < progress.slots.len() && (#[trigger] progress.slots[i]) is Some
                    ==> backed_by(progress.slots[i].unwrap(), shared.cache, now)
        }),
    decreases count,
{
    if count > 0 {
        lemma_backed(session, shared, (count - 1) as nat, now);
        lemma_entries(session, shared, (count - 1) as nat, now);
        let (before, error) = after_entries(session, shared, (count - 1) as nat, now);
        let index = (count - 1) as usize;
        let entry = before.session.scratch.entries[index as int];
        if error is None && after_entry(before, index, now) is Ok && entry.kind
            == MessageKind::Execute {
            let content = execute_content(body(entry.bytes))->Ok_0;
            let after = after_execute(before, index, content, now);
            if content.row_limit == 0 {
                if let Some(plan) = portal_plan(before.shared, before.session, content.portal) {
                    let response: ResponseBytes = arbitrary();
                    law_operations_keep_order(before.shared.cache, plan.key, response, now, now);
                    assert forall|key: Seq<char>| #[trigger]
                        after.shared.cache.served(key, now) == shared.cache.served(key, now) by {
                        lemma_served_stays(before.shared.cache, plan.key, key, now);
                        assert(before.shared.cache.served(key, now) == shared.cache.served(
                            key,
                            now,
                        ));
                    }
                    assert(before.shared.cache.served(plan.key, now) == shared.cache.served(
                        plan.key,
                        now,
                    ));
                }
            }
            assert forall|i: int|
                0 <= i < after.slots.len() && (#[trigger] after.slots[i]) is Some implies backed_by(
                after.slots[i].unwrap(),
                shared.cache,
                now,
            ) by {
                if after.slots[i] == before.slots[i] {
                    assert(before.slots[i] is Some);
                }
            }
        }
    }
}

/// An execution is answered only with what the cache serves for it, and only if that holds all
/// that was asked for; nothing is captured that could have been answered.
pub proof fn law_answers_come_from_the_cache(
    session: Session,
    shared: Shared,
    index: int,
    now: Moment,
)
    requires
        scratch_in_order(session.scratch),
        shared.cache.valid(),
        0 <= index < session.scratch.entries.len() <= usize::MAX,
        at_sync(session, shared, now).1 is None,
    ensures
        backed_by(
            final_slots(session.scratch.entries, at_sync(session, shared, now).0.slots)[index],
            shared.cache,
            now,
        ),
{
    let count = session.scratch.entries.len();
    lemma_entries(session, shared, count, now);
    lemma_backed(session, shared, count, now);
}

/// Whatever message comes, the places that the scratch notes stay in order.
pub proof fn law_scratch_stays_in_order(run: Run, message: Seq<u8>, now: Moment)
    requires
        scratch_in_order(run.session.scratch),
        run.session.scratch.entries.len() <= usize::MAX,
    ensures
        scratch_in_order(after_message(run, message, now).0.session.scratch),
{
    lemma_entries(run.session, run.shared, run.session.scratch.entries.len(), now);
    if let Some(kind) = waiting_kind(message[0]) {
        lemma_waiting_in_order(run.session, message, kind);
    }
}

/// How many messages the cycles hold.
pub open spec fn message_count(cycles: Seq<CycleText>) -> nat
    decreases cycles.len(),
{
    if cycles.len() == 0 {
        0
    } else {
        message_count(cycles.drop_last()) + cycles.last().slots.len()
    }
}

/// No message is lost and none is doubled: each one but a Sync is in a cycle or waits for one, and
/// a Sync moves those that wait into one.
pub proof fn law_no_message_is_lost(run: Run, message: Seq<u8>, now: Moment)
    requires
        scratch_in_order(run.session.scratch),
        run.session.scratch.entries.len() <= usize::MAX,
        after_message(run, message, now).1 is GoesOn,
    ensures
        ({
            let after = after_message(run, message, now).0;
            let before_count = message_count(run.cycles) + run.session.scratch.entries.len();
            let after_count = message_count(after.cycles) + after.session.scratch.entries.len();
            after_count == if message[0] == SYNC_TYPE {
                before_count
            } else {
                before_count + 1
            }
        }),
{
    let after = after_message(run, message, now).0;
    lemma_entries(run.session, run.shared, run.session.scratch.entries.len(), now);
    if after.cycles.len() > run.cycles.len() {
        assert(after.cycles.drop_last() =~= run.cycles);
    }
}

/// A statement that has a name keeps its text until it is closed, whatever is prepared under that
/// name; the unnamed one is replaced.
pub proof fn law_named_statement_stays(session: Session, index: usize, content: ParseText)
    ensures
        content.name.len() > 0 && session.statements.contains_key(content.name) ==> after_parse(
            session,
            index,
            content,
        ).statements == session.statements,
        content.name.len() == 0 ==> after_parse(
            session,
            index,
            content,
        ).statements[content.name] == (StatementText {
            query: content.query,
            types: content.types,
            known: false,
        }),
{
}

} // verus!
