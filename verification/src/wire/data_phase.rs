//! The exchange of queries and answers, once a connection is set up.
use vstd::prelude::*;
use vstd::slice::slice_to_vec;
use crate::clock::Moment;
use crate::server::state::AppState;
use crate::wire::cache_planner::{find_command_slots_at, other_failure, run_of, same_but_cache};
use crate::wire::capture_model::READY_FOR_QUERY_TYPE;
use crate::wire::message_framer::{after_first_frame, first_frame, MessageFramer};
use crate::wire::plan_model::{after_messages, SYNC_TYPE};
use crate::wire::types::{
    cycle_list, slot_list, ClientState, CommandSlot, Cycle, CycleText, DBState, Slot, WireError,
};

verus! {

/// A Sync message.
pub open spec fn sync_message() -> Seq<u8> {
    seq![SYNC_TYPE, 0u8, 0u8, 0u8, 4u8]
}

/// What is written to the database for the message of `slot`.
pub open spec fn slot_write(slot: Slot) -> Option<Seq<u8>> {
    match slot {
        Slot::Passthrough { bytes, kind } => Some(bytes),
        Slot::Capture(capture) => Some(capture.bytes),
        _ => None,
    }
}

/// What is written to the database for `slots`, one write after the other.
pub open spec fn slot_writes(slots: Seq<Slot>) -> Seq<Seq<u8>>
    decreases slots.len(),
{
    if slots.len() == 0 {
        Seq::empty()
    } else {
        let before = slot_writes(slots.drop_last());
        match slot_write(slots.last()) {
            Some(bytes) => before.push(bytes),
            None => before,
        }
    }
}

/// What is written to the database for `cycle`.
pub open spec fn cycle_writes(cycle: CycleText) -> Seq<Seq<u8>> {
    if cycle.synthesize_sync {
        slot_writes(cycle.slots).push(sync_message())
    } else {
        slot_writes(cycle.slots)
    }
}

/// What is written to the database for `cycles`.
pub open spec fn db_writes(cycles: Seq<CycleText>) -> Seq<Seq<u8>>
    decreases cycles.len(),
{
    if cycles.len() == 0 {
        Seq::empty()
    } else {
        db_writes(cycles.drop_last()) + cycle_writes(cycles.last())
    }
}

/// The bytes of each of a row of writes.
pub open spec fn write_list(writes: Seq<Vec<u8>>) -> Seq<Seq<u8>> {
    writes.map_values(|bytes: Vec<u8>| bytes@)
}

/// What is to be done for the messages of a client: what goes to the database, write by write, and
/// the cycles that its answers are matched with.
pub struct ClientPlan {
    pub writes: Vec<Vec<u8>>,
    pub cycles: Vec<Cycle>,
}

fn push_slot_writes(writes: &mut Vec<Vec<u8>>, slots: &Vec<CommandSlot>)
    ensures
        write_list(final(writes)@) == write_list(old(writes)@) + slot_writes(slot_list(slots@)),
{
    let mut i: usize = 0;
    let ghost texts = slot_list(slots@);
    assert(write_list(writes@) =~= write_list(old(writes)@) + slot_writes(texts.take(0)));
    while i < slots.len()
        invariant
            i <= slots.len(),
            texts == slot_list(slots@),
            write_list(writes@) == write_list(old(writes)@) + slot_writes(texts.take(i as int)),
        decreases slots.len() - i,
    {
        let ghost before = writes@;
        match &slots[i] {
            CommandSlot::Passthrough(slot) => {
                writes.push(slice_to_vec(slot.bytes.as_slice()));
            },
            CommandSlot::Capture(slot) => {
                writes.push(slice_to_vec(slot.bytes.as_slice()));
            },
            _ => {},
        }
        proof {
            let done = texts.take(i + 1);
            assert(done.drop_last() =~= texts.take(i as int));
            assert(done.last() == slots[i as int]@);
            if writes@.len() > before.len() {
                assert(write_list(writes@) =~= write_list(before).push(writes@.last()@));
            }
            assert(write_list(writes@) =~= write_list(old(writes)@) + slot_writes(done));
        }
        i = i + 1;
    }
    assert(texts.take(i as int) =~= texts);
}

/// What is written to the database for `cycles`, write by write.
pub fn writes_for_db(cycles: &Vec<Cycle>) -> (writes: Vec<Vec<u8>>)
    ensures
        write_list(writes@) == db_writes(cycle_list(cycles@)),
{
    let mut writes: Vec<Vec<u8>> = Vec::new();
    let mut i: usize = 0;
    let ghost texts = cycle_list(cycles@);
    assert(write_list(writes@) =~= db_writes(texts.take(0)));
    while i < cycles.len()
        invariant
            i <= cycles.len(),
            texts == cycle_list(cycles@),
            write_list(writes@) == db_writes(texts.take(i as int)),
        decreases cycles.len() - i,
    {
        let ghost before = writes@;
        push_slot_writes(&mut writes, &cycles[i].slots);
        let ghost with_slots = writes@;
        if cycles[i].synthesize_sync {
            let sync: Vec<u8> = vec![SYNC_TYPE, 0u8, 0u8, 0u8, 4u8];
            assert(sync@ =~= sync_message());
            writes.push(sync);
            assert(write_list(writes@) =~= write_list(with_slots).push(sync@));
        }
        proof {
            let done = texts.take(i + 1);
            assert(done.drop_last() =~= texts.take(i as int));
            assert(done.last() == cycles[i as int]@);
            assert(write_list(writes@) =~= write_list(before) + cycle_writes(done.last()));
        }
        i = i + 1;
    }
    assert(texts.take(i as int) =~= texts);
    writes
}

/// Plans what a client has sent. Whatever comes of it, what was pending is worked on then.
pub fn handle_client(client_state: &mut ClientState, app_state: &mut AppState) -> (result: Result<
    ClientPlan,
    WireError,
>)
    requires
        old(client_state).wf(),
        old(app_state).wf(),
    ensures
        final(client_state).wf(),
        final(app_state).wf(),
        same_but_cache(*old(app_state), *final(app_state)),
        final(client_state).buffer_state@ == Seq::<u8>::empty(),
        final(client_state).buffer_state.buffer == old(client_state).buffer_state.buffer,
        final(client_state).buffer_state.write_cursor == old(client_state).buffer_state.write_cursor,
        final(client_state).buffer_state.read_cursor == old(client_state).buffer_state.write_cursor,
        exists|now: Moment|
            {
                &&& old(app_state).cache.clock.shows(now)
                &&& #[trigger] client_handled_at(
                    *old(client_state),
                    *old(app_state),
                    *final(client_state),
                    *final(app_state),
                    result,
                    now,
                )
            },
{
    let now = app_state.cache.now();
    handle_client_at(client_state, app_state, now)
}

/// `result`, and the states after, are what handling the client's messages at the time `now` comes
/// to.
pub open spec fn client_handled_at(
    client_before: ClientState,
    app_before: AppState,
    client_after: ClientState,
    app_after: AppState,
    result: Result<ClientPlan, WireError>,
    now: Moment,
) -> bool {
    let (run, rest, error) = after_messages(
        run_of(client_before, app_before, Seq::empty()),
        client_before.framer@ + client_before.buffer_state@,
        now,
    );
    &&& client_after@ == run.session
    &&& app_after@ == run.shared
    &&& client_after.framer@ == rest
    &&& match result {
        Ok(plan) => {
            &&& error is None
            &&& cycle_list(plan.cycles@) == run.cycles
            &&& write_list(plan.writes@) == db_writes(run.cycles)
        },
        Err(failure) => error is Some && failure@ == other_failure(error.unwrap()),
    }
}

/// Plans what a client has sent, at the time `now`.
pub fn handle_client_at(client_state: &mut ClientState, app_state: &mut AppState, now: Moment) -> (
    result: Result<ClientPlan, WireError>)
    requires
        old(client_state).wf(),
        old(app_state).wf(),
    ensures
        final(client_state).wf(),
        final(app_state).wf(),
        same_but_cache(*old(app_state), *final(app_state)),
        final(client_state).buffer_state@ == Seq::<u8>::empty(),
        final(client_state).buffer_state.buffer == old(client_state).buffer_state.buffer,
        final(client_state).buffer_state.write_cursor == old(client_state).buffer_state.write_cursor,
        final(client_state).buffer_state.read_cursor == old(client_state).buffer_state.write_cursor,
        client_handled_at(
            *old(client_state),
            *old(app_state),
            *final(client_state),
            *final(app_state),
            result,
            now,
        ),
{
    let result: Result<Vec<Cycle>, WireError> = find_command_slots_at(client_state, app_state, now);
    let pending: usize = client_state.buffer_state.pending_data_len();
    let _ = client_state.buffer_state.consume(&pending);
    assert(client_state.buffer_state@ =~= Seq::<u8>::empty());
    match result {
        Ok(cycles) => Ok(ClientPlan { writes: writes_for_db(&cycles), cycles }),
        Err(error) => Err(error),
    }
}

/// Whether a ReadyForQuery is among the messages of `pending`, and what is left once the messages
/// up to it, or else all of them, are taken.
pub open spec fn until_ready(pending: Seq<u8>) -> (bool, Seq<u8>)
    decreases pending.len(),
{
    match first_frame(pending) {
        Ok(Some(message)) => if message[0] == READY_FOR_QUERY_TYPE {
            (true, after_first_frame(pending))
        } else {
            until_ready(after_first_frame(pending))
        },
        _ => (false, pending),
    }
}

/// Takes messages up to the first ReadyForQuery. Returns whether there was one.
pub fn take_until_ready(framer: &mut MessageFramer) -> (ready: bool)
    requires
        old(framer).wf(),
    ensures
        final(framer).wf(),
        (ready, final(framer)@) == until_ready(old(framer)@),
{
    loop
        invariant
            framer.wf(),
            until_ready(framer@) == until_ready(old(framer)@),
        decreases framer@.len(),
    {
        match framer.next_message() {
            Ok(Some(message)) => {
                if message[0] == READY_FOR_QUERY_TYPE {
                    return true;
                }
            },
            _ => {
                return false;
            },
        }
    }
}

/// Works on what was read from the database. Returns whether the database is ready for the next
/// query.
pub fn handle_db(db_state: &mut DBState) -> (ready: bool)
    requires
        old(db_state).wf(),
    ensures
        final(db_state).wf(),
        final(db_state).buffer_state@ == Seq::<u8>::empty(),
        final(db_state).buffer_state.buffer == old(db_state).buffer_state.buffer,
        final(db_state).buffer_state.write_cursor == old(db_state).buffer_state.write_cursor,
        final(db_state).buffer_state.read_cursor == old(db_state).buffer_state.write_cursor,
        final(db_state).scratch == old(db_state).scratch,
        (ready, final(db_state).framer@) == until_ready(
            old(db_state).framer@ + old(db_state).buffer_state@,
        ),
{
    db_state.framer.add_buffer(db_state.buffer_state.pending_data());
    let pending: usize = db_state.buffer_state.pending_data_len();
    let _ = db_state.buffer_state.consume(&pending);
    assert(db_state.buffer_state@ =~= Seq::<u8>::empty());
    take_until_ready(&mut db_state.framer)
}

/// Takes what was read from the database, to be written to the client as it is.
pub fn handle_db_read(db_state: &mut DBState) -> (data: Vec<u8>)
    requires
        old(db_state).wf(),
    ensures
        final(db_state).wf(),
        data@ == old(db_state).buffer_state@,
        final(db_state).buffer_state@ == Seq::<u8>::empty(),
        final(db_state).buffer_state.buffer == old(db_state).buffer_state.buffer,
        final(db_state).buffer_state.write_cursor == old(db_state).buffer_state.write_cursor,
        final(db_state).buffer_state.read_cursor == old(db_state).buffer_state.write_cursor,
        final(db_state).framer == old(db_state).framer,
        final(db_state).scratch == old(db_state).scratch,
{
    let data: Vec<u8> = slice_to_vec(db_state.buffer_state.pending_data());
    let pending: usize = db_state.buffer_state.pending_data_len();
    let _ = db_state.buffer_state.consume(&pending);
    assert(db_state.buffer_state@ =~= Seq::<u8>::empty());
    data
}

/// Whether a message of the cycle goes to the database.
pub fn cycle_contains_cache_interaction(cycle: Cycle) -> (contains: bool)
    ensures
        contains == exists|i: int|
            0 <= i < cycle.slots@.len() && ((#[trigger] cycle.slots@[i]) is Passthrough
                || cycle.slots@[i] is Capture),
{
    let mut i: usize = 0;
    while i < cycle.slots.len()
        invariant
            i <= cycle.slots.len(),
            forall|j: int|
                0 <= j < i ==> !((#[trigger] cycle.slots@[j]) is Passthrough
                    || cycle.slots@[j] is Capture),
        decreases cycle.slots.len() - i,
    {
        match &cycle.slots[i] {
            CommandSlot::Passthrough(_) => return true,
            CommandSlot::Capture(_) => return true,
            _ => {},
        }
        i = i + 1;
    }
    false
}

} // verus!
