//! What becomes of several executions between two Syncs.
use vstd::prelude::*;
use crate::cache::store::wire_key;
use crate::clock::Moment;
use crate::server::state::Shared;
use crate::wire::data_phase::{cycle_writes, db_writes, slot_write, slot_writes, sync_message};
use crate::wire::messages::{
    bind_content, close_content, describe_content, execute_content, parse_content, BindText,
    CloseMessageContentTarget, DescribeText, ExecuteText, ParseText,
};
use crate::wire::plan_model::{
    after_entries, after_entry, after_execute, after_message, at_sync, body, chain_of, final_slots,
    Progress, Run,
};
use crate::wire::planner_laws::{law_every_message_is_decided_on, lemma_execution_stays};
use crate::wire::session_laws::{
    goes_along, law_bind_makes_one_portal_known, law_describe_is_noted, law_execution_is_looked_up,
    law_parse_makes_one_statement_known,
};
use crate::wire::types::{
    empty_scratch, scratch_in_order, CycleText, EntryText, MessageKind, ScratchState, Session, Slot,
};

verus! {

/// What a request to prepare says; none of another message, or one that cannot be read.
pub open spec fn parse_of(entry: EntryText) -> Option<ParseText> {
    if entry.kind == MessageKind::Parse {
        match parse_content(body(entry.bytes)) {
            Ok(content) => Some(content),
            Err(_) => None,
        }
    } else {
        None
    }
}

/// What a request to bind says; none of another message, or one that cannot be read.
pub open spec fn bind_of(entry: EntryText) -> Option<BindText> {
    if entry.kind == MessageKind::Bind {
        match bind_content(body(entry.bytes)) {
            Ok(content) => Some(content),
            Err(_) => None,
        }
    } else {
        None
    }
}

/// What a request to describe says; none of another message, or one that cannot be read.
pub open spec fn describe_of(entry: EntryText) -> Option<DescribeText> {
    if entry.kind == MessageKind::Describe {
        match describe_content(body(entry.bytes)) {
            Ok(content) => Some(content),
            Err(_) => None,
        }
    } else {
        None
    }
}

/// What a request to execute says; none of another message, or one that cannot be read.
pub open spec fn execute_of(entry: EntryText) -> Option<ExecuteText> {
    if entry.kind == MessageKind::Execute {
        match execute_content(body(entry.bytes)) {
            Ok(content) => Some(content),
            Err(_) => None,
        }
    } else {
        None
    }
}

/// `entry` closes the `target` of the name `name`.
pub open spec fn closes(
    entry: EntryText,
    target: CloseMessageContentTarget,
    name: Seq<char>,
) -> bool {
    entry.kind == MessageKind::Close && match close_content(body(entry.bytes)) {
        Ok(content) => content.target == target && content.name == name,
        Err(_) => false,
    }
}

/// `entry` prepares a statement of the name `name`.
pub open spec fn prepares(entry: EntryText, name: Seq<char>) -> bool {
    parse_of(entry) is Some && parse_of(entry)->0.name == name
}

/// `entry` binds a portal of the name `name`.
pub open spec fn binds(entry: EntryText, name: Seq<char>) -> bool {
    bind_of(entry) is Some && bind_of(entry)->0.portal == name
}

/// `entry` asks for a description under the name `name`.
pub open spec fn describes(entry: EntryText, name: Seq<char>) -> bool {
    describe_of(entry) is Some && describe_of(entry)->0.name == name
}

/// The message at `at` is the last in front of that at `until` to prepare `name`, which is not
/// closed in between.
pub open spec fn last_parse(
    entries: Seq<EntryText>,
    name: Seq<char>,
    at: int,
    until: int,
) -> bool {
    &&& 0 <= at < until <= entries.len()
    &&& prepares(entries[at], name)
    &&& forall|k: int|
        at < k < until ==> !prepares(#[trigger] entries[k], name) && !closes(
            entries[k],
            CloseMessageContentTarget::PreparedStatement,
            name,
        )
}

/// The message at `at` is the last in front of that at `until` to bind `name`, which is not closed
/// in between.
pub open spec fn last_bind(entries: Seq<EntryText>, name: Seq<char>, at: int, until: int) -> bool {
    &&& 0 <= at < until <= entries.len()
    &&& binds(entries[at], name)
    &&& forall|k: int|
        at < k < until ==> !binds(#[trigger] entries[k], name) && !closes(
            entries[k],
            CloseMessageContentTarget::Portal,
            name,
        )
}

/// The message at `at` is the last in front of that at `until` that asks for a description under
/// the name `name`.
pub open spec fn last_describe(
    entries: Seq<EntryText>,
    name: Seq<char>,
    at: int,
    until: int,
) -> bool {
    &&& 0 <= at < until <= entries.len()
    &&& describes(entries[at], name)
    &&& forall|k: int| at < k < until ==> !describes(#[trigger] entries[k], name)
}

/// The places of the requests to prepare that a scratch notes are those of messages that say what
/// is noted with them.
pub open spec fn parses_are_true(
    entries: Seq<EntryText>,
    noted: Map<Seq<char>, (usize, ParseText)>,
) -> bool {
    forall|name: Seq<char>| #[trigger]
        noted.contains_key(name) ==> {
            &&& noted[name].0 < entries.len()
            &&& parse_of(entries[noted[name].0 as int]) == Some(noted[name].1)
            &&& noted[name].1.name == name
        }
}

/// The same of the requests to bind.
pub open spec fn binds_are_true(
    entries: Seq<EntryText>,
    noted: Map<Seq<char>, (usize, BindText)>,
) -> bool {
    forall|name: Seq<char>| #[trigger]
        noted.contains_key(name) ==> {
            &&& noted[name].0 < entries.len()
            &&& bind_of(entries[noted[name].0 as int]) == Some(noted[name].1)
            &&& noted[name].1.portal == name
        }
}

/// The same of the requests to describe.
pub open spec fn describes_are_true(
    entries: Seq<EntryText>,
    noted: Map<Seq<char>, (usize, DescribeText)>,
) -> bool {
    forall|name: Seq<char>| #[trigger]
        noted.contains_key(name) ==> {
            &&& noted[name].0 < entries.len()
            &&& describe_of(entries[noted[name].0 as int]) == Some(noted[name].1)
            &&& noted[name].1.name == name
        }
}

/// A scratch notes what the messages that wait say.
pub open spec fn scratch_is_true(scratch: ScratchState) -> bool {
    &&& parses_are_true(scratch.entries, scratch.parses)
    &&& binds_are_true(scratch.entries, scratch.binds)
    &&& describes_are_true(scratch.entries, scratch.describes)
}

proof fn lemma_true_in_order(scratch: ScratchState)
    requires
        scratch_is_true(scratch),
    ensures
        scratch_in_order(scratch),
{
}

#[verifier::rlimit(60)]
proof fn lemma_session_keeps_true(progress: Progress, index: usize, now: Moment)
    requires
        scratch_is_true(progress.session.scratch),
        index < progress.session.scratch.entries.len(),
        after_entry(progress, index, now) is Ok,
        progress.session.scratch.entries[index as int].kind != MessageKind::Execute,
    ensures
        scratch_is_true(after_entry(progress, index, now)->Ok_0.session.scratch),
        after_entry(progress, index, now)->Ok_0.session.scratch.entries
            == progress.session.scratch.entries,
        after_entry(progress, index, now)->Ok_0.slots.len() == progress.slots.len(),
{
    let before = progress.session.scratch;
    let entry = before.entries[index as int];
    let after = after_entry(progress, index, now)->Ok_0.session.scratch;
    assert(after.entries == before.entries);
    if entry.kind == MessageKind::Parse {
        let content = parse_of(entry)->0;
        law_parse_makes_one_statement_known(progress, index, content, now);
        assert(parses_are_true(after.entries, after.parses)) by {
            assert forall|name: Seq<char>| #[trigger] after.parses.contains_key(name) implies {
                &&& after.parses[name].0 < after.entries.len()
                &&& parse_of(after.entries[after.parses[name].0 as int]) == Some(
                    after.parses[name].1,
                )
                &&& after.parses[name].1.name == name
            } by {
                if name != content.name {
                    assert(before.parses.contains_key(name));
                }
            }
        }
    } else if entry.kind == MessageKind::Bind {
        let content = bind_of(entry)->0;
        law_bind_makes_one_portal_known(progress, index, content, now);
        assert(binds_are_true(after.entries, after.binds)) by {
            assert forall|name: Seq<char>| #[trigger] after.binds.contains_key(name) implies {
                &&& after.binds[name].0 < after.entries.len()
                &&& bind_of(after.entries[after.binds[name].0 as int]) == Some(after.binds[name].1)
                &&& after.binds[name].1.portal == name
            } by {
                if name != content.portal {
                    assert(before.binds.contains_key(name));
                }
            }
        }
    } else if entry.kind == MessageKind::Describe {
        let content = describe_of(entry)->0;
        law_describe_is_noted(progress, index, content, now);
        assert(describes_are_true(after.entries, after.describes)) by {
            assert forall|name: Seq<char>| #[trigger] after.describes.contains_key(name) implies {
                &&& after.describes[name].0 < after.entries.len()
                &&& describe_of(after.entries[after.describes[name].0 as int]) == Some(
                    after.describes[name].1,
                )
                &&& after.describes[name].1.name == name
            } by {
                if name != content.name {
                    assert(before.describes.contains_key(name));
                }
            }
        }
    } else if entry.kind == MessageKind::Close {
        let content = close_content(body(entry.bytes))->Ok_0;
        assert forall|name: Seq<char>| #[trigger] after.parses.contains_key(name) implies {
            &&& before.parses.contains_key(name)
            &&& after.parses[name] == before.parses[name]
        } by {}
        assert forall|name: Seq<char>| #[trigger] after.binds.contains_key(name) implies {
            &&& before.binds.contains_key(name)
            &&& after.binds[name] == before.binds[name]
        } by {}
    }
}

proof fn lemma_entry_keeps_true(progress: Progress, index: usize, now: Moment)
    requires
        scratch_is_true(progress.session.scratch),
        index < progress.session.scratch.entries.len(),
        progress.slots.len() == progress.session.scratch.entries.len(),
        after_entry(progress, index, now) is Ok,
    ensures
        scratch_is_true(after_entry(progress, index, now)->Ok_0.session.scratch),
        after_entry(progress, index, now)->Ok_0.session.scratch.entries
            == progress.session.scratch.entries,
        after_entry(progress, index, now)->Ok_0.slots.len() == progress.slots.len(),
{
    if progress.session.scratch.entries[index as int].kind != MessageKind::Execute {
        lemma_session_keeps_true(progress, index, now);
    }
}

proof fn lemma_entries_keep_true(session: Session, shared: Shared, count: nat, now: Moment)
    requires
        scratch_is_true(session.scratch),
        count <= session.scratch.entries.len() <= usize::MAX,
    ensures
        ({
            let progress = after_entries(session, shared, count, now).0;
            &&& scratch_is_true(progress.session.scratch)
            &&& progress.session.scratch.entries == session.scratch.entries
            &&& progress.slots.len() == session.scratch.entries.len()
        }),
    decreases count,
{
    if count > 0 {
        lemma_entries_keep_true(session, shared, (count - 1) as nat, now);
        let (before, error) = after_entries(session, shared, (count - 1) as nat, now);
        if error is None && after_entry(before, (count - 1) as usize, now) is Ok {
            lemma_entry_keeps_true(before, (count - 1) as usize, now);
        }
    }
}

/// Nothing that waits has been planned yet.
pub open spec fn fresh(session: Session) -> bool {
    session.scratch == (ScratchState { entries: session.scratch.entries, ..empty_scratch() })
}

/// As long as nothing fails, what waits has not been planned yet.
pub proof fn law_planning_starts_fresh(run: Run, message: Seq<u8>, now: Moment)
    requires
        fresh(run.session),
        !(after_message(run, message, now).1 is Fails),
    ensures
        fresh(after_message(run, message, now).0.session),
{
}

/// The planning of the messages in front of one that is planned without a fault had none either.
proof fn lemma_no_error_before(session: Session, shared: Shared, at: nat, count: nat, now: Moment)
    requires
        at <= count,
        after_entries(session, shared, count, now).1 is None,
    ensures
        after_entries(session, shared, at, now).1 is None,
    decreases count,
{
    if at < count {
        lemma_no_error_before(session, shared, at, (count - 1) as nat, now);
    }
}

proof fn lemma_parse_noted(
    session: Session,
    shared: Shared,
    name: Seq<char>,
    at: int,
    count: nat,
    now: Moment,
)
    requires
        scratch_is_true(session.scratch),
        session.scratch.entries.len() <= usize::MAX,
        last_parse(session.scratch.entries, name, at, count as int),
        after_entries(session, shared, count, now).1 is None,
    ensures
        ({
            let scratch = after_entries(session, shared, count, now).0.session.scratch;
            &&& scratch.parses.contains_key(name)
            &&& scratch.parses[name].0 == at
            &&& Some(scratch.parses[name].1) == parse_of(session.scratch.entries[at])
        }),
    decreases count,
{
    let last = (count - 1) as nat;
    lemma_entries_keep_true(session, shared, last, now);
    if count > at + 1 {
        lemma_parse_noted(session, shared, name, at, last, now);
        assert(!prepares(session.scratch.entries[last as int], name));
    }
}

proof fn lemma_bind_noted(
    session: Session,
    shared: Shared,
    name: Seq<char>,
    at: int,
    count: nat,
    now: Moment,
)
    requires
        scratch_is_true(session.scratch),
        session.scratch.entries.len() <= usize::MAX,
        last_bind(session.scratch.entries, name, at, count as int),
        after_entries(session, shared, count, now).1 is None,
    ensures
        ({
            let scratch = after_entries(session, shared, count, now).0.session.scratch;
            &&& scratch.binds.contains_key(name)
            &&& scratch.binds[name].0 == at
            &&& Some(scratch.binds[name].1) == bind_of(session.scratch.entries[at])
        }),
    decreases count,
{
    let last = (count - 1) as nat;
    lemma_entries_keep_true(session, shared, last, now);
    if count > at + 1 {
        lemma_bind_noted(session, shared, name, at, last, now);
        assert(!binds(session.scratch.entries[last as int], name));
    }
}

proof fn lemma_describe_noted(
    session: Session,
    shared: Shared,
    name: Seq<char>,
    at: int,
    count: nat,
    now: Moment,
)
    requires
        scratch_is_true(session.scratch),
        session.scratch.entries.len() <= usize::MAX,
        last_describe(session.scratch.entries, name, at, count as int),
        after_entries(session, shared, count, now).1 is None,
    ensures
        ({
            let scratch = after_entries(session, shared, count, now).0.session.scratch;
            &&& scratch.describes.contains_key(name)
            &&& scratch.describes[name].0 == at
            &&& Some(scratch.describes[name].1) == describe_of(session.scratch.entries[at])
        }),
    decreases count,
{
    let last = (count - 1) as nat;
    lemma_entries_keep_true(session, shared, last, now);
    if count > at + 1 {
        lemma_describe_noted(session, shared, name, at, last, now);
        assert(!describes(session.scratch.entries[last as int], name));
    }
}

/// What a slot says of its execution: that it is answered, or that it is captured.
pub open spec fn is_decided(slot: Slot, answered: bool) -> bool {
    if answered {
        slot is Replay
    } else {
        slot is Capture
    }
}

/// The planning right after the execution at `at`.
#[verifier::rlimit(60)]
proof fn lemma_right_after(
    session: Session,
    shared: Shared,
    at: int,
    answered: bool,
    now: Moment,
)
    requires
        scratch_is_true(session.scratch),
        0 <= at < session.scratch.entries.len() <= usize::MAX,
        execute_of(session.scratch.entries[at]) is Some,
        after_entries(session, shared, (at + 1) as nat, now).1 is None,
        after_entries(session, shared, (at + 1) as nat, now).0.slots[at] is Some,
        is_decided(
            after_entries(session, shared, (at + 1) as nat, now).0.slots[at].unwrap(),
            answered,
        ),
    ensures
        ({
            let entries = session.scratch.entries;
            let portal = execute_of(entries[at])->0.portal;
            let before = after_entries(session, shared, at as nat, now).0.session;
            let slots = after_entries(session, shared, (at + 1) as nat, now).0.slots;
            let chain = chain_of(before, portal);
            &&& chain is Some
            &&& chain->0.bind is Some ==> slots[chain->0.bind->0 as int] == Some(
                goes_along(entries[chain->0.bind->0 as int], MessageKind::Bind, answered),
            )
            &&& chain->0.parse is Some ==> slots[chain->0.parse->0 as int] == Some(
                goes_along(entries[chain->0.parse->0 as int], MessageKind::Parse, answered),
            )
            &&& before.scratch.describes.contains_key(portal) ==> slots[
                before.scratch.describes[portal].0 as int
            ] == Some(
                goes_along(
                    entries[before.scratch.describes[portal].0 as int],
                    MessageKind::Describe,
                    answered,
                ),
            )
        }),
{
    lemma_entries_keep_true(session, shared, at as nat, now);
    let (before, error) = after_entries(session, shared, at as nat, now);
    lemma_true_in_order(before.session.scratch);
    let content = execute_of(session.scratch.entries[at])->0;
    let after = after_execute(before, at as usize, content, now);
    assert(after_entry(before, at as usize, now) == Ok::<Progress, Seq<char>>(after));
}

/// The message at `m` belongs to the execution at `at` among messages that come between two Syncs:
/// it is the Bind of the portal executed, or the Describe under its name, or the Parse of the
/// statement that the portal is bound to.
pub open spec fn belongs_to(entries: Seq<EntryText>, m: int, at: int) -> bool {
    &&& execute_of(entries[at]) is Some
    &&& {
        let portal = execute_of(entries[at])->0.portal;
        ||| last_bind(entries, portal, m, at)
        ||| last_describe(entries, portal, m, at)
        ||| exists|b: int|
            {
                &&& #[trigger] last_bind(entries, portal, b, at)
                &&& last_parse(entries, bind_of(entries[b])->0.statement, m, at)
            }
    }
}

/// The execution at `at` binds its portal among `entries` itself.
pub open spec fn bound_here(entries: Seq<EntryText>, at: int) -> bool {
    exists|b: int| #[trigger] last_bind(entries, execute_of(entries[at])->0.portal, b, at)
}

#[verifier::rlimit(60)]
proof fn lemma_belongs_right_after(
    session: Session,
    shared: Shared,
    m: int,
    at: int,
    answered: bool,
    now: Moment,
)
    requires
        scratch_is_true(session.scratch),
        0 <= at < session.scratch.entries.len() <= usize::MAX,
        belongs_to(session.scratch.entries, m, at),
        after_entries(session, shared, (at + 1) as nat, now).1 is None,
        after_entries(session, shared, (at + 1) as nat, now).0.slots[at] is Some,
        is_decided(
            after_entries(session, shared, (at + 1) as nat, now).0.slots[at].unwrap(),
            answered,
        ),
    ensures
        0 <= m < at,
        after_entries(session, shared, (at + 1) as nat, now).0.slots[m] == Some(
            goes_along(
                session.scratch.entries[m],
                session.scratch.entries[m].kind,
                answered,
            ),
        ),
{
    let entries = session.scratch.entries;
    let portal = execute_of(entries[at])->0.portal;
    lemma_no_error_before(session, shared, at as nat, (at + 1) as nat, now);
    lemma_right_after(session, shared, at, answered, now);
    if last_bind(entries, portal, m, at) {
        lemma_bind_noted(session, shared, portal, m, at as nat, now);
    } else if last_describe(entries, portal, m, at) {
        lemma_describe_noted(session, shared, portal, m, at as nat, now);
    } else {
        let b = choose|b: int|
            {
                &&& #[trigger] last_bind(entries, portal, b, at)
                &&& last_parse(entries, bind_of(entries[b])->0.statement, m, at)
            };
        lemma_bind_noted(session, shared, portal, b, at as nat, now);
        lemma_parse_noted(
            session,
            shared,
            bind_of(entries[b])->0.statement,
            m,
            at as nat,
            now,
        );
    }
}

proof fn lemma_noted_is_last_parse(
    session: Session,
    shared: Shared,
    name: Seq<char>,
    count: nat,
    now: Moment,
)
    requires
        fresh(session),
        count <= session.scratch.entries.len() <= usize::MAX,
        after_entries(session, shared, count, now).1 is None,
        after_entries(session, shared, count, now).0.session.scratch.parses.contains_key(name),
    ensures
        last_parse(
            session.scratch.entries,
            name,
            after_entries(session, shared, count, now).0.session.scratch.parses[name].0 as int,
            count as int,
        ),
    decreases count,
{
    if count > 0 {
        let last = (count - 1) as nat;
        lemma_entries_keep_true(session, shared, last, now);
        let entry = session.scratch.entries[last as int];
        if !prepares(entry, name) {
            assert(!closes(entry, CloseMessageContentTarget::PreparedStatement, name));
            lemma_noted_is_last_parse(session, shared, name, last, now);
        }
    }
}

proof fn lemma_noted_is_last_describe(
    session: Session,
    shared: Shared,
    name: Seq<char>,
    count: nat,
    now: Moment,
)
    requires
        fresh(session),
        count <= session.scratch.entries.len() <= usize::MAX,
        after_entries(session, shared, count, now).1 is None,
        after_entries(session, shared, count, now).0.session.scratch.describes.contains_key(name),
    ensures
        last_describe(
            session.scratch.entries,
            name,
            after_entries(session, shared, count, now).0.session.scratch.describes[name].0 as int,
            count as int,
        ),
    decreases count,
{
    if count > 0 {
        let last = (count - 1) as nat;
        lemma_entries_keep_true(session, shared, last, now);
        let entry = session.scratch.entries[last as int];
        if !describes(entry, name) {
            lemma_noted_is_last_describe(session, shared, name, last, now);
        }
    }
}

/// The execution at `at` does not decide otherwise on the message at `m`.
#[verifier::rlimit(60)]
proof fn lemma_left_alone(
    session: Session,
    shared: Shared,
    m: int,
    at: int,
    answered: bool,
    now: Moment,
)
    requires
        fresh(session),
        0 <= m < at < session.scratch.entries.len() <= usize::MAX,
        session.scratch.entries[m].kind != MessageKind::Execute,
        after_entries(session, shared, (at + 1) as nat, now).1 is None,
        after_entries(session, shared, at as nat, now).0.slots[m] == Some(
            goes_along(session.scratch.entries[m], session.scratch.entries[m].kind, answered),
        ),
        // It is decided as that one was, or does not have to do with the message.
        ({
            let slot = after_entries(session, shared, (at + 1) as nat, now).0.slots[at];
            slot is Some && is_decided(slot.unwrap(), !answered) ==> bound_here(
                session.scratch.entries,
                at,
            ) && !belongs_to(session.scratch.entries, m, at)
        }),
    ensures
        after_entries(session, shared, (at + 1) as nat, now).0.slots[m] == Some(
            goes_along(session.scratch.entries[m], session.scratch.entries[m].kind, answered),
        ),
{
    let entries = session.scratch.entries;
    lemma_no_error_before(session, shared, at as nat, (at + 1) as nat, now);
    lemma_entries_keep_true(session, shared, at as nat, now);
    let before = after_entries(session, shared, at as nat, now).0;
    lemma_true_in_order(before.session.scratch);
    if entries[at].kind == MessageKind::Execute {
        let content = execute_of(entries[at])->0;
        let portal = content.portal;
        let after = after_execute(before, at as usize, content, now);
        assert(after_entry(before, at as usize, now) == Ok::<Progress, Seq<char>>(after));
        let slot = after.slots[at];
        if slot is Some && is_decided(slot.unwrap(), !answered) {
            let b = choose|b: int| #[trigger] last_bind(entries, portal, b, at);
            lemma_bind_noted(session, shared, portal, b, at as nat, now);
            let statement = bind_of(entries[b])->0.statement;
            let scratch = before.session.scratch;
            if scratch.parses.contains_key(statement) && scratch.parses[statement].0 == m {
                lemma_noted_is_last_parse(session, shared, statement, at as nat, now);
            }
            if scratch.describes.contains_key(portal) && scratch.describes[portal].0 == m {
                lemma_noted_is_last_describe(session, shared, portal, at as nat, now);
            }
        }
    }
}

#[verifier::rlimit(60)]
proof fn lemma_follows(
    session: Session,
    shared: Shared,
    m: int,
    e: int,
    count: nat,
    answered: bool,
    now: Moment,
)
    requires
        fresh(session),
        0 <= e < count <= session.scratch.entries.len() <= usize::MAX,
        belongs_to(session.scratch.entries, m, e),
        after_entries(session, shared, count, now).1 is None,
        ({
            let slots = after_entries(session, shared, count, now).0.slots;
            &&& slots[e] is Some
            &&& is_decided(slots[e].unwrap(), answered)
            &&& forall|k: int|
                e < k < count && (#[trigger] slots[k]) is Some && is_decided(
                    slots[k].unwrap(),
                    !answered,
                ) ==> bound_here(session.scratch.entries, k) && !belongs_to(
                    session.scratch.entries,
                    m,
                    k,
                )
        }),
    ensures
        0 <= m < e,
        after_entries(session, shared, count, now).0.slots[m] == Some(
            goes_along(session.scratch.entries[m], session.scratch.entries[m].kind, answered),
        ),
    decreases count,
{
    let entries = session.scratch.entries;
    let last = (count - 1) as nat;
    lemma_no_error_before(session, shared, last, count, now);
    lemma_entries_keep_true(session, shared, last, now);
    lemma_entries_keep_true(session, shared, count, now);
    let slots = after_entries(session, shared, count, now).0.slots;
    if count == e + 1 {
        lemma_belongs_right_after(session, shared, m, e, answered, now);
    } else {
        let before = after_entries(session, shared, last, now).0.slots;
        lemma_decision_stays(session, shared, e, last, now);
        assert forall|k: int|
            e < k < last && (#[trigger] before[k]) is Some && is_decided(
                before[k].unwrap(),
                !answered,
            ) implies bound_here(entries, k) && !belongs_to(entries, m, k) by {
            lemma_decided_is_execution(session, shared, k, last, now);
            lemma_decision_stays(session, shared, k, last, now);
            assert(slots[k] == before[k]);
        }
        lemma_follows(session, shared, m, e, last, answered, now);
        lemma_left_alone(session, shared, m, last as int, answered, now);
    }
}

/// Only executions are answered or captured.
proof fn lemma_decided_is_execution(
    session: Session,
    shared: Shared,
    k: int,
    count: nat,
    now: Moment,
)
    requires
        fresh(session),
        0 <= k < session.scratch.entries.len() <= usize::MAX,
        count <= session.scratch.entries.len(),
        after_entries(session, shared, count, now).0.slots[k] is Some,
        ({
            let slot = after_entries(session, shared, count, now).0.slots[k].unwrap();
            slot is Replay || slot is Capture
        }),
    ensures
        session.scratch.entries[k].kind == MessageKind::Execute,
    decreases count,
{
    if count > 0 {
        let last = (count - 1) as nat;
        lemma_entries_keep_true(session, shared, last, now);
        let (before, error) = after_entries(session, shared, last, now);
        let slots = after_entries(session, shared, count, now).0.slots;
        if before.slots[k] == slots[k] {
            lemma_decided_is_execution(session, shared, k, last, now);
        }
    }
}

/// One more message leaves the decisions on the executions in front of it.
proof fn lemma_decision_stays(session: Session, shared: Shared, k: int, count: nat, now: Moment)
    requires
        fresh(session),
        0 <= k < count < session.scratch.entries.len() <= usize::MAX,
        after_entries(session, shared, (count + 1) as nat, now).1 is None,
        session.scratch.entries[k].kind == MessageKind::Execute,
    ensures
        after_entries(session, shared, (count + 1) as nat, now).0.slots[k] == after_entries(
            session,
            shared,
            count,
            now,
        ).0.slots[k],
{
    lemma_true_in_order(session.scratch);
    lemma_no_error_before(session, shared, count, (count + 1) as nat, now);
    lemma_execution_stays(session, shared, k, (count + 1) as nat, now);
    lemma_execution_stays(session, shared, k, count, now);
}

/// The slots of all messages up to a Sync.
pub open spec fn sync_slots(session: Session, shared: Shared, now: Moment) -> Seq<Slot> {
    final_slots(session.scratch.entries, at_sync(session, shared, now).0.slots)
}

/// Of any number of executions between two Syncs, the last that a message belongs to and that is
/// answered or captured decides on it: the Bind, the Parse and the Describe of a captured execution
/// go to the database, those of an answered one are left out, whatever was decided on them for
/// executions before, as long as no later execution that they belong to is decided otherwise.
#[verifier::rlimit(60)]
pub proof fn law_messages_follow_their_last_execution(
    session: Session,
    shared: Shared,
    m: int,
    e: int,
    answered: bool,
    now: Moment,
)
    requires
        fresh(session),
        0 <= e < session.scratch.entries.len() <= usize::MAX,
        at_sync(session, shared, now).1 is None,
        belongs_to(session.scratch.entries, m, e),
        is_decided(sync_slots(session, shared, now)[e], answered),
        forall|k: int|
            e < k < session.scratch.entries.len() && is_decided(
                #[trigger] sync_slots(session, shared, now)[k],
                !answered,
            ) ==> bound_here(session.scratch.entries, k) && !belongs_to(
                session.scratch.entries,
                m,
                k,
            ),
    ensures
        0 <= m < e,
        sync_slots(session, shared, now)[m] == goes_along(
            session.scratch.entries[m],
            session.scratch.entries[m].kind,
            answered,
        ),
{
    let entries = session.scratch.entries;
    let slots = at_sync(session, shared, now).0.slots;
    lemma_entries_keep_true(session, shared, entries.len(), now);
    let all = sync_slots(session, shared, now);
    assert(slots[e] is Some);
    assert forall|k: int|
        e < k < entries.len() && (#[trigger] slots[k]) is Some && is_decided(
            slots[k].unwrap(),
            !answered,
        ) implies bound_here(entries, k) && !belongs_to(entries, m, k) by {
        assert(all[k] == slots[k].unwrap());
    }
    lemma_follows(session, shared, m, e, entries.len(), answered, now);
}

/// What is written to the database for some slots are the bytes of those that are passed on or
/// captured, in their order.
pub proof fn law_writes_are_those_of_the_slots(slots: Seq<Slot>)
    ensures
        slot_writes(slots) == slots.filter(
            |slot: Slot| slot is Passthrough || slot is Capture,
        ).map_values(
            |slot: Slot|
                if slot is Capture {
                    slot->Capture_0.bytes
                } else {
                    slot->Passthrough_bytes
                },
        ),
    decreases slots.len(),
{
    reveal(Seq::filter);
    let picked = slots.filter(|slot: Slot| slot is Passthrough || slot is Capture).map_values(
        |slot: Slot|
            if slot is Capture {
                slot->Capture_0.bytes
            } else {
                slot->Passthrough_bytes
            },
    );
    if slots.len() > 0 {
        law_writes_are_those_of_the_slots(slots.drop_last());
    }
    assert(slot_writes(slots) =~= picked);
}

/// The writes of several cycles are those of each, one cycle behind the other; a cycle that a Sync
/// ended is ended with a Sync at the database.
pub proof fn law_cycles_are_written_in_order(cycles: Seq<CycleText>, cycle: CycleText)
    ensures
        db_writes(cycles.push(cycle)) == db_writes(cycles) + slot_writes(cycle.slots) + if
            cycle.synthesize_sync {
            seq![sync_message()]
        } else {
            Seq::empty()
        },
        db_writes(Seq::<CycleText>::empty()) == Seq::<Seq<u8>>::empty(),
{
    assert(cycles.push(cycle).drop_last() =~= cycles);
    assert(db_writes(cycles.push(cycle)) =~= db_writes(cycles) + slot_writes(cycle.slots) + if
        cycle.synthesize_sync {
        seq![sync_message()]
    } else {
        Seq::empty()
    });
}

/// `first` is written in front of `second`.
pub open spec fn written_in_front(writes: Seq<Seq<u8>>, first: Seq<u8>, second: Seq<u8>) -> bool {
    exists|i: int, j: int|
        0 <= i < j < writes.len() && #[trigger] writes[i] == first && #[trigger] writes[j] == second
}

proof fn lemma_written(slots: Seq<Slot>, at: int)
    requires
        0 <= at < slots.len(),
        slot_write(slots[at]) is Some,
    ensures
        slot_writes(slots).contains(slot_write(slots[at])->0),
    decreases slots.len(),
{
    let before = slot_writes(slots.drop_last());
    if at == slots.len() - 1 {
        assert(slot_writes(slots)[before.len() as int] == slot_write(slots[at])->0);
    } else {
        lemma_written(slots.drop_last(), at);
        let i = choose|i: int|
            0 <= i < before.len() && before[i] == slot_write(slots.drop_last()[at])->0;
        assert(slot_writes(slots)[i] == before[i]);
    }
}

proof fn lemma_written_in_front(slots: Seq<Slot>, m: int, e: int)
    requires
        0 <= m < e < slots.len(),
        slot_write(slots[m]) is Some,
        slot_write(slots[e]) is Some,
    ensures
        written_in_front(slot_writes(slots), slot_write(slots[m])->0, slot_write(slots[e])->0),
    decreases slots.len(),
{
    let rest = slots.drop_last();
    let before = slot_writes(rest);
    let writes = slot_writes(slots);
    if e == slots.len() - 1 {
        lemma_written(rest, m);
        let i = choose|i: int| 0 <= i < before.len() && before[i] == slot_write(rest[m])->0;
        assert(writes[i] == before[i]);
        assert(writes[before.len() as int] == slot_write(slots[e])->0);
    } else {
        lemma_written_in_front(rest, m, e);
        let (i, j) = choose|i: int, j: int|
            0 <= i < j < before.len() && #[trigger] before[i] == slot_write(rest[m])->0
                && #[trigger] before[j] == slot_write(rest[e])->0;
        assert(writes[i] == before[i] && writes[j] == before[j]);
    }
}

/// When an execution is captured, its Bind, the Parse of its statement and its Describe, where they
/// stand between the same two Syncs and no later execution that they belong to is answered, are
/// written to the database in front of it, and a Sync behind all of them, whatever was answered
/// before.
#[verifier::rlimit(60)]
pub proof fn law_captured_execution_takes_its_messages_along(
    session: Session,
    shared: Shared,
    m: int,
    e: int,
    now: Moment,
)
    requires
        fresh(session),
        0 <= e < session.scratch.entries.len() <= usize::MAX,
        at_sync(session, shared, now).1 is None,
        belongs_to(session.scratch.entries, m, e),
        sync_slots(session, shared, now)[e] is Capture,
        forall|k: int|
            e < k < session.scratch.entries.len() && (#[trigger] sync_slots(
                session,
                shared,
                now,
            )[k]) is Replay ==> bound_here(session.scratch.entries, k) && !belongs_to(
                session.scratch.entries,
                m,
                k,
            ),
    ensures
        ({
            let slots = sync_slots(session, shared, now);
            let writes = cycle_writes(CycleText { slots, synthesize_sync: true });
            &&& slots[m] == (Slot::Passthrough {
                bytes: session.scratch.entries[m].bytes,
                kind: session.scratch.entries[m].kind,
            })
            &&& written_in_front(
                writes,
                session.scratch.entries[m].bytes,
                session.scratch.entries[e].bytes,
            )
            &&& writes.last() == sync_message()
        }),
{
    let entries = session.scratch.entries;
    let slots = sync_slots(session, shared, now);
    assert forall|k: int|
        e < k < entries.len() && is_decided(#[trigger] slots[k], true) implies bound_here(
        entries,
        k,
    ) && !belongs_to(entries, m, k) by {}
    law_messages_follow_their_last_execution(session, shared, m, e, false, now);
    lemma_true_in_order(session.scratch);
    law_every_message_is_decided_on(session, shared, now);
    lemma_written_in_front(slots, m, e);
    let writes = slot_writes(slots);
    let (i, j) = choose|i: int, j: int|
        0 <= i < j < writes.len() && #[trigger] writes[i] == entries[m].bytes && #[trigger] writes[j]
            == entries[e].bytes;
    let all = cycle_writes(CycleText { slots, synthesize_sync: true });
    assert(all[i] == writes[i] && all[j] == writes[j]);
}

/// Why the message at `m` is left out: an execution behind it is answered, of its portal where it
/// binds one, and under its name where it asks for a description.
pub open spec fn left_out_for(entries: Seq<EntryText>, m: int, k: int) -> bool {
    &&& m < k < entries.len()
    &&& execute_of(entries[k]) is Some
    &&& bind_of(entries[m]) is Some ==> bind_of(entries[m])->0.portal == execute_of(
        entries[k],
    )->0.portal
    &&& describe_of(entries[m]) is Some ==> describe_of(entries[m])->0.name == execute_of(
        entries[k],
    )->0.portal
}

#[verifier::rlimit(60)]
proof fn lemma_left_out(session: Session, shared: Shared, m: int, count: nat, now: Moment)
    requires
        fresh(session),
        0 <= m < session.scratch.entries.len() <= usize::MAX,
        count <= session.scratch.entries.len(),
        after_entries(session, shared, count, now).1 is None,
        after_entries(session, shared, count, now).0.slots[m] is Some,
        after_entries(session, shared, count, now).0.slots[m].unwrap() is Skip,
    ensures
        exists|k: int|
            {
                &&& #[trigger] left_out_for(session.scratch.entries, m, k)
                &&& k < count
                &&& after_entries(session, shared, count, now).0.slots[k] is Some
                &&& after_entries(session, shared, count, now).0.slots[k].unwrap() is Replay
            },
    decreases count,
{
    if count > 0 {
        let entries = session.scratch.entries;
        let last = (count - 1) as nat;
        lemma_no_error_before(session, shared, last, count, now);
        lemma_entries_keep_true(session, shared, last, now);
        let before = after_entries(session, shared, last, now).0;
        let slots = after_entries(session, shared, count, now).0.slots;
        lemma_true_in_order(before.session.scratch);
        if before.slots[m] == slots[m] {
            lemma_left_out(session, shared, m, last, now);
            let k = choose|k: int|
                {
                    &&& #[trigger] left_out_for(entries, m, k)
                    &&& k < last
                    &&& before.slots[k] is Some
                    &&& before.slots[k].unwrap() is Replay
                };
            lemma_decided_is_execution(session, shared, k, last, now);
            lemma_decision_stays(session, shared, k, last, now);
            assert(left_out_for(entries, m, k));
        } else {
            let scratch = before.session.scratch;
            let content = execute_of(entries[last as int])->0;
            assert(m < last) by {
                lemma_noted_before(session, shared, last, now);
            }
            assert(left_out_for(entries, m, last as int));
        }
    }
}

/// What is noted stands in front of what is planned next.
proof fn lemma_noted_before(session: Session, shared: Shared, count: nat, now: Moment)
    requires
        fresh(session),
        count <= session.scratch.entries.len() <= usize::MAX,
    ensures
        ({
            let scratch = after_entries(session, shared, count, now).0.session.scratch;
            &&& forall|name: Seq<char>| #[trigger]
                scratch.parses.contains_key(name) ==> scratch.parses[name].0 < count
            &&& forall|name: Seq<char>| #[trigger]
                scratch.binds.contains_key(name) ==> scratch.binds[name].0 < count
            &&& forall|name: Seq<char>| #[trigger]
                scratch.describes.contains_key(name) ==> scratch.describes[name].0 < count
        }),
    decreases count,
{
    if count > 0 {
        lemma_noted_before(session, shared, (count - 1) as nat, now);
        lemma_entries_keep_true(session, shared, (count - 1) as nat, now);
    }
}

/// A message is left out only for an execution behind it that is answered from the cache: of its
/// own portal where it binds one, and under its own name where it asks for a description.
pub proof fn law_only_for_answers_is_anything_left_out(
    session: Session,
    shared: Shared,
    m: int,
    now: Moment,
)
    requires
        fresh(session),
        0 <= m < session.scratch.entries.len() <= usize::MAX,
        at_sync(session, shared, now).1 is None,
        sync_slots(session, shared, now)[m] is Skip,
    ensures
        exists|k: int|
            {
                &&& #[trigger] left_out_for(session.scratch.entries, m, k)
                &&& sync_slots(session, shared, now)[k] is Replay
            },
{
    let entries = session.scratch.entries;
    lemma_entries_keep_true(session, shared, entries.len(), now);
    let slots = at_sync(session, shared, now).0.slots;
    lemma_left_out(session, shared, m, entries.len(), now);
    let k = choose|k: int|
        {
            &&& #[trigger] left_out_for(entries, m, k)
            &&& k < entries.len()
            &&& slots[k] is Some
            &&& slots[k].unwrap() is Replay
        };
    assert(left_out_for(entries, m, k) && sync_slots(session, shared, now)[k] is Replay);
}

/// A statement that is known stays as it is while it is not closed and, if it has no name, not
/// replaced.
proof fn lemma_statement_stays(
    session: Session,
    shared: Shared,
    name: Seq<char>,
    from: nat,
    count: nat,
    now: Moment,
)
    requires
        scratch_is_true(session.scratch),
        from <= count <= session.scratch.entries.len() <= usize::MAX,
        after_entries(session, shared, count, now).1 is None,
        after_entries(session, shared, from, now).0.session.statements.contains_key(name),
        forall|k: int|
            from <= k < count ==> !closes(
                #[trigger] session.scratch.entries[k],
                CloseMessageContentTarget::PreparedStatement,
                name,
            ) && (name.len() > 0 || !prepares(session.scratch.entries[k], name)),
    ensures
        ({
            let before = after_entries(session, shared, from, now).0.session.statements;
            let after = after_entries(session, shared, count, now).0.session.statements;
            after.contains_key(name) && after[name] == before[name]
        }),
    decreases count,
{
    if from < count {
        let last = (count - 1) as nat;
        lemma_no_error_before(session, shared, last, count, now);
        lemma_statement_stays(session, shared, name, from, last, now);
        lemma_entries_keep_true(session, shared, last, now);
        assert(!closes(
            session.scratch.entries[last as int],
            CloseMessageContentTarget::PreparedStatement,
            name,
        ));
    }
}

/// What is known of a portal stays as it is while it is not bound again and not closed.
proof fn lemma_portal_stays(
    session: Session,
    shared: Shared,
    name: Seq<char>,
    from: nat,
    count: nat,
    now: Moment,
)
    requires
        scratch_is_true(session.scratch),
        from <= count <= session.scratch.entries.len() <= usize::MAX,
        after_entries(session, shared, count, now).1 is None,
        forall|k: int|
            from <= k < count ==> !closes(
                #[trigger] session.scratch.entries[k],
                CloseMessageContentTarget::Portal,
                name,
            ) && !binds(session.scratch.entries[k], name),
    ensures
        ({
            let before = after_entries(session, shared, from, now).0.session.portals;
            let after = after_entries(session, shared, count, now).0.session.portals;
            &&& after.contains_key(name) <==> before.contains_key(name)
            &&& before.contains_key(name) ==> after[name] == before[name]
        }),
    decreases count,
{
    if from < count {
        let last = (count - 1) as nat;
        lemma_no_error_before(session, shared, last, count, now);
        lemma_portal_stays(session, shared, name, from, last, now);
        lemma_entries_keep_true(session, shared, last, now);
        assert(!closes(
            session.scratch.entries[last as int],
            CloseMessageContentTarget::Portal,
            name,
        ));
    }
}

proof fn lemma_templates_stay(session: Session, shared: Shared, count: nat, now: Moment)
    ensures
        after_entries(session, shared, count, now).0.shared.templates == shared.templates,
        after_entries(session, shared, count, now).0.shared.global_ttl == shared.global_ttl,
    decreases count,
{
    if count > 0 {
        lemma_templates_stay(session, shared, (count - 1) as nat, now);
    }
}

/// `slot` answers or captures an execution of `query` with `values`.
pub open spec fn looked_up(
    slot: Slot,
    shared: Shared,
    query: Seq<char>,
    values: Seq<Option<Seq<u8>>>,
) -> bool {
    match slot {
        Slot::Replay(replay) => replay.key == wire_key(query, values),
        Slot::Capture(capture) => {
            &&& capture.key == wire_key(query, values)
            &&& shared.templates[query].ttl is Some ==> capture.ttl == shared.templates[query].ttl->0
            &&& shared.templates[query].ttl is None ==> capture.ttl == shared.global_ttl
        },
        _ => false,
    }
}

#[verifier::rlimit(60)]
proof fn lemma_looked_up(
    session: Session,
    shared: Shared,
    e: int,
    query: Seq<char>,
    values: Seq<Option<Seq<u8>>>,
    now: Moment,
)
    requires
        fresh(session),
        0 <= e < session.scratch.entries.len() <= usize::MAX,
        at_sync(session, shared, now).1 is None,
        execute_of(session.scratch.entries[e]) is Some,
        execute_of(session.scratch.entries[e])->0.row_limit == 0,
        shared.templates.contains_key(query),
        ({
            let known = after_entries(session, shared, e as nat, now).0.session;
            let portal = execute_of(session.scratch.entries[e])->0.portal;
            &&& known.portals.contains_key(portal)
            &&& known.portals[portal].values == values
            &&& known.statements.contains_key(known.portals[portal].statement)
            &&& known.statements[known.portals[portal].statement].query == query
        }),
    ensures
        looked_up(sync_slots(session, shared, now)[e], shared, query, values),
{
    let entries = session.scratch.entries;
    let count = entries.len();
    lemma_no_error_before(session, shared, e as nat, count, now);
    lemma_no_error_before(session, shared, (e + 1) as nat, count, now);
    lemma_entries_keep_true(session, shared, e as nat, now);
    lemma_entries_keep_true(session, shared, count, now);
    lemma_templates_stay(session, shared, e as nat, now);
    let before = after_entries(session, shared, e as nat, now).0;
    lemma_true_in_order(session.scratch);
    lemma_true_in_order(before.session.scratch);
    law_execution_is_looked_up(before, e as usize, execute_of(entries[e])->0, now);
    lemma_execution_stays(session, shared, e, count, now);
}

/// Of any number of executions between two Syncs, each one without a row limit, whose statement is
/// prepared and whose portal is bound among them and that has a template, is answered or captured,
/// under the key of its own statement with its own values.
#[verifier::rlimit(60)]
pub proof fn law_every_cached_execution_is_looked_up(
    session: Session,
    shared: Shared,
    p: int,
    b: int,
    e: int,
    now: Moment,
)
    requires
        fresh(session),
        0 <= p < b < e < session.scratch.entries.len() <= usize::MAX,
        at_sync(session, shared, now).1 is None,
        execute_of(session.scratch.entries[e]) is Some,
        execute_of(session.scratch.entries[e])->0.row_limit == 0,
        last_bind(
            session.scratch.entries,
            execute_of(session.scratch.entries[e])->0.portal,
            b,
            e,
        ),
        ({
            let name = bind_of(session.scratch.entries[b])->0.statement;
            &&& last_parse(session.scratch.entries, name, p, e)
            // The name is free.
            &&& name.len() > 0 ==> {
                &&& !session.statements.contains_key(name)
                &&& forall|k: int|
                    0 <= k < p ==> !prepares(#[trigger] session.scratch.entries[k], name)
            }
        }),
        shared.templates.contains_key(parse_of(session.scratch.entries[p])->0.query),
    ensures
        looked_up(
            sync_slots(session, shared, now)[e],
            shared,
            parse_of(session.scratch.entries[p])->0.query,
            bind_of(session.scratch.entries[b])->0.values,
        ),
{
    let entries = session.scratch.entries;
    let count = entries.len();
    let parse = parse_of(entries[p])->0;
    let bind = bind_of(entries[b])->0;
    let name = bind.statement;
    lemma_no_error_before(session, shared, p as nat, count, now);
    lemma_no_error_before(session, shared, (p + 1) as nat, count, now);
    lemma_no_error_before(session, shared, b as nat, count, now);
    lemma_no_error_before(session, shared, (b + 1) as nat, count, now);
    lemma_no_error_before(session, shared, e as nat, count, now);
    lemma_entries_keep_true(session, shared, p as nat, now);
    lemma_entries_keep_true(session, shared, b as nat, now);
    if name.len() > 0 {
        lemma_name_stays_free(session, shared, name, p as nat, now);
    }
    law_parse_makes_one_statement_known(
        after_entries(session, shared, p as nat, now).0,
        p as usize,
        parse,
        now,
    );
    lemma_statement_stays(session, shared, name, (p + 1) as nat, b as nat, now);
    lemma_statement_stays(session, shared, name, (p + 1) as nat, e as nat, now);
    lemma_templates_stay(session, shared, b as nat, now);
    law_bind_makes_one_portal_known(
        after_entries(session, shared, b as nat, now).0,
        b as usize,
        bind,
        now,
    );
    lemma_portal_stays(session, shared, bind.portal, (b + 1) as nat, e as nat, now);
    lemma_looked_up(session, shared, e, parse.query, bind.values, now);
}

proof fn lemma_name_stays_free(
    session: Session,
    shared: Shared,
    name: Seq<char>,
    count: nat,
    now: Moment,
)
    requires
        scratch_is_true(session.scratch),
        count <= session.scratch.entries.len() <= usize::MAX,
        after_entries(session, shared, count, now).1 is None,
        !session.statements.contains_key(name),
        forall|k: int| 0 <= k < count ==> !prepares(#[trigger] session.scratch.entries[k], name),
    ensures
        !after_entries(session, shared, count, now).0.session.statements.contains_key(name),
    decreases count,
{
    if count > 0 {
        let last = (count - 1) as nat;
        lemma_no_error_before(session, shared, last, count, now);
        lemma_name_stays_free(session, shared, name, last, now);
        lemma_entries_keep_true(session, shared, last, now);
        assert(!prepares(session.scratch.entries[last as int], name));
    }
}

/// An execution without a row limit of a portal that is known from before the last Sync, and that is
/// neither bound again nor closed since, nor its statement closed or replaced, is answered or
/// captured under the key of that statement with the values of that portal, if the statement has a
/// template.
#[verifier::rlimit(60)]
pub proof fn law_known_portal_is_looked_up(session: Session, shared: Shared, e: int, now: Moment)
    requires
        fresh(session),
        0 <= e < session.scratch.entries.len() <= usize::MAX,
        at_sync(session, shared, now).1 is None,
        execute_of(session.scratch.entries[e]) is Some,
        execute_of(session.scratch.entries[e])->0.row_limit == 0,
        ({
            let portal = execute_of(session.scratch.entries[e])->0.portal;
            let name = session.portals[portal].statement;
            &&& session.portals.contains_key(portal)
            &&& session.statements.contains_key(name)
            &&& shared.templates.contains_key(session.statements[name].query)
            &&& forall|k: int|
                0 <= k < e ==> {
                    &&& !binds(#[trigger] session.scratch.entries[k], portal)
                    &&& !closes(
                        session.scratch.entries[k],
                        CloseMessageContentTarget::Portal,
                        portal,
                    )
                    &&& !closes(
                        session.scratch.entries[k],
                        CloseMessageContentTarget::PreparedStatement,
                        name,
                    )
                    &&& name.len() > 0 || !prepares(session.scratch.entries[k], name)
                }
        }),
    ensures
        ({
            let portal = execute_of(session.scratch.entries[e])->0.portal;
            looked_up(
                sync_slots(session, shared, now)[e],
                shared,
                session.statements[session.portals[portal].statement].query,
                session.portals[portal].values,
            )
        }),
{
    let portal = execute_of(session.scratch.entries[e])->0.portal;
    let name = session.portals[portal].statement;
    lemma_no_error_before(session, shared, e as nat, session.scratch.entries.len(), now);
    assert(after_entries(session, shared, 0, now).0.session == session);
    lemma_statement_stays(session, shared, name, 0, e as nat, now);
    lemma_portal_stays(session, shared, portal, 0, e as nat, now);
    lemma_looked_up(
        session,
        shared,
        e,
        session.statements[name].query,
        session.portals[portal].values,
        now,
    );
}

} // verus!
