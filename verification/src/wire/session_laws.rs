//! What each message of a client does to its session.
use vstd::prelude::*;
use crate::cache::lfu::ResponseBytes;
use crate::cache::matcher::{law_last_template_counts, templates_by_sql};
use crate::cache::store::{law_keys_tell_queries_apart, wire_key};
use crate::cache::QueryTemplate;
use crate::clock::Moment;
use crate::server::state::Shared;
use crate::wire::messages::{
    bind_content, close_content, describe_content, execute_content, parse_content, query_content,
    BindText, CloseMessageContentTarget, CloseText, DescribeMessageContentTarget, DescribeText,
    ExecuteText, ParseText,
};
use crate::wire::plan_model::{
    after_entry, after_message, at_sync, body, plan_of, satisfies, ttl_of, Progress, Run, Verdict,
    BIND_TYPE, CLOSE_TYPE, DESCRIBE_TYPE, EXECUTE_TYPE, PARSE_TYPE, QUERY_TYPE, SYNC_TYPE,
    TERMINATE_TYPE, UNEXPECTED_TYPE,
};
use crate::wire::reader::Fault;
use crate::wire::types::{
    scratch_in_order, DescribeKind, EntryText, MessageKind, ProtocolMode, Slot,
};

verus! {

/// The message at `index`.
pub open spec fn entry_at(progress: Progress, index: usize) -> EntryText {
    progress.session.scratch.entries[index as int]
}

/// `after` differs from `before` in nothing but what is held under `name`.
pub open spec fn same_elsewhere<V>(
    before: Map<Seq<char>, V>,
    after: Map<Seq<char>, V>,
    name: Seq<char>,
) -> bool {
    forall|other: Seq<char>|
        other != name ==> {
            &&& #[trigger] after.contains_key(other) <==> before.contains_key(other)
            &&& before.contains_key(other) ==> after[other] == before[other]
        }
}

/// Closing a statement forgets the statement of that name and no other, and leaves the portals;
/// closing a portal forgets the portal of that name and no other, and leaves the statements. What
/// waits and what is decided stays as it is.
pub proof fn law_close_forgets_one_name(
    progress: Progress,
    index: usize,
    content: CloseText,
    now: Moment,
)
    requires
        entry_at(progress, index).kind == MessageKind::Close,
        close_content(body(entry_at(progress, index).bytes)) == Ok::<CloseText, Fault>(content),
    ensures
        after_entry(progress, index, now) is Ok,
        ({
            let before = progress.session;
            let after = after_entry(progress, index, now)->Ok_0.session;
            &&& same_elsewhere(before.statements, after.statements, content.name)
            &&& same_elsewhere(before.portals, after.portals, content.name)
            &&& same_elsewhere(before.scratch.parses, after.scratch.parses, content.name)
            &&& same_elsewhere(before.scratch.binds, after.scratch.binds, content.name)
            &&& match content.target {
                CloseMessageContentTarget::PreparedStatement => {
                    &&& !after.statements.contains_key(content.name)
                    &&& !after.scratch.parses.contains_key(content.name)
                    &&& after.portals == before.portals
                    &&& after.scratch.binds == before.scratch.binds
                },
                CloseMessageContentTarget::Portal => {
                    &&& !after.portals.contains_key(content.name)
                    &&& !after.scratch.binds.contains_key(content.name)
                    &&& after.statements == before.statements
                    &&& after.scratch.parses == before.scratch.parses
                },
            }
            &&& after.scratch.describes == before.scratch.describes
            &&& after.scratch.entries == before.scratch.entries
        }),
        after_entry(progress, index, now)->Ok_0.shared == progress.shared,
        after_entry(progress, index, now)->Ok_0.slots == progress.slots,
{
}

/// A request to prepare makes its statement known under its name, with its text and its parameter
/// types, unless a statement of that name, other than the unnamed one, is known already. Statements
/// of other names and the portals stay.
pub proof fn law_parse_makes_one_statement_known(
    progress: Progress,
    index: usize,
    content: ParseText,
    now: Moment,
)
    requires
        entry_at(progress, index).kind == MessageKind::Parse,
        parse_content(body(entry_at(progress, index).bytes)) == Ok::<ParseText, Fault>(content),
    ensures
        after_entry(progress, index, now) is Ok,
        ({
            let before = progress.session;
            let after = after_entry(progress, index, now)->Ok_0.session;
            &&& after.statements.contains_key(content.name)
            &&& if content.name.len() > 0 && before.statements.contains_key(content.name) {
                after.statements[content.name] == before.statements[content.name]
            } else {
                &&& after.statements[content.name].query == content.query
                &&& after.statements[content.name].types == content.types
                &&& !after.statements[content.name].known
            }
            &&& same_elsewhere(before.statements, after.statements, content.name)
            &&& after.portals == before.portals
            &&& after.scratch.parses.contains_key(content.name)
            &&& after.scratch.parses[content.name] == (index, content)
            &&& same_elsewhere(before.scratch.parses, after.scratch.parses, content.name)
            &&& after.scratch.binds == before.scratch.binds
            &&& after.scratch.describes == before.scratch.describes
            &&& after.scratch.entries == before.scratch.entries
        }),
        after_entry(progress, index, now)->Ok_0.shared == progress.shared,
        after_entry(progress, index, now)->Ok_0.slots == progress.slots,
{
}

/// A request to bind makes its portal known under its name, with its statement, its values and its
/// formats, if the statement is known and has a template. Portals of other names and the statements
/// stay.
pub proof fn law_bind_makes_one_portal_known(
    progress: Progress,
    index: usize,
    content: BindText,
    now: Moment,
)
    requires
        entry_at(progress, index).kind == MessageKind::Bind,
        bind_content(body(entry_at(progress, index).bytes)) == Ok::<BindText, Fault>(content),
    ensures
        after_entry(progress, index, now) is Ok,
        ({
            let before = progress.session;
            let after = after_entry(progress, index, now)->Ok_0.session;
            &&& if before.statements.contains_key(content.statement)
                && progress.shared.templates.contains_key(
                before.statements[content.statement].query,
            ) {
                &&& after.portals.contains_key(content.portal)
                &&& after.portals[content.portal].statement == content.statement
                &&& after.portals[content.portal].values == content.values
                &&& after.portals[content.portal].parameter_formats == content.parameter_formats
                &&& after.portals[content.portal].result_formats == content.result_formats
                &&& same_elsewhere(before.portals, after.portals, content.portal)
            } else {
                after.portals == before.portals
            }
            &&& after.statements == before.statements
            &&& after.scratch.binds.contains_key(content.portal)
            &&& after.scratch.binds[content.portal] == (index, content)
            &&& same_elsewhere(before.scratch.binds, after.scratch.binds, content.portal)
            &&& after.scratch.parses == before.scratch.parses
            &&& after.scratch.describes == before.scratch.describes
            &&& after.scratch.entries == before.scratch.entries
        }),
        after_entry(progress, index, now)->Ok_0.shared == progress.shared,
        after_entry(progress, index, now)->Ok_0.slots == progress.slots,
{
}

/// A request to describe is noted under its name and changes nothing else.
pub proof fn law_describe_is_noted(
    progress: Progress,
    index: usize,
    content: DescribeText,
    now: Moment,
)
    requires
        entry_at(progress, index).kind == MessageKind::Describe,
        describe_content(body(entry_at(progress, index).bytes)) == Ok::<DescribeText, Fault>(
            content,
        ),
    ensures
        after_entry(progress, index, now) is Ok,
        ({
            let before = progress.session;
            let after = after_entry(progress, index, now)->Ok_0.session;
            &&& after.scratch.describes.contains_key(content.name)
            &&& after.scratch.describes[content.name] == (index, content)
            &&& same_elsewhere(before.scratch.describes, after.scratch.describes, content.name)
            &&& after.statements == before.statements
            &&& after.portals == before.portals
            &&& after.scratch.parses == before.scratch.parses
            &&& after.scratch.binds == before.scratch.binds
            &&& after.scratch.entries == before.scratch.entries
        }),
        after_entry(progress, index, now)->Ok_0.shared == progress.shared,
        after_entry(progress, index, now)->Ok_0.slots == progress.slots,
{
}

/// The time to live of a query is that of the last template with its text where that has one,
/// whatever the setting for all queries is, and the setting for all queries where it has none. A
/// query that is not among the templates has none.
pub proof fn law_time_to_live(
    shared: Shared,
    queries: Seq<QueryTemplate>,
    sql: Seq<char>,
    values: Seq<Option<Seq<u8>>>,
)
    requires
        shared.templates == templates_by_sql(queries),
    ensures
        (forall|i: int| 0 <= i < queries.len() ==> (#[trigger] queries[i]).sql@ != sql) ==> {
            &&& ttl_of(shared, sql) is None
            &&& plan_of(shared, sql, values) is None
        },
        forall|i: int|
            0 <= i < queries.len() && (#[trigger] queries[i]).sql@ == sql && (forall|j: int|
                i < j < queries.len() ==> (#[trigger] queries[j]).sql@ != sql) ==> {
                let ttl = if queries[i].ttl is Some {
                    queries[i].ttl->0
                } else {
                    shared.global_ttl
                };
                &&& ttl_of(shared, sql) == Some(ttl)
                &&& plan_of(shared, sql, values) is Some
                &&& plan_of(shared, sql, values)->0.ttl == ttl
            },
{
    law_last_template_counts(queries, sql);
    assert forall|i: int|
        0 <= i < queries.len() && (#[trigger] queries[i]).sql@ == sql && (forall|j: int|
            i < j < queries.len() ==> (#[trigger] queries[j]).sql@ != sql) implies {
        let ttl = if queries[i].ttl is Some {
            queries[i].ttl->0
        } else {
            shared.global_ttl
        };
        &&& ttl_of(shared, sql) == Some(ttl)
        &&& plan_of(shared, sql, values) is Some
        &&& plan_of(shared, sql, values)->0.ttl == ttl
    } by {
        assert(queries[i]@.sql == sql);
        assert forall|j: int| i < j < queries.len() implies (#[trigger] queries[j])@.sql != sql by {
            assert(queries[j].sql@ != sql);
        }
        assert(templates_by_sql(queries)[sql] == queries[i]@);
    }
    if forall|i: int| 0 <= i < queries.len() ==> (#[trigger] queries[i]).sql@ != sql {
        assert forall|i: int| 0 <= i < queries.len() implies (#[trigger] queries[i])@.sql != sql by {
            assert(queries[i].sql@ != sql);
        }
    }
}

/// Two requests share what is cached exactly if both are to be cached and ask the same query with
/// the same values.
pub proof fn law_plans_share_keys_of_equal_requests(
    shared: Shared,
    query: Seq<char>,
    values: Seq<Option<Seq<u8>>>,
    other_query: Seq<char>,
    other_values: Seq<Option<Seq<u8>>>,
)
    requires
        shared.templates.contains_key(query),
        shared.templates.contains_key(other_query),
    ensures
        plan_of(shared, query, values) is Some,
        plan_of(shared, other_query, other_values) is Some,
        plan_of(shared, query, values)->0.key == plan_of(shared, other_query, other_values)->0.key
            <==> query == other_query && values == other_values,
{
    if wire_key(query, values) == wire_key(other_query, other_values) {
        law_keys_tell_queries_apart(query, values, other_query, other_values);
    }
}

/// A cached response answers a request exactly if it has data, and a row description where any
/// description was asked for, and a parameter description where a statement's was.
pub proof fn law_answers_hold_what_was_asked_for(
    response: ResponseBytes,
    kind: DescribeKind,
)
    ensures
        satisfies(response, kind) <==> {
            &&& response.data.len() > 0
            &&& kind != DescribeKind::Nothing ==> response.row_desc is Some
            &&& kind == DescribeKind::Statement ==> response.param_desc is Some
        },
{
}

/// `slot` of a message that belongs to an execution that is `answered`, or else goes to the
/// database.
pub open spec fn goes_along(entry: EntryText, kind: MessageKind, answered: bool) -> Slot {
    if answered {
        Slot::Skip { bytes: entry.bytes, kind }
    } else {
        Slot::Passthrough { bytes: entry.bytes, kind }
    }
}

/// An execution of a known portal of a known statement with a template, without a row limit, is
/// looked up under the key of that statement with the values of that portal. What the cache serves
/// answers it, if it holds what was asked for; else its response is captured under that key for the
/// template's time. Its Bind and Parse since the last Sync, and a Describe under its name, go
/// along, whatever was decided on them before. Nothing else is decided on.
#[verifier::rlimit(40)]
pub proof fn law_execution_is_looked_up(
    progress: Progress,
    index: usize,
    content: ExecuteText,
    now: Moment,
)
    requires
        index < progress.session.scratch.entries.len(),
        progress.slots.len() == progress.session.scratch.entries.len(),
        scratch_in_order(progress.session.scratch),
        entry_at(progress, index).kind == MessageKind::Execute,
        execute_content(body(entry_at(progress, index).bytes)) == Ok::<ExecuteText, Fault>(content),
        content.row_limit == 0,
        progress.session.portals.contains_key(content.portal),
        progress.session.statements.contains_key(
            progress.session.portals[content.portal].statement,
        ),
        progress.shared.templates.contains_key(
            progress.session.statements[progress.session.portals[content.portal].statement].query,
        ),
    ensures
        after_entry(progress, index, now) is Ok,
        ({
            let session = progress.session;
            let scratch = session.scratch;
            let entries = scratch.entries;
            let portal = session.portals[content.portal];
            let query = session.statements[portal.statement].query;
            let template = progress.shared.templates[query];
            let key = wire_key(query, portal.values);
            let cached = progress.shared.cache.served(key, now);
            let asked = if !scratch.describes.contains_key(content.portal) {
                DescribeKind::Nothing
            } else if scratch.describes[content.portal].1.target
                == DescribeMessageContentTarget::Portal {
                DescribeKind::Portal
            } else {
                DescribeKind::Statement
            };
            let answered = cached is Some && cached->0.data.len() > 0 && (asked
                != DescribeKind::Nothing ==> cached->0.row_desc is Some) && (asked
                == DescribeKind::Statement ==> cached->0.param_desc is Some);
            let after = after_entry(progress, index, now)->Ok_0;
            let slots = after.slots;
            // The messages that go along.
            let bind = if scratch.binds.contains_key(content.portal) {
                scratch.binds[content.portal].0 as int
            } else {
                -1
            };
            let statement = if bind >= 0 {
                scratch.binds[content.portal].1.statement
            } else {
                portal.statement
            };
            let parse = if scratch.parses.contains_key(statement) {
                scratch.parses[statement].0 as int
            } else {
                -1
            };
            let describe = if scratch.describes.contains_key(content.portal) {
                scratch.describes[content.portal].0 as int
            } else {
                -1
            };
            let text = if parse >= 0 {
                scratch.parses[statement].1.query
            } else if session.statements.contains_key(statement) {
                session.statements[statement].query
            } else {
                Seq::empty()
            };
            &&& after.session == session
            &&& after.shared.templates == progress.shared.templates
            &&& after.shared.global_ttl == progress.shared.global_ttl
            &&& after.shared.cache == progress.shared.cache.after_get(key, now)
            &&& slots.len() == entries.len()
            &&& match slots[index as int] {
                Some(Slot::Replay(replay)) => {
                    &&& answered
                    &&& replay.key == key
                    &&& replay.data == cached->0
                    &&& replay.describe_kind == asked
                    &&& replay.protocol_mode == ProtocolMode::Extended
                    &&& replay.query == text
                },
                Some(Slot::Capture(capture)) => {
                    &&& !answered
                    &&& capture.bytes == entries[index as int].bytes
                    &&& capture.key == key
                    &&& capture.describe_kind == asked
                    &&& capture.protocol_mode == ProtocolMode::Extended
                    &&& capture.query == text
                    &&& template.ttl is Some ==> capture.ttl == template.ttl->0
                    &&& template.ttl is None ==> capture.ttl == progress.shared.global_ttl
                },
                _ => false,
            }
            &&& bind >= 0 ==> slots[bind] == Some(
                goes_along(entries[bind], MessageKind::Bind, answered),
            )
            &&& parse >= 0 ==> slots[parse] == Some(
                goes_along(entries[parse], MessageKind::Parse, answered),
            )
            &&& describe >= 0 ==> slots[describe] == Some(
                goes_along(entries[describe], MessageKind::Describe, answered),
            )
            &&& forall|i: int|
                0 <= i < slots.len() && i != index && i != bind && i != parse && i != describe
                    ==> #[trigger] slots[i] == progress.slots[i]
        }),
{
}

/// An execution with a row limit, or of a portal that is not known, or of a statement that is not
/// known or has no template, goes to the database as it is. The cache is not asked, and nothing
/// else is decided on.
pub proof fn law_other_executions_are_passed_on(
    progress: Progress,
    index: usize,
    content: ExecuteText,
    now: Moment,
)
    requires
        index < progress.session.scratch.entries.len(),
        progress.slots.len() == progress.session.scratch.entries.len(),
        entry_at(progress, index).kind == MessageKind::Execute,
        execute_content(body(entry_at(progress, index).bytes)) == Ok::<ExecuteText, Fault>(content),
        content.row_limit != 0 || !progress.session.portals.contains_key(content.portal)
            || !progress.session.statements.contains_key(
            progress.session.portals[content.portal].statement,
        ) || !progress.shared.templates.contains_key(
            progress.session.statements[progress.session.portals[content.portal].statement].query,
        ),
    ensures
        after_entry(progress, index, now) is Ok,
        ({
            let after = after_entry(progress, index, now)->Ok_0;
            &&& after.session == progress.session
            &&& after.shared == progress.shared
            &&& after.slots.len() == progress.slots.len()
            &&& after.slots[index as int] == Some(
                Slot::Passthrough {
                    bytes: entry_at(progress, index).bytes,
                    kind: MessageKind::Execute,
                },
            )
            &&& forall|i: int|
                0 <= i < progress.slots.len() && i != index ==> #[trigger] after.slots[i]
                    == progress.slots[i]
        }),
{
}

/// A message that waits and cannot be read fails with the text of its fault.
pub proof fn law_unreadable_message_fails(progress: Progress, index: usize, now: Moment)
    ensures
        ({
            let entry = entry_at(progress, index);
            let content = body(entry.bytes);
            let result = after_entry(progress, index, now);
            &&& entry.kind == MessageKind::Parse ==> match parse_content(content) {
                Err(fault) => result == Err::<Progress, Seq<char>>(fault.message),
                Ok(_) => result is Ok,
            }
            &&& entry.kind == MessageKind::Bind ==> match bind_content(content) {
                Err(fault) => result == Err::<Progress, Seq<char>>(fault.message),
                Ok(_) => result is Ok,
            }
            &&& entry.kind == MessageKind::Describe ==> match describe_content(content) {
                Err(fault) => result == Err::<Progress, Seq<char>>(fault.message),
                Ok(_) => result is Ok,
            }
            &&& entry.kind == MessageKind::Close ==> match close_content(content) {
                Err(fault) => result == Err::<Progress, Seq<char>>(fault.message),
                Ok(_) => result is Ok,
            }
            &&& entry.kind == MessageKind::Execute ==> match execute_content(content) {
                Err(fault) => result == Err::<Progress, Seq<char>>(fault.message),
                Ok(_) => result is Ok,
            }
        }),
{
}

/// A request to prepare, bind, describe, execute or close waits for the Sync: it is kept as it is
/// behind those that wait already, and nothing else happens.
pub proof fn law_requests_wait_for_the_sync(run: Run, message: Seq<u8>, now: Moment)
    requires
        message[0] == PARSE_TYPE || message[0] == BIND_TYPE || message[0] == DESCRIBE_TYPE
            || message[0] == EXECUTE_TYPE || message[0] == CLOSE_TYPE,
    ensures
        after_message(run, message, now).1 is GoesOn,
        ({
            let before = run.session;
            let after = after_message(run, message, now).0;
            let waiting = after.session.scratch.entries;
            &&& after.shared == run.shared
            &&& after.cycles == run.cycles
            &&& after.session.statements == before.statements
            &&& after.session.portals == before.portals
            &&& after.session.scratch.parses == before.scratch.parses
            &&& after.session.scratch.binds == before.scratch.binds
            &&& after.session.scratch.describes == before.scratch.describes
            &&& waiting.len() == before.scratch.entries.len() + 1
            &&& forall|i: int|
                0 <= i < before.scratch.entries.len() ==> #[trigger] waiting[i]
                    == before.scratch.entries[i]
            &&& waiting.last().bytes == message
            &&& waiting.last().execute is None
            &&& message[0] == PARSE_TYPE ==> waiting.last().kind == MessageKind::Parse
            &&& message[0] == BIND_TYPE ==> waiting.last().kind == MessageKind::Bind
            &&& message[0] == DESCRIBE_TYPE ==> waiting.last().kind == MessageKind::Describe
            &&& message[0] == EXECUTE_TYPE ==> waiting.last().kind == MessageKind::Execute
            &&& message[0] == CLOSE_TYPE ==> waiting.last().kind == MessageKind::Close
        }),
{
}

/// A Sync makes one cycle of what waits, whose end the database is told of with a Sync, and leaves
/// nothing waiting. Where a message cannot be read, it fails with that text instead and no cycle
/// is made.
pub proof fn law_sync_makes_one_cycle(run: Run, message: Seq<u8>, now: Moment)
    requires
        message[0] == SYNC_TYPE,
    ensures
        ({
            let (after, verdict) = after_message(run, message, now);
            let (progress, error) = at_sync(run.session, run.shared, now);
            &&& after.shared == progress.shared
            &&& after.session.statements == progress.session.statements
            &&& after.session.portals == progress.session.portals
            &&& match error {
                None => {
                    &&& verdict is GoesOn
                    &&& after.cycles.len() == run.cycles.len() + 1
                    &&& after.cycles.last().synthesize_sync
                    &&& after.cycles.last().slots.len() == progress.slots.len()
                    &&& forall|i: int|
                        0 <= i < run.cycles.len() ==> #[trigger] after.cycles[i] == run.cycles[i]
                    &&& after.session.scratch.entries.len() == 0
                    &&& forall|name: Seq<char>|
                        !(#[trigger] after.session.scratch.parses.contains_key(name))
                    &&& forall|name: Seq<char>|
                        !(#[trigger] after.session.scratch.binds.contains_key(name))
                    &&& forall|name: Seq<char>|
                        !(#[trigger] after.session.scratch.describes.contains_key(name))
                },
                Some(text) => {
                    &&& verdict == Verdict::Fails(text)
                    &&& after.cycles == run.cycles
                },
            }
        }),
{
}

/// A message of a type that a client does not send fails, and changes nothing.
pub proof fn law_unknown_message_fails(run: Run, message: Seq<u8>, now: Moment)
    requires
        message[0] != PARSE_TYPE,
        message[0] != BIND_TYPE,
        message[0] != DESCRIBE_TYPE,
        message[0] != EXECUTE_TYPE,
        message[0] != CLOSE_TYPE,
        message[0] != QUERY_TYPE,
        message[0] != SYNC_TYPE,
        message[0] != TERMINATE_TYPE,
    ensures
        after_message(run, message, now) == (run, Verdict::Fails(UNEXPECTED_TYPE@)),
{
}

/// A simple query makes a cycle of its own. One without a template is passed on and the cache is
/// not asked. One with a template is answered with what the cache serves for it, and captured under
/// its key for the template's time where the cache serves nothing. It does away with the unnamed
/// statement. One that cannot be read fails with the text of its fault, and no cycle is made.
pub proof fn law_simple_query_is_answered_captured_or_passed_on(
    run: Run,
    message: Seq<u8>,
    now: Moment,
)
    requires
        message[0] == QUERY_TYPE,
    ensures
        ({
            let (after, verdict) = after_message(run, message, now);
            let unnamed = Seq::<char>::empty();
            &&& !after.session.statements.contains_key(unnamed)
            &&& same_elsewhere(run.session.statements, after.session.statements, unnamed)
            &&& after.session.portals == run.session.portals
            &&& after.session.scratch == run.session.scratch
            &&& after.shared.templates == run.shared.templates
            &&& after.shared.global_ttl == run.shared.global_ttl
            &&& match query_content(body(message)) {
                Err(fault) => {
                    &&& verdict == Verdict::Fails(fault.message)
                    &&& after.cycles == run.cycles
                    &&& after.shared == run.shared
                },
                Ok(content) => {
                    let cycle = after.cycles.last();
                    let key = wire_key(content.query, Seq::empty());
                    let cached = run.shared.cache.served(key, now);
                    &&& verdict is GoesOn
                    &&& after.cycles.len() == run.cycles.len() + 1
                    &&& forall|i: int|
                        0 <= i < run.cycles.len() ==> #[trigger] after.cycles[i] == run.cycles[i]
                    &&& cycle.slots.len() == 1
                    &&& !cycle.synthesize_sync
                    &&& if run.shared.templates.contains_key(content.query) {
                        let template = run.shared.templates[content.query];
                        &&& after.shared.cache == run.shared.cache.after_get(key, now)
                        &&& match cycle.slots[0] {
                            Slot::Replay(replay) => {
                                &&& cached == Some(replay.data)
                                &&& replay.key == key
                                &&& replay.describe_kind == DescribeKind::Nothing
                                &&& replay.protocol_mode == ProtocolMode::Simple
                                &&& replay.query == content.query
                            },
                            Slot::Capture(capture) => {
                                &&& cached is None
                                &&& capture.bytes == message
                                &&& capture.key == key
                                &&& capture.describe_kind == DescribeKind::Nothing
                                &&& capture.protocol_mode == ProtocolMode::Simple
                                &&& capture.query == content.query
                                &&& template.ttl is Some ==> capture.ttl == template.ttl->0
                                &&& template.ttl is None ==> capture.ttl == run.shared.global_ttl
                            },
                            _ => false,
                        }
                    } else {
                        &&& after.shared == run.shared
                        &&& cycle.slots[0] == (Slot::Passthrough {
                            bytes: message,
                            kind: MessageKind::Query,
                        })
                    }
                },
            }
        }),
{
}

} // verus!
