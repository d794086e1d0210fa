//! Deciding what becomes of the messages of a client.
use std::sync::Arc;
use vstd::prelude::*;
use vstd::slice::{slice_subrange, slice_to_vec};
use crate::cache::lfu::{response_bytes, CachedResponse};
use crate::cache::store::cache_key_wire;
use crate::clock::Moment;
use crate::server::state::{AppState, Shared};
use crate::wire::capture_model::{
    all_captured, answered, captured, captures_of, dropped, nothing_yet, places_of, replays_of,
    Partial, COMMAND_COMPLETE_TYPE, DATA_ROW_TYPE, PARAMETER_DESCRIPTION_TYPE, READY_FOR_QUERY_TYPE,
    ROW_DESCRIPTION_TYPE,
};
use crate::wire::message_framer::{after_frames, concatenated, frames, framing_error, MessageFramer};
use crate::wire::messages::{
    bind_content, close_content, describe_content, execute_content, optional_bytes, parse_content,
    value_list, Bind, BindMessageContent, Close, CloseMessageContentTarget, Decode, Describe,
    DescribeMessageContent, DescribeMessageContentTarget, Execute, ExecuteMessageContent, Parse,
    ParseMessageContent, Query, QueryMessageContent,
};
use crate::wire::plan_model::{
    after_bind, after_close, after_describe, after_entries, after_entry, after_execute,
    after_lookup, after_message, after_messages, after_parse, after_query, at_sync, before_entries,
    body, chain_of, decided, final_slot, final_slots, kind_of, lemma_waiting_in_order, name_taken,
    plan_of, portal_plan, satisfies, single, ttl_of, with_execution, with_portal, with_statement,
    with_waiting, Chain, Progress, Run, Verdict, BIND_TYPE, CLOSE_TYPE, DESCRIBE_TYPE, EXECUTE_TYPE,
    PARSE_TYPE, QUERY_TYPE, SYNC_TYPE, TERMINATE_TYPE, UNEXPECTED_TYPE,
};
use crate::wire::types::{
    cycle_list, entry_list, slot_list, CachePlan, CaptureText, ClientState, CommandSlot,
    CommandSlotCapture, CommandSlotPassthrough, CommandSlotReplay, CommandSlotSkip, Cycle, DBState,
    DescribeKind, Failure, MessageKind, Plan, Portal, PreparedStatement, PreparedStatementState,
    ProtocolMode, ReplayText, ScratchEntry, Session, Slot, StateHandlingResult, WireError,
    WireErrorKind,
};

verus! {

broadcast use vstd::hash_map::group_hash_map_axioms;

/// What a plan says, if there is one.
pub open spec fn plan_text(plan: Option<CachePlan>) -> Option<Plan> {
    match plan {
        Some(plan) => Some(plan@),
        None => None,
    }
}

/// Only what the cache holds may differ; it keeps its clock.
pub open spec fn same_but_cache(before: AppState, after: AppState) -> bool {
    &&& after.database_config == before.database_config
    &&& after.matcher == before.matcher
    &&& after.global_ttl == before.global_ttl
    &&& after.cache.clock == before.cache.clock
}

/// The response under `key`, if there is one that has not expired by `now`.
pub fn get_from_cache(app_state: &mut AppState, key: &str, now: Moment) -> (response: Option<
    Arc<CachedResponse>,
>)
    requires
        old(app_state).wf(),
    ensures
        final(app_state).wf(),
        same_but_cache(*old(app_state), *final(app_state)),
        response_bytes(response) == old(app_state)@.cache.served(key@, now),
        final(app_state)@ == after_lookup(old(app_state)@, key@, now),
{
    app_state.cache.get_at(key, now)
}

/// Caches `data` under `key` for `ttl` seconds from `now` on.
pub fn set_in_cache(
    app_state: &mut AppState,
    ttl: u64,
    key: &str,
    data: CachedResponse,
    now: Moment,
)
    requires
        old(app_state).wf(),
    ensures
        final(app_state).wf(),
        same_but_cache(*old(app_state), *final(app_state)),
        final(app_state)@ == (Shared {
            cache: old(app_state)@.cache.with_entry(key@, data@, now.later(ttl as nat)),
            ..old(app_state)@
        }),
{
    app_state.cache.insert(key.to_string(), data, now.plus_secs(ttl));
}

/// For how many seconds responses to `query` are cached, if they are.
pub fn resolve_ttl(app_state: &AppState, query: &str) -> (ttl: Option<u64>)
    ensures
        ttl == ttl_of(app_state@, query@),
        app_state.matcher@.contains_key(query@) ==> ttl == Some(
            app_state.matcher@[query@].ttl.unwrap_or(app_state.global_ttl),
        ),
        !app_state.matcher@.contains_key(query@) ==> ttl is None,
{
    match app_state.matcher.find_template(query) {
        None => None,
        Some(template) => match template.ttl {
            Some(ttl) => Some(ttl),
            None => Some(app_state.global_ttl),
        },
    }
}

/// How the response of the execution `content` is cached, if it is.
pub fn find_template(
    content: &ExecuteMessageContent,
    client_state: &ClientState,
    app_state: &AppState,
) -> (plan: Option<CachePlan>)
    ensures
        plan_text(plan) == portal_plan(app_state@, client_state@, content@.portal),
{
    let portal: &Portal = match client_state.portals.get(content.name.as_str()) {
        Some(portal) => portal,
        None => return None,
    };
    let statement: &PreparedStatementState = match client_state.prepared_statements.get(
        portal.source_prepared_statement_name.as_str(),
    ) {
        Some(statement) => statement,
        None => return None,
    };
    match resolve_ttl(app_state, statement.stmt.query.as_str()) {
        Some(ttl) => Some(
            CachePlan {
                key: cache_key_wire(statement.stmt.query.as_str(), &portal.parameter_values),
                ttl,
            },
        ),
        None => None,
    }
}

/// How the response to the simple query `query` is cached, if it is.
pub fn find_template_simple(query: &str, app_state: &AppState) -> (plan: Option<CachePlan>)
    ensures
        plan_text(plan) == plan_of(app_state@, query@, Seq::empty()),
{
    match resolve_ttl(app_state, query) {
        Some(ttl) => {
            let no_values: Vec<Option<Vec<u8>>> = Vec::new();
            assert(value_list(no_values@) =~= Seq::<Option<Seq<u8>>>::empty());
            Some(CachePlan { key: cache_key_wire(query, &no_values), ttl })
        },
        None => None,
    }
}

pub const STATEMENT_EXISTS: &'static str = "prepared statement already exists";

/// Prepares a statement.
///
/// Named prepared statements must be explicitly closed before they can be redefined by another
/// Parse message, but this is not required for the unnamed statement.
pub fn parse_message(content: &ParseMessageContent, client_state: &mut ClientState) -> (result:
    Result<(), StateHandlingResult>)
    ensures
        final(client_state)@ == with_statement(old(client_state)@, content@),
        final(client_state).scratch == old(client_state).scratch,
        final(client_state).framer == old(client_state).framer,
        final(client_state).buffer_state == old(client_state).buffer_state,
        match result {
            Ok(_) => !name_taken(old(client_state)@, content@.name),
            Err(StateHandlingResult::Error(message)) => name_taken(
                old(client_state)@,
                content@.name,
            ) && message@ == STATEMENT_EXISTS@,
            _ => false,
        },
{
    if !content.prepared_statement_name.as_str().is_empty()
        && client_state.prepared_statements.contains_key(content.prepared_statement_name.as_str()) {
        return Err(StateHandlingResult::Error(STATEMENT_EXISTS.to_string()));
    }
    let statement = PreparedStatementState {
        stmt: PreparedStatement {
            query: content.query.clone(),
            parameter_data_types: slice_to_vec(content.parameter_data_types.as_slice()),
        },
        backend_knows_about_it: false,
    };
    client_state.prepared_statements.insert(content.prepared_statement_name.clone(), statement);
    assert(client_state@ =~= with_statement(old(client_state)@, content@));
    Ok(())
}

/// A copy of parameter values.
fn clone_values(values: &Vec<Option<Vec<u8>>>) -> (copy: Vec<Option<Vec<u8>>>)
    ensures
        value_list(copy@) == value_list(values@),
{
    let mut copy: Vec<Option<Vec<u8>>> = Vec::new();
    let mut i: usize = 0;
    while i < values.len()
        invariant
            i <= values.len(),
            copy.len() == i,
            forall|j: int|
                0 <= j < i ==> optional_bytes(#[trigger] copy[j]) == optional_bytes(values[j]),
        decreases values.len() - i,
    {
        let value: Option<Vec<u8>> = match &values[i] {
            Some(bytes) => Some(slice_to_vec(bytes.as_slice())),
            None => None,
        };
        copy.push(value);
        i = i + 1;
    }
    assert(value_list(copy@) =~= value_list(values@));
    copy
}

/// Binds a portal, if its statement is known and its responses are cached.
pub fn bind_message(
    content: &BindMessageContent,
    client_state: &mut ClientState,
    app_state: &AppState,
) -> (result: Result<(), StateHandlingResult>)
    ensures
        result is Ok,
        final(client_state)@ == with_portal(app_state@, old(client_state)@, content@),
        final(client_state).scratch == old(client_state).scratch,
        final(client_state).framer == old(client_state).framer,
        final(client_state).buffer_state == old(client_state).buffer_state,
{
    let cached: bool = match client_state.prepared_statements.get(
        content.source_prepared_statement_name.as_str(),
    ) {
        Some(statement) => app_state.matcher.template_exists(statement.stmt.query.as_str()),
        None => false,
    };
    if cached {
        let portal = Portal {
            source_prepared_statement_name: content.source_prepared_statement_name.clone(),
            parameter_format_codes: slice_to_vec(content.parameter_format_codes.as_slice()),
            parameter_values: clone_values(&content.parameter_values),
            result_column_format_codes: slice_to_vec(content.result_column_format_codes.as_slice()),
        };
        client_state.portals.insert(content.portal_name.clone(), portal);
    }
    assert(client_state@ =~= with_portal(app_state@, old(client_state)@, content@));
    Ok(())
}

/// What a request to describe asks for.
pub fn describe_message(content: &DescribeMessageContent) -> (kind: DescribeKind)
    ensures
        kind == kind_of(content@),
{
    match content.target {
        DescribeMessageContentTarget::PreparedStatement => DescribeKind::Statement,
        DescribeMessageContentTarget::Portal => DescribeKind::Portal,
    }
}

pub fn get_prepared_statement_in_session<'a>(name: &str, client_state: &'a ClientState) -> (found:
    Option<&'a PreparedStatementState>)
    ensures
        match found {
            Some(statement) => client_state@.statements.contains_key(name@) && statement@
                == client_state@.statements[name@],
            None => !client_state@.statements.contains_key(name@),
        },
{
    client_state.prepared_statements.get(name)
}

pub fn get_portal_in_session<'a>(name: &str, client_state: &'a ClientState) -> (found: Option<
    &'a Portal,
>)
    ensures
        match found {
            Some(portal) => client_state@.portals.contains_key(name@) && portal@
                == client_state@.portals[name@],
            None => !client_state@.portals.contains_key(name@),
        },
{
    client_state.portals.get(name)
}

/// Whether `response` holds all that a request with such a description is answered with.
pub fn cache_data_can_satisfy(response: &CachedResponse, kind: &DescribeKind) -> (can: bool)
    ensures
        can == satisfies(response@, *kind),
{
    match kind {
        DescribeKind::Nothing => response.has_data(),
        DescribeKind::Portal => response.has_data() && response.has_row_desc(),
        DescribeKind::Statement => response.has_data() && response.has_row_desc()
            && response.has_param_desc(),
    }
}

/// The messages that led to an execution.
pub struct PairedMessages {
    pub parse_entry: Option<usize>,
    pub bind_entry: Option<usize>,
    pub query: String,
}

impl View for PairedMessages {
    type V = Chain;

    open spec fn view(&self) -> Chain {
        Chain { parse: self.parse_entry, bind: self.bind_entry, query: self.query@ }
    }
}

/// The messages since the last Sync that led to an execution of `portal_name`, and its query.
pub fn resolve_execute_chain(client_state: &ClientState, portal_name: &str) -> (paired: Option<
    PairedMessages,
>)
    ensures
        match paired {
            Some(paired) => chain_of(client_state@, portal_name@) == Some(paired@),
            None => chain_of(client_state@, portal_name@) is None,
        },
{
    let mut bind_entry: Option<usize> = None;
    let stmt_name: String = match client_state.scratch.binds_by_portal_name.get(portal_name) {
        Some(placed) => {
            bind_entry = Some(placed.0);
            placed.1.source_prepared_statement_name.clone()
        },
        None => match client_state.portals.get(portal_name) {
            Some(portal) => portal.source_prepared_statement_name.clone(),
            None => return None,
        },
    };
    match client_state.scratch.parses_by_stmt_name.get(stmt_name.as_str()) {
        Some(placed) => Some(
            PairedMessages {
                parse_entry: Some(placed.0),
                bind_entry,
                query: placed.1.query.clone(),
            },
        ),
        None => {
            let query: String = match client_state.prepared_statements.get(stmt_name.as_str()) {
                Some(statement) => statement.stmt.query.clone(),
                None => String::new(),
            };
            Some(PairedMessages { parse_entry: None, bind_entry, query })
        },
    }
}

fn message_body(bytes: &Vec<u8>) -> (content: Vec<u8>)
    requires
        bytes.len() >= 5,
    ensures
        content@ == body(bytes@),
{
    let content: Vec<u8> = slice_to_vec(slice_subrange(bytes.as_slice(), 5, bytes.len()));
    assert(content@ =~= body(bytes@));
    content
}

/// The failure of which `message` tells.
pub open spec fn other_failure(message: Seq<char>) -> Failure {
    Failure { kind: WireErrorKind::Other, message }
}

fn other_error(message: String) -> (error: WireError)
    ensures
        error@ == other_failure(message@),
{
    WireError { kind: WireErrorKind::Other, message }
}

/// What the planning of messages leaves alone: the messages, and what was not planned yet.
pub open spec fn same_messages(before: ClientState, after: ClientState) -> bool {
    &&& after.scratch.entries == before.scratch.entries
    &&& after.framer == before.framer
    &&& after.buffer_state == before.buffer_state
}

fn handle_parse(client_state: &mut ClientState, index: usize) -> (result: Result<(), WireError>)
    requires
        index < old(client_state).scratch.entries.len(),
        old(client_state).wf(),
        old(client_state)@.scratch.entries[index as int].kind == MessageKind::Parse,
    ensures
        final(client_state).wf(),
        same_messages(*old(client_state), *final(client_state)),
        match (
            result,
            parse_content(body(old(client_state)@.scratch.entries[index as int].bytes)),
        ) {
            (Ok(_), Ok(content)) => final(client_state)@ == after_parse(
                old(client_state)@,
                index,
                content,
            ),
            (Err(error), Err(fault)) => final(client_state)@ == old(client_state)@ && error@
                == other_failure(fault.message),
            _ => false,
        },
{
    let message = Parse { bytes: message_body(&client_state.scratch.entries[index].bytes) };
    let content: ParseMessageContent = match message.decode() {
        Ok(content) => content,
        Err(error) => return Err(other_error(error.message)),
    };
    let ghost text = content@;
    let _ = parse_message(&content, client_state);
    let ghost before = client_state@;
    client_state.scratch.parses_by_stmt_name.insert(
        content.prepared_statement_name.clone(),
        (index, content),
    );
    assert(client_state@.scratch.parses =~= before.scratch.parses.insert(
        text.name,
        (index, text),
    ));
    assert(client_state@ =~= after_parse(old(client_state)@, index, text));
    Ok(())
}

fn handle_bind(client_state: &mut ClientState, app_state: &AppState, index: usize) -> (result:
    Result<(), WireError>)
    requires
        index < old(client_state).scratch.entries.len(),
        old(client_state).wf(),
        old(client_state)@.scratch.entries[index as int].kind == MessageKind::Bind,
    ensures
        final(client_state).wf(),
        same_messages(*old(client_state), *final(client_state)),
        match (
            result,
            bind_content(body(old(client_state)@.scratch.entries[index as int].bytes)),
        ) {
            (Ok(_), Ok(content)) => final(client_state)@ == after_bind(
                app_state@,
                old(client_state)@,
                index,
                content,
            ),
            (Err(error), Err(fault)) => final(client_state)@ == old(client_state)@ && error@
                == other_failure(fault.message),
            _ => false,
        },
{
    let message = Bind { bytes: message_body(&client_state.scratch.entries[index].bytes) };
    let content: BindMessageContent = match message.decode() {
        Ok(content) => content,
        Err(error) => return Err(other_error(error.message)),
    };
    let ghost text = content@;
    let _ = bind_message(&content, client_state, app_state);
    let ghost before = client_state@;
    client_state.scratch.binds_by_portal_name.insert(
        content.portal_name.clone(),
        (index, content),
    );
    assert(client_state@.scratch.binds =~= before.scratch.binds.insert(
        text.portal,
        (index, text),
    ));
    assert(client_state@ =~= after_bind(app_state@, old(client_state)@, index, text));
    Ok(())
}

fn handle_describe(client_state: &mut ClientState, index: usize) -> (result: Result<(), WireError>)
    requires
        index < old(client_state).scratch.entries.len(),
        old(client_state).wf(),
        old(client_state)@.scratch.entries[index as int].kind == MessageKind::Describe,
    ensures
        final(client_state).wf(),
        same_messages(*old(client_state), *final(client_state)),
        match (
            result,
            describe_content(body(old(client_state)@.scratch.entries[index as int].bytes)),
        ) {
            (Ok(_), Ok(content)) => final(client_state)@ == after_describe(
                old(client_state)@,
                index,
                content,
            ),
            (Err(error), Err(fault)) => final(client_state)@ == old(client_state)@ && error@
                == other_failure(fault.message),
            _ => false,
        },
{
    let message = Describe { bytes: message_body(&client_state.scratch.entries[index].bytes) };
    let content: DescribeMessageContent = match message.decode() {
        Ok(content) => content,
        Err(error) => return Err(other_error(error.message)),
    };
    let ghost text = content@;
    client_state.scratch.describes_by_name.insert(content.name.clone(), (index, content));
    assert(client_state@.scratch.describes =~= old(client_state)@.scratch.describes.insert(
        text.name,
        (index, text),
    ));
    assert(client_state@ =~= after_describe(old(client_state)@, index, text));
    Ok(())
}

fn handle_close(client_state: &mut ClientState, index: usize) -> (result: Result<(), WireError>)
    requires
        index < old(client_state).scratch.entries.len(),
        old(client_state).wf(),
    ensures
        final(client_state).wf(),
        same_messages(*old(client_state), *final(client_state)),
        match (
            result,
            close_content(body(old(client_state)@.scratch.entries[index as int].bytes)),
        ) {
            (Ok(_), Ok(content)) => final(client_state)@ == after_close(
                old(client_state)@,
                content,
            ),
            (Err(error), Err(fault)) => final(client_state)@ == old(client_state)@ && error@
                == other_failure(fault.message),
            _ => false,
        },
{
    let message = Close { bytes: message_body(&client_state.scratch.entries[index].bytes) };
    let content = match message.decode() {
        Ok(content) => content,
        Err(error) => return Err(other_error(error.message)),
    };
    match content.target {
        CloseMessageContentTarget::PreparedStatement => {
            client_state.prepared_statements.remove(content.name.as_str());
            client_state.scratch.parses_by_stmt_name.remove(content.name.as_str());
        },
        CloseMessageContentTarget::Portal => {
            client_state.portals.remove(content.name.as_str());
            client_state.scratch.binds_by_portal_name.remove(content.name.as_str());
        },
    }
    assert(client_state@ =~= after_close(old(client_state)@, content@));
    Ok(())
}

/// What was decided on each of a row of messages.
pub open spec fn decisions(slots: Seq<Option<CommandSlot>>) -> Seq<Option<Slot>> {
    slots.map_values(
        |slot: Option<CommandSlot>|
            match slot {
                Some(slot) => Some(slot@),
                None => None,
            },
    )
}

/// Leaves the message at `at`, if there is one, out because it is answered, or else passes it on.
fn decide(
    client_state: &ClientState,
    slots: &mut Vec<Option<CommandSlot>>,
    at: Option<usize>,
    kind: MessageKind,
    answered: bool,
)
    requires
        old(slots).len() == client_state.scratch.entries.len(),
    ensures
        decisions(final(slots)@) == decided(
            decisions(old(slots)@),
            client_state@.scratch.entries,
            at,
            kind,
            answered,
        ),
{
    if let Some(at) = at {
        if at < client_state.scratch.entries.len() {
            let bytes: Vec<u8> = slice_to_vec(client_state.scratch.entries[at].bytes.as_slice());
            let slot = if answered {
                CommandSlot::Skip(CommandSlotSkip { bytes, kind })
            } else {
                CommandSlot::Passthrough(CommandSlotPassthrough { bytes, kind })
            };
            slots.set(at, Some(slot));
            assert(decisions(slots@) =~= decisions(old(slots)@).update(at as int, Some(slot@)));
        }
    }
}

/// Passes the message at `index` on.
fn pass_on(client_state: &ClientState, slots: &mut Vec<Option<CommandSlot>>, index: usize)
    requires
        index < client_state.scratch.entries.len(),
        old(slots).len() == client_state.scratch.entries.len(),
    ensures
        decisions(final(slots)@) == decisions(old(slots)@).update(
            index as int,
            Some(
                Slot::Passthrough {
                    bytes: client_state@.scratch.entries[index as int].bytes,
                    kind: client_state@.scratch.entries[index as int].kind,
                },
            ),
        ),
{
    let entry: &ScratchEntry = &client_state.scratch.entries[index];
    let slot = CommandSlot::Passthrough(
        CommandSlotPassthrough { bytes: slice_to_vec(entry.bytes.as_slice()), kind: entry.kind },
    );
    slots.set(index, Some(slot));
    assert(decisions(slots@) =~= decisions(old(slots)@).update(index as int, Some(slot@)));
}

/// Decides on an execution and the messages that belong to it.
fn decide_execution(
    client_state: &ClientState,
    slots: &mut Vec<Option<CommandSlot>>,
    portal: &str,
    paired: &PairedMessages,
    index: usize,
    slot: CommandSlot,
    answered: bool,
)
    requires
        index < client_state.scratch.entries.len(),
        old(slots).len() == client_state.scratch.entries.len(),
    ensures
        decisions(final(slots)@) == with_execution(
            decisions(old(slots)@),
            client_state@,
            portal@,
            paired@,
            index,
            slot@,
            answered,
        ),
{
    let describe: Option<usize> = match client_state.scratch.describes_by_name.get(portal) {
        Some(placed) => Some(placed.0),
        None => None,
    };
    decide(client_state, slots, describe, MessageKind::Describe, answered);
    let ghost before = slots@;
    assert(decisions(before).len() == before.len());
    slots.set(index, Some(slot));
    assert(decisions(slots@) =~= decisions(before).update(index as int, Some(slot@)));
    decide(client_state, slots, paired.bind_entry, MessageKind::Bind, answered);
    assert(decisions(slots@).len() == slots@.len());
    decide(client_state, slots, paired.parse_entry, MessageKind::Parse, answered);
}

fn handle_execute(
    client_state: &ClientState,
    app_state: &mut AppState,
    slots: &mut Vec<Option<CommandSlot>>,
    index: usize,
    now: Moment,
) -> (result: Result<(), WireError>)
    requires
        client_state.wf(),
        old(app_state).wf(),
        index < client_state.scratch.entries.len(),
        old(slots).len() == client_state.scratch.entries.len(),
    ensures
        final(app_state).wf(),
        same_but_cache(*old(app_state), *final(app_state)),
        match (
            result,
            execute_content(body(client_state@.scratch.entries[index as int].bytes)),
        ) {
            (Ok(_), Ok(content)) => {
                let before = Progress {
                    session: client_state@,
                    shared: old(app_state)@,
                    slots: decisions(old(slots)@),
                };
                let after = after_execute(before, index, content, now);
                &&& final(app_state)@ == after.shared
                &&& decisions(final(slots)@) == after.slots
            },
            (Err(error), Err(fault)) => {
                &&& *final(app_state) == *old(app_state)
                &&& final(slots)@ == old(slots)@
                &&& error@ == other_failure(fault.message)
            },
            _ => false,
        },
{
    let entry: &ScratchEntry = &client_state.scratch.entries[index];
    let message = Execute { bytes: message_body(&entry.bytes) };
    let content: ExecuteMessageContent = match message.decode() {
        Ok(content) => content,
        Err(error) => return Err(other_error(error.message)),
    };
    if content.rows_to_return_limit != 0 {
        pass_on(client_state, slots, index);
        return Ok(());
    }
    let plan: CachePlan = match find_template(&content, client_state, app_state) {
        Some(plan) => plan,
        None => {
            pass_on(client_state, slots, index);
            return Ok(());
        },
    };
    let cached: Option<Arc<CachedResponse>> = get_from_cache(app_state, plan.key.as_str(), now);
    let portal: &str = content.name.as_str();
    let paired: PairedMessages = match resolve_execute_chain(client_state, portal) {
        Some(paired) => paired,
        None => {
            pass_on(client_state, slots, index);
            return Ok(());
        },
    };
    let describe_kind: DescribeKind = match client_state.scratch.describes_by_name.get(portal) {
        Some(placed) => describe_message(&placed.1),
        None => DescribeKind::Nothing,
    };
    let query: String = paired.query.clone();
    match cached {
        Some(cached) if cache_data_can_satisfy(&*cached, &describe_kind) => {
            let slot = CommandSlot::Replay(
                CommandSlotReplay {
                    key: plan.key,
                    data: cached,
                    describe_kind,
                    protocol_mode: ProtocolMode::Extended,
                    query,
                },
            );
            decide_execution(client_state, slots, portal, &paired, index, slot, true);
        },
        _ => {
            let slot = CommandSlot::Capture(
                CommandSlotCapture {
                    bytes: slice_to_vec(entry.bytes.as_slice()),
                    key: plan.key,
                    describe_kind,
                    protocol_mode: ProtocolMode::Extended,
                    query,
                    ttl: plan.ttl,
                },
            );
            decide_execution(client_state, slots, portal, &paired, index, slot, false);
        },
    }
    Ok(())
}

/// Handles the message at `index`.
fn handle_entry(
    client_state: &mut ClientState,
    app_state: &mut AppState,
    slots: &mut Vec<Option<CommandSlot>>,
    index: usize,
    now: Moment,
) -> (result: Result<(), WireError>)
    requires
        old(client_state).wf(),
        old(app_state).wf(),
        index < old(client_state).scratch.entries.len(),
        old(slots).len() == old(client_state).scratch.entries.len(),
    ensures
        final(client_state).wf(),
        final(app_state).wf(),
        same_messages(*old(client_state), *final(client_state)),
        same_but_cache(*old(app_state), *final(app_state)),
        final(slots).len() == old(slots).len(),
        ({
            let before = Progress {
                session: old(client_state)@,
                shared: old(app_state)@,
                slots: decisions(old(slots)@),
            };
            let after = Progress {
                session: final(client_state)@,
                shared: final(app_state)@,
                slots: decisions(final(slots)@),
            };
            match (result, after_entry(before, index, now)) {
                (Ok(_), Ok(expected)) => after == expected,
                (Err(error), Err(message)) => after == before && error@ == other_failure(message),
                _ => false,
            }
        }),
{
    let kind: MessageKind = client_state.scratch.entries[index].kind;
    assert(decisions(slots@).len() == slots@.len());
    match kind {
        MessageKind::Parse => handle_parse(client_state, index),
        MessageKind::Bind => handle_bind(client_state, app_state, index),
        MessageKind::Describe => handle_describe(client_state, index),
        MessageKind::Close => handle_close(client_state, index),
        MessageKind::Execute => {
            let result: Result<(), WireError> = handle_execute(
                client_state,
                app_state,
                slots,
                index,
                now,
            );
            assert(decisions(slots@).len() == slots@.len());
            result
        },
        _ => Ok(()),
    }
}

/// Plans the messages since the last Sync: decides for each of them what becomes of it.
pub fn sync_message_handle_entries(
    client_state: &mut ClientState,
    app_state: &mut AppState,
    now: Moment,
) -> (result: Result<Vec<CommandSlot>, WireError>)
    requires
        old(client_state).wf(),
        old(app_state).wf(),
    ensures
        final(client_state).wf(),
        final(app_state).wf(),
        same_messages(*old(client_state), *final(client_state)),
        same_but_cache(*old(app_state), *final(app_state)),
        ({
            let (progress, error) = at_sync(old(client_state)@, old(app_state)@, now);
            &&& final(client_state)@ == progress.session
            &&& final(app_state)@ == progress.shared
            &&& match result {
                Ok(slots) => error is None && slot_list(slots@) == final_slots(
                    progress.session.scratch.entries,
                    progress.slots,
                ),
                Err(failure) => error is Some && failure@ == other_failure(error.unwrap()),
            }
        }),
{
    let count: usize = client_state.scratch.entries.len();
    let mut slots: Vec<Option<CommandSlot>> = Vec::new();
    while slots.len() < count
        invariant
            slots.len() <= count,
            forall|j: int| 0 <= j < slots.len() ==> (#[trigger] slots[j]) is None,
        decreases count - slots.len(),
    {
        slots.push(None);
    }
    let ghost session = client_state@;
    let ghost shared = app_state@;
    assert(decisions(slots@) =~= before_entries(session, shared).slots);
    let mut index: usize = 0;
    while index < count
        invariant
            index <= count,
            count == slots.len(),
            count == client_state.scratch.entries.len(),
            client_state.wf(),
            app_state.wf(),
            same_messages(*old(client_state), *client_state),
            same_but_cache(*old(app_state), *app_state),
            session == old(client_state)@,
            shared == old(app_state)@,
            session.scratch.entries.len() == count,
            after_entries(session, shared, index as nat, now) == (
                Progress {
                    session: client_state@,
                    shared: app_state@,
                    slots: decisions(slots@),
                },
                None::<Seq<char>>,
            ),
        decreases count - index,
    {
        match handle_entry(client_state, app_state, &mut slots, index, now) {
            Ok(_) => {},
            Err(error) => {
                proof {
                    lemma_error_stays(session, shared, (index + 1) as nat, count as nat, now);
                }
                return Err(error);
            },
        }
        index = index + 1;
    }
    Ok(collect_slots(&client_state.scratch.entries, slots))
}

/// An error ends the planning.
proof fn lemma_error_stays(session: Session, shared: Shared, at: nat, count: nat, now: Moment)
    requires
        at <= count,
        after_entries(session, shared, at, now).1 is Some,
    ensures
        after_entries(session, shared, count, now) == after_entries(session, shared, at, now),
    decreases count - at,
{
    if at < count {
        lemma_error_stays(session, shared, at, (count - 1) as nat, now);
    }
}

/// The slots of all messages; those that nothing was decided on are passed on.
fn collect_slots(entries: &Vec<ScratchEntry>, slots: Vec<Option<CommandSlot>>) -> (all: Vec<
    CommandSlot,
>)
    requires
        slots.len() == entries.len(),
    ensures
        slot_list(all@) == final_slots(entry_list(entries@), decisions(slots@)),
{
    let mut slots = slots;
    let ghost start = slots@;
    let mut all: Vec<CommandSlot> = Vec::new();
    let mut i: usize = 0;
    while i < slots.len()
        invariant
            i <= slots.len(),
            slots.len() == entries.len(),
            slots.len() == start.len(),
            all.len() == i,
            forall|j: int| i <= j < start.len() ==> slots[j] == start[j],
            forall|j: int|
                0 <= j < i ==> (#[trigger] all[j])@ == final_slot(
                    entry_list(entries@),
                    decisions(start),
                    j,
                ),
        decreases slots.len() - i,
    {
        let decided_slot: Option<CommandSlot> = slots[i].take();
        let slot: CommandSlot = match decided_slot {
            Some(slot) => slot,
            None => CommandSlot::Passthrough(
                CommandSlotPassthrough {
                    bytes: slice_to_vec(entries[i].bytes.as_slice()),
                    kind: entries[i].kind,
                },
            ),
        };
        all.push(slot);
        i = i + 1;
    }
    assert(slot_list(all@) =~= final_slots(entry_list(entries@), decisions(start)));
    all
}

/// How far the planning of a client's messages has come.
pub open spec fn run_of(
    client_state: ClientState,
    app_state: AppState,
    cycles: Seq<Cycle>,
) -> Run {
    Run { session: client_state@, shared: app_state@, cycles: cycle_list(cycles) }
}

/// `result` says whether planning goes on as `verdict` does.
pub open spec fn agrees_with(result: Result<bool, WireError>, verdict: Verdict) -> bool {
    match (result, verdict) {
        (Ok(goes_on), Verdict::GoesOn) => goes_on,
        (Ok(goes_on), Verdict::Stops) => !goes_on,
        (Err(error), Verdict::Fails(message)) => error@ == other_failure(message),
        _ => false,
    }
}

fn push_single(cycles: &mut Vec<Cycle>, slot: CommandSlot)
    ensures
        cycle_list(final(cycles)@) == cycle_list(old(cycles)@).push(single(slot@)),
{
    let mut slots: Vec<CommandSlot> = Vec::new();
    slots.push(slot);
    let cycle = Cycle { slots, synthesize_sync: false };
    assert(cycle@.slots =~= seq![slot@]);
    cycles.push(cycle);
    assert(cycle_list(cycles@) =~= cycle_list(old(cycles)@).push(cycle@));
}

/// Keeps a message until the next Sync.
fn keep_waiting(client_state: &mut ClientState, message: Vec<u8>, kind: MessageKind)
    requires
        old(client_state).wf(),
        message.len() >= 5,
    ensures
        final(client_state).wf(),
        final(client_state)@ == with_waiting(old(client_state)@, message@, kind),
        final(client_state).framer == old(client_state).framer,
        final(client_state).buffer_state == old(client_state).buffer_state,
{
    let entry = ScratchEntry { bytes: message, kind, execute: None };
    client_state.scratch.entries.push(entry);
    proof {
        lemma_waiting_in_order(old(client_state)@, message@, kind);
    }
    assert(client_state@.scratch.entries =~= old(client_state)@.scratch.entries.push(entry@));
    assert(client_state@ =~= with_waiting(old(client_state)@, message@, kind));
}

fn handle_query(
    client_state: &mut ClientState,
    app_state: &mut AppState,
    cycles: &mut Vec<Cycle>,
    message: Vec<u8>,
    now: Moment,
) -> (result: Result<bool, WireError>)
    requires
        old(client_state).wf(),
        old(app_state).wf(),
        message.len() >= 5,
    ensures
        final(client_state).wf(),
        final(app_state).wf(),
        final(client_state).framer == old(client_state).framer,
        final(client_state).buffer_state == old(client_state).buffer_state,
        same_but_cache(*old(app_state), *final(app_state)),
        ({
            let (after, verdict) = after_query(
                run_of(*old(client_state), *old(app_state), old(cycles)@),
                message@,
                now,
            );
            &&& run_of(*final(client_state), *final(app_state), final(cycles)@) == after
            &&& agrees_with(result, verdict)
        }),
{
    client_state.prepared_statements.remove("");
    proof {
        reveal_strlit("");
        assert(""@ =~= Seq::<char>::empty());
        assert(client_state@.statements =~= old(client_state)@.statements.remove(Seq::empty()));
    }
    let query = Query { bytes: message_body(&message) };
    let content: QueryMessageContent = match query.decode() {
        Ok(content) => content,
        Err(error) => return Err(other_error(error.message)),
    };
    let plan: CachePlan = match find_template_simple(content.query.as_str(), app_state) {
        Some(plan) => plan,
        None => {
            push_single(
                cycles,
                CommandSlot::Passthrough(
                    CommandSlotPassthrough { bytes: message, kind: MessageKind::Query },
                ),
            );
            return Ok(true);
        },
    };
    match get_from_cache(app_state, plan.key.as_str(), now) {
        Some(cached) => push_single(
            cycles,
            CommandSlot::Replay(
                CommandSlotReplay {
                    key: plan.key,
                    data: cached,
                    describe_kind: DescribeKind::Nothing,
                    protocol_mode: ProtocolMode::Simple,
                    query: content.query,
                },
            ),
        ),
        None => push_single(
            cycles,
            CommandSlot::Capture(
                CommandSlotCapture {
                    bytes: message,
                    key: plan.key,
                    describe_kind: DescribeKind::Nothing,
                    protocol_mode: ProtocolMode::Simple,
                    query: content.query,
                    ttl: plan.ttl,
                },
            ),
        ),
    }
    Ok(true)
}

/// Handles one message. Returns whether planning goes on behind it.
fn handle_message(
    client_state: &mut ClientState,
    app_state: &mut AppState,
    cycles: &mut Vec<Cycle>,
    message: Vec<u8>,
    now: Moment,
) -> (result: Result<bool, WireError>)
    requires
        old(client_state).wf(),
        old(app_state).wf(),
        message.len() >= 5,
    ensures
        final(client_state).wf(),
        final(app_state).wf(),
        final(client_state).framer == old(client_state).framer,
        final(client_state).buffer_state == old(client_state).buffer_state,
        same_but_cache(*old(app_state), *final(app_state)),
        ({
            let (after, verdict) = after_message(
                run_of(*old(client_state), *old(app_state), old(cycles)@),
                message@,
                now,
            );
            &&& run_of(*final(client_state), *final(app_state), final(cycles)@) == after
            &&& agrees_with(result, verdict)
        }),
{
    let type_byte: u8 = message[0];
    if type_byte == QUERY_TYPE {
        return handle_query(client_state, app_state, cycles, message, now);
    }
    if type_byte == PARSE_TYPE {
        keep_waiting(client_state, message, MessageKind::Parse);
    } else if type_byte == BIND_TYPE {
        keep_waiting(client_state, message, MessageKind::Bind);
    } else if type_byte == DESCRIBE_TYPE {
        keep_waiting(client_state, message, MessageKind::Describe);
    } else if type_byte == EXECUTE_TYPE {
        keep_waiting(client_state, message, MessageKind::Execute);
    } else if type_byte == CLOSE_TYPE {
        keep_waiting(client_state, message, MessageKind::Close);
    } else if type_byte == SYNC_TYPE {
        let slots: Vec<CommandSlot> = match sync_message_handle_entries(
            client_state,
            app_state,
            now,
        ) {
            Ok(slots) => slots,
            Err(error) => return Err(error),
        };
        // A cycle that a Sync ends needs the Sync itself at the database, too.
        let cycle = Cycle { slots, synthesize_sync: true };
        cycles.push(cycle);
        client_state.scratch.reset();
        assert(cycle_list(cycles@) =~= cycle_list(old(cycles)@).push(cycle@));
    } else if type_byte == TERMINATE_TYPE {
        client_state.scratch.reset();
        push_single(
            cycles,
            CommandSlot::Passthrough(
                CommandSlotPassthrough { bytes: message, kind: MessageKind::Terminate },
            ),
        );
        return Ok(false);
    } else {
        return Err(other_error(UNEXPECTED_TYPE.to_string()));
    }
    Ok(true)
}

/// Plans what a client has sent: what becomes of each of its messages, in cycles.
pub fn find_command_slots(client_state: &mut ClientState, app_state: &mut AppState) -> (result:
    Result<Vec<Cycle>, WireError>)
    requires
        old(client_state).wf(),
        old(app_state).wf(),
    ensures
        final(client_state).wf(),
        final(app_state).wf(),
        final(client_state).buffer_state == old(client_state).buffer_state,
        same_but_cache(*old(app_state), *final(app_state)),
        exists|now: Moment|
            {
                &&& old(app_state).cache.clock.shows(now)
                &&& #[trigger] planned_at(
                    *old(client_state),
                    *old(app_state),
                    *final(client_state),
                    *final(app_state),
                    result,
                    now,
                )
            },
{
    let now = app_state.cache.now();
    find_command_slots_at(client_state, app_state, now)
}

/// `result`, and the states after, are what planning at the time `now` comes to.
pub open spec fn planned_at(
    client_before: ClientState,
    app_before: AppState,
    client_after: ClientState,
    app_after: AppState,
    result: Result<Vec<Cycle>, WireError>,
    now: Moment,
) -> bool {
    let (run, rest, error) = after_messages(
        run_of(client_before, app_before, Seq::empty()),
        client_before.framer@ + client_before.buffer_state@,
        now,
    );
    &&& client_after@ == run.session
    &&& app_after@ == run.shared
    &&& client_after.framer@ == rest
    &&& match result {
        Ok(cycles) => error is None && cycle_list(cycles@) == run.cycles,
        Err(failure) => error is Some && failure@ == other_failure(error.unwrap()),
    }
}

/// Plans what a client has sent. Whether what is cached has expired is judged by the time `now`.
pub fn find_command_slots_at(
    client_state: &mut ClientState,
    app_state: &mut AppState,
    now: Moment,
) -> (result: Result<Vec<Cycle>, WireError>)
    requires
        old(client_state).wf(),
        old(app_state).wf(),
    ensures
        final(client_state).wf(),
        final(app_state).wf(),
        final(client_state).buffer_state == old(client_state).buffer_state,
        same_but_cache(*old(app_state), *final(app_state)),
        planned_at(
            *old(client_state),
            *old(app_state),
            *final(client_state),
            *final(app_state),
            result,
            now,
        ),
{
    let mut cycles: Vec<Cycle> = Vec::new();
    client_state.framer.add_buffer(client_state.buffer_state.pending_data());
    let ghost start = run_of(*old(client_state), *old(app_state), Seq::empty());
    let ghost pending = client_state.framer@;
    assert(run_of(*client_state, *app_state, cycles@) =~= start);
    loop
        invariant_except_break
            after_messages(
                run_of(*client_state, *app_state, cycles@),
                client_state.framer@,
                now,
            ) == after_messages(start, pending, now),
        invariant
            client_state.wf(),
            app_state.wf(),
            client_state.buffer_state == old(client_state).buffer_state,
            same_but_cache(*old(app_state), *app_state),
            start == run_of(*old(client_state), *old(app_state), Seq::empty()),
            pending == old(client_state).framer@ + old(client_state).buffer_state@,
        ensures
            after_messages(start, pending, now) == (
                run_of(*client_state, *app_state, cycles@),
                client_state.framer@,
                None::<Seq<char>>,
            ),
        decreases client_state.framer@.len(),
    {
        let message: Vec<u8> = match client_state.framer.next_message() {
            Ok(Some(message)) => message,
            _ => break,
        };
        match handle_message(client_state, app_state, &mut cycles, message, now) {
            Ok(goes_on) => {
                if !goes_on {
                    break;
                }
            },
            Err(error) => return Err(error),
        }
    }
    Ok(cycles)
}

/// The replays and captures among some slots, each with its place.
pub struct ReplaysAndCaptures {
    pub replays: Vec<(usize, CommandSlotReplay)>,
    pub captures: Vec<(usize, CommandSlotCapture)>,
}

/// What each of a row of replays holds.
pub open spec fn replay_list(replays: Seq<(usize, CommandSlotReplay)>) -> Seq<ReplayText> {
    replays.map_values(|placed: (usize, CommandSlotReplay)| placed.1@)
}

/// What each of a row of captures holds.
pub open spec fn capture_list(captures: Seq<(usize, CommandSlotCapture)>) -> Seq<CaptureText> {
    captures.map_values(|placed: (usize, CommandSlotCapture)| placed.1@)
}

pub fn replays_and_captures_in_command_slots(command_slots: &[CommandSlot]) -> (found:
    ReplaysAndCaptures)
    ensures
        replay_list(found.replays@) == replays_of(slot_list(command_slots@)),
        capture_list(found.captures@) == captures_of(slot_list(command_slots@)),
        found.replays@.map_values(|placed: (usize, CommandSlotReplay)| placed.0) == places_of(
            slot_list(command_slots@),
            |slot: Slot| slot is Replay,
        ),
        found.captures@.map_values(|placed: (usize, CommandSlotCapture)| placed.0) == places_of(
            slot_list(command_slots@),
            |slot: Slot| slot is Capture,
        ),
{
    let mut replays: Vec<(usize, CommandSlotReplay)> = Vec::new();
    let mut captures: Vec<(usize, CommandSlotCapture)> = Vec::new();
    let mut index: usize = 0;
    let ghost slots = slot_list(command_slots@);
    let ghost replay_place = |placed: (usize, CommandSlotReplay)| placed.0;
    let ghost capture_place = |placed: (usize, CommandSlotCapture)| placed.0;
    let ghost is_replay = |slot: Slot| slot is Replay;
    let ghost is_capture = |slot: Slot| slot is Capture;
    proof {
        let none = slots.take(0);
        assert(replay_list(replays@) =~= replays_of(none));
        assert(capture_list(captures@) =~= captures_of(none));
        assert(replays@.map_values(replay_place) =~= places_of(none, is_replay));
        assert(captures@.map_values(capture_place) =~= places_of(none, is_capture));
    }
    while index < command_slots.len()
        invariant
            index <= command_slots.len(),
            slots == slot_list(command_slots@),
            replay_place == (|placed: (usize, CommandSlotReplay)| placed.0),
            capture_place == (|placed: (usize, CommandSlotCapture)| placed.0),
            is_replay == (|slot: Slot| slot is Replay),
            is_capture == (|slot: Slot| slot is Capture),
            replay_list(replays@) == replays_of(slots.take(index as int)),
            capture_list(captures@) == captures_of(slots.take(index as int)),
            replays@.map_values(replay_place) == places_of(slots.take(index as int), is_replay),
            captures@.map_values(capture_place) == places_of(slots.take(index as int), is_capture),
        decreases command_slots.len() - index,
    {
        let ghost replays_before = replays@;
        let ghost captures_before = captures@;
        match &command_slots[index] {
            CommandSlot::Replay(replay) => {
                replays.push((index, replay.clone()));
            },
            CommandSlot::Capture(capture) => {
                captures.push((index, capture.clone()));
            },
            _ => {},
        }
        proof {
            let done = slots.take(index + 1);
            assert(done.drop_last() =~= slots.take(index as int));
            assert(done.last() == command_slots[index as int]@);
            if replays@.len() > replays_before.len() {
                assert(replay_list(replays@) =~= replay_list(replays_before).push(
                    replays@.last().1@,
                ));
                assert(replays@.map_values(replay_place) =~= replays_before.map_values(
                    replay_place,
                ).push(index));
            }
            if captures@.len() > captures_before.len() {
                assert(capture_list(captures@) =~= capture_list(captures_before).push(
                    captures@.last().1@,
                ));
                assert(captures@.map_values(capture_place) =~= captures_before.map_values(
                    capture_place,
                ).push(index));
            }
        }
        index = index + 1;
    }
    assert(slots.take(index as int) =~= slots);
    ReplaysAndCaptures { replays, captures }
}

/// A copy of `bytes` if it is `wanted`.
fn copy_if(wanted: bool, bytes: &Vec<u8>) -> (copy: Option<Vec<u8>>)
    ensures
        optional_bytes(copy) == if wanted {
            Some(bytes@)
        } else {
            None
        },
{
    if wanted {
        Some(slice_to_vec(bytes.as_slice()))
    } else {
        None
    }
}

/// Captures one response: caches what is complete, and appends what goes to the client to `output`.
fn capture_response(
    framer: &mut MessageFramer,
    app_state: &mut AppState,
    capture: &CommandSlotCapture,
    output: &mut Vec<u8>,
    now: Moment,
) -> (result: Result<(), String>)
    requires
        old(framer).wf(),
        old(app_state).wf(),
    ensures
        final(framer).wf(),
        final(app_state).wf(),
        same_but_cache(*old(app_state), *final(app_state)),
        ({
            let answer = captured(
                capture@,
                nothing_yet(),
                old(framer)@,
                old(app_state)@.cache,
                now,
            );
            &&& final(framer)@ == answer.pending
            &&& final(app_state)@ == (Shared { cache: answer.cache, ..old(app_state)@ })
            &&& final(output)@ == old(output)@ + answer.output
            &&& match result {
                Ok(_) => answer.error is None,
                Err(message) => answer.error == Some(message@),
            }
        }),
{
    let mut data: Vec<u8> = Vec::new();
    let mut param_desc: Vec<u8> = Vec::new();
    let mut row_desc: Vec<u8> = Vec::new();
    let extended: bool = capture.protocol_mode == ProtocolMode::Extended;
    let with_params: bool = extended && capture.describe_kind == DescribeKind::Statement;
    let with_rows: bool = extended && capture.describe_kind != DescribeKind::Nothing;
    let ghost goal = captured(
        capture@,
        nothing_yet(),
        old(framer)@,
        old(app_state)@.cache,
        now,
    );
    assert(data@ =~= Seq::<u8>::empty());
    loop
        invariant
            framer.wf(),
            app_state.wf(),
            same_but_cache(*old(app_state), *app_state),
            app_state@ == (Shared { cache: app_state@.cache, ..old(app_state)@ }),
            output@ == old(output)@,
            extended == (capture.protocol_mode == ProtocolMode::Extended),
            with_params == (extended && capture.describe_kind == DescribeKind::Statement),
            with_rows == (extended && capture.describe_kind != DescribeKind::Nothing),
            goal == captured(
                capture@,
                nothing_yet(),
                old(framer)@,
                old(app_state)@.cache,
                now,
            ),
            goal == captured(
                capture@,
                Partial { data: data@, param_desc: param_desc@, row_desc: row_desc@ },
                framer@,
                app_state@.cache,
                now,
            ),
        decreases framer@.len(),
    {
        let message: Vec<u8> = match framer.next_message() {
            Ok(Some(message)) => message,
            Ok(None) => {
                assert(output@ =~= old(output)@ + goal.output);
                return Ok(());
            },
            Err(error) => {
                assert(output@ =~= old(output)@ + goal.output);
                return Err(error);
            },
        };
        let type_byte: u8 = message[0];
        if type_byte == READY_FOR_QUERY_TYPE {
            output.append(&mut data);
            let mut message = message;
            output.append(&mut message);
            assert(output@ =~= old(output)@ + goal.output);
            return Ok(());
        }
        if type_byte == COMMAND_COMPLETE_TYPE || !extended || type_byte == DATA_ROW_TYPE {
            let mut message = message;
            data.append(&mut message);
        } else if type_byte == PARAMETER_DESCRIPTION_TYPE {
            param_desc = message;
        } else if type_byte == ROW_DESCRIPTION_TYPE {
            row_desc = message;
        }
        if type_byte == COMMAND_COMPLETE_TYPE {
            let response = CachedResponse {
                param_desc: copy_if(with_params, &param_desc),
                row_desc: copy_if(with_rows, &row_desc),
                data: slice_to_vec(data.as_slice()),
            };
            set_in_cache(app_state, capture.ttl, capture.key.as_str(), response, now);
        }
    }
}

/// `result`, and the states after, are what comes of the database's answer at the time `now`.
pub open spec fn answered_at(
    db_before: DBState,
    app_before: AppState,
    slots: Seq<Slot>,
    db_after: DBState,
    app_after: AppState,
    result: Result<Vec<u8>, String>,
    now: Moment,
) -> bool {
    let answer = answered(slots, db_before.framer@, app_before@.cache, now);
    &&& db_after.framer@ == answer.pending
    &&& app_after@ == (Shared { cache: answer.cache, ..app_before@ })
    &&& match result {
        Ok(output) => answer.error is None && output@ == answer.output,
        Err(message) => answer.error == Some(message@),
    }
}

/// Handles the database's answer to the messages of `command_slots`: caches what is to be captured,
/// and returns what goes to the client.
pub fn handle_command_slot_messages(
    db_state: &mut DBState,
    app_state: &mut AppState,
    command_slots: &[CommandSlot],
) -> (result: Result<Vec<u8>, String>)
    requires
        old(db_state).wf(),
        old(app_state).wf(),
    ensures
        final(db_state).wf(),
        final(app_state).wf(),
        final(db_state).buffer_state == old(db_state).buffer_state,
        final(db_state).scratch == old(db_state).scratch,
        same_but_cache(*old(app_state), *final(app_state)),
        exists|now: Moment|
            {
                &&& old(app_state).cache.clock.shows(now)
                &&& #[trigger] answered_at(
                    *old(db_state),
                    *old(app_state),
                    slot_list(command_slots@),
                    *final(db_state),
                    *final(app_state),
                    result,
                    now,
                )
            },
{
    let now = app_state.cache.now();
    handle_command_slot_messages_at(db_state, app_state, command_slots, now)
}

/// Handles the database's answer at the time `now`.
pub fn handle_command_slot_messages_at(
    db_state: &mut DBState,
    app_state: &mut AppState,
    command_slots: &[CommandSlot],
    now: Moment,
) -> (result: Result<Vec<u8>, String>)
    requires
        old(db_state).wf(),
        old(app_state).wf(),
    ensures
        final(db_state).wf(),
        final(app_state).wf(),
        final(db_state).buffer_state == old(db_state).buffer_state,
        final(db_state).scratch == old(db_state).scratch,
        same_but_cache(*old(app_state), *final(app_state)),
        answered_at(
            *old(db_state),
            *old(app_state),
            slot_list(command_slots@),
            *final(db_state),
            *final(app_state),
            result,
            now,
        ),
{
    let found = replays_and_captures_in_command_slots(command_slots);
    let ghost slots = slot_list(command_slots@);
    let ghost captures = captures_of(slots);
    let ghost pending = db_state.framer@;
    let ghost cache = app_state@.cache;
    proof {
        assert(replay_list(found.replays@).len() == found.replays@.len());
        assert(captures.len() == found.captures@.len());
    }
    if found.replays.len() == 0 && found.captures.len() == 0 {
        return pass_all_on(&mut db_state.framer);
    }
    let mut output: Vec<u8> = Vec::new();
    let mut i: usize = 0;
    assert(captures.skip(0) =~= captures);
    assert(output@ =~= Seq::<u8>::empty());
    while i < found.captures.len()
        invariant
            i <= found.captures.len(),
            db_state.wf(),
            app_state.wf(),
            db_state.buffer_state == old(db_state).buffer_state,
            db_state.scratch == old(db_state).scratch,
            same_but_cache(*old(app_state), *app_state),
            app_state@ == (Shared { cache: app_state@.cache, ..old(app_state)@ }),
            pending == old(db_state).framer@,
            cache == old(app_state)@.cache,
            slots == slot_list(command_slots@),
            captures == captures_of(slots),
            captures == capture_list(found.captures@),
            replays_of(slots).len() > 0 || captures.len() > 0,
            all_captured(captures, Seq::empty(), pending, cache, now) == all_captured(
                captures.skip(i as int),
                output@,
                db_state.framer@,
                app_state@.cache,
                now,
            ),
        decreases found.captures.len() - i,
    {
        let ghost rest = captures.skip(i as int);
        proof {
            assert(rest[0] == found.captures[i as int].1@);
            assert(rest.skip(1) =~= captures.skip(i + 1));
        }
        match capture_response(
            &mut db_state.framer,
            app_state,
            &found.captures[i].1,
            &mut output,
            now,
        ) {
            Ok(_) => {},
            Err(error) => return Err(error),
        }
        i = i + 1;
    }
    match drop_messages(&mut db_state.framer, command_slots.len()) {
        Ok(_) => Ok(output),
        Err(error) => Err(error),
    }
}

/// Hands out all messages that are there.
fn pass_all_on(framer: &mut MessageFramer) -> (result: Result<Vec<u8>, String>)
    requires
        old(framer).wf(),
    ensures
        final(framer).wf(),
        final(framer)@ == after_frames(old(framer)@),
        match result {
            Ok(output) => framing_error(old(framer)@) is None && output@ == concatenated(
                frames(old(framer)@),
            ),
            Err(message) => framing_error(old(framer)@) == Some(message@),
        },
{
    let mut output: Vec<u8> = Vec::new();
    assert(output@ + concatenated(frames(framer@)) =~= concatenated(frames(framer@)));
    loop
        invariant
            framer.wf(),
            after_frames(framer@) == after_frames(old(framer)@),
            output@ + concatenated(frames(framer@)) == concatenated(frames(old(framer)@)),
        decreases framer@.len(),
    {
        let ghost before = framer@;
        match framer.next_message() {
            Ok(Some(message)) => {
                let ghost text = message@;
                let ghost output_before = output@;
                let mut message = message;
                output.append(&mut message);
                proof {
                    assert(frames(before).skip(1) =~= frames(framer@));
                    assert(output@ + concatenated(frames(framer@)) =~= output_before + (text
                        + concatenated(frames(framer@))));
                }
            },
            Ok(None) => {
                assert(output@ + concatenated(frames(before)) =~= output@);
                return Ok(output);
            },
            Err(error) => return Err(error),
        }
    }
}

/// Drops up to `count` messages.
fn drop_messages(framer: &mut MessageFramer, count: usize) -> (result: Result<(), String>)
    requires
        old(framer).wf(),
    ensures
        final(framer).wf(),
        final(framer)@ == dropped(old(framer)@, count as nat).0,
        match result {
            Ok(_) => dropped(old(framer)@, count as nat).1 is None,
            Err(message) => dropped(old(framer)@, count as nat).1 == Some(message@),
        },
{
    let mut left: usize = count;
    while left > 0
        invariant
            framer.wf(),
            dropped(framer@, left as nat) == dropped(old(framer)@, count as nat),
        decreases left,
    {
        match framer.next_message() {
            Ok(_) => {},
            Err(error) => return Err(error),
        }
        left = left - 1;
    }
    Ok(())
}

/// Whether any of the messages has to do with the cache.
pub fn command_slots_contains_replay_or_capture(command_slots: &[CommandSlot]) -> (contains: bool)
    ensures
        contains == exists|i: int|
            0 <= i < command_slots@.len() && ((#[trigger] command_slots@[i]) is Replay
                || command_slots@[i] is Capture),
{
    let mut i: usize = 0;
    while i < command_slots.len()
        invariant
            i <= command_slots.len(),
            forall|j: int|
                0 <= j < i ==> !((#[trigger] command_slots@[j]) is Replay
                    || command_slots@[j] is Capture),
        decreases command_slots.len() - i,
    {
        match &command_slots[i] {
            CommandSlot::Replay(_) => return true,
            CommandSlot::Capture(_) => return true,
            _ => {},
        }
        i = i + 1;
    }
    false
}

/// Whether a message of the cycle is answered from the cache.
pub fn cycle_contains_replay(cycle: &Cycle) -> (contains: bool)
    ensures
        contains == exists|i: int|
            0 <= i < cycle.slots@.len() && (#[trigger] cycle.slots@[i]) is Replay,
{
    let mut i: usize = 0;
    while i < cycle.slots.len()
        invariant
            i <= cycle.slots.len(),
            forall|j: int| 0 <= j < i ==> !((#[trigger] cycle.slots@[j]) is Replay),
        decreases cycle.slots.len() - i,
    {
        if let CommandSlot::Replay(_) = &cycle.slots[i] {
            return true;
        }
        i = i + 1;
    }
    false
}

/// Whether the response to a message of the cycle is captured.
pub fn cycle_contains_capture(cycle: &Cycle) -> (contains: bool)
    ensures
        contains == exists|i: int|
            0 <= i < cycle.slots@.len() && (#[trigger] cycle.slots@[i]) is Capture,
{
    let mut i: usize = 0;
    while i < cycle.slots.len()
        invariant
            i <= cycle.slots.len(),
            forall|j: int| 0 <= j < i ==> !((#[trigger] cycle.slots@[j]) is Capture),
        decreases cycle.slots.len() - i,
    {
        if let CommandSlot::Capture(_) = &cycle.slots[i] {
            return true;
        }
        i = i + 1;
    }
    false
}

/// Whether the cycle has both, a message answered from the cache and one whose response is
/// captured.
pub fn cycle_contains_replay_and_capture(cycle: &Cycle) -> (contains: bool)
    ensures
        contains == ((exists|i: int|
            0 <= i < cycle.slots@.len() && (#[trigger] cycle.slots@[i]) is Replay) && (exists|
            i: int,
        |
            0 <= i < cycle.slots@.len() && (#[trigger] cycle.slots@[i]) is Capture)),
{
    let mut has_replay: bool = false;
    let mut has_capture: bool = false;
    let mut i: usize = 0;
    while i < cycle.slots.len()
        invariant
            i <= cycle.slots.len(),
            has_replay == exists|j: int| 0 <= j < i && (#[trigger] cycle.slots@[j]) is Replay,
            has_capture == exists|j: int| 0 <= j < i && (#[trigger] cycle.slots@[j]) is Capture,
        decreases cycle.slots.len() - i,
    {
        match &cycle.slots[i] {
            CommandSlot::Replay(_) => {
                assert(cycle.slots@[i as int] is Replay);
                has_replay = true;
            },
            CommandSlot::Capture(_) => {
                assert(cycle.slots@[i as int] is Capture);
                has_capture = true;
            },
            _ => {},
        }
        i = i + 1;
    }
    has_replay && has_capture
}

} // verus!
