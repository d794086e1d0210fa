//! What planning comes to: which messages of a client go to the database, which are answered from
//! the cache, and which responses are captured for it.
use vstd::prelude::*;
use crate::cache::lfu::ResponseBytes;
use crate::cache::store::wire_key;
use crate::clock::Moment;
use crate::server::state::Shared;
use crate::wire::message_framer::{after_first_frame, first_frame};
use crate::wire::messages::{
    bind_content, close_content, describe_content, execute_content, parse_content, query_content,
    BindText, CloseMessageContentTarget, CloseText, DescribeMessageContentTarget, DescribeText,
    ExecuteText, ParseText,
};
use crate::wire::types::{
    empty_scratch, scratch_in_order, CaptureText, CycleText, DescribeKind, EntryText, MessageKind,
    Plan, PortalText, ProtocolMode, ReplayText, ScratchState, Session, Slot, StatementText,
};

verus! {

/// The type byte of a simple query, `Q`.
pub const QUERY_TYPE: u8 = 0x51;

/// The type byte of a request to prepare, `P`.
pub const PARSE_TYPE: u8 = 0x50;

/// The type byte of a request to bind, `B`.
pub const BIND_TYPE: u8 = 0x42;

/// The type byte of a request to describe, `D`.
pub const DESCRIBE_TYPE: u8 = 0x44;

/// The type byte of a request to execute, `E`.
pub const EXECUTE_TYPE: u8 = 0x45;

/// The type byte of a Sync, `S`.
pub const SYNC_TYPE: u8 = 0x53;

/// The type byte of a request to close, `C`.
pub const CLOSE_TYPE: u8 = 0x43;

/// The type byte of a Terminate, `X`.
pub const TERMINATE_TYPE: u8 = 0x58;

pub const UNEXPECTED_TYPE: &'static str = "unexpected message type, the type byte is unrecognized";

/// What a message says behind its type byte and its length.
pub open spec fn body(message: Seq<u8>) -> Seq<u8> {
    message.skip(5)
}

/// For how many seconds responses to `query` are cached: the template's own setting, else the one
/// for all. None where the query is not to be cached.
pub open spec fn ttl_of(shared: Shared, query: Seq<char>) -> Option<u64> {
    if shared.templates.contains_key(query) {
        match shared.templates[query].ttl {
            Some(ttl) => Some(ttl),
            None => Some(shared.global_ttl),
        }
    } else {
        None
    }
}

/// How `query` with `values` is cached, if it is.
pub open spec fn plan_of(
    shared: Shared,
    query: Seq<char>,
    values: Seq<Option<Seq<u8>>>,
) -> Option<Plan> {
    match ttl_of(shared, query) {
        Some(ttl) => Some(Plan { key: wire_key(query, values), ttl }),
        None => None,
    }
}

/// How the response of executing `portal` is cached, if it is.
pub open spec fn portal_plan(shared: Shared, session: Session, portal: Seq<char>) -> Option<Plan> {
    if session.portals.contains_key(portal) && session.statements.contains_key(
        session.portals[portal].statement,
    ) {
        plan_of(
            shared,
            session.statements[session.portals[portal].statement].query,
            session.portals[portal].values,
        )
    } else {
        None
    }
}

/// A statement of that name stands in the way of another.
pub open spec fn name_taken(session: Session, name: Seq<char>) -> bool {
    name.len() > 0 && session.statements.contains_key(name)
}

/// The session with the statement `content` prepared. One that is named stays until it is closed;
/// the unnamed one is replaced.
pub open spec fn with_statement(session: Session, content: ParseText) -> Session {
    if name_taken(session, content.name) {
        session
    } else {
        Session {
            statements: session.statements.insert(
                content.name,
                StatementText { query: content.query, types: content.types, known: false },
            ),
            ..session
        }
    }
}

/// The session with the portal `content` bound, if its statement is known and is to be cached.
pub open spec fn with_portal(shared: Shared, session: Session, content: BindText) -> Session {
    if session.statements.contains_key(content.statement) && shared.templates.contains_key(
        session.statements[content.statement].query,
    ) {
        Session {
            portals: session.portals.insert(
                content.portal,
                PortalText {
                    statement: content.statement,
                    parameter_formats: content.parameter_formats,
                    values: content.values,
                    result_formats: content.result_formats,
                },
            ),
            ..session
        }
    } else {
        session
    }
}

/// The session after the message at `index` asked to prepare `content`.
pub open spec fn after_parse(session: Session, index: usize, content: ParseText) -> Session {
    let after = with_statement(session, content);
    Session {
        scratch: ScratchState {
            parses: after.scratch.parses.insert(content.name, (index, content)),
            ..after.scratch
        },
        ..after
    }
}

/// The session after the message at `index` asked to bind `content`.
pub open spec fn after_bind(
    shared: Shared,
    session: Session,
    index: usize,
    content: BindText,
) -> Session {
    let after = with_portal(shared, session, content);
    Session {
        scratch: ScratchState {
            binds: after.scratch.binds.insert(content.portal, (index, content)),
            ..after.scratch
        },
        ..after
    }
}

/// The session after the message at `index` asked to describe `content`.
pub open spec fn after_describe(session: Session, index: usize, content: DescribeText) -> Session {
    Session {
        scratch: ScratchState {
            describes: session.scratch.describes.insert(content.name, (index, content)),
            ..session.scratch
        },
        ..session
    }
}

/// The session after a message asked to close `content`.
pub open spec fn after_close(session: Session, content: CloseText) -> Session {
    match content.target {
        CloseMessageContentTarget::PreparedStatement => Session {
            statements: session.statements.remove(content.name),
            scratch: ScratchState {
                parses: session.scratch.parses.remove(content.name),
                ..session.scratch
            },
            ..session
        },
        CloseMessageContentTarget::Portal => Session {
            portals: session.portals.remove(content.name),
            scratch: ScratchState {
                binds: session.scratch.binds.remove(content.name),
                ..session.scratch
            },
            ..session
        },
    }
}

/// The messages that led to an execution.
pub struct Chain {
    pub parse: Option<usize>,
    pub bind: Option<usize>,
    pub query: Seq<char>,
}

/// The statement that `portal` was bound to: what came in since the last Sync goes first.
pub open spec fn bound_statement(session: Session, portal: Seq<char>) -> Option<Seq<char>> {
    if session.scratch.binds.contains_key(portal) {
        Some(session.scratch.binds[portal].1.statement)
    } else if session.portals.contains_key(portal) {
        Some(session.portals[portal].statement)
    } else {
        None
    }
}

/// The messages since the last Sync that led to an execution of `portal`, and its query.
pub open spec fn chain_of(session: Session, portal: Seq<char>) -> Option<Chain> {
    let bind = if session.scratch.binds.contains_key(portal) {
        Some(session.scratch.binds[portal].0)
    } else {
        None
    };
    match bound_statement(session, portal) {
        None => None,
        Some(name) => if session.scratch.parses.contains_key(name) {
            Some(
                Chain {
                    parse: Some(session.scratch.parses[name].0),
                    bind,
                    query: session.scratch.parses[name].1.query,
                },
            )
        } else {
            Some(
                Chain {
                    parse: None,
                    bind,
                    query: if session.statements.contains_key(name) {
                        session.statements[name].query
                    } else {
                        Seq::empty()
                    },
                },
            )
        },
    }
}

/// What a request to describe `content` asks for.
pub open spec fn kind_of(content: DescribeText) -> DescribeKind {
    match content.target {
        DescribeMessageContentTarget::PreparedStatement => DescribeKind::Statement,
        DescribeMessageContentTarget::Portal => DescribeKind::Portal,
    }
}

/// What was asked to be described under the name of `portal` since the last Sync.
pub open spec fn described(session: Session, portal: Seq<char>) -> DescribeKind {
    if session.scratch.describes.contains_key(portal) {
        kind_of(session.scratch.describes[portal].1)
    } else {
        DescribeKind::Nothing
    }
}

/// `response` holds all that a request with such a description is answered with.
pub open spec fn satisfies(response: ResponseBytes, kind: DescribeKind) -> bool {
    match kind {
        DescribeKind::Nothing => response.data.len() > 0,
        DescribeKind::Portal => response.data.len() > 0 && response.row_desc is Some,
        DescribeKind::Statement => response.data.len() > 0 && response.row_desc is Some
            && response.param_desc is Some,
    }
}

/// How far the planning of the messages up to a Sync has come. A slot is empty until its message
/// is decided on.
#[verifier::ext_equal]
pub struct Progress {
    pub session: Session,
    pub shared: Shared,
    pub slots: Seq<Option<Slot>>,
}

/// `slots` with the message at `at`, if there is one, left out because it is answered, or else
/// passed on.
pub open spec fn decided(
    slots: Seq<Option<Slot>>,
    entries: Seq<EntryText>,
    at: Option<usize>,
    kind: MessageKind,
    answered: bool,
) -> Seq<Option<Slot>> {
    match at {
        Some(at) => if at < entries.len() {
            let bytes = entries[at as int].bytes;
            slots.update(
                at as int,
                Some(
                    if answered {
                        Slot::Skip { bytes, kind }
                    } else {
                        Slot::Passthrough { bytes, kind }
                    },
                ),
            )
        } else {
            slots
        },
        None => slots,
    }
}

/// `slots` with the execution at `index` decided on, and the messages that belong to it.
pub open spec fn with_execution(
    slots: Seq<Option<Slot>>,
    session: Session,
    portal: Seq<char>,
    chain: Chain,
    index: usize,
    slot: Slot,
    answered: bool,
) -> Seq<Option<Slot>> {
    let entries = session.scratch.entries;
    let describe = if session.scratch.describes.contains_key(portal) {
        Some(session.scratch.describes[portal].0)
    } else {
        None
    };
    let with_describe = decided(slots, entries, describe, MessageKind::Describe, answered);
    let with_execute = with_describe.update(index as int, Some(slot));
    let with_bind = decided(with_execute, entries, chain.bind, MessageKind::Bind, answered);
    decided(with_bind, entries, chain.parse, MessageKind::Parse, answered)
}

/// The cache as `progress` leaves it once `key` was asked for.
pub open spec fn after_lookup(shared: Shared, key: Seq<char>, now: Moment) -> Shared {
    Shared { cache: shared.cache.after_get(key, now), ..shared }
}

/// The planning after the message at `index` asked to execute `content`.
pub open spec fn after_execute(
    progress: Progress,
    index: usize,
    content: ExecuteText,
    now: Moment,
) -> Progress {
    let entry = progress.session.scratch.entries[index as int];
    let passed_on = progress.slots.update(
        index as int,
        Some(Slot::Passthrough { bytes: entry.bytes, kind: entry.kind }),
    );
    let plan = if content.row_limit == 0 {
        portal_plan(progress.shared, progress.session, content.portal)
    } else {
        None
    };
    match plan {
        None => Progress { slots: passed_on, ..progress },
        Some(plan) => {
            let shared = after_lookup(progress.shared, plan.key, now);
            match chain_of(progress.session, content.portal) {
                None => Progress { slots: passed_on, shared, ..progress },
                Some(chain) => {
                    let cached = progress.shared.cache.served(plan.key, now);
                    let kind = described(progress.session, content.portal);
                    let answered = cached is Some && satisfies(cached.unwrap(), kind);
                    let slot = if answered {
                        Slot::Replay(
                            ReplayText {
                                key: plan.key,
                                data: cached.unwrap(),
                                describe_kind: kind,
                                protocol_mode: ProtocolMode::Extended,
                                query: chain.query,
                            },
                        )
                    } else {
                        Slot::Capture(
                            CaptureText {
                                bytes: entry.bytes,
                                key: plan.key,
                                describe_kind: kind,
                                protocol_mode: ProtocolMode::Extended,
                                query: chain.query,
                                ttl: plan.ttl,
                            },
                        )
                    };
                    Progress {
                        slots: with_execution(
                            progress.slots,
                            progress.session,
                            content.portal,
                            chain,
                            index,
                            slot,
                            answered,
                        ),
                        shared,
                        ..progress
                    }
                },
            }
        },
    }
}

/// The planning after the message at `index`, or the error text where it cannot be read.
pub open spec fn after_entry(progress: Progress, index: usize, now: Moment) -> Result<
    Progress,
    Seq<char>,
> {
    let entry = progress.session.scratch.entries[index as int];
    let bytes = body(entry.bytes);
    match entry.kind {
        MessageKind::Parse => match parse_content(bytes) {
            Err(fault) => Err(fault.message),
            Ok(content) => Ok(
                Progress { session: after_parse(progress.session, index, content), ..progress },
            ),
        },
        MessageKind::Bind => match bind_content(bytes) {
            Err(fault) => Err(fault.message),
            Ok(content) => Ok(
                Progress {
                    session: after_bind(progress.shared, progress.session, index, content),
                    ..progress
                },
            ),
        },
        MessageKind::Describe => match describe_content(bytes) {
            Err(fault) => Err(fault.message),
            Ok(content) => Ok(
                Progress { session: after_describe(progress.session, index, content), ..progress },
            ),
        },
        MessageKind::Close => match close_content(bytes) {
            Err(fault) => Err(fault.message),
            Ok(content) => Ok(
                Progress { session: after_close(progress.session, content), ..progress },
            ),
        },
        MessageKind::Execute => match execute_content(bytes) {
            Err(fault) => Err(fault.message),
            Ok(content) => Ok(after_execute(progress, index, content, now)),
        },
        _ => Ok(progress),
    }
}

/// The planning before the first message.
pub open spec fn before_entries(session: Session, shared: Shared) -> Progress {
    Progress {
        session,
        shared,
        slots: Seq::new(session.scratch.entries.len(), |i: int| None::<Slot>),
    }
}

/// The planning after the first `count` messages, and the error text of one that cannot be read:
/// those behind it are left alone.
pub open spec fn after_entries(session: Session, shared: Shared, count: nat, now: Moment) -> (
    Progress,
    Option<Seq<char>>,
)
    decreases count,
{
    if count == 0 {
        (before_entries(session, shared), None)
    } else {
        let (before, error) = after_entries(session, shared, (count - 1) as nat, now);
        if error is Some {
            (before, error)
        } else {
            match after_entry(before, (count - 1) as usize, now) {
                Ok(after) => (after, None),
                Err(message) => (before, Some(message)),
            }
        }
    }
}

/// The planning after all messages up to a Sync.
pub open spec fn at_sync(session: Session, shared: Shared, now: Moment) -> (
    Progress,
    Option<Seq<char>>,
) {
    after_entries(session, shared, session.scratch.entries.len(), now)
}

/// The slot of the message at `i`: one that nothing was decided on is passed on.
pub open spec fn final_slot(entries: Seq<EntryText>, slots: Seq<Option<Slot>>, i: int) -> Slot {
    match slots[i] {
        Some(slot) => slot,
        None => Slot::Passthrough { bytes: entries[i].bytes, kind: entries[i].kind },
    }
}

/// The slots of all messages.
pub open spec fn final_slots(entries: Seq<EntryText>, slots: Seq<Option<Slot>>) -> Seq<Slot> {
    Seq::new(slots.len(), |i: int| final_slot(entries, slots, i))
}

/// How far the planning of a client's messages has come.
#[verifier::ext_equal]
pub struct Run {
    pub session: Session,
    pub shared: Shared,
    pub cycles: Seq<CycleText>,
}

/// Whether planning goes on after a message.
pub enum Verdict {
    GoesOn,
    Stops,
    Fails(Seq<char>),
}

/// A cycle of one message.
pub open spec fn single(slot: Slot) -> CycleText {
    CycleText { slots: seq![slot], synthesize_sync: false }
}

/// The planning after a simple query. It does away with the unnamed statement.
pub open spec fn after_query(run: Run, message: Seq<u8>, now: Moment) -> (Run, Verdict) {
    let session = Session {
        statements: run.session.statements.remove(Seq::empty()),
        ..run.session
    };
    match query_content(body(message)) {
        Err(fault) => (Run { session, ..run }, Verdict::Fails(fault.message)),
        Ok(content) => match plan_of(run.shared, content.query, Seq::empty()) {
            None => (
                Run {
                    session,
                    cycles: run.cycles.push(
                        single(Slot::Passthrough { bytes: message, kind: MessageKind::Query }),
                    ),
                    ..run
                },
                Verdict::GoesOn,
            ),
            Some(plan) => {
                let slot = match run.shared.cache.served(plan.key, now) {
                    Some(cached) => Slot::Replay(
                        ReplayText {
                            key: plan.key,
                            data: cached,
                            describe_kind: DescribeKind::Nothing,
                            protocol_mode: ProtocolMode::Simple,
                            query: content.query,
                        },
                    ),
                    None => Slot::Capture(
                        CaptureText {
                            bytes: message,
                            key: plan.key,
                            describe_kind: DescribeKind::Nothing,
                            protocol_mode: ProtocolMode::Simple,
                            query: content.query,
                            ttl: plan.ttl,
                        },
                    ),
                };
                (
                    Run {
                        session,
                        shared: after_lookup(run.shared, plan.key, now),
                        cycles: run.cycles.push(single(slot)),
                    },
                    Verdict::GoesOn,
                )
            },
        },
    }
}

/// The planning after a Sync: the messages since the last one make up a cycle.
pub open spec fn after_sync(run: Run, now: Moment) -> (Run, Verdict) {
    let (progress, error) = at_sync(run.session, run.shared, now);
    match error {
        Some(message) => (
            Run { session: progress.session, shared: progress.shared, ..run },
            Verdict::Fails(message),
        ),
        None => (
            Run {
                session: Session { scratch: empty_scratch(), ..progress.session },
                shared: progress.shared,
                cycles: run.cycles.push(
                    CycleText {
                        slots: final_slots(progress.session.scratch.entries, progress.slots),
                        synthesize_sync: true,
                    },
                ),
            },
            Verdict::GoesOn,
        ),
    }
}

/// The kind of the messages with the type byte `byte` that wait for a Sync.
pub open spec fn waiting_kind(byte: u8) -> Option<MessageKind> {
    if byte == PARSE_TYPE {
        Some(MessageKind::Parse)
    } else if byte == BIND_TYPE {
        Some(MessageKind::Bind)
    } else if byte == DESCRIBE_TYPE {
        Some(MessageKind::Describe)
    } else if byte == EXECUTE_TYPE {
        Some(MessageKind::Execute)
    } else if byte == CLOSE_TYPE {
        Some(MessageKind::Close)
    } else {
        None
    }
}

/// The session with one more message that waits for a Sync.
pub open spec fn with_waiting(session: Session, message: Seq<u8>, kind: MessageKind) -> Session {
    Session {
        scratch: ScratchState {
            entries: session.scratch.entries.push(
                EntryText { bytes: message, kind, execute: None },
            ),
            ..session.scratch
        },
        ..session
    }
}

/// One more message that waits leaves the places that the scratch notes in order.
pub proof fn lemma_waiting_in_order(session: Session, message: Seq<u8>, kind: MessageKind)
    requires
        scratch_in_order(session.scratch),
    ensures
        scratch_in_order(with_waiting(session, message, kind).scratch),
{
    let before = session.scratch;
    let after = with_waiting(session, message, kind).scratch;
    assert forall|i: int| 0 <= i < before.entries.len() implies #[trigger] after.entries[i]
        == before.entries[i] by {}
    assert forall|name: Seq<char>| #[trigger]
        after.parses.contains_key(name) implies after.parses[name].0 < after.entries.len()
        && after.entries[after.parses[name].0 as int].kind == MessageKind::Parse by {
        assert(before.parses.contains_key(name));
    }
    assert forall|name: Seq<char>| #[trigger]
        after.binds.contains_key(name) implies after.binds[name].0 < after.entries.len()
        && after.entries[after.binds[name].0 as int].kind == MessageKind::Bind by {
        assert(before.binds.contains_key(name));
    }
    assert forall|name: Seq<char>| #[trigger]
        after.describes.contains_key(name) implies after.describes[name].0 < after.entries.len()
        && after.entries[after.describes[name].0 as int].kind == MessageKind::Describe by {
        assert(before.describes.contains_key(name));
    }
}

/// The planning after `message`.
pub open spec fn after_message(run: Run, message: Seq<u8>, now: Moment) -> (Run, Verdict) {
    let byte = message[0];
    match waiting_kind(byte) {
        Some(kind) => (
            Run { session: with_waiting(run.session, message, kind), ..run },
            Verdict::GoesOn,
        ),
        None => if byte == QUERY_TYPE {
            after_query(run, message, now)
        } else if byte == SYNC_TYPE {
            after_sync(run, now)
        } else if byte == TERMINATE_TYPE {
            (
                Run {
                    session: Session { scratch: empty_scratch(), ..run.session },
                    cycles: run.cycles.push(
                        single(Slot::Passthrough { bytes: message, kind: MessageKind::Terminate }),
                    ),
                    ..run
                },
                Verdict::Stops,
            )
        } else {
            (run, Verdict::Fails(UNEXPECTED_TYPE@))
        },
    }
}

/// The planning after the messages of `pending`, the bytes that are left, and the error text where
/// a message could not be handled. It ends with the first message that is not all there or whose
/// length cannot be.
pub open spec fn after_messages(run: Run, pending: Seq<u8>, now: Moment) -> (
    Run,
    Seq<u8>,
    Option<Seq<char>>,
)
    decreases pending.len(),
{
    match first_frame(pending) {
        Ok(Some(message)) => {
            let rest = after_first_frame(pending);
            match after_message(run, message, now) {
                (after, Verdict::GoesOn) => after_messages(after, rest, now),
                (after, Verdict::Stops) => (after, rest, None),
                (after, Verdict::Fails(error)) => (after, rest, Some(error)),
            }
        },
        _ => (run, pending, None),
    }
}

} // verus!
