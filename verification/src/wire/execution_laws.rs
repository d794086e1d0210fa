//! What becomes of executions that are to be cached.
use vstd::prelude::*;
use crate::cache::laws::law_operations_keep_order;
use crate::cache::lfu::{accounted_size, home, ResponseBytes};
use crate::clock::Moment;
use crate::server::state::Shared;
use crate::wire::answer_laws::{law_captured_answer_is_served, Reply};
use crate::wire::capture_model::{captured, nothing_yet, response_of};
use crate::wire::data_phase::{cycle_writes, slot_writes, sync_message};
use crate::wire::messages::{
    bind_content, describe_content, execute_content, parse_content, BindText, DescribeText,
    ExecuteText, ParseText,
};
use crate::wire::plan_model::{
    after_bind, after_describe, after_entries, after_entry, after_execute, after_lookup,
    after_parse, at_sync, before_entries, body, chain_of, described, final_slots, kind_of,
    name_taken, plan_of, portal_plan, satisfies, with_execution, Chain, Progress,
};
use crate::wire::reader::Fault;
use crate::wire::types::{
    empty_scratch, CaptureText, CycleText, DescribeKind, EntryText, MessageKind, Plan, ProtocolMode,
    ReplayText, ScratchState, Session, Slot,
};

verus! {

/// An execution as it is asked for between two Syncs: with its parameters, and with the statement
/// unless that was prepared before, and with a description where one is asked for, in front of the
/// parameters or behind them.
pub struct Request {
    pub parse: Option<(EntryText, ParseText)>,
    pub bind: EntryText,
    pub bind_text: BindText,
    pub describe: Option<(EntryText, DescribeText)>,
    pub describe_first: bool,
    pub execute: EntryText,
    pub execute_text: ExecuteText,
}

impl Request {
    /// Where the request to bind stands.
    pub open spec fn bind_at(self) -> nat {
        (if self.parse is Some { 1nat } else { 0nat }) + (if self.describe is Some
            && self.describe_first { 1nat } else { 0nat })
    }

    /// Where the request to describe stands, if there is one.
    pub open spec fn describe_at(self) -> nat {
        (if self.parse is Some { 1nat } else { 0nat }) + (if self.describe_first {
            0nat
        } else {
            1nat
        })
    }

    /// The messages in a row.
    pub open spec fn entries(self) -> Seq<EntryText> {
        let parse = match self.parse {
            Some(parse) => seq![parse.0],
            None => Seq::empty(),
        };
        let describe = match self.describe {
            Some(describe) => seq![describe.0],
            None => Seq::empty(),
        };
        if self.describe_first {
            parse + describe + seq![self.bind, self.execute]
        } else {
            parse + seq![self.bind] + describe + seq![self.execute]
        }
    }

    /// What is asked to be described.
    pub open spec fn kind(self) -> DescribeKind {
        match self.describe {
            Some(describe) => kind_of(describe.1),
            None => DescribeKind::Nothing,
        }
    }

    /// The statement that is executed.
    pub open spec fn query(self, session: Session) -> Seq<char> {
        match self.parse {
            Some(parse) => parse.1.query,
            None => session.statements[self.bind_text.statement].query,
        }
    }

    /// How the response is cached, if it is.
    pub open spec fn plan(self, session: Session, shared: Shared) -> Option<Plan> {
        plan_of(shared, self.query(session), self.bind_text.values)
    }

    /// Every message is of its kind and can be read.
    pub open spec fn readable(self) -> bool {
        &&& match self.parse {
            Some(parse) => {
                &&& parse.0.kind == MessageKind::Parse
                &&& parse_content(body(parse.0.bytes)) == Ok::<ParseText, Fault>(parse.1)
            },
            None => true,
        }
        &&& self.bind.kind == MessageKind::Bind
        &&& bind_content(body(self.bind.bytes)) == Ok::<BindText, Fault>(self.bind_text)
        &&& match self.describe {
            Some(describe) => {
                &&& describe.0.kind == MessageKind::Describe
                &&& describe_content(body(describe.0.bytes)) == Ok::<DescribeText, Fault>(
                    describe.1,
                )
            },
            None => true,
        }
        &&& self.execute.kind == MessageKind::Execute
        &&& execute_content(body(self.execute.bytes)) == Ok::<ExecuteText, Fault>(self.execute_text)
    }
}

/// `session` waits for the Sync behind `request`, which can be read, belongs together and asks for
/// all rows.
pub open spec fn asks_for(session: Session, request: Request) -> bool {
    &&& session.scratch == (ScratchState { entries: request.entries(), ..empty_scratch() })
    &&& request.readable()
    &&& match request.parse {
        Some(parse) => {
            &&& !name_taken(session, parse.1.name)
            &&& request.bind_text.statement == parse.1.name
        },
        None => session.statements.contains_key(request.bind_text.statement),
    }
    &&& match request.describe {
        Some(describe) => describe.1.name == request.execute_text.portal,
        None => true,
    }
    &&& request.execute_text.portal == request.bind_text.portal
    &&& request.execute_text.row_limit == 0
}

/// The planning with nothing decided on.
spec fn undecided(session: Session, shared: Shared, count: nat) -> Progress {
    Progress { session, shared, slots: Seq::new(count, |i: int| None::<Slot>) }
}

/// The session once the statement of `request` is prepared.
spec fn prepared_session(session: Session, request: Request) -> Session {
    match request.parse {
        Some(parse) => after_parse(session, 0, parse.1),
        None => session,
    }
}

/// The session once the parameters of `request` are bound.
spec fn bound_session(session: Session, shared: Shared, request: Request) -> Session {
    after_bind(shared, session, request.bind_at() as usize, request.bind_text)
}

/// The session once the description of `request` is asked for.
spec fn described_session(session: Session, request: Request) -> Session {
    match request.describe {
        Some(describe) => after_describe(session, request.describe_at() as usize, describe.1),
        None => session,
    }
}

/// The session when the execution of `request` comes.
spec fn ready_session(session: Session, shared: Shared, request: Request) -> Session {
    let prepared = prepared_session(session, request);
    if request.describe_first {
        bound_session(described_session(prepared, request), shared, request)
    } else {
        described_session(bound_session(prepared, shared, request), request)
    }
}

proof fn lemma_prepared(session: Session, shared: Shared, request: Request, now: Moment)
    requires
        asks_for(session, request),
    ensures
        after_entries(
            session,
            shared,
            if request.parse is Some { 1nat } else { 0nat },
            now,
        ) == (
            undecided(prepared_session(session, request), shared, request.entries().len()),
            None::<Seq<char>>,
        ),
{
    let start = before_entries(session, shared);
    let count = request.entries().len();
    assert(start == undecided(session, shared, count));
    assert(after_entries(session, shared, 0, now) == (start, None::<Seq<char>>));
    if let Some(parse) = request.parse {
        assert(session.scratch.entries[0] == parse.0);
        let after = undecided(prepared_session(session, request), shared, count);
        assert(after_entry(start, 0, now) == Ok::<Progress, Seq<char>>(after));
        assert(after_entries(session, shared, 1, now) == (after, None::<Seq<char>>));
    }
}

proof fn lemma_bound(
    session: Session,
    before: Session,
    shared: Shared,
    request: Request,
    now: Moment,
)
    requires
        asks_for(session, request),
        before.scratch.entries == request.entries(),
        after_entries(session, shared, request.bind_at(), now) == (
            undecided(before, shared, request.entries().len()),
            None::<Seq<char>>,
        ),
    ensures
        after_entries(session, shared, request.bind_at() + 1, now) == (
            undecided(
                bound_session(before, shared, request),
                shared,
                request.entries().len(),
            ),
            None::<Seq<char>>,
        ),
{
    let count = request.entries().len();
    assert(before.scratch.entries[request.bind_at() as int] == request.bind);
    let after = undecided(bound_session(before, shared, request), shared, count);
    assert(after_entry(undecided(before, shared, count), request.bind_at() as usize, now) == Ok::<
        Progress,
        Seq<char>,
    >(after));
}

proof fn lemma_described(
    session: Session,
    before: Session,
    shared: Shared,
    request: Request,
    now: Moment,
)
    requires
        asks_for(session, request),
        request.describe is Some,
        before.scratch.entries == request.entries(),
        after_entries(session, shared, request.describe_at(), now) == (
            undecided(before, shared, request.entries().len()),
            None::<Seq<char>>,
        ),
    ensures
        after_entries(session, shared, request.describe_at() + 1, now) == (
            undecided(described_session(before, request), shared, request.entries().len()),
            None::<Seq<char>>,
        ),
{
    let count = request.entries().len();
    assert(before.scratch.entries[request.describe_at() as int] == request.describe.unwrap().0);
    let after = undecided(described_session(before, request), shared, count);
    assert(after_entry(undecided(before, shared, count), request.describe_at() as usize, now)
        == Ok::<Progress, Seq<char>>(after));
}

proof fn lemma_ready(session: Session, shared: Shared, request: Request, now: Moment)
    requires
        asks_for(session, request),
    ensures
        after_entries(session, shared, (request.entries().len() - 1) as nat, now) == (
            undecided(ready_session(session, shared, request), shared, request.entries().len()),
            None::<Seq<char>>,
        ),
{
    lemma_prepared(session, shared, request, now);
    let prepared = prepared_session(session, request);
    if request.describe_first {
        if request.describe is Some {
            lemma_described(session, prepared, shared, request, now);
        }
        lemma_bound(session, described_session(prepared, request), shared, request, now);
    } else {
        lemma_bound(session, prepared, shared, request, now);
        if request.describe is Some {
            lemma_described(
                session,
                bound_session(prepared, shared, request),
                shared,
                request,
                now,
            );
        }
    }
}

/// The messages that lead to the execution of `request`.
spec fn chain(session: Session, request: Request) -> Chain {
    Chain {
        parse: if request.parse is Some { Some(0usize) } else { None },
        bind: Some(request.bind_at() as usize),
        query: request.query(session),
    }
}

proof fn lemma_ready_session(session: Session, shared: Shared, request: Request)
    requires
        asks_for(session, request),
        request.plan(session, shared) is Some,
    ensures
        ({
            let ready = ready_session(session, shared, request);
            let portal = request.execute_text.portal;
            let describes = ready.scratch.describes;
            &&& ready.scratch.entries == request.entries()
            &&& describes.contains_key(portal) <==> request.describe is Some
            &&& request.describe is Some ==> describes[portal].0 == request.describe_at()
            &&& described(ready, portal) == request.kind()
            &&& portal_plan(shared, ready, portal) == request.plan(session, shared)
            &&& chain_of(ready, portal) == Some(chain(session, request))
        }),
{
    let prepared = prepared_session(session, request);
    let name = request.bind_text.statement;
    assert(prepared.statements.contains_key(name));
    assert(prepared.statements[name].query == request.query(session));
}

/// The slots of messages of which the last is answered with `replay` and the others are left out.
pub open spec fn answered_slots(entries: Seq<EntryText>, replay: ReplayText) -> Seq<Slot> {
    Seq::new(
        entries.len(),
        |i: int|
            if i == entries.len() - 1 {
                Slot::Replay(replay)
            } else {
                Slot::Skip { bytes: entries[i].bytes, kind: entries[i].kind }
            },
    )
}

/// The slots of messages that all go to the database, the last one as `capture`.
pub open spec fn captured_slots(entries: Seq<EntryText>, capture: CaptureText) -> Seq<Slot> {
    Seq::new(
        entries.len(),
        |i: int|
            if i == entries.len() - 1 {
                Slot::Capture(capture)
            } else {
                Slot::Passthrough { bytes: entries[i].bytes, kind: entries[i].kind }
            },
    )
}

proof fn lemma_nothing_written(slots: Seq<Slot>)
    requires
        forall|i: int|
            0 <= i < slots.len() ==> (#[trigger] slots[i]) is Skip || slots[i] is Replay,
    ensures
        slot_writes(slots) == Seq::<Seq<u8>>::empty(),
    decreases slots.len(),
{
    if slots.len() > 0 {
        let rest = slots.drop_last();
        assert forall|i: int| 0 <= i < rest.len() implies (#[trigger] rest[i]) is Skip
            || rest[i] is Replay by {
            assert(rest[i] == slots[i]);
        }
        lemma_nothing_written(rest);
    }
}

proof fn lemma_all_written(slots: Seq<Slot>, entries: Seq<EntryText>)
    requires
        slots.len() == entries.len(),
        forall|i: int|
            0 <= i < slots.len() ==> match #[trigger] slots[i] {
                Slot::Passthrough { bytes, .. } => bytes == entries[i].bytes,
                Slot::Capture(capture) => capture.bytes == entries[i].bytes,
                _ => false,
            },
    ensures
        slot_writes(slots) == entries.map_values(|entry: EntryText| entry.bytes),
    decreases slots.len(),
{
    let texts = entries.map_values(|entry: EntryText| entry.bytes);
    if slots.len() > 0 {
        let rest = slots.drop_last();
        assert forall|i: int| 0 <= i < rest.len() implies match #[trigger] rest[i] {
            Slot::Passthrough { bytes, .. } => bytes == entries.drop_last()[i].bytes,
            Slot::Capture(capture) => capture.bytes == entries.drop_last()[i].bytes,
            _ => false,
        } by {
            assert(rest[i] == slots[i]);
        }
        lemma_all_written(rest, entries.drop_last());
        assert(slots[slots.len() - 1] == slots.last());
        assert(texts =~= entries.drop_last().map_values(|entry: EntryText| entry.bytes).push(
            entries.last().bytes,
        ));
    } else {
        assert(texts =~= Seq::<Seq<u8>>::empty());
    }
}

/// The cache serves a response that `request` can be answered with.
pub open spec fn can_be_answered(
    session: Session,
    shared: Shared,
    request: Request,
    now: Moment,
) -> bool {
    let cached = shared.cache.served(request.plan(session, shared).unwrap().key, now);
    cached is Some && satisfies(cached.unwrap(), request.kind())
}

/// The capture of an execution.
pub open spec fn execution_capture(
    session: Session,
    shared: Shared,
    request: Request,
) -> CaptureText {
    let plan = request.plan(session, shared).unwrap();
    CaptureText {
        bytes: request.execute.bytes,
        key: plan.key,
        describe_kind: request.kind(),
        protocol_mode: ProtocolMode::Extended,
        query: request.query(session),
        ttl: plan.ttl,
    }
}

/// The answer to an execution with `response`.
pub open spec fn execution_replay(
    session: Session,
    shared: Shared,
    request: Request,
    response: ResponseBytes,
) -> ReplayText {
    ReplayText {
        key: request.plan(session, shared).unwrap().key,
        data: response,
        describe_kind: request.kind(),
        protocol_mode: ProtocolMode::Extended,
        query: request.query(session),
    }
}

proof fn lemma_slots(session: Session, ready: Session, request: Request, slot: Slot, answered: bool)
    requires
        request.readable(),
        ready.scratch.entries == request.entries(),
        ready.scratch.describes.contains_key(request.execute_text.portal) <==> request.describe
            is Some,
        request.describe is Some ==> ready.scratch.describes[request.execute_text.portal].0
            == request.describe_at(),
    ensures
        ({
            let entries = request.entries();
            let slots = with_execution(
                Seq::new(entries.len(), |i: int| None::<Slot>),
                ready,
                request.execute_text.portal,
                chain(session, request),
                (entries.len() - 1) as usize,
                slot,
                answered,
            );
            &&& slots.len() == entries.len()
            &&& forall|i: int|
                0 <= i < entries.len() ==> #[trigger] slots[i] == Some(
                    if i == entries.len() - 1 {
                        slot
                    } else if answered {
                        Slot::Skip { bytes: entries[i].bytes, kind: entries[i].kind }
                    } else {
                        Slot::Passthrough { bytes: entries[i].bytes, kind: entries[i].kind }
                    },
                )
        }),
{
    let entries = request.entries();
    assert(entries[request.bind_at() as int] == request.bind);
    if let Some(parse) = request.parse {
        assert(entries[0] == parse.0);
    }
    if let Some(describe) = request.describe {
        assert(entries[request.describe_at() as int] == describe.0);
    }
}

proof fn lemma_executed(session: Session, shared: Shared, request: Request, now: Moment)
    requires
        asks_for(session, request),
        request.plan(session, shared) is Some,
    ensures
        ({
            let plan = request.plan(session, shared).unwrap();
            let entries = request.entries();
            let answered = can_be_answered(session, shared, request, now);
            let slot = if answered {
                Slot::Replay(
                    execution_replay(
                        session,
                        shared,
                        request,
                        shared.cache.served(plan.key, now).unwrap(),
                    ),
                )
            } else {
                Slot::Capture(execution_capture(session, shared, request))
            };
            let ready = ready_session(session, shared, request);
            let after = Progress {
                session: ready,
                shared: after_lookup(shared, plan.key, now),
                slots: with_execution(
                    Seq::new(entries.len(), |i: int| None::<Slot>),
                    ready,
                    request.execute_text.portal,
                    chain(session, request),
                    (entries.len() - 1) as usize,
                    slot,
                    answered,
                ),
            };
            at_sync(session, shared, now) == (after, None::<Seq<char>>)
        }),
{
    lemma_ready(session, shared, request, now);
    lemma_ready_session(session, shared, request);
    let entries = request.entries();
    let index = (entries.len() - 1) as usize;
    let before = undecided(ready_session(session, shared, request), shared, entries.len());
    let after = after_execute(before, index, request.execute_text, now);
    assert(entries[index as int] == request.execute);
    assert(after_entry(before, index, now) == Ok::<Progress, Seq<char>>(after));
    assert(at_sync(session, shared, now) == (after, None::<Seq<char>>));
}

/// An execution that is to be cached is asked for without a row limit. Where the cache serves a
/// response for it that holds the description asked for, it is answered with that, and nothing but
/// the Sync goes to the database; else all its messages go there and the response is captured under
/// the same key.
pub proof fn law_execution_is_answered_or_captured(
    session: Session,
    shared: Shared,
    request: Request,
    now: Moment,
)
    requires
        asks_for(session, request),
        request.plan(session, shared) is Some,
    ensures
        ({
            let plan = request.plan(session, shared).unwrap();
            let (progress, error) = at_sync(session, shared, now);
            let slots = final_slots(session.scratch.entries, progress.slots);
            let writes = cycle_writes(CycleText { slots, synthesize_sync: true });
            &&& error is None
            &&& progress.shared == (Shared {
                cache: shared.cache.after_get(plan.key, now),
                ..shared
            })
            &&& if can_be_answered(session, shared, request, now) {
                let response = shared.cache.served(plan.key, now).unwrap();
                &&& slots == answered_slots(
                    request.entries(),
                    execution_replay(session, shared, request, response),
                )
                &&& writes == seq![sync_message()]
            } else {
                &&& slots == captured_slots(
                    request.entries(),
                    execution_capture(session, shared, request),
                )
                &&& writes == request.entries().map_values(|entry: EntryText| entry.bytes).push(
                    sync_message(),
                )
            }
        }),
{
    lemma_executed(session, shared, request, now);
    lemma_ready_session(session, shared, request);
    let plan = request.plan(session, shared).unwrap();
    let entries = request.entries();
    let ready = ready_session(session, shared, request);
    let after = at_sync(session, shared, now).0;
    let slots = final_slots(session.scratch.entries, after.slots);
    if can_be_answered(session, shared, request, now) {
        let response = shared.cache.served(plan.key, now).unwrap();
        let replay = execution_replay(session, shared, request, response);
        lemma_slots(session, ready, request, Slot::Replay(replay), true);
        assert(slots =~= answered_slots(entries, replay));
        lemma_nothing_written(slots);
        assert(slot_writes(slots).push(sync_message()) =~= seq![sync_message()]);
    } else {
        let capture = execution_capture(session, shared, request);
        lemma_slots(session, ready, request, Slot::Capture(capture), false);
        assert(slots =~= captured_slots(entries, capture));
        lemma_all_written(slots, entries);
    }
}

/// The response to an execution that is cached: its rows and its completions up to the last one,
/// with the descriptions that were asked for.
pub open spec fn execution_response(
    session: Session,
    shared: Shared,
    request: Request,
    reply: Reply,
) -> ResponseBytes {
    response_of(execution_capture(session, shared, request), reply.whole(ProtocolMode::Extended))
}

/// A response that was captured with the description `captured` holds what one is answered with
/// that asks for `asked`.
pub open spec fn covers(captured: DescribeKind, asked: DescribeKind) -> bool {
    asked == DescribeKind::Nothing || captured == asked || captured == DescribeKind::Statement
}

/// An execution that is to be cached and cannot be answered is captured. Once its answer is
/// complete, an execution of the same statement with the same parameters, in whatever session and
/// under whatever names, is answered with it, up to its last CommandComplete, until it expires, as
/// long as it asks for no description that the first one did not ask for.
pub proof fn law_second_execution_is_answered_from_the_cache(
    session: Session,
    other_session: Session,
    shared: Shared,
    later_shared: Shared,
    request: Request,
    other: Request,
    reply: Reply,
    rest: Seq<u8>,
    asked: Moment,
    completed: Moment,
    asked_again: Moment,
)
    requires
        shared.cache.valid(),
        asks_for(session, request),
        asks_for(other_session, other),
        other.query(other_session) == request.query(session),
        other.bind_text.values == request.bind_text.values,
        covers(request.kind(), other.kind()),
        request.plan(session, shared) is Some,
        !can_be_answered(session, shared, request, asked),
        reply.valid(),
        ({
            let plan = request.plan(session, shared).unwrap();
            // The response comes in and fits the cache.
            &&& later_shared == (Shared {
                cache: captured(
                    execution_capture(session, shared, request),
                    nothing_yet(),
                    reply.bytes() + rest,
                    at_sync(session, shared, asked).0.shared.cache,
                    completed,
                ).cache,
                ..shared
            })
            &&& accounted_size(plan.key, execution_response(session, shared, request, reply))
                <= shared.cache.shard_of(plan.key).max_size
            &&& !completed.later(plan.ttl as nat).before(asked_again)
        }),
    ensures
        ({
            let (first, error) = at_sync(session, shared, asked);
            let (second, other_error) = at_sync(other_session, later_shared, asked_again);
            let response = execution_response(session, shared, request, reply);
            &&& error is None
            &&& final_slots(session.scratch.entries, first.slots) == captured_slots(
                request.entries(),
                execution_capture(session, shared, request),
            )
            &&& other_error is None
            &&& final_slots(other_session.scratch.entries, second.slots) == answered_slots(
                other.entries(),
                execution_replay(other_session, later_shared, other, response),
            )
        }),
{
    let plan = request.plan(session, shared).unwrap();
    let capture = execution_capture(session, shared, request);
    let cache = at_sync(session, shared, asked).0.shared.cache;
    let response = execution_response(session, shared, request, reply);
    law_execution_is_answered_or_captured(session, shared, request, asked);
    law_operations_keep_order(shared.cache, plan.key, response, completed, asked);
    assert(0 <= home(plan.key, shared.cache.shards.len() as usize) < shared.cache.shards.len());
    assert(cache.shard_of(plan.key).max_size == shared.cache.shard_of(plan.key).max_size);
    law_captured_answer_is_served(capture, reply, rest, cache, completed, asked_again);
    assert(other.plan(other_session, later_shared) == Some(plan));
    assert(response.data.len() > 0);
    law_execution_is_answered_or_captured(other_session, later_shared, other, asked_again);
}

} // verus!
