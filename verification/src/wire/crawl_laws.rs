//! What walking through a buffer of whole messages finds.
use vstd::prelude::*;
use crate::wire::capture_model::{
    COMMAND_COMPLETE_TYPE, DATA_ROW_TYPE, PARAMETER_DESCRIPTION_TYPE, READY_FOR_QUERY_TYPE,
    ROW_DESCRIPTION_TYPE,
};
use crate::wire::crawl::{
    client_crawlable, client_message, client_messages_at, db_crawlable, db_message, db_messages_at,
    total_length_at, ClientText, DBText, AUTHENTICATION_TYPE, BIND_COMPLETE_TYPE,
    PARSE_COMPLETE_TYPE,
};
use crate::wire::message_framer::{concatenated, is_frame};
use crate::wire::messages::{
    bind_content, describe_content, execute_content, parse_content, query_content, BindText,
    DescribeText, ExecuteText, ParseText, QueryText,
};
use crate::wire::numbers::{i32_at, i32_bytes, law_i32_round_trip};
use crate::wire::plan_model::{
    body, BIND_TYPE, CLOSE_TYPE, DESCRIBE_TYPE, EXECUTE_TYPE, PARSE_TYPE, QUERY_TYPE, SYNC_TYPE,
    TERMINATE_TYPE,
};
use crate::wire::reader::{long_length_at, out_of_bounds, Fault};
use crate::wire::types::WireProtocolStates;

verus! {

/// `text` is what the client's message `message`, from `from` to `to`, says.
#[verifier::opaque]
pub open spec fn client_says(message: Seq<u8>, text: ClientText, from: int, to: int) -> bool {
    let byte = message[0];
    match text {
        ClientText::Query { data, start, end } => {
            &&& byte == QUERY_TYPE
            &&& query_content(body(message)) == Ok::<QueryText, Fault>(data)
            &&& (start, end) == (from as usize, to as usize)
        },
        ClientText::Parse { data, start, end } => {
            &&& byte == PARSE_TYPE
            &&& parse_content(body(message)) == Ok::<ParseText, Fault>(data)
            &&& (start, end) == (from as usize, to as usize)
        },
        ClientText::Bind { data, start, end } => {
            &&& byte == BIND_TYPE
            &&& bind_content(body(message)) == Ok::<BindText, Fault>(data)
            &&& (start, end) == (from as usize, to as usize)
        },
        ClientText::Describe { data, start, end } => {
            &&& byte == DESCRIBE_TYPE
            &&& describe_content(body(message)) == Ok::<DescribeText, Fault>(data)
            &&& (start, end) == (from as usize, to as usize)
        },
        ClientText::Execute { data, start, end } => {
            &&& byte == EXECUTE_TYPE
            &&& execute_content(body(message)) == Ok::<ExecuteText, Fault>(data)
            &&& (start, end) == (from as usize, to as usize)
        },
        ClientText::Sync { start, end } => {
            &&& byte == SYNC_TYPE
            &&& (start, end) == (from as usize, to as usize)
        },
        ClientText::Close => byte == CLOSE_TYPE,
        ClientText::Terminate => byte == TERMINATE_TYPE,
        ClientText::Unknown => {
            &&& byte != QUERY_TYPE
            &&& byte != PARSE_TYPE
            &&& byte != BIND_TYPE
            &&& byte != DESCRIBE_TYPE
            &&& byte != EXECUTE_TYPE
            &&& byte != SYNC_TYPE
            &&& byte != CLOSE_TYPE
            &&& byte != TERMINATE_TYPE
        },
        _ => false,
    }
}

/// The body of a client's message can be read, where it is read.
pub open spec fn client_readable(message: Seq<u8>) -> bool {
    let byte = message[0];
    &&& byte == QUERY_TYPE ==> query_content(body(message)) is Ok
    &&& byte == PARSE_TYPE ==> parse_content(body(message)) is Ok
    &&& byte == BIND_TYPE ==> bind_content(body(message)) is Ok
    &&& byte == DESCRIBE_TYPE ==> describe_content(body(message)) is Ok
    &&& byte == EXECUTE_TYPE ==> execute_content(body(message)) is Ok
}

/// The length of a whole message is read where it stands, and counts all but the type byte.
proof fn lemma_length(before: Seq<u8>, message: Seq<u8>, after: Seq<u8>)
    requires
        is_frame(message),
    ensures
        ({
            let bytes = before + message + after;
            let at = before.len() as int;
            &&& message.len() >= 5
            &&& i32_at(bytes, at + 1) == message.len() - 1
            &&& long_length_at(bytes, at + 1) == (
                Ok::<usize, Fault>((message.len() - 1) as usize),
                at + 5,
            )
            &&& bytes[at] == message[0]
            &&& bytes.subrange(at + 5, (at + message.len()) as int) == body(message)
            &&& bytes.subrange(at, (at + message.len()) as int) == message
        }),
{
    let bytes = before + message + after;
    let at = before.len() as int;
    let length = i32_at(message, 1);
    assert(message.take(length + 1).len() == message.len());
    assert(bytes[at + 1] == message[1]);
    assert(bytes[at + 2] == message[2]);
    assert(bytes[at + 3] == message[3]);
    assert(bytes[at + 4] == message[4]);
    assert(i32_at(bytes, at + 1) == length);
    assert(bytes.subrange(at + 5, (at + message.len()) as int) =~= body(message));
    assert(bytes.subrange(at, (at + message.len()) as int) =~= message);
}

proof fn lemma_client_head(message: Seq<u8>, from: int, to: int)
    requires
        client_readable(message),
    ensures
        ({
            let head = client_message(message[0], body(message), from as usize, to as usize);
            head is Ok && client_says(message, head->Ok_0, from, to)
        }),
{
    reveal(client_says);
}

proof fn lemma_client_step(before: Seq<u8>, message: Seq<u8>, after: Seq<u8>)
    requires
        (before + message + after).len() <= usize::MAX,
        is_frame(message),
        client_readable(message),
        client_crawlable(before + message + after, (before.len() + message.len()) as int),
        client_messages_at(
            before + message + after,
            (before.len() + message.len()) as int,
        ).0 is Ok,
    ensures
        ({
            let bytes = before + message + after;
            let at = before.len() as int;
            let end = (at + message.len()) as int;
            let head = client_message(message[0], body(message), at as usize, end as usize);
            let (rest, last) = client_messages_at(bytes, end);
            &&& client_crawlable(bytes, at)
            &&& client_messages_at(bytes, at) == (
                Ok::<Seq<ClientText>, Fault>(seq![head->Ok_0] + rest->Ok_0),
                last,
            )
        }),
{
    let bytes = before + message + after;
    let at = before.len() as int;
    lemma_length(before, message, after);
    lemma_client_head(message, at, (at + message.len()) as int);
    let (length, next) = long_length_at(bytes, at + 1);
    assert(next + length->Ok_0 - 4 == at + message.len());
    assert(client_crawlable(bytes, at));
}

/// `found` are the client's messages `messages`, which stand one behind the other from `from` on.
pub open spec fn all_client_found(
    messages: Seq<Seq<u8>>,
    found: Seq<ClientText>,
    from: int,
) -> bool {
    &&& found.len() == messages.len()
    &&& forall|i: int|
        0 <= i < messages.len() ==> client_says(
            messages[i],
            #[trigger] found[i],
            from + concatenated(messages.take(i)).len(),
            from + concatenated(messages.take(i)).len() + messages[i].len(),
        )
}

proof fn lemma_one_more_found(
    messages: Seq<Seq<u8>>,
    head: ClientText,
    rest: Seq<ClientText>,
    from: int,
)
    requires
        messages.len() > 0,
        client_says(messages[0], head, from, from + messages[0].len()),
        all_client_found(messages.skip(1), rest, from + messages[0].len()),
    ensures
        all_client_found(messages, seq![head] + rest, from),
{
    let more = messages.skip(1);
    let found = seq![head] + rest;
    assert forall|i: int| 0 <= i < messages.len() implies client_says(
        messages[i],
        #[trigger] found[i],
        from + concatenated(messages.take(i)).len(),
        from + concatenated(messages.take(i)).len() + messages[i].len(),
    ) by {
        if i == 0 {
            assert(messages.take(0) =~= Seq::<Seq<u8>>::empty());
        } else {
            assert(messages.take(i).skip(1) =~= more.take(i - 1));
            assert(messages.take(i)[0] == messages[0]);
            assert(found[i] == rest[i - 1]);
            assert(messages[i] == more[i - 1]);
        }
    }
}

/// Walking through a buffer of a client's whole messages finds each of them, in their order, with
/// what it says and where it stands, and ends behind the last.
pub proof fn law_every_client_message_is_found(before: Seq<u8>, messages: Seq<Seq<u8>>)
    requires
        (before + concatenated(messages)).len() <= usize::MAX,
        forall|i: int|
            0 <= i < messages.len() ==> is_frame(#[trigger] messages[i]) && client_readable(
                messages[i],
            ),
    ensures
        ({
            let bytes = before + concatenated(messages);
            let (found, end) = client_messages_at(bytes, before.len() as int);
            &&& client_crawlable(bytes, before.len() as int)
            &&& end == bytes.len()
            &&& found is Ok
            &&& all_client_found(messages, found->Ok_0, before.len() as int)
        }),
    decreases messages.len(),
{
    let bytes = before + concatenated(messages);
    let at = before.len() as int;
    if messages.len() == 0 {
        assert(bytes.len() == at);
        assert(client_crawlable(bytes, at));
    } else {
        let message = messages[0];
        let more = messages.skip(1);
        assert(bytes =~= before + message + concatenated(more));
        assert forall|i: int| 0 <= i < more.len() implies is_frame(#[trigger] more[i])
            && client_readable(more[i]) by {
            assert(more[i] == messages[i + 1]);
        }
        law_every_client_message_is_found(before + message, more);
        let end = (at + message.len()) as int;
        let rest = client_messages_at(bytes, end).0->Ok_0;
        assert(all_client_found(more, rest, end));
        lemma_client_step(before, message, concatenated(more));
        lemma_client_head(message, at, end);
        let head = client_message(message[0], body(message), at as usize, end as usize)->Ok_0;
        lemma_one_more_found(messages, head, rest, at);
    }
}

/// `text` is what the database's message `message`, from `from` to `to`, says.
pub open spec fn db_says(message: Seq<u8>, text: DBText, from: int, to: int) -> bool {
    let byte = message[0];
    let place = (from as usize, to as usize);
    match text {
        DBText::ParseComplete { start, end } => byte == PARSE_COMPLETE_TYPE && (start, end) == place,
        DBText::BindComplete { start, end } => byte == BIND_COMPLETE_TYPE && (start, end) == place,
        DBText::ParameterDescription { data, start, end } => {
            byte == PARAMETER_DESCRIPTION_TYPE && data == message && (start, end) == place
        },
        DBText::RowDescription { data, start, end } => {
            byte == ROW_DESCRIPTION_TYPE && data == message && (start, end) == place
        },
        DBText::DataRow { data, start, end } => {
            byte == DATA_ROW_TYPE && data == message && (start, end) == place
        },
        DBText::CommandComplete { start, end } => {
            byte == COMMAND_COMPLETE_TYPE && (start, end) == place
        },
        DBText::ReadyForQuery { data, start, end } => {
            byte == READY_FOR_QUERY_TYPE && data == message && (start, end) == place
        },
        DBText::AuthenticationOk { start, end } => {
            byte == AUTHENTICATION_TYPE && (start, end) == place
        },
        DBText::Unknown => {
            &&& byte != PARSE_COMPLETE_TYPE
            &&& byte != BIND_COMPLETE_TYPE
            &&& byte != PARAMETER_DESCRIPTION_TYPE
            &&& byte != ROW_DESCRIPTION_TYPE
            &&& byte != DATA_ROW_TYPE
            &&& byte != COMMAND_COMPLETE_TYPE
            &&& byte != READY_FOR_QUERY_TYPE
            &&& byte != AUTHENTICATION_TYPE
        },
    }
}

/// Walking through a buffer of the database's whole messages finds each of them, in their order,
/// with its bytes where they are kept and where it stands, and ends behind the last.
pub proof fn law_every_db_message_is_found(before: Seq<u8>, messages: Seq<Seq<u8>>)
    requires
        (before + concatenated(messages)).len() <= usize::MAX,
        forall|i: int| 0 <= i < messages.len() ==> is_frame(#[trigger] messages[i]),
    ensures
        ({
            let bytes = before + concatenated(messages);
            let (found, end) = db_messages_at(bytes, before.len() as int);
            &&& db_crawlable(bytes, before.len() as int)
            &&& end == bytes.len()
            &&& found is Ok
            &&& found->Ok_0.len() == messages.len()
            &&& forall|i: int|
                0 <= i < messages.len() ==> db_says(
                    messages[i],
                    #[trigger] found->Ok_0[i],
                    (before.len() + concatenated(messages.take(i)).len()) as int,
                    (before.len() + concatenated(messages.take(i)).len() + messages[i].len())
                        as int,
                )
        }),
    decreases messages.len(),
{
    let bytes = before + concatenated(messages);
    let at = before.len() as int;
    if messages.len() > 0 {
        let message = messages[0];
        let more = messages.skip(1);
        let next = before + message;
        assert(bytes =~= next + concatenated(more));
        lemma_length(before, message, concatenated(more));
        assert forall|i: int| 0 <= i < more.len() implies is_frame(#[trigger] more[i]) by {
            assert(more[i] == messages[i + 1]);
        }
        law_every_db_message_is_found(next, more);
        let end = at + message.len();
        let head = db_message(message[0], message, at as usize, end as usize);
        let rest = db_messages_at(bytes, end as int).0->Ok_0;
        let found = db_messages_at(bytes, at).0->Ok_0;
        assert(found == seq![head] + rest);
        assert forall|i: int| 0 <= i < messages.len() implies db_says(
            messages[i],
            #[trigger] found[i],
            (before.len() + concatenated(messages.take(i)).len()) as int,
            (before.len() + concatenated(messages.take(i)).len() + messages[i].len()) as int,
        ) by {
            if i == 0 {
                assert(messages.take(0) =~= Seq::<Seq<u8>>::empty());
            } else {
                assert(messages.take(i).skip(1) =~= more.take(i - 1));
                assert(messages.take(i)[0] == message);
                assert(found[i] == rest[i - 1]);
                assert(messages[i] == more[i - 1]);
            }
        }
    }
}

/// Once queries are taken, the length of a message is that of all its bytes. While a connection
/// starts, messages have no type byte and say their own length; one below zero counts down from the
/// largest size.
pub proof fn law_total_length(
    before: Seq<u8>,
    message: Seq<u8>,
    after: Seq<u8>,
    length: i32,
    state: WireProtocolStates,
)
    requires
        is_frame(message),
        message.len() <= usize::MAX,
    ensures
        total_length_at(
            before + message + after,
            before.len() as int,
            WireProtocolStates::ReadyForQuery,
        ) == Ok::<usize, Fault>(message.len() as usize),
        state != WireProtocolStates::ReadyForQuery ==> total_length_at(
            before + i32_bytes(length as int) + after,
            before.len() as int,
            state,
        ) == Ok::<usize, Fault>(
            (if length < 0 {
                usize::MAX + 1 + length
            } else {
                length as int
            }) as usize,
        ),
        after.len() < 5 ==> total_length_at(
            before + after,
            before.len() as int,
            WireProtocolStates::ReadyForQuery,
        ) == Err::<usize, Fault>(out_of_bounds(5)),
        after.len() < 4 && state != WireProtocolStates::ReadyForQuery ==> total_length_at(
            before + after,
            before.len() as int,
            state,
        ) == Err::<usize, Fault>(out_of_bounds(4)),
{
    lemma_length(before, message, after);
    law_i32_round_trip(length, before, after);
}

} // verus!
