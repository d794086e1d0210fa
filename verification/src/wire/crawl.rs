//! Walking through a buffer of whole messages.
use vstd::prelude::*;
use vstd::slice::{slice_subrange, slice_to_vec};
use crate::wire::capture_model::{
    COMMAND_COMPLETE_TYPE, DATA_ROW_TYPE, PARAMETER_DESCRIPTION_TYPE, READY_FOR_QUERY_TYPE,
    ROW_DESCRIPTION_TYPE,
};
use crate::wire::messages::{
    bind_content, describe_content, execute_content, joined, parse_content, query_content, Bind,
    BindMessageContent, BindText, Decode, Describe, DescribeMessageContent, DescribeText, Execute,
    ExecuteMessageContent, ExecuteText, Parse, ParseMessageContent, ParseText, Query,
    QueryMessageContent, QueryText,
};
use crate::wire::numbers::{i32_at, read_i32_at};
use crate::wire::plan_model::{
    BIND_TYPE, CLOSE_TYPE, DESCRIBE_TYPE, EXECUTE_TYPE, PARSE_TYPE, QUERY_TYPE, SYNC_TYPE,
    TERMINATE_TYPE,
};
use crate::wire::reader::{
    agrees, long_length_at, out_of_bounds, ByteReader, ByteReaderError, Fault,
};
use crate::wire::types::WireProtocolStates;

verus! {

/// The type byte of a ParseComplete, `1`.
pub const PARSE_COMPLETE_TYPE: u8 = 0x31;

/// The type byte of a BindComplete, `2`.
pub const BIND_COMPLETE_TYPE: u8 = 0x32;

/// The type byte of an authentication message, `R`.
pub const AUTHENTICATION_TYPE: u8 = 0x52;

/// A message of a client, and from where to where it stands.
#[allow(inconsistent_fields)]
pub enum ClientMessageContent {
    ParseComplete { start: usize, end: usize },
    BindComplete { start: usize, end: usize },
    QueryMessage { data: QueryMessageContent, start: usize, end: usize },
    ParseMessage { data: ParseMessageContent, start: usize, end: usize },
    BindMessage { data: BindMessageContent, start: usize, end: usize },
    DescribeMessage { data: DescribeMessageContent, start: usize, end: usize },
    ExecuteMessage { data: ExecuteMessageContent, start: usize, end: usize },
    SyncMessage { start: usize, end: usize },
    CloseMessage,
    TerminateMessage,
    UnknownMessage,
}

/// What a [`ClientMessageContent`] says.
#[allow(inconsistent_fields)]
pub enum ClientText {
    ParseComplete { start: usize, end: usize },
    BindComplete { start: usize, end: usize },
    Query { data: QueryText, start: usize, end: usize },
    Parse { data: ParseText, start: usize, end: usize },
    Bind { data: BindText, start: usize, end: usize },
    Describe { data: DescribeText, start: usize, end: usize },
    Execute { data: ExecuteText, start: usize, end: usize },
    Sync { start: usize, end: usize },
    Close,
    Terminate,
    Unknown,
}

impl View for ClientMessageContent {
    type V = ClientText;

    open spec fn view(&self) -> ClientText {
        match *self {
            ClientMessageContent::ParseComplete { start, end } => ClientText::ParseComplete {
                start,
                end,
            },
            ClientMessageContent::BindComplete { start, end } => ClientText::BindComplete {
                start,
                end,
            },
            ClientMessageContent::QueryMessage { data, start, end } => ClientText::Query {
                data: data@,
                start,
                end,
            },
            ClientMessageContent::ParseMessage { data, start, end } => ClientText::Parse {
                data: data@,
                start,
                end,
            },
            ClientMessageContent::BindMessage { data, start, end } => ClientText::Bind {
                data: data@,
                start,
                end,
            },
            ClientMessageContent::DescribeMessage { data, start, end } => ClientText::Describe {
                data: data@,
                start,
                end,
            },
            ClientMessageContent::ExecuteMessage { data, start, end } => ClientText::Execute {
                data: data@,
                start,
                end,
            },
            ClientMessageContent::SyncMessage { start, end } => ClientText::Sync { start, end },
            ClientMessageContent::CloseMessage => ClientText::Close,
            ClientMessageContent::TerminateMessage => ClientText::Terminate,
            ClientMessageContent::UnknownMessage => ClientText::Unknown,
        }
    }
}

/// A message of the database, and from where to where it stands.
pub enum DBMessageContent {
    ParseComplete { start: usize, end: usize },
    BindComplete { start: usize, end: usize },
    ParameterDescription { data: Vec<u8>, start: usize, end: usize },
    RowDescription { data: Vec<u8>, start: usize, end: usize },
    DataRow { data: Vec<u8>, start: usize, end: usize },
    CommandComplete { start: usize, end: usize },
    ReadyForQuery { data: Vec<u8>, start: usize, end: usize },
    AuthenticationOk { start: usize, end: usize },
    UnknownMessage,
}

/// What a [`DBMessageContent`] says.
pub enum DBText {
    ParseComplete { start: usize, end: usize },
    BindComplete { start: usize, end: usize },
    ParameterDescription { data: Seq<u8>, start: usize, end: usize },
    RowDescription { data: Seq<u8>, start: usize, end: usize },
    DataRow { data: Seq<u8>, start: usize, end: usize },
    CommandComplete { start: usize, end: usize },
    ReadyForQuery { data: Seq<u8>, start: usize, end: usize },
    AuthenticationOk { start: usize, end: usize },
    Unknown,
}

impl View for DBMessageContent {
    type V = DBText;

    open spec fn view(&self) -> DBText {
        match *self {
            DBMessageContent::ParseComplete { start, end } => DBText::ParseComplete { start, end },
            DBMessageContent::BindComplete { start, end } => DBText::BindComplete { start, end },
            DBMessageContent::ParameterDescription { data, start, end } => {
                DBText::ParameterDescription { data: data@, start, end }
            },
            DBMessageContent::RowDescription { data, start, end } => DBText::RowDescription {
                data: data@,
                start,
                end,
            },
            DBMessageContent::DataRow { data, start, end } => DBText::DataRow {
                data: data@,
                start,
                end,
            },
            DBMessageContent::CommandComplete { start, end } => DBText::CommandComplete {
                start,
                end,
            },
            DBMessageContent::ReadyForQuery { data, start, end } => DBText::ReadyForQuery {
                data: data@,
                start,
                end,
            },
            DBMessageContent::AuthenticationOk { start, end } => DBText::AuthenticationOk {
                start,
                end,
            },
            DBMessageContent::UnknownMessage => DBText::Unknown,
        }
    }
}

/// How many of `len` bytes are left at `at`.
pub open spec fn left_at(len: nat, at: int) -> int {
    if at < len {
        len - at
    } else {
        0
    }
}

/// The client's messages of this type are taken apart, so that all of such a message has to be
/// there.
pub open spec fn client_body_is_read(byte: u8) -> bool {
    ||| byte == QUERY_TYPE
    ||| byte == PARSE_TYPE
    ||| byte == BIND_TYPE
    ||| byte == DESCRIBE_TYPE
    ||| byte == EXECUTE_TYPE
}

/// The client's message of the type `byte` that stands from `start` to `end` with `content` as its
/// body.
pub open spec fn client_message(byte: u8, content: Seq<u8>, start: usize, end: usize) -> Result<
    ClientText,
    Fault,
> {
    if byte == QUERY_TYPE {
        match query_content(content) {
            Err(fault) => Err(fault),
            Ok(data) => Ok(ClientText::Query { data, start, end }),
        }
    } else if byte == PARSE_TYPE {
        match parse_content(content) {
            Err(fault) => Err(fault),
            Ok(data) => Ok(ClientText::Parse { data, start, end }),
        }
    } else if byte == BIND_TYPE {
        match bind_content(content) {
            Err(fault) => Err(fault),
            Ok(data) => Ok(ClientText::Bind { data, start, end }),
        }
    } else if byte == DESCRIBE_TYPE {
        match describe_content(content) {
            Err(fault) => Err(fault),
            Ok(data) => Ok(ClientText::Describe { data, start, end }),
        }
    } else if byte == EXECUTE_TYPE {
        match execute_content(content) {
            Err(fault) => Err(fault),
            Ok(data) => Ok(ClientText::Execute { data, start, end }),
        }
    } else if byte == SYNC_TYPE {
        Ok(ClientText::Sync { start, end })
    } else if byte == CLOSE_TYPE {
        Ok(ClientText::Close)
    } else if byte == TERMINATE_TYPE {
        Ok(ClientText::Terminate)
    } else {
        Ok(ClientText::Unknown)
    }
}

/// From `at` on there are messages whose length counts itself at least, and those whose body is
/// read are all there.
pub open spec fn client_crawlable(bytes: Seq<u8>, at: int) -> bool
    decreases left_at(bytes.len(), at),
{
    at >= bytes.len() || match long_length_at(bytes, at + 1) {
        (Err(_), _) => true,
        (Ok(length), next) => {
            let end = next + length - 4;
            &&& length >= 4
            &&& end <= usize::MAX
            &&& client_body_is_read(bytes[at]) ==> end <= bytes.len()
            &&& client_message(bytes[at], bytes.subrange(next, end), at as usize, end as usize)
                is Ok ==> client_crawlable(bytes, end)
        },
    }
}

/// The client's messages from `at` on, and where reading ends.
pub open spec fn client_messages_at(bytes: Seq<u8>, at: int) -> (
    Result<Seq<ClientText>, Fault>,
    int,
)
    decreases left_at(bytes.len(), at),
    when client_crawlable(bytes, at)
{
    if at >= bytes.len() {
        (Ok(Seq::empty()), at)
    } else {
        match long_length_at(bytes, at + 1) {
            (Err(fault), next) => (Err(fault), next),
            (Ok(length), next) => {
                let end = next + length - 4;
                match client_message(
                    bytes[at],
                    bytes.subrange(next, end),
                    at as usize,
                    end as usize,
                ) {
                    Err(fault) => (Err(fault), next),
                    Ok(message) => joined(seq![message], client_messages_at(bytes, end)),
                }
            },
        }
    }
}

/// The database's messages of this type are copied, so that all of such a message has to be there.
pub open spec fn db_message_is_copied(byte: u8) -> bool {
    ||| byte == PARAMETER_DESCRIPTION_TYPE
    ||| byte == ROW_DESCRIPTION_TYPE
    ||| byte == DATA_ROW_TYPE
    ||| byte == READY_FOR_QUERY_TYPE
}

/// The database's message of the type `byte` with the bytes `data` that stands from `start` to
/// `end`.
pub open spec fn db_message(byte: u8, data: Seq<u8>, start: usize, end: usize) -> DBText {
    if byte == PARSE_COMPLETE_TYPE {
        DBText::ParseComplete { start, end }
    } else if byte == BIND_COMPLETE_TYPE {
        DBText::BindComplete { start, end }
    } else if byte == PARAMETER_DESCRIPTION_TYPE {
        DBText::ParameterDescription { data, start, end }
    } else if byte == ROW_DESCRIPTION_TYPE {
        DBText::RowDescription { data, start, end }
    } else if byte == DATA_ROW_TYPE {
        DBText::DataRow { data, start, end }
    } else if byte == COMMAND_COMPLETE_TYPE {
        DBText::CommandComplete { start, end }
    } else if byte == READY_FOR_QUERY_TYPE {
        DBText::ReadyForQuery { data, start, end }
    } else if byte == AUTHENTICATION_TYPE {
        DBText::AuthenticationOk { start, end }
    } else {
        DBText::Unknown
    }
}

/// From `at` on there are messages whose length counts itself at least, and those that are copied
/// are all there.
pub open spec fn db_crawlable(bytes: Seq<u8>, at: int) -> bool
    decreases left_at(bytes.len(), at),
{
    at >= bytes.len() || match long_length_at(bytes, at + 1) {
        (Err(_), _) => true,
        (Ok(length), next) => {
            let end = next + length - 4;
            &&& length >= 4
            &&& end <= usize::MAX
            &&& db_message_is_copied(bytes[at]) ==> end <= bytes.len()
            &&& db_crawlable(bytes, end)
        },
    }
}

/// The database's messages from `at` on, and where reading ends.
pub open spec fn db_messages_at(bytes: Seq<u8>, at: int) -> (Result<Seq<DBText>, Fault>, int)
    decreases left_at(bytes.len(), at),
    when db_crawlable(bytes, at)
{
    if at >= bytes.len() {
        (Ok(Seq::empty()), at)
    } else {
        match long_length_at(bytes, at + 1) {
            (Err(fault), next) => (Err(fault), next),
            (Ok(length), next) => {
                let end = next + length - 4;
                joined(
                    seq![
                        db_message(
                            bytes[at],
                            bytes.subrange(at, end),
                            at as usize,
                            end as usize,
                        ),
                    ],
                    db_messages_at(bytes, end),
                )
            },
        }
    }
}

/// What each of a row of the client's messages says.
pub open spec fn client_list(messages: Seq<ClientMessageContent>) -> Seq<ClientText> {
    messages.map_values(|message: ClientMessageContent| message@)
}

/// What each of a row of the database's messages says.
pub open spec fn db_list(messages: Seq<DBMessageContent>) -> Seq<DBText> {
    messages.map_values(|message: DBMessageContent| message@)
}

/// A 32-bit number as a size: one below zero counts down from the largest size.
pub open spec fn as_size(value: int) -> int {
    if value < 0 {
        value + usize::MAX + 1
    } else {
        value
    }
}

/// The length of the message at `at`, its type byte included. While a connection starts, messages
/// have none.
pub open spec fn total_length_at(bytes: Seq<u8>, at: int, state: WireProtocolStates) -> Result<
    usize,
    Fault,
> {
    if state == WireProtocolStates::ReadyForQuery {
        if at + 5 > bytes.len() {
            Err(out_of_bounds(5))
        } else {
            Ok((1 + as_size(i32_at(bytes, at + 1))) as usize)
        }
    } else {
        if at + 4 > bytes.len() {
            Err(out_of_bounds(4))
        } else {
            Ok(as_size(i32_at(bytes, at)) as usize)
        }
    }
}

fn size_from_i32(value: i32) -> (size: usize)
    ensures
        size == as_size(value as int),
{
    if value < 0 {
        usize::MAX - (-(value as i64 + 1)) as usize
    } else {
        value as usize
    }
}

impl ByteReader {
    /// The length of the message at the cursor, its type byte included.
    pub fn peek_total_message_length(&self, state: WireProtocolStates) -> (result: Result<
        usize,
        ByteReaderError,
    >)
        requires
            state == WireProtocolStates::ReadyForQuery && self.cursor + 5 <= self.buffer.len()
                ==> i32_at(self.buffer@, self.cursor + 1) != -1,
        ensures
            agrees(result, total_length_at(self.buffer@, self.cursor as int, state)),
    {
        let available: usize = if self.cursor <= self.buffer.len() {
            self.buffer.len() - self.cursor
        } else {
            0
        };
        if state == WireProtocolStates::ReadyForQuery {
            if available < 5 {
                return Err(self.get_out_of_bounds_error(5));
            }
            let length: i32 = read_i32_at(&self.buffer, self.cursor + 1);
            Ok(1 + size_from_i32(length))
        } else {
            if available < 4 {
                return Err(self.get_out_of_bounds_error(4));
            }
            let length: i32 = read_i32_at(&self.buffer, self.cursor);
            Ok(size_from_i32(length))
        }
    }

    fn client_message_here(&self, type_byte: u8, end: usize) -> (result: Result<
        ClientMessageContent,
        ByteReaderError,
    >)
        requires
            5 <= self.cursor <= end,
            self.cursor <= self.buffer.len(),
            client_body_is_read(type_byte) ==> end <= self.buffer.len(),
        ensures
            agrees(
                result,
                client_message(
                    type_byte,
                    self.buffer@.subrange(self.cursor as int, end as int),
                    (self.cursor - 5) as usize,
                    end,
                ),
            ),
    {
        let start: usize = self.cursor - 5;
        if type_byte == SYNC_TYPE {
            return Ok(ClientMessageContent::SyncMessage { start, end });
        }
        if type_byte == CLOSE_TYPE {
            return Ok(ClientMessageContent::CloseMessage);
        }
        if type_byte == TERMINATE_TYPE {
            return Ok(ClientMessageContent::TerminateMessage);
        }
        if type_byte != QUERY_TYPE && type_byte != PARSE_TYPE && type_byte != BIND_TYPE && type_byte
            != DESCRIBE_TYPE && type_byte != EXECUTE_TYPE {
            return Ok(ClientMessageContent::UnknownMessage);
        }
        let bytes: Vec<u8> = slice_to_vec(slice_subrange(self.buffer.as_slice(), self.cursor, end));
        if type_byte == QUERY_TYPE {
            let message = Query { bytes };
            match message.decode() {
                Ok(data) => Ok(ClientMessageContent::QueryMessage { data, start, end }),
                Err(error) => Err(error),
            }
        } else if type_byte == PARSE_TYPE {
            let message = Parse { bytes };
            match message.decode() {
                Ok(data) => Ok(ClientMessageContent::ParseMessage { data, start, end }),
                Err(error) => Err(error),
            }
        } else if type_byte == BIND_TYPE {
            let message = Bind { bytes };
            match message.decode() {
                Ok(data) => Ok(ClientMessageContent::BindMessage { data, start, end }),
                Err(error) => Err(error),
            }
        } else if type_byte == DESCRIBE_TYPE {
            let message = Describe { bytes };
            match message.decode() {
                Ok(data) => Ok(ClientMessageContent::DescribeMessage { data, start, end }),
                Err(error) => Err(error),
            }
        } else {
            let message = Execute { bytes };
            match message.decode() {
                Ok(data) => Ok(ClientMessageContent::ExecuteMessage { data, start, end }),
                Err(error) => Err(error),
            }
        }
    }

    /// All messages of a client from the cursor on.
    pub fn crawl_and_find_messages_client(&mut self) -> (result: Result<
        Vec<ClientMessageContent>,
        ByteReaderError,
    >)
        requires
            client_crawlable(old(self).buffer@, old(self).cursor as int),
        ensures
            final(self).buffer == old(self).buffer,
            final(self).cursor == client_messages_at(
                old(self).buffer@,
                old(self).cursor as int,
            ).1,
            match (
                result,
                client_messages_at(old(self).buffer@, old(self).cursor as int).0,
            ) {
                (Ok(messages), Ok(expected)) => client_list(messages@) == expected,
                (Err(error), Err(fault)) => error@ == fault,
                _ => false,
            },
    {
        let mut messages: Vec<ClientMessageContent> = Vec::new();
        let ghost bytes = self.buffer@;
        let ghost goal = client_messages_at(bytes, self.cursor as int);
        proof {
            if let (Ok(all), _) = goal {
                assert(client_list(messages@) + all =~= all);
            }
        }
        while self.cursor < self.buffer.len()
            invariant
                self.buffer == old(self).buffer,
                bytes == self.buffer@,
                goal == client_messages_at(old(self).buffer@, old(self).cursor as int),
                client_crawlable(bytes, self.cursor as int),
                goal == joined(
                    client_list(messages@),
                    client_messages_at(bytes, self.cursor as int),
                ),
            decreases left_at(bytes.len(), self.cursor as int),
        {
            let ghost before = messages@;
            let type_byte: u8 = self.buffer[self.cursor];
            self.cursor = self.cursor + 1;
            let length: usize = match self.read_i32_as_usize() {
                Ok(length) => length,
                Err(error) => return Err(error),
            };
            let end: usize = self.cursor + (length - 4);
            let message: ClientMessageContent = match self.client_message_here(type_byte, end) {
                Ok(message) => message,
                Err(error) => return Err(error),
            };
            messages.push(message);
            self.cursor = end;
            proof {
                if let (Ok(more), _) = client_messages_at(bytes, end as int) {
                    assert(client_list(before) + (seq![message@] + more) =~= client_list(messages@)
                        + more);
                }
            }
        }
        assert(client_list(messages@) + Seq::<ClientText>::empty() =~= client_list(messages@));
        Ok(messages)
    }

    fn db_message_here(&self, type_byte: u8, end: usize) -> (message: DBMessageContent)
        requires
            5 <= self.cursor <= end,
            self.cursor <= self.buffer.len(),
            db_message_is_copied(type_byte) ==> end <= self.buffer.len(),
        ensures
            message@ == db_message(
                type_byte,
                self.buffer@.subrange(self.cursor - 5, end as int),
                (self.cursor - 5) as usize,
                end,
            ),
    {
        let start: usize = self.cursor - 5;
        if type_byte == PARSE_COMPLETE_TYPE {
            return DBMessageContent::ParseComplete { start, end };
        }
        if type_byte == BIND_COMPLETE_TYPE {
            return DBMessageContent::BindComplete { start, end };
        }
        if type_byte == COMMAND_COMPLETE_TYPE {
            return DBMessageContent::CommandComplete { start, end };
        }
        if type_byte == AUTHENTICATION_TYPE {
            return DBMessageContent::AuthenticationOk { start, end };
        }
        if type_byte != PARAMETER_DESCRIPTION_TYPE && type_byte != ROW_DESCRIPTION_TYPE && type_byte
            != DATA_ROW_TYPE && type_byte != READY_FOR_QUERY_TYPE {
            return DBMessageContent::UnknownMessage;
        }
        let data: Vec<u8> = slice_to_vec(slice_subrange(self.buffer.as_slice(), start, end));
        if type_byte == PARAMETER_DESCRIPTION_TYPE {
            DBMessageContent::ParameterDescription { data, start, end }
        } else if type_byte == ROW_DESCRIPTION_TYPE {
            DBMessageContent::RowDescription { data, start, end }
        } else if type_byte == DATA_ROW_TYPE {
            DBMessageContent::DataRow { data, start, end }
        } else {
            DBMessageContent::ReadyForQuery { data, start, end }
        }
    }

    /// All messages of the database from the cursor on.
    pub fn crawl_and_find_messages_db(&mut self) -> (result: Result<
        Vec<DBMessageContent>,
        ByteReaderError,
    >)
        requires
            db_crawlable(old(self).buffer@, old(self).cursor as int),
        ensures
            final(self).buffer == old(self).buffer,
            final(self).cursor == db_messages_at(old(self).buffer@, old(self).cursor as int).1,
            match (result, db_messages_at(old(self).buffer@, old(self).cursor as int).0) {
                (Ok(messages), Ok(expected)) => db_list(messages@) == expected,
                (Err(error), Err(fault)) => error@ == fault,
                _ => false,
            },
    {
        let mut messages: Vec<DBMessageContent> = Vec::new();
        let ghost bytes = self.buffer@;
        let ghost goal = db_messages_at(bytes, self.cursor as int);
        proof {
            if let (Ok(all), _) = goal {
                assert(db_list(messages@) + all =~= all);
            }
        }
        while self.cursor < self.buffer.len()
            invariant
                self.buffer == old(self).buffer,
                bytes == self.buffer@,
                goal == db_messages_at(old(self).buffer@, old(self).cursor as int),
                db_crawlable(bytes, self.cursor as int),
                goal == joined(db_list(messages@), db_messages_at(bytes, self.cursor as int)),
            decreases left_at(bytes.len(), self.cursor as int),
        {
            let ghost before = messages@;
            let type_byte: u8 = self.buffer[self.cursor];
            self.cursor = self.cursor + 1;
            let length: usize = match self.read_i32_as_usize() {
                Ok(length) => length,
                Err(error) => return Err(error),
            };
            let end: usize = self.cursor + (length - 4);
            let message: DBMessageContent = self.db_message_here(type_byte, end);
            messages.push(message);
            self.cursor = end;
            proof {
                if let (Ok(more), _) = db_messages_at(bytes, end as int) {
                    assert(db_list(before) + (seq![message@] + more) =~= db_list(messages@) + more);
                }
            }
        }
        assert(db_list(messages@) + Seq::<DBText>::empty() =~= db_list(messages@));
        Ok(messages)
    }
}

} // verus!
