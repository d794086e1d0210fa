//! Writing messages of the database.
use bytes::BytesMut;
use vstd::prelude::*;
use vstd::slice::slice_to_vec;
use vstd::utf8::encode_utf8;
use crate::text::{decimal, push_decimal};
use crate::wire::byte_buffer::{buffer_limit, buffered, contents, put, put_i16, put_i32, put_u8};
use crate::wire::capture_model::{
    COMMAND_COMPLETE_TYPE, DATA_ROW_TYPE, READY_FOR_QUERY_TYPE, ROW_DESCRIPTION_TYPE,
};
use crate::wire::crawl::{AUTHENTICATION_TYPE, BIND_COMPLETE_TYPE, PARSE_COMPLETE_TYPE};
use crate::wire::message_framer::is_frame;
use crate::wire::messages::optional_bytes;
use crate::wire::numbers::{i16_bytes, i32_at, i32_bytes, law_i32_round_trip};
use crate::wire::types::{ColumnMetadata, SQLCommand};

verus! {

/// The type byte of an ErrorResponse, `E`.
pub const ERROR_RESPONSE_TYPE: u8 = 0x45;

/// The severity of an error, `S`.
pub const SEVERITY_FIELD: u8 = 0x53;

/// The severity of an error, never localized, `V`.
pub const PLAIN_SEVERITY_FIELD: u8 = 0x56;

/// The SQLSTATE code of an error, `C`.
pub const CODE_FIELD: u8 = 0x43;

/// The message of an error, `M`.
pub const MESSAGE_FIELD: u8 = 0x4D;

/// A message with the type byte `byte` and the body `content`, whose length field says `length`.
pub open spec fn message_with_length(byte: u8, length: i32, content: Seq<u8>) -> Seq<u8> {
    seq![byte] + i32_bytes(length as int) + content
}

/// A message with the type byte `byte` and the body `content`.
pub open spec fn message_of(byte: u8, content: Seq<u8>) -> Seq<u8> {
    message_with_length(byte, (content.len() + 4) as i32, content)
}

/// A message of which the body does not exceed what a length field can say is one whole message.
pub proof fn law_messages_are_frames(byte: u8, content: Seq<u8>)
    requires
        content.len() + 4 <= i32::MAX,
    ensures
        is_frame(message_of(byte, content)),
{
    let length = (content.len() + 4) as i32;
    let message = message_of(byte, content);
    law_i32_round_trip(length, seq![byte], content);
    assert(i32_at(message, 1) == length);
    assert(message.take(length + 1) =~= message);
}

/// A message that can be written out.
pub trait Encode {
    /// The message as bytes.
    spec fn encoding(&self) -> Seq<u8>;

    fn encode(&self) -> (bytes: Vec<u8>)
        requires
            self.encoding().len() <= buffer_limit(),
        ensures
            bytes@ == self.encoding(),
    ;
}

/// Writes a message with the type byte `type_byte` and the body `content`.
fn write_message(type_byte: u8, content: &BytesMut) -> (bytes: Vec<u8>)
    requires
        buffered(*content).len() + 5 <= buffer_limit(),
    ensures
        bytes@ == message_of(type_byte, buffered(*content)),
{
    let mut bytes = BytesMut::new();
    put_u8(&mut bytes, type_byte);
    put_i32(&mut bytes, (content.len() + 4) as i32);
    put(&mut bytes, contents(content));
    assert(buffered(bytes) =~= message_of(type_byte, buffered(*content)));
    slice_to_vec(contents(&bytes))
}

pub struct AuthenticationOk;

impl Encode for AuthenticationOk {
    open spec fn encoding(&self) -> Seq<u8> {
        message_of(AUTHENTICATION_TYPE, i32_bytes(0))
    }

    fn encode(&self) -> (bytes: Vec<u8>) {
        let mut bytes = BytesMut::with_capacity(9);
        put_u8(&mut bytes, AUTHENTICATION_TYPE);
        put_i32(&mut bytes, 8);
        put_i32(&mut bytes, 0);
        assert(buffered(bytes) =~= self.encoding());
        slice_to_vec(contents(&bytes))
    }
}

pub struct ReadyForQuery {
    pub status: u8,
}

impl Encode for ReadyForQuery {
    open spec fn encoding(&self) -> Seq<u8> {
        message_of(READY_FOR_QUERY_TYPE, seq![self.status])
    }

    fn encode(&self) -> (bytes: Vec<u8>) {
        let mut bytes = BytesMut::with_capacity(6);
        put_u8(&mut bytes, READY_FOR_QUERY_TYPE);
        put_i32(&mut bytes, 5);
        put_u8(&mut bytes, self.status);
        assert(buffered(bytes) =~= self.encoding());
        slice_to_vec(contents(&bytes))
    }
}

/// How a column stands in a row description: its name, its table, its number there, its type, the
/// size of that, no modifier, text format.
pub open spec fn column_bytes(column: ColumnMetadata) -> Seq<u8> {
    encode_utf8(column.name@) + seq![0u8] + i32_bytes(column.table_oid as int) + i16_bytes(
        column.attribute_number as int,
    ) + i32_bytes(column.type_oid as int) + i16_bytes(column.type_len as int) + i32_bytes(-1)
        + i16_bytes(0)
}

/// How columns stand in a row description.
pub open spec fn columns_bytes(columns: Seq<ColumnMetadata>) -> Seq<u8>
    decreases columns.len(),
{
    if columns.len() == 0 {
        Seq::empty()
    } else {
        columns_bytes(columns.drop_last()) + column_bytes(columns.last())
    }
}

proof fn lemma_columns_grow(columns: Seq<ColumnMetadata>, count: int)
    requires
        0 <= count <= columns.len(),
    ensures
        columns_bytes(columns.take(count)).len() <= columns_bytes(columns).len(),
    decreases columns.len(),
{
    if count < columns.len() {
        lemma_columns_grow(columns.drop_last(), count);
        assert(columns.drop_last().take(count) =~= columns.take(count));
    } else {
        assert(columns.take(count) =~= columns);
    }
}

pub struct RowDescription<'a> {
    pub columns: &'a [ColumnMetadata],
}

impl<'a> Encode for RowDescription<'a> {
    open spec fn encoding(&self) -> Seq<u8> {
        message_of(
            ROW_DESCRIPTION_TYPE,
            i16_bytes((self.columns@.len() as i16) as int) + columns_bytes(self.columns@),
        )
    }

    fn encode(&self) -> (bytes: Vec<u8>) {
        let mut payload = BytesMut::new();
        let mut i: usize = 0;
        let ghost columns = self.columns@;
        assert(buffered(payload) =~= columns_bytes(columns.take(0)));
        while i < self.columns.len()
            invariant
                i <= self.columns.len(),
                columns == self.columns@,
                columns_bytes(columns).len() + 7 <= buffer_limit(),
                buffered(payload) == columns_bytes(columns.take(i as int)),
            decreases self.columns.len() - i,
        {
            let column: &ColumnMetadata = &self.columns[i];
            let ghost before = buffered(payload);
            proof {
                let done = columns.take(i + 1);
                assert(done.drop_last() =~= columns.take(i as int));
                lemma_columns_grow(columns, i + 1);
                assert(columns_bytes(done) == before + column_bytes(*column));
            }
            put(&mut payload, column.name.as_str().as_bytes());
            put_u8(&mut payload, 0);
            put_i32(&mut payload, column.table_oid);
            put_i16(&mut payload, column.attribute_number);
            put_i32(&mut payload, column.type_oid);
            put_i16(&mut payload, column.type_len);
            // The type modifier; -1 stands for none.
            put_i32(&mut payload, -1);
            // The format code; 0 stands for text.
            put_i16(&mut payload, 0);
            assert(buffered(payload) =~= before + column_bytes(*column));
            i = i + 1;
        }
        assert(columns.take(i as int) =~= columns);
        let mut bytes = BytesMut::new();
        put_u8(&mut bytes, ROW_DESCRIPTION_TYPE);
        put_i32(&mut bytes, (payload.len() + 6) as i32);
        put_i16(&mut bytes, self.columns.len() as i16);
        put(&mut bytes, contents(&payload));
        assert(buffered(bytes) =~= self.encoding());
        slice_to_vec(contents(&bytes))
    }
}

/// How a value stands in a row: its length and its bytes, or the length -1 for null.
pub open spec fn field_bytes(value: Option<Seq<u8>>) -> Seq<u8> {
    match value {
        Some(bytes) => i32_bytes((bytes.len() as i32) as int) + bytes,
        None => i32_bytes(-1),
    }
}

/// How values stand in a row.
pub open spec fn fields_bytes(values: Seq<Option<Vec<u8>>>) -> Seq<u8>
    decreases values.len(),
{
    if values.len() == 0 {
        Seq::empty()
    } else {
        fields_bytes(values.drop_last()) + field_bytes(optional_bytes(values.last()))
    }
}

proof fn lemma_fields_grow(values: Seq<Option<Vec<u8>>>, count: int)
    requires
        0 <= count <= values.len(),
    ensures
        fields_bytes(values.take(count)).len() <= fields_bytes(values).len(),
    decreases values.len(),
{
    if count < values.len() {
        lemma_fields_grow(values.drop_last(), count);
        assert(values.drop_last().take(count) =~= values.take(count));
    } else {
        assert(values.take(count) =~= values);
    }
}

/// A row of a result, value by value.
pub struct DataRow<'a> {
    pub row: &'a [Option<Vec<u8>>],
}

impl<'a> Encode for DataRow<'a> {
    open spec fn encoding(&self) -> Seq<u8> {
        message_of(
            DATA_ROW_TYPE,
            i16_bytes((self.row@.len() as i16) as int) + fields_bytes(self.row@),
        )
    }

    fn encode(&self) -> (bytes: Vec<u8>) {
        let mut payload = BytesMut::new();
        let mut i: usize = 0;
        let ghost values = self.row@;
        assert(buffered(payload) =~= fields_bytes(values.take(0)));
        while i < self.row.len()
            invariant
                i <= self.row.len(),
                values == self.row@,
                fields_bytes(values).len() + 7 <= buffer_limit(),
                buffered(payload) == fields_bytes(values.take(i as int)),
            decreases self.row.len() - i,
        {
            let ghost before = buffered(payload);
            proof {
                let done = values.take(i + 1);
                assert(done.drop_last() =~= values.take(i as int));
                lemma_fields_grow(values, i + 1);
                assert(fields_bytes(done) == before + field_bytes(
                    optional_bytes(values[i as int]),
                ));
            }
            match &self.row[i] {
                Some(value) => {
                    put_i32(&mut payload, value.len() as i32);
                    put(&mut payload, value.as_slice());
                },
                None => {
                    put_i32(&mut payload, -1);
                },
            }
            assert(buffered(payload) =~= before + field_bytes(optional_bytes(values[i as int])));
            i = i + 1;
        }
        assert(values.take(i as int) =~= values);
        let mut bytes = BytesMut::new();
        put_u8(&mut bytes, DATA_ROW_TYPE);
        put_i32(&mut bytes, (payload.len() + 6) as i32);
        put_i16(&mut bytes, self.row.len() as i16);
        put(&mut bytes, contents(&payload));
        assert(buffered(bytes) =~= self.encoding());
        slice_to_vec(contents(&bytes))
    }
}

/// How the completion of a command begins, before its row count.
pub open spec fn command_name(command: SQLCommand) -> Seq<char> {
    match command {
        SQLCommand::Insert => "INSERT 0 "@,
        SQLCommand::Delete => "DELETE "@,
        SQLCommand::Update => "UPDATE "@,
        SQLCommand::Merge => "MERGE "@,
        SQLCommand::Select => "SELECT "@,
        SQLCommand::CreateTableAs => "SELECT "@,
        SQLCommand::Move => "MOVE "@,
        SQLCommand::Fetch => "FETCH "@,
        SQLCommand::Copy => "COPY "@,
    }
}

pub struct CommandComplete<'a> {
    pub rows: u16,
    pub command_tag: &'a SQLCommand,
}

impl<'a> CommandComplete<'a> {
    /// The command and its row count.
    pub open spec fn tag(&self) -> Seq<char> {
        command_name(*self.command_tag) + decimal(self.rows as nat)
    }

    pub fn create_command_tag(&self) -> (tag: String)
        ensures
            tag@ == self.tag(),
    {
        let name: &str = match self.command_tag {
            SQLCommand::Insert => "INSERT 0 ",
            SQLCommand::Delete => "DELETE ",
            SQLCommand::Update => "UPDATE ",
            SQLCommand::Merge => "MERGE ",
            SQLCommand::Select => "SELECT ",
            SQLCommand::CreateTableAs => "SELECT ",
            SQLCommand::Move => "MOVE ",
            SQLCommand::Fetch => "FETCH ",
            SQLCommand::Copy => "COPY ",
        };
        let mut tag: String = name.to_string();
        push_decimal(&mut tag, self.rows as u64);
        tag
    }
}

impl<'a> Encode for CommandComplete<'a> {
    open spec fn encoding(&self) -> Seq<u8> {
        message_of(COMMAND_COMPLETE_TYPE, encode_utf8(self.tag()).push(0u8))
    }

    fn encode(&self) -> (bytes: Vec<u8>) {
        let mut payload = BytesMut::new();
        let command_tag: String = self.create_command_tag();
        put(&mut payload, command_tag.as_str().as_bytes());
        put_u8(&mut payload, 0);
        assert(buffered(payload) =~= encode_utf8(self.tag()).push(0u8));
        write_message(COMMAND_COMPLETE_TYPE, &payload)
    }
}

#[derive(Clone, Copy, Debug, PartialEq, Eq, Structural)]
pub enum ErrorResponseSeverity {
    Error,
    Fatal,
    Panic,
    Warning,
    Notice,
    Debug,
    Info,
    Log,
}

impl ErrorResponseSeverity {
    pub open spec fn text(&self) -> Seq<char> {
        match self {
            ErrorResponseSeverity::Error => "ERROR"@,
            ErrorResponseSeverity::Fatal => "FATAL"@,
            ErrorResponseSeverity::Panic => "PANIC"@,
            ErrorResponseSeverity::Warning => "WARNING"@,
            ErrorResponseSeverity::Notice => "NOTICE"@,
            ErrorResponseSeverity::Debug => "DEBUG"@,
            ErrorResponseSeverity::Info => "INFO"@,
            ErrorResponseSeverity::Log => "LOG"@,
        }
    }

    pub fn to_string(&self) -> (text: String)
        ensures
            text@ == self.text(),
    {
        match self {
            ErrorResponseSeverity::Error => "ERROR".to_string(),
            ErrorResponseSeverity::Fatal => "FATAL".to_string(),
            ErrorResponseSeverity::Panic => "PANIC".to_string(),
            ErrorResponseSeverity::Warning => "WARNING".to_string(),
            ErrorResponseSeverity::Notice => "NOTICE".to_string(),
            ErrorResponseSeverity::Debug => "DEBUG".to_string(),
            ErrorResponseSeverity::Info => "INFO".to_string(),
            ErrorResponseSeverity::Log => "LOG".to_string(),
        }
    }
}

pub struct ErrorResponse {
    pub severity: ErrorResponseSeverity,
    pub error_message: String,
    pub sql_state_code: String,
}

/// A field of an error: its type byte, its text, a zero byte.
pub open spec fn error_field(byte: u8, text: Seq<char>) -> Seq<u8> {
    seq![byte] + encode_utf8(text) + seq![0u8]
}

fn put_error_field(buffer: &mut BytesMut, type_byte: u8, text: &str)
    requires
        buffered(*old(buffer)).len() + error_field(type_byte, text@).len() <= buffer_limit(),
    ensures
        buffered(*final(buffer)) == buffered(*old(buffer)) + error_field(type_byte, text@),
{
    put_u8(buffer, type_byte);
    put(buffer, text.as_bytes());
    put_u8(buffer, 0);
    assert(buffered(*buffer) =~= buffered(*old(buffer)) + error_field(type_byte, text@));
}

impl Encode for ErrorResponse {
    open spec fn encoding(&self) -> Seq<u8> {
        message_of(
            ERROR_RESPONSE_TYPE,
            error_field(SEVERITY_FIELD, self.severity.text()) + error_field(
                PLAIN_SEVERITY_FIELD,
                self.severity.text(),
            ) + error_field(CODE_FIELD, self.sql_state_code@) + error_field(
                MESSAGE_FIELD,
                self.error_message@,
            ) + seq![0u8],
        )
    }

    fn encode(&self) -> (bytes: Vec<u8>) {
        let severity: String = self.severity.to_string();
        let mut payload = BytesMut::new();
        put_error_field(&mut payload, SEVERITY_FIELD, severity.as_str());
        put_error_field(&mut payload, PLAIN_SEVERITY_FIELD, severity.as_str());
        put_error_field(&mut payload, CODE_FIELD, self.sql_state_code.as_str());
        put_error_field(&mut payload, MESSAGE_FIELD, self.error_message.as_str());
        put_u8(&mut payload, 0);
        assert(buffered(payload) =~= error_field(SEVERITY_FIELD, self.severity.text())
            + error_field(PLAIN_SEVERITY_FIELD, self.severity.text()) + error_field(
            CODE_FIELD,
            self.sql_state_code@,
        ) + error_field(MESSAGE_FIELD, self.error_message@) + seq![0u8]);
        write_message(ERROR_RESPONSE_TYPE, &payload)
    }
}

pub struct ParseComplete;

impl Encode for ParseComplete {
    open spec fn encoding(&self) -> Seq<u8> {
        message_of(PARSE_COMPLETE_TYPE, Seq::empty())
    }

    fn encode(&self) -> (bytes: Vec<u8>) {
        let mut bytes = BytesMut::new();
        put_u8(&mut bytes, PARSE_COMPLETE_TYPE);
        put_i32(&mut bytes, 4);
        assert(buffered(bytes) =~= self.encoding());
        slice_to_vec(contents(&bytes))
    }
}

pub struct BindComplete;

impl Encode for BindComplete {
    open spec fn encoding(&self) -> Seq<u8> {
        message_of(BIND_COMPLETE_TYPE, Seq::empty())
    }

    fn encode(&self) -> (bytes: Vec<u8>) {
        let mut bytes = BytesMut::new();
        put_u8(&mut bytes, BIND_COMPLETE_TYPE);
        put_i32(&mut bytes, 4);
        assert(buffered(bytes) =~= self.encoding());
        slice_to_vec(contents(&bytes))
    }
}

} // verus!
