//! What is written out for a client can be read as what it was written for.
use vstd::prelude::*;
use vstd::utf8::{encode_utf8, is_ascii_chars, is_ascii_chars_encode_utf8};
use crate::text::{decimal, law_decimal_is_read_back};
use crate::wire::capture_model::{
    COMMAND_COMPLETE_TYPE, DATA_ROW_TYPE, READY_FOR_QUERY_TYPE, ROW_DESCRIPTION_TYPE,
};
use crate::wire::crawl::{AUTHENTICATION_TYPE, BIND_COMPLETE_TYPE, PARSE_COMPLETE_TYPE};
use crate::wire::data_phase::until_ready;
use crate::wire::encode::{
    column_bytes, columns_bytes, command_name, error_field, fields_bytes, law_messages_are_frames,
    message_of, AuthenticationOk, BindComplete, CommandComplete, DataRow, Encode, ErrorResponse,
    ErrorResponseSeverity, ParseComplete, ReadyForQuery, RowDescription, CODE_FIELD,
    ERROR_RESPONSE_TYPE, MESSAGE_FIELD, PLAIN_SEVERITY_FIELD, SEVERITY_FIELD,
};
use crate::wire::message_framer::{concatenated, is_frame, lemma_concatenated_push};
use crate::wire::messages::{optional_bytes, value_list, values_at};
use crate::wire::numbers::{i16_bytes, i32_bytes};
use crate::wire::reader::{cstring_at, long_at, short_at, Fault};
use crate::wire::reading_laws::{
    law_numbers_are_read_back, law_text_is_read_back, lemma_values, plain, text_bytes, value_bytes,
    values_bytes, values_fit,
};
use crate::wire::ready_laws::law_ready_with_the_first_ready_for_query;
use crate::wire::types::{ColumnMetadata, SQLCommand};

verus! {

/// A message has its type byte in front and its content behind its length.
pub proof fn law_message_holds_type_and_content(byte: u8, content: Seq<u8>)
    ensures
        message_of(byte, content).len() == content.len() + 5,
        message_of(byte, content)[0] == byte,
        message_of(byte, content).skip(5) == content,
{
    assert(message_of(byte, content).skip(5) =~= content);
}

/// A ReadyForQuery tells that the database is ready, with its status.
pub proof fn law_written_ready_for_query_is_ready(message: ReadyForQuery, rest: Seq<u8>)
    ensures
        is_frame(message.encoding()),
        message.encoding()[0] == READY_FOR_QUERY_TYPE,
        message.encoding().skip(5) == seq![message.status],
        until_ready(message.encoding() + rest) == (true, rest),
{
    let content = seq![message.status];
    law_messages_are_frames(READY_FOR_QUERY_TYPE, content);
    law_message_holds_type_and_content(READY_FOR_QUERY_TYPE, content);
    law_ready_with_the_first_ready_for_query(Seq::empty(), message.encoding(), rest);
    assert(concatenated(Seq::<Seq<u8>>::empty()) + (message.encoding() + rest)
        =~= message.encoding() + rest);
}

/// The messages without content are whole messages of their type; that of a success in
/// authentication holds a zero.
pub proof fn law_plain_messages(
    authenticated: AuthenticationOk,
    parsed: ParseComplete,
    bound: BindComplete,
)
    ensures
        is_frame(authenticated.encoding()),
        authenticated.encoding()[0] == AUTHENTICATION_TYPE,
        long_at(authenticated.encoding(), 5) == (Ok::<i32, Fault>(0i32), 9int),
        authenticated.encoding().len() == 9,
        is_frame(parsed.encoding()),
        parsed.encoding()[0] == PARSE_COMPLETE_TYPE,
        parsed.encoding().len() == 5,
        is_frame(bound.encoding()),
        bound.encoding()[0] == BIND_COMPLETE_TYPE,
        bound.encoding().len() == 5,
{
    law_messages_are_frames(AUTHENTICATION_TYPE, i32_bytes(0));
    law_messages_are_frames(PARSE_COMPLETE_TYPE, Seq::empty());
    law_messages_are_frames(BIND_COMPLETE_TYPE, Seq::empty());
    let head = authenticated.encoding().take(5);
    assert(authenticated.encoding() =~= head + i32_bytes(0) + Seq::<u8>::empty());
    law_numbers_are_read_back(head, 0, 0, Seq::empty());
}

proof fn lemma_values_push(values: Seq<Option<Seq<u8>>>, value: Option<Seq<u8>>)
    ensures
        values_bytes(values.push(value)) == values_bytes(values) + value_bytes(value),
    decreases values.len(),
{
    let all = values.push(value);
    if values.len() == 0 {
        assert(all.skip(1) =~= Seq::<Option<Seq<u8>>>::empty());
        assert(values_bytes(all.skip(1)) =~= Seq::<u8>::empty());
        assert(values_bytes(all) =~= values_bytes(values) + value_bytes(value));
    } else {
        assert(all.skip(1) =~= values.skip(1).push(value));
        lemma_values_push(values.skip(1), value);
        assert(values_bytes(all) =~= values_bytes(values) + value_bytes(value));
    }
}

proof fn lemma_fields(values: Seq<Option<Vec<u8>>>)
    requires
        values_fit(value_list(values)),
    ensures
        fields_bytes(values) == values_bytes(value_list(values)),
    decreases values.len(),
{
    if values.len() > 0 {
        let rest = values.drop_last();
        let list = value_list(rest);
        assert(value_list(values) =~= list.push(optional_bytes(values.last())));
        assert(values_fit(list)) by {
            assert forall|i: int| 0 <= i < list.len() && (#[trigger] list[i]) is Some implies
                list[i]->0.len() <= i32::MAX by {
                assert(list[i] == value_list(values)[i]);
            }
        }
        let last = value_list(values)[values.len() - 1];
        assert(last == optional_bytes(values.last()));
        lemma_fields(rest);
        lemma_values_push(list, optional_bytes(values.last()));
    }
}

/// A row is read back: how many values it has, and each of them in its order, null as null.
pub proof fn law_row_is_read_back(row: DataRow, rest: Seq<u8>)
    requires
        row.row@.len() <= i16::MAX,
        values_fit(value_list(row.row@)),
        fields_bytes(row.row@).len() + 6 <= i32::MAX,
        rest.len() > 0,
    ensures
        is_frame(row.encoding()),
        row.encoding()[0] == DATA_ROW_TYPE,
        short_at(row.encoding(), 5) == (Ok::<i16, Fault>(row.row@.len() as i16), 7int),
        values_at(row.encoding() + rest, 7, row.row@.len()) == (
            Ok::<Seq<Option<Seq<u8>>>, Fault>(value_list(row.row@)),
            row.encoding().len() as int,
        ),
{
    let count = i16_bytes((row.row@.len() as i16) as int);
    let fields = fields_bytes(row.row@);
    let message = row.encoding();
    law_messages_are_frames(DATA_ROW_TYPE, count + fields);
    let head = message.take(5);
    assert(message =~= head + count + fields);
    law_numbers_are_read_back(head, row.row@.len() as i16, 0, fields);
    lemma_fields(row.row@);
    assert(message + rest =~= (head + count) + values_bytes(value_list(row.row@)) + rest);
    lemma_values(head + count, value_list(row.row@), rest);
}

/// A column of a row description is read back: its name, its table, its number there, its type and
/// the size of that, no modifier, and text as its format.
pub proof fn law_column_is_read_back(before: Seq<u8>, column: ColumnMetadata, after: Seq<u8>)
    requires
        plain(column.name@),
    ensures
        ({
            let bytes = before + column_bytes(column) + after;
            let at = (before.len() + encode_utf8(column.name@).len() + 1) as int;
            &&& column_bytes(column).len() == encode_utf8(column.name@).len() + 19
            &&& cstring_at(bytes, before.len() as int) == (
                Ok::<Seq<char>, Fault>(column.name@),
                at,
            )
            &&& long_at(bytes, at).0 == Ok::<i32, Fault>(column.table_oid)
            &&& short_at(bytes, at + 4).0 == Ok::<i16, Fault>(column.attribute_number)
            &&& long_at(bytes, at + 6).0 == Ok::<i32, Fault>(column.type_oid)
            &&& short_at(bytes, at + 10).0 == Ok::<i16, Fault>(column.type_len)
            &&& long_at(bytes, at + 12).0 == Ok::<i32, Fault>(-1i32)
            &&& short_at(bytes, at + 16).0 == Ok::<i16, Fault>(0i16)
        }),
{
    let bytes = before + column_bytes(column) + after;
    let name = text_bytes(column.name@);
    let table = i32_bytes(column.table_oid as int);
    let number = i16_bytes(column.attribute_number as int);
    let oid = i32_bytes(column.type_oid as int);
    let size = i16_bytes(column.type_len as int);
    let modifier = i32_bytes(-1);
    let format = i16_bytes(0);
    let p0 = before + name;
    let p1 = p0 + table;
    let p2 = p1 + number;
    let p3 = p2 + oid;
    let p4 = p3 + size;
    let p5 = p4 + modifier;
    let s5 = after;
    let s4 = format + s5;
    let s3 = modifier + s4;
    let s2 = size + s3;
    let s1 = oid + s2;
    let s0 = number + s1;
    assert(bytes =~= before + name + (table + s0));
    law_text_is_read_back(before, column.name@, table + s0);
    assert(bytes =~= p0 + table + s0);
    law_numbers_are_read_back(p0, 0, column.table_oid, s0);
    assert(bytes =~= p1 + number + s1);
    law_numbers_are_read_back(p1, column.attribute_number, 0, s1);
    assert(bytes =~= p2 + oid + s2);
    law_numbers_are_read_back(p2, 0, column.type_oid, s2);
    assert(bytes =~= p3 + size + s3);
    law_numbers_are_read_back(p3, column.type_len, 0, s3);
    assert(bytes =~= p4 + modifier + s4);
    law_numbers_are_read_back(p4, 0, -1i32, s4);
    assert(bytes =~= p5 + format + s5);
    law_numbers_are_read_back(p5, 0, 0, s5);
}

proof fn lemma_columns(columns: Seq<ColumnMetadata>)
    ensures
        columns_bytes(columns) == concatenated(
            columns.map_values(|column: ColumnMetadata| column_bytes(column)),
        ),
    decreases columns.len(),
{
    let each = |column: ColumnMetadata| column_bytes(column);
    if columns.len() > 0 {
        let rest = columns.drop_last();
        lemma_columns(rest);
        assert(columns.map_values(each) =~= rest.map_values(each).push(
            column_bytes(columns.last()),
        ));
        lemma_concatenated_push(rest.map_values(each), column_bytes(columns.last()));
    }
}

/// A row description says how many columns there are, and describes each of them in their order.
pub proof fn law_row_description_is_read_back(description: RowDescription)
    requires
        description.columns@.len() <= i16::MAX,
        columns_bytes(description.columns@).len() + 6 <= i32::MAX,
    ensures
        is_frame(description.encoding()),
        description.encoding()[0] == ROW_DESCRIPTION_TYPE,
        short_at(description.encoding(), 5) == (
            Ok::<i16, Fault>(description.columns@.len() as i16),
            7int,
        ),
        description.encoding().skip(7) == concatenated(
            description.columns@.map_values(|column: ColumnMetadata| column_bytes(column)),
        ),
{
    let count = i16_bytes((description.columns@.len() as i16) as int);
    let columns = columns_bytes(description.columns@);
    let message = description.encoding();
    law_messages_are_frames(ROW_DESCRIPTION_TYPE, count + columns);
    let head = message.take(5);
    assert(message =~= head + count + columns);
    law_numbers_are_read_back(head, description.columns@.len() as i16, 0, columns);
    lemma_columns(description.columns@);
    assert(message.skip(7) =~= columns);
}

proof fn lemma_plain(text: Seq<char>)
    requires
        forall|i: int| 0 <= i < text.len() ==> 0 < #[trigger] text[i] as int && (text[i] as int) < 128,
    ensures
        plain(text),
{
    assert(is_ascii_chars(text));
    is_ascii_chars_encode_utf8(text);
}

proof fn lemma_command_name(command: SQLCommand)
    ensures
        forall|i: int|
            0 <= i < command_name(command).len() ==> 0 < #[trigger] command_name(command)[i] as int
                && (command_name(command)[i] as int) < 128,
{
    reveal_strlit("INSERT 0 ");
    reveal_strlit("DELETE ");
    reveal_strlit("UPDATE ");
    reveal_strlit("MERGE ");
    reveal_strlit("SELECT ");
    reveal_strlit("MOVE ");
    reveal_strlit("FETCH ");
    reveal_strlit("COPY ");
}

/// The completion of a command is read back as the command's name and its row count in decimal.
pub proof fn law_completion_is_read_back(message: CommandComplete)
    ensures
        is_frame(message.encoding()),
        message.encoding()[0] == COMMAND_COMPLETE_TYPE,
        cstring_at(message.encoding(), 5) == (
            Ok::<Seq<char>, Fault>(
                command_name(*message.command_tag) + decimal(message.rows as nat),
            ),
            message.encoding().len() as int,
        ),
{
    let tag = message.tag();
    lemma_command_name(*message.command_tag);
    law_decimal_is_read_back(message.rows as nat);
    lemma_decimal_len(message.rows as nat);
    assert forall|i: int| 0 <= i < tag.len() implies 0 < #[trigger] tag[i] as int && (tag[i] as int)
        < 128 by {
        let name = command_name(*message.command_tag);
        if i < name.len() {
            assert(tag[i] == name[i]);
        } else {
            assert(tag[i] == decimal(message.rows as nat)[i - name.len()]);
        }
    }
    lemma_plain(tag);
    assert(is_ascii_chars(tag));
    is_ascii_chars_encode_utf8(tag);
    let content = encode_utf8(tag).push(0u8);
    assert(content =~= text_bytes(tag));
    lemma_name_len(*message.command_tag);
    law_messages_are_frames(COMMAND_COMPLETE_TYPE, content);
    let bytes = message.encoding();
    let head = bytes.take(5);
    assert(bytes =~= head + text_bytes(tag) + Seq::<u8>::empty());
    law_text_is_read_back(head, tag, Seq::empty());
}

proof fn lemma_decimal_len(n: nat)
    ensures
        decimal(n).len() <= n + 1,
    decreases n,
{
    if n >= 10 {
        lemma_decimal_len(n / 10);
    }
}

proof fn lemma_name_len(command: SQLCommand)
    ensures
        command_name(command).len() <= 9,
{
    reveal_strlit("INSERT 0 ");
    reveal_strlit("DELETE ");
    reveal_strlit("UPDATE ");
    reveal_strlit("MERGE ");
    reveal_strlit("SELECT ");
    reveal_strlit("MOVE ");
    reveal_strlit("FETCH ");
    reveal_strlit("COPY ");
}

/// An error is read back field by field: its severity twice, its code and its text, each behind its
/// type byte, and a zero byte at the end.
pub proof fn law_error_is_read_back(error: ErrorResponse)
    requires
        plain(error.sql_state_code@),
        plain(error.error_message@),
        error.encoding().len() <= i32::MAX,
    ensures
        is_frame(error.encoding()),
        error.encoding()[0] == ERROR_RESPONSE_TYPE,
        ({
            let bytes = error.encoding();
            let (severity, at_plain) = cstring_at(bytes, 6);
            let (plain_severity, at_code) = cstring_at(bytes, at_plain + 1);
            let (code, at_message) = cstring_at(bytes, at_code + 1);
            let (message, at_end) = cstring_at(bytes, at_message + 1);
            &&& bytes[5] == SEVERITY_FIELD
            &&& severity == Ok::<Seq<char>, Fault>(error.severity.text())
            &&& bytes[at_plain] == PLAIN_SEVERITY_FIELD
            &&& plain_severity == Ok::<Seq<char>, Fault>(error.severity.text())
            &&& bytes[at_code] == CODE_FIELD
            &&& code == Ok::<Seq<char>, Fault>(error.sql_state_code@)
            &&& bytes[at_message] == MESSAGE_FIELD
            &&& message == Ok::<Seq<char>, Fault>(error.error_message@)
            &&& bytes[at_end] == 0
            &&& at_end + 1 == bytes.len()
        }),
{
    lemma_severity(error.severity);
    let bytes = error.encoding();
    let head = bytes.take(5);
    let severity = error_field(SEVERITY_FIELD, error.severity.text());
    let plain_severity = error_field(PLAIN_SEVERITY_FIELD, error.severity.text());
    let code = error_field(CODE_FIELD, error.sql_state_code@);
    let message = error_field(MESSAGE_FIELD, error.error_message@);
    let zero = seq![0u8];
    let content = severity + plain_severity + code + message + zero;
    law_message_holds_type_and_content(ERROR_RESPONSE_TYPE, content);
    law_messages_are_frames(ERROR_RESPONSE_TYPE, content);
    assert(bytes =~= head + content);
    lemma_regrouped(head, severity, plain_severity, code, message, zero);
    let p1 = head + severity;
    let p2 = p1 + plain_severity;
    let p3 = p2 + code;
    lemma_field(
        head,
        SEVERITY_FIELD,
        error.severity.text(),
        plain_severity + code + message + zero,
    );
    lemma_field(p1, PLAIN_SEVERITY_FIELD, error.severity.text(), code + message + zero);
    lemma_field(p2, CODE_FIELD, error.sql_state_code@, message + zero);
    lemma_field(p3, MESSAGE_FIELD, error.error_message@, zero);
    let end = (p3 + message).len() as int;
    assert((p3 + message + zero)[end] == 0);
}

proof fn lemma_severity(severity: ErrorResponseSeverity)
    ensures
        plain(severity.text()),
{
    reveal_strlit("ERROR");
    reveal_strlit("FATAL");
    reveal_strlit("PANIC");
    reveal_strlit("WARNING");
    reveal_strlit("NOTICE");
    reveal_strlit("DEBUG");
    reveal_strlit("INFO");
    reveal_strlit("LOG");
    lemma_plain(severity.text());
}

proof fn lemma_regrouped(
    head: Seq<u8>,
    a: Seq<u8>,
    b: Seq<u8>,
    c: Seq<u8>,
    d: Seq<u8>,
    e: Seq<u8>,
)
    ensures
        head + (a + b + c + d + e) == head + a + (b + c + d + e),
        head + (a + b + c + d + e) == head + a + b + (c + d + e),
        head + (a + b + c + d + e) == head + a + b + c + (d + e),
        head + (a + b + c + d + e) == head + a + b + c + d + e,
{
    assert(head + (a + b + c + d + e) =~= head + a + (b + c + d + e));
    assert(head + (a + b + c + d + e) =~= head + a + b + (c + d + e));
    assert(head + (a + b + c + d + e) =~= head + a + b + c + (d + e));
    assert(head + (a + b + c + d + e) =~= head + a + b + c + d + e);
}

proof fn lemma_field(before: Seq<u8>, byte: u8, text: Seq<char>, after: Seq<u8>)
    requires
        plain(text),
    ensures
        ({
            let bytes = before + error_field(byte, text) + after;
            let at = before.len() as int;
            &&& bytes[at] == byte
            &&& cstring_at(bytes, at + 1) == (
                Ok::<Seq<char>, Fault>(text),
                at + error_field(byte, text).len(),
            )
        }),
{
    let bytes = before + error_field(byte, text) + after;
    assert(bytes =~= (before + seq![byte]) + text_bytes(text) + after);
    law_text_is_read_back(before + seq![byte], text, after);
}

} // verus!
