use pledge::wire::crawl::{ClientMessageContent, DBMessageContent};
use pledge::wire::messages::{
    Bind, Close, CloseMessageContentTarget, Decode, Describe, DescribeMessageContentTarget,
    Execute, Parse, Query,
};
use pledge::wire::reader::{ByteReader, ByteReaderError, ByteReaderErrorKind};
use pledge::wire::types::WireProtocolStates;

fn reader(bytes: &[u8]) -> ByteReader {
    ByteReader::new(bytes.to_vec(), 0)
}

fn fault<T>(result: Result<T, ByteReaderError>) -> (ByteReaderErrorKind, String) {
    match result {
        Ok(_) => panic!("an error was expected"),
        Err(error) => (error.kind, error.message),
    }
}

fn end_of_buffer() -> (ByteReaderErrorKind, String) {
    (
        ByteReaderErrorKind::EndOfBuffer,
        "cursor is at end of buffer, no more data to read".to_string(),
    )
}

fn out_of_bounds(needed: usize) -> (ByteReaderErrorKind, String) {
    (
        ByteReaderErrorKind::OutOfBounds,
        format!("taking the required {} bytes exceeds buffer length", needed),
    )
}

#[test]
fn strings_end_at_their_zero_byte() {
    let mut r = reader(b"abc\0\0\xc3\xa4\0rest");
    assert_eq!(r.read_cstring().unwrap(), "abc");
    assert_eq!(r.read_cstring().unwrap(), "");
    assert_eq!(r.read_cstring().unwrap(), "ä");
    assert_eq!(fault(r.read_cstring()), end_of_buffer());
    assert_eq!(r.get_cursor_size(), 12);
    assert_eq!(fault(reader(b"").read_cstring()), end_of_buffer());
}

#[test]
fn strings_are_utf8() {
    let mut r = reader(b"a\xff\0b\0");
    let (kind, message) = fault(r.read_cstring());
    assert_eq!(kind, ByteReaderErrorKind::ParsingString);
    assert_eq!(message, String::from_utf8(b"a\xff".to_vec()).unwrap_err().to_string());
    assert_eq!(r.read_cstring().unwrap(), "b");
}

#[test]
fn numbers_are_big_endian() {
    let mut r = reader(&[1, 2, 0xff, 0xfe, 1, 2, 3, 4, 0xff, 0xff, 0xff, 0x00, 7]);
    assert_eq!(r.read_i16().unwrap(), 0x0102);
    assert_eq!(r.read_i16().unwrap(), -2);
    assert_eq!(r.read_i32().unwrap(), 0x01020304);
    assert_eq!(r.read_i32().unwrap(), -256);
    assert_eq!(fault(r.read_i32()), out_of_bounds(4));
    assert_eq!(fault(r.read_i16()), out_of_bounds(2));
    assert_eq!(r.read_u8().unwrap(), 7);
    assert_eq!(fault(r.read_u8()), end_of_buffer());
    assert_eq!(fault(r.read_i16()), end_of_buffer());
    assert_eq!(fault(r.read_i32()), end_of_buffer());
    for value in [i32::MIN, -1, 0, 1, i32::MAX, 0x1234_5678] {
        assert_eq!(reader(&value.to_be_bytes()).read_i32().unwrap(), value);
    }
    for value in [i16::MIN, -1, 0, 1, i16::MAX, 0x1234] {
        assert_eq!(reader(&value.to_be_bytes()).read_i16().unwrap(), value);
    }
}

#[test]
fn lengths_are_not_negative() {
    assert_eq!(reader(&[0, 5]).read_i16_as_usize().unwrap(), 5);
    assert_eq!(reader(&[0, 1, 0, 0]).read_i32_as_usize().unwrap(), 65536);
    assert_eq!(
        fault(reader(&[0xff, 0xff]).read_i16_as_usize()),
        (
            ByteReaderErrorKind::NegativeLength,
            "length value was negative (i16 → usize conversion failed)".to_string()
        )
    );
    assert_eq!(
        fault(reader(&[0x80, 0, 0, 0]).read_i32_as_usize()),
        (
            ByteReaderErrorKind::NegativeLength,
            "length value was negative (i32 → usize conversion failed)".to_string()
        )
    );
}

#[test]
fn bytes_are_copied() {
    let mut r = reader(b"abcdef");
    assert_eq!(r.read_bytes(2).unwrap(), b"ab");
    assert_eq!(r.read_bytes(0).unwrap(), b"");
    assert_eq!(fault(r.read_bytes(5)), out_of_bounds(5));
    assert_eq!(fault(r.read_bytes(usize::MAX)), out_of_bounds(usize::MAX));
    r.set_cursor(5);
    assert_eq!(r.read_bytes(1).unwrap(), b"f");
    assert_eq!(fault(r.read_bytes(0)), end_of_buffer());
    r.set_buffer(b"0123456789".to_vec());
    assert_eq!(r.read_bytes(1).unwrap(), b"6");
    r.set_cursor(usize::MAX);
    assert_eq!(fault(r.read_bytes(1)), end_of_buffer());
}

#[test]
fn total_length_counts_the_type_byte() {
    let mut r = reader(&[9, 0, 0, 0, 8, 1, 2, 3, 4]);
    assert_eq!(
        r.peek_total_message_length(WireProtocolStates::ReadyForQuery).unwrap(),
        9
    );
    assert_eq!(
        r.peek_total_message_length(WireProtocolStates::WaitingForSSL).unwrap(),
        0x0900_0000
    );
    r.set_cursor(1);
    assert_eq!(
        r.peek_total_message_length(WireProtocolStates::WaitingForStartup).unwrap(),
        8
    );
    r.set_cursor(6);
    assert_eq!(
        fault(r.peek_total_message_length(WireProtocolStates::WaitingForStartup)),
        out_of_bounds(4)
    );
    r.set_cursor(5);
    assert_eq!(
        fault(r.peek_total_message_length(WireProtocolStates::ReadyForQuery)),
        out_of_bounds(5)
    );
    let negative = reader(&[0xff, 0xff, 0xff, 0xfe]);
    assert_eq!(
        negative.peek_total_message_length(WireProtocolStates::WaitingForSSL).unwrap(),
        (-2i32) as usize
    );
}

#[test]
fn queries_are_taken_apart() {
    let query = Query { bytes: b"SELECT 1\0".to_vec() };
    assert_eq!(query.decode().unwrap().query, "SELECT 1");
    assert_eq!(fault(Query { bytes: b"SELECT 1".to_vec() }.decode()), end_of_buffer());
}

#[test]
fn parse_messages_are_taken_apart() {
    let mut bytes = b"stmt\0SELECT $1\0\0\x02".to_vec();
    bytes.extend_from_slice(&23i32.to_be_bytes());
    bytes.extend_from_slice(&(-1i32).to_be_bytes());
    let content = Parse { bytes: bytes.clone() }.decode().unwrap();
    assert_eq!(content.prepared_statement_name, "stmt");
    assert_eq!(content.query, "SELECT $1");
    assert_eq!(content.parameter_data_types, vec![23, -1]);
    bytes.pop();
    assert_eq!(fault(Parse { bytes }.decode()), out_of_bounds(4));
}

fn bind_bytes(length: i32) -> Vec<u8> {
    let mut bytes = b"portal\0stmt\0".to_vec();
    bytes.extend_from_slice(&[0, 1, 0, 1]);
    bytes.extend_from_slice(&[0, 3]);
    bytes.extend_from_slice(&(-1i32).to_be_bytes());
    bytes.extend_from_slice(&length.to_be_bytes());
    bytes.extend_from_slice(b"xy");
    bytes.extend_from_slice(&0i32.to_be_bytes());
    bytes.extend_from_slice(&[0, 2, 0, 0, 0, 1]);
    bytes
}

#[test]
fn bind_messages_are_taken_apart() {
    let content = Bind { bytes: bind_bytes(2) }.decode().unwrap();
    assert_eq!(content.portal_name, "portal");
    assert_eq!(content.source_prepared_statement_name, "stmt");
    assert_eq!(content.parameter_format_codes, vec![1]);
    assert_eq!(
        content.parameter_values,
        vec![None, Some(b"xy".to_vec()), Some(vec![])]
    );
    assert_eq!(content.result_column_format_codes, vec![0, 1]);
}

#[test]
fn bind_refuses_negative_lengths() {
    let (kind, message) = fault(Bind { bytes: bind_bytes(-2) }.decode());
    assert_eq!(kind, ByteReaderErrorKind::NegativeLength);
    assert!(message.starts_with("the only case where this value should be negative is when"));
    assert_eq!(fault(Bind { bytes: bind_bytes(1000) }.decode()), out_of_bounds(1000));
}

#[test]
fn describe_and_close_have_targets() {
    let describe = Describe { bytes: b"Sname\0".to_vec() }.decode().unwrap();
    assert_eq!(describe.target, DescribeMessageContentTarget::PreparedStatement);
    assert_eq!(describe.target.to_string(), "PreparedStatement");
    assert_eq!(describe.name, "name");
    let describe = Describe { bytes: b"P\0".to_vec() }.decode().unwrap();
    assert_eq!(describe.target.to_string(), "Portal");
    let close = Close { bytes: b"P\0".to_vec() }.decode().unwrap();
    assert_eq!(close.target, CloseMessageContentTarget::Portal);
    assert_eq!(close.target.to_string(), "Portal");
    let close = Close { bytes: b"Sx\0".to_vec() }.decode().unwrap();
    assert_eq!(close.target.to_string(), "PreparedStatement");
    let unknown = (
        ByteReaderErrorKind::ProtocolError,
        "target byte must be 'S' or 'P'".to_string(),
    );
    assert_eq!(fault(Describe { bytes: b"Qx\0".to_vec() }.decode()), unknown.clone());
    assert_eq!(fault(Close { bytes: b"Qx\0".to_vec() }.decode()), unknown.clone());
    assert_eq!(fault(DescribeMessageContentTarget::try_from(b's')), unknown.clone());
    assert_eq!(fault(CloseMessageContentTarget::try_from(b'p')), unknown);
    assert_eq!(fault(Describe { bytes: vec![] }.decode()), end_of_buffer());
    assert_eq!(fault(Close { bytes: vec![] }.decode()), end_of_buffer());
}

#[test]
fn execute_messages_are_taken_apart() {
    let content = Execute { bytes: b"portal\0\0\0\0\x05".to_vec() }.decode().unwrap();
    assert_eq!(content.name, "portal");
    assert_eq!(content.rows_to_return_limit, 5);
    assert_eq!(fault(Execute { bytes: b"portal\0".to_vec() }.decode()), end_of_buffer());
}

fn message(kind: u8, body: &[u8]) -> Vec<u8> {
    let mut bytes = vec![kind];
    bytes.extend_from_slice(&(body.len() as i32 + 4).to_be_bytes());
    bytes.extend_from_slice(body);
    bytes
}

#[test]
fn client_buffers_are_walked_through() {
    let bytes = [
        message(b'Q', b"SELECT 1\0"),
        message(b'P', b"\0SELECT 2\0\0\0"),
        message(b'B', b"\0\0\0\0\0\0\0\0"),
        message(b'D', b"P\0"),
        message(b'E', b"\0\0\0\0\0"),
        message(b'C', b"S\0"),
        message(b'S', b""),
        message(b'?', b"x"),
        message(b'X', b""),
    ]
    .concat();
    let mut r = reader(&bytes);
    let messages = r.crawl_and_find_messages_client().unwrap();
    assert_eq!(messages.len(), 9);
    assert!(matches!(
        &messages[0],
        ClientMessageContent::QueryMessage { data, start: 0, end: 14 } if data.query == "SELECT 1"
    ));
    assert!(matches!(
        &messages[1],
        ClientMessageContent::ParseMessage { data, start: 14, end: 31 } if data.query == "SELECT 2"
    ));
    assert!(matches!(&messages[2], ClientMessageContent::BindMessage { start: 31, end: 44, .. }));
    assert!(matches!(&messages[3], ClientMessageContent::DescribeMessage { start: 44, end: 51, .. }));
    assert!(matches!(&messages[4], ClientMessageContent::ExecuteMessage { start: 51, end: 61, .. }));
    assert!(matches!(&messages[5], ClientMessageContent::CloseMessage));
    assert!(matches!(&messages[6], ClientMessageContent::SyncMessage { start: 68, end: 73 }));
    assert!(matches!(&messages[7], ClientMessageContent::UnknownMessage));
    assert!(matches!(&messages[8], ClientMessageContent::TerminateMessage));
    assert_eq!(r.get_cursor_size(), bytes.len());
}

#[test]
fn a_body_that_cannot_be_read_ends_the_walk() {
    let bytes = [message(b'S', b""), message(b'Q', b"SELECT 1")].concat();
    let mut r = reader(&bytes);
    assert_eq!(fault(r.crawl_and_find_messages_client()), end_of_buffer());
    assert_eq!(r.get_cursor_size(), 10);
    let mut r = reader(b"S\0\0\0");
    assert_eq!(fault(r.crawl_and_find_messages_client()), out_of_bounds(4));
    let mut r = reader(b"Z\xff\0\0\0");
    assert_eq!(
        fault(r.crawl_and_find_messages_db()).0,
        ByteReaderErrorKind::NegativeLength
    );
}

#[test]
fn database_buffers_are_walked_through() {
    let row = message(b'D', b"\0\x01\0\0\0\x011");
    let bytes = [
        message(b'1', b""),
        message(b'2', b""),
        message(b't', b"\0\0"),
        message(b'T', b"\0\0"),
        row.clone(),
        message(b'C', b"SELECT 1\0"),
        message(b'R', b"\0\0\0\0"),
        message(b'N', b"notice"),
        message(b'Z', b"I"),
    ]
    .concat();
    let mut r = reader(&bytes);
    let messages = r.crawl_and_find_messages_db().unwrap();
    assert_eq!(messages.len(), 9);
    assert!(matches!(&messages[0], DBMessageContent::ParseComplete { start: 0, end: 5 }));
    assert!(matches!(&messages[1], DBMessageContent::BindComplete { start: 5, end: 10 }));
    assert!(matches!(
        &messages[2],
        DBMessageContent::ParameterDescription { data, start: 10, end: 17 }
            if *data == message(b't', b"\0\0")
    ));
    assert!(matches!(
        &messages[3],
        DBMessageContent::RowDescription { data, .. } if *data == message(b'T', b"\0\0")
    ));
    assert!(matches!(&messages[4], DBMessageContent::DataRow { data, .. } if *data == row));
    assert!(matches!(&messages[5], DBMessageContent::CommandComplete { .. }));
    assert!(matches!(&messages[6], DBMessageContent::AuthenticationOk { .. }));
    assert!(matches!(&messages[7], DBMessageContent::UnknownMessage));
    assert!(matches!(
        &messages[8],
        DBMessageContent::ReadyForQuery { data, .. } if *data == message(b'Z', b"I")
    ));
}
