use pledge::wire::encode::{
    AuthenticationOk, BindComplete, CommandComplete, DataRow, Encode, ErrorResponse,
    ErrorResponseSeverity, ParseComplete, ReadyForQuery, RowDescription,
};
use pledge::wire::message_framer::MessageFramer;
use pledge::wire::types::{ColumnMetadata, SQLCommand};

fn is_one_message(bytes: &[u8]) -> bool {
    let mut framer = MessageFramer::new();
    framer.add_buffer(bytes);
    framer.next_message() == Ok(Some(bytes.to_vec())) && framer.next_message() == Ok(None)
}

#[test]
fn fixed_messages() {
    assert_eq!(AuthenticationOk.encode(), b"R\0\0\0\x08\0\0\0\0");
    assert_eq!(ReadyForQuery { status: b'I' }.encode(), b"Z\0\0\0\x05I");
    assert_eq!(ParseComplete.encode(), b"1\0\0\0\x04");
    assert_eq!(BindComplete.encode(), b"2\0\0\0\x04");
    assert!(is_one_message(&AuthenticationOk.encode()));
    assert!(is_one_message(&ReadyForQuery { status: b'T' }.encode()));
    assert!(is_one_message(&ParseComplete.encode()));
    assert!(is_one_message(&BindComplete.encode()));
}

#[test]
fn row_descriptions() {
    let columns = vec![
        ColumnMetadata {
            name: "id".to_string(),
            table_oid: 0x0102_0304,
            attribute_number: -1,
            type_oid: 23,
            type_len: 4,
        },
        ColumnMetadata {
            name: "ä".to_string(),
            table_oid: 0,
            attribute_number: 2,
            type_oid: 25,
            type_len: -1,
        },
    ];
    let bytes = RowDescription { columns: &columns }.encode();
    let mut expected = b"T\0\0\0\x30\0\x02".to_vec();
    expected.extend_from_slice(b"id\0\x01\x02\x03\x04\xff\xff\0\0\0\x17\0\x04\xff\xff\xff\xff\0\0");
    expected.extend_from_slice(b"\xc3\xa4\0\0\0\0\0\0\x02\0\0\0\x19\xff\xff\xff\xff\xff\xff\0\0");
    assert_eq!(bytes, expected);
    assert!(is_one_message(&bytes));
    assert_eq!(RowDescription { columns: &[] }.encode(), b"T\0\0\0\x06\0\0");
}

#[test]
fn data_rows() {
    let row = vec![Some(b"abc".to_vec()), None, Some(vec![])];
    let bytes = DataRow { row: &row }.encode();
    assert_eq!(
        bytes,
        b"D\0\0\0\x15\0\x03\0\0\0\x03abc\xff\xff\xff\xff\0\0\0\0"
    );
    assert!(is_one_message(&bytes));
}

#[test]
fn command_tags() {
    let tags = [
        (SQLCommand::Insert, "INSERT 0 7"),
        (SQLCommand::Delete, "DELETE 7"),
        (SQLCommand::Update, "UPDATE 7"),
        (SQLCommand::Merge, "MERGE 7"),
        (SQLCommand::Select, "SELECT 7"),
        (SQLCommand::CreateTableAs, "SELECT 7"),
        (SQLCommand::Move, "MOVE 7"),
        (SQLCommand::Fetch, "FETCH 7"),
        (SQLCommand::Copy, "COPY 7"),
    ];
    for (command, tag) in tags.iter() {
        let complete = CommandComplete { rows: 7, command_tag: command };
        assert_eq!(complete.create_command_tag(), *tag);
        let bytes = complete.encode();
        assert_eq!(bytes[0], b'C');
        assert_eq!(&bytes[5..bytes.len() - 1], tag.as_bytes());
        assert_eq!(bytes[bytes.len() - 1], 0);
        assert!(is_one_message(&bytes));
    }
    let complete = CommandComplete { rows: 65535, command_tag: &SQLCommand::Select };
    assert_eq!(complete.encode(), b"C\0\0\0\x11SELECT 65535\0");
}

#[test]
fn error_responses() {
    let severities = [
        (ErrorResponseSeverity::Error, "ERROR"),
        (ErrorResponseSeverity::Fatal, "FATAL"),
        (ErrorResponseSeverity::Panic, "PANIC"),
        (ErrorResponseSeverity::Warning, "WARNING"),
        (ErrorResponseSeverity::Notice, "NOTICE"),
        (ErrorResponseSeverity::Debug, "DEBUG"),
        (ErrorResponseSeverity::Info, "INFO"),
        (ErrorResponseSeverity::Log, "LOG"),
    ];
    for (severity, text) in severities.iter() {
        assert_eq!(severity.to_string(), *text);
        let bytes = ErrorResponse {
            severity: *severity,
            error_message: "no such table".to_string(),
            sql_state_code: "42P01".to_string(),
        }
        .encode();
        let fields = format!("S{}\0V{}\0C42P01\0Mno such table\0\0", text, text);
        let mut expected = vec![b'E'];
        expected.extend_from_slice(&(fields.len() as i32 + 4).to_be_bytes());
        expected.extend_from_slice(fields.as_bytes());
        assert_eq!(bytes, expected);
        assert!(is_one_message(&bytes));
    }
}
