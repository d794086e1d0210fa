use pledge::wire::message_framer::MessageFramer;
use pledge::wire::types::{
    BufferState, ReplayTrim, ReplayTrimExtended, ReplayTrimSimple, Scratch, WireErrorKind,
};
use pledge::wire::writer::ByteWriter;

fn message(kind: u8, body: &[u8]) -> Vec<u8> {
    let mut bytes = vec![kind];
    bytes.extend_from_slice(&(body.len() as i32 + 4).to_be_bytes());
    bytes.extend_from_slice(body);
    bytes
}

fn all(framer: &mut MessageFramer) -> Vec<Vec<u8>> {
    let mut messages = Vec::new();
    while let Ok(Some(message)) = framer.next_message() {
        messages.push(message);
    }
    messages
}

#[test]
fn messages_come_out_as_they_came_in() {
    let sent = vec![message(b'Q', b"SELECT 1\0"), message(b'S', b""), message(b'X', b"abc")];
    let mut framer = MessageFramer::new();
    framer.add_buffer(&sent.concat());
    assert_eq!(all(&mut framer), sent);
    assert_eq!(framer.next_message(), Ok(None));
}

#[test]
fn pieces_do_not_matter() {
    let sent: Vec<Vec<u8>> = (0..40).map(|i| message(b'D', &vec![i; i as usize * 20])).collect();
    let bytes = sent.concat();
    for size in [1, 3, 7, 64, 10_000] {
        let mut framer = MessageFramer::new();
        let mut received = Vec::new();
        for piece in bytes.chunks(size) {
            framer.add_buffer(piece);
            received.extend(all(&mut framer));
        }
        assert_eq!(received, sent);
    }
}

#[test]
fn consumed_bytes_are_given_up() {
    let mut framer = MessageFramer::new();
    let large = message(b'D', &[9; 20_000]);
    framer.add_buffer(&large);
    framer.add_buffer(&message(b'Z', b"I")[..3]);
    assert_eq!(framer.next_message(), Ok(Some(large)));
    assert_eq!(framer.next_message(), Ok(None));
    assert_eq!(framer.buffer.len(), 3);
    framer.add_buffer(&message(b'Z', b"I")[3..]);
    assert_eq!(framer.next_message(), Ok(Some(message(b'Z', b"I"))));
    assert_eq!(framer.next_message(), Ok(None));
    assert_eq!(framer.buffer.len(), 0);
}

#[test]
fn impossible_lengths_are_reported() {
    let mut framer = MessageFramer::new();
    framer.set_buffer(vec![b'Q', 0xff, 0xff, 0xff, 0xff]);
    assert_eq!(framer.next_message(), Err("couldn't parse i32 to usize".to_string()));
    framer.set_buffer(vec![b'Q', 0, 0, 0, 3]);
    assert_eq!(
        framer.next_message(),
        Err("length below protocol minimum, stream desynced".to_string())
    );
    assert_eq!(framer.buffer.len() - framer.cursor, 5);
    framer.set_buffer(vec![b'Q', 0, 0, 0]);
    assert_eq!(framer.next_message(), Ok(None));
    framer.set_buffer(vec![b'Q', 0, 0, 0, 4]);
    assert_eq!(framer.next_message(), Ok(Some(vec![b'Q', 0, 0, 0, 4])));
}

fn buffer(bytes: &[u8], read_cursor: usize, write_cursor: usize) -> BufferState {
    BufferState {
        buffer: bytes.to_vec(),
        read_cursor,
        write_cursor,
    }
}

#[test]
fn compacting_keeps_what_is_pending() {
    let mut state = buffer(b"abcdefgh", 3, 7);
    state.compact();
    assert_eq!(state.pending_data(), b"defg");
    assert_eq!((state.read_cursor, state.write_cursor, state.buffer.len()), (0, 4, 8));
    assert_eq!(state.buffer, b"defgefgh");
    state.compact();
    assert_eq!(state.pending_data(), b"defg");
    assert_eq!((state.read_cursor, state.write_cursor), (0, 4));
    assert_eq!(state.buffer, b"defgefgh");
}

#[test]
fn consuming_takes_from_the_front() {
    let mut state = buffer(b"abcdefgh", 1, 6);
    assert_eq!(state.pending_data_len(), 5);
    assert!(!state.is_empty());
    assert!(state.consume(&2).is_ok());
    assert_eq!(state.pending_data(), b"def");
    let error = state.consume(&4).unwrap_err();
    assert_eq!(error.kind, WireErrorKind::InvalidData);
    assert_eq!(error.message, "consume: n is larger than pending data");
    assert_eq!(state.pending_data(), b"def");
    assert!(state.consume(&usize::MAX).is_err());
    assert!(state.consume(&3).is_ok());
    assert!(state.is_empty());
}

#[test]
fn reading_finds_room() {
    let mut state = BufferState::with_size(16);
    state.prepare_read();
    assert_eq!((state.read_cursor, state.write_cursor, state.buffer.len()), (0, 0, 16));
    state.buffer[..14].copy_from_slice(b"abcdefghijklmn");
    state.commit_read(14);
    assert_eq!(state.pending_data(), b"abcdefghijklmn");
    state.consume(&4).unwrap();
    // Two of sixteen bytes are free: what is pending moves to the front.
    state.prepare_read();
    assert_eq!((state.read_cursor, state.write_cursor, state.buffer.len()), (0, 10, 16));
    assert_eq!(state.pending_data(), b"efghijklmn");
    state.buffer[10..].copy_from_slice(b"opqrst");
    state.commit_read(6);
    // Nothing is free, and nothing is consumed: the buffer doubles.
    state.prepare_read();
    assert_eq!((state.read_cursor, state.write_cursor, state.buffer.len()), (0, 16, 32));
    assert_eq!(state.pending_data(), b"efghijklmnopqrst");
}

#[test]
fn trimming_cuts_the_sections_out() {
    let mut state = buffer(b"..0123456789", 2, 12);
    let mut extended = ReplayTrimExtended::new();
    assert_eq!(extended.execute, 0..0);
    extended.parse = Some(1..2);
    extended.bind = Some(3..5);
    extended.execute = 6..7;
    extended.sync = Some(9..10);
    let trims = [ReplayTrim::Extended(extended)];
    assert_eq!(state.pending_data_excluding(&trims), Some(b"02578".to_vec()));
    assert_eq!(state.pending_data(), b"0123456789");
    assert_eq!(state.pending_data_excluding(&[]), Some(b"0123456789".to_vec()));
    let everything = [ReplayTrim::Simple(ReplayTrimSimple { query: 0..10 })];
    assert_eq!(state.pending_data_excluding(&everything), None);
}

#[test]
fn sections_out_of_reach_are_left_alone() {
    let mut bytes = b"0123456789".to_vec();
    let mut writer = ByteWriter::new(&mut bytes, 0);
    assert_eq!(writer.drain_section(&(2..4), 0), 2);
    assert_eq!(writer.get_buffer(), b"01456789");
    // It lies where bytes are gone already.
    assert_eq!(writer.drain_section(&(1..3), 2), 2);
    // It reaches beyond the end.
    assert_eq!(writer.drain_section(&(9..11), 2), 2);
    assert_eq!(writer.drain_section(&(10..10), 2), 2);
    assert_eq!(writer.slice_out_section(1, 4), b"145".to_vec());
    assert_eq!(writer.slice_out_section(50, 50), b"".to_vec());
    assert_eq!(writer.drain_section(&(8..10), 2), 4);
    assert_eq!(bytes, b"014567");
}

#[test]
fn trims_of_several_requests_add_up() {
    let mut bytes = b"0123456789".to_vec();
    let mut describe = ReplayTrimExtended::new();
    describe.describe = Some(4..6);
    describe.execute = 6..8;
    let trims = [
        ReplayTrim::Simple(ReplayTrimSimple { query: 0..3 }),
        ReplayTrim::Extended(describe),
    ];
    let mut writer = ByteWriter::new(&mut bytes, 0);
    writer.trim_from_pending_commands(&trims);
    assert_eq!(bytes, b"389");
}

#[test]
fn scratch_is_reset() {
    let mut scratch = Scratch::new();
    assert!(scratch.entries.is_empty());
    scratch.entries.push(pledge::wire::types::ScratchEntry {
        bytes: vec![1],
        kind: pledge::wire::types::MessageKind::Sync,
        execute: None,
    });
    scratch.reset();
    assert!(scratch.entries.is_empty());
    assert_eq!(scratch.parses_by_stmt_name.len(), 0);
}
