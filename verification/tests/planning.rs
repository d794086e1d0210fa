use pledge::cache::lfu::{Cache, CachedResponse};
use pledge::cache::store::cache_key_wire;
use pledge::cache::QueryTemplate;
use pledge::clock::Moment;
use pledge::config::{CacheConfig, Config, DatabaseConfig, ServerConfig};
use pledge::handlers::query::{
    bind_parameters, choose_binding, look_up_query, ParameterBinding, ParameterKind,
};
use pledge::wire::cache_planner::{
    bind_message, cache_data_can_satisfy, command_slots_contains_replay_or_capture,
    cycle_contains_capture, cycle_contains_replay, cycle_contains_replay_and_capture,
    describe_message, find_command_slots, find_command_slots_at, find_template,
    find_template_simple, get_from_cache, get_portal_in_session, get_prepared_statement_in_session,
    handle_command_slot_messages, handle_command_slot_messages_at, parse_message,
    replays_and_captures_in_command_slots, resolve_execute_chain, resolve_ttl, set_in_cache,
};
use pledge::wire::data_phase::{
    cycle_contains_cache_interaction, handle_client, handle_client_at, handle_db, handle_db_read,
    writes_for_db,
};
use pledge::wire::message_framer::MessageFramer;
use pledge::wire::messages::{
    BindMessageContent, DescribeMessageContent, DescribeMessageContentTarget,
    ExecuteMessageContent, ParseMessageContent,
};
use pledge::wire::startup_phase::startup_state_handling;
use pledge::wire::types::{
    ClientState, CommandSlot, CommandSlotPassthrough, CommandSlotSkip, Cycle, DBState,
    DescribeKind, MessageKind, ProtocolMode, StateHandlingResult, WireErrorKind,
    WireProtocolStates,
};
use pledge::{AppState, QueryMatcher};
use std::sync::Arc;

const SQL: &str = "SELECT name FROM users WHERE id = $1";
const SYNC: [u8; 5] = [b'S', 0, 0, 0, 4];

fn at(secs: u64) -> Moment {
    Moment { secs, nanos: 0 }
}

fn app(templates: &[(&str, Option<u64>)]) -> AppState {
    let database = DatabaseConfig {
        url: String::new(),
        host: "localhost".to_string(),
        port: "5432".to_string(),
        user: String::new(),
        password: String::new(),
        database: String::new(),
    };
    let config = Config {
        database: database.clone(),
        queries: templates
            .iter()
            .map(|(sql, ttl)| QueryTemplate { sql: sql.to_string(), ttl: *ttl })
            .collect(),
        cache: CacheConfig { global_ttl: None, max_size_mib: None, cache_shards: None },
        server: ServerConfig {
            port: 0,
            https_port: None,
            tls_cert_path: None,
            tls_key_path: None,
        },
    };
    AppState {
        matcher: Arc::new(QueryMatcher::new(&config)),
        database_config: database,
        cache: Cache::new(1, 4),
        global_ttl: 60,
    }
}

fn message(kind: u8, body: &[u8]) -> Vec<u8> {
    let mut bytes = vec![kind];
    bytes.extend_from_slice(&(body.len() as i32 + 4).to_be_bytes());
    bytes.extend_from_slice(body);
    bytes
}

fn query(sql: &str) -> Vec<u8> {
    message(b'Q', format!("{}\0", sql).as_bytes())
}

fn parse(name: &str, sql: &str) -> Vec<u8> {
    message(b'P', format!("{}\0{}\0\0\0", name, sql).as_bytes())
}

fn bind(portal: &str, statement: &str, value: Option<&[u8]>) -> Vec<u8> {
    let mut body = format!("{}\0{}\0\0\0\0\x01", portal, statement).into_bytes();
    match value {
        Some(value) => {
            body.extend_from_slice(&(value.len() as i32).to_be_bytes());
            body.extend_from_slice(value);
        }
        None => body.extend_from_slice(&(-1i32).to_be_bytes()),
    }
    body.extend_from_slice(&[0, 0]);
    message(b'B', &body)
}

fn describe(target: u8, name: &str) -> Vec<u8> {
    let mut body = vec![target];
    body.extend_from_slice(name.as_bytes());
    body.push(0);
    message(b'D', &body)
}

fn execute(portal: &str, limit: i32) -> Vec<u8> {
    let mut body = portal.as_bytes().to_vec();
    body.push(0);
    body.extend_from_slice(&limit.to_be_bytes());
    message(b'E', &body)
}

fn close(target: u8, name: &str) -> Vec<u8> {
    let mut body = vec![target];
    body.extend_from_slice(name.as_bytes());
    body.push(0);
    message(b'C', &body)
}

fn send(client: &mut ClientState, bytes: &[u8]) {
    let len = bytes.len();
    client.buffer_state.compact();
    let start = client.buffer_state.write_cursor;
    client.buffer_state.buffer[start..start + len].copy_from_slice(bytes);
    client.buffer_state.commit_read(len);
}

/// Plans `messages`, consumes them, and returns the cycles.
fn plan(
    client: &mut ClientState,
    app: &mut AppState,
    messages: &[Vec<u8>],
    secs: u64,
) -> Vec<Cycle> {
    send(client, &messages.concat());
    match handle_client_at(client, app, at(secs)) {
        Ok(plan) => plan.cycles,
        Err(error) => panic!("{}", error.message),
    }
}

fn is_passthrough(slot: &CommandSlot, bytes: &[u8], kind: MessageKind) -> bool {
    matches!(slot, CommandSlot::Passthrough(slot) if slot.bytes == bytes && slot.kind == kind)
}

fn is_skip(slot: &CommandSlot, bytes: &[u8], kind: MessageKind) -> bool {
    matches!(slot, CommandSlot::Skip(slot) if slot.bytes == bytes && slot.kind == kind)
}

fn response(data: &[u8], rows: Option<&[u8]>, params: Option<&[u8]>) -> CachedResponse {
    CachedResponse {
        data: data.to_vec(),
        row_desc: rows.map(|bytes| bytes.to_vec()),
        param_desc: params.map(|bytes| bytes.to_vec()),
    }
}

#[test]
fn time_to_live_comes_from_the_template_or_from_the_settings() {
    let app = app(&[("a", Some(5)), ("b", None)]);
    assert_eq!(resolve_ttl(&app, "a"), Some(5));
    assert_eq!(resolve_ttl(&app, "b"), Some(60));
    assert_eq!(resolve_ttl(&app, "c"), None);
    let plan = find_template_simple("a", &app).unwrap();
    assert_eq!((plan.key.as_str(), plan.ttl), ("qa", 5));
    assert!(find_template_simple("c", &app).is_none());
}

#[test]
fn simple_query_that_is_not_configured_is_passed_on() {
    let mut app = app(&[(SQL, None)]);
    let mut client = ClientState::new();
    let other = query("SELECT 1");
    let cycles = plan(&mut client, &mut app, &[other.clone()], 0);
    assert_eq!(cycles.len(), 1);
    assert!(!cycles[0].synthesize_sync);
    assert!(is_passthrough(&cycles[0].slots[0], &other, MessageKind::Query));
    assert!(client.buffer_state.is_empty());
}

#[test]
fn simple_query_is_captured_and_replayed() {
    let mut app = app(&[("SELECT 1", Some(30))]);
    let mut client = ClientState::new();
    let mut db = DBState::new();
    let asked = query("SELECT 1");

    let cycles = plan(&mut client, &mut app, &[asked.clone()], 100);
    match &cycles[0].slots[0] {
        CommandSlot::Capture(capture) => {
            assert_eq!(capture.bytes, asked);
            assert_eq!(capture.key, cache_key_wire("SELECT 1", &vec![]));
            assert_eq!(capture.ttl, 30);
            assert_eq!(capture.protocol_mode, ProtocolMode::Simple);
            assert_eq!(capture.describe_kind, DescribeKind::Nothing);
            assert_eq!(capture.query, "SELECT 1");
        }
        other => panic!("{:?}", other),
    }

    let answer = [
        message(b'T', b"\0\0"),
        message(b'D', b"\0\0"),
        message(b'C', b"SELECT 1\0"),
    ]
    .concat();
    let ready = message(b'Z', b"I");
    db.framer.add_buffer(&answer);
    db.framer.add_buffer(&ready);
    let output =
        handle_command_slot_messages_at(&mut db, &mut app, &cycles[0].slots, at(110)).unwrap();
    assert_eq!(output, [answer.clone(), ready].concat());

    let cycles = plan(&mut client, &mut app, &[asked.clone()], 140);
    match &cycles[0].slots[0] {
        CommandSlot::Replay(replay) => {
            assert_eq!(*replay.data, response(&answer, None, None));
            assert_eq!(replay.key, cache_key_wire("SELECT 1", &vec![]));
            assert_eq!(replay.protocol_mode, ProtocolMode::Simple);
        }
        other => panic!("{:?}", other),
    }
    assert!(writes_for_db(&cycles).is_empty());

    let cycles = plan(&mut client, &mut app, &[asked], 141);
    assert!(matches!(&cycles[0].slots[0], CommandSlot::Capture(_)));
}

#[test]
fn execution_is_captured_and_replayed() {
    let mut app = app(&[(SQL, None)]);
    let mut client = ClientState::new();
    let mut db = DBState::new();
    let messages = [
        parse("", SQL),
        bind("", "", Some(b"7")),
        describe(b'P', ""),
        execute("", 0),
        message(b'S', b""),
    ];
    let key = cache_key_wire(SQL, &vec![Some(b"7".to_vec())]);

    let cycles = plan(&mut client, &mut app, &messages, 0);
    assert_eq!(cycles.len(), 1);
    assert!(cycles[0].synthesize_sync);
    let slots = &cycles[0].slots;
    assert_eq!(slots.len(), 4);
    assert!(is_passthrough(&slots[0], &messages[0], MessageKind::Parse));
    assert!(is_passthrough(&slots[1], &messages[1], MessageKind::Bind));
    assert!(is_passthrough(&slots[2], &messages[2], MessageKind::Describe));
    match &slots[3] {
        CommandSlot::Capture(capture) => {
            assert_eq!(capture.bytes, messages[3]);
            assert_eq!(capture.key, key);
            assert_eq!(capture.describe_kind, DescribeKind::Portal);
            assert_eq!(capture.protocol_mode, ProtocolMode::Extended);
            assert_eq!(capture.query, SQL);
            assert_eq!(capture.ttl, 60);
        }
        other => panic!("{:?}", other),
    }
    assert_eq!(writes_for_db(&cycles).concat(), messages.concat());
    assert!(client.scratch.entries.is_empty());

    let rows = message(b'T', b"\0\0");
    let row = message(b'D', b"\0\0");
    let complete = message(b'C', b"SELECT 1\0");
    let ready = message(b'Z', b"I");
    for part in [message(b'1', b""), message(b'2', b""), rows.clone(), row.clone(), complete.clone(), ready.clone()] {
        db.framer.add_buffer(&part);
    }
    let output = handle_command_slot_messages_at(&mut db, &mut app, slots, at(0)).unwrap();
    assert_eq!(output, [row.clone(), complete.clone(), ready].concat());
    assert_eq!(
        get_from_cache(&mut app, &key, at(60)),
        Some(Arc::new(response(&[row, complete].concat(), Some(&rows), None)))
    );

    let cycles = plan(&mut client, &mut app, &messages, 60);
    let slots = &cycles[0].slots;
    assert!(is_skip(&slots[0], &messages[0], MessageKind::Parse));
    assert!(is_skip(&slots[1], &messages[1], MessageKind::Bind));
    assert!(is_skip(&slots[2], &messages[2], MessageKind::Describe));
    assert!(matches!(
        &slots[3],
        CommandSlot::Replay(replay)
            if replay.key == key && replay.describe_kind == DescribeKind::Portal
    ));
    assert_eq!(writes_for_db(&cycles), vec![SYNC.to_vec()]);

    let cycles = plan(&mut client, &mut app, &messages, 61);
    assert!(matches!(&cycles[0].slots[3], CommandSlot::Capture(_)));
}

#[test]
fn cached_data_must_hold_all_that_was_asked_for() {
    let data = response(b"d", None, None);
    let with_rows = response(b"d", Some(b"r"), None);
    let with_all = response(b"d", Some(b"r"), Some(b"p"));
    let empty = response(b"", Some(b"r"), Some(b"p"));
    for (cached, nothing, portal, statement) in [
        (&data, true, false, false),
        (&with_rows, true, true, false),
        (&with_all, true, true, true),
        (&empty, false, false, false),
    ] {
        assert_eq!(cache_data_can_satisfy(cached, &DescribeKind::Nothing), nothing);
        assert_eq!(cache_data_can_satisfy(cached, &DescribeKind::Portal), portal);
        assert_eq!(cache_data_can_satisfy(cached, &DescribeKind::Statement), statement);
    }

    let mut app = app(&[(SQL, None)]);
    let key = cache_key_wire(SQL, &vec![None]);
    set_in_cache(&mut app, 60, &key, data, at(0));
    let messages = [
        parse("", SQL),
        bind("", "", None),
        describe(b'S', ""),
        execute("", 0),
        message(b'S', b""),
    ];
    let mut client = ClientState::new();
    let cycles = plan(&mut client, &mut app, &messages, 0);
    assert!(matches!(
        &cycles[0].slots[3],
        CommandSlot::Capture(capture) if capture.describe_kind == DescribeKind::Statement
    ));
    set_in_cache(&mut app, 60, &key, with_all, at(0));
    let cycles = plan(&mut client, &mut app, &messages, 0);
    assert!(cycle_contains_replay(&cycles[0]));
}

#[test]
fn limited_execution_is_passed_on() {
    let mut app = app(&[(SQL, None)]);
    let mut client = ClientState::new();
    set_in_cache(&mut app, 60, &cache_key_wire(SQL, &vec![None]), response(b"d", None, None), at(0));
    let limited = execute("", 1);
    let messages = [parse("", SQL), bind("", "", None), limited.clone(), message(b'S', b"")];
    let cycles = plan(&mut client, &mut app, &messages, 0);
    assert!(is_passthrough(&cycles[0].slots[2], &limited, MessageKind::Execute));
    assert!(is_passthrough(&cycles[0].slots[0], &messages[0], MessageKind::Parse));
}

#[test]
fn statements_and_portals_outlive_a_sync() {
    let mut app = app(&[(SQL, None)]);
    let mut client = ClientState::new();
    plan(&mut client, &mut app, &[parse("s", SQL), bind("p", "s", Some(b"1")), message(b'S', b"")], 0);
    assert_eq!(
        get_prepared_statement_in_session("s", &client).unwrap().stmt.query,
        SQL
    );
    assert_eq!(
        get_portal_in_session("p", &client).unwrap().parameter_values,
        vec![Some(b"1".to_vec())]
    );
    let run = execute("p", 0);
    let cycles = plan(&mut client, &mut app, &[run.clone(), message(b'S', b"")], 0);
    assert_eq!(cycles[0].slots.len(), 1);
    assert!(matches!(
        &cycles[0].slots[0],
        CommandSlot::Capture(capture) if capture.query == SQL && capture.bytes == run
    ));
    let closing = [close(b'P', "p"), close(b'S', "s"), message(b'S', b"")];
    let cycles = plan(&mut client, &mut app, &closing, 0);
    assert!(is_passthrough(&cycles[0].slots[0], &closing[0], MessageKind::Close));
    assert!(get_portal_in_session("p", &client).is_none());
    assert!(get_prepared_statement_in_session("s", &client).is_none());
    let cycles = plan(&mut client, &mut app, &[run.clone(), message(b'S', b"")], 0);
    assert!(is_passthrough(&cycles[0].slots[0], &run, MessageKind::Execute));
}

#[test]
fn named_statement_stays_until_it_is_closed() {
    let mut client = ClientState::new();
    let named = ParseMessageContent {
        prepared_statement_name: "s".to_string(),
        query: "first".to_string(),
        parameter_data_types: vec![23],
    };
    let again = ParseMessageContent {
        prepared_statement_name: "s".to_string(),
        query: "second".to_string(),
        parameter_data_types: vec![],
    };
    assert!(parse_message(&named, &mut client).is_ok());
    assert!(matches!(
        parse_message(&again, &mut client),
        Err(StateHandlingResult::Error(message)) if message == "prepared statement already exists"
    ));
    let statement = get_prepared_statement_in_session("s", &client).unwrap();
    assert_eq!(statement.stmt.query, "first");
    assert_eq!(statement.stmt.parameter_data_types, vec![23]);
    assert!(!statement.backend_knows_about_it);
    for text in ["first", "second"] {
        let unnamed = ParseMessageContent {
            prepared_statement_name: String::new(),
            query: text.to_string(),
            parameter_data_types: vec![],
        };
        assert!(parse_message(&unnamed, &mut client).is_ok());
        assert_eq!(get_prepared_statement_in_session("", &client).unwrap().stmt.query, text);
    }
}

#[test]
fn only_portals_of_cached_statements_are_kept() {
    let mut app = app(&[(SQL, None)]);
    let mut client = ClientState::new();
    let content = BindMessageContent {
        portal_name: "p".to_string(),
        source_prepared_statement_name: "s".to_string(),
        parameter_format_codes: vec![1],
        parameter_values: vec![None, Some(vec![1, 2])],
        result_column_format_codes: vec![0, 1],
    };
    assert!(bind_message(&content, &mut client, &app).is_ok());
    assert!(get_portal_in_session("p", &client).is_none());
    plan(&mut client, &mut app, &[parse("s", "SELECT 1"), message(b'S', b"")], 0);
    assert!(bind_message(&content, &mut client, &app).is_ok());
    assert!(get_portal_in_session("p", &client).is_none());
    plan(&mut client, &mut app, &[close(b'S', "s"), parse("s", SQL), message(b'S', b"")], 0);
    assert!(bind_message(&content, &mut client, &app).is_ok());
    let portal = get_portal_in_session("p", &client).unwrap();
    assert_eq!(portal.source_prepared_statement_name, "s");
    assert_eq!(portal.parameter_format_codes, vec![1]);
    assert_eq!(portal.parameter_values, vec![None, Some(vec![1, 2])]);
    assert_eq!(portal.result_column_format_codes, vec![0, 1]);
    let execution = ExecuteMessageContent { name: "p".to_string(), rows_to_return_limit: 0 };
    let found = find_template(&execution, &client, &app).unwrap();
    assert_eq!(found.key, cache_key_wire(SQL, &vec![None, Some(vec![1, 2])]));
    assert_eq!(found.ttl, 60);
    let chain = resolve_execute_chain(&client, "p").unwrap();
    assert_eq!((chain.parse_entry, chain.bind_entry, chain.query.as_str()), (None, None, SQL));
    assert!(resolve_execute_chain(&client, "q").is_none());
}

#[test]
fn simple_query_ends_the_unnamed_statement() {
    let mut app = app(&[]);
    let mut client = ClientState::new();
    plan(&mut client, &mut app, &[parse("", SQL), parse("s", SQL), message(b'S', b"")], 0);
    assert!(get_prepared_statement_in_session("", &client).is_some());
    plan(&mut client, &mut app, &[query("SELECT 1")], 0);
    assert!(get_prepared_statement_in_session("", &client).is_none());
    assert!(get_prepared_statement_in_session("s", &client).is_some());
}

#[test]
fn terminate_stops_at_once() {
    let mut app = app(&[]);
    let mut client = ClientState::new();
    let terminate = message(b'X', b"");
    let messages = [parse("", SQL), terminate.clone(), query("SELECT 1")];
    let cycles = plan(&mut client, &mut app, &messages, 0);
    assert_eq!(cycles.len(), 1);
    assert!(is_passthrough(&cycles[0].slots[0], &terminate, MessageKind::Terminate));
    assert!(client.scratch.entries.is_empty());
    assert_eq!(client.framer.next_message(), Ok(Some(messages[2].clone())));
}

#[test]
fn unknown_and_broken_messages_fail() {
    let mut app = app(&[]);
    let mut client = ClientState::new();
    send(&mut client, &[query("SELECT 1"), message(b'?', b"")].concat());
    let error = find_command_slots_at(&mut client, &mut app, at(0)).unwrap_err();
    assert_eq!(error.kind, WireErrorKind::Other);
    assert_eq!(error.message, "unexpected message type, the type byte is unrecognized");
    assert!(!client.buffer_state.is_empty());

    let unterminated = "cursor is at end of buffer, no more data to read";
    for broken in [
        vec![message(b'Q', b"SELECT 1")],
        vec![message(b'P', b"s"), message(b'S', b"")],
        vec![message(b'B', b"p"), message(b'S', b"")],
        vec![message(b'D', b"Pp"), message(b'S', b"")],
        vec![message(b'E', b"p"), message(b'S', b"")],
        vec![message(b'C', b"Sp"), message(b'S', b"")],
    ] {
        let mut client = ClientState::new();
        send(&mut client, &broken.concat());
        match handle_client_at(&mut client, &mut app, at(0)) {
            Ok(_) => panic!("an error was expected"),
            Err(error) => assert_eq!(error.message, unterminated),
        }
        assert!(client.buffer_state.is_empty());
    }
}

#[test]
fn broken_message_leaves_the_scratch() {
    let mut app = app(&[]);
    let mut client = ClientState::new();
    send(&mut client, &[parse("s", SQL), message(b'E', b"p"), message(b'S', b"")].concat());
    assert!(find_command_slots_at(&mut client, &mut app, at(0)).is_err());
    assert_eq!(client.scratch.entries.len(), 2);
    assert!(get_prepared_statement_in_session("s", &client).is_some());
}

#[test]
fn pieces_do_not_matter_to_planning() {
    let bytes = [
        parse("", SQL),
        bind("", "", Some(b"1")),
        execute("", 0),
        message(b'S', b""),
        query("SELECT 1"),
    ]
    .concat();
    let mut app_state = app(&[(SQL, None)]);
    let mut client = ClientState::new();
    let whole = plan(&mut client, &mut app_state, &[bytes.clone()], 0);
    for size in [1, 4, 9] {
        let mut app_state = app(&[(SQL, None)]);
        let mut client = ClientState::new();
        let mut cycles = Vec::new();
        for piece in bytes.chunks(size) {
            cycles.extend(plan(&mut client, &mut app_state, &[piece.to_vec()], 0));
        }
        assert_eq!(format!("{:?}", cycles), format!("{:?}", whole));
    }
}

#[test]
fn uncached_traffic_is_unchanged() {
    let messages = [
        query("SELECT 1"),
        parse("s", SQL),
        bind("p", "s", None),
        describe(b'P', "p"),
        execute("p", 0),
        SYNC.to_vec(),
        close(b'S', "s"),
        SYNC.to_vec(),
        query("SELECT 2"),
    ];
    let mut app = app(&[]);
    let mut client = ClientState::new();
    send(&mut client, &messages.concat());
    let plan = match handle_client(&mut client, &mut app) {
        Ok(plan) => plan,
        Err(error) => panic!("{}", error.message),
    };
    assert_eq!(plan.writes, messages.to_vec());
    assert_eq!(plan.cycles.len(), 4);
}

#[test]
fn planning_reads_the_clock() {
    let mut app = app(&[("SELECT 1", Some(1000))]);
    let mut client = ClientState::new();
    let mut db = DBState::new();
    send(&mut client, &query("SELECT 1"));
    let cycles = find_command_slots(&mut client, &mut app).unwrap();
    db.framer.add_buffer(&message(b'C', b"SELECT 0\0"));
    db.framer.add_buffer(&message(b'Z', b"I"));
    handle_command_slot_messages(&mut db, &mut app, &cycles[0].slots).unwrap();
    client.buffer_state.consume(&client.buffer_state.pending_data_len()).unwrap();
    send(&mut client, &query("SELECT 1"));
    let cycles = find_command_slots(&mut client, &mut app).unwrap();
    assert!(cycle_contains_replay(&cycles[0]));
}

fn passthrough(bytes: &[u8]) -> CommandSlot {
    CommandSlot::Passthrough(CommandSlotPassthrough {
        bytes: bytes.to_vec(),
        kind: MessageKind::Query,
    })
}

#[test]
fn answers_to_uncached_messages_are_passed_on() {
    let mut app = app(&[]);
    let mut db = DBState::new();
    let answer = [message(b'T', b"x"), message(b'C', b"y"), message(b'Z', b"I")].concat();
    db.framer.add_buffer(&answer);
    db.framer.add_buffer(b"D\0\0");
    let slots = [passthrough(b"q")];
    assert_eq!(
        handle_command_slot_messages_at(&mut db, &mut app, &slots, at(0)),
        Ok(answer)
    );
    assert_eq!(app.cache.entry_count(), 0);
    db.framer.set_buffer([message(b'T', b"x"), b"D\0\0\0\0".to_vec()].concat());
    assert_eq!(
        handle_command_slot_messages_at(&mut db, &mut app, &slots, at(0)),
        Err("length below protocol minimum, stream desynced".to_string())
    );
    let _ = handle_command_slot_messages(&mut db, &mut app, &[]);
}

fn slots_of(app: &mut AppState, messages: &[Vec<u8>]) -> Vec<CommandSlot> {
    let mut client = ClientState::new();
    let mut slots = Vec::new();
    for cycle in plan(&mut client, app, messages, 0) {
        slots.extend(cycle.slots);
    }
    slots
}

#[test]
fn what_is_cached_before_a_broken_message_stays() {
    let mut app = app(&[("a", None), ("b", None)]);
    let slots = slots_of(&mut app, &[query("a"), query("b")]);
    let mut db = DBState::new();
    db.framer.add_buffer(&message(b'C', b"A"));
    db.framer.add_buffer(&message(b'Z', b"I"));
    db.framer.add_buffer(&message(b'C', b"B"));
    db.framer.add_buffer(&[b'D', 0xff, 0, 0, 0]);
    assert_eq!(
        handle_command_slot_messages_at(&mut db, &mut app, &slots, at(0)),
        Err("couldn't parse i32 to usize".to_string())
    );
    let cached = get_from_cache(&mut app, &cache_key_wire("a", &vec![]), at(0)).unwrap();
    assert_eq!(cached.data, message(b'C', b"A"));
    let cached = get_from_cache(&mut app, &cache_key_wire("b", &vec![]), at(0)).unwrap();
    assert_eq!(cached.data, message(b'C', b"B"));
}

#[test]
fn an_answer_that_is_not_complete_is_not_cached() {
    let mut app = app(&[("a", None)]);
    let slots = slots_of(&mut app, &[query("a")]);
    let mut db = DBState::new();
    db.framer.add_buffer(&message(b'E', b"error"));
    let ready = message(b'Z', b"I");
    db.framer.add_buffer(&ready);
    assert_eq!(
        handle_command_slot_messages_at(&mut db, &mut app, &slots, at(0)),
        Ok([message(b'E', b"error"), ready.clone()].concat())
    );
    assert_eq!(app.cache.entry_count(), 0);
    // Without a ReadyForQuery nothing goes to the client.
    db.framer.add_buffer(&message(b'D', b"row"));
    assert_eq!(handle_command_slot_messages_at(&mut db, &mut app, &slots, at(0)), Ok(vec![]));
    // Behind it, as many messages are dropped as there are slots.
    db.framer.add_buffer(&[ready.clone(), ready.clone(), message(b'N', b"x")].concat());
    assert_eq!(handle_command_slot_messages_at(&mut db, &mut app, &slots, at(0)), Ok(ready));
    assert_eq!(db.framer.next_message(), Ok(Some(message(b'N', b"x"))));
}

#[test]
fn statement_descriptions_are_cached_apart() {
    let mut app = app(&[(SQL, Some(9))]);
    let messages = [
        parse("", SQL),
        bind("", "", None),
        describe(b'S', ""),
        execute("", 0),
        message(b'S', b""),
    ];
    let slots = slots_of(&mut app, &messages);
    let mut db = DBState::new();
    let (params, rows) = (message(b't', b"p"), message(b'T', b"r"));
    let (row, complete) = (message(b'D', b"d"), message(b'C', b"c"));
    for part in [&params, &rows, &row, &complete, &message(b'Z', b"I")] {
        db.framer.add_buffer(part);
    }
    handle_command_slot_messages_at(&mut db, &mut app, &slots, at(0)).unwrap();
    let key = cache_key_wire(SQL, &vec![None]);
    let cached = get_from_cache(&mut app, &key, at(9)).unwrap();
    assert_eq!(*cached, response(&[row, complete].concat(), Some(&rows), Some(&params)));
    assert_eq!(get_from_cache(&mut app, &key, at(10)), None);
}

#[test]
fn slots_are_told_apart() {
    let mut app = app(&[("a", None), ("b", None)]);
    set_in_cache(&mut app, 60, &cache_key_wire("b", &vec![]), response(b"x", None, None), at(0));
    let mut slots = slots_of(&mut app, &[query("c"), query("a"), query("b"), query("a")]);
    let found = replays_and_captures_in_command_slots(&slots);
    let places = |list: Vec<usize>| list;
    assert_eq!(places(found.replays.iter().map(|(i, _)| *i).collect()), vec![2]);
    assert_eq!(places(found.captures.iter().map(|(i, _)| *i).collect()), vec![1, 3]);
    assert_eq!(found.replays[0].1.query, "b");
    assert_eq!(found.captures[1].1.query, "a");
    assert!(command_slots_contains_replay_or_capture(&slots));
    assert!(!command_slots_contains_replay_or_capture(&slots[..1]));
    let capture = Cycle { slots: vec![slots.pop().unwrap()], synthesize_sync: false };
    let replay = Cycle { slots: vec![slots.pop().unwrap()], synthesize_sync: false };
    assert!(cycle_contains_capture(&capture) && !cycle_contains_replay(&capture));
    assert!(cycle_contains_replay(&replay) && !cycle_contains_capture(&replay));
    assert!(!cycle_contains_replay_and_capture(&replay));
    assert!(!cycle_contains_replay_and_capture(&capture));
    let both = Cycle {
        slots: vec![
            replay.slots.into_iter().next().unwrap(),
            capture.slots.into_iter().next().unwrap(),
        ],
        synthesize_sync: false,
    };
    assert!(cycle_contains_replay_and_capture(&both));
    assert!(cycle_contains_cache_interaction(both));
    let skipped = CommandSlot::Skip(CommandSlotSkip { bytes: vec![], kind: MessageKind::Bind });
    assert!(!cycle_contains_cache_interaction(Cycle {
        slots: vec![skipped],
        synthesize_sync: true
    }));
    assert!(cycle_contains_cache_interaction(Cycle {
        slots: vec![passthrough(b"")],
        synthesize_sync: true
    }));
}

#[test]
fn describe_targets_become_kinds() {
    let statement = DescribeMessageContent {
        target: DescribeMessageContentTarget::PreparedStatement,
        name: String::new(),
    };
    let portal = DescribeMessageContent {
        target: DescribeMessageContentTarget::Portal,
        name: String::new(),
    };
    assert_eq!(describe_message(&statement), DescribeKind::Statement);
    assert_eq!(describe_message(&portal), DescribeKind::Portal);
}

fn receive(db: &mut DBState, bytes: &[u8]) {
    db.buffer_state.prepare_read();
    let start = db.buffer_state.write_cursor;
    db.buffer_state.buffer[start..start + bytes.len()].copy_from_slice(bytes);
    db.buffer_state.commit_read(bytes.len());
}

#[test]
fn database_is_read_until_it_is_ready() {
    let mut db = DBState::new();
    let bytes = [message(b'C', b"c"), message(b'Z', b"I"), message(b'N', b"n")].concat();
    receive(&mut db, &bytes[..8]);
    assert!(!handle_db(&mut db));
    assert!(db.buffer_state.is_empty());
    receive(&mut db, &bytes[8..]);
    assert!(handle_db(&mut db));
    assert_eq!(db.framer.next_message(), Ok(Some(message(b'N', b"n"))));
    receive(&mut db, b"as it is");
    assert_eq!(handle_db_read(&mut db), b"as it is");
    assert!(db.buffer_state.is_empty());
    assert_eq!(handle_db_read(&mut db), b"");
}

#[test]
fn startup_ends_when_the_database_is_ready() {
    let mut framer = MessageFramer::new();
    let answer = |state, framer: &mut MessageFramer, bytes: &[u8]| {
        startup_state_handling(state, framer, &bytes.to_vec(), bytes.len())
    };
    assert!(matches!(
        answer(WireProtocolStates::WaitingForSSL, &mut framer, b"?"),
        StateHandlingResult::Continue(WireProtocolStates::WaitingForSSL)
    ));
    assert!(matches!(
        answer(WireProtocolStates::WaitingForSSL, &mut framer, b"S"),
        StateHandlingResult::Break(message) if message.starts_with("Pledge can't inspect the bytes")
    ));
    assert!(matches!(
        answer(WireProtocolStates::WaitingForSSL, &mut framer, b"N"),
        StateHandlingResult::Continue(WireProtocolStates::WaitingForStartup)
    ));
    let bytes = [message(b'R', b"\0\0\0\0"), message(b'Z', b"I")].concat();
    assert!(matches!(
        answer(WireProtocolStates::WaitingForStartup, &mut framer, &bytes[..12]),
        StateHandlingResult::Continue(WireProtocolStates::WaitingForStartup)
    ));
    assert!(matches!(
        answer(WireProtocolStates::WaitingForStartup, &mut framer, &bytes[12..]),
        StateHandlingResult::Continue(WireProtocolStates::ReadyForQuery)
    ));
    assert!(matches!(
        answer(WireProtocolStates::ReadyForQuery, &mut framer, b"S"),
        StateHandlingResult::Continue(WireProtocolStates::ReadyForQuery)
    ));
}

#[test]
fn parameters_are_bound_by_their_kind() {
    let kinds = vec![
        ParameterKind::Integer,
        ParameterKind::Text,
        ParameterKind::Boolean,
        ParameterKind::Array,
        ParameterKind::OtherNumber,
    ];
    assert_eq!(
        bind_parameters(&kinds).unwrap(),
        vec![
            ParameterBinding::Integer,
            ParameterBinding::Text,
            ParameterBinding::Boolean,
            ParameterBinding::Array,
            ParameterBinding::Float,
        ]
    );
    for kind in [ParameterKind::Null, ParameterKind::Object] {
        assert_eq!(choose_binding(&kind), None);
        let error = bind_parameters(&vec![ParameterKind::Integer, kind]).unwrap_err();
        assert_eq!(error.status, 400);
        assert_eq!(error.message, "Unsupported parameter type");
    }
}

#[test]
fn requests_are_looked_up_if_they_are_configured() {
    let mut app = app(&[("a", None)]);
    let params = vec![Some(b"1".to_vec())];
    for sql in ["a", "b"] {
        let key = cache_key_wire(sql, &params);
        set_in_cache(&mut app, 60, &key, response(b"x", None, None), at(0));
    }
    let found = look_up_query(&mut app, "a", &params, at(0));
    assert!(found.hit);
    assert_eq!(found.key, cache_key_wire("a", &params));
    assert!(!look_up_query(&mut app, "b", &params, at(0)).hit);
    assert!(!look_up_query(&mut app, "a", &vec![], at(0)).hit);
    assert!(!look_up_query(&mut app, "a", &params, at(61)).hit);
}

#[test]
fn another_session_is_answered_from_the_same_cache() {
    let mut app = app(&[(SQL, Some(20))]);
    let mut first = ClientState::new();
    let messages = [parse("", SQL), bind("", "", Some(b"7")), execute("", 0), message(b'S', b"")];
    let cycles = plan(&mut first, &mut app, &messages, 0);
    assert!(matches!(&cycles[0].slots[2], CommandSlot::Capture(_)));
    let mut db = DBState::new();
    let (row, complete) = (message(b'D', b"d"), message(b'C', b"c"));
    db.framer.add_buffer(&[row.clone(), complete.clone(), message(b'Z', b"I")].concat());
    handle_command_slot_messages_at(&mut db, &mut app, &cycles[0].slots, at(5)).unwrap();

    let mut second = ClientState::new();
    let messages = [
        parse("stmt", SQL),
        bind("portal", "stmt", Some(b"7")),
        execute("portal", 0),
        message(b'S', b""),
    ];
    let cycles = plan(&mut second, &mut app, &messages, 25);
    assert!(is_skip(&cycles[0].slots[0], &messages[0], MessageKind::Parse));
    assert!(is_skip(&cycles[0].slots[1], &messages[1], MessageKind::Bind));
    assert!(matches!(
        &cycles[0].slots[2],
        CommandSlot::Replay(replay) if replay.data.data == [row, complete].concat()
    ));
    let others = [
        parse("", SQL),
        bind("", "", Some(b"8")),
        execute("", 0),
        message(b'S', b""),
    ];
    let cycles = plan(&mut second, &mut app, &others, 25);
    assert!(matches!(&cycles[0].slots[2], CommandSlot::Capture(_)));
}

#[test]
fn captured_answers_expire_by_the_clock_of_the_cache() {
    for (ttl, served) in [(0, false), (1000, true)] {
        let mut app = app(&[("SELECT 1", Some(ttl))]);
        let mut client = ClientState::new();
        let mut db = DBState::new();
        send(&mut client, &query("SELECT 1"));
        let asked = match handle_client(&mut client, &mut app) {
            Ok(plan) => plan,
            Err(error) => panic!("{}", error.message),
        };
        assert!(cycle_contains_capture(&asked.cycles[0]));
        db.framer.add_buffer(&message(b'C', b"SELECT 0\0"));
        db.framer.add_buffer(&message(b'Z', b"I"));
        handle_command_slot_messages(&mut db, &mut app, &asked.cycles[0].slots).unwrap();
        let captured = app.cache.now();
        while !captured.is_before(&app.cache.now()) {}
        send(&mut client, &query("SELECT 1"));
        let cycles = find_command_slots(&mut client, &mut app).unwrap();
        assert_eq!(cycle_contains_replay(&cycles[0]), served);
        assert_eq!(cycle_contains_capture(&cycles[0]), !served);
    }
}

#[test]
fn traffic_without_template_is_unchanged() {
    let messages = [
        parse("s", SQL),
        bind("p", "s", Some(b"7")),
        execute("p", 0),
        SYNC.to_vec(),
        query("SELECT 2"),
        bind("p", "s", None),
        describe(b'S', "s"),
        execute("p", 0),
        SYNC.to_vec(),
        message(b'X', b""),
    ];
    let mut app = app(&[("SELECT 1", None), ("SELECT name FROM users", Some(5))]);
    let mut client = ClientState::new();
    send(&mut client, &messages.concat());
    let plan = match handle_client_at(&mut client, &mut app, at(0)) {
        Ok(plan) => plan,
        Err(error) => panic!("{}", error.message),
    };
    assert_eq!(plan.writes, messages.to_vec());
    assert_eq!(app.cache.entry_count(), 0);
}

#[test]
fn last_completion_decides_what_is_cached() {
    let sql = "SELECT 1; SELECT 2";
    let mut app = app(&[(sql, Some(10))]);
    let slots = slots_of(&mut app, &[query(sql)]);
    let mut db = DBState::new();
    let answer = [
        message(b'D', b"one"),
        message(b'C', b"SELECT 1\0"),
        message(b'D', b"two"),
        message(b'C', b"SELECT 1\0"),
    ]
    .concat();
    let trailing = message(b'N', b"notice");
    let ready = message(b'Z', b"I");
    db.framer.add_buffer(&[answer.clone(), trailing.clone(), ready.clone()].concat());
    assert_eq!(
        handle_command_slot_messages_at(&mut db, &mut app, &slots, at(0)),
        Ok([answer.clone(), trailing, ready].concat())
    );
    match &slots_of(&mut app, &[query(sql)])[0] {
        CommandSlot::Replay(replay) => assert_eq!(*replay.data, response(&answer, None, None)),
        other => panic!("{:?}", other),
    }
    assert_eq!(app.cache.entry_count(), 1);
}

#[test]
fn captured_description_answers_those_that_ask_for_no_more() {
    let mut app = app(&[(SQL, Some(10))]);
    let with_portal = [
        parse("s", SQL),
        bind("p", "s", None),
        describe(b'P', "p"),
        execute("p", 0),
        SYNC.to_vec(),
    ];
    let slots = slots_of(&mut app, &with_portal);
    assert!(is_passthrough(&slots[0], &with_portal[0], MessageKind::Parse));
    assert!(is_passthrough(&slots[1], &with_portal[1], MessageKind::Bind));
    assert!(is_passthrough(&slots[2], &with_portal[2], MessageKind::Describe));
    let mut db = DBState::new();
    let (rows, row, complete) = (message(b'T', b"r"), message(b'D', b"d"), message(b'C', b"c"));
    let answer = [rows.clone(), row.clone(), complete.clone(), message(b'Z', b"I")].concat();
    db.framer.add_buffer(&answer);
    handle_command_slot_messages_at(&mut db, &mut app, &slots, at(0)).unwrap();
    let expected = response(&[row, complete].concat(), Some(&rows), None);

    let without = [parse("", SQL), bind("", "", None), execute("", 0), SYNC.to_vec()];
    match &slots_of(&mut app, &without)[2] {
        CommandSlot::Replay(replay) => {
            assert_eq!(*replay.data, expected);
            assert_eq!(replay.describe_kind, DescribeKind::Nothing);
        }
        other => panic!("{:?}", other),
    }

    let slots = slots_of(&mut app, &with_portal);
    assert!(is_skip(&slots[0], &with_portal[0], MessageKind::Parse));
    assert!(is_skip(&slots[1], &with_portal[1], MessageKind::Bind));
    assert!(is_skip(&slots[2], &with_portal[2], MessageKind::Describe));
    match &slots[3] {
        CommandSlot::Replay(replay) => {
            assert_eq!(*replay.data, expected);
            assert_eq!(replay.describe_kind, DescribeKind::Portal);
        }
        other => panic!("{:?}", other),
    }

    let with_statement = [
        parse("", SQL),
        describe(b'S', ""),
        bind("", "", None),
        execute("", 0),
        SYNC.to_vec(),
    ];
    let slots = slots_of(&mut app, &with_statement);
    assert!(is_passthrough(&slots[1], &with_statement[1], MessageKind::Describe));
    assert!(matches!(
        &slots[3],
        CommandSlot::Capture(capture) if capture.describe_kind == DescribeKind::Statement
    ));
}

#[test]
fn statement_prepared_before_is_answered_from_the_cache() {
    let mut app = app(&[(SQL, Some(10))]);
    let mut client = ClientState::new();
    plan(&mut client, &mut app, &[parse("s", SQL), describe(b'S', "s"), SYNC.to_vec()], 0);
    let messages = [bind("p", "s", None), execute("p", 0), SYNC.to_vec()];
    let cycles = plan(&mut client, &mut app, &messages, 0);
    assert!(matches!(&cycles[0].slots[1], CommandSlot::Capture(_)));
    let mut db = DBState::new();
    let complete = message(b'C', b"c");
    db.framer.add_buffer(&[complete.clone(), message(b'Z', b"I")].concat());
    handle_command_slot_messages_at(&mut db, &mut app, &cycles[0].slots, at(0)).unwrap();
    let cycles = plan(&mut client, &mut app, &messages, 1);
    assert!(is_skip(&cycles[0].slots[0], &messages[0], MessageKind::Bind));
    assert!(matches!(
        &cycles[0].slots[1],
        CommandSlot::Replay(replay) if replay.data.data == complete
    ));
    assert_eq!(writes_for_db(&cycles), vec![SYNC.to_vec()]);
}

#[test]
fn states_start_with_zeroed_buffers() {
    let client = ClientState::new();
    assert_eq!(client.buffer_state.buffer, vec![0u8; 8 * 1024]);
    assert_eq!((client.buffer_state.read_cursor, client.buffer_state.write_cursor), (0, 0));
    let db = DBState::new();
    assert_eq!(db.buffer_state.buffer, vec![0u8; 128 * 1024]);
    assert_eq!((db.buffer_state.read_cursor, db.buffer_state.write_cursor), (0, 0));
}

#[test]
fn handled_bytes_stay_in_the_buffer() {
    let mut app = app(&[]);
    let mut client = ClientState::new();
    let asked = query("SELECT 1");
    plan(&mut client, &mut app, &[asked.clone()], 0);
    assert_eq!(client.buffer_state.buffer[..asked.len()], asked[..]);
    assert_eq!(client.buffer_state.buffer.len(), 8 * 1024);
    assert_eq!(client.buffer_state.write_cursor, asked.len());
    assert_eq!(client.buffer_state.read_cursor, asked.len());

    let mut db = DBState::new();
    receive(&mut db, b"raw");
    handle_db_read(&mut db);
    assert_eq!(&db.buffer_state.buffer[..3], b"raw");
    assert_eq!((db.buffer_state.read_cursor, db.buffer_state.write_cursor), (3, 3));
}
