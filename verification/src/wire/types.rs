//! The state of a connection.
use std::ops::Range;
use std::sync::Arc;
use vstd::hash_map::StringHashMap;
use vstd::prelude::*;
use vstd::slice::{slice_subrange, slice_to_vec};
use crate::cache::lfu::{share, CachedResponse, ResponseBytes};
use crate::wire::message_framer::MessageFramer;
use crate::wire::messages::{
    value_list, BindMessageContent, BindText, DescribeMessageContent, DescribeText,
    ExecuteMessageContent, ExecuteText, ParseMessageContent, ParseText,
};
use crate::wire::writer::{all_sections, can_trim, trimmed, ByteWriter};

verus! {

broadcast use vstd::hash_map::group_hash_map_axioms;

/// How far the start of a connection has come.
#[derive(Clone, Copy, Debug, PartialEq, Eq, Structural)]
pub enum WireProtocolStates {
    WaitingForSSL,
    WaitingForStartup,
    ReadyForQuery,
}

/// The commands whose completion is reported with a row count.
#[derive(Clone, Copy, Debug, PartialEq, Eq, Structural)]
pub enum SQLCommand {
    Insert,
    Delete,
    Update,
    Merge,
    Select,
    CreateTableAs,
    Move,
    Fetch,
    Copy,
}

/// What kind of failure a [`WireError`] is.
#[derive(Clone, Copy, Debug, PartialEq, Eq, Structural)]
pub enum WireErrorKind {
    InvalidData,
    Other,
}

/// A failure in handling a connection, with a text for the log.
#[derive(Debug)]
pub struct WireError {
    pub kind: WireErrorKind,
    pub message: String,
}

/// What a [`WireError`] says.
pub struct Failure {
    pub kind: WireErrorKind,
    pub message: Seq<char>,
}

impl View for WireError {
    type V = Failure;

    open spec fn view(&self) -> Failure {
        Failure { kind: self.kind, message: self.message@ }
    }
}

/// A statement that was prepared in this session.
pub struct PreparedStatement {
    pub query: String,
    pub parameter_data_types: Vec<i32>,
}

pub struct PreparedStatementState {
    pub stmt: PreparedStatement,
    pub backend_knows_about_it: bool,
}

/// What a [`PreparedStatementState`] holds.
pub struct StatementText {
    pub query: Seq<char>,
    pub types: Seq<i32>,
    pub known: bool,
}

impl View for PreparedStatementState {
    type V = StatementText;

    open spec fn view(&self) -> StatementText {
        StatementText {
            query: self.stmt.query@,
            types: self.stmt.parameter_data_types@,
            known: self.backend_knows_about_it,
        }
    }
}

/// A statement with parameter values bound to it.
pub struct Portal {
    pub source_prepared_statement_name: String,
    pub parameter_format_codes: Vec<i16>,
    pub parameter_values: Vec<Option<Vec<u8>>>,
    pub result_column_format_codes: Vec<i16>,
}

/// What a [`Portal`] holds.
pub struct PortalText {
    pub statement: Seq<char>,
    pub parameter_formats: Seq<i16>,
    pub values: Seq<Option<Seq<u8>>>,
    pub result_formats: Seq<i16>,
}

impl View for Portal {
    type V = PortalText;

    open spec fn view(&self) -> PortalText {
        PortalText {
            statement: self.source_prepared_statement_name@,
            parameter_formats: self.parameter_format_codes@,
            values: value_list(self.parameter_values@),
            result_formats: self.result_column_format_codes@,
        }
    }
}

/// The kinds of messages that a client sends.
#[derive(Clone, Copy, Debug, PartialEq, Eq, Structural)]
pub enum MessageKind {
    Parse,
    Bind,
    Describe,
    Execute,
    Query,
    Sync,
    Close,
    Terminate,
}

/// A message that waits for the next Sync.
pub struct ScratchEntry {
    pub bytes: Vec<u8>,
    pub kind: MessageKind,
    pub execute: Option<ExecuteMessageContent>,
}

/// What a [`ScratchEntry`] holds.
pub struct EntryText {
    pub bytes: Seq<u8>,
    pub kind: MessageKind,
    pub execute: Option<ExecuteText>,
}

impl View for ScratchEntry {
    type V = EntryText;

    open spec fn view(&self) -> EntryText {
        EntryText {
            bytes: self.bytes@,
            kind: self.kind,
            execute: match self.execute {
                Some(content) => Some(content@),
                None => None,
            },
        }
    }
}

/// What each of a row of entries holds.
pub open spec fn entry_list(entries: Seq<ScratchEntry>) -> Seq<EntryText> {
    entries.map_values(|entry: ScratchEntry| entry@)
}

/// What came in since the last Sync.
pub struct Scratch {
    pub entries: Vec<ScratchEntry>,
    pub parses_by_stmt_name: StringHashMap<(usize, ParseMessageContent)>,
    pub binds_by_portal_name: StringHashMap<(usize, BindMessageContent)>,
    pub describes_by_name: StringHashMap<(usize, DescribeMessageContent)>,
}

/// What a [`Scratch`] holds. The numbers are places among the entries.
#[verifier::ext_equal]
pub struct ScratchState {
    pub entries: Seq<EntryText>,
    pub parses: Map<Seq<char>, (usize, ParseText)>,
    pub binds: Map<Seq<char>, (usize, BindText)>,
    pub describes: Map<Seq<char>, (usize, DescribeText)>,
}

/// The places that a scratch notes are those of messages of the right kind.
pub open spec fn scratch_in_order(scratch: ScratchState) -> bool {
    let entries = scratch.entries;
    &&& forall|name: Seq<char>| #[trigger]
        scratch.parses.contains_key(name) ==> scratch.parses[name].0 < entries.len()
            && entries[scratch.parses[name].0 as int].kind == MessageKind::Parse
    &&& forall|name: Seq<char>| #[trigger]
        scratch.binds.contains_key(name) ==> scratch.binds[name].0 < entries.len()
            && entries[scratch.binds[name].0 as int].kind == MessageKind::Bind
    &&& forall|name: Seq<char>| #[trigger]
        scratch.describes.contains_key(name) ==> scratch.describes[name].0 < entries.len()
            && entries[scratch.describes[name].0 as int].kind == MessageKind::Describe
}

/// A scratch with nothing in it.
pub open spec fn empty_scratch() -> ScratchState {
    ScratchState {
        entries: Seq::empty(),
        parses: Map::empty(),
        binds: Map::empty(),
        describes: Map::empty(),
    }
}

impl View for Scratch {
    type V = ScratchState;

    open spec fn view(&self) -> ScratchState {
        ScratchState {
            entries: entry_list(self.entries@),
            parses: self.parses_by_stmt_name@.map_values(
                |placed: (usize, ParseMessageContent)| (placed.0, placed.1@),
            ),
            binds: self.binds_by_portal_name@.map_values(
                |placed: (usize, BindMessageContent)| (placed.0, placed.1@),
            ),
            describes: self.describes_by_name@.map_values(
                |placed: (usize, DescribeMessageContent)| (placed.0, placed.1@),
            ),
        }
    }
}

impl Scratch {
    pub fn new() -> (scratch: Self)
        ensures
            scratch@ == empty_scratch(),
    {
        let scratch = Self {
            entries: Vec::new(),
            parses_by_stmt_name: StringHashMap::new(),
            binds_by_portal_name: StringHashMap::new(),
            describes_by_name: StringHashMap::new(),
        };
        assert(scratch@ =~= empty_scratch());
        scratch
    }

    pub fn reset(&mut self)
        ensures
            final(self)@ == empty_scratch(),
    {
        self.entries.clear();
        self.parses_by_stmt_name.clear();
        self.binds_by_portal_name.clear();
        self.describes_by_name.clear();
        assert(self@ =~= empty_scratch());
    }
}

pub const CONSUMED_TOO_MUCH: &'static str = "consume: n is larger than pending data";

/// Bytes read from a stream that were not worked on yet, within a buffer that is read into.
pub struct BufferState {
    pub buffer: Vec<u8>,
    pub read_cursor: usize,
    pub write_cursor: usize,
}

impl View for BufferState {
    type V = Seq<u8>;

    /// The bytes that were read and not worked on.
    open spec fn view(&self) -> Seq<u8> {
        self.buffer@.subrange(self.read_cursor as int, self.write_cursor as int)
    }
}

impl BufferState {
    pub open spec fn wf(self) -> bool {
        self.read_cursor <= self.write_cursor <= self.buffer.len()
    }

    /// Less than a quarter of the buffer is free.
    pub open spec fn crowded(self) -> bool {
        self.buffer.len() - self.write_cursor < self.buffer.len() / 4
    }

    /// The buffer with what is pending at its start.
    pub open spec fn compacted(self) -> Seq<u8> {
        self@ + self.buffer@.skip(self@.len() as int)
    }

    /// A buffer of `size` zero bytes, none of which is pending.
    pub fn with_size(size: usize) -> (state: Self)
        ensures
            state.wf(),
            state@ == Seq::<u8>::empty(),
            state.buffer.len() == size,
            forall|i: int| 0 <= i < size ==> state.buffer[i] == 0,
            state.read_cursor == 0,
            state.write_cursor == 0,
    {
        let mut buffer: Vec<u8> = Vec::new();
        buffer.resize(size, 0);
        let state = BufferState { buffer, read_cursor: 0, write_cursor: 0 };
        assert(state@ =~= Seq::<u8>::empty());
        state
    }

    /// Makes room to read into: a crowded buffer is compacted, one that is full even so is doubled.
    /// What is read goes in from the write cursor on.
    pub fn prepare_read(&mut self)
        requires
            old(self).wf(),
            0 < old(self).buffer.len() <= usize::MAX / 2,
        ensures
            final(self).wf(),
            final(self)@ == old(self)@,
            final(self).write_cursor < final(self).buffer.len(),
            final(self).write_cursor == final(self).read_cursor + old(self)@.len(),
            final(self).read_cursor == if old(self).crowded() {
                0
            } else {
                old(self).read_cursor
            },
            final(self).buffer.len() == if final(self).write_cursor < old(self).buffer.len() {
                old(self).buffer.len() as int
            } else {
                old(self).buffer.len() * 2
            },
            final(self).buffer@.take(old(self).buffer.len() as int) == if old(self).crowded() {
                old(self).compacted()
            } else {
                old(self).buffer@
            },
            forall|i: int|
                old(self).buffer.len() <= i < final(self).buffer.len() ==> final(self).buffer[i]
                    == 0,
    {
        let free_space: usize = self.buffer.len() - self.write_cursor;
        if free_space < self.buffer.len() / 4 {
            self.compact();
        }
        if self.write_cursor >= self.buffer.len() {
            let doubled: usize = self.buffer.len() * 2;
            self.buffer.resize(doubled, 0);
        }
        proof {
            assert(self@ =~= old(self)@);
            let start = self.buffer@.take(old(self).buffer.len() as int);
            if old(self).crowded() {
                assert(start =~= old(self).compacted());
            } else {
                assert(start =~= old(self).buffer@);
            }
        }
    }

    /// Takes note that `read` bytes were read into the buffer at the write cursor.
    pub fn commit_read(&mut self, read: usize)
        requires
            old(self).wf(),
            read <= old(self).buffer.len() - old(self).write_cursor,
        ensures
            final(self).wf(),
            final(self).buffer == old(self).buffer,
            final(self).read_cursor == old(self).read_cursor,
            final(self).write_cursor == old(self).write_cursor + read,
            final(self)@ == old(self)@ + old(self).buffer@.subrange(
                old(self).write_cursor as int,
                old(self).write_cursor + read,
            ),
    {
        self.write_cursor = self.write_cursor + read;
        assert(self@ =~= old(self)@ + self.buffer@.subrange(
            old(self).write_cursor as int,
            self.write_cursor as int,
        ));
    }

    /// Moves what is pending to the start of the buffer. The bytes behind it there stay.
    pub fn compact(&mut self)
        requires
            old(self).wf(),
        ensures
            final(self).wf(),
            final(self)@ == old(self)@,
            final(self).read_cursor == 0,
            final(self).write_cursor == old(self)@.len(),
            final(self).buffer.len() == old(self).buffer.len(),
            final(self).buffer@ == old(self).compacted(),
            old(self).read_cursor == 0 ==> *final(self) == *old(self),
    {
        if self.read_cursor > 0 {
            let pending: usize = self.write_cursor - self.read_cursor;
            let mut i: usize = 0;
            while i < pending
                invariant
                    i <= pending,
                    pending == self.write_cursor - self.read_cursor,
                    self.read_cursor > 0,
                    self.read_cursor == old(self).read_cursor,
                    self.write_cursor == old(self).write_cursor,
                    self.buffer.len() == old(self).buffer.len(),
                    old(self).wf(),
                    forall|j: int|
                        0 <= j < i ==> self.buffer[j] == old(self).buffer[self.read_cursor + j],
                    forall|j: int|
                        i <= j < self.buffer.len() ==> self.buffer[j] == old(self).buffer[j],
                decreases pending - i,
            {
                let byte: u8 = self.buffer[self.read_cursor + i];
                self.buffer[i] = byte;
                i = i + 1;
            }
            self.write_cursor = pending;
            self.read_cursor = 0;
        }
        assert(self@ =~= old(self)@);
        assert(self.buffer@ =~= old(self).compacted());
    }

    pub fn pending_data_len(&self) -> (len: usize)
        requires
            self.wf(),
        ensures
            len == self@.len(),
    {
        self.write_cursor - self.read_cursor
    }

    pub fn pending_data(&self) -> (data: &[u8])
        requires
            self.wf(),
        ensures
            data@ == self@,
    {
        slice_subrange(self.buffer.as_slice(), self.read_cursor, self.write_cursor)
    }

    /// What is pending without the sections of `replay_trim`; none if nothing of it is left.
    pub fn pending_data_excluding(&mut self, replay_trim: &[ReplayTrim]) -> (rest: Option<Vec<u8>>)
        requires
            old(self).wf(),
            can_trim(old(self)@, all_sections(replay_trim@), 0),
        ensures
            *final(self) == *old(self),
            replay_trim@.len() == 0 ==> rest is Some && rest.unwrap()@ == old(self)@,
            replay_trim@.len() > 0 ==> {
                let left = trimmed(old(self)@, all_sections(replay_trim@), 0);
                match rest {
                    Some(bytes) => left.len() > 0 && bytes@ == left,
                    None => left.len() == 0,
                }
            },
    {
        if replay_trim.len() == 0 {
            return Some(slice_to_vec(self.pending_data()));
        }
        let mut buffer: Vec<u8> = slice_to_vec(self.pending_data());
        let mut writer = ByteWriter::new(&mut buffer, 0);
        writer.trim_from_pending_commands(replay_trim);
        if writer.get_buffer().len() > 0 {
            return Some(buffer);
        }
        None
    }

    /// Marks the first `n` pending bytes as worked on.
    pub fn consume(&mut self, n: &usize) -> (result: Result<(), WireError>)
        requires
            old(self).wf(),
        ensures
            final(self).wf(),
            final(self).buffer == old(self).buffer,
            final(self).write_cursor == old(self).write_cursor,
            match result {
                Ok(_) => *n <= old(self)@.len() && final(self)@ == old(self)@.skip(*n as int),
                Err(error) => {
                    &&& *n > old(self)@.len()
                    &&& *final(self) == *old(self)
                    &&& error@ == (Failure {
                        kind: WireErrorKind::InvalidData,
                        message: CONSUMED_TOO_MUCH@,
                    })
                },
            },
    {
        if *n <= self.write_cursor - self.read_cursor {
            self.read_cursor = self.read_cursor + *n;
            assert(self@ =~= old(self)@.skip(*n as int));
            Ok(())
        } else {
            Err(
                WireError {
                    kind: WireErrorKind::InvalidData,
                    message: CONSUMED_TOO_MUCH.to_string(),
                },
            )
        }
    }

    pub fn is_empty(&self) -> (empty: bool)
        requires
            self.wf(),
        ensures
            empty == (self@.len() == 0),
    {
        self.read_cursor == self.write_cursor
    }
}

/// A buffer is crowded exactly if its free bytes are fewer than a quarter of it, rounded down.
pub proof fn law_crowded_below_a_quarter(state: BufferState)
    requires
        state.wf(),
    ensures
        state.crowded() <==> 4 * (state.buffer.len() - state.write_cursor + 1)
            <= state.buffer.len(),
{
}

/// The client's side of a connection.
pub struct ClientState {
    pub prepared_statements: StringHashMap<PreparedStatementState>,
    pub portals: StringHashMap<Portal>,
    pub framer: MessageFramer,
    pub buffer_state: BufferState,
    pub scratch: Scratch,
}

/// What a client has prepared and bound, and what of it waits for the next Sync.
#[verifier::ext_equal]
pub struct Session {
    pub statements: Map<Seq<char>, StatementText>,
    pub portals: Map<Seq<char>, PortalText>,
    pub scratch: ScratchState,
}

impl View for ClientState {
    type V = Session;

    open spec fn view(&self) -> Session {
        Session {
            statements: self.prepared_statements@.map_values(
                |statement: PreparedStatementState| statement@,
            ),
            portals: self.portals@.map_values(|portal: Portal| portal@),
            scratch: self.scratch@,
        }
    }
}

/// Every message has its type byte and its length.
pub open spec fn whole_entries(entries: Seq<EntryText>) -> bool {
    forall|i: int| 0 <= i < entries.len() ==> (#[trigger] entries[i]).bytes.len() >= 5
}

impl ClientState {
    pub open spec fn wf(self) -> bool {
        &&& self.framer.wf()
        &&& self.buffer_state.wf()
        &&& whole_entries(self@.scratch.entries)
        &&& scratch_in_order(self@.scratch)
    }

    /// The client's side of a new connection.
    pub fn new() -> (state: Self)
        ensures
            state.wf(),
            state@.statements == Map::<Seq<char>, StatementText>::empty(),
            state@.portals == Map::<Seq<char>, PortalText>::empty(),
            state@.scratch == empty_scratch(),
            state.framer@ == Seq::<u8>::empty(),
            state.buffer_state@ == Seq::<u8>::empty(),
            state.buffer_state.buffer.len() == 8 * 1024,
            forall|i: int| 0 <= i < 8 * 1024 ==> state.buffer_state.buffer[i] == 0,
            state.buffer_state.read_cursor == 0,
            state.buffer_state.write_cursor == 0,
    {
        let state = ClientState {
            prepared_statements: StringHashMap::new(),
            portals: StringHashMap::new(),
            framer: MessageFramer::new(),
            buffer_state: BufferState::with_size(8 * 1024),
            scratch: Scratch::new(),
        };
        assert(state@.statements =~= Map::<Seq<char>, StatementText>::empty());
        assert(state@.portals =~= Map::<Seq<char>, PortalText>::empty());
        state
    }
}

/// The database's side of a connection.
pub struct DBState {
    pub framer: MessageFramer,
    pub buffer_state: BufferState,
    pub scratch: Scratch,
}

impl DBState {
    pub open spec fn wf(self) -> bool {
        &&& self.framer.wf()
        &&& self.buffer_state.wf()
    }

    /// The database's side of a new connection.
    pub fn new() -> (state: Self)
        ensures
            state.wf(),
            state.framer@ == Seq::<u8>::empty(),
            state.buffer_state@ == Seq::<u8>::empty(),
            state.buffer_state.buffer.len() == 128 * 1024,
            forall|i: int| 0 <= i < 128 * 1024 ==> state.buffer_state.buffer[i] == 0,
            state.buffer_state.read_cursor == 0,
            state.buffer_state.write_cursor == 0,
            state.scratch@ == empty_scratch(),
    {
        DBState {
            framer: MessageFramer::new(),
            buffer_state: BufferState::with_size(128 * 1024),
            scratch: Scratch::new(),
        }
    }
}

/// What the handling of a message asks for.
#[derive(Debug)]
pub enum StateHandlingResult {
    Continue(WireProtocolStates),
    Break(String),
    Error(String),
}

/// A column of a result.
pub struct ColumnMetadata {
    pub name: String,
    pub table_oid: i32,
    pub attribute_number: i16,
    pub type_oid: i32,
    pub type_len: i16,
}

#[derive(Clone, Copy, Debug, PartialEq, Eq, Structural)]
pub enum ProtocolMode {
    Simple,
    Extended,
}

/// What a request asked to have described.
#[derive(Clone, Copy, Debug, PartialEq, Eq, Structural)]
pub enum DescribeKind {
    Nothing,
    Portal,
    Statement,
}

/// The requests up to a point at which the database reports that it is ready.
#[derive(Debug)]
pub struct Cycle {
    pub slots: Vec<CommandSlot>,
    pub synthesize_sync: bool,
}

/// What becomes of a message of a client.
#[derive(Debug)]
pub enum CommandSlot {
    /// Not configured: clean passthrough to the database.
    Passthrough(CommandSlotPassthrough),
    /// Belongs to a request that is answered from the cache.
    Skip(CommandSlotSkip),
    /// Cache hit: write these to the client, skip the database.
    Replay(CommandSlotReplay),
    /// Cache miss: the next response of the database belongs to this key.
    Capture(CommandSlotCapture),
}

#[derive(Debug)]
pub struct CommandSlotPassthrough {
    pub bytes: Vec<u8>,
    pub kind: MessageKind,
}

#[derive(Debug)]
pub struct CommandSlotSkip {
    pub bytes: Vec<u8>,
    pub kind: MessageKind,
}

#[derive(Debug)]
pub struct CommandSlotReplay {
    pub key: String,
    pub data: Arc<CachedResponse>,
    pub describe_kind: DescribeKind,
    pub protocol_mode: ProtocolMode,
    pub query: String,
}

#[derive(Debug)]
pub struct CommandSlotCapture {
    pub bytes: Vec<u8>,
    pub key: String,
    pub describe_kind: DescribeKind,
    pub protocol_mode: ProtocolMode,
    pub query: String,
    /// For how many seconds the response is cached.
    pub ttl: u64,
}

/// What a [`CommandSlotReplay`] holds.
pub struct ReplayText {
    pub key: Seq<char>,
    pub data: ResponseBytes,
    pub describe_kind: DescribeKind,
    pub protocol_mode: ProtocolMode,
    pub query: Seq<char>,
}

impl View for CommandSlotReplay {
    type V = ReplayText;

    open spec fn view(&self) -> ReplayText {
        ReplayText {
            key: self.key@,
            data: self.data@,
            describe_kind: self.describe_kind,
            protocol_mode: self.protocol_mode,
            query: self.query@,
        }
    }
}

impl Clone for CommandSlotReplay {
    fn clone(&self) -> (copy: Self)
        ensures
            copy@ == self@,
    {
        CommandSlotReplay {
            key: self.key.clone(),
            data: share(&self.data),
            describe_kind: self.describe_kind,
            protocol_mode: self.protocol_mode,
            query: self.query.clone(),
        }
    }
}

/// What a [`CommandSlotCapture`] holds.
pub struct CaptureText {
    pub bytes: Seq<u8>,
    pub key: Seq<char>,
    pub describe_kind: DescribeKind,
    pub protocol_mode: ProtocolMode,
    pub query: Seq<char>,
    pub ttl: u64,
}

impl View for CommandSlotCapture {
    type V = CaptureText;

    open spec fn view(&self) -> CaptureText {
        CaptureText {
            bytes: self.bytes@,
            key: self.key@,
            describe_kind: self.describe_kind,
            protocol_mode: self.protocol_mode,
            query: self.query@,
            ttl: self.ttl,
        }
    }
}

impl Clone for CommandSlotCapture {
    fn clone(&self) -> (copy: Self)
        ensures
            copy@ == self@,
    {
        CommandSlotCapture {
            bytes: slice_to_vec(self.bytes.as_slice()),
            key: self.key.clone(),
            describe_kind: self.describe_kind,
            protocol_mode: self.protocol_mode,
            query: self.query.clone(),
            ttl: self.ttl,
        }
    }
}

/// What a [`CommandSlot`] holds.
pub enum Slot {
    Passthrough { bytes: Seq<u8>, kind: MessageKind },
    Skip { bytes: Seq<u8>, kind: MessageKind },
    Replay(ReplayText),
    Capture(CaptureText),
}

impl View for CommandSlot {
    type V = Slot;

    open spec fn view(&self) -> Slot {
        match self {
            CommandSlot::Passthrough(slot) => Slot::Passthrough {
                bytes: slot.bytes@,
                kind: slot.kind,
            },
            CommandSlot::Skip(slot) => Slot::Skip { bytes: slot.bytes@, kind: slot.kind },
            CommandSlot::Replay(slot) => Slot::Replay(slot@),
            CommandSlot::Capture(slot) => Slot::Capture(slot@),
        }
    }
}

/// What each of a row of slots holds.
pub open spec fn slot_list(slots: Seq<CommandSlot>) -> Seq<Slot> {
    slots.map_values(|slot: CommandSlot| slot@)
}

/// What a [`Cycle`] holds.
pub struct CycleText {
    pub slots: Seq<Slot>,
    pub synthesize_sync: bool,
}

impl View for Cycle {
    type V = CycleText;

    open spec fn view(&self) -> CycleText {
        CycleText { slots: slot_list(self.slots@), synthesize_sync: self.synthesize_sync }
    }
}

/// What each of a row of cycles holds.
pub open spec fn cycle_list(cycles: Seq<Cycle>) -> Seq<CycleText> {
    cycles.map_values(|cycle: Cycle| cycle@)
}

/// Where a request that is answered from the cache stands among the pending bytes.
pub enum ReplayTrim {
    Extended(ReplayTrimExtended),
    Simple(ReplayTrimSimple),
}

pub struct ReplayTrimExtended {
    pub execute: Range<usize>,
    pub parse: Option<Range<usize>>,
    pub bind: Option<Range<usize>>,
    pub describe: Option<Range<usize>>,
    pub sync: Option<Range<usize>>,
}

impl ReplayTrimExtended {
    pub fn new() -> (trim: Self)
        ensures
            trim.execute == (Range { start: 0usize, end: 0usize }),
            trim.parse is None,
            trim.bind is None,
            trim.describe is None,
            trim.sync is None,
    {
        Self { execute: 0..0, parse: None, bind: None, describe: None, sync: None }
    }
}

pub struct ReplayTrimSimple {
    pub query: Range<usize>,
}

/// Under which key a response is cached, and for how many seconds.
#[derive(Debug)]
pub struct CachePlan {
    pub key: String,
    pub ttl: u64,
}

/// What a [`CachePlan`] says.
pub struct Plan {
    pub key: Seq<char>,
    pub ttl: u64,
}

impl View for CachePlan {
    type V = Plan;

    open spec fn view(&self) -> Plan {
        Plan { key: self.key@, ttl: self.ttl }
    }
}

} // verus!
