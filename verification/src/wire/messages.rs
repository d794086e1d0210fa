//! The messages of the protocol.
//!
//! The formats are those of
//! <https://www.postgresql.org/docs/current/protocol-message-formats.html>.
use vstd::prelude::*;
use vstd::slice::slice_to_vec;
use crate::wire::reader::{
    agrees, byte_at, bytes_at, cstring_at, long_at, negative_length, short_at, short_length_at,
    ByteReader, ByteReaderError, ByteReaderErrorKind, Fault,
};

verus! {

/// A message body that can be taken apart.
pub trait Decode {
    type Output: View;

    /// What the body says.
    spec fn content(&self) -> Result<<Self::Output as View>::V, Fault>;

    fn decode(&self) -> (result: Result<Self::Output, ByteReaderError>)
        ensures
            agrees(result, self.content()),
    ;
}

/// What is read after `before`, joined to it.
pub open spec fn joined<T>(before: Seq<T>, after: (Result<Seq<T>, Fault>, int)) -> (
    Result<Seq<T>, Fault>,
    int,
) {
    match after {
        (Ok(items), at) => (Ok(before + items), at),
        (Err(fault), at) => (Err(fault), at),
    }
}

/// `count` 16-bit numbers in a row at `at`.
pub open spec fn shorts_at(bytes: Seq<u8>, at: int, count: nat) -> (Result<Seq<i16>, Fault>, int)
    decreases count,
{
    if count == 0 {
        (Ok(Seq::empty()), at)
    } else {
        match short_at(bytes, at) {
            (Err(fault), next) => (Err(fault), next),
            (Ok(value), next) => joined(seq![value], shorts_at(bytes, next, (count - 1) as nat)),
        }
    }
}

/// `count` 32-bit numbers in a row at `at`.
pub open spec fn longs_at(bytes: Seq<u8>, at: int, count: nat) -> (Result<Seq<i32>, Fault>, int)
    decreases count,
{
    if count == 0 {
        (Ok(Seq::empty()), at)
    } else {
        match long_at(bytes, at) {
            (Err(fault), next) => (Err(fault), next),
            (Ok(value), next) => joined(seq![value], longs_at(bytes, next, (count - 1) as nat)),
        }
    }
}

pub const NEGATIVE_VALUE_LENGTH: &'static str =
    "the only case where this value should be negative is when the parameter '-1' which means
                          null";

/// The parameter value at `at`: its length, then its bytes. The length -1 stands for null.
pub open spec fn value_at(bytes: Seq<u8>, at: int) -> (Result<Option<Seq<u8>>, Fault>, int) {
    match long_at(bytes, at) {
        (Err(fault), next) => (Err(fault), next),
        (Ok(length), next) => if length == -1 {
            (Ok(None), next)
        } else if length < 0 {
            (Err(negative_length(NEGATIVE_VALUE_LENGTH@)), next)
        } else {
            match bytes_at(bytes, next, length as nat) {
                (Err(fault), end) => (Err(fault), end),
                (Ok(value), end) => (Ok(Some(value)), end),
            }
        },
    }
}

/// `count` parameter values in a row at `at`.
pub open spec fn values_at(bytes: Seq<u8>, at: int, count: nat) -> (
    Result<Seq<Option<Seq<u8>>>, Fault>,
    int,
)
    decreases count,
{
    if count == 0 {
        (Ok(Seq::empty()), at)
    } else {
        match value_at(bytes, at) {
            (Err(fault), next) => (Err(fault), next),
            (Ok(value), next) => joined(seq![value], values_at(bytes, next, (count - 1) as nat)),
        }
    }
}

/// A counted list of 16-bit numbers at `at`: first how many there are, then the numbers.
pub open spec fn counted_shorts_at(bytes: Seq<u8>, at: int) -> (Result<Seq<i16>, Fault>, int) {
    match short_length_at(bytes, at) {
        (Err(fault), next) => (Err(fault), next),
        (Ok(count), next) => shorts_at(bytes, next, count as nat),
    }
}

/// A counted list of 32-bit numbers at `at`.
pub open spec fn counted_longs_at(bytes: Seq<u8>, at: int) -> (Result<Seq<i32>, Fault>, int) {
    match short_length_at(bytes, at) {
        (Err(fault), next) => (Err(fault), next),
        (Ok(count), next) => longs_at(bytes, next, count as nat),
    }
}

/// A counted list of parameter values at `at`.
pub open spec fn counted_values_at(bytes: Seq<u8>, at: int) -> (
    Result<Seq<Option<Seq<u8>>>, Fault>,
    int,
) {
    match short_length_at(bytes, at) {
        (Err(fault), next) => (Err(fault), next),
        (Ok(count), next) => values_at(bytes, next, count as nat),
    }
}

/// The bytes of a value that may be null.
pub open spec fn optional_bytes(value: Option<Vec<u8>>) -> Option<Seq<u8>> {
    match value {
        Some(bytes) => Some(bytes@),
        None => None,
    }
}

/// The bytes of each of a row of values.
pub open spec fn value_list(values: Seq<Option<Vec<u8>>>) -> Seq<Option<Seq<u8>>> {
    values.map_values(|value: Option<Vec<u8>>| optional_bytes(value))
}

fn read_shorts(reader: &mut ByteReader) -> (result: Result<Vec<i16>, ByteReaderError>)
    ensures
        final(reader).buffer == old(reader).buffer,
        agrees(result, counted_shorts_at(old(reader).buffer@, old(reader).cursor as int).0),
        final(reader).cursor == counted_shorts_at(
            old(reader).buffer@,
            old(reader).cursor as int,
        ).1,
{
    let count: usize = match reader.read_i16_as_usize() {
        Ok(count) => count,
        Err(error) => return Err(error),
    };
    let mut items: Vec<i16> = Vec::with_capacity(count);
    let ghost bytes = reader.buffer@;
    let ghost start = reader.cursor as int;
    let mut i: usize = 0;
    assert(items@ + Seq::<i16>::empty() =~= items@);
    proof {
        if let (Ok(all), _) = shorts_at(bytes, start, count as nat) {
            assert(items@ + all =~= all);
        }
    }
    while i < count
        invariant
            i <= count,
            reader.buffer == old(reader).buffer,
            bytes == reader.buffer@,
            shorts_at(bytes, start, count as nat) == joined(
                items@,
                shorts_at(bytes, reader.cursor as int, (count - i) as nat),
            ),
            counted_shorts_at(old(reader).buffer@, old(reader).cursor as int) == shorts_at(
                bytes,
                start,
                count as nat,
            ),
        decreases count - i,
    {
        let ghost before = items@;
        match reader.read_i16() {
            Ok(item) => {
                items.push(item);
                proof {
                    let rest = shorts_at(bytes, reader.cursor as int, (count - i - 1) as nat);
                    if let (Ok(more), _) = rest {
                        assert(before + (seq![item] + more) =~= items@ + more);
                    }
                }
            },
            Err(error) => return Err(error),
        }
        i = i + 1;
    }
    assert(items@ + Seq::<i16>::empty() =~= items@);
    Ok(items)
}

fn read_longs(reader: &mut ByteReader) -> (result: Result<Vec<i32>, ByteReaderError>)
    ensures
        final(reader).buffer == old(reader).buffer,
        agrees(result, counted_longs_at(old(reader).buffer@, old(reader).cursor as int).0),
        final(reader).cursor == counted_longs_at(old(reader).buffer@, old(reader).cursor as int).1,
{
    let count: usize = match reader.read_i16_as_usize() {
        Ok(count) => count,
        Err(error) => return Err(error),
    };
    let mut items: Vec<i32> = Vec::with_capacity(count);
    let ghost bytes = reader.buffer@;
    let ghost start = reader.cursor as int;
    let mut i: usize = 0;
    proof {
        if let (Ok(all), _) = longs_at(bytes, start, count as nat) {
            assert(items@ + all =~= all);
        }
    }
    while i < count
        invariant
            i <= count,
            reader.buffer == old(reader).buffer,
            bytes == reader.buffer@,
            longs_at(bytes, start, count as nat) == joined(
                items@,
                longs_at(bytes, reader.cursor as int, (count - i) as nat),
            ),
            counted_longs_at(old(reader).buffer@, old(reader).cursor as int) == longs_at(
                bytes,
                start,
                count as nat,
            ),
        decreases count - i,
    {
        let ghost before = items@;
        match reader.read_i32() {
            Ok(item) => {
                items.push(item);
                proof {
                    let rest = longs_at(bytes, reader.cursor as int, (count - i - 1) as nat);
                    if let (Ok(more), _) = rest {
                        assert(before + (seq![item] + more) =~= items@ + more);
                    }
                }
            },
            Err(error) => return Err(error),
        }
        i = i + 1;
    }
    assert(items@ + Seq::<i32>::empty() =~= items@);
    Ok(items)
}

fn read_value(reader: &mut ByteReader) -> (result: Result<Option<Vec<u8>>, ByteReaderError>)
    ensures
        final(reader).buffer == old(reader).buffer,
        match (result, value_at(old(reader).buffer@, old(reader).cursor as int).0) {
            (Ok(value), Ok(content)) => optional_bytes(value) == content,
            (Err(error), Err(fault)) => error@ == fault,
            _ => false,
        },
        final(reader).cursor == value_at(old(reader).buffer@, old(reader).cursor as int).1,
{
    let length: i32 = match reader.read_i32() {
        Ok(length) => length,
        Err(error) => return Err(error),
    };
    if length == -1 {
        return Ok(None);
    }
    if length < 0 {
        return Err(
            ByteReaderError {
                kind: ByteReaderErrorKind::NegativeLength,
                message: NEGATIVE_VALUE_LENGTH.to_string(),
            },
        );
    }
    match reader.read_bytes(length as usize) {
        Ok(bytes) => Ok(Some(bytes)),
        Err(error) => Err(error),
    }
}

fn read_values(reader: &mut ByteReader) -> (result: Result<Vec<Option<Vec<u8>>>, ByteReaderError>)
    ensures
        final(reader).buffer == old(reader).buffer,
        match (result, counted_values_at(old(reader).buffer@, old(reader).cursor as int).0) {
            (Ok(values), Ok(content)) => value_list(values@) == content,
            (Err(error), Err(fault)) => error@ == fault,
            _ => false,
        },
        final(reader).cursor == counted_values_at(
            old(reader).buffer@,
            old(reader).cursor as int,
        ).1,
{
    let count: usize = match reader.read_i16_as_usize() {
        Ok(count) => count,
        Err(error) => return Err(error),
    };
    let mut items: Vec<Option<Vec<u8>>> = Vec::with_capacity(count);
    let ghost bytes = reader.buffer@;
    let ghost start = reader.cursor as int;
    let mut i: usize = 0;
    proof {
        if let (Ok(all), _) = values_at(bytes, start, count as nat) {
            assert(value_list(items@) + all =~= all);
        }
    }
    while i < count
        invariant
            i <= count,
            reader.buffer == old(reader).buffer,
            bytes == reader.buffer@,
            values_at(bytes, start, count as nat) == joined(
                value_list(items@),
                values_at(bytes, reader.cursor as int, (count - i) as nat),
            ),
            counted_values_at(old(reader).buffer@, old(reader).cursor as int) == values_at(
                bytes,
                start,
                count as nat,
            ),
        decreases count - i,
    {
        let ghost before = items@;
        match read_value(reader) {
            Ok(item) => {
                items.push(item);
                proof {
                    let rest = values_at(bytes, reader.cursor as int, (count - i - 1) as nat);
                    if let (Ok(more), _) = rest {
                        assert(value_list(before) + (seq![optional_bytes(item)] + more)
                            =~= value_list(items@) + more);
                    }
                }
            },
            Err(error) => return Err(error),
        }
        i = i + 1;
    }
    assert(value_list(items@) + Seq::<Option<Seq<u8>>>::empty() =~= value_list(items@));
    Ok(items)
}

/// The body of a simple query.
pub struct QueryMessageContent {
    pub query: String,
}

/// What a [`QueryMessageContent`] says.
pub struct QueryText {
    pub query: Seq<char>,
}

impl View for QueryMessageContent {
    type V = QueryText;

    open spec fn view(&self) -> QueryText {
        QueryText { query: self.query@ }
    }
}

pub struct Query {
    pub bytes: Vec<u8>,
}

/// The simple query in `bytes`.
pub open spec fn query_content(bytes: Seq<u8>) -> Result<QueryText, Fault> {
    match cstring_at(bytes, 0).0 {
        Err(fault) => Err(fault),
        Ok(query) => Ok(QueryText { query }),
    }
}

impl Decode for Query {
    type Output = QueryMessageContent;

    open spec fn content(&self) -> Result<QueryText, Fault> {
        query_content(self.bytes@)
    }

    fn decode(&self) -> (result: Result<QueryMessageContent, ByteReaderError>) {
        let mut reader = ByteReader::new(slice_to_vec(self.bytes.as_slice()), 0);
        match reader.read_cstring() {
            Ok(query) => Ok(QueryMessageContent { query }),
            Err(error) => Err(error),
        }
    }
}

/// The body of a request to prepare a statement.
pub struct ParseMessageContent {
    pub prepared_statement_name: String,
    pub query: String,
    pub parameter_data_types: Vec<i32>,
}

/// What a [`ParseMessageContent`] says.
pub struct ParseText {
    pub name: Seq<char>,
    pub query: Seq<char>,
    pub types: Seq<i32>,
}

impl View for ParseMessageContent {
    type V = ParseText;

    open spec fn view(&self) -> ParseText {
        ParseText {
            name: self.prepared_statement_name@,
            query: self.query@,
            types: self.parameter_data_types@,
        }
    }
}

pub struct Parse {
    pub bytes: Vec<u8>,
}

/// The request to prepare a statement in `bytes`: its name, its text, its parameter types.
pub open spec fn parse_content(bytes: Seq<u8>) -> Result<ParseText, Fault> {
    match cstring_at(bytes, 0) {
        (Err(fault), _) => Err(fault),
        (Ok(name), after_name) => match cstring_at(bytes, after_name) {
            (Err(fault), _) => Err(fault),
            (Ok(query), after_query) => match counted_longs_at(bytes, after_query).0 {
                Err(fault) => Err(fault),
                Ok(types) => Ok(ParseText { name, query, types }),
            },
        },
    }
}

impl Decode for Parse {
    type Output = ParseMessageContent;

    open spec fn content(&self) -> Result<ParseText, Fault> {
        parse_content(self.bytes@)
    }

    fn decode(&self) -> (result: Result<ParseMessageContent, ByteReaderError>) {
        let mut reader = ByteReader::new(slice_to_vec(self.bytes.as_slice()), 0);
        let prepared_statement_name: String = match reader.read_cstring() {
            Ok(name) => name,
            Err(error) => return Err(error),
        };
        let query: String = match reader.read_cstring() {
            Ok(query) => query,
            Err(error) => return Err(error),
        };
        match read_longs(&mut reader) {
            Ok(parameter_data_types) => Ok(
                ParseMessageContent { prepared_statement_name, query, parameter_data_types },
            ),
            Err(error) => Err(error),
        }
    }
}

/// The body of a request to bind parameter values to a statement.
pub struct BindMessageContent {
    pub portal_name: String,
    pub source_prepared_statement_name: String,
    /// If this is empty it should be interpreted as text format for all values.
    pub parameter_format_codes: Vec<i16>,
    pub parameter_values: Vec<Option<Vec<u8>>>,
    pub result_column_format_codes: Vec<i16>,
}

/// What a [`BindMessageContent`] says.
pub struct BindText {
    pub portal: Seq<char>,
    pub statement: Seq<char>,
    pub parameter_formats: Seq<i16>,
    pub values: Seq<Option<Seq<u8>>>,
    pub result_formats: Seq<i16>,
}

impl View for BindMessageContent {
    type V = BindText;

    open spec fn view(&self) -> BindText {
        BindText {
            portal: self.portal_name@,
            statement: self.source_prepared_statement_name@,
            parameter_formats: self.parameter_format_codes@,
            values: value_list(self.parameter_values@),
            result_formats: self.result_column_format_codes@,
        }
    }
}

pub struct Bind {
    pub bytes: Vec<u8>,
}

/// The request to bind in `bytes`: the portal, the statement, the parameters' formats, their
/// values, the formats of the result columns.
pub open spec fn bind_content(bytes: Seq<u8>) -> Result<BindText, Fault> {
    match cstring_at(bytes, 0) {
        (Err(fault), _) => Err(fault),
        (Ok(portal), after_portal) => match cstring_at(bytes, after_portal) {
            (Err(fault), _) => Err(fault),
            (Ok(statement), after_statement) => match counted_shorts_at(bytes, after_statement) {
                (Err(fault), _) => Err(fault),
                (Ok(parameter_formats), after_formats) => match counted_values_at(
                    bytes,
                    after_formats,
                ) {
                    (Err(fault), _) => Err(fault),
                    (Ok(values), after_values) => match counted_shorts_at(bytes, after_values).0 {
                        Err(fault) => Err(fault),
                        Ok(result_formats) => Ok(
                            BindText {
                                portal,
                                statement,
                                parameter_formats,
                                values,
                                result_formats,
                            },
                        ),
                    },
                },
            },
        },
    }
}

impl Decode for Bind {
    type Output = BindMessageContent;

    open spec fn content(&self) -> Result<BindText, Fault> {
        bind_content(self.bytes@)
    }

    fn decode(&self) -> (result: Result<BindMessageContent, ByteReaderError>) {
        let mut reader = ByteReader::new(slice_to_vec(self.bytes.as_slice()), 0);
        let portal_name: String = match reader.read_cstring() {
            Ok(name) => name,
            Err(error) => return Err(error),
        };
        let source_prepared_statement_name: String = match reader.read_cstring() {
            Ok(name) => name,
            Err(error) => return Err(error),
        };
        let parameter_format_codes: Vec<i16> = match read_shorts(&mut reader) {
            Ok(codes) => codes,
            Err(error) => return Err(error),
        };
        let parameter_values: Vec<Option<Vec<u8>>> = match read_values(&mut reader) {
            Ok(values) => values,
            Err(error) => return Err(error),
        };
        let result_column_format_codes: Vec<i16> = match read_shorts(&mut reader) {
            Ok(codes) => codes,
            Err(error) => return Err(error),
        };
        Ok(
            BindMessageContent {
                portal_name,
                source_prepared_statement_name,
                parameter_format_codes,
                parameter_values,
                result_column_format_codes,
            },
        )
    }
}

/// `S`: a prepared statement is meant.
pub const STATEMENT_TARGET: u8 = 0x53;

/// `P`: a portal is meant.
pub const PORTAL_TARGET: u8 = 0x50;

pub const UNKNOWN_TARGET: &'static str = "target byte must be 'S' or 'P'";

/// The fault of a target byte that is neither `S` nor `P`.
pub open spec fn unknown_target() -> Fault {
    Fault { kind: ByteReaderErrorKind::ProtocolError, message: UNKNOWN_TARGET@ }
}

fn unknown_target_error() -> (error: ByteReaderError)
    ensures
        error@ == unknown_target(),
{
    ByteReaderError {
        kind: ByteReaderErrorKind::ProtocolError,
        message: UNKNOWN_TARGET.to_string(),
    }
}

/// What a request to describe asks about.
#[derive(Clone, Copy, Debug, PartialEq, Eq, Structural)]
pub enum DescribeMessageContentTarget {
    PreparedStatement,
    Portal,
}

/// The target that `byte` stands for.
pub open spec fn describe_target(byte: u8) -> Result<DescribeMessageContentTarget, Fault> {
    if byte == STATEMENT_TARGET {
        Ok(DescribeMessageContentTarget::PreparedStatement)
    } else if byte == PORTAL_TARGET {
        Ok(DescribeMessageContentTarget::Portal)
    } else {
        Err(unknown_target())
    }
}

impl View for DescribeMessageContentTarget {
    type V = Self;

    open spec fn view(&self) -> Self {
        *self
    }
}

impl DescribeMessageContentTarget {
    pub fn try_from(value: u8) -> (result: Result<Self, ByteReaderError>)
        ensures
            agrees(result, describe_target(value)),
    {
        if value == STATEMENT_TARGET {
            Ok(Self::PreparedStatement)
        } else if value == PORTAL_TARGET {
            Ok(Self::Portal)
        } else {
            Err(unknown_target_error())
        }
    }

    pub fn to_string(&self) -> (text: String)
        ensures
            text@ == match self {
                Self::PreparedStatement => "PreparedStatement"@,
                Self::Portal => "Portal"@,
            },
    {
        match self {
            Self::PreparedStatement => "PreparedStatement".to_string(),
            Self::Portal => "Portal".to_string(),
        }
    }
}

/// The body of a request to describe.
pub struct DescribeMessageContent {
    /// `S` means prepared statement and `P` means portal.
    pub target: DescribeMessageContentTarget,
    /// The name of the target to describe, if empty it's the unnamed one.
    pub name: String,
}

/// What a [`DescribeMessageContent`] says.
pub struct DescribeText {
    pub target: DescribeMessageContentTarget,
    pub name: Seq<char>,
}

impl View for DescribeMessageContent {
    type V = DescribeText;

    open spec fn view(&self) -> DescribeText {
        DescribeText { target: self.target, name: self.name@ }
    }
}

pub struct Describe {
    pub bytes: Vec<u8>,
}

/// The request to describe in `bytes`.
pub open spec fn describe_content(bytes: Seq<u8>) -> Result<DescribeText, Fault> {
    match byte_at(bytes, 0) {
        (Err(fault), _) => Err(fault),
        (Ok(byte), next) => match describe_target(byte) {
            Err(fault) => Err(fault),
            Ok(target) => match cstring_at(bytes, next).0 {
                Err(fault) => Err(fault),
                Ok(name) => Ok(DescribeText { target, name }),
            },
        },
    }
}

impl Decode for Describe {
    type Output = DescribeMessageContent;

    open spec fn content(&self) -> Result<DescribeText, Fault> {
        describe_content(self.bytes@)
    }

    fn decode(&self) -> (result: Result<DescribeMessageContent, ByteReaderError>) {
        let mut reader = ByteReader::new(slice_to_vec(self.bytes.as_slice()), 0);
        let byte: u8 = match reader.read_u8() {
            Ok(byte) => byte,
            Err(error) => return Err(error),
        };
        let target = match DescribeMessageContentTarget::try_from(byte) {
            Ok(target) => target,
            Err(error) => return Err(error),
        };
        match reader.read_cstring() {
            Ok(name) => Ok(DescribeMessageContent { target, name }),
            Err(error) => Err(error),
        }
    }
}

/// The body of a request to execute a portal.
pub struct ExecuteMessageContent {
    /// The name of the target (portal) to execute, if empty it's the unnamed one.
    pub name: String,
    pub rows_to_return_limit: i32,
}

/// What an [`ExecuteMessageContent`] says.
pub struct ExecuteText {
    pub portal: Seq<char>,
    pub row_limit: i32,
}

impl View for ExecuteMessageContent {
    type V = ExecuteText;

    open spec fn view(&self) -> ExecuteText {
        ExecuteText { portal: self.name@, row_limit: self.rows_to_return_limit }
    }
}

pub struct Execute {
    pub bytes: Vec<u8>,
}

/// The request to execute in `bytes`.
pub open spec fn execute_content(bytes: Seq<u8>) -> Result<ExecuteText, Fault> {
    match cstring_at(bytes, 0) {
        (Err(fault), _) => Err(fault),
        (Ok(portal), next) => match long_at(bytes, next).0 {
            Err(fault) => Err(fault),
            Ok(row_limit) => Ok(ExecuteText { portal, row_limit }),
        },
    }
}

impl Decode for Execute {
    type Output = ExecuteMessageContent;

    open spec fn content(&self) -> Result<ExecuteText, Fault> {
        execute_content(self.bytes@)
    }

    fn decode(&self) -> (result: Result<ExecuteMessageContent, ByteReaderError>) {
        let mut reader = ByteReader::new(slice_to_vec(self.bytes.as_slice()), 0);
        let name: String = match reader.read_cstring() {
            Ok(name) => name,
            Err(error) => return Err(error),
        };
        match reader.read_i32() {
            Ok(rows_to_return_limit) => Ok(ExecuteMessageContent { name, rows_to_return_limit }),
            Err(error) => Err(error),
        }
    }
}

/// What a request to close is about.
#[derive(Clone, Copy, Debug, PartialEq, Eq, Structural)]
pub enum CloseMessageContentTarget {
    PreparedStatement,
    Portal,
}

/// The target that `byte` stands for.
pub open spec fn close_target(byte: u8) -> Result<CloseMessageContentTarget, Fault> {
    if byte == STATEMENT_TARGET {
        Ok(CloseMessageContentTarget::PreparedStatement)
    } else if byte == PORTAL_TARGET {
        Ok(CloseMessageContentTarget::Portal)
    } else {
        Err(unknown_target())
    }
}

impl View for CloseMessageContentTarget {
    type V = Self;

    open spec fn view(&self) -> Self {
        *self
    }
}

impl CloseMessageContentTarget {
    pub fn try_from(value: u8) -> (result: Result<Self, ByteReaderError>)
        ensures
            agrees(result, close_target(value)),
    {
        if value == STATEMENT_TARGET {
            Ok(Self::PreparedStatement)
        } else if value == PORTAL_TARGET {
            Ok(Self::Portal)
        } else {
            Err(unknown_target_error())
        }
    }

    pub fn to_string(&self) -> (text: String)
        ensures
            text@ == match self {
                Self::PreparedStatement => "PreparedStatement"@,
                Self::Portal => "Portal"@,
            },
    {
        match self {
            Self::PreparedStatement => "PreparedStatement".to_string(),
            Self::Portal => "Portal".to_string(),
        }
    }
}

/// The body of a request to close.
pub struct CloseMessageContent {
    pub target: CloseMessageContentTarget,
    pub name: String,
}

/// What a [`CloseMessageContent`] says.
pub struct CloseText {
    pub target: CloseMessageContentTarget,
    pub name: Seq<char>,
}

impl View for CloseMessageContent {
    type V = CloseText;

    open spec fn view(&self) -> CloseText {
        CloseText { target: self.target, name: self.name@ }
    }
}

pub struct Close {
    pub bytes: Vec<u8>,
}

/// The request to close in `bytes`.
pub open spec fn close_content(bytes: Seq<u8>) -> Result<CloseText, Fault> {
    match byte_at(bytes, 0) {
        (Err(fault), _) => Err(fault),
        (Ok(byte), next) => match close_target(byte) {
            Err(fault) => Err(fault),
            Ok(target) => match cstring_at(bytes, next).0 {
                Err(fault) => Err(fault),
                Ok(name) => Ok(CloseText { target, name }),
            },
        },
    }
}

impl Decode for Close {
    type Output = CloseMessageContent;

    open spec fn content(&self) -> Result<CloseText, Fault> {
        close_content(self.bytes@)
    }

    fn decode(&self) -> (result: Result<CloseMessageContent, ByteReaderError>) {
        let mut reader = ByteReader::new(slice_to_vec(self.bytes.as_slice()), 0);
        let byte: u8 = match reader.read_u8() {
            Ok(byte) => byte,
            Err(error) => return Err(error),
        };
        let target = match CloseMessageContentTarget::try_from(byte) {
            Ok(target) => target,
            Err(error) => return Err(error),
        };
        match reader.read_cstring() {
            Ok(name) => Ok(CloseMessageContent { target, name }),
            Err(error) => Err(error),
        }
    }
}

} // verus!
