//! What is written out in the format of the protocol is read back, and what is not in that format
//! is refused.
use vstd::prelude::*;
use vstd::utf8::{encode_utf8, encode_utf8_decode_utf8, encode_utf8_valid_utf8, valid_utf8};
use crate::wire::messages::{
    bind_content, close_content, counted_longs_at, counted_shorts_at, counted_values_at,
    describe_content, execute_content, longs_at, parse_content, query_content, shorts_at,
    unknown_target, value_at, values_at, BindText, CloseMessageContentTarget, CloseText,
    DescribeMessageContentTarget, DescribeText, ExecuteText, ParseText, QueryText,
    NEGATIVE_VALUE_LENGTH, PORTAL_TARGET, STATEMENT_TARGET,
};
use crate::wire::numbers::{i16_bytes, i32_bytes, law_i16_round_trip, law_i32_round_trip};
use crate::wire::reader::{
    byte_at, bytes_at, cstring_at, end_of_buffer, long_at, long_length_at, negative_length,
    out_of_bounds, short_at, short_length_at, terminator, utf8_error_text, ByteReaderErrorKind,
    Fault, NEGATIVE_I16, NEGATIVE_I32,
};

verus! {

/// A text that can stand in a message: no zero byte ends it early.
pub open spec fn plain(text: Seq<char>) -> bool {
    forall|i: int| 0 <= i < encode_utf8(text).len() ==> #[trigger] encode_utf8(text)[i] != 0
}

/// How a text stands in a message: its bytes and a zero byte.
pub open spec fn text_bytes(text: Seq<char>) -> Seq<u8> {
    encode_utf8(text) + seq![0u8]
}

/// How 16-bit numbers stand in a message, one behind the other.
pub open spec fn shorts_bytes(numbers: Seq<i16>) -> Seq<u8>
    decreases numbers.len(),
{
    if numbers.len() == 0 {
        Seq::empty()
    } else {
        i16_bytes(numbers[0] as int) + shorts_bytes(numbers.skip(1))
    }
}

/// How 32-bit numbers stand in a message, one behind the other.
pub open spec fn longs_bytes(numbers: Seq<i32>) -> Seq<u8>
    decreases numbers.len(),
{
    if numbers.len() == 0 {
        Seq::empty()
    } else {
        i32_bytes(numbers[0] as int) + longs_bytes(numbers.skip(1))
    }
}

/// How a value stands in a message: its length and its bytes, or the length -1 for null.
pub open spec fn value_bytes(value: Option<Seq<u8>>) -> Seq<u8> {
    match value {
        Some(bytes) => i32_bytes(bytes.len() as int) + bytes,
        None => i32_bytes(-1),
    }
}

/// How values stand in a message, one behind the other.
pub open spec fn values_bytes(values: Seq<Option<Seq<u8>>>) -> Seq<u8>
    decreases values.len(),
{
    if values.len() == 0 {
        Seq::empty()
    } else {
        value_bytes(values[0]) + values_bytes(values.skip(1))
    }
}

/// The lengths of the values can be said in a message.
pub open spec fn values_fit(values: Seq<Option<Seq<u8>>>) -> bool {
    forall|i: int|
        0 <= i < values.len() && (#[trigger] values[i]) is Some ==> values[i]->0.len() <= i32::MAX
}

proof fn lemma_terminator(bytes: Seq<u8>, at: int, end: int)
    requires
        0 <= at <= end <= bytes.len(),
        forall|i: int| at <= i < end ==> bytes[i] != 0,
        end < bytes.len() ==> bytes[end] == 0,
    ensures
        terminator(bytes, at) == end,
    decreases end - at,
{
    if at < end {
        lemma_terminator(bytes, at + 1, end);
    }
}

/// A text is read back, and reading goes on behind its zero byte.
pub proof fn law_text_is_read_back(before: Seq<u8>, text: Seq<char>, after: Seq<u8>)
    requires
        plain(text),
    ensures
        cstring_at(before + text_bytes(text) + after, before.len() as int) == (
            Ok::<Seq<char>, Fault>(text),
            (before.len() + text_bytes(text).len()) as int,
        ),
{
    let all = before + text_bytes(text) + after;
    let at = before.len() as int;
    let end = at + encode_utf8(text).len();
    assert forall|i: int| at <= i < end implies all[i] != 0 by {
        assert(all[i] == encode_utf8(text)[i - at]);
    }
    assert(all[end] == 0);
    lemma_terminator(all, at, end);
    assert(all.subrange(at, end) =~= encode_utf8(text));
    encode_utf8_valid_utf8(text);
    encode_utf8_decode_utf8(text);
}

/// A text without a zero byte at its end cannot be read, and one that is not UTF-8 neither.
pub proof fn law_broken_text_is_refused(before: Seq<u8>, text: Seq<u8>, after: Seq<u8>)
    requires
        forall|i: int| 0 <= i < text.len() ==> #[trigger] text[i] != 0,
    ensures
        cstring_at(before + text, before.len() as int) == (
            Err::<Seq<char>, Fault>(end_of_buffer()),
            (before.len() + text.len()) as int,
        ),
        !valid_utf8(text) ==> cstring_at(before + text + seq![0u8] + after, before.len() as int)
            == (
            Err::<Seq<char>, Fault>(
                Fault {
                    kind: ByteReaderErrorKind::ParsingString,
                    message: utf8_error_text(text),
                },
            ),
            (before.len() + text.len() + 1) as int,
        ),
{
    let at = before.len() as int;
    let end = at + text.len();
    let cut = before + text;
    assert forall|i: int| at <= i < end implies cut[i] != 0 by {
        assert(cut[i] == text[i - at]);
    }
    lemma_terminator(cut, at, end);
    let all = before + text + seq![0u8] + after;
    assert forall|i: int| at <= i < end implies all[i] != 0 by {
        assert(all[i] == text[i - at]);
    }
    assert(all[end] == 0);
    lemma_terminator(all, at, end);
    assert(all.subrange(at, end) =~= text);
}

/// Numbers, bytes and lengths are read back, and reading goes on behind them.
pub proof fn law_numbers_are_read_back(before: Seq<u8>, short: i16, long: i32, after: Seq<u8>)
    ensures
        short_at(before + i16_bytes(short as int) + after, before.len() as int) == (
            Ok::<i16, Fault>(short),
            (before.len() + 2) as int,
        ),
        long_at(before + i32_bytes(long as int) + after, before.len() as int) == (
            Ok::<i32, Fault>(long),
            (before.len() + 4) as int,
        ),
        short_length_at(before + i16_bytes(short as int) + after, before.len() as int) == (
            if short < 0 {
                Err::<usize, Fault>(negative_length(NEGATIVE_I16@))
            } else {
                Ok(short as usize)
            },
            (before.len() + 2) as int,
        ),
        long_length_at(before + i32_bytes(long as int) + after, before.len() as int) == (
            if long < 0 {
                Err::<usize, Fault>(negative_length(NEGATIVE_I32@))
            } else {
                Ok(long as usize)
            },
            (before.len() + 4) as int,
        ),
{
    law_i16_round_trip(short, before, after);
    law_i32_round_trip(long, before, after);
}

/// A byte and some bytes are read as they stand.
pub proof fn law_bytes_are_read_back(before: Seq<u8>, bytes: Seq<u8>, after: Seq<u8>)
    requires
        bytes.len() + after.len() > 0,
    ensures
        bytes_at(before + bytes + after, before.len() as int, bytes.len()) == (
            Ok::<Seq<u8>, Fault>(bytes),
            (before.len() + bytes.len()) as int,
        ),
        bytes.len() > 0 ==> byte_at(before + bytes + after, before.len() as int) == (
            Ok::<u8, Fault>(bytes[0]),
            (before.len() + 1) as int,
        ),
{
    let all = before + bytes + after;
    assert(all.subrange(before.len() as int, (before.len() + bytes.len()) as int) =~= bytes);
}

/// What is cut off cannot be read: at the end of the bytes that is said, and before it, how many
/// bytes were needed. Reading stays where it is.
pub proof fn law_cut_off_is_refused(bytes: Seq<u8>, at: int, needed: nat)
    requires
        0 <= at,
        at + needed > bytes.len(),
    ensures
        ({
            let fault = if at < bytes.len() {
                out_of_bounds(needed)
            } else {
                end_of_buffer()
            };
            &&& bytes_at(bytes, at, needed) == (Err::<Seq<u8>, Fault>(fault), at)
            &&& needed == 2 ==> short_at(bytes, at) == (Err::<i16, Fault>(fault), at)
            &&& needed == 2 ==> short_length_at(bytes, at) == (Err::<usize, Fault>(fault), at)
            &&& needed == 4 ==> long_at(bytes, at) == (Err::<i32, Fault>(fault), at)
            &&& needed == 4 ==> long_length_at(bytes, at) == (Err::<usize, Fault>(fault), at)
            &&& needed == 1 ==> byte_at(bytes, at) == (Err::<u8, Fault>(end_of_buffer()), at)
        }),
{
}

proof fn lemma_shorts(before: Seq<u8>, numbers: Seq<i16>, after: Seq<u8>)
    ensures
        shorts_at(before + shorts_bytes(numbers) + after, before.len() as int, numbers.len()) == (
            Ok::<Seq<i16>, Fault>(numbers),
            (before.len() + shorts_bytes(numbers).len()) as int,
        ),
    decreases numbers.len(),
{
    let all = before + shorts_bytes(numbers) + after;
    if numbers.len() == 0 {
        assert(numbers =~= Seq::<i16>::empty());
    } else {
        let first = i16_bytes(numbers[0] as int);
        let rest = numbers.skip(1);
        assert(all =~= before + first + (shorts_bytes(rest) + after));
        law_numbers_are_read_back(before, numbers[0], 0, shorts_bytes(rest) + after);
        assert(all =~= (before + first) + shorts_bytes(rest) + after);
        lemma_shorts(before + first, rest, after);
        assert(seq![numbers[0]] + rest =~= numbers);
    }
}

proof fn lemma_longs(before: Seq<u8>, numbers: Seq<i32>, after: Seq<u8>)
    ensures
        longs_at(before + longs_bytes(numbers) + after, before.len() as int, numbers.len()) == (
            Ok::<Seq<i32>, Fault>(numbers),
            (before.len() + longs_bytes(numbers).len()) as int,
        ),
    decreases numbers.len(),
{
    let all = before + longs_bytes(numbers) + after;
    if numbers.len() == 0 {
        assert(numbers =~= Seq::<i32>::empty());
    } else {
        let first = i32_bytes(numbers[0] as int);
        let rest = numbers.skip(1);
        assert(all =~= before + first + (longs_bytes(rest) + after));
        law_numbers_are_read_back(before, 0, numbers[0], longs_bytes(rest) + after);
        assert(all =~= (before + first) + longs_bytes(rest) + after);
        lemma_longs(before + first, rest, after);
        assert(seq![numbers[0]] + rest =~= numbers);
    }
}

/// A value is read back, null as null, and reading goes on behind it.
pub proof fn law_value_is_read_back(before: Seq<u8>, value: Option<Seq<u8>>, after: Seq<u8>)
    requires
        value is Some ==> value->0.len() <= i32::MAX,
        after.len() > 0,
    ensures
        value_at(before + value_bytes(value) + after, before.len() as int) == (
            Ok::<Option<Seq<u8>>, Fault>(value),
            (before.len() + value_bytes(value).len()) as int,
        ),
{
    let all = before + value_bytes(value) + after;
    match value {
        Some(bytes) => {
            let length = i32_bytes(bytes.len() as int);
            assert(all =~= before + length + (bytes + after));
            law_numbers_are_read_back(before, 0, bytes.len() as i32, bytes + after);
            assert(all =~= (before + length) + bytes + after);
            law_bytes_are_read_back(before + length, bytes, after);
        },
        None => {
            law_numbers_are_read_back(before, 0, -1i32, after);
        },
    }
}

/// A value with a length below -1 is refused.
pub proof fn law_negative_value_length_is_refused(before: Seq<u8>, length: i32, after: Seq<u8>)
    requires
        length < -1,
    ensures
        value_at(before + i32_bytes(length as int) + after, before.len() as int).0 == Err::<
            Option<Seq<u8>>,
            Fault,
        >(negative_length(NEGATIVE_VALUE_LENGTH@)),
{
    law_numbers_are_read_back(before, 0, length, after);
}

pub(crate) proof fn lemma_values(before: Seq<u8>, values: Seq<Option<Seq<u8>>>, after: Seq<u8>)
    requires
        values_fit(values),
        after.len() > 0,
    ensures
        values_at(before + values_bytes(values) + after, before.len() as int, values.len()) == (
            Ok::<Seq<Option<Seq<u8>>>, Fault>(values),
            (before.len() + values_bytes(values).len()) as int,
        ),
    decreases values.len(),
{
    let all = before + values_bytes(values) + after;
    if values.len() == 0 {
        assert(values =~= Seq::<Option<Seq<u8>>>::empty());
    } else {
        let first = value_bytes(values[0]);
        let rest = values.skip(1);
        assert(all =~= before + first + (values_bytes(rest) + after));
        law_value_is_read_back(before, values[0], values_bytes(rest) + after);
        assert(all =~= (before + first) + values_bytes(rest) + after);
        assert(values_fit(rest)) by {
            assert forall|i: int| 0 <= i < rest.len() && (#[trigger] rest[i]) is Some implies
                rest[i]->0.len() <= i32::MAX by {
                assert(rest[i] == values[i + 1]);
            }
        }
        lemma_values(before + first, rest, after);
        assert(seq![values[0]] + rest =~= values);
    }
}

/// How a counted list stands in a message: how many there are, and `bytes` behind that.
pub open spec fn counted(count: nat, bytes: Seq<u8>) -> Seq<u8> {
    i16_bytes(count as int) + bytes
}

proof fn lemma_counted_shorts(before: Seq<u8>, numbers: Seq<i16>, after: Seq<u8>)
    requires
        numbers.len() <= i16::MAX,
    ensures
        counted_shorts_at(
            before + counted(numbers.len(), shorts_bytes(numbers)) + after,
            before.len() as int,
        ) == (
            Ok::<Seq<i16>, Fault>(numbers),
            (before.len() + counted(numbers.len(), shorts_bytes(numbers)).len()) as int,
        ),
{
    let all = before + counted(numbers.len(), shorts_bytes(numbers)) + after;
    let count = i16_bytes(numbers.len() as int);
    assert(all =~= before + count + (shorts_bytes(numbers) + after));
    law_numbers_are_read_back(before, numbers.len() as i16, 0, shorts_bytes(numbers) + after);
    assert(all =~= (before + count) + shorts_bytes(numbers) + after);
    lemma_shorts(before + count, numbers, after);
}

proof fn lemma_counted_longs(before: Seq<u8>, numbers: Seq<i32>, after: Seq<u8>)
    requires
        numbers.len() <= i16::MAX,
    ensures
        counted_longs_at(
            before + counted(numbers.len(), longs_bytes(numbers)) + after,
            before.len() as int,
        ) == (
            Ok::<Seq<i32>, Fault>(numbers),
            (before.len() + counted(numbers.len(), longs_bytes(numbers)).len()) as int,
        ),
{
    let all = before + counted(numbers.len(), longs_bytes(numbers)) + after;
    let count = i16_bytes(numbers.len() as int);
    assert(all =~= before + count + (longs_bytes(numbers) + after));
    law_numbers_are_read_back(before, numbers.len() as i16, 0, longs_bytes(numbers) + after);
    assert(all =~= (before + count) + longs_bytes(numbers) + after);
    lemma_longs(before + count, numbers, after);
}

proof fn lemma_counted_values(before: Seq<u8>, values: Seq<Option<Seq<u8>>>, after: Seq<u8>)
    requires
        values.len() <= i16::MAX,
        values_fit(values),
        after.len() > 0,
    ensures
        counted_values_at(
            before + counted(values.len(), values_bytes(values)) + after,
            before.len() as int,
        ) == (
            Ok::<Seq<Option<Seq<u8>>>, Fault>(values),
            (before.len() + counted(values.len(), values_bytes(values)).len()) as int,
        ),
{
    let all = before + counted(values.len(), values_bytes(values)) + after;
    let count = i16_bytes(values.len() as int);
    assert(all =~= before + count + (values_bytes(values) + after));
    law_numbers_are_read_back(before, values.len() as i16, 0, values_bytes(values) + after);
    assert(all =~= (before + count) + values_bytes(values) + after);
    lemma_values(before + count, values, after);
}

/// A count below zero is refused.
pub proof fn law_negative_count_is_refused(before: Seq<u8>, count: i16, after: Seq<u8>)
    requires
        count < 0,
    ensures
        ({
            let all = before + i16_bytes(count as int) + after;
            let at = before.len() as int;
            let fault = negative_length(NEGATIVE_I16@);
            &&& counted_shorts_at(all, at).0 == Err::<Seq<i16>, Fault>(fault)
            &&& counted_longs_at(all, at).0 == Err::<Seq<i32>, Fault>(fault)
            &&& counted_values_at(all, at).0 == Err::<Seq<Option<Seq<u8>>>, Fault>(fault)
        }),
{
    law_numbers_are_read_back(before, count, 0, after);
}

/// A simple query is read back.
pub proof fn law_query_is_read_back(content: QueryText, rest: Seq<u8>)
    requires
        plain(content.query),
    ensures
        query_content(text_bytes(content.query) + rest) == Ok::<QueryText, Fault>(content),
{
    assert(Seq::<u8>::empty() + text_bytes(content.query) + rest =~= text_bytes(content.query)
        + rest);
    law_text_is_read_back(Seq::empty(), content.query, rest);
}

/// How a request to prepare stands in a message.
pub open spec fn parse_bytes(content: ParseText) -> Seq<u8> {
    text_bytes(content.name) + text_bytes(content.query) + counted(
        content.types.len(),
        longs_bytes(content.types),
    )
}

/// A request to prepare is read back: its name, its text and its parameter types.
pub proof fn law_parse_is_read_back(content: ParseText, rest: Seq<u8>)
    requires
        plain(content.name),
        plain(content.query),
        content.types.len() <= i16::MAX,
    ensures
        parse_content(parse_bytes(content) + rest) == Ok::<ParseText, Fault>(content),
{
    let all = parse_bytes(content) + rest;
    let name = text_bytes(content.name);
    let query = text_bytes(content.query);
    let types = counted(content.types.len(), longs_bytes(content.types));
    assert(all =~= Seq::<u8>::empty() + name + (query + types + rest));
    law_text_is_read_back(Seq::empty(), content.name, query + types + rest);
    assert(all =~= name + query + (types + rest));
    law_text_is_read_back(name, content.query, types + rest);
    assert(all =~= (name + query) + types + rest);
    lemma_counted_longs(name + query, content.types, rest);
}

/// How a request to bind stands in a message.
pub open spec fn bind_bytes(content: BindText) -> Seq<u8> {
    text_bytes(content.portal) + text_bytes(content.statement) + counted(
        content.parameter_formats.len(),
        shorts_bytes(content.parameter_formats),
    ) + counted(content.values.len(), values_bytes(content.values)) + counted(
        content.result_formats.len(),
        shorts_bytes(content.result_formats),
    )
}

/// A request to bind is read back: its portal, its statement, its values, null as null, and the
/// formats.
pub proof fn law_bind_is_read_back(content: BindText, rest: Seq<u8>)
    requires
        plain(content.portal),
        plain(content.statement),
        content.parameter_formats.len() <= i16::MAX,
        content.values.len() <= i16::MAX,
        values_fit(content.values),
        content.result_formats.len() <= i16::MAX,
    ensures
        bind_content(bind_bytes(content) + rest) == Ok::<BindText, Fault>(content),
{
    let all = bind_bytes(content) + rest;
    let portal = text_bytes(content.portal);
    let statement = text_bytes(content.statement);
    let formats = counted(
        content.parameter_formats.len(),
        shorts_bytes(content.parameter_formats),
    );
    let values = counted(content.values.len(), values_bytes(content.values));
    let results = counted(content.result_formats.len(), shorts_bytes(content.result_formats));
    assert(all =~= Seq::<u8>::empty() + portal + (statement + formats + values + results + rest));
    law_text_is_read_back(
        Seq::empty(),
        content.portal,
        statement + formats + values + results + rest,
    );
    assert(all =~= portal + statement + (formats + values + results + rest));
    law_text_is_read_back(portal, content.statement, formats + values + results + rest);
    let names = portal + statement;
    assert(all =~= names + formats + (values + results + rest));
    lemma_counted_shorts(names, content.parameter_formats, values + results + rest);
    assert(all =~= (names + formats) + values + (results + rest));
    lemma_counted_values(names + formats, content.values, results + rest);
    assert(all =~= (names + formats + values) + results + rest);
    lemma_counted_shorts(names + formats + values, content.result_formats, rest);
}

/// A request to execute is read back: its portal and its row limit.
pub proof fn law_execute_is_read_back(content: ExecuteText, rest: Seq<u8>)
    requires
        plain(content.portal),
    ensures
        execute_content(
            text_bytes(content.portal) + i32_bytes(content.row_limit as int) + rest,
        ) == Ok::<ExecuteText, Fault>(content),
{
    let portal = text_bytes(content.portal);
    let limit = i32_bytes(content.row_limit as int);
    let all = portal + limit + rest;
    assert(all =~= Seq::<u8>::empty() + portal + (limit + rest));
    law_text_is_read_back(Seq::empty(), content.portal, limit + rest);
    law_numbers_are_read_back(portal, 0, content.row_limit, rest);
}

/// A request to describe is read back: `S` stands for a statement, `P` for a portal.
pub proof fn law_describe_is_read_back(content: DescribeText, rest: Seq<u8>)
    requires
        plain(content.name),
    ensures
        describe_content(
            seq![
                match content.target {
                    DescribeMessageContentTarget::PreparedStatement => STATEMENT_TARGET,
                    DescribeMessageContentTarget::Portal => PORTAL_TARGET,
                },
            ] + text_bytes(content.name) + rest,
        ) == Ok::<DescribeText, Fault>(content),
{
    let target = seq![
        match content.target {
            DescribeMessageContentTarget::PreparedStatement => STATEMENT_TARGET,
            DescribeMessageContentTarget::Portal => PORTAL_TARGET,
        },
    ];
    law_text_is_read_back(target, content.name, rest);
}

/// A request to close is read back: `S` stands for a statement, `P` for a portal.
pub proof fn law_close_is_read_back(content: CloseText, rest: Seq<u8>)
    requires
        plain(content.name),
    ensures
        close_content(
            seq![
                match content.target {
                    CloseMessageContentTarget::PreparedStatement => STATEMENT_TARGET,
                    CloseMessageContentTarget::Portal => PORTAL_TARGET,
                },
            ] + text_bytes(content.name) + rest,
        ) == Ok::<CloseText, Fault>(content),
{
    let target = seq![
        match content.target {
            CloseMessageContentTarget::PreparedStatement => STATEMENT_TARGET,
            CloseMessageContentTarget::Portal => PORTAL_TARGET,
        },
    ];
    law_text_is_read_back(target, content.name, rest);
}

/// A request to describe or close something that is neither a statement nor a portal is refused.
pub proof fn law_unknown_target_is_refused(byte: u8, rest: Seq<u8>)
    requires
        byte != STATEMENT_TARGET,
        byte != PORTAL_TARGET,
    ensures
        describe_content(seq![byte] + rest) == Err::<DescribeText, Fault>(unknown_target()),
        close_content(seq![byte] + rest) == Err::<CloseText, Fault>(unknown_target()),
{
}

/// Without a byte nothing can be read.
pub proof fn law_nothing_is_refused()
    ensures
        ({
            let none = Seq::<u8>::empty();
            &&& query_content(none) == Err::<QueryText, Fault>(end_of_buffer())
            &&& parse_content(none) == Err::<ParseText, Fault>(end_of_buffer())
            &&& bind_content(none) == Err::<BindText, Fault>(end_of_buffer())
            &&& execute_content(none) == Err::<ExecuteText, Fault>(end_of_buffer())
            &&& describe_content(none) == Err::<DescribeText, Fault>(end_of_buffer())
            &&& close_content(none) == Err::<CloseText, Fault>(end_of_buffer())
        }),
{
}

} // verus!
