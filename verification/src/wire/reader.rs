//! Reading the fields of a message out of its bytes.
use vstd::prelude::*;
use vstd::slice::slice_subrange;
use vstd::slice::slice_to_vec;
use vstd::utf8::{decode_utf8, valid_utf8};
use crate::text::{decimal, push_decimal};
use crate::wire::numbers::{i16_at, i32_at, read_i16_at, read_i32_at};

verus! {

/// Why a field could not be read.
#[derive(Clone, Copy, Debug, PartialEq, Eq, Structural)]
pub enum ByteReaderErrorKind {
    EndOfBuffer,
    ParsingString,
    OutOfBounds,
    NegativeLength,
    ProtocolError,
}

/// A field that could not be read, with a text for the log.
#[derive(Debug)]
pub struct ByteReaderError {
    pub kind: ByteReaderErrorKind,
    pub message: String,
}

/// What a [`ByteReaderError`] says.
pub struct Fault {
    pub kind: ByteReaderErrorKind,
    pub message: Seq<char>,
}

impl View for ByteReaderError {
    type V = Fault;

    open spec fn view(&self) -> Fault {
        Fault { kind: self.kind, message: self.message@ }
    }
}

/// A reader over the bytes of a message.
pub struct ByteReader {
    pub buffer: Vec<u8>,
    pub cursor: usize,
}

/// `result` is what `expected` says, value and error text included.
pub open spec fn agrees<T: View>(
    result: Result<T, ByteReaderError>,
    expected: Result<T::V, Fault>,
) -> bool {
    match (result, expected) {
        (Ok(value), Ok(content)) => value@ == content,
        (Err(error), Err(fault)) => error@ == fault,
        _ => false,
    }
}

pub const END_OF_BUFFER: &'static str = "cursor is at end of buffer, no more data to read";

pub const OUT_OF_BOUNDS_START: &'static str = "taking the required ";

pub const OUT_OF_BOUNDS_END: &'static str = " bytes exceeds buffer length";

pub const NEGATIVE_I16: &'static str =
    "length value was negative (i16 → usize conversion failed)";

pub const NEGATIVE_I32: &'static str =
    "length value was negative (i32 → usize conversion failed)";

/// Nothing is left to read.
pub open spec fn end_of_buffer() -> Fault {
    Fault { kind: ByteReaderErrorKind::EndOfBuffer, message: END_OF_BUFFER@ }
}

/// Fewer than `needed` bytes are left to read.
pub open spec fn out_of_bounds(needed: nat) -> Fault {
    Fault {
        kind: ByteReaderErrorKind::OutOfBounds,
        message: OUT_OF_BOUNDS_START@ + decimal(needed) + OUT_OF_BOUNDS_END@,
    }
}

/// A length stands in the message that is below zero.
pub open spec fn negative_length(message: Seq<char>) -> Fault {
    Fault { kind: ByteReaderErrorKind::NegativeLength, message }
}

/// The text with which `String::from_utf8` refuses `bytes`.
pub uninterp spec fn utf8_error_text(bytes: Seq<u8>) -> Seq<char>;

/// Calls `String::from_utf8`. It takes exactly the byte strings that are UTF-8 and returns the
/// characters that they encode. A refusal comes with the text of its `FromUtf8Error`, which
/// depends on the bytes alone; the wording is left unsaid.
#[verifier::external_body]
fn string_from_utf8(bytes: Vec<u8>) -> (result: Result<String, String>)
    ensures
        match result {
            Ok(text) => valid_utf8(bytes@) && text@ == decode_utf8(bytes@),
            Err(message) => !valid_utf8(bytes@) && message@ == utf8_error_text(bytes@),
        },
{
    String::from_utf8(bytes).map_err(|error| format!("{}", error))
}

/// Where the zero byte stands that ends the string at `at`; the end of the bytes where none does.
pub open spec fn terminator(bytes: Seq<u8>, at: int) -> int
    decreases bytes.len() - at,
{
    if at >= bytes.len() || bytes[at] == 0 {
        at
    } else {
        terminator(bytes, at + 1)
    }
}

/// The zero-terminated string at `at`, and where reading goes on.
pub open spec fn cstring_at(bytes: Seq<u8>, at: int) -> (Result<Seq<char>, Fault>, int) {
    let end = terminator(bytes, at);
    if end >= bytes.len() {
        (Err(end_of_buffer()), end)
    } else {
        let text = bytes.subrange(at, end);
        if valid_utf8(text) {
            (Ok(decode_utf8(text)), end + 1)
        } else {
            (
                Err(
                    Fault {
                        kind: ByteReaderErrorKind::ParsingString,
                        message: utf8_error_text(text),
                    },
                ),
                end + 1,
            )
        }
    }
}

/// Whether `needed` bytes can be read at `at`, and the fault where they cannot.
pub open spec fn room_for(bytes: Seq<u8>, at: int, needed: nat) -> Result<(), Fault> {
    if at >= bytes.len() {
        Err(end_of_buffer())
    } else if at + needed > bytes.len() {
        Err(out_of_bounds(needed))
    } else {
        Ok(())
    }
}

/// The byte at `at`, and where reading goes on.
pub open spec fn byte_at(bytes: Seq<u8>, at: int) -> (Result<u8, Fault>, int) {
    if at >= bytes.len() {
        (Err(end_of_buffer()), at)
    } else {
        (Ok(bytes[at]), at + 1)
    }
}

/// The 16-bit number at `at`, and where reading goes on.
pub open spec fn short_at(bytes: Seq<u8>, at: int) -> (Result<i16, Fault>, int) {
    match room_for(bytes, at, 2) {
        Err(fault) => (Err(fault), at),
        Ok(_) => (Ok(i16_at(bytes, at) as i16), at + 2),
    }
}

/// The 32-bit number at `at`, and where reading goes on.
pub open spec fn long_at(bytes: Seq<u8>, at: int) -> (Result<i32, Fault>, int) {
    match room_for(bytes, at, 4) {
        Err(fault) => (Err(fault), at),
        Ok(_) => (Ok(i32_at(bytes, at) as i32), at + 4),
    }
}

/// The `count` bytes at `at`, and where reading goes on.
pub open spec fn bytes_at(bytes: Seq<u8>, at: int, count: nat) -> (Result<Seq<u8>, Fault>, int) {
    match room_for(bytes, at, count) {
        Err(fault) => (Err(fault), at),
        Ok(_) => (Ok(bytes.subrange(at, at + count)), at + count),
    }
}

/// The 16-bit length at `at`, and where reading goes on.
pub open spec fn short_length_at(bytes: Seq<u8>, at: int) -> (Result<usize, Fault>, int) {
    match short_at(bytes, at) {
        (Err(fault), next) => (Err(fault), next),
        (Ok(value), next) => if value < 0 {
            (Err(negative_length(NEGATIVE_I16@)), next)
        } else {
            (Ok(value as usize), next)
        },
    }
}

/// The 32-bit length at `at`, and where reading goes on.
pub open spec fn long_length_at(bytes: Seq<u8>, at: int) -> (Result<usize, Fault>, int) {
    match long_at(bytes, at) {
        (Err(fault), next) => (Err(fault), next),
        (Ok(value), next) => if value < 0 {
            (Err(negative_length(NEGATIVE_I32@)), next)
        } else {
            (Ok(value as usize), next)
        },
    }
}

impl ByteReader {
    pub fn new(buffer: Vec<u8>, cursor: usize) -> (reader: Self)
        ensures
            reader.buffer == buffer,
            reader.cursor == cursor,
    {
        Self { buffer, cursor }
    }

    pub fn set_buffer(&mut self, buffer: Vec<u8>)
        ensures
            final(self).buffer == buffer,
            final(self).cursor == old(self).cursor,
    {
        self.buffer = buffer;
    }

    pub fn set_cursor(&mut self, new_cursor: usize)
        ensures
            final(self).buffer == old(self).buffer,
            final(self).cursor == new_cursor,
    {
        self.cursor = new_cursor;
    }

    pub fn get_cursor_size(&self) -> (cursor: usize)
        ensures
            cursor == self.cursor,
    {
        self.cursor
    }

    /// Reads a string up to its zero byte.
    pub fn read_cstring(&mut self) -> (result: Result<String, ByteReaderError>)
        ensures
            final(self).buffer == old(self).buffer,
            agrees(result, cstring_at(old(self).buffer@, old(self).cursor as int).0),
            final(self).cursor == cstring_at(old(self).buffer@, old(self).cursor as int).1,
    {
        let start: usize = self.cursor;
        while self.cursor < self.buffer.len() && self.buffer[self.cursor] != 0
            invariant
                start <= self.cursor,
                start == old(self).cursor,
                self.buffer == old(self).buffer,
                self.cursor > start ==> self.cursor <= self.buffer.len(),
                terminator(self.buffer@, start as int) == terminator(
                    self.buffer@,
                    self.cursor as int,
                ),
            decreases self.buffer.len() - self.cursor,
        {
            self.cursor = self.cursor + 1;
        }
        if self.cursor >= self.buffer.len() {
            return Err(self.get_end_of_buffer_error());
        }
        let text: Vec<u8> = slice_to_vec(slice_subrange(self.buffer.as_slice(), start, self.cursor));
        self.cursor = self.cursor + 1;
        match string_from_utf8(text) {
            Ok(string) => Ok(string),
            Err(message) => Err(
                ByteReaderError { kind: ByteReaderErrorKind::ParsingString, message },
            ),
        }
    }

    pub fn read_u8(&mut self) -> (result: Result<u8, ByteReaderError>)
        ensures
            final(self).buffer == old(self).buffer,
            agrees(result, byte_at(old(self).buffer@, old(self).cursor as int).0),
            final(self).cursor == byte_at(old(self).buffer@, old(self).cursor as int).1,
    {
        if self.cursor >= self.buffer.len() {
            return Err(self.get_end_of_buffer_error());
        }
        let value: u8 = self.buffer[self.cursor];
        self.cursor = self.cursor + 1;
        Ok(value)
    }

    fn check_room(&self, needed: usize) -> (result: Result<(), ByteReaderError>)
        ensures
            match (result, room_for(self.buffer@, self.cursor as int, needed as nat)) {
                (Ok(_), Ok(_)) => self.cursor + needed <= self.buffer.len(),
                (Err(error), Err(fault)) => error@ == fault,
                _ => false,
            },
    {
        if self.cursor >= self.buffer.len() {
            return Err(self.get_end_of_buffer_error());
        }
        if needed > self.buffer.len() - self.cursor {
            return Err(self.get_out_of_bounds_error(needed));
        }
        Ok(())
    }

    pub fn read_i16(&mut self) -> (result: Result<i16, ByteReaderError>)
        ensures
            final(self).buffer == old(self).buffer,
            agrees(result, short_at(old(self).buffer@, old(self).cursor as int).0),
            final(self).cursor == short_at(old(self).buffer@, old(self).cursor as int).1,
    {
        match self.check_room(2) {
            Err(error) => Err(error),
            Ok(_) => {
                let value: i16 = read_i16_at(&self.buffer, self.cursor);
                self.cursor = self.cursor + 2;
                Ok(value)
            },
        }
    }

    pub fn read_i32(&mut self) -> (result: Result<i32, ByteReaderError>)
        ensures
            final(self).buffer == old(self).buffer,
            agrees(result, long_at(old(self).buffer@, old(self).cursor as int).0),
            final(self).cursor == long_at(old(self).buffer@, old(self).cursor as int).1,
    {
        match self.check_room(4) {
            Err(error) => Err(error),
            Ok(_) => {
                let value: i32 = read_i32_at(&self.buffer, self.cursor);
                self.cursor = self.cursor + 4;
                Ok(value)
            },
        }
    }

    pub fn read_bytes(&mut self, bytes_len: usize) -> (result: Result<Vec<u8>, ByteReaderError>)
        ensures
            final(self).buffer == old(self).buffer,
            agrees(
                result,
                bytes_at(old(self).buffer@, old(self).cursor as int, bytes_len as nat).0,
            ),
            final(self).cursor == bytes_at(
                old(self).buffer@,
                old(self).cursor as int,
                bytes_len as nat,
            ).1,
    {
        match self.check_room(bytes_len) {
            Err(error) => Err(error),
            Ok(_) => {
                let end: usize = self.cursor + bytes_len;
                let value: Vec<u8> = slice_to_vec(
                    slice_subrange(self.buffer.as_slice(), self.cursor, end),
                );
                self.cursor = end;
                Ok(value)
            },
        }
    }

    pub fn get_end_of_buffer_error(&self) -> (error: ByteReaderError)
        ensures
            error@ == end_of_buffer(),
    {
        ByteReaderError {
            kind: ByteReaderErrorKind::EndOfBuffer,
            message: END_OF_BUFFER.to_string(),
        }
    }

    pub fn get_out_of_bounds_error(&self, extra_bytes: usize) -> (error: ByteReaderError)
        ensures
            error@ == out_of_bounds(extra_bytes as nat),
    {
        let mut message: String = OUT_OF_BOUNDS_START.to_string();
        push_decimal(&mut message, extra_bytes as u64);
        message.append(OUT_OF_BOUNDS_END);
        ByteReaderError { kind: ByteReaderErrorKind::OutOfBounds, message }
    }

    pub fn read_i16_as_usize(&mut self) -> (result: Result<usize, ByteReaderError>)
        ensures
            final(self).buffer == old(self).buffer,
            agrees(result, short_length_at(old(self).buffer@, old(self).cursor as int).0),
            final(self).cursor == short_length_at(old(self).buffer@, old(self).cursor as int).1,
    {
        match self.read_i16() {
            Err(error) => Err(error),
            Ok(value) => if value < 0 {
                Err(
                    ByteReaderError {
                        kind: ByteReaderErrorKind::NegativeLength,
                        message: NEGATIVE_I16.to_string(),
                    },
                )
            } else {
                Ok(value as usize)
            },
        }
    }

    pub fn read_i32_as_usize(&mut self) -> (result: Result<usize, ByteReaderError>)
        ensures
            final(self).buffer == old(self).buffer,
            agrees(result, long_length_at(old(self).buffer@, old(self).cursor as int).0),
            final(self).cursor == long_length_at(old(self).buffer@, old(self).cursor as int).1,
    {
        match self.read_i32() {
            Err(error) => Err(error),
            Ok(value) => if value < 0 {
                Err(
                    ByteReaderError {
                        kind: ByteReaderErrorKind::NegativeLength,
                        message: NEGATIVE_I32.to_string(),
                    },
                )
            } else {
                Ok(value as usize)
            },
        }
    }
}

} // verus!
