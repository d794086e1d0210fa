//! Big-endian integers as they stand in messages.
use vstd::prelude::*;

verus! {

/// The number that four bytes hold, most significant first, without a sign.
pub open spec fn be_u32(b0: u8, b1: u8, b2: u8, b3: u8) -> int {
    b0 * 0x100_0000 + b1 * 0x1_0000 + b2 * 0x100 + b3
}

/// The signed number that the four bytes at `at` hold in two's complement.
pub open spec fn i32_at(bytes: Seq<u8>, at: int) -> int {
    let value = be_u32(bytes[at], bytes[at + 1], bytes[at + 2], bytes[at + 3]);
    if value >= 0x8000_0000 {
        value - 0x1_0000_0000
    } else {
        value
    }
}

/// The signed number that the two bytes at `at` hold in two's complement.
pub open spec fn i16_at(bytes: Seq<u8>, at: int) -> int {
    let value = bytes[at] * 0x100 + bytes[at + 1];
    if value >= 0x8000 {
        value - 0x1_0000
    } else {
        value
    }
}

/// The four bytes of `value` in two's complement, most significant first.
pub open spec fn i32_bytes(value: int) -> Seq<u8>
    recommends
        i32::MIN <= value <= i32::MAX,
{
    let bits = if value < 0 {
        value + 0x1_0000_0000
    } else {
        value
    };
    seq![
        (bits / 0x100_0000) as u8,
        (bits / 0x1_0000 % 0x100) as u8,
        (bits / 0x100 % 0x100) as u8,
        (bits % 0x100) as u8,
    ]
}

/// The two bytes of `value` in two's complement, most significant first.
pub open spec fn i16_bytes(value: int) -> Seq<u8>
    recommends
        i16::MIN <= value <= i16::MAX,
{
    let bits = if value < 0 {
        value + 0x1_0000
    } else {
        value
    };
    seq![(bits / 0x100) as u8, (bits % 0x100) as u8]
}

/// Reads the four bytes at `at`.
pub fn read_i32_at(bytes: &Vec<u8>, at: usize) -> (value: i32)
    requires
        at + 4 <= bytes.len(),
    ensures
        value == i32_at(bytes@, at as int),
{
    let value: u32 = bytes[at] as u32 * 0x100_0000 + bytes[at + 1] as u32 * 0x1_0000 + bytes[at
        + 2] as u32 * 0x100 + bytes[at + 3] as u32;
    if value >= 0x8000_0000 {
        (value as i64 - 0x1_0000_0000) as i32
    } else {
        value as i32
    }
}

/// Reads the two bytes at `at`.
pub fn read_i16_at(bytes: &Vec<u8>, at: usize) -> (value: i16)
    requires
        at + 2 <= bytes.len(),
    ensures
        value == i16_at(bytes@, at as int),
{
    let value: u16 = bytes[at] as u16 * 0x100 + bytes[at + 1] as u16;
    if value >= 0x8000 {
        (value as i32 - 0x1_0000) as i16
    } else {
        value as i16
    }
}

/// Four bytes written and read back give the same number.
pub proof fn law_i32_round_trip(value: i32, before: Seq<u8>, after: Seq<u8>)
    ensures
        i32_at(before + i32_bytes(value as int) + after, before.len() as int) == value,
{
    let all = before + i32_bytes(value as int) + after;
    let at = before.len() as int;
    assert(all[at] == i32_bytes(value as int)[0]);
    assert(all[at + 1] == i32_bytes(value as int)[1]);
    assert(all[at + 2] == i32_bytes(value as int)[2]);
    assert(all[at + 3] == i32_bytes(value as int)[3]);
}

/// Two bytes written and read back give the same number.
pub proof fn law_i16_round_trip(value: i16, before: Seq<u8>, after: Seq<u8>)
    ensures
        i16_at(before + i16_bytes(value as int) + after, before.len() as int) == value,
{
    let all = before + i16_bytes(value as int) + after;
    let at = before.len() as int;
    assert(all[at] == i16_bytes(value as int)[0]);
    assert(all[at + 1] == i16_bytes(value as int)[1]);
}

/// A byte with its highest bit as its sign.
pub open spec fn signed(byte: u8) -> int {
    if byte < 0x80 {
        byte as int
    } else {
        byte - 0x100
    }
}

/// The most significant byte of a number comes first and carries its sign; the others follow down
/// to the least significant.
pub proof fn law_most_significant_byte_comes_first(bytes: Seq<u8>, at: int)
    ensures
        i32_at(bytes, at) == ((signed(bytes[at]) * 0x100 + bytes[at + 1]) * 0x100 + bytes[at + 2])
            * 0x100 + bytes[at + 3],
        i32::MIN <= i32_at(bytes, at) <= i32::MAX,
        i16_at(bytes, at) == signed(bytes[at]) * 0x100 + bytes[at + 1],
        i16::MIN <= i16_at(bytes, at) <= i16::MAX,
{
}

} // verus!
