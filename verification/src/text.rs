//! Numbers and bytes written out as text.
use vstd::prelude::*;

verus! {

/// The decimal digit for `d`.
pub open spec fn digit(d: nat) -> char
    recommends
        d < 10,
{
    (48 + d) as char
}

/// `n` in decimal, without leading zeros.
pub open spec fn decimal(n: nat) -> Seq<char>
    decreases n,
{
    if n < 10 {
        seq![digit(n)]
    } else {
        decimal(n / 10).push(digit(n % 10))
    }
}

fn digit_text(d: u64) -> (text: &'static str)
    requires
        d < 10,
    ensures
        text@ == seq![digit(d as nat)],
{
    proof {
        reveal_strlit("0");
        reveal_strlit("1");
        reveal_strlit("2");
        reveal_strlit("3");
        reveal_strlit("4");
        reveal_strlit("5");
        reveal_strlit("6");
        reveal_strlit("7");
        reveal_strlit("8");
        reveal_strlit("9");
    }
    match d {
        0 => "0",
        1 => "1",
        2 => "2",
        3 => "3",
        4 => "4",
        5 => "5",
        6 => "6",
        7 => "7",
        8 => "8",
        _ => "9",
    }
}

/// Appends `n` in decimal.
pub fn push_decimal(text: &mut String, n: u64)
    ensures
        final(text)@ == old(text)@ + decimal(n as nat),
    decreases n,
{
    if n < 10 {
        text.append(digit_text(n));
    } else {
        push_decimal(text, n / 10);
        text.append(digit_text(n % 10));
        assert(text@ =~= old(text)@ + decimal(n as nat));
    }
}

/// The hexadecimal digit for `d`.
pub open spec fn hex_digit(d: int) -> char
    recommends
        0 <= d < 16,
{
    if d < 10 {
        (48 + d) as char
    } else {
        (87 + d) as char
    }
}

/// `bytes` in hexadecimal, two digits each.
pub open spec fn hex(bytes: Seq<u8>) -> Seq<char> {
    Seq::new(
        2 * bytes.len(),
        |i: int|
            if i % 2 == 0 {
                hex_digit(bytes[i / 2] as int / 16)
            } else {
                hex_digit(bytes[i / 2] as int % 16)
            },
    )
}

fn hex_digit_text(d: u8) -> (text: &'static str)
    requires
        d < 16,
    ensures
        text@ == seq![hex_digit(d as int)],
{
    if d < 10 {
        digit_text(d as u64)
    } else {
        proof {
            reveal_strlit("a");
            reveal_strlit("b");
            reveal_strlit("c");
            reveal_strlit("d");
            reveal_strlit("e");
            reveal_strlit("f");
        }
        match d {
            10 => "a",
            11 => "b",
            12 => "c",
            13 => "d",
            14 => "e",
            _ => "f",
        }
    }
}

/// Appends `bytes` in hexadecimal.
pub fn push_hex(text: &mut String, bytes: &Vec<u8>)
    ensures
        final(text)@ == old(text)@ + hex(bytes@),
{
    let mut i: usize = 0;
    assert(text@ =~= old(text)@ + hex(bytes@.take(0)));
    while i < bytes.len()
        invariant
            i <= bytes.len(),
            text@ == old(text)@ + hex(bytes@.take(i as int)),
        decreases bytes.len() - i,
    {
        let ghost before = text@;
        text.append(hex_digit_text(bytes[i] / 16));
        text.append(hex_digit_text(bytes[i] % 16));
        proof {
            assert(text@ =~= before.push(hex_digit(bytes[i as int] as int / 16)).push(
                hex_digit(bytes[i as int] as int % 16),
            ));
            assert(text@ =~= old(text)@ + hex(bytes@.take(i + 1)));
        }
        i = i + 1;
    }
    assert(bytes@.take(i as int) =~= bytes@);
}

/// A text in hexadecimal consists of digits.
pub proof fn lemma_hex(bytes: Seq<u8>)
    ensures
        forall|i: int|
            0 <= i < hex(bytes).len() ==> '0' <= #[trigger] hex(bytes)[i] <= '9' || 'a' <= hex(
                bytes,
            )[i] <= 'f',
{
}

proof fn lemma_hex_digits_differ(d: int, e: int)
    requires
        0 <= d < 16,
        0 <= e < 16,
        hex_digit(d) == hex_digit(e),
    ensures
        d == e,
{
}

/// Two byte strings are the same in hexadecimal only if they are the same.
pub proof fn law_hex_tells_bytes_apart(bytes: Seq<u8>, other: Seq<u8>)
    requires
        hex(bytes) == hex(other),
    ensures
        bytes == other,
{
    assert(hex(bytes).len() == 2 * bytes.len());
    assert(hex(other).len() == 2 * other.len());
    assert forall|i: int| 0 <= i < bytes.len() implies bytes[i] == other[i] by {
        assert(hex(bytes)[2 * i] == hex_digit(bytes[i] as int / 16));
        assert(hex(other)[2 * i] == hex_digit(other[i] as int / 16));
        assert(hex(bytes)[2 * i + 1] == hex_digit(bytes[i] as int % 16));
        assert(hex(other)[2 * i + 1] == hex_digit(other[i] as int % 16));
        lemma_hex_digits_differ(bytes[i] as int / 16, other[i] as int / 16);
        lemma_hex_digits_differ(bytes[i] as int % 16, other[i] as int % 16);
    }
    assert(bytes =~= other);
}

/// The number that a row of decimal digits stands for.
pub open spec fn number_of(text: Seq<char>) -> int
    decreases text.len(),
{
    if text.len() == 0 {
        0
    } else {
        number_of(text.drop_last()) * 10 + (text.last() as int - '0' as int)
    }
}

/// A number in decimal consists of digits, has no zero in front of others, and stands for that
/// number.
pub proof fn law_decimal_is_read_back(n: nat)
    ensures
        decimal(n).len() > 0,
        forall|i: int| 0 <= i < decimal(n).len() ==> '0' <= #[trigger] decimal(n)[i] <= '9',
        n > 0 ==> decimal(n)[0] != '0',
        number_of(decimal(n)) == n,
    decreases n,
{
    if n < 10 {
        assert(decimal(n).drop_last() =~= Seq::<char>::empty());
        assert(number_of(decimal(n).drop_last()) == 0);
    } else {
        law_decimal_is_read_back(n / 10);
        let text = decimal(n);
        assert(text.drop_last() =~= decimal(n / 10));
        assert forall|i: int| 0 <= i < text.len() implies '0' <= #[trigger] text[i] <= '9' by {
            if i < text.len() - 1 {
                assert(text[i] == decimal(n / 10)[i]);
            }
        }
        assert(text[0] == decimal(n / 10)[0]);
    }
}

/// The number that a hexadecimal digit stands for.
pub open spec fn hex_value(c: char) -> int {
    if '0' <= c <= '9' {
        c as int - '0' as int
    } else {
        c as int - 'a' as int + 10
    }
}

/// Each byte stands in a text in hexadecimal as two digits, the high one first.
pub proof fn law_hex_is_read_back(bytes: Seq<u8>)
    ensures
        hex(bytes).len() == 2 * bytes.len(),
        forall|i: int|
            #![trigger bytes[i]]
            0 <= i < bytes.len() ==> bytes[i] == 16 * hex_value(hex(bytes)[2 * i]) + hex_value(
                hex(bytes)[2 * i + 1],
            ),
{
    assert forall|i: int| #![trigger bytes[i]] 0 <= i < bytes.len() implies bytes[i] == 16
        * hex_value(hex(bytes)[2 * i]) + hex_value(hex(bytes)[2 * i + 1]) by {
        assert(hex(bytes)[2 * i] == hex_digit(bytes[i] as int / 16));
        assert(hex(bytes)[2 * i + 1] == hex_digit(bytes[i] as int % 16));
    }
}

} // verus!
