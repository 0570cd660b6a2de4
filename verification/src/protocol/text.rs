use vstd::prelude::*;
use vstd::string::*;

verus! {

/// The character of a decimal digit.
pub open spec fn digit_char(d: nat) -> char {
    (48 + d) as char
}

/// The character of a lower-case hexadecimal digit.
pub open spec fn hex_char(d: nat) -> char {
    if d < 10 {
        digit_char(d)
    } else {
        (87 + d) as char
    }
}

/// The character of an upper-case hexadecimal digit.
pub open spec fn upper_hex_char(d: nat) -> char {
    if d < 10 {
        digit_char(d)
    } else {
        (55 + d) as char
    }
}

/// The decimal form of a number, without leading zeros (`to_string`).
pub open spec fn decimal(n: nat) -> Seq<char>
    decreases n,
{
    if n < 10 {
        seq![digit_char(n)]
    } else {
        decimal(n / 10).push(digit_char(n % 10))
    }
}

/// The lower-case hexadecimal form of a number, without leading zeros (`{:x}`).
pub open spec fn lower_hex(n: nat) -> Seq<char>
    decreases n,
{
    if n < 16 {
        seq![hex_char(n)]
    } else {
        lower_hex(n / 16).push(hex_char(n % 16))
    }
}

/// A byte as two lower-case hexadecimal digits (`{:02x}`).
pub open spec fn byte_hex(b: u8) -> Seq<char> {
    seq![hex_char((b / 16) as nat), hex_char((b % 16) as nat)]
}

/// A byte in upper-case hexadecimal, right-aligned in two columns (`{:2X}`).
pub open spec fn byte_upper_hex_padded(b: u8) -> Seq<char> {
    if b < 16 {
        seq![' ', upper_hex_char(b as nat)]
    } else {
        seq![upper_hex_char((b / 16) as nat), upper_hex_char((b % 16) as nat)]
    }
}

/// The bytes as lower-case hexadecimal, two digits each and nothing between them.
pub open spec fn hex_of(bytes: Seq<u8>) -> Seq<char>
    decreases bytes.len(),
{
    if bytes.len() == 0 {
        Seq::empty()
    } else {
        hex_of(bytes.drop_last()) + byte_hex(bytes.last())
    }
}

/// The text of one decimal digit.
pub fn digit_str(d: u8) -> (s: &'static str)
    requires
        d < 10,
    ensures
        s@ == seq![digit_char(d as nat)],
{
    proof {
        reveal_strlit("0");
        reveal_strlit("1");
        reveal_strlit("2");
        reveal_strlit("3");
        reveal_strlit("4");
        reveal_strlit("5");
        reveal_strlit("6");
        reveal_strlit("7");
        reveal_strlit("8");
        reveal_strlit("9");
    }
    match d {
        0 => "0",
        1 => "1",
        2 => "2",
        3 => "3",
        4 => "4",
        5 => "5",
        6 => "6",
        7 => "7",
        8 => "8",
        _ => "9",
    }
}

/// The text of one lower-case hexadecimal digit.
pub fn hex_digit_str(d: u8) -> (s: &'static str)
    requires
        d < 16,
    ensures
        s@ == seq![hex_char(d as nat)],
{
    if d < 10 {
        return digit_str(d);
    }
    proof {
        reveal_strlit("a");
        reveal_strlit("b");
        reveal_strlit("c");
        reveal_strlit("d");
        reveal_strlit("e");
        reveal_strlit("f");
    }
    match d {
        10 => "a",
        11 => "b",
        12 => "c",
        13 => "d",
        14 => "e",
        _ => "f",
    }
}

/// The text of one upper-case hexadecimal digit.
pub fn upper_hex_digit_str(d: u8) -> (s: &'static str)
    requires
        d < 16,
    ensures
        s@ == seq![upper_hex_char(d as nat)],
{
    if d < 10 {
        return digit_str(d);
    }
    proof {
        reveal_strlit("A");
        reveal_strlit("B");
        reveal_strlit("C");
        reveal_strlit("D");
        reveal_strlit("E");
        reveal_strlit("F");
    }
    match d {
        10 => "A",
        11 => "B",
        12 => "C",
        13 => "D",
        14 => "E",
        _ => "F",
    }
}

/// Appends the decimal form of `n`.
pub fn push_decimal(s: &mut String, n: u64)
    ensures
        final(s)@ == old(s)@ + decimal(n as nat),
    decreases n,
{
    if n < 10 {
        s.append(digit_str(n as u8));
    } else {
        push_decimal(s, n / 10);
        s.append(digit_str((n % 10) as u8));
        assert(final(s)@ =~= old(s)@ + decimal(n as nat));
    }
}

/// The decimal form of `n` (`n.to_string()`).
pub fn decimal_string(n: u64) -> (s: String)
    ensures
        s@ == decimal(n as nat),
{
    let mut s = String::new();
    push_decimal(&mut s, n);
    assert(s@ =~= decimal(n as nat));
    s
}

/// Appends the lower-case hexadecimal form of `n`.
pub fn push_lower_hex(s: &mut String, n: u64)
    ensures
        final(s)@ == old(s)@ + lower_hex(n as nat),
    decreases n,
{
    if n < 16 {
        s.append(hex_digit_str(n as u8));
    } else {
        push_lower_hex(s, n / 16);
        s.append(hex_digit_str((n % 16) as u8));
        assert(final(s)@ =~= old(s)@ + lower_hex(n as nat));
    }
}

/// Appends a byte as two lower-case hexadecimal digits.
pub fn push_byte_hex(s: &mut String, b: u8)
    ensures
        final(s)@ == old(s)@ + byte_hex(b),
{
    s.append(hex_digit_str(b / 16));
    s.append(hex_digit_str(b % 16));
    assert(final(s)@ =~= old(s)@ + byte_hex(b));
}

/// Appends a byte in upper-case hexadecimal, right-aligned in two columns.
pub fn push_byte_upper_hex_padded(s: &mut String, b: u8)
    ensures
        final(s)@ == old(s)@ + byte_upper_hex_padded(b),
{
    proof {
        reveal_strlit(" ");
    }
    if b < 16 {
        s.append(" ");
        s.append(upper_hex_digit_str(b));
    } else {
        s.append(upper_hex_digit_str(b / 16));
        s.append(upper_hex_digit_str(b % 16));
    }
    assert(final(s)@ =~= old(s)@ + byte_upper_hex_padded(b));
}

/// The bytes as lower-case hexadecimal, two digits each.
pub fn hex_string(bytes: &[u8]) -> (s: String)
    ensures
        s@ == hex_of(bytes@),
{
    let mut s = String::new();
    let mut i: usize = 0;
    while i < bytes.len()
        invariant
            i <= bytes@.len(),
            s@ == hex_of(bytes@.subrange(0, i as int)),
        decreases bytes@.len() - i,
    {
        push_byte_hex(&mut s, bytes[i]);
        proof {
            let p = bytes@.subrange(0, i + 1);
            assert(p.drop_last() =~= bytes@.subrange(0, i as int));
        }
        i = i + 1;
    }
    assert(bytes@.subrange(0, bytes@.len() as int) =~= bytes@);
    s
}


/// Every byte takes exactly two characters in hexadecimal, the high digit first, with nothing
/// between bytes.
pub proof fn lemma_hex_of_layout(bytes: Seq<u8>)
    ensures
        hex_of(bytes).len() == 2 * bytes.len(),
        forall|i: int| 0 <= i < bytes.len() ==> #[trigger] hex_of(bytes).subrange(2 * i, 2 * i + 2) == byte_hex(bytes[i]),
    decreases bytes.len(),
{
    if bytes.len() > 0 {
        let init = bytes.drop_last();
        lemma_hex_of_layout(init);
        assert forall|i: int| 0 <= i < bytes.len() implies #[trigger] hex_of(bytes).subrange(2 * i, 2 * i + 2) == byte_hex(bytes[i]) by {
            if i < bytes.len() - 1 {
                assert(hex_of(bytes).subrange(2 * i, 2 * i + 2) =~= hex_of(init).subrange(2 * i, 2 * i + 2));
                assert(init[i] == bytes[i]);
            } else {
                assert(hex_of(bytes).subrange(2 * i, 2 * i + 2) =~= byte_hex(bytes[i]));
            }
        }
    }
}

} // verus!
