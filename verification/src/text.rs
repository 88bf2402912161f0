//! Rendering of numbers as text: decimal, and two-digit hexadecimal in either
//! letter case.
use vstd::prelude::*;

verus! {

/// The character of digit `d` (0–15), with letters in upper case when `upper`.
pub open spec fn digit_char(d: nat, upper: bool) -> char {
    if d < 10 {
        (('0' as u8) + d) as char
    } else if upper {
        (('A' as u8) + (d - 10)) as char
    } else {
        (('a' as u8) + (d - 10)) as char
    }
}

/// The decimal representation of `n`, without leading zeros.
pub open spec fn decimal(n: nat) -> Seq<char>
    decreases n,
{
    if n < 10 {
        seq![digit_char(n, true)]
    } else {
        decimal(n / 10) + seq![digit_char(n % 10, true)]
    }
}

/// `v` as exactly two hexadecimal digits.
pub open spec fn hex2(v: u8, upper: bool) -> Seq<char> {
    seq![digit_char((v / 16) as nat, upper), digit_char((v % 16) as nat, upper)]
}

/// The one-character text of digit `d`.
pub fn digit_str(d: u8, upper: bool) -> (s: &'static str)
    requires
        d < 16,
    ensures
        s@ == seq![digit_char(d as nat, upper)],
{
    proof {
        reveal_strlit("0");
        reveal_strlit("1");
        reveal_strlit("2");
        reveal_strlit("3");
        reveal_strlit("4");
        reveal_strlit("5");
        reveal_strlit("6");
        reveal_strlit("7");
        reveal_strlit("8");
        reveal_strlit("9");
        reveal_strlit("A");
        reveal_strlit("B");
        reveal_strlit("C");
        reveal_strlit("D");
        reveal_strlit("E");
        reveal_strlit("F");
        reveal_strlit("a");
        reveal_strlit("b");
        reveal_strlit("c");
        reveal_strlit("d");
        reveal_strlit("e");
        reveal_strlit("f");
    }
    match d {
        0 => "0",
        1 => "1",
        2 => "2",
        3 => "3",
        4 => "4",
        5 => "5",
        6 => "6",
        7 => "7",
        8 => "8",
        9 => "9",
        10 => if upper { "A" } else { "a" },
        11 => if upper { "B" } else { "b" },
        12 => if upper { "C" } else { "c" },
        13 => if upper { "D" } else { "d" },
        14 => if upper { "E" } else { "e" },
        _ => if upper { "F" } else { "f" },
    }
}

/// Append the decimal representation of `n` to `s`.
pub fn push_decimal(s: &mut String, n: u64)
    ensures
        final(s)@ == old(s)@ + decimal(n as nat),
    decreases n,
{
    if n >= 10 {
        push_decimal(s, n / 10);
    }
    s.append(digit_str((n % 10) as u8, true));
    proof {
        if n >= 10 {
            assert(decimal(n as nat) == decimal((n / 10) as nat) + seq![digit_char((n % 10) as nat, true)]);
        }
    }
}

/// Append `v` as two hexadecimal digits to `s`.
pub fn push_hex2(s: &mut String, v: u8, upper: bool)
    ensures
        final(s)@ == old(s)@ + hex2(v, upper),
{
    s.append(digit_str(v / 16, upper));
    s.append(digit_str(v % 16, upper));
}

} // verus!
