use vstd::prelude::*;
use vstd::string::StringExecFns;

verus! {

/// The character for one decimal or hexadecimal digit value.
pub open spec fn digit_char(d: int) -> char {
    if d == 0 {
        '0'
    } else if d == 1 {
        '1'
    } else if d == 2 {
        '2'
    } else if d == 3 {
        '3'
    } else if d == 4 {
        '4'
    } else if d == 5 {
        '5'
    } else if d == 6 {
        '6'
    } else if d == 7 {
        '7'
    } else if d == 8 {
        '8'
    } else if d == 9 {
        '9'
    } else if d == 10 {
        'a'
    } else if d == 11 {
        'b'
    } else if d == 12 {
        'c'
    } else if d == 13 {
        'd'
    } else if d == 14 {
        'e'
    } else {
        'f'
    }
}

/// The decimal text of a nonnegative number, most significant digit first,
/// with no leading zeros (a single `0` for zero).
pub open spec fn dec_of(n: int) -> Seq<char>
    recommends
        n >= 0,
    decreases n,
{
    if n < 10 {
        seq![digit_char(n)]
    } else {
        dec_of(n / 10) + seq![digit_char(n % 10)]
    }
}

/// The two-digit lowercase hexadecimal text of a byte value.
pub open spec fn hex2_of(n: int) -> Seq<char> {
    seq![digit_char(n / 16), digit_char(n % 16)]
}

/// The one-character string for a digit value below 16.
fn digit_str(d: u8) -> (s: &'static str)
    requires
        d < 16,
    ensures
        s@ == seq![digit_char(d as int)],
{
    let s: &'static str = if d == 0 {
        "0"
    } else if d == 1 {
        "1"
    } else if d == 2 {
        "2"
    } else if d == 3 {
        "3"
    } else if d == 4 {
        "4"
    } else if d == 5 {
        "5"
    } else if d == 6 {
        "6"
    } else if d == 7 {
        "7"
    } else if d == 8 {
        "8"
    } else if d == 9 {
        "9"
    } else if d == 10 {
        "a"
    } else if d == 11 {
        "b"
    } else if d == 12 {
        "c"
    } else if d == 13 {
        "d"
    } else if d == 14 {
        "e"
    } else {
        "f"
    };
    proof {
        reveal_strlit("0");
        reveal_strlit("1");
        reveal_strlit("2");
        reveal_strlit("3");
        reveal_strlit("4");
        reveal_strlit("5");
        reveal_strlit("6");
        reveal_strlit("7");
        reveal_strlit("8");
        reveal_strlit("9");
        reveal_strlit("a");
        reveal_strlit("b");
        reveal_strlit("c");
        reveal_strlit("d");
        reveal_strlit("e");
        reveal_strlit("f");
        assert(s@ =~= seq![digit_char(d as int)]);
    }
    s
}

/// Appends the decimal text of `n` to `s`.
pub fn push_dec(s: &mut String, n: u64)
    ensures
        final(s)@ == old(s)@ + dec_of(n as int),
    decreases n,
{
    if n < 10 {
        s.append(digit_str(n as u8));
        assert(final(s)@ =~= old(s)@ + dec_of(n as int));
    } else {
        push_dec(s, n / 10);
        s.append(digit_str((n % 10) as u8));
        assert(final(s)@ =~= old(s)@ + dec_of(n as int));
    }
}

/// Appends the two-digit lowercase hexadecimal text of `n` to `s`.
pub fn push_hex2(s: &mut String, n: u8)
    ensures
        final(s)@ == old(s)@ + hex2_of(n as int),
{
    s.append(digit_str(n / 16));
    s.append(digit_str(n % 16));
    assert(final(s)@ =~= old(s)@ + hex2_of(n as int));
}

} // verus!
