//! Small text helpers shared by the error display and the record writers.
use std::borrow::Cow;
use vstd::prelude::*;

verus! {

/// `String::push` appends exactly one character to the end of the string.
pub assume_specification[ String::push ](s: &mut String, ch: char)
    ensures
        final(s)@ == old(s)@.push(ch),
;

/// The character for a single digit in base 16, upper case.
pub open spec fn digit_char(d: int) -> char {
    if d < 10 {
        (48 + d) as char
    } else {
        (55 + d) as char
    }
}

/// The digits of `n` in base 10, most significant first, without padding.
pub open spec fn decimal(n: nat) -> Seq<char>
    decreases n,
{
    if n < 10 {
        seq![digit_char(n as int)]
    } else {
        decimal(n / 10).push(digit_char((n % 10) as int))
    }
}

/// The digits of one byte in base 16, upper case, without padding.
pub open spec fn hex_byte(b: u8) -> Seq<char> {
    if b < 16 {
        seq![digit_char(b as int)]
    } else {
        seq![digit_char(b as int / 16), digit_char(b as int % 16)]
    }
}

/// Gives the character of a digit below 16.
pub fn digit_to_char(d: u8) -> (c: char)
    requires
        d < 16,
    ensures
        c == digit_char(d as int),
{
    if d < 10 {
        (48 + d) as char
    } else {
        (55 + d) as char
    }
}

/// Appends the decimal digits of `n` to `out`.
pub fn push_decimal(out: &mut String, n: u64)
    ensures
        final(out)@ == old(out)@ + decimal(n as nat),
    decreases n,
{
    if n >= 10 {
        push_decimal(out, n / 10);
    }
    out.push(digit_to_char((n % 10) as u8));
}

/// Appends the upper-case hexadecimal digits of `b` to `out`.
pub fn push_hex_byte(out: &mut String, b: u8)
    ensures
        final(out)@ == old(out)@ + hex_byte(b),
{
    if b >= 16 {
        out.push(digit_to_char(b / 16));
    }
    out.push(digit_to_char(b % 16));
}

/// The tab character.
pub const TAB: u8 = 9;

/// `s` with every tab replaced by `with`.
pub open spec fn tabs_replaced(s: Seq<u8>, with: u8) -> Seq<u8> {
    Seq::new(
        s.len(),
        |i: int|
            if s[i] == TAB {
                with
            } else {
                s[i]
            },
    )
}

/// Replaces every tab in `buf` by `with`. Text without a tab is handed back
/// as it is, without a copy.
pub fn replace_tabs<'a>(buf: &'a [u8], with: u8) -> (r: Cow<'a, [u8]>)
    ensures
        r@ == tabs_replaced(buf@, with),
        r is Borrowed <==> !buf@.contains(TAB),
{
    match memchr::memchr(TAB, buf) {
        None => {
            proof {
                assert(buf@ == tabs_replaced(buf@, with));
                if buf@.contains(TAB) {
                    let i = choose|i: int| 0 <= i < buf@.len() && buf@[i] == TAB;
                    assert(buf@[i] != TAB);
                }
            }
            Cow::Borrowed(buf)
        },
        Some(first) => {
            let mut out: Vec<u8> = Vec::new();
            let mut i: usize = 0;
            while i < buf.len()
                invariant
                    i <= buf@.len(),
                    out@ == tabs_replaced(buf@, with).take(i as int),
                decreases buf@.len() - i,
            {
                let b = buf[i];
                out.push(
                    if b == TAB {
                        with
                    } else {
                        b
                    },
                );
                proof {
                    assert(out@ == tabs_replaced(buf@, with).take(i + 1));
                }
                i += 1;
            }
            proof {
                assert(buf@[first as int] == TAB);
                assert(out@ == tabs_replaced(buf@, with));
            }
            Cow::Owned(out)
        },
    }
}

} // verus!
