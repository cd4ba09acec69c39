//! Hexadecimal text for cabal addresses and public keys.

use vstd::prelude::*;

use crate::text::push_char;

verus! {

/// The lower-case hexadecimal digit for a value below sixteen.
pub open spec fn digit_char(n: u8) -> char
    recommends
        n < 16,
{
    if n < 10 {
        (n + 48) as char
    } else {
        (n + 87) as char
    }
}

/// A byte written in lower-case hexadecimal without leading zeros
/// (`0x0a` is `a`, `0xab` is `ab`).
pub open spec fn byte_text(b: u8) -> Seq<char> {
    if b < 16 {
        seq![digit_char(b)]
    } else {
        seq![digit_char(b / 16), digit_char(b % 16)]
    }
}

/// The concatenation of `byte_text` over the bytes of `bytes`.
pub open spec fn bytes_text(bytes: Seq<u8>) -> Seq<char>
    decreases bytes.len(),
{
    if bytes.len() == 0 {
        Seq::empty()
    } else {
        bytes_text(bytes.drop_last()) + byte_text(bytes.last())
    }
}

fn digit(n: u8) -> (c: char)
    requires
        n < 16,
    ensures
        c == digit_char(n),
{
    if n < 10 {
        (n + 48) as char
    } else {
        (n + 87) as char
    }
}

/// Writes each byte of `addr` in lower-case hexadecimal, without padding a
/// byte below sixteen to two digits.
pub fn to(addr: &[u8]) -> (r: String)
    ensures
        r@ == bytes_text(addr@),
{
    let mut r = String::new();
    let mut i: usize = 0;
    while i < addr.len()
        invariant
            i <= addr@.len(),
            r@ == bytes_text(addr@.subrange(0, i as int)),
        decreases addr@.len() - i,
    {
        let b = addr[i];
        if b >= 16 {
            push_char(&mut r, digit(b / 16));
        }
        push_char(&mut r, digit(b % 16));
        assert(addr@.subrange(0, i + 1).drop_last() =~= addr@.subrange(0, i as int));
        i = i + 1;
    }
    assert(addr@.subrange(0, addr@.len() as int) =~= addr@);
    r
}

/// Whether `c` is a hexadecimal digit of either case.
pub open spec fn is_digit_char(c: char) -> bool {
    ('0' as u32 <= c as u32 <= '9' as u32) || ('a' as u32 <= c as u32 <= 'f' as u32) || (
    'A' as u32 <= c as u32 <= 'F' as u32)
}

/// The value of a hexadecimal digit.
pub open spec fn digit_value(c: char) -> int {
    if c as u32 <= '9' as u32 {
        c as u32 - '0' as u32
    } else if c as u32 <= 'F' as u32 {
        c as u32 - 'A' as u32 + 10
    } else {
        c as u32 - 'a' as u32 + 10
    }
}

/// Whether two characters read as one byte: two hexadecimal digits.
pub open spec fn pair_ok(a: char, b: char) -> bool {
    is_digit_char(a) && is_digit_char(b)
}

/// The byte that two hexadecimal digits stand for.
pub open spec fn pair_value(a: char, b: char) -> int {
    16 * digit_value(a) + digit_value(b)
}

/// The bytes that `s` spells, two characters each; none when its length is
/// odd or a pair is not a byte.
pub open spec fn parse_text(s: Seq<char>) -> Option<Seq<u8>> {
    if s.len() % 2 == 0 && forall|i: int| 0 <= i < s.len() / 2 ==> pair_ok(#[trigger] s[2 * i], s[2 * i + 1]) {
        Some(Seq::new(s.len() / 2, |i: int| pair_value(s[2 * i], s[2 * i + 1]) as u8))
    } else {
        None
    }
}

fn digit_of(c: char) -> (r: Option<u8>)
    ensures
        r is Some <==> is_digit_char(c),
        r matches Some(v) ==> v == digit_value(c) && v < 16,
{
    let u = c as u32;
    if 48 <= u && u <= 57 {
        Some((u - 48) as u8)
    } else if 65 <= u && u <= 70 {
        Some((u - 55) as u8)
    } else if 97 <= u && u <= 102 {
        Some((u - 87) as u8)
    } else {
        None
    }
}

/// Reads a byte from each pair of characters of `s`, two hexadecimal digits
/// of either case. Gives `None` when the length of `s` is odd or some
/// character is not a hexadecimal digit.
pub fn from(s: &str) -> (r: Option<Vec<u8>>)
    ensures
        r matches Some(v) ==> parse_text(s@) == Some(v@),
        r is None ==> parse_text(s@) is None,
{
    let n = s.unicode_len();
    if n % 2 != 0 {
        return None;
    }
    let mut result: Vec<u8> = Vec::new();
    let mut i: usize = 0;
    while i < n / 2
        invariant
            n == s@.len(),
            n % 2 == 0,
            i <= n / 2,
            result@.len() == i,
            forall|j: int| 0 <= j < i ==> pair_ok(#[trigger] s@[2 * j], s@[2 * j + 1]),
            forall|j: int|
                0 <= j < i ==> result@[j] == pair_value(#[trigger] s@[2 * j], s@[2 * j + 1]) as u8,
        decreases n / 2 - i,
    {
        let a = s.get_char(2 * i);
        let b = s.get_char(2 * i + 1);
        let lo = digit_of(b);
        match lo {
            None => {
                assert(!pair_ok(s@[2 * i], s@[2 * i + 1]));
                return None;
            },
            Some(l) => {
                match digit_of(a) {
                    None => {
                        assert(!pair_ok(s@[2 * i], s@[2 * i + 1]));
                        return None;
                    },
                    Some(h) => {
                        result.push(16 * h + l);
                    },
                }
            },
        }
        i = i + 1;
    }
    proof {
        let expect = Seq::new(n as nat / 2, |k: int| pair_value(s@[2 * k], s@[2 * k + 1]) as u8);
        assert(result@ =~= expect);
    }
    Some(result)
}

} // verus!
