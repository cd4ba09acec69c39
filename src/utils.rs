//! Colours for authors and labels, as terminal escape codes.

use vstd::prelude::*;

use crate::text::{push_char, push_str};

verus! {

/// The foreground colours the interface uses.
#[derive(Clone, Copy, Debug, PartialEq, Eq, Structural)]
pub enum Colour {
    Red,
    Green,
    Yellow,
    Blue,
    Magenta,
    Cyan,
    BrightRed,
    BrightGreen,
    BrightYellow,
    BrightBlue,
    BrightMagenta,
    BrightCyan,
    White,
}

/// The colour for a number: one of twelve for 1 to 12, white otherwise.
pub open spec fn colour_for(num: u64) -> Colour {
    if num == 1 {
        Colour::Red
    } else if num == 2 {
        Colour::Green
    } else if num == 3 {
        Colour::Yellow
    } else if num == 4 {
        Colour::Blue
    } else if num == 5 {
        Colour::Magenta
    } else if num == 6 {
        Colour::Cyan
    } else if num == 7 {
        Colour::BrightRed
    } else if num == 8 {
        Colour::BrightGreen
    } else if num == 9 {
        Colour::BrightYellow
    } else if num == 10 {
        Colour::BrightBlue
    } else if num == 11 {
        Colour::BrightMagenta
    } else if num == 12 {
        Colour::BrightCyan
    } else {
        Colour::White
    }
}

/// The two digits of the SGR foreground code of a colour (`31` for red,
/// `92` for bright green).
pub open spec fn fg_digits(c: Colour) -> Seq<char> {
    match c {
        Colour::Red => seq!['3', '1'],
        Colour::Green => seq!['3', '2'],
        Colour::Yellow => seq!['3', '3'],
        Colour::Blue => seq!['3', '4'],
        Colour::Magenta => seq!['3', '5'],
        Colour::Cyan => seq!['3', '6'],
        Colour::White => seq!['3', '7'],
        Colour::BrightRed => seq!['9', '1'],
        Colour::BrightGreen => seq!['9', '2'],
        Colour::BrightYellow => seq!['9', '3'],
        Colour::BrightBlue => seq!['9', '4'],
        Colour::BrightMagenta => seq!['9', '5'],
        Colour::BrightCyan => seq!['9', '6'],
    }
}

/// `text` in colour `c`: `ESC [ <code> m`, the text, then `ESC [ 39 m`,
/// which restores the default foreground.
pub open spec fn painted(text: Seq<char>, c: Colour) -> Seq<char> {
    seq!['\x1b', '['] + fg_digits(c) + seq!['m'] + text + seq!['\x1b', '[', '3', '9', 'm']
}

/// The sum of the bytes of `s`.
pub open spec fn byte_sum(s: Seq<u8>) -> int
    decreases s.len(),
{
    if s.len() == 0 {
        0
    } else {
        byte_sum(s.drop_last()) + s.last()
    }
}

proof fn lemma_byte_sum_bound(s: Seq<u8>)
    ensures
        0 <= byte_sum(s) <= 255 * s.len(),
    decreases s.len(),
{
    if s.len() > 0 {
        lemma_byte_sum_bound(s.drop_last());
    }
}

/// Picks the colour for a number.
pub fn pick_colour(num: u64) -> (r: Colour)
    ensures
        r == colour_for(num),
{
    match num {
        1 => Colour::Red,
        2 => Colour::Green,
        3 => Colour::Yellow,
        4 => Colour::Blue,
        5 => Colour::Magenta,
        6 => Colour::Cyan,
        7 => Colour::BrightRed,
        8 => Colour::BrightGreen,
        9 => Colour::BrightYellow,
        10 => Colour::BrightBlue,
        11 => Colour::BrightMagenta,
        12 => Colour::BrightCyan,
        _ => Colour::White,
    }
}

/// Picks a colour from the sum of the bytes of a public key, taken
/// modulo twelve.
pub fn public_key_to_colour(public_key: &[u8; 32]) -> (r: Colour)
    ensures
        r == colour_for((byte_sum(public_key@) % 12) as u64),
{
    let mut sum: u64 = 0;
    let mut i: usize = 0;
    while i < 32
        invariant
            i <= 32,
            public_key@.len() == 32,
            sum == byte_sum(public_key@.subrange(0, i as int)),
        decreases 32 - i,
    {
        proof {
            lemma_byte_sum_bound(public_key@.subrange(0, i as int));
            assert(public_key@.subrange(0, i + 1).drop_last() =~= public_key@.subrange(0, i as int));
        }
        sum = sum + public_key[i] as u64;
        i = i + 1;
    }
    assert(public_key@.subrange(0, 32) =~= public_key@);
    pick_colour(sum % 12)
}

/// `text` wrapped in the escape codes that show it in colour `c`.
pub fn paint(text: &str, c: Colour) -> (r: String)
    ensures
        r@ == painted(text@, c),
{
    let (d1, d2) = match c {
        Colour::Red => ('3', '1'),
        Colour::Green => ('3', '2'),
        Colour::Yellow => ('3', '3'),
        Colour::Blue => ('3', '4'),
        Colour::Magenta => ('3', '5'),
        Colour::Cyan => ('3', '6'),
        Colour::White => ('3', '7'),
        Colour::BrightRed => ('9', '1'),
        Colour::BrightGreen => ('9', '2'),
        Colour::BrightYellow => ('9', '3'),
        Colour::BrightBlue => ('9', '4'),
        Colour::BrightMagenta => ('9', '5'),
        Colour::BrightCyan => ('9', '6'),
    };
    let mut r = String::new();
    push_char(&mut r, '\x1b');
    push_char(&mut r, '[');
    push_char(&mut r, d1);
    push_char(&mut r, d2);
    push_char(&mut r, 'm');
    push_str(&mut r, text);
    push_char(&mut r, '\x1b');
    push_char(&mut r, '[');
    push_char(&mut r, '3');
    push_char(&mut r, '9');
    push_char(&mut r, 'm');
    assert(r@ =~= painted(text@, c));
    r
}

} // verus!
