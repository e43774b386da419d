//! The parts of the painted window that are not painting: the accent colour, and the noise that
//! the scene is generated from.
//!
//! The scene comes from a fixed seed, so the same window always draws the same mountains.
use vstd::prelude::*;
use crate::number::{digit_value, value_of_digit};
use crate::text::chars_of;

verus! {

/// A colour, 0 to 255 per channel.
#[derive(Debug, Clone, Copy, PartialEq, Eq, Structural)]
pub struct Rgb {
    pub r: u8,
    pub g: u8,
    pub b: u8,
}

/// The channel that two hexadecimal digits give.
pub open spec fn channel(s: Seq<char>, at: int) -> Option<int> {
    if digit_value(s[at]) < 16 && digit_value(s[at + 1]) < 16 {
        Some(16 * digit_value(s[at]) + digit_value(s[at + 1]))
    } else {
        None
    }
}

/// A text gives a colour as `#RRGGBB`.
pub open spec fn is_hex_colour(s: Seq<char>) -> bool {
    &&& s.len() == 7
    &&& s[0] == '#'
    &&& channel(s, 1) is Some
    &&& channel(s, 3) is Some
    &&& channel(s, 5) is Some
}

/// The colour used when an accent cannot be read: `#7AA2F7`.
pub open spec fn raven_blue() -> Rgb {
    Rgb { r: 0x7A, g: 0xA2, b: 0xF7 }
}

fn read_channel(s: &[char], at: usize) -> (r: Option<u8>)
    requires
        at + 2 <= s@.len(),
        at <= 5,
    ensures
        r is Some == channel(s@, at as int) is Some,
        r is Some ==> r->0 as int == channel(s@, at as int)->0,
{
    let high: u64 = value_of_digit(s[at]);
    let low: u64 = value_of_digit(s[at + 1]);
    if high < 16 && low < 16 {
        Some((16 * high + low) as u8)
    } else {
        None
    }
}

impl Rgb {
    /// The colour used when an accent cannot be read: exactly the desktop's own default, so that a
    /// window with no accent paints the same as one that has the default set explicitly.
    pub fn fallback() -> (r: Rgb)
        ensures
            r == raven_blue(),
    {
        Rgb { r: 0x7A, g: 0xA2, b: 0xF7 }
    }

    /// `#RRGGBB`, falling back to the Raven blue for anything else, so that a malformed accent can
    /// never paint a black window.
    pub fn from_hex(hex: &str) -> (r: Rgb)
        ensures
            is_hex_colour(hex@) ==> r.r as int == channel(hex@, 1)->0 && r.g as int == channel(
                hex@,
                3,
            )->0 && r.b as int == channel(hex@, 5)->0,
            !is_hex_colour(hex@) ==> r == raven_blue(),
    {
        let chars = chars_of(hex);
        if chars.len() != 7 || chars[0] != '#' {
            return Rgb::fallback();
        }
        let red = read_channel(&chars, 1);
        let green = read_channel(&chars, 3);
        let blue = read_channel(&chars, 5);
        match red {
            Some(r) => match green {
                Some(g) => match blue {
                    Some(b) => Rgb { r, g, b },
                    None => Rgb::fallback(),
                },
                None => Rgb::fallback(),
            },
            None => Rgb::fallback(),
        }
    }
}

/// A number with its higher bits folded onto its lower ones.
pub open spec fn folded(x: u64, by: u64) -> u64 {
    x ^ (x >> by)
}

/// A product of 64 bits, without what goes beyond them.
pub open spec fn product(a: u64, b: u64) -> u64 {
    ((a * b) % 0x1_0000_0000_0000_0000) as u64
}

/// What a seed and an index are scattered from.
pub open spec fn origin(seed: u64, index: u64) -> u64 {
    ((product(seed, 0x9E37_79B9_7F4A_7C15) + product(index, 0xBF58_476D_1CE4_E5B9))
        % 0x1_0000_0000_0000_0000) as u64
}

/// The number that a seed and an index are scattered to: three folds with a product after each of
/// the first two, of which the upper 53 bits are kept.
pub open spec fn scattered(seed: u64, index: u64) -> u64 {
    let x = product(folded(origin(seed, index), 30), 0xBF58_476D_1CE4_E5B9);
    let y = product(folded(x, 27), 0x94D0_49BB_1331_11EB);
    folded(y, 31) >> 11
}

/// A small integer hash, the only source of randomness in the scene. It gives the same number on
/// every machine and every redraw; over 2 to the 53 it is a fraction below one.
pub fn hash(seed: u64, index: u64) -> (r: u64)
    ensures
        r == scattered(seed, index),
        r < 0x20_0000_0000_0000,
{
    let mut x: u64 = seed.wrapping_mul(0x9E37_79B9_7F4A_7C15).wrapping_add(
        index.wrapping_mul(0xBF58_476D_1CE4_E5B9),
    );
    assert(x == origin(seed, index));
    x = x ^ (x >> 30u64);
    x = x.wrapping_mul(0xBF58_476D_1CE4_E5B9);
    x = x ^ (x >> 27u64);
    x = x.wrapping_mul(0x94D0_49BB_1331_11EB);
    x = x ^ (x >> 31u64);
    assert(x >> 11u64 < 0x20_0000_0000_0000) by (bit_vector);
    x >> 11u64
}

/// The channels of a colour stand one after the other, red first, each as two hexadecimal digits of which
/// the first counts sixteenfold; either case of the letters is read.
pub proof fn colours_are_read_channel_by_channel(s: Seq<char>, at: int, high: int, low: int)
    requires
        0 <= at,
        at + 1 < s.len(),
        0 <= high < 16,
        0 <= low < 16,
        s[at] == (if high < 10 {
            ('0' as int + high) as char
        } else {
            ('A' as int + high - 10) as char
        }),
        s[at + 1] == (if low < 10 {
            ('0' as int + low) as char
        } else {
            ('a' as int + low - 10) as char
        }),
    ensures
        channel(s, at) == Some(16 * high + low),
{
}

/// Anything but a sharp and six hexadecimal digits is no colour.
pub proof fn anything_else_is_no_colour(s: Seq<char>)
    ensures
        s.len() != 7 ==> !is_hex_colour(s),
        s.len() == 7 && s[0] != '#' ==> !is_hex_colour(s),
        s.len() == 7 && (exists|i: int|
            1 <= i < 7 && !('0' <= (#[trigger] s[i]) <= '9' || 'a' <= s[i] <= 'f' || 'A' <= s[i] <= 'F'))
            ==> !is_hex_colour(s),
        raven_blue() == (Rgb { r: 122, g: 162, b: 247 }),
{
}

} // verus!
