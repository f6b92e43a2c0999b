//! Colors of four 8-bit channels.

use vstd::prelude::*;
use vstd::string::{StrSliceExecFns, StringExecFns};

verus! {

/// The channels of a color as plain values: red, green, blue, alpha.
pub type Channels = (u8, u8, u8, u8);

/// The four bytes that stand for a color in a pixel buffer, in the order
/// red, green, blue, alpha.
pub open spec fn channel_bytes(c: Channels) -> Seq<u8> {
    seq![c.0, c.1, c.2, c.3]
}

/// The hexadecimal digit for `n`, in lower case.
pub open spec fn hex_digit(n: int) -> char
    recommends
        0 <= n < 16,
{
    "0123456789abcdef"@[n]
}

/// A byte as two hexadecimal digits.
pub open spec fn hex_byte(v: u8) -> Seq<char> {
    seq![hex_digit(v as int / 16), hex_digit(v as int % 16)]
}

/// A color as text: `#`, then two hexadecimal digits for each of red, green,
/// blue and alpha.
pub open spec fn hex_text(c: Channels) -> Seq<char> {
    seq!['#'] + hex_byte(c.0) + hex_byte(c.1) + hex_byte(c.2) + hex_byte(c.3)
}

fn push_hex(text: &mut String, v: u8)
    ensures
        final(text)@ == old(text)@ + hex_byte(v),
{
    let digits = "0123456789abcdef";
    proof {
        reveal_strlit("0123456789abcdef");
    }
    let hi = (v / 16) as usize;
    let lo = (v % 16) as usize;
    text.append(digits.substring_ascii(hi, hi + 1));
    text.append(digits.substring_ascii(lo, lo + 1));
    assert(text@ =~= old(text)@ + hex_byte(v));
}

/// A color: red, green, blue and alpha, one byte each.
#[derive(Copy, Clone, PartialEq, Eq, Structural)]
pub struct Rgba(u8, u8, u8, u8);

impl View for Rgba {
    type V = Channels;

    closed spec fn view(&self) -> Channels {
        (self.0, self.1, self.2, self.3)
    }
}

impl Rgba {
    pub fn new(r: u8, g: u8, b: u8, a: u8) -> (c: Self)
        ensures
            c@ == (r, g, b, a),
    {
        Self(r, g, b, a)
    }

    /// Opaque red.
    pub fn red() -> (c: Self)
        ensures
            c@ == (255u8, 0u8, 0u8, 255u8),
    {
        Self::new(255, 0, 0, 255)
    }

    /// Opaque green.
    pub fn green() -> (c: Self)
        ensures
            c@ == (0u8, 255u8, 0u8, 255u8),
    {
        Self::new(0, 255, 0, 255)
    }

    /// Opaque blue.
    pub fn blue() -> (c: Self)
        ensures
            c@ == (0u8, 0u8, 255u8, 255u8),
    {
        Self::new(0, 0, 255, 255)
    }

    /// Opaque black.
    pub fn black() -> (c: Self)
        ensures
            c@ == (0u8, 0u8, 0u8, 255u8),
    {
        Self::new(0, 0, 0, 255)
    }

    /// The channels in the order in which a pixel buffer stores them.
    pub fn as_array(&self) -> (out: [u8; 4])
        ensures
            out@ == channel_bytes(self@),
    {
        let out = [self.0, self.1, self.2, self.3];
        assert(out@ =~= channel_bytes(self@));
        out
    }

    /// The color whose channels are the four bytes of `value`.
    pub fn from(value: &[u8]) -> (c: Self)
        requires
            value@.len() == 4,
        ensures
            c@ == (value@[0], value@[1], value@[2], value@[3]),
            channel_bytes(c@) == value@,
    {
        let c = Self(value[0], value[1], value[2], value[3]);
        assert(channel_bytes(c@) =~= value@);
        c
    }

    /// The color as text, for logs: `#rrggbbaa`.
    pub fn to_hex(&self) -> (text: String)
        ensures
            text@ == hex_text(self@),
    {
        proof {
            reveal_strlit("#");
        }
        let mut text = String::from_str("#");
        push_hex(&mut text, self.0);
        push_hex(&mut text, self.1);
        push_hex(&mut text, self.2);
        push_hex(&mut text, self.3);
        assert(text@ =~= hex_text(self@));
        text
    }

    /// Two colors are the same color exactly when their channels agree.
    pub proof fn lemma_view_injective(a: Self, b: Self)
        ensures
            a@ == b@ <==> a == b,
    {
    }
}

} // verus!
