//! Colours and the colour attribute's syntax.
use vstd::prelude::*;
use vstd::string::*;

verus! {

/// A colour with 8-bit red, green, blue and alpha channels.
#[derive(Clone, Copy, PartialEq, Eq, Debug, Structural)]
pub struct COColor {
    pub r: u8,
    pub g: u8,
    pub b: u8,
    pub a: u8,
}


/// The colour that `parse_color::parse` gives for a text, as red, green,
/// blue and alpha.
pub uninterp spec fn css_color_of(s: Seq<char>) -> Option<(u8, u8, u8, u8)>;

/// Relies on `parse_color::parse`: looks a CSS colour name up, ignoring case
/// and every character that is not an ASCII letter; the result depends on the
/// text alone.
#[verifier::external_body]
fn css_color(s: &str) -> (r: Option<(u8, u8, u8, u8)>)
    ensures
        r == css_color_of(s@),
{
    parse_color::parse(s).map(|[r, g, b, a]| (r, g, b, a))
}

pub open spec fn is_hex_digit(c: char) -> bool {
    ('0' <= c && c <= '9') || ('a' <= c && c <= 'f') || ('A' <= c && c <= 'F')
}

pub open spec fn hex_digit_value(c: char) -> int {
    if '0' <= c && c <= '9' {
        c as int - '0' as int
    } else if 'a' <= c && c <= 'f' {
        c as int - 'a' as int + 10
    } else {
        c as int - 'A' as int + 10
    }
}

/// The byte that the two hex digits at `i` and `i + 1` denote.
pub open spec fn hex_byte_at(t: Seq<char>, i: int) -> u8 {
    (hex_digit_value(t[i]) * 16 + hex_digit_value(t[i + 1])) as u8
}

/// `s` without the prefix `p`, where it starts with `p`.
pub open spec fn strip_prefix(s: Seq<char>, p: Seq<char>) -> Seq<char> {
    if s.len() >= p.len() && s.take(p.len() as int) == p {
        s.skip(p.len() as int)
    } else {
        s
    }
}

/// A colour written in hex, `rrggbb` or `rrggbbaa`, after an optional `0x`
/// and an optional `#`; alpha is 255 where it is not given.
pub open spec fn hex_color_of(s: Seq<char>) -> Option<COColor> {
    let t = strip_prefix(strip_prefix(s, seq!['0', 'x']), seq!['#']);
    if (t.len() == 6 || t.len() == 8) && forall|i: int| 0 <= i < t.len() ==> is_hex_digit(#[trigger] t[i]) {
        Some(COColor {
            r: hex_byte_at(t, 0),
            g: hex_byte_at(t, 2),
            b: hex_byte_at(t, 4),
            a: if t.len() == 8 { hex_byte_at(t, 6) } else { 255 },
        })
    } else {
        None
    }
}

/// The colour of a colour attribute, given what the CSS name lookup gave for
/// it: the named colour where there is one, else the hex reading.
pub open spec fn color_of(named: Option<(u8, u8, u8, u8)>, s: Seq<char>) -> Option<COColor> {
    match named {
        Some(c) => Some(COColor { r: c.0, g: c.1, b: c.2, a: c.3 }),
        None => hex_color_of(s),
    }
}

fn hex_value(c: char) -> (r: Option<u8>)
    ensures
        r is Some <==> is_hex_digit(c),
        r matches Some(v) ==> v as int == hex_digit_value(c),
{
    if '0' <= c && c <= '9' {
        Some((c as u32 - '0' as u32) as u8)
    } else if 'a' <= c && c <= 'f' {
        Some((c as u32 - 'a' as u32 + 10) as u8)
    } else if 'A' <= c && c <= 'F' {
        Some((c as u32 - 'A' as u32 + 10) as u8)
    } else {
        None
    }
}

/// Reads a colour written in hex; see `hex_color_of`.
pub fn parse_hex_color(s: &str) -> (r: Option<COColor>)
    ensures
        r == hex_color_of(s@),
{
    let n = s.unicode_len();
    let mut start: usize = 0;
    if n >= 2 && s.get_char(0) == '0' && s.get_char(1) == 'x' {
        start = 2;
    }
    let ghost s1 = strip_prefix(s@, seq!['0', 'x']);
    assert(s1 == s@.skip(start as int)) by {
        if n >= 2 && s@[0] == '0' && s@[1] == 'x' {
            assert(s@.take(2) == seq!['0', 'x']);
        } else if s@.len() >= 2 {
            if s@.take(2) == seq!['0', 'x'] {
                assert(s@[0] == s@.take(2)[0]);
                assert(s@[1] == s@.take(2)[1]);
            }
        }
    }
    if start < n && s.get_char(start) == '#' {
        start = start + 1;
    }
    let ghost t = strip_prefix(s1, seq!['#']);
    assert(t == s@.skip(start as int)) by {
        if s1.len() >= 1 && s1.take(1) == seq!['#'] {
            assert(s1[0] == s1.take(1)[0]);
        } else if s1.len() >= 1 && s1[0] == '#' {
            assert(s1.take(1) == seq!['#']);
        }
    }
    let len = n - start;
    if len != 6 && len != 8 {
        return None;
    }
    let mut bytes: Vec<u8> = Vec::new();
    let mut i: usize = 0;
    while i < len
        invariant
            len == t.len(),
            len == 6 || len == 8,
            i <= len,
            i % 2 == 0,
            start + len == n,
            n == s@.len(),
            t == s@.skip(start as int),
            t == strip_prefix(strip_prefix(s@, seq!['0', 'x']), seq!['#']),
            bytes@.len() == i / 2,
            forall|j: int| 0 <= j < i ==> is_hex_digit(#[trigger] t[j]),
            forall|j: int| 0 <= j < i / 2 ==> #[trigger] bytes@[j] == hex_byte_at(t, 2 * j),
        decreases len - i,
    {
        let hi = hex_value(s.get_char(start + i));
        let lo = hex_value(s.get_char(start + i + 1));
        assert(t[i as int] == s@[start + i]);
        assert(t[i + 1] == s@[start + i + 1]);
        match (hi, lo) {
            (Some(h), Some(l)) => {
                bytes.push(h * 16 + l);
            },
            _ => {
                assert(!is_hex_digit(t[i as int]) || !is_hex_digit(t[i + 1]));
                return None;
            },
        }
        i = i + 2;
    }
    assert(bytes@[0] == hex_byte_at(t, 0));
    assert(bytes@[1] == hex_byte_at(t, 2));
    assert(bytes@[2] == hex_byte_at(t, 4));
    let a = if len == 8 {
        assert(bytes@[3] == hex_byte_at(t, 6));
        bytes[3]
    } else {
        255
    };
    Some(COColor { r: bytes[0], g: bytes[1], b: bytes[2], a })
}

/// Reads a colour attribute: a CSS colour name, or hex digits as
/// `parse_hex_color` reads them.
pub fn try_parse_color(s: &str) -> (r: Option<COColor>)
    ensures
        r == color_of(css_color_of(s@), s@),
{
    let named = css_color(s);
    color_from_lookup(named, s)
}

/// The colour of an attribute, given the CSS name lookup's answer for it.
pub fn color_from_lookup(named: Option<(u8, u8, u8, u8)>, s: &str) -> (r: Option<COColor>)
    ensures
        r == color_of(named, s@),
{
    match named {
        Some((r, g, b, a)) => Some(COColor { r, g, b, a }),
        None => parse_hex_color(s),
    }
}

pub open spec fn hex_char(n: int) -> char {
    seq!['0', '1', '2', '3', '4', '5', '6', '7', '8', '9', 'a', 'b', 'c', 'd', 'e', 'f'][n]
}

pub open spec fn hex_byte_text(b: u8) -> Seq<char> {
    seq![hex_char(b as int / 16), hex_char(b as int % 16)]
}

/// Relies on the standard library's `LowerHex` for `u8`, formatted with
/// `{:02x}`: two lowercase hex digits, zero-padded.
#[verifier::external_body]
fn hex_byte(b: u8) -> (r: String)
    ensures
        r@ == hex_byte_text(b),
{
    format!("{b:02x}")
}

impl COColor {
    pub open spec fn spec_text(self) -> Seq<char> {
        seq!['#'] + hex_byte_text(self.r) + hex_byte_text(self.g) + hex_byte_text(self.b)
            + hex_byte_text(self.a)
    }

    /// The colour as `#rrggbbaa`.
    pub fn as_str(&self) -> (r: String)
        ensures
            r@ == self.spec_text(),
    {
        proof {
            reveal_strlit("#");
        }
        let mut out = String::from_str("#");
        let r = hex_byte(self.r);
        out.append(r.as_str());
        let g = hex_byte(self.g);
        out.append(g.as_str());
        let b = hex_byte(self.b);
        out.append(b.as_str());
        let a = hex_byte(self.a);
        out.append(a.as_str());
        out
    }
}

} // verus!
