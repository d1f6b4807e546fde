//! RGBA color model: linear interpolation and `"#rrggbb"` parsing/printing.

use vstd::prelude::*;

verus! {

/// One color with four 8-bit channels.
#[derive(Clone, Copy, Debug, PartialEq, Eq, Structural)]
pub struct Color {
    pub r: u8,
    pub g: u8,
    pub b: u8,
    pub a: u8,
}

/// The channel value obtained by linear interpolation from `a` (at position
/// `av`) to `b` (at position `bv`), sampled at position `tv`, with the
/// division truncating as integer division does.
pub open spec fn lerp_channel(a: u8, b: u8, av: int, bv: int, tv: int) -> int
    recommends
        av <= tv <= bv,
        av < bv,
{
    if b >= a {
        a + (b - a) * (tv - av) / (bv - av)
    } else {
        a - (a - b) * (tv - av) / (bv - av)
    }
}

/// The color obtained by interpolating every channel; see `lerp_channel`.
pub open spec fn lerp_color(a: Color, b: Color, av: int, bv: int, tv: int) -> Color
    recommends
        av <= tv <= bv,
        av < bv,
{
    Color {
        r: lerp_channel(a.r, b.r, av, bv, tv) as u8,
        g: lerp_channel(a.g, b.g, av, bv, tv) as u8,
        b: lerp_channel(a.b, b.b, av, bv, tv) as u8,
        a: lerp_channel(a.a, b.a, av, bv, tv) as u8,
    }
}

/// The six lowercase hex digits of the r, g and b channels, prefixed by `#`.
pub open spec fn spec_as_hex(c: Color) -> Seq<char> {
    seq![
        '#',
        spec_hex_char(c.r as int / 16),
        spec_hex_char(c.r as int % 16),
        spec_hex_char(c.g as int / 16),
        spec_hex_char(c.g as int % 16),
        spec_hex_char(c.b as int / 16),
        spec_hex_char(c.b as int % 16),
    ]
}

/// The lowercase hex digit for a value below 16.
pub open spec fn spec_hex_char(n: int) -> char
    recommends
        0 <= n < 16,
{
    if n == 0 {
        '0'
    } else if n == 1 {
        '1'
    } else if n == 2 {
        '2'
    } else if n == 3 {
        '3'
    } else if n == 4 {
        '4'
    } else if n == 5 {
        '5'
    } else if n == 6 {
        '6'
    } else if n == 7 {
        '7'
    } else if n == 8 {
        '8'
    } else if n == 9 {
        '9'
    } else if n == 10 {
        'a'
    } else if n == 11 {
        'b'
    } else if n == 12 {
        'c'
    } else if n == 13 {
        'd'
    } else if n == 14 {
        'e'
    } else {
        'f'
    }
}

/// The value of a hex digit character, or none if `c` is no hex digit.
/// Both lowercase and uppercase digits are accepted.
pub open spec fn spec_hex_val(c: char) -> Option<u8> {
    if '0' <= c <= '9' {
        Some((c as u8 - '0' as u8) as u8)
    } else if 'a' <= c <= 'f' {
        Some((c as u8 - 'a' as u8 + 10) as u8)
    } else if 'A' <= c <= 'F' {
        Some((c as u8 - 'A' as u8 + 10) as u8)
    } else {
        None
    }
}

/// Whether `s` is a well-formed color string: a leading `#` followed by six
/// hex digits. Anything after position 6 is ignored.
pub open spec fn spec_hex_color_ok(s: Seq<char>) -> bool {
    &&& s.len() >= 7
    &&& s[0] == '#'
    &&& forall|i: int| 1 <= i < 7 ==> #[trigger] spec_hex_val(s[i]) is Some
}

/// The color denoted by a well-formed color string, with alpha forced to 255.
pub open spec fn spec_parse_hex(s: Seq<char>) -> Color
    recommends
        spec_hex_color_ok(s),
{
    Color {
        r: (spec_hex_val(s[1]).unwrap() * 16 + spec_hex_val(s[2]).unwrap()) as u8,
        g: (spec_hex_val(s[3]).unwrap() * 16 + spec_hex_val(s[4]).unwrap()) as u8,
        b: (spec_hex_val(s[5]).unwrap() * 16 + spec_hex_val(s[6]).unwrap()) as u8,
        a: 255,
    }
}

impl Color {
    /// Assemble a color from its four channels.
    pub fn of(r: u8, g: u8, b: u8, a: u8) -> (c: Color)
        ensures
            c == (Color { r, g, b, a }),
    {
        Color { r, g, b, a }
    }

    /// The midpoint of two colors, channel by channel, rounding down.
    pub fn average(&self, other: &Color) -> (c: Color)
        ensures
            c.r == lerp_channel(self.r, other.r, 0, 2, 1),
            c.g == lerp_channel(self.g, other.g, 0, 2, 1),
            c.b == lerp_channel(self.b, other.b, 0, 2, 1),
            c.a == lerp_channel(self.a, other.a, 0, 2, 1),
            c == lerp_color(*self, *other, 0, 2, 1),
    {
        Color::lerp(self, other, 0, 2, 1)
    }

    /// Linear interpolation from `a` at position `a_value` to `b` at position
    /// `b_value`, sampled at `target_value`, channel by channel.
    pub fn lerp(a: &Color, b: &Color, a_value: isize, b_value: isize, target_value: isize) -> (c:
        Color)
        requires
            a_value <= target_value <= b_value,
            a_value < b_value,
        ensures
            c.r == lerp_channel(a.r, b.r, a_value as int, b_value as int, target_value as int),
            c.g == lerp_channel(a.g, b.g, a_value as int, b_value as int, target_value as int),
            c.b == lerp_channel(a.b, b.b, a_value as int, b_value as int, target_value as int),
            c.a == lerp_channel(a.a, b.a, a_value as int, b_value as int, target_value as int),
            c == lerp_color(*a, *b, a_value as int, b_value as int, target_value as int),
    {
        Color {
            r: lerp_channel_exec(a.r, b.r, a_value, b_value, target_value),
            g: lerp_channel_exec(a.g, b.g, a_value, b_value, target_value),
            b: lerp_channel_exec(a.b, b.b, a_value, b_value, target_value),
            a: lerp_channel_exec(a.a, b.a, a_value, b_value, target_value),
        }
    }

    /// Parse a `"#rrggbb"` string into a color with alpha 255. The string
    /// must start with `#` followed by six hex digits; characters past the
    /// six digits are ignored. A string shorter than seven characters, one
    /// not led by `#`, or one whose six digit positions hold anything but
    /// hex digits, yields no color.
    pub fn parse_hex(hex: &str) -> (c: Option<Color>)
        ensures
            c is Some <==> spec_hex_color_ok(hex@),
            c is Some ==> c->0 == spec_parse_hex(hex@),
    {
        if hex.unicode_len() < 7 {
            return None;
        }
        if hex.get_char(0) != '#' {
            return None;
        }
        let r_hi = hex_val(hex.get_char(1));
        let r_lo = hex_val(hex.get_char(2));
        let g_hi = hex_val(hex.get_char(3));
        let g_lo = hex_val(hex.get_char(4));
        let b_hi = hex_val(hex.get_char(5));
        let b_lo = hex_val(hex.get_char(6));
        match (r_hi, r_lo, g_hi, g_lo, b_hi, b_lo) {
            (Some(rh), Some(rl), Some(gh), Some(gl), Some(bh), Some(bl)) => {
                assert(forall|i: int| 1 <= i < 7 ==> #[trigger] spec_hex_val(hex@[i]) is Some);
                Some(Color { r: rh * 16 + rl, g: gh * 16 + gl, b: bh * 16 + bl, a: 255 })
            },
            _ => {
                assert(!spec_hex_color_ok(hex@));
                None
            },
        }
    }

    /// The `"#rrggbb"` form of this color, in lowercase hex; alpha is not
    /// printed.
    pub fn as_hex(&self) -> (s: String)
        ensures
            s@ == spec_as_hex(*self),
    {
        let mut s = String::new();
        s.append("#");
        proof {
            reveal_strlit("#");
        }
        push_hex_byte(&mut s, self.r);
        push_hex_byte(&mut s, self.g);
        push_hex_byte(&mut s, self.b);
        proof {
            assert(s@ =~= spec_as_hex(*self));
        }
        s
    }
}

/// The value of one hex digit character, lowercase or uppercase.
fn hex_val(c: char) -> (v: Option<u8>)
    ensures
        v == spec_hex_val(c),
{
    if '0' <= c && c <= '9' {
        Some(c as u8 - '0' as u8)
    } else if 'a' <= c && c <= 'f' {
        Some(c as u8 - 'a' as u8 + 10)
    } else if 'A' <= c && c <= 'F' {
        Some(c as u8 - 'A' as u8 + 10)
    } else {
        None
    }
}

/// One lowercase hex digit as a one-character string.
fn hex_char_str(n: u8) -> (s: &'static str)
    requires
        n < 16,
    ensures
        s@ =~= seq![spec_hex_char(n as int)],
{
    proof {
        reveal_strlit("0");
        reveal_strlit("1");
        reveal_strlit("2");
        reveal_strlit("3");
        reveal_strlit("4");
        reveal_strlit("5");
        reveal_strlit("6");
        reveal_strlit("7");
        reveal_strlit("8");
        reveal_strlit("9");
        reveal_strlit("a");
        reveal_strlit("b");
        reveal_strlit("c");
        reveal_strlit("d");
        reveal_strlit("e");
        reveal_strlit("f");
    }
    match n {
        0 => "0",
        1 => "1",
        2 => "2",
        3 => "3",
        4 => "4",
        5 => "5",
        6 => "6",
        7 => "7",
        8 => "8",
        9 => "9",
        10 => "a",
        11 => "b",
        12 => "c",
        13 => "d",
        14 => "e",
        _ => "f",
    }
}

/// Append the two lowercase hex digits of `v` to `s`.
fn push_hex_byte(s: &mut String, v: u8)
    ensures
        final (s)@ == old(s)@ + seq![spec_hex_char(v as int / 16), spec_hex_char(v as int % 16)],
{
    s.append(hex_char_str(v / 16));
    s.append(hex_char_str(v % 16));
    proof {
        assert(final (s)@ =~= old(s)@ + seq![
            spec_hex_char(v as int / 16),
            spec_hex_char(v as int % 16),
        ]);
    }
}

/// Linear interpolation of a single channel; see `lerp_channel`.
fn lerp_channel_exec(a: u8, b: u8, av: isize, bv: isize, tv: isize) -> (r: u8)
    requires
        av <= tv <= bv,
        av < bv,
    ensures
        r == lerp_channel(a, b, av as int, bv as int, tv as int),
{
    let d: u128 = (bv as i128 - av as i128) as u128;
    let t: u128 = (tv as i128 - av as i128) as u128;
    if b >= a {
        let diff: u128 = (b - a) as u128;
        proof {
            lemma_lerp_product_fits(diff as int, t as int);
        }
        let q: u128 = diff * t / d;
        proof {
            lemma_lerp_quotient_bound(diff as int, t as int, d as int);
        }
        a + (q as u8)
    } else {
        let diff: u128 = (a - b) as u128;
        proof {
            lemma_lerp_product_fits(diff as int, t as int);
        }
        let q: u128 = diff * t / d;
        proof {
            lemma_lerp_quotient_bound(diff as int, t as int, d as int);
        }
        a - (q as u8)
    }
}

/// A channel difference times a position difference within `isize` range
/// stays far below the `u128` limit.
proof fn lemma_lerp_product_fits(diff: int, t: int)
    requires
        0 <= diff < 0x100,
        0 <= t < 0x1_0000_0000_0000_0000_0000,
    ensures
        diff * t < u128::MAX,
{
    assert(diff * t < 0x100 * 0x1_0000_0000_0000_0000_0000) by (nonlinear_arith)
        requires
            0 <= diff < 0x100 && 0 <= t < 0x1_0000_0000_0000_0000_0000,
    ;
}

/// The interpolation quotient never exceeds the channel difference.
proof fn lemma_lerp_quotient_bound(diff: int, t: int, d: int)
    requires
        0 <= diff,
        0 <= t <= d,
        0 < d,
    ensures
        0 <= diff * t / d <= diff,
{
    assert(diff * t <= diff * d) by (nonlinear_arith)
        requires
            0 <= diff && t <= d,
    ;
    assert(diff * t / d <= diff * d / d) by {
        vstd::arithmetic::div_mod::lemma_div_is_ordered(diff * t, diff * d, d);
    }
    assert(diff * d / d == diff) by {
        vstd::arithmetic::div_mod::lemma_div_by_multiple(diff, d);
    }
    assert(0 <= diff * t) by (nonlinear_arith)
        requires
            0 <= diff && 0 <= t,
    ;
    assert(0 <= diff * t / d) by {
        vstd::arithmetic::div_mod::lemma_div_is_ordered(0, diff * t, d);
    }
}

} // verus!
