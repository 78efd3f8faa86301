//! Hexadecimal colour text for the annotation colour editor.
use crate::numeric::{all_digits, digit_value, digits_value, parse_u32, spec_parse_u32};
use crate::text::{chars_of, is_whitespace, is_whitespace_char, string_of};
use vstd::prelude::*;

verus! {

/// The upper-case hexadecimal digit for `d` (below 16).
pub open spec fn hex_digit(d: u8) -> char {
    if d < 10 {
        ('0' as int + d) as char
    } else {
        ('A' as int + d - 10) as char
    }
}

/// `RRGGBB` in upper-case hexadecimal.
pub open spec fn spec_hex(rgb: [u8; 3]) -> Seq<char> {
    seq![
        hex_digit(rgb[0] / 16),
        hex_digit(rgb[0] % 16),
        hex_digit(rgb[1] / 16),
        hex_digit(rgb[1] % 16),
        hex_digit(rgb[2] / 16),
        hex_digit(rgb[2] % 16),
    ]
}

fn hex_digit_exec(d: u8) -> (c: char)
    requires
        d < 16,
    ensures
        c == hex_digit(d),
{
    if d < 10 {
        (48u8 + d) as char
    } else {
        (55u8 + d) as char
    }
}

/// Formats a colour as `RRGGBB`.
pub fn hex(rgb: [u8; 3]) -> (s: String)
    ensures
        s@ == spec_hex(rgb),
{
    let mut v: Vec<char> = Vec::new();
    let mut i: usize = 0;
    while i < 3
        invariant
            i <= 3,
            v@.len() == 2 * i,
            forall|j: int|
                0 <= j < i ==> v@[2 * j] == hex_digit(rgb[j] / 16) && v@[2 * j + 1] == hex_digit(
                    rgb[j] % 16,
                ),
        decreases 3 - i,
    {
        v.push(hex_digit_exec(rgb[i] / 16));
        v.push(hex_digit_exec(rgb[i] % 16));
        i += 1;
    }
    assert(v@ =~= spec_hex(rgb));
    string_of(v.as_slice())
}

/// `s` without leading characters satisfying `strip`.
pub open spec fn trim_start_ws(s: Seq<char>) -> Seq<char>
    decreases s.len(),
{
    if s.len() > 0 && is_whitespace(s[0]) {
        trim_start_ws(s.skip(1))
    } else {
        s
    }
}

pub open spec fn trim_end_ws(s: Seq<char>) -> Seq<char>
    decreases s.len(),
{
    if s.len() > 0 && is_whitespace(s.last()) {
        trim_end_ws(s.drop_last())
    } else {
        s
    }
}

/// `s` without leading `'#'` characters.
pub open spec fn trim_start_hash(s: Seq<char>) -> Seq<char>
    decreases s.len(),
{
    if s.len() > 0 && s[0] == '#' {
        trim_start_hash(s.skip(1))
    } else {
        s
    }
}

/// The colour that hex text names: surrounding white space and leading `#`
/// marks are ignored, and what is left must be six characters that
/// `u32::from_str_radix(_, 16)` accepts.
pub open spec fn spec_parse_hex(text: Seq<char>) -> Option<[u8; 3]> {
    let t = trim_start_hash(trim_end_ws(trim_start_ws(text)));
    match spec_parse_u32(t, 16) {
        Some(v) => if t.len() == 6 {
            Some([(v / 65536 % 256) as u8, (v / 256 % 256) as u8, (v % 256) as u8])
        } else {
            None
        },
        None => None,
    }
}

/// Reads the colour typed into the hex field.
pub fn parse_hex(text: &str) -> (r: Option<[u8; 3]>)
    ensures
        r == spec_parse_hex(text@),
{
    let chars = chars_of(text);
    let n = chars.len();
    let mut start: usize = 0;
    assert(chars@.skip(0) =~= chars@);
    while start < n && is_whitespace_char(chars[start])
        invariant
            start <= n,
            n == chars@.len(),
            trim_start_ws(chars@.skip(start as int)) == trim_start_ws(chars@),
        decreases n - start,
    {
        assert(chars@.skip(start as int).skip(1) =~= chars@.skip(start + 1));
        start += 1;
    }
    let mut end: usize = n;
    assert(chars@.skip(start as int) =~= chars@.subrange(start as int, end as int));
    while end > start && is_whitespace_char(chars[end - 1])
        invariant
            start <= end <= n,
            n == chars@.len(),
            trim_end_ws(chars@.subrange(start as int, end as int)) == trim_end_ws(
                trim_start_ws(chars@),
            ),
        decreases end,
    {
        assert(chars@.subrange(start as int, end as int).drop_last() =~= chars@.subrange(
            start as int,
            end - 1,
        ));
        end -= 1;
    }
    while start < end && chars[start] == '#'
        invariant
            start <= end <= n,
            n == chars@.len(),
            trim_start_hash(chars@.subrange(start as int, end as int)) == trim_start_hash(
                trim_end_ws(trim_start_ws(chars@)),
            ),
        decreases end - start,
    {
        assert(chars@.subrange(start as int, end as int).skip(1) =~= chars@.subrange(
            start + 1,
            end as int,
        ));
        start += 1;
    }
    let t = vstd::slice::slice_subrange(chars.as_slice(), start, end);
    assert(t@ == trim_start_hash(trim_end_ws(trim_start_ws(text@))));
    match parse_u32(t, 16) {
        Some(v) => if end - start == 6 {
            Some([(v / 65536 % 256) as u8, (v / 256 % 256) as u8, (v % 256) as u8])
        } else {
            None
        },
        None => None,
    }
}

proof fn lemma_hex_digit_value(d: u8)
    requires
        d < 16,
    ensures
        digit_value(hex_digit(d), 16) == Some(d as int),
        !is_whitespace(hex_digit(d)),
        hex_digit(d) != '#',
        hex_digit(d) != '+',
{
}

proof fn lemma_prefix_step(s: Seq<char>, i: int)
    requires
        0 <= i < s.len(),
    ensures
        digits_value(s.take(i + 1), 16) == digits_value(s.take(i), 16) * 16 + digit_value(
            s[i],
            16,
        )->Some_0,
{
    assert(s.take(i + 1).drop_last() =~= s.take(i));
}

/// Two hex digits of a byte extend a prefix value by that byte.
proof fn lemma_prefix_byte(s: Seq<char>, i: int, b: u8)
    requires
        0 <= i,
        i + 2 <= s.len(),
        s[i] == hex_digit(b / 16),
        s[i + 1] == hex_digit(b % 16),
    ensures
        digits_value(s.take(i + 2), 16) == digits_value(s.take(i), 16) * 256 + b,
{
    lemma_prefix_step(s, i);
    lemma_prefix_step(s, i + 1);
    lemma_hex_digit_value(b / 16);
    lemma_hex_digit_value(b % 16);
    let p = digits_value(s.take(i), 16);
    assert((p * 16 + (b / 16) as int) * 16 + (b % 16) as int == p * 256 + b) by (nonlinear_arith);
}

proof fn lemma_hex_value(rgb: [u8; 3]) -> (v: int)
    ensures
        v == digits_value(spec_hex(rgb), 16),
        v == (rgb[0] * 256 + rgb[1]) * 256 + rgb[2],
        v / 65536 % 256 == rgb[0],
        v / 256 % 256 == rgb[1],
        v % 256 == rgb[2],
{
    let s = spec_hex(rgb);
    assert(s.take(0).len() == 0);
    lemma_prefix_byte(s, 0, rgb[0]);
    lemma_prefix_byte(s, 2, rgb[1]);
    lemma_prefix_byte(s, 4, rgb[2]);
    assert(s.take(6) =~= s);
    digits_value(s, 16)
}

/// Formatted colours read back as the same colour.
pub proof fn lemma_hex_roundtrip(rgb: [u8; 3])
    ensures
        spec_parse_hex(spec_hex(rgb)) == Some(rgb),
{
    let s = spec_hex(rgb);
    lemma_hex_digit_value(rgb[0] / 16);
    lemma_hex_digit_value(rgb[2] % 16);
    assert(trim_start_ws(s) == s);
    assert(trim_end_ws(s) == s);
    assert(trim_start_hash(s) == s);
    assert forall|j: int| 0 <= j < 6 implies #[trigger] digit_value(s[j], 16) is Some by {
        lemma_hex_digit_value(rgb[j / 2] / 16);
        lemma_hex_digit_value(rgb[j / 2] % 16);
    }
    let v = lemma_hex_value(rgb);
    assert(spec_parse_u32(s, 16) == Some(v as u32));
    assert(spec_parse_hex(s) =~= Some(rgb));
}

/// The alpha byte for an opacity percentage: `opacity * 255 / 100`,
/// truncated to eight bits.
pub fn opacity_alpha(opacity: u8) -> (a: u8)
    ensures
        a == (opacity * 255 / 100) % 256,
{
    ((opacity as u32 * 255 / 100) % 256) as u8
}

} // verus!
