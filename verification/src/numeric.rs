//! Decimal and hexadecimal digit strings, as `u32::from_str` and
//! `u32::from_str_radix(_, 16)` read them.
use vstd::prelude::*;

verus! {

/// The value of an ASCII digit in `radix` (10 or 16; hex digits in either
/// letter case), or `None`.
pub open spec fn digit_value(c: char, radix: int) -> Option<int> {
    if '0' <= c <= '9' {
        Some(c as int - '0' as int)
    } else if radix == 16 && 'a' <= c <= 'f' {
        Some(c as int - 'a' as int + 10)
    } else if radix == 16 && 'A' <= c <= 'F' {
        Some(c as int - 'A' as int + 10)
    } else {
        None
    }
}

pub open spec fn all_digits(s: Seq<char>, radix: int) -> bool {
    forall|i: int| 0 <= i < s.len() ==> #[trigger] digit_value(s[i], radix) is Some
}

/// The number written by the digits `s`, most significant first.
pub open spec fn digits_value(s: Seq<char>, radix: int) -> int
    decreases s.len(),
{
    if s.len() == 0 {
        0
    } else {
        digits_value(s.drop_last(), radix) * radix + digit_value(s.last(), radix)->Some_0
    }
}

/// What `u32::from_str_radix(s, radix)` returns: an optional leading `+`,
/// then at least one digit, with a value that fits in `u32`.
pub open spec fn spec_parse_u32(s: Seq<char>, radix: int) -> Option<u32> {
    let d = if s.len() > 0 && s[0] == '+' {
        s.skip(1)
    } else {
        s
    };
    if d.len() > 0 && all_digits(d, radix) && digits_value(d, radix) <= u32::MAX {
        Some(digits_value(d, radix) as u32)
    } else {
        None
    }
}

proof fn lemma_parse_none(s: Seq<char>, radix: int)
    requires
        ({
            let d = if s.len() > 0 && s[0] == '+' {
                s.skip(1)
            } else {
                s
            };
            !all_digits(d, radix) || digits_value(d, radix) > u32::MAX
        }),
    ensures
        spec_parse_u32(s, radix) is None,
{
}

proof fn lemma_digits_value_grows(s: Seq<char>, radix: int, i: int)
    requires
        0 <= i <= s.len(),
        all_digits(s, radix),
        radix == 10 || radix == 16,
    ensures
        digits_value(s.take(i), radix) <= digits_value(s, radix),
        0 <= digits_value(s.take(i), radix),
    decreases s.len() - i,
{
    if i < s.len() {
        lemma_digits_value_grows(s, radix, i + 1);
        let t = s.take(i + 1);
        assert(t.drop_last() =~= s.take(i));
        assert(digit_value(t.last(), radix) is Some);
    } else {
        assert(s.take(i) =~= s);
        lemma_digits_value_nonneg(s, radix);
    }
}

proof fn lemma_digits_value_nonneg(s: Seq<char>, radix: int)
    requires
        all_digits(s, radix),
        radix == 10 || radix == 16,
    ensures
        0 <= digits_value(s, radix),
    decreases s.len(),
{
    if s.len() > 0 {
        lemma_digits_value_nonneg(s.drop_last(), radix);
        assert(digit_value(s.last(), radix) is Some);
        assert(digits_value(s.drop_last(), radix) * radix >= 0) by (nonlinear_arith)
            requires
                digits_value(s.drop_last(), radix) >= 0,
                radix > 0,
        ;
    }
}

fn digit_of(c: char, radix: u32) -> (r: Option<u32>)
    requires
        radix == 10 || radix == 16,
    ensures
        match (r, digit_value(c, radix as int)) {
            (Some(v), Some(sv)) => v == sv && v < radix,
            (None, None) => true,
            _ => false,
        },
{
    if '0' <= c && c <= '9' {
        Some(c as u32 - '0' as u32)
    } else if radix == 16 && 'a' <= c && c <= 'f' {
        Some(c as u32 - 'a' as u32 + 10)
    } else if radix == 16 && 'A' <= c && c <= 'F' {
        Some(c as u32 - 'A' as u32 + 10)
    } else {
        None
    }
}

/// Parses `chars` as `u32::from_str_radix` does, for radix 10 or 16.
pub fn parse_u32(chars: &[char], radix: u32) -> (r: Option<u32>)
    requires
        radix == 10 || radix == 16,
    ensures
        r == spec_parse_u32(chars@, radix as int),
{
    let ghost s = chars@;
    let start: usize = if chars.len() > 0 && chars[0] == '+' {
        1
    } else {
        0
    };
    let ghost d = s.skip(start as int);
    assert(d == (if s.len() > 0 && s[0] == '+' {
        s.skip(1)
    } else {
        s
    })) by {
        assert(s.skip(0) =~= s);
    }
    if start >= chars.len() {
        return None;
    }
    let mut value: u32 = 0;
    let mut i: usize = start;
    while i < chars.len()
        invariant
            start <= i <= chars@.len(),
            s == chars@,
            d == s.skip(start as int),
            d == (if s.len() > 0 && s[0] == '+' {
                s.skip(1)
            } else {
                s
            }),
            radix == 10 || radix == 16,
            all_digits(d.take(i - start), radix as int),
            value == digits_value(d.take(i - start), radix as int),
        decreases chars@.len() - i,
    {
        let ghost prefix = d.take(i - start);
        let ghost next = d.take(i - start + 1);
        assert(next.drop_last() =~= prefix);
        match digit_of(chars[i], radix) {
            Some(v) => {
                if value > (u32::MAX - v) / radix {
                    proof {
                        assert(all_digits(next, radix as int));
                        assert(digits_value(next, radix as int) > u32::MAX) by (nonlinear_arith)
                            requires
                                digits_value(next, radix as int) == value * radix + v,
                                value > (u32::MAX - v) / radix as int,
                                radix > 0,
                                v < radix,
                        ;
                        if all_digits(d, radix as int) {
                            lemma_digits_value_grows(d, radix as int, i - start + 1);
                            assert(d.take(i - start + 1) == next);
                            assert(digits_value(d, radix as int) > u32::MAX);
                        }
                        lemma_parse_none(s, radix as int);
                    }
                    return None;
                }
                assert(value * radix + v <= u32::MAX) by (nonlinear_arith)
                    requires
                        value <= (u32::MAX - v) / radix as int,
                        radix > 0,
                        v < radix,
                ;
                value = value * radix + v;
                assert(all_digits(next, radix as int)) by {
                    assert forall|j: int| 0 <= j < next.len() implies #[trigger] digit_value(
                        next[j],
                        radix as int,
                    ) is Some by {
                        if j < prefix.len() {
                            assert(next[j] == prefix[j]);
                        }
                    }
                }
            },
            None => {
                assert(!all_digits(d, radix as int)) by {
                    assert(d[i - start] == chars@[i as int]);
                    assert(digit_value(d[i - start], radix as int) is None);
                }
                proof {
                    lemma_parse_none(s, radix as int);
                }
                return None;
            },
        }
        i += 1;
    }
    assert(d.take(i - start) =~= d);
    Some(value)
}

} // verus!
