use vstd::prelude::*;

use crate::text::chars_of;

verus! {

/// An RGBA colour, eight bits per channel, not premultiplied.
#[derive(Clone, Copy, Debug, PartialEq, Eq, Structural)]
pub struct Color {
    pub r: u8,
    pub g: u8,
    pub b: u8,
    pub a: u8,
}

impl Color {
    pub open spec fn spec_white() -> Color {
        Color { r: 255, g: 255, b: 255, a: 255 }
    }

    /// Opaque white, the colour of a canvas pixel that nothing was painted on.
    #[verifier::when_used_as_spec(spec_white)]
    pub fn white() -> (c: Color)
        ensures
            c == Color::spec_white(),
    {
        Color { r: 255, g: 255, b: 255, a: 255 }
    }
}

/// The nearest `i32` to `v`: lengths saturate at the ends of the `i32` range.
pub open spec fn clamp_px(v: int) -> i32 {
    if v < i32::MIN {
        i32::MIN
    } else if v > i32::MAX {
        i32::MAX
    } else {
        v as i32
    }
}

/// Whether `c` is a decimal digit.
pub open spec fn is_digit(c: char) -> bool {
    '0' <= c <= '9'
}

pub open spec fn digit_value(c: char) -> int {
    c as int - '0' as int
}

/// The index just past the run of decimal digits of `s` that starts at `from`.
pub open spec fn digits_end(s: Seq<char>, from: int) -> int
    decreases s.len() - from,
{
    if 0 <= from < s.len() && is_digit(s[from]) {
        digits_end(s, from + 1)
    } else {
        from
    }
}

/// The number that a sequence of decimal digits writes.
pub open spec fn decimal(digits: Seq<char>) -> int
    decreases digits.len(),
{
    if digits.len() == 0 {
        0
    } else {
        decimal(digits.drop_last()) * 10 + digit_value(digits.last())
    }
}

/// The length, in whole pixels, that `s` writes, if it writes one.
///
/// A length is an optional `-`, one or more decimal digits, an optional
/// fraction (a `.` and one or more digits) and an optional unit `px`. The
/// fraction is dropped, and the result saturates at the `i32` bounds.
pub open spec fn length_of(s: Seq<char>) -> Option<i32> {
    let start: int = if s.len() > 0 && s[0] == '-' { 1 } else { 0 };
    let end = digits_end(s, start);
    let has_fraction = end < s.len() && s[end] == '.';
    let after = if has_fraction { digits_end(s, end + 1) } else { end };
    if end == start {
        None
    } else if has_fraction && after == end + 1 {
        None
    } else if after != s.len() && s.subrange(after, s.len() as int) != seq!['p', 'x'] {
        None
    } else {
        let magnitude = decimal(s.subrange(start, end));
        Some(clamp_px(if start == 1 { -magnitude } else { magnitude }))
    }
}

/// The value of a hexadecimal digit, in either case.
pub open spec fn hex_value(c: char) -> Option<int> {
    if '0' <= c <= '9' {
        Some(c as int - '0' as int)
    } else if 'a' <= c <= 'f' {
        Some(c as int - 'a' as int + 10)
    } else if 'A' <= c <= 'F' {
        Some(c as int - 'A' as int + 10)
    } else {
        None
    }
}

/// The channel value that two hexadecimal digits write.
pub open spec fn hex_pair(hi: char, lo: char) -> int {
    hex_value(hi).unwrap() * 16 + hex_value(lo).unwrap()
}

/// The colour that `s` writes, if it writes one: a `#` and six hexadecimal
/// digits, two each for red, green and blue. Such a colour is opaque.
pub open spec fn color_of(s: Seq<char>) -> Option<Color> {
    if s.len() == 7 && s[0] == '#' && (forall|i: int| 1 <= i < 7 ==> hex_value(#[trigger] s[i]) is Some) {
        Some(
            Color {
                r: hex_pair(s[1], s[2]) as u8,
                g: hex_pair(s[3], s[4]) as u8,
                b: hex_pair(s[5], s[6]) as u8,
                a: 255,
            },
        )
    } else {
        None
    }
}

/// A run of digits that is followed by a character that is no digit, or by
/// the end of `s`, is the whole run.
proof fn lemma_digits_end_is(s: Seq<char>, from: int, to: int)
    requires
        0 <= from <= to <= s.len(),
        forall|k: int| from <= k < to ==> is_digit(#[trigger] s[k]),
        to < s.len() ==> !is_digit(s[to]),
    ensures
        digits_end(s, from) == to,
    decreases to - from,
{
    if from < to {
        lemma_digits_end_is(s, from + 1, to);
    }
}

fn digit_of(c: char) -> (d: Option<u8>)
    ensures
        d is Some <==> is_digit(c),
        d matches Some(v) ==> v == digit_value(c) && v <= 9,
{
    if '0' <= c && c <= '9' {
        Some((c as u32 - '0' as u32) as u8)
    } else {
        None
    }
}

fn hex_digit_of(c: char) -> (d: Option<u8>)
    ensures
        d is Some <==> hex_value(c) is Some,
        d matches Some(v) ==> v == hex_value(c).unwrap() && v <= 15,
{
    if '0' <= c && c <= '9' {
        Some((c as u32 - '0' as u32) as u8)
    } else if 'a' <= c && c <= 'f' {
        Some((c as u32 - 'a' as u32 + 10) as u8)
    } else if 'A' <= c && c <= 'F' {
        Some((c as u32 - 'A' as u32 + 10) as u8)
    } else {
        None
    }
}

/// Skips the digits of `s` from `from` on. Returns where they end and the
/// number they write, saturated at 2^31.
fn scan_digits(s: &Vec<char>, from: usize) -> (r: (usize, i64))
    requires
        from <= s.len(),
    ensures
        r.0 == digits_end(s@, from as int),
        from <= r.0 <= s.len(),
        r.1 == vstd::math::min(decimal(s@.subrange(from as int, r.0 as int)), 0x8000_0000),
        0 <= r.1,
{
    let mut i: usize = from;
    let mut acc: i64 = 0;
    assert(s@.subrange(from as int, from as int) =~= Seq::<char>::empty());
    loop
        invariant_except_break
            from <= i <= s.len(),
            forall|k: int| from <= k < i ==> is_digit(#[trigger] s@[k]),
            0 <= acc <= 0x8000_0000,
            acc == vstd::math::min(decimal(s@.subrange(from as int, i as int)), 0x8000_0000),
        ensures
            from <= i <= s.len(),
            i == digits_end(s@, from as int),
            0 <= acc <= 0x8000_0000,
            acc == vstd::math::min(decimal(s@.subrange(from as int, i as int)), 0x8000_0000),
        decreases s.len() - i,
    {
        if i >= s.len() {
            proof {
                lemma_digits_end_is(s@, from as int, i as int);
            }
            break;
        }
        match digit_of(s[i]) {
            Some(d) => {
                proof {
                    let before = s@.subrange(from as int, i as int);
                    let now = s@.subrange(from as int, i + 1);
                    assert(now.drop_last() =~= before);
                    assert(now.last() == s@[i as int]);
                }
                let next: i64 = acc * 10 + d as i64;
                acc = if next > 0x8000_0000 { 0x8000_0000 } else { next };
                i = i + 1;
            },
            None => {
                proof {
                    lemma_digits_end_is(s@, from as int, i as int);
                }
                break;
            },
        }
    }
    (i, acc)
}

/// Reads a length in whole pixels.
pub fn parse_length(s: &str) -> (r: Option<i32>)
    ensures
        r == length_of(s@),
{
    let v = chars_of(s);
    let start: usize = if v.len() > 0 && v[0] == '-' { 1 } else { 0 };
    let (end, magnitude) = scan_digits(&v, start);
    if end == start {
        return None;
    }
    let mut after: usize = end;
    if end < v.len() && v[end] == '.' {
        let (e, _) = scan_digits(&v, end + 1);
        if e == end + 1 {
            return None;
        }
        after = e;
    }
    if after != v.len() {
        let unit_ok = v.len() - after == 2 && v[after] == 'p' && v[after + 1] == 'x';
        assert(unit_ok == (v@.subrange(after as int, v.len() as int) == seq!['p', 'x'])) by {
            let rest = v@.subrange(after as int, v.len() as int);
            if unit_ok {
                assert(rest =~= seq!['p', 'x']);
            } else if rest == seq!['p', 'x'] {
                assert(rest.len() == 2);
                assert(rest[0] == 'p');
                assert(rest[1] == 'x');
            }
        }
        if !unit_ok {
            return None;
        }
    }
    if start == 1 {
        Some((-magnitude) as i32)
    } else if magnitude > i32::MAX as i64 {
        Some(i32::MAX)
    } else {
        Some(magnitude as i32)
    }
}

/// Reads a colour.
pub fn parse_color(s: &str) -> (r: Option<Color>)
    ensures
        r == color_of(s@),
{
    let v = chars_of(s);
    if v.len() != 7 || v[0] != '#' {
        return None;
    }
    let mut digits: Vec<u8> = Vec::new();
    let mut i: usize = 1;
    while i < 7
        invariant
            1 <= i <= 7,
            v.len() == 7,
            v@ == s@,
            digits.len() == i - 1,
            forall|k: int| 1 <= k < i ==> hex_value(#[trigger] v@[k]) == Some(digits@[k - 1] as int),
            forall|k: int| 0 <= k < digits.len() ==> digits@[k] <= 15,
        decreases 7 - i,
    {
        match hex_digit_of(v[i]) {
            Some(d) => {
                digits.push(d);
            },
            None => {
                assert(hex_value(v@[i as int]) is None);
                return None;
            },
        }
        i = i + 1;
    }
    let r = digits[0] * 16 + digits[1];
    let g = digits[2] * 16 + digits[3];
    let b = digits[4] * 16 + digits[5];
    assert(hex_value(v@[1]) == Some(digits@[0] as int));
    assert(hex_value(v@[2]) == Some(digits@[1] as int));
    assert(hex_value(v@[3]) == Some(digits@[2] as int));
    assert(hex_value(v@[4]) == Some(digits@[3] as int));
    assert(hex_value(v@[5]) == Some(digits@[4] as int));
    assert(hex_value(v@[6]) == Some(digits@[5] as int));
    Some(Color { r, g, b, a: 255 })
}

} // verus!
