//! The color syntax of the command-line arguments: `#RRGGBB`, `#RGB`,
//! `rgb(R, G, B)`, `R,G,B`, `hsl(H, S%, L%)`, `gray(L)`, or a color name.
use vstd::prelude::*;

use crate::text::{
    char_is_white_space, chars_of, dec_value, hex_value, is_dec_digit, is_hex_digit, is_white_space,
    slice_chars, string_of, trim, trim_chars,
};
use crate::named::{lookup_exact, named_color_exact, named_color_list};
use crate::text::{lowercase, to_lowercase};
use crate::Rgb;

verus! {

/// The value of a digit in the given radix (10 or 16), if it is one.
pub open spec fn digit_value(c: char, radix: int) -> Option<int> {
    if radix == 16 {
        hex_value(c)
    } else {
        dec_value(c)
    }
}

/// The value of a string of digits (no sign); nothing if a character is not
/// a digit. The empty string has value 0.
pub open spec fn digits_value(s: Seq<char>, radix: int) -> Option<int>
    decreases s.len(),
{
    if s.len() == 0 {
        Some(0)
    } else {
        match (digits_value(s.drop_last(), radix), digit_value(s.last(), radix)) {
            (Some(v), Some(d)) => Some(v * radix + d),
            _ => None,
        }
    }
}

/// `from_str_radix` of an unsigned integer type whose largest value is
/// `max`: an optional `+`, then at least one digit, and no overflow.
pub open spec fn parse_unsigned(s: Seq<char>, radix: int, max: int) -> Option<int> {
    let digits = if s.len() > 0 && s[0] == '+' { s.drop_first() } else { s };
    if digits.len() == 0 {
        None
    } else {
        match digits_value(digits, radix) {
            Some(v) => if v <= max { Some(v) } else { None },
            None => None,
        }
    }
}

/// `from_str_radix` of a signed integer type with range `[min, max]`: an
/// optional `+` or `-`, then at least one digit, and no overflow.
pub open spec fn parse_signed(s: Seq<char>, radix: int, min: int, max: int) -> Option<int> {
    let negative = s.len() > 0 && s[0] == '-';
    let digits = if s.len() > 0 && (s[0] == '+' || s[0] == '-') { s.drop_first() } else { s };
    if digits.len() == 0 {
        None
    } else {
        match digits_value(digits, radix) {
            Some(v) => if negative {
                if -v >= min { Some(-v) } else { None }
            } else {
                if v <= max { Some(v) } else { None }
            },
            None => None,
        }
    }
}

proof fn lemma_digits_value_step(s: Seq<char>, i: int, radix: int)
    requires
        0 <= i < s.len(),
    ensures
        s.subrange(0, i + 1).drop_last() == s.subrange(0, i),
        s.subrange(0, i + 1).last() == s[i],
{
    assert(s.subrange(0, i + 1).drop_last() =~= s.subrange(0, i));
}

proof fn lemma_clamp_step(v: int, d: int, radix: int, cap: int)
    requires
        v >= 0,
        0 <= d < radix,
        radix >= 1,
        cap >= 0,
    ensures
        (if v < cap { v } else { cap }) * radix + d >= cap ==> v * radix + d >= cap,
        v < cap ==> (if v < cap { v } else { cap }) * radix + d == v * radix + d,
        v >= cap ==> v * radix + d >= cap,
{
    assert(v >= cap ==> v * radix + d >= cap) by (nonlinear_arith)
        requires
            v >= 0,
            d >= 0,
            radix >= 1,
    ;
    assert(cap * radix + d >= cap) by (nonlinear_arith)
        requires
            cap >= 0,
            d >= 0,
            radix >= 1,
    ;
}

proof fn lemma_digits_nonnegative(s: Seq<char>, radix: int)
    requires
        radix == 10 || radix == 16,
    ensures
        digits_value(s, radix) matches Some(v) ==> v >= 0,
    decreases s.len(),
{
    if s.len() > 0 {
        lemma_digits_nonnegative(s.drop_last(), radix);
        if let Some(v) = digits_value(s.drop_last(), radix) {
            assert(v * radix >= 0) by (nonlinear_arith)
                requires
                    v >= 0,
                    radix >= 0,
            ;
        }
    }
}

fn digit_of(c: char, radix: u32) -> (d: Option<u32>)
    requires
        radix == 10 || radix == 16,
    ensures
        match d {
            Some(v) => digit_value(c, radix as int) == Some(v as int) && v < radix,
            None => digit_value(c, radix as int) is None,
        },
{
    if '0' <= c && c <= '9' {
        Some(c as u32 - '0' as u32)
    } else if radix == 16 && 'a' <= c && c <= 'f' {
        Some(c as u32 - 'a' as u32 + 10)
    } else if radix == 16 && 'A' <= c && c <= 'F' {
        Some(c as u32 - 'A' as u32 + 10)
    } else {
        None
    }
}

/// The value of `s[from..]` read as digits, capped at `cap`; nothing if a
/// character is not a digit.
fn capped_digits_value(s: &Vec<char>, from: usize, radix: u32, cap: u64) -> (r: Option<u64>)
    requires
        radix == 10 || radix == 16,
        from <= s.len(),
        cap <= 0x1_0000_0000,
    ensures
        match r {
            Some(v) => digits_value(s@.subrange(from as int, s@.len() as int), radix as int) matches Some(
                w,
            ) && v == (if w < cap { w } else { cap as int }),
            None => digits_value(s@.subrange(from as int, s@.len() as int), radix as int) is None,
        },
{
    let ghost t = s@.subrange(from as int, s@.len() as int);
    let mut acc: u64 = 0;
    let mut i: usize = from;
    assert(t.subrange(0, 0) =~= Seq::<char>::empty());
    while i < s.len()
        invariant
            radix == 10 || radix == 16,
            from <= i <= s.len(),
            cap <= 0x1_0000_0000,
            t == s@.subrange(from as int, s@.len() as int),
            digits_value(t.subrange(0, i - from), radix as int) matches Some(w) && w >= 0 && acc
                == (if w < cap { w } else { cap as int }),
        decreases s.len() - i,
    {
        let ghost w = digits_value(t.subrange(0, i - from), radix as int)->0;
        proof {
            lemma_digits_value_step(t, i - from, radix as int);
            assert(t[i - from] == s@[i as int]);
        }
        match digit_of(s[i], radix) {
            Some(d) => {
                proof {
                    lemma_clamp_step(w, d as int, radix as int, cap as int);
                }
                let next = acc * (radix as u64) + d as u64;
                acc = if next < cap {
                    next
                } else {
                    cap
                };
            },
            None => {
                proof {
                    assert forall|k: int| i - from < k <= t.len() implies #[trigger] digits_value(
                        t.subrange(0, k),
                        radix as int,
                    ) is None by {
                        lemma_invalid_prefix(t, i - from, k, radix as int);
                    }
                    assert(t.subrange(0, t.len() as int) =~= t);
                }
                return None;
            },
        }
        i = i + 1;
    }
    assert(t.subrange(0, s.len() - from) =~= t);
    Some(acc)
}

proof fn lemma_invalid_prefix(t: Seq<char>, j: int, k: int, radix: int)
    requires
        0 <= j < k <= t.len(),
        digit_value(t[j], radix) is None,
    ensures
        digits_value(t.subrange(0, k), radix) is None,
    decreases k - j,
{
    assert(t.subrange(0, k).drop_last() =~= t.subrange(0, k - 1));
    if k - 1 > j {
        lemma_invalid_prefix(t, j, k - 1, radix);
    }
}

/// `u8::from_str_radix(num, 16).unwrap()`; the caller guarantees valid input.
pub fn hex_to_u8_unsafe(num: &str) -> (v: u8)
    requires
        parse_unsigned(num@, 16, 255) is Some,
    ensures
        v as int == parse_unsigned(num@, 16, 255)->0,
{
    let s = chars_of(num);
    let from: usize = if s.len() > 0 && s[0] == '+' {
        1
    } else {
        0
    };
    proof {
        assert(s@.subrange(from as int, s@.len() as int) =~= if s@.len() > 0 && s@[0] == '+' {
            num@.drop_first()
        } else {
            num@
        });
    }
    match capped_digits_value(&s, from, 16, 256) {
        Some(v) => v as u8,
        None => 0,
    }
}

/// `u8::from_str_radix(num, 10).ok()`.
pub fn dec_to_u8(num: &str) -> (v: Option<u8>)
    ensures
        match v {
            Some(x) => parse_unsigned(num@, 10, 255) == Some(x as int),
            None => parse_unsigned(num@, 10, 255) is None,
        },
{
    let s = chars_of(num);
    let from: usize = if s.len() > 0 && s[0] == '+' {
        1
    } else {
        0
    };
    proof {
        assert(s@.subrange(from as int, s@.len() as int) =~= if s@.len() > 0 && s@[0] == '+' {
            num@.drop_first()
        } else {
            num@
        });
    }
    if from >= s.len() {
        return None;
    }
    match capped_digits_value(&s, from, 10, 256) {
        Some(v) => if v <= 255 {
            Some(v as u8)
        } else {
            None
        },
        None => None,
    }
}

/// `i32::from_str_radix(num, 10).ok()`.
pub fn dec_to_i32(num: &str) -> (v: Option<i32>)
    ensures
        match v {
            Some(x) => parse_signed(num@, 10, i32::MIN as int, i32::MAX as int) == Some(x as int),
            None => parse_signed(num@, 10, i32::MIN as int, i32::MAX as int) is None,
        },
{
    let s = chars_of(num);
    let negative = s.len() > 0 && s[0] == '-';
    let from: usize = if s.len() > 0 && (s[0] == '+' || s[0] == '-') {
        1
    } else {
        0
    };
    proof {
        assert(s@.subrange(from as int, s@.len() as int) =~= if s@.len() > 0 && (s@[0] == '+'
            || s@[0] == '-') {
            num@.drop_first()
        } else {
            num@
        });
    }
    if from >= s.len() {
        return None;
    }
    match capped_digits_value(&s, from, 10, 0x8000_0001) {
        Some(v) => if negative {
            if v <= 0x8000_0000 {
                Some((0 - v as i64) as i32)
            } else {
                None
            }
        } else if v <= 0x7fff_ffff {
            Some(v as i32)
        } else {
            None
        },
        None => None,
    }
}


/// The end of the run of white space that starts at `i`.
pub open spec fn ws_end(s: Seq<char>, i: int) -> int
    decreases s.len() - i,
{
    if 0 <= i < s.len() && is_white_space(s[i]) {
        ws_end(s, i + 1)
    } else {
        i
    }
}

/// The end of the run of ASCII digits that starts at `i`.
pub open spec fn digits_end(s: Seq<char>, i: int) -> int
    decreases s.len() - i,
{
    if 0 <= i < s.len() && is_dec_digit(s[i]) {
        digits_end(s, i + 1)
    } else {
        i
    }
}

/// `\s*(\d{1,3})` (with `%` after the digits if `percent`), then `\s*` and
/// the character `term`, from position `i`: the bounds of the digits and the
/// position after `term`.
pub open spec fn number_field(s: Seq<char>, i: int, percent: bool, term: char) -> Option<
    (int, int, int),
> {
    let a = ws_end(s, i);
    let b = digits_end(s, a);
    if !(1 <= b - a <= 3) {
        None
    } else if percent && !(b < s.len() && s[b] == '%') {
        None
    } else {
        let c = ws_end(s, if percent { b + 1 } else { b });
        if c < s.len() && s[c] == term {
            Some((a, b, c + 1))
        } else {
            None
        }
    }
}

/// The digit value of a hexadecimal digit character.
pub open spec fn hexv(c: char) -> int {
    hex_value(c)->0
}

/// The text after an optional leading `#`.
pub open spec fn without_hash(s: Seq<char>) -> Seq<char> {
    if s.len() > 0 && s[0] == '#' {
        s.drop_first()
    } else {
        s
    }
}

/// `^#?([[:xdigit:]]{2})([[:xdigit:]]{2})([[:xdigit:]]{2})$`
pub open spec fn hex6(s: Seq<char>) -> Option<Rgb> {
    let d = without_hash(s);
    if d.len() == 6 && forall|k: int| 0 <= k < 6 ==> #[trigger] is_hex_digit(d[k]) {
        Some(
            Rgb {
                r: (hexv(d[0]) * 16 + hexv(d[1])) as u8,
                g: (hexv(d[2]) * 16 + hexv(d[3])) as u8,
                b: (hexv(d[4]) * 16 + hexv(d[5])) as u8,
            },
        )
    } else {
        None
    }
}

/// `^#?([[:xdigit:]])([[:xdigit:]])([[:xdigit:]])$`, each digit doubled.
pub open spec fn hex3(s: Seq<char>) -> Option<Rgb> {
    let d = without_hash(s);
    if d.len() == 3 && forall|k: int| 0 <= k < 3 ==> #[trigger] is_hex_digit(d[k]) {
        Some(
            Rgb {
                r: (hexv(d[0]) * 17) as u8,
                g: (hexv(d[1]) * 17) as u8,
                b: (hexv(d[2]) * 17) as u8,
            },
        )
    } else {
        None
    }
}

/// Whether `s` starts with the characters of `p`.
pub open spec fn has_prefix(s: Seq<char>, p: Seq<char>) -> bool {
    p.len() <= s.len() && s.subrange(0, p.len() as int) == p
}

/// The three numbers of `^rgb\(\s*(\d{1,3})\s*,\s*(\d{1,3})\s*,\s*(\d{1,3})\s*\)$`.
pub open spec fn rgb_function(s: Seq<char>) -> Option<(Seq<char>, Seq<char>, Seq<char>)> {
    if !has_prefix(s, seq!['r', 'g', 'b', '(']) {
        None
    } else {
        match number_field(s, 4, false, ',') {
            Some((a1, b1, n1)) => match number_field(s, n1, false, ',') {
                Some((a2, b2, n2)) => match number_field(s, n2, false, ')') {
                    Some((a3, b3, n3)) => if n3 == s.len() {
                        Some((s.subrange(a1, b1), s.subrange(a2, b2), s.subrange(a3, b3)))
                    } else {
                        None
                    },
                    None => None,
                },
                None => None,
            },
            None => None,
        }
    }
}

/// The three numbers of `^(\d{1,3})\s*,\s*(\d{1,3})\s*,\s*(\d{1,3})$`.
pub open spec fn rgb_plain(s: Seq<char>) -> Option<(Seq<char>, Seq<char>, Seq<char>)> {
    if s.len() > 0 && is_white_space(s[0]) {
        None
    } else {
        match number_field(s, 0, false, ',') {
            Some((a1, b1, n1)) => match number_field(s, n1, false, ',') {
                Some((a2, b2, n2)) => {
                    let a3 = ws_end(s, n2);
                    let b3 = digits_end(s, a3);
                    if 1 <= b3 - a3 <= 3 && b3 == s.len() {
                        Some((s.subrange(a1, b1), s.subrange(a2, b2), s.subrange(a3, b3)))
                    } else {
                        None
                    }
                },
                None => None,
            },
            None => None,
        }
    }
}

/// The three numbers of
/// `^hsl\(\s*(\d{1,3})\s*,\s*(\d{1,3})%\s*,\s*(\d{1,3})%\s*\)$`.
pub open spec fn hsl_function(s: Seq<char>) -> Option<(Seq<char>, Seq<char>, Seq<char>)> {
    if !has_prefix(s, seq!['h', 's', 'l', '(']) {
        None
    } else {
        match number_field(s, 4, false, ',') {
            Some((a1, b1, n1)) => match number_field(s, n1, true, ',') {
                Some((a2, b2, n2)) => match number_field(s, n2, true, ')') {
                    Some((a3, b3, n3)) => if n3 == s.len() {
                        Some((s.subrange(a1, b1), s.subrange(a2, b2), s.subrange(a3, b3)))
                    } else {
                        None
                    },
                    None => None,
                },
                None => None,
            },
            None => None,
        }
    }
}

/// The end of the number `\d+(\.\d+)?|\.\d+` that starts at `a`.
pub open spec fn decimal_number_end(s: Seq<char>, a: int) -> Option<int> {
    if 0 <= a < s.len() && is_dec_digit(s[a]) {
        let b = digits_end(s, a);
        if b + 1 < s.len() && s[b] == '.' && is_dec_digit(s[b + 1]) {
            Some(digits_end(s, b + 1))
        } else {
            Some(b)
        }
    } else if 0 <= a && a + 1 < s.len() && s[a] == '.' && is_dec_digit(s[a + 1]) {
        Some(digits_end(s, a + 1))
    } else {
        None
    }
}

/// The number of `^gray\(\s*(\d+(\.\d+)?|\.\d+)\s*\)` (anything may follow).
pub open spec fn gray_function(s: Seq<char>) -> Option<Seq<char>> {
    if !has_prefix(s, seq!['g', 'r', 'a', 'y', '(']) {
        None
    } else {
        let a = ws_end(s, 5);
        match decimal_number_end(s, a) {
            Some(e) => {
                let c = ws_end(s, e);
                if c < s.len() && s[c] == ')' {
                    Some(s.subrange(a, e))
                } else {
                    None
                }
            },
            None => None,
        }
    }
}

/// The channels of three numbers read as bytes, if all fit.
pub open spec fn rgb_values(n: (Seq<char>, Seq<char>, Seq<char>)) -> Option<Rgb> {
    match (parse_unsigned(n.0, 10, 255), parse_unsigned(n.1, 10, 255), parse_unsigned(n.2, 10, 255)) {
        (Some(r), Some(g), Some(b)) => Some(Rgb { r: r as u8, g: g as u8, b: b as u8 }),
        _ => None,
    }
}

/// The color that an RGB syntax gives, trying `#RRGGBB`, `#RGB`,
/// `rgb(R, G, B)` and `R, G, B` in this order.
pub open spec fn rgb_syntax(s: Seq<char>) -> Option<Rgb> {
    if hex6(s) is Some {
        hex6(s)
    } else if hex3(s) is Some {
        hex3(s)
    } else if rgb_function(s) matches Some(n) && rgb_values(n) is Some {
        rgb_values(rgb_function(s)->0)
    } else if rgb_plain(s) matches Some(n) && rgb_values(n) is Some {
        rgb_values(rgb_plain(s)->0)
    } else {
        None
    }
}

/// The hue, saturation and lightness numbers of the HSL syntax.
pub open spec fn hsl_syntax(s: Seq<char>) -> Option<(int, int, int)> {
    match hsl_function(s) {
        Some(n) => match (
            parse_signed(n.0, 10, i32::MIN as int, i32::MAX as int),
            parse_signed(n.1, 10, i32::MIN as int, i32::MAX as int),
            parse_signed(n.2, 10, i32::MIN as int, i32::MAX as int),
        ) {
            (Some(h), Some(sat), Some(l)) => Some((h, sat, l)),
            _ => None,
        },
        None => None,
    }
}

/// A color argument, read syntactically.
#[derive(Debug)]
pub enum ColorSyntax {
    /// A color given by its channels.
    Rgb(Rgb),
    /// `hsl(H, S%, L%)` with integer hue in degrees and percentages.
    Hsl(i32, i32, i32),
    /// `gray(L)` with the decimal number `L` as written (0 is black, 1 white).
    Gray(String),
    /// Anything else, where it is the name of a color once in lower case.
    Named(Rgb),
}

/// The color that a text names: the entry of the named colors whose name is
/// the text in lower case.
pub open spec fn color_named(t: Seq<char>) -> Option<Rgb> {
    lookup_exact(named_color_list(), lowercase(t))
}

/// The color that a text names, once the text is in lower case.
pub fn color_by_name(name: &str) -> (r: Option<Rgb>)
    ensures
        r == color_named(name@),
{
    let lower = to_lowercase(name);
    named_color_exact(lower.as_str())
}

fn skip_ws(s: &Vec<char>, i: usize) -> (j: usize)
    requires
        i <= s.len(),
    ensures
        j == ws_end(s@, i as int),
        i <= j <= s.len(),
{
    let mut j = i;
    while j < s.len() && char_is_white_space(s[j])
        invariant
            i <= j <= s.len(),
            ws_end(s@, i as int) == ws_end(s@, j as int),
        decreases s.len() - j,
    {
        j = j + 1;
    }
    j
}

fn char_is_dec_digit(c: char) -> (b: bool)
    ensures
        b == is_dec_digit(c),
{
    '0' <= c && c <= '9'
}

fn char_is_hex_digit(c: char) -> (b: bool)
    ensures
        b == is_hex_digit(c),
{
    ('0' <= c && c <= '9') || ('a' <= c && c <= 'f') || ('A' <= c && c <= 'F')
}

fn skip_digits(s: &Vec<char>, i: usize) -> (j: usize)
    requires
        i <= s.len(),
    ensures
        j == digits_end(s@, i as int),
        i <= j <= s.len(),
{
    let mut j = i;
    while j < s.len() && char_is_dec_digit(s[j])
        invariant
            i <= j <= s.len(),
            digits_end(s@, i as int) == digits_end(s@, j as int),
        decreases s.len() - j,
    {
        j = j + 1;
    }
    j
}

fn scan_number_field(s: &Vec<char>, i: usize, percent: bool, term: char) -> (r: Option<
    (usize, usize, usize),
>)
    requires
        i <= s.len(),
    ensures
        match r {
            Some(t) => number_field(s@, i as int, percent, term) == Some(
                (t.0 as int, t.1 as int, t.2 as int),
            ) && t.0 <= t.1 <= t.2 <= s.len(),
            None => number_field(s@, i as int, percent, term) is None,
        },
{
    let a = skip_ws(s, i);
    let b = skip_digits(s, a);
    if b - a < 1 || b - a > 3 {
        return None;
    }
    if percent && !(b < s.len() && s[b] == '%') {
        return None;
    }
    let c = skip_ws(s, if percent { b + 1 } else { b });
    if c < s.len() && s[c] == term {
        Some((a, b, c + 1))
    } else {
        None
    }
}

/// A string of the characters `s[from..to]`.
fn piece(s: &Vec<char>, from: usize, to: usize) -> (r: String)
    requires
        from <= to <= s.len(),
    ensures
        r@ == s@.subrange(from as int, to as int),
{
    let v = slice_chars(s, from, to);
    string_of(&v)
}

proof fn lemma_hex_pair(p: Seq<char>)
    requires
        p.len() == 2,
        is_hex_digit(p[0]),
        is_hex_digit(p[1]),
    ensures
        parse_unsigned(p, 16, 255) == Some(hexv(p[0]) * 16 + hexv(p[1])),
{
    reveal_with_fuel(digits_value, 3);
    assert(p.drop_last() =~= seq![p[0]]);
    assert(seq![p[0]].drop_last() =~= Seq::<char>::empty());
    assert(digits_value(seq![p[0]], 16) == Some(hexv(p[0])));
    assert(digits_value(p, 16) == Some(hexv(p[0]) * 16 + hexv(p[1])));
}

proof fn lemma_hex_single(p: Seq<char>)
    requires
        p.len() == 1,
        is_hex_digit(p[0]),
    ensures
        parse_unsigned(p, 16, 255) == Some(hexv(p[0])),
{
    reveal_with_fuel(digits_value, 2);
    assert(p.drop_last() =~= Seq::<char>::empty());
}

/// Whether `t[from..from + n]` are all hexadecimal digits.
fn all_hex(t: &Vec<char>, from: usize, n: usize) -> (b: bool)
    requires
        from + n <= t.len(),
    ensures
        b == forall|k: int| 0 <= k < n ==> #[trigger] is_hex_digit(t@[from + k]),
{
    let mut k: usize = 0;
    while k < n
        invariant
            from + n <= t.len(),
            k <= n,
            forall|m: int| 0 <= m < k ==> #[trigger] is_hex_digit(t@[from + m]),
        decreases n - k,
    {
        if !char_is_hex_digit(t[from + k]) {
            return false;
        }
        k = k + 1;
    }
    true
}

fn scan_hex(t: &Vec<char>) -> (r: Option<Rgb>)
    ensures
        r == (if hex6(t@) is Some { hex6(t@) } else { hex3(t@) }),
{
    let off: usize = if t.len() > 0 && t[0] == '#' {
        1
    } else {
        0
    };
    let ghost d = without_hash(t@);
    assert(d =~= t@.subrange(off as int, t@.len() as int));
    let n = t.len() - off;
    if n == 6 && all_hex(t, off, 6) {
        assert(forall|k: int| 0 <= k < 6 ==> #[trigger] is_hex_digit(d[k]) == is_hex_digit(
            t@[off + k],
        ));
        let pr = piece(t, off, off + 2);
        let pg = piece(t, off + 2, off + 4);
        let pb = piece(t, off + 4, off + 6);
        proof {
            assert(is_hex_digit(t@[off + 0]) && is_hex_digit(t@[off + 1]));
            assert(is_hex_digit(t@[off + 2]) && is_hex_digit(t@[off + 3]));
            assert(is_hex_digit(t@[off + 4]) && is_hex_digit(t@[off + 5]));
            lemma_hex_pair(pr@);
            lemma_hex_pair(pg@);
            lemma_hex_pair(pb@);
        }
        let r = hex_to_u8_unsafe(pr.as_str());
        let g = hex_to_u8_unsafe(pg.as_str());
        let b = hex_to_u8_unsafe(pb.as_str());
        return Some(Rgb { r, g, b });
    }
    assert(hex6(t@) is None) by {
        if n == 6 {
            assert(forall|k: int| 0 <= k < 6 ==> #[trigger] is_hex_digit(d[k]) == is_hex_digit(
                t@[off + k],
            ));
        }
    }
    if n == 3 && all_hex(t, off, 3) {
        assert(forall|k: int| 0 <= k < 3 ==> #[trigger] is_hex_digit(d[k]) == is_hex_digit(
            t@[off + k],
        ));
        let pr = piece(t, off, off + 1);
        let pg = piece(t, off + 1, off + 2);
        let pb = piece(t, off + 2, off + 3);
        proof {
            assert(is_hex_digit(t@[off + 0]) && is_hex_digit(t@[off + 1]) && is_hex_digit(
                t@[off + 2],
            ));
            lemma_hex_single(pr@);
            lemma_hex_single(pg@);
            lemma_hex_single(pb@);
        }
        let r = hex_to_u8_unsafe(pr.as_str());
        let g = hex_to_u8_unsafe(pg.as_str());
        let b = hex_to_u8_unsafe(pb.as_str());
        let r = r * 16 + r;
        let g = g * 16 + g;
        let b = b * 16 + b;
        return Some(Rgb { r, g, b });
    }
    assert(hex3(t@) is None) by {
        if n == 3 {
            assert(forall|k: int| 0 <= k < 3 ==> #[trigger] is_hex_digit(d[k]) == is_hex_digit(
                t@[off + k],
            ));
        }
    }
    None
}

/// Whether `t` starts with the characters of `p`.
fn starts_with_chars(t: &Vec<char>, p: &Vec<char>) -> (b: bool)
    ensures
        b == has_prefix(t@, p@),
{
    if p.len() > t.len() {
        return false;
    }
    let mut k: usize = 0;
    while k < p.len()
        invariant
            p.len() <= t.len(),
            k <= p.len(),
            forall|m: int| 0 <= m < k ==> t@[m] == p@[m],
        decreases p.len() - k,
    {
        if t[k] != p[k] {
            assert(t@.subrange(0, p@.len() as int)[k as int] != p@[k as int]);
            return false;
        }
        k = k + 1;
    }
    assert(t@.subrange(0, p@.len() as int) =~= p@);
    true
}

fn function_name(name: &str) -> (p: Vec<char>)
    ensures
        p@ == name@,
{
    chars_of(name)
}

/// The three numbers of an `rgb(...)`, `R, G, B` or `hsl(...)` syntax, as
/// strings.
fn scan_three(t: &Vec<char>, kind: u8) -> (r: Option<(String, String, String)>)
    requires
        kind < 3,
    ensures
        match r {
            Some(n) => (if kind == 0 {
                rgb_function(t@)
            } else if kind == 1 {
                rgb_plain(t@)
            } else {
                hsl_function(t@)
            }) == Some((n.0@, n.1@, n.2@)),
            None => (if kind == 0 {
                rgb_function(t@)
            } else if kind == 1 {
                rgb_plain(t@)
            } else {
                hsl_function(t@)
            }) is None,
        },
{
    proof {
        reveal_strlit("rgb(");
        reveal_strlit("hsl(");
        assert("rgb("@ =~= seq!['r', 'g', 'b', '(']);
        assert("hsl("@ =~= seq!['h', 's', 'l', '(']);
    }
    let start: usize;
    if kind == 1 {
        if t.len() > 0 && char_is_white_space(t[0]) {
            return None;
        }
        start = 0;
    } else {
        let name = if kind == 0 {
            function_name("rgb(")
        } else {
            function_name("hsl(")
        };
        if !starts_with_chars(t, &name) {
            return None;
        }
        start = 4;
    }
    let f1 = match scan_number_field(t, start, false, ',') {
        Some(f) => f,
        None => return None,
    };
    let f2 = match scan_number_field(t, f1.2, kind == 2, ',') {
        Some(f) => f,
        None => return None,
    };
    if kind == 1 {
        let a3 = skip_ws(t, f2.2);
        let b3 = skip_digits(t, a3);
        if b3 - a3 >= 1 && b3 - a3 <= 3 && b3 == t.len() {
            return Some((piece(t, f1.0, f1.1), piece(t, f2.0, f2.1), piece(t, a3, b3)));
        } else {
            return None;
        }
    }
    let f3 = match scan_number_field(t, f2.2, kind == 2, ')') {
        Some(f) => f,
        None => return None,
    };
    if f3.2 == t.len() {
        Some((piece(t, f1.0, f1.1), piece(t, f2.0, f2.1), piece(t, f3.0, f3.1)))
    } else {
        None
    }
}

fn scan_gray(t: &Vec<char>) -> (r: Option<String>)
    ensures
        match r {
            Some(n) => gray_function(t@) == Some(n@),
            None => gray_function(t@) is None,
        },
{
    proof {
        reveal_strlit("gray(");
        assert("gray("@ =~= seq!['g', 'r', 'a', 'y', '(']);
    }
    let name = function_name("gray(");
    if !starts_with_chars(t, &name) {
        return None;
    }
    let a = skip_ws(t, 5);
    let e: usize;
    if a < t.len() && char_is_dec_digit(t[a]) {
        let b = skip_digits(t, a);
        if b < t.len() && b + 1 < t.len() && t[b] == '.' && char_is_dec_digit(t[b + 1]) {
            e = skip_digits(t, b + 1);
        } else {
            e = b;
        }
    } else if a < t.len() && a + 1 < t.len() && t[a] == '.' && char_is_dec_digit(t[a + 1]) {
        e = skip_digits(t, a + 1);
    } else {
        return None;
    }
    let c = skip_ws(t, e);
    if c < t.len() && t[c] == ')' {
        Some(piece(t, a, e))
    } else {
        None
    }
}

fn three_bytes(n: &(String, String, String)) -> (r: Option<Rgb>)
    ensures
        r == rgb_values((n.0@, n.1@, n.2@)),
{
    let mr = dec_to_u8(n.0.as_str());
    let mg = dec_to_u8(n.1.as_str());
    let mb = dec_to_u8(n.2.as_str());
    match (mr, mg, mb) {
        (Some(r), Some(g), Some(b)) => Some(Rgb { r, g, b }),
        _ => None,
    }
}

/// Read a color argument: `#RRGGBB` or `RRGGBB`, `#RGB` or `RGB`,
/// `rgb(R, G, B)` or `R, G, B` with channels from 0 to 255,
/// `hsl(H, S%, L%)`, `gray(L)`; anything else is taken as a color name in
/// any case, and is refused where it names no color. Surrounding white space
/// is ignored.
pub fn parse_color(color: &str) -> (c: Option<ColorSyntax>)
    ensures
        ({
            let t = trim(color@);
            match c {
                Some(ColorSyntax::Rgb(rgb)) => rgb_syntax(t) == Some(rgb),
                Some(ColorSyntax::Hsl(h, s, l)) => rgb_syntax(t) is None && hsl_syntax(t) == Some(
                    (h as int, s as int, l as int),
                ),
                Some(ColorSyntax::Gray(g)) => rgb_syntax(t) is None && hsl_syntax(t) is None
                    && gray_function(t) == Some(g@),
                Some(ColorSyntax::Named(rgb)) => rgb_syntax(t) is None && hsl_syntax(t) is None
                    && gray_function(t) is None && color_named(t) == Some(rgb),
                None => rgb_syntax(t) is None && hsl_syntax(t) is None && gray_function(t) is None
                    && color_named(t) is None,
            }
        }),
{
    let t = trim_chars(&chars_of(color));

    if let Some(rgb) = scan_hex(&t) {
        return Some(ColorSyntax::Rgb(rgb));
    }
    if let Some(n) = scan_three(&t, 0) {
        if let Some(rgb) = three_bytes(&n) {
            return Some(ColorSyntax::Rgb(rgb));
        }
    }
    if let Some(n) = scan_three(&t, 1) {
        if let Some(rgb) = three_bytes(&n) {
            return Some(ColorSyntax::Rgb(rgb));
        }
    }
    if let Some(n) = scan_three(&t, 2) {
        let mh = dec_to_i32(n.0.as_str());
        let ms = dec_to_i32(n.1.as_str());
        let ml = dec_to_i32(n.2.as_str());
        match (mh, ms, ml) {
            (Some(h), Some(s), Some(l)) => {
                return Some(ColorSyntax::Hsl(h, s, l));
            },
            _ => {},
        }
    }
    if let Some(g) = scan_gray(&t) {
        return Some(ColorSyntax::Gray(g));
    }
    let name = string_of(&t);
    match color_by_name(name.as_str()) {
        Some(rgb) => Some(ColorSyntax::Named(rgb)),
        None => None,
    }
}

} // verus!

verus! {

pub(crate) proof fn lemma_hex_digit_char(d: int)
    requires
        0 <= d < 16,
    ensures
        hex_value(crate::text::digit_char(d)) == Some(d),
        is_hex_digit(crate::text::digit_char(d)),
        !is_white_space(crate::text::digit_char(d)),
        crate::text::digit_char(d) != '#',
{
}

/// Formatting a color as hexadecimal text, with or without the `#`, and
/// reading that text back as a color argument gives the color again.
pub proof fn law_hex_string_parses_back(c: Rgb, leading_hash: bool)
    ensures
        rgb_syntax(trim(crate::rgb_hex_string(c, leading_hash))) == Some(c),
{
    let t = crate::rgb_hex_string(c, leading_hash);
    let body = crate::text::hex2(c.r) + crate::text::hex2(c.g) + crate::text::hex2(c.b);
    lemma_hex_digit_char(c.r as int / 16);
    lemma_hex_digit_char(c.r as int % 16);
    lemma_hex_digit_char(c.g as int / 16);
    lemma_hex_digit_char(c.g as int % 16);
    lemma_hex_digit_char(c.b as int / 16);
    lemma_hex_digit_char(c.b as int % 16);
    assert(body.len() == 6);
    assert(t =~= (if leading_hash { seq!['#'] } else { Seq::empty() }) + body);
    assert(!is_white_space(t[0]));
    assert(!is_white_space(t.last()));
    assert(crate::text::trim_start(t) == t);
    assert(crate::text::trim_end(t) == t);
    assert(without_hash(t) =~= body);
    assert forall|k: int| 0 <= k < 6 implies #[trigger] is_hex_digit(body[k]) by {}
    assert(hex6(t) == Some(c));
}

} // verus!

verus! {

pub(crate) proof fn lemma_decimal_byte(n: int)
    requires
        0 <= n <= 255,
    ensures
        1 <= crate::text::decimal(n as nat).len() <= 3,
        forall|k: int|
            0 <= k < crate::text::decimal(n as nat).len() ==> #[trigger] is_dec_digit(
                crate::text::decimal(n as nat)[k],
            ),
        digits_value(crate::text::decimal(n as nat), 10) == Some(n),
        parse_unsigned(crate::text::decimal(n as nat), 10, 255) == Some(n),
{
    reveal_with_fuel(crate::text::decimal, 3);
    reveal_with_fuel(digits_value, 4);
    let d = crate::text::decimal(n as nat);
    if n < 10 {
        assert(d =~= seq![crate::text::digit_char(n)]);
        assert(d.drop_last() =~= Seq::<char>::empty());
    } else if n < 100 {
        assert(d =~= seq![crate::text::digit_char(n / 10), crate::text::digit_char(n % 10)]);
        assert(d.drop_last() =~= seq![crate::text::digit_char(n / 10)]);
        assert(d.drop_last().drop_last() =~= Seq::<char>::empty());
    } else {
        assert(crate::text::decimal((n / 10) as nat) =~= seq![
            crate::text::digit_char(n / 100),
            crate::text::digit_char((n / 10) % 10),
        ]);
        assert(d =~= seq![
            crate::text::digit_char(n / 100),
            crate::text::digit_char((n / 10) % 10),
            crate::text::digit_char(n % 10),
        ]);
        assert(d.drop_last() =~= seq![
            crate::text::digit_char(n / 100),
            crate::text::digit_char((n / 10) % 10),
        ]);
        assert(d.drop_last().drop_last() =~= seq![crate::text::digit_char(n / 100)]);
        assert(d.drop_last().drop_last().drop_last() =~= Seq::<char>::empty());
    }
}

proof fn lemma_digits_end_at(t: Seq<char>, i: int, j: int)
    requires
        0 <= i <= j <= t.len(),
        forall|k: int| i <= k < j ==> #[trigger] is_dec_digit(t[k]),
        j == t.len() || !is_dec_digit(t[j]),
    ensures
        digits_end(t, i) == j,
    decreases j - i,
{
    if i < j {
        lemma_digits_end_at(t, i + 1, j);
    }
}

proof fn lemma_ws_end_at(t: Seq<char>, i: int, j: int)
    requires
        0 <= i <= j <= t.len(),
        forall|k: int| i <= k < j ==> #[trigger] is_white_space(t[k]),
        j == t.len() || !is_white_space(t[j]),
    ensures
        ws_end(t, i) == j,
    decreases j - i,
{
    if i < j {
        lemma_ws_end_at(t, i + 1, j);
    }
}

proof fn lemma_field(t: Seq<char>, i: int, s: int, n: int, term: char)
    requires
        0 <= i,
        0 <= s,
        0 <= n <= 255,
        i + s + crate::text::decimal(n as nat).len() < t.len(),
        forall|k: int| i <= k < i + s ==> #[trigger] t[k] == ' ',
        t.subrange(i + s, i + s + crate::text::decimal(n as nat).len()) == crate::text::decimal(
            n as nat,
        ),
        t[i + s + crate::text::decimal(n as nat).len()] == term,
        !is_white_space(term),
        !is_dec_digit(term),
    ensures
        number_field(t, i, false, term) == Some(
            (i + s, i + s + crate::text::decimal(n as nat).len(), i + s + crate::text::decimal(
                n as nat,
            ).len() + 1),
        ),
{
    let d = crate::text::decimal(n as nat);
    lemma_decimal_byte(n);
    let a = i + s;
    let l = d.len() as int;
    assert(t[a] == t.subrange(a, a + l)[0]);
    assert(is_dec_digit(d[0]));
    assert(!is_white_space(t[a]));
    assert forall|k: int| i <= k < a implies #[trigger] is_white_space(t[k]) by {}
    lemma_ws_end_at(t, i, a);
    assert forall|k: int| a <= k < a + l implies #[trigger] is_dec_digit(t[k]) by {
        assert(t[k] == t.subrange(a, a + l)[k - a]);
        assert(is_dec_digit(d[k - a]));
    }
    lemma_digits_end_at(t, a, a + l);
    lemma_ws_end_at(t, a + l, a + l);
}

/// Formatting a color as `rgb(R, G, B)` or `rgb(R,G,B)` and reading that
/// text back as a color argument gives the color again.
#[verifier::rlimit(40)]
pub proof fn law_rgb_string_parses_back(c: Rgb, format: crate::Format)
    ensures
        rgb_syntax(trim(crate::rgb_string(c, format))) == Some(c),
{
    let t = crate::rgb_string(c, format);
    let dr = crate::text::decimal(c.r as nat);
    let dg = crate::text::decimal(c.g as nat);
    let db = crate::text::decimal(c.b as nat);
    let sp = crate::format_space(format);
    lemma_decimal_byte(c.r as int);
    lemma_decimal_byte(c.g as int);
    lemma_decimal_byte(c.b as int);
    let lr = dr.len() as int;
    let lg = dg.len() as int;
    let lb = db.len() as int;
    let s = sp.len() as int;
    assert(s == 0 || (s == 1 && sp[0] == ' '));
    let head = seq!['r', 'g', 'b', '('];
    assert(t =~= head + dr + seq![','] + sp + dg + seq![','] + sp + db + seq![')']);
    let a2 = 5 + lr + s;
    let a3 = a2 + lg + 1 + s;
    assert(t.len() == a3 + lb + 1);
    assert(t.subrange(0, 4) =~= head);
    assert(t.subrange(4, 4 + lr) =~= dr);
    assert(t.subrange(a2, a2 + lg) =~= dg);
    assert(t.subrange(a3, a3 + lb) =~= db);
    assert(t[4 + lr] == ',');
    assert(t[a2 + lg] == ',');
    assert(t[a3 + lb] == ')');
    assert forall|k: int| 5 + lr <= k < a2 implies #[trigger] t[k] == ' ' by {}
    assert forall|k: int| a2 + lg + 1 <= k < a3 implies #[trigger] t[k] == ' ' by {}
    // trimming changes nothing
    assert(crate::text::trim_start(t) == t);
    assert(crate::text::trim_end(t) == t);
    // not hexadecimal
    assert(without_hash(t) == t);
    assert(hex6(t) is None);
    assert(hex3(t) is None);
    lemma_field(t, 4, 0, c.r as int, ',');
    lemma_field(t, 5 + lr, s, c.g as int, ',');
    lemma_field(t, a2 + lg + 1, s, c.b as int, ')');
    assert(has_prefix(t, head));
    assert(rgb_function(t) == Some((dr, dg, db)));
    assert(rgb_values((dr, dg, db)) == Some(c));
}

} // verus!
