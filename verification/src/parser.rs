//! The color notations of the library: `#RRGGBB`, `#RGB`, `#RRGGBBAA`,
//! `#RGBA`, `rgb(..)` with numbers or percentages (or the bare triple),
//! `hsl(..)`, `hsv(..)`, `gray(..)`, `Lab(..)`, `OkLab(..)`, `LCh(..)`, each
//! with an optional alpha, and color names.
//!
//! Parsing yields the notation with its numbers as written: turning a number
//! into a floating-point value is left to the caller.
use vstd::prelude::*;

use crate::named::{find_named_color, lookup_named, named_color_list};
use crate::text::{
    ascii_fold, char_ascii_fold, chars_of, eq_ignore_ascii_case, hex_value, is_dec_digit,
    is_hex_digit, slice_chars, string_of, trim, trim_chars,
};

use crate::Rgb;

verus! {

/// A half-open range `[start, end)` of positions in the text being parsed.
#[derive(Debug, Clone, Copy, PartialEq, Eq, Structural)]
pub struct Span {
    pub start: usize,
    pub end: usize,
}

/// How a number of a notation is to be read.
#[derive(Debug, Clone, Copy, PartialEq, Eq, Structural)]
pub enum Unit {
    /// The number itself.
    Plain,
    /// The number followed by `%`: a hundredth of it.
    Percent,
    /// An angle in degrees: the number alone, or followed by `deg` or `°`.
    Degrees,
    /// An angle followed by `rad`.
    Radians,
    /// An angle followed by `grad` (400 to the turn).
    Gradians,
    /// An angle followed by `turn`.
    Turns,
}

/// A number as written (`L` is its text, or where it stands) and its unit.
#[derive(Debug, Clone, PartialEq, Eq)]
pub struct Quantity<L> {
    pub number: L,
    pub unit: Unit,
}

/// A parsed color notation; `L` is what holds the text of each number.
#[derive(Debug, Clone, PartialEq, Eq)]
pub enum ColorSpec<L> {
    /// `#RRGGBB`, `#RGB`, `#RRGGBBAA` or `#RGBA` (the `#` is optional); a
    /// short digit `d` stands for the byte `dd`; `opacity` is the alpha byte.
    Hex { red: u8, green: u8, blue: u8, opacity: Option<u8> },
    /// `rgb(R, G, B)`, `rgba(..)` or the bare triple: three plain numbers
    /// (0 to 255) or three percentages.
    Rgb { r: Quantity<L>, g: Quantity<L>, b: Quantity<L>, alpha: Option<Quantity<L>> },
    /// `hsl(H, S%, L%)` or `hsla(..)`.
    Hsl { h: Quantity<L>, s: Quantity<L>, l: Quantity<L>, alpha: Option<Quantity<L>> },
    /// `hsv(H, S%, V%)` or `hsva(..)`.
    Hsv { h: Quantity<L>, s: Quantity<L>, v: Quantity<L>, alpha: Option<Quantity<L>> },
    /// `gray(L)`, a plain number or a percentage. A negative level is no
    /// gray; that test is made on the level's value, by whoever reads the
    /// number.
    Gray { l: Quantity<L> },
    /// `Lab(L, a, b)`, also written `CIELab(..)`, in any case.
    Lab { l: Quantity<L>, a: Quantity<L>, b: Quantity<L>, alpha: Option<Quantity<L>> },
    /// `OkLab(L, a, b)`, in any case.
    Oklab { l: Quantity<L>, a: Quantity<L>, b: Quantity<L>, alpha: Option<Quantity<L>> },
    /// `LCh(L, C, H)`, also written `CIELCh(..)`, in any case.
    Lch { l: Quantity<L>, c: Quantity<L>, h: Quantity<L>, alpha: Option<Quantity<L>> },
    /// A color name (a word of ASCII letters, in any case).
    Named { color: Rgb },
}

/// The two ways in which a parser can fail: `Error` lets an alternative be
/// tried; `Failure` ends the whole parse (an exponent marker without digits).
#[derive(Debug, Clone, Copy, PartialEq, Eq, Structural)]
pub enum Stop {
    Error,
    Failure,
}

/// Classes of characters that the notations read in runs.
#[derive(Debug, Clone, Copy, PartialEq, Eq, Structural)]
pub enum CharClass {
    /// Space or tab.
    Blank,
    /// An ASCII decimal digit.
    Digit,
    /// An ASCII hexadecimal digit.
    HexDigit,
    /// An ASCII letter.
    Letter,
}

pub open spec fn in_class(c: char, k: CharClass) -> bool {
    match k {
        CharClass::Blank => c == ' ' || c == '\t',
        CharClass::Digit => is_dec_digit(c),
        CharClass::HexDigit => is_hex_digit(c),
        CharClass::Letter => ('a' <= c && c <= 'z') || ('A' <= c && c <= 'Z'),
    }
}

/// Where the run of characters of class `k` that starts at `i` ends.
pub open spec fn run(s: Seq<char>, i: int, k: CharClass) -> int
    decreases s.len() - i,
{
    if 0 <= i < s.len() && in_class(s[i], k) {
        run(s, i + 1, k)
    } else {
        i
    }
}

pub open spec fn char_at(s: Seq<char>, i: int, c: char) -> bool {
    0 <= i < s.len() && s[i] == c
}

pub open spec fn sign_at(s: Seq<char>, i: int) -> bool {
    char_at(s, i, '+') || char_at(s, i, '-')
}

pub open spec fn digit_at(s: Seq<char>, i: int) -> bool {
    0 <= i < s.len() && is_dec_digit(s[i])
}

/// Whether `t` stands in `s` at `i`.
pub open spec fn text_at(s: Seq<char>, i: int, t: Seq<char>) -> bool {
    0 <= i && i + t.len() <= s.len() && s.subrange(i, i + t.len()) == t
}

/// Whether `t` stands in `s` at `i`, up to ASCII case.
pub open spec fn text_at_no_case(s: Seq<char>, i: int, t: Seq<char>) -> bool {
    0 <= i && i + t.len() <= s.len() && eq_ignore_ascii_case(s.subrange(i, i + t.len()), t)
}

/// The end of the digits of a decimal number starting at `j` (after its
/// sign): digits with an optional `.` and optional further digits, or `.`
/// and digits.
pub open spec fn mantissa_end(s: Seq<char>, j: int) -> Option<int> {
    if digit_at(s, j) {
        let k = run(s, j, CharClass::Digit);
        if char_at(s, k, '.') {
            Some(run(s, k + 1, CharClass::Digit))
        } else {
            Some(k)
        }
    } else if char_at(s, j, '.') && digit_at(s, j + 1) {
        Some(run(s, j + 1, CharClass::Digit))
    } else {
        None
    }
}

/// Where the number that starts at `i` ends: an optional sign, a mantissa
/// and an optional exponent (`e` or `E`, an optional sign, digits), or else
/// `nan` or `inf` in any case. An exponent marker without digits is a
/// `Failure`.
pub open spec fn number_end(s: Seq<char>, i: int) -> Result<int, Stop> {
    let j = if sign_at(s, i) {
        i + 1
    } else {
        i
    };
    match mantissa_end(s, j) {
        None => if text_at_no_case(s, i, seq!['n', 'a', 'n']) || text_at_no_case(
            s,
            i,
            seq!['i', 'n', 'f'],
        ) {
            Ok(i + 3)
        } else {
            Err(Stop::Error)
        },
        Some(k) => if char_at(s, k, 'e') || char_at(s, k, 'E') {
            let m = if sign_at(s, k + 1) {
                k + 2
            } else {
                k + 1
            };
            if digit_at(s, m) {
                Ok(run(s, m, CharClass::Digit))
            } else {
                Err(Stop::Failure)
            }
        } else {
            Ok(k)
        },
    }
}

pub proof fn lemma_run_bounds(s: Seq<char>, i: int, k: CharClass)
    requires
        0 <= i <= s.len(),
    ensures
        i <= run(s, i, k) <= s.len(),
    decreases s.len() - i,
{
    if i < s.len() && in_class(s[i], k) {
        lemma_run_bounds(s, i + 1, k);
    }
}

fn char_in_class(c: char, k: CharClass) -> (r: bool)
    ensures
        r == in_class(c, k),
{
    match k {
        CharClass::Blank => c == ' ' || c == '\t',
        CharClass::Digit => '0' <= c && c <= '9',
        CharClass::HexDigit => ('0' <= c && c <= '9') || ('a' <= c && c <= 'f') || ('A' <= c
            && c <= 'F'),
        CharClass::Letter => ('a' <= c && c <= 'z') || ('A' <= c && c <= 'Z'),
    }
}

/// The end of the run of class `k` that starts at `i`.
fn run_end(s: &Vec<char>, i: usize, k: CharClass) -> (e: usize)
    requires
        i <= s.len(),
    ensures
        e == run(s@, i as int, k),
        i <= e <= s.len(),
{
    let mut j = i;
    while j < s.len() && char_in_class(s[j], k)
        invariant
            i <= j <= s.len(),
            run(s@, j as int, k) == run(s@, i as int, k),
        decreases s.len() - j,
    {
        j = j + 1;
    }
    j
}

fn is_char_at(s: &Vec<char>, i: usize, c: char) -> (r: bool)
    ensures
        r == char_at(s@, i as int, c),
{
    i < s.len() && s[i] == c
}

fn is_digit_at(s: &Vec<char>, i: usize) -> (r: bool)
    ensures
        r == digit_at(s@, i as int),
{
    i < s.len() && '0' <= s[i] && s[i] <= '9'
}

fn is_sign_at(s: &Vec<char>, i: usize) -> (r: bool)
    ensures
        r == sign_at(s@, i as int),
{
    is_char_at(s, i, '+') || is_char_at(s, i, '-')
}

/// Whether `t` stands in `s` at `i`, exactly or up to ASCII case.
fn is_text_at(s: &Vec<char>, i: usize, t: &str, no_case: bool) -> (r: bool)
    ensures
        no_case ==> r == text_at_no_case(s@, i as int, t@),
        !no_case ==> r == text_at(s@, i as int, t@),
{
    let tc = chars_of(t);
    let n = tc.len();
    if i > s.len() || n > s.len() - i {
        return false;
    }
    let mut k: usize = 0;
    while k < n
        invariant
            n == tc@.len(),
            tc@ == t@,
            i + n <= s.len(),
            k <= n,
            forall|m: int|
                0 <= m < k ==> if no_case {
                    ascii_fold(s@[i + m]) == ascii_fold(t@[m])
                } else {
                    s@[i + m] == t@[m]
                },
        decreases n - k,
    {
        let same = if no_case {
            char_ascii_fold(s[i + k]) == char_ascii_fold(tc[k])
        } else {
            s[i + k] == tc[k]
        };
        if !same {
            assert(s@.subrange(i as int, i + n)[k as int] == s@[i + k]);
            return false;
        }
        k = k + 1;
    }
    assert(no_case ==> eq_ignore_ascii_case(s@.subrange(i as int, i + n), t@)) by {
        assert forall|m: int| 0 <= m < n implies #[trigger] s@.subrange(i as int, i + n)[m] == s@[i + m] by {}
    }
    assert(!no_case ==> s@.subrange(i as int, i + n) =~= t@);
    true
}

fn mantissa(s: &Vec<char>, j: usize) -> (r: Option<usize>)
    requires
        j <= s.len(),
    ensures
        match r {
            Some(k) => mantissa_end(s@, j as int) == Some(k as int) && j < k <= s.len(),
            None => mantissa_end(s@, j as int) is None,
        },
{
    if is_digit_at(s, j) {
        proof {
            lemma_run_bounds(s@, j + 1, CharClass::Digit);
        }
        let k = run_end(s, j, CharClass::Digit);
        if is_char_at(s, k, '.') {
            Some(run_end(s, k + 1, CharClass::Digit))
        } else {
            Some(k)
        }
    } else if is_char_at(s, j, '.') && is_digit_at(s, j + 1) {
        proof {
            lemma_run_bounds(s@, j + 2, CharClass::Digit);
        }
        Some(run_end(s, j + 1, CharClass::Digit))
    } else {
        None
    }
}

/// Where the number that starts at `i` ends (see `number_end`).
fn scan_number(s: &Vec<char>, i: usize) -> (r: Result<usize, Stop>)
    requires
        i <= s.len(),
    ensures
        match r {
            Ok(e) => number_end(s@, i as int) == Ok::<int, Stop>(e as int) && i < e <= s.len(),
            Err(x) => number_end(s@, i as int) == Err::<int, Stop>(x),
        },
{
    let j = if is_sign_at(s, i) {
        i + 1
    } else {
        i
    };
    match mantissa(s, j) {
        None => {
            if is_text_at(s, i, "nan", true) || is_text_at(s, i, "inf", true) {
                proof {
                    reveal_strlit("nan");
                    reveal_strlit("inf");
                }
                Ok(i + 3)
            } else {
                proof {
                    reveal_strlit("nan");
                    reveal_strlit("inf");
                }
                Err(Stop::Error)
            }
        },
        Some(k) => {
            proof {
                lemma_run_bounds(s@, j as int, CharClass::Digit);
            }
            if is_char_at(s, k, 'e') || is_char_at(s, k, 'E') {
                let m = if is_sign_at(s, k + 1) {
                    k + 2
                } else {
                    k + 1
                };
                if is_digit_at(s, m) {
                    proof {
                        lemma_run_bounds(s@, m + 1, CharClass::Digit);
                    }
                    Ok(run_end(s, m, CharClass::Digit))
                } else {
                    Err(Stop::Failure)
                }
            } else {
                Ok(k)
            }
        },
    }
}

pub open spec fn quantity(i: int, e: int, u: Unit) -> Quantity<Span> {
    Quantity { number: Span { start: i as usize, end: e as usize }, unit: u }
}

/// Where a separator that starts at `i` ends: a comma with blanks around
/// it, or else at least one blank.
pub open spec fn separator(s: Seq<char>, i: int) -> Option<int> {
    let j = run(s, i, CharClass::Blank);
    if char_at(s, j, ',') {
        Some(run(s, j + 1, CharClass::Blank))
    } else if j > i {
        Some(j)
    } else {
        None
    }
}

/// A percentage (a number and `%`) or else a plain number, at `i`.
pub open spec fn ratio(s: Seq<char>, i: int) -> Result<(Quantity<Span>, int), Stop> {
    match number_end(s, i) {
        Ok(e) => if char_at(s, e, '%') {
            Ok((quantity(i, e, Unit::Percent), e + 1))
        } else {
            Ok((quantity(i, e, Unit::Plain), e))
        },
        Err(x) => Err(x),
    }
}

/// An angle at `i`: a number followed by `turn`, `grad`, `rad`, `°`, `deg`
/// or nothing (degrees).
pub open spec fn angle(s: Seq<char>, i: int) -> Result<(Quantity<Span>, int), Stop> {
    match number_end(s, i) {
        Ok(e) => if text_at(s, e, seq!['t', 'u', 'r', 'n']) {
            Ok((quantity(i, e, Unit::Turns), e + 4))
        } else if text_at(s, e, seq!['g', 'r', 'a', 'd']) {
            Ok((quantity(i, e, Unit::Gradians), e + 4))
        } else if text_at(s, e, seq!['r', 'a', 'd']) {
            Ok((quantity(i, e, Unit::Radians), e + 3))
        } else if char_at(s, e, '°') {
            Ok((quantity(i, e, Unit::Degrees), e + 1))
        } else if text_at(s, e, seq!['d', 'e', 'g']) {
            Ok((quantity(i, e, Unit::Degrees), e + 3))
        } else {
            Ok((quantity(i, e, Unit::Degrees), e))
        },
        Err(x) => Err(x),
    }
}

/// What a component of a notation is.
#[derive(Debug, Clone, Copy, PartialEq, Eq, Structural)]
pub enum Part {
    Number,
    Percentage,
    Angle,
}

/// A component of kind `k` at `i`.
pub open spec fn part(s: Seq<char>, i: int, k: Part) -> Result<(Quantity<Span>, int), Stop> {
    match k {
        Part::Number => match number_end(s, i) {
            Ok(e) => Ok((quantity(i, e, Unit::Plain), e)),
            Err(x) => Err(x),
        },
        Part::Percentage => match number_end(s, i) {
            Ok(e) => if char_at(s, e, '%') {
                Ok((quantity(i, e, Unit::Percent), e + 1))
            } else {
                Err(Stop::Error)
            },
            Err(x) => Err(x),
        },
        Part::Angle => angle(s, i),
    }
}

/// The optional alpha at `i`: a separator and a ratio. Where the
/// separator is missing, or the ratio fails with `Error`, there is none and
/// nothing is consumed.
pub open spec fn alpha(s: Seq<char>, i: int) -> Result<(Option<Quantity<Span>>, int), Stop> {
    match separator(s, i) {
        None => Ok((None, i)),
        Some(j) => match ratio(s, j) {
            Ok((q, e)) => Ok((Some(q), e)),
            Err(Stop::Failure) => Err(Stop::Failure),
            Err(Stop::Error) => Ok((None, i)),
        },
    }
}

fn scan_separator(s: &Vec<char>, i: usize) -> (r: Option<usize>)
    requires
        i <= s.len(),
    ensures
        match r {
            Some(j) => separator(s@, i as int) == Some(j as int) && i < j <= s.len(),
            None => separator(s@, i as int) is None,
        },
{
    let j = run_end(s, i, CharClass::Blank);
    if is_char_at(s, j, ',') {
        Some(run_end(s, j + 1, CharClass::Blank))
    } else if j > i {
        Some(j)
    } else {
        None
    }
}

fn scan_ratio(s: &Vec<char>, i: usize) -> (r: Result<(Quantity<Span>, usize), Stop>)
    requires
        i <= s.len(),
    ensures
        match r {
            Ok((q, e)) => ratio(s@, i as int) == Ok::<(Quantity<Span>, int), Stop>((q, e as int))
                && i < e <= s.len()
                && quantity_within(q, s.len() as int),
            Err(x) => ratio(s@, i as int) == Err::<(Quantity<Span>, int), Stop>(x),
        },
{
    match scan_number(s, i) {
        Ok(e) => if is_char_at(s, e, '%') {
            Ok((Quantity { number: Span { start: i, end: e }, unit: Unit::Percent }, e + 1))
        } else {
            Ok((Quantity { number: Span { start: i, end: e }, unit: Unit::Plain }, e))
        },
        Err(x) => Err(x),
    }
}

fn scan_angle(s: &Vec<char>, i: usize) -> (r: Result<(Quantity<Span>, usize), Stop>)
    requires
        i <= s.len(),
    ensures
        match r {
            Ok((q, e)) => angle(s@, i as int) == Ok::<(Quantity<Span>, int), Stop>((q, e as int))
                && i < e <= s.len()
                && quantity_within(q, s.len() as int),
            Err(x) => angle(s@, i as int) == Err::<(Quantity<Span>, int), Stop>(x),
        },
{
    proof {
        reveal_strlit("turn");
        reveal_strlit("grad");
        reveal_strlit("rad");
        reveal_strlit("deg");
        assert("turn"@ =~= seq!['t', 'u', 'r', 'n']);
        assert("grad"@ =~= seq!['g', 'r', 'a', 'd']);
        assert("rad"@ =~= seq!['r', 'a', 'd']);
        assert("deg"@ =~= seq!['d', 'e', 'g']);
    }
    match scan_number(s, i) {
        Ok(e) => {
            let number = Span { start: i, end: e };
            if is_text_at(s, e, "turn", false) {
                Ok((Quantity { number, unit: Unit::Turns }, e + 4))
            } else if is_text_at(s, e, "grad", false) {
                Ok((Quantity { number, unit: Unit::Gradians }, e + 4))
            } else if is_text_at(s, e, "rad", false) {
                Ok((Quantity { number, unit: Unit::Radians }, e + 3))
            } else if is_char_at(s, e, '°') {
                Ok((Quantity { number, unit: Unit::Degrees }, e + 1))
            } else if is_text_at(s, e, "deg", false) {
                Ok((Quantity { number, unit: Unit::Degrees }, e + 3))
            } else {
                Ok((Quantity { number, unit: Unit::Degrees }, e))
            }
        },
        Err(x) => Err(x),
    }
}

fn scan_part(s: &Vec<char>, i: usize, k: Part) -> (r: Result<(Quantity<Span>, usize), Stop>)
    requires
        i <= s.len(),
    ensures
        match r {
            Ok((q, e)) => part(s@, i as int, k) == Ok::<(Quantity<Span>, int), Stop>((q, e as int))
                && i < e <= s.len()
                && quantity_within(q, s.len() as int),
            Err(x) => part(s@, i as int, k) == Err::<(Quantity<Span>, int), Stop>(x),
        },
{
    match k {
        Part::Number => match scan_number(s, i) {
            Ok(e) => Ok((Quantity { number: Span { start: i, end: e }, unit: Unit::Plain }, e)),
            Err(x) => Err(x),
        },
        Part::Percentage => match scan_number(s, i) {
            Ok(e) => if is_char_at(s, e, '%') {
                Ok((Quantity { number: Span { start: i, end: e }, unit: Unit::Percent }, e + 1))
            } else {
                Err(Stop::Error)
            },
            Err(x) => Err(x),
        },
        Part::Angle => scan_angle(s, i),
    }
}

fn scan_alpha(s: &Vec<char>, i: usize) -> (r: Result<(Option<Quantity<Span>>, usize), Stop>)
    requires
        i <= s.len(),
    ensures
        match r {
            Ok((q, e)) => alpha(s@, i as int) == Ok::<(Option<Quantity<Span>>, int), Stop>(
                (q, e as int),
            ) && i <= e <= s.len()
                && alpha_within(q, s.len() as int),
            Err(x) => alpha(s@, i as int) == Err::<(Option<Quantity<Span>>, int), Stop>(x),
        },
{
    match scan_separator(s, i) {
        None => Ok((None, i)),
        Some(j) => match scan_ratio(s, j) {
            Ok((q, e)) => Ok((Some(q), e)),
            Err(Stop::Failure) => Err(Stop::Failure),
            Err(Stop::Error) => Ok((None, i)),
        },
    }
}

/// The three components and the alpha of a functional notation.
#[derive(Debug, Clone, PartialEq, Eq)]
pub struct Body {
    pub first: Quantity<Span>,
    pub second: Quantity<Span>,
    pub third: Quantity<Span>,
    pub alpha: Option<Quantity<Span>>,
}

/// What follows the opening of a notation, from `i`: blanks, three
/// components of the given kinds with separators between them, the optional
/// alpha, blanks, and then `)` where `close` is set.
pub open spec fn body(s: Seq<char>, i: int, kinds: (Part, Part, Part), close: bool) -> Result<
    (Body, int),
    Stop,
> {
    match part(s, run(s, i, CharClass::Blank), kinds.0) {
        Err(x) => Err(x),
        Ok((first, e1)) => match separator(s, e1) {
            None => Err(Stop::Error),
            Some(i2) => match part(s, i2, kinds.1) {
                Err(x) => Err(x),
                Ok((second, e2)) => match separator(s, e2) {
                    None => Err(Stop::Error),
                    Some(i3) => match part(s, i3, kinds.2) {
                        Err(x) => Err(x),
                        Ok((third, e3)) => match alpha(s, e3) {
                            Err(x) => Err(x),
                            Ok((alpha, e4)) => {
                                let b = Body { first, second, third, alpha };
                                let e5 = run(s, e4, CharClass::Blank);
                                if !close {
                                    Ok((b, e5))
                                } else if char_at(s, e5, ')') {
                                    Ok((b, e5 + 1))
                                } else {
                                    Err(Stop::Error)
                                }
                            },
                        },
                    },
                },
            },
        },
    }
}

fn scan_body(s: &Vec<char>, i: usize, kinds: (Part, Part, Part), close: bool) -> (r: Result<
    (Body, usize),
    Stop,
>)
    requires
        i <= s.len(),
    ensures
        match r {
            Ok((b, e)) => body(s@, i as int, kinds, close) == Ok::<(Body, int), Stop>(
                (b, e as int),
            ) && i <= e <= s.len()
                && body_within(b, s.len() as int),
            Err(x) => body(s@, i as int, kinds, close) == Err::<(Body, int), Stop>(x),
        },
{
    let p1 = run_end(s, i, CharClass::Blank);
    let (first, e1) = match scan_part(s, p1, kinds.0) {
        Ok(v) => v,
        Err(x) => {
            return Err(x);
        },
    };
    let i2 = match scan_separator(s, e1) {
        Some(j) => j,
        None => {
            return Err(Stop::Error);
        },
    };
    let (second, e2) = match scan_part(s, i2, kinds.1) {
        Ok(v) => v,
        Err(x) => {
            return Err(x);
        },
    };
    let i3 = match scan_separator(s, e2) {
        Some(j) => j,
        None => {
            return Err(Stop::Error);
        },
    };
    let (third, e3) = match scan_part(s, i3, kinds.2) {
        Ok(v) => v,
        Err(x) => {
            return Err(x);
        },
    };
    let (alpha, e4) = match scan_alpha(s, e3) {
        Ok(v) => v,
        Err(x) => {
            return Err(x);
        },
    };
    let b = Body { first, second, third, alpha };
    let e5 = run_end(s, e4, CharClass::Blank);
    if !close {
        Ok((b, e5))
    } else if is_char_at(s, e5, ')') {
        Ok((b, e5 + 1))
    } else {
        Err(Stop::Error)
    }
}

pub open spec fn span_within(sp: Span, n: int) -> bool {
    sp.start <= sp.end <= n
}

pub open spec fn quantity_within(q: Quantity<Span>, n: int) -> bool {
    span_within(q.number, n)
}

pub open spec fn alpha_within(a: Option<Quantity<Span>>, n: int) -> bool {
    match a {
        Some(q) => quantity_within(q, n),
        None => true,
    }
}

pub open spec fn body_within(b: Body, n: int) -> bool {
    quantity_within(b.first, n) && quantity_within(b.second, n) && quantity_within(b.third, n)
        && alpha_within(b.alpha, n)
}

/// Whether every span of a parsed notation lies within `[0, n)`.
pub open spec fn spec_within(c: ColorSpec<Span>, n: int) -> bool {
    match c {
        ColorSpec::Hex { .. } => true,
        ColorSpec::Rgb { r, g, b, alpha } => quantity_within(r, n) && quantity_within(g, n)
            && quantity_within(b, n) && alpha_within(alpha, n),
        ColorSpec::Hsl { h, s, l, alpha } => quantity_within(h, n) && quantity_within(s, n)
            && quantity_within(l, n) && alpha_within(alpha, n),
        ColorSpec::Hsv { h, s, v, alpha } => quantity_within(h, n) && quantity_within(s, n)
            && quantity_within(v, n) && alpha_within(alpha, n),
        ColorSpec::Gray { l } => quantity_within(l, n),
        ColorSpec::Lab { l, a, b, alpha } => quantity_within(l, n) && quantity_within(a, n)
            && quantity_within(b, n) && alpha_within(alpha, n),
        ColorSpec::Oklab { l, a, b, alpha } => quantity_within(l, n) && quantity_within(a, n)
            && quantity_within(b, n) && alpha_within(alpha, n),
        ColorSpec::Lch { l, c, h, alpha } => quantity_within(l, n) && quantity_within(c, n)
            && quantity_within(h, n) && alpha_within(alpha, n),
        ColorSpec::Named { .. } => true,
    }
}

/// The byte written by the two hexadecimal digits at `j`.
pub open spec fn hex_byte(s: Seq<char>, j: int) -> u8 {
    (hex_value(s[j])->0 * 16 + hex_value(s[j + 1])->0) as u8
}

/// The byte written by the short hexadecimal digit at `j` (`d` means `dd`).
pub open spec fn hex_short(s: Seq<char>, j: int) -> u8 {
    (hex_value(s[j])->0 * 17) as u8
}

/// `#RRGGBB`, `#RGB`, `#RRGGBBAA` or `#RGBA`, the `#` optional: the run of
/// hexadecimal digits decides by its length.
pub open spec fn hex_form(s: Seq<char>) -> Result<(ColorSpec<Span>, int), Stop> {
    let j: int = if char_at(s, 0, '#') {
        1
    } else {
        0
    };
    let e = run(s, j, CharClass::HexDigit);
    if e - j == 6 {
        Ok(
            (
                ColorSpec::Hex {
                    red: hex_byte(s, j),
                    green: hex_byte(s, j + 2),
                    blue: hex_byte(s, j + 4),
                    opacity: None,
                },
                e,
            ),
        )
    } else if e - j == 3 {
        Ok(
            (
                ColorSpec::Hex {
                    red: hex_short(s, j),
                    green: hex_short(s, j + 1),
                    blue: hex_short(s, j + 2),
                    opacity: None,
                },
                e,
            ),
        )
    } else if e - j == 8 {
        Ok(
            (
                ColorSpec::Hex {
                    red: hex_byte(s, j),
                    green: hex_byte(s, j + 2),
                    blue: hex_byte(s, j + 4),
                    opacity: Some(hex_byte(s, j + 6)),
                },
                e,
            ),
        )
    } else if e - j == 4 {
        Ok(
            (
                ColorSpec::Hex {
                    red: hex_short(s, j),
                    green: hex_short(s, j + 1),
                    blue: hex_short(s, j + 2),
                    opacity: Some(hex_short(s, j + 3)),
                },
                e,
            ),
        )
    } else {
        Err(Stop::Error)
    }
}

/// `rgb(..)`, `rgba(..)` or the bare triple, with components of kind `k`.
pub open spec fn rgb_form(s: Seq<char>, k: Part) -> Result<(ColorSpec<Span>, int), Stop> {
    let (p, close) = if text_at(s, 0, seq!['r', 'g', 'b', '(']) {
        (4int, true)
    } else if text_at(s, 0, seq!['r', 'g', 'b', 'a', '(']) {
        (5int, true)
    } else {
        (0int, false)
    };
    match body(s, p, (k, k, k), close) {
        Ok((b, e)) => Ok((ColorSpec::Rgb { r: b.first, g: b.second, b: b.third, alpha: b.alpha }, e)),
        Err(x) => Err(x),
    }
}

/// `hsl(H, S%, L%)`, or `hsv(..)` where `hsv` is set, with or without the
/// `a` of alpha in the name.
pub open spec fn hue_form(s: Seq<char>, hsv: bool) -> Result<(ColorSpec<Span>, int), Stop> {
    let last = if hsv {
        'v'
    } else {
        'l'
    };
    let p: int = if text_at(s, 0, seq!['h', 's', last, '(']) {
        4
    } else if text_at(s, 0, seq!['h', 's', last, 'a', '(']) {
        5
    } else {
        0
    };
    if p == 0 {
        Err(Stop::Error)
    } else {
        match body(s, p, (Part::Angle, Part::Percentage, Part::Percentage), true) {
            Ok((b, e)) => if hsv {
                Ok((ColorSpec::Hsv { h: b.first, s: b.second, v: b.third, alpha: b.alpha }, e))
            } else {
                Ok((ColorSpec::Hsl { h: b.first, s: b.second, l: b.third, alpha: b.alpha }, e))
            },
            Err(x) => Err(x),
        }
    }
}

/// `gray(L)`, with a plain number or a percentage.
pub open spec fn gray_form(s: Seq<char>) -> Result<(ColorSpec<Span>, int), Stop> {
    if text_at(s, 0, seq!['g', 'r', 'a', 'y', '(']) {
        match ratio(s, run(s, 5, CharClass::Blank)) {
            Ok((q, e)) => {
                let e2 = run(s, e, CharClass::Blank);
                if char_at(s, e2, ')') {
                    Ok((ColorSpec::Gray { l: q }, e2 + 1))
                } else {
                    Err(Stop::Error)
                }
            },
            Err(x) => Err(x),
        }
    } else {
        Err(Stop::Error)
    }
}

/// `Lab(..)` (or `CIELab(..)`), `OkLab(..)` where `ok` is set, in any case.
pub open spec fn lab_form(s: Seq<char>, ok: bool) -> Result<(ColorSpec<Span>, int), Stop> {
    let p: int = if ok {
        if text_at_no_case(s, 0, seq!['o', 'k', 'l', 'a', 'b', '(']) {
            6
        } else {
            0
        }
    } else {
        let c: int = if text_at_no_case(s, 0, seq!['c', 'i', 'e']) {
            3
        } else {
            0
        };
        if text_at_no_case(s, c, seq!['l', 'a', 'b', '(']) {
            c + 4
        } else {
            0
        }
    };
    if p == 0 {
        Err(Stop::Error)
    } else {
        match body(s, p, (Part::Number, Part::Number, Part::Number), true) {
            Ok((b, e)) => if ok {
                Ok((ColorSpec::Oklab { l: b.first, a: b.second, b: b.third, alpha: b.alpha }, e))
            } else {
                Ok((ColorSpec::Lab { l: b.first, a: b.second, b: b.third, alpha: b.alpha }, e))
            },
            Err(x) => Err(x),
        }
    }
}

/// `LCh(..)` (or `CIELCh(..)`), in any case.
pub open spec fn lch_form(s: Seq<char>) -> Result<(ColorSpec<Span>, int), Stop> {
    let c: int = if text_at_no_case(s, 0, seq!['c', 'i', 'e']) {
        3
    } else {
        0
    };
    if text_at_no_case(s, c, seq!['l', 'c', 'h', '(']) {
        match body(s, c + 4, (Part::Number, Part::Number, Part::Angle), true) {
            Ok((b, e)) => Ok((ColorSpec::Lch { l: b.first, c: b.second, h: b.third, alpha: b.alpha }, e)),
            Err(x) => Err(x),
        }
    } else {
        Err(Stop::Error)
    }
}

/// A whole text of ASCII letters that names a color.
pub open spec fn name_form(s: Seq<char>) -> Result<(ColorSpec<Span>, int), Stop> {
    if s.len() > 0 && run(s, 0, CharClass::Letter) == s.len() {
        match lookup_named(named_color_list(), s) {
            Some(color) => Ok((ColorSpec::Named { color }, s.len() as int)),
            None => Err(Stop::Error),
        }
    } else {
        Err(Stop::Error)
    }
}

/// The notations in the order in which they are tried.
pub open spec fn form(s: Seq<char>, n: int) -> Result<(ColorSpec<Span>, int), Stop> {
    if n == 0 {
        hex_form(s)
    } else if n == 1 {
        rgb_form(s, Part::Number)
    } else if n == 2 {
        rgb_form(s, Part::Percentage)
    } else if n == 3 {
        hue_form(s, false)
    } else if n == 4 {
        hue_form(s, true)
    } else if n == 5 {
        gray_form(s)
    } else if n == 6 {
        lab_form(s, false)
    } else if n == 7 {
        lab_form(s, true)
    } else if n == 8 {
        lch_form(s)
    } else {
        name_form(s)
    }
}

/// The number of notations.
pub open spec fn forms() -> int {
    10
}

/// The first notation, from the `n`-th on, that reads the whole text; an
/// `Error` moves on to the next one, a `Failure` ends the search.
pub open spec fn first_form(s: Seq<char>, n: int) -> Option<ColorSpec<Span>>
    decreases forms() - n,
{
    if n < 0 || n >= forms() {
        None
    } else {
        match form(s, n) {
            Ok((c, e)) => if e == s.len() {
                Some(c)
            } else {
                first_form(s, n + 1)
            },
            Err(Stop::Error) => first_form(s, n + 1),
            Err(Stop::Failure) => None,
        }
    }
}

pub proof fn lemma_run_class(s: Seq<char>, i: int, k: CharClass)
    requires
        0 <= i <= s.len(),
    ensures
        forall|m: int| i <= m < run(s, i, k) ==> in_class(#[trigger] s[m], k),
        run(s, i, k) < s.len() ==> !in_class(s[run(s, i, k)], k),
    decreases s.len() - i,
{
    if i < s.len() && in_class(s[i], k) {
        lemma_run_class(s, i + 1, k);
    }
}

fn hex_digit_value(c: char) -> (v: u8)
    requires
        is_hex_digit(c),
    ensures
        v as int == hex_value(c)->0,
        v < 16,
{
    if '0' <= c && c <= '9' {
        (c as u32 - '0' as u32) as u8
    } else if 'a' <= c && c <= 'f' {
        (c as u32 - 'a' as u32 + 10) as u8
    } else {
        (c as u32 - 'A' as u32 + 10) as u8
    }
}

fn byte_at(s: &Vec<char>, j: usize) -> (r: u8)
    requires
        j + 1 < s.len(),
        is_hex_digit(s@[j as int]),
        is_hex_digit(s@[j + 1]),
    ensures
        r == hex_byte(s@, j as int),
{
    hex_digit_value(s[j]) * 16 + hex_digit_value(s[j + 1])
}

fn short_at(s: &Vec<char>, j: usize) -> (r: u8)
    requires
        j < s.len(),
        is_hex_digit(s@[j as int]),
    ensures
        r == hex_short(s@, j as int),
{
    let d = hex_digit_value(s[j]);
    d * 16 + d
}

fn scan_hex(s: &Vec<char>) -> (r: Result<(ColorSpec<Span>, usize), Stop>)
    ensures
        match r {
            Ok((c, e)) => hex_form(s@) == Ok::<(ColorSpec<Span>, int), Stop>((c, e as int)) && e
                <= s.len() && spec_within(c, s.len() as int),
            Err(x) => hex_form(s@) == Err::<(ColorSpec<Span>, int), Stop>(x),
        },
{
    let j: usize = if is_char_at(s, 0, '#') {
        1
    } else {
        0
    };
    let e = run_end(s, j, CharClass::HexDigit);
    proof {
        lemma_run_class(s@, j as int, CharClass::HexDigit);
    }
    if e - j == 6 {
        Ok(
            (
                ColorSpec::Hex {
                    red: byte_at(s, j),
                    green: byte_at(s, j + 2),
                    blue: byte_at(s, j + 4),
                    opacity: None,
                },
                e,
            ),
        )
    } else if e - j == 3 {
        Ok(
            (
                ColorSpec::Hex {
                    red: short_at(s, j),
                    green: short_at(s, j + 1),
                    blue: short_at(s, j + 2),
                    opacity: None,
                },
                e,
            ),
        )
    } else if e - j == 8 {
        Ok(
            (
                ColorSpec::Hex {
                    red: byte_at(s, j),
                    green: byte_at(s, j + 2),
                    blue: byte_at(s, j + 4),
                    opacity: Some(byte_at(s, j + 6)),
                },
                e,
            ),
        )
    } else if e - j == 4 {
        Ok(
            (
                ColorSpec::Hex {
                    red: short_at(s, j),
                    green: short_at(s, j + 1),
                    blue: short_at(s, j + 2),
                    opacity: Some(short_at(s, j + 3)),
                },
                e,
            ),
        )
    } else {
        Err(Stop::Error)
    }
}

fn scan_rgb(s: &Vec<char>, k: Part) -> (r: Result<(ColorSpec<Span>, usize), Stop>)
    ensures
        match r {
            Ok((c, e)) => rgb_form(s@, k) == Ok::<(ColorSpec<Span>, int), Stop>((c, e as int)) && e
                <= s.len() && spec_within(c, s.len() as int),
            Err(x) => rgb_form(s@, k) == Err::<(ColorSpec<Span>, int), Stop>(x),
        },
{
    proof {
        reveal_strlit("rgb(");
        reveal_strlit("rgba(");
        assert("rgb("@ =~= seq!['r', 'g', 'b', '(']);
        assert("rgba("@ =~= seq!['r', 'g', 'b', 'a', '(']);
    }
    let (p, close): (usize, bool) = if is_text_at(s, 0, "rgb(", false) {
        (4, true)
    } else if is_text_at(s, 0, "rgba(", false) {
        (5, true)
    } else {
        (0, false)
    };
    match scan_body(s, p, (k, k, k), close) {
        Ok((b, e)) => Ok((ColorSpec::Rgb { r: b.first, g: b.second, b: b.third, alpha: b.alpha }, e)),
        Err(x) => Err(x),
    }
}

fn scan_hue(s: &Vec<char>, hsv: bool) -> (r: Result<(ColorSpec<Span>, usize), Stop>)
    ensures
        match r {
            Ok((c, e)) => hue_form(s@, hsv) == Ok::<(ColorSpec<Span>, int), Stop>((c, e as int)) && e
                <= s.len() && spec_within(c, s.len() as int),
            Err(x) => hue_form(s@, hsv) == Err::<(ColorSpec<Span>, int), Stop>(x),
        },
{
    proof {
        reveal_strlit("hsl(");
        reveal_strlit("hsla(");
        reveal_strlit("hsv(");
        reveal_strlit("hsva(");
        assert("hsl("@ =~= seq!['h', 's', 'l', '(']);
        assert("hsla("@ =~= seq!['h', 's', 'l', 'a', '(']);
        assert("hsv("@ =~= seq!['h', 's', 'v', '(']);
        assert("hsva("@ =~= seq!['h', 's', 'v', 'a', '(']);
    }
    let p: usize = if hsv {
        if is_text_at(s, 0, "hsv(", false) {
            4
        } else if is_text_at(s, 0, "hsva(", false) {
            5
        } else {
            0
        }
    } else {
        if is_text_at(s, 0, "hsl(", false) {
            4
        } else if is_text_at(s, 0, "hsla(", false) {
            5
        } else {
            0
        }
    };
    if p == 0 {
        return Err(Stop::Error);
    }
    match scan_body(s, p, (Part::Angle, Part::Percentage, Part::Percentage), true) {
        Ok((b, e)) => if hsv {
            Ok((ColorSpec::Hsv { h: b.first, s: b.second, v: b.third, alpha: b.alpha }, e))
        } else {
            Ok((ColorSpec::Hsl { h: b.first, s: b.second, l: b.third, alpha: b.alpha }, e))
        },
        Err(x) => Err(x),
    }
}

fn scan_gray(s: &Vec<char>) -> (r: Result<(ColorSpec<Span>, usize), Stop>)
    ensures
        match r {
            Ok((c, e)) => gray_form(s@) == Ok::<(ColorSpec<Span>, int), Stop>((c, e as int)) && e
                <= s.len() && spec_within(c, s.len() as int),
            Err(x) => gray_form(s@) == Err::<(ColorSpec<Span>, int), Stop>(x),
        },
{
    proof {
        reveal_strlit("gray(");
        assert("gray("@ =~= seq!['g', 'r', 'a', 'y', '(']);
    }
    if !is_text_at(s, 0, "gray(", false) {
        return Err(Stop::Error);
    }
    let p = run_end(s, 5, CharClass::Blank);
    match scan_ratio(s, p) {
        Ok((q, e)) => {
            let e2 = run_end(s, e, CharClass::Blank);
            if is_char_at(s, e2, ')') {
                Ok((ColorSpec::Gray { l: q }, e2 + 1))
            } else {
                Err(Stop::Error)
            }
        },
        Err(x) => Err(x),
    }
}

fn scan_lab(s: &Vec<char>, ok: bool) -> (r: Result<(ColorSpec<Span>, usize), Stop>)
    ensures
        match r {
            Ok((c, e)) => lab_form(s@, ok) == Ok::<(ColorSpec<Span>, int), Stop>((c, e as int)) && e
                <= s.len() && spec_within(c, s.len() as int),
            Err(x) => lab_form(s@, ok) == Err::<(ColorSpec<Span>, int), Stop>(x),
        },
{
    proof {
        reveal_strlit("oklab(");
        reveal_strlit("cie");
        reveal_strlit("lab(");
        assert("oklab("@ =~= seq!['o', 'k', 'l', 'a', 'b', '(']);
        assert("cie"@ =~= seq!['c', 'i', 'e']);
        assert("lab("@ =~= seq!['l', 'a', 'b', '(']);
    }
    let p: usize = if ok {
        if is_text_at(s, 0, "oklab(", true) {
            6
        } else {
            0
        }
    } else {
        let c: usize = if is_text_at(s, 0, "cie", true) {
            3
        } else {
            0
        };
        if is_text_at(s, c, "lab(", true) {
            c + 4
        } else {
            0
        }
    };
    if p == 0 {
        return Err(Stop::Error);
    }
    match scan_body(s, p, (Part::Number, Part::Number, Part::Number), true) {
        Ok((b, e)) => if ok {
            Ok((ColorSpec::Oklab { l: b.first, a: b.second, b: b.third, alpha: b.alpha }, e))
        } else {
            Ok((ColorSpec::Lab { l: b.first, a: b.second, b: b.third, alpha: b.alpha }, e))
        },
        Err(x) => Err(x),
    }
}

fn scan_lch(s: &Vec<char>) -> (r: Result<(ColorSpec<Span>, usize), Stop>)
    ensures
        match r {
            Ok((c, e)) => lch_form(s@) == Ok::<(ColorSpec<Span>, int), Stop>((c, e as int)) && e
                <= s.len() && spec_within(c, s.len() as int),
            Err(x) => lch_form(s@) == Err::<(ColorSpec<Span>, int), Stop>(x),
        },
{
    proof {
        reveal_strlit("cie");
        reveal_strlit("lch(");
        assert("cie"@ =~= seq!['c', 'i', 'e']);
        assert("lch("@ =~= seq!['l', 'c', 'h', '(']);
    }
    let c: usize = if is_text_at(s, 0, "cie", true) {
        3
    } else {
        0
    };
    if !is_text_at(s, c, "lch(", true) {
        return Err(Stop::Error);
    }
    match scan_body(s, c + 4, (Part::Number, Part::Number, Part::Angle), true) {
        Ok((b, e)) => Ok((ColorSpec::Lch { l: b.first, c: b.second, h: b.third, alpha: b.alpha }, e)),
        Err(x) => Err(x),
    }
}

fn scan_name(s: &Vec<char>) -> (r: Result<(ColorSpec<Span>, usize), Stop>)
    ensures
        match r {
            Ok((c, e)) => name_form(s@) == Ok::<(ColorSpec<Span>, int), Stop>((c, e as int)) && e
                <= s.len() && spec_within(c, s.len() as int),
            Err(x) => name_form(s@) == Err::<(ColorSpec<Span>, int), Stop>(x),
        },
{
    if s.len() > 0 && run_end(s, 0, CharClass::Letter) == s.len() {
        let word = string_of(s);
        match find_named_color(word.as_str()) {
            Some(color) => Ok((ColorSpec::Named { color }, s.len())),
            None => Err(Stop::Error),
        }
    } else {
        Err(Stop::Error)
    }
}

fn scan_form(s: &Vec<char>, n: usize) -> (r: Result<(ColorSpec<Span>, usize), Stop>)
    ensures
        match r {
            Ok((c, e)) => form(s@, n as int) == Ok::<(ColorSpec<Span>, int), Stop>((c, e as int))
                && e <= s.len() && spec_within(c, s.len() as int),
            Err(x) => form(s@, n as int) == Err::<(ColorSpec<Span>, int), Stop>(x),
        },
{
    if n == 0 {
        scan_hex(s)
    } else if n == 1 {
        scan_rgb(s, Part::Number)
    } else if n == 2 {
        scan_rgb(s, Part::Percentage)
    } else if n == 3 {
        scan_hue(s, false)
    } else if n == 4 {
        scan_hue(s, true)
    } else if n == 5 {
        scan_gray(s)
    } else if n == 6 {
        scan_lab(s, false)
    } else if n == 7 {
        scan_lab(s, true)
    } else if n == 8 {
        scan_lch(s)
    } else {
        scan_name(s)
    }
}

/// The first notation that reads the whole of `s`, with its numbers as
/// spans of `s`.
fn scan_notation(s: &Vec<char>) -> (r: Option<ColorSpec<Span>>)
    ensures
        r == first_form(s@, 0),
        match r {
            Some(c) => spec_within(c, s.len() as int),
            None => true,
        },
{
    let mut n: usize = 0;
    while n < 10
        invariant
            n <= 10,
            first_form(s@, 0) == first_form(s@, n as int),
        decreases 10 - n,
    {
        match scan_form(s, n) {
            Ok((c, e)) => {
                if e == s.len() {
                    return Some(c);
                }
            },
            Err(Stop::Failure) => {
                return None;
            },
            Err(Stop::Error) => {},
        }
        n = n + 1;
    }
    None
}

pub open spec fn map_quantity<A, B>(q: Quantity<A>, f: spec_fn(A) -> B) -> Quantity<B> {
    Quantity { number: f(q.number), unit: q.unit }
}

pub open spec fn map_alpha<A, B>(a: Option<Quantity<A>>, f: spec_fn(A) -> B) -> Option<Quantity<B>> {
    match a {
        Some(q) => Some(map_quantity(q, f)),
        None => None,
    }
}

/// The notation with `f` applied to what holds each number.
pub open spec fn map_spec<A, B>(c: ColorSpec<A>, f: spec_fn(A) -> B) -> ColorSpec<B> {
    match c {
        ColorSpec::Hex { red, green, blue, opacity } => ColorSpec::Hex { red, green, blue, opacity },
        ColorSpec::Rgb { r, g, b, alpha } => ColorSpec::Rgb {
            r: map_quantity(r, f),
            g: map_quantity(g, f),
            b: map_quantity(b, f),
            alpha: map_alpha(alpha, f),
        },
        ColorSpec::Hsl { h, s, l, alpha } => ColorSpec::Hsl {
            h: map_quantity(h, f),
            s: map_quantity(s, f),
            l: map_quantity(l, f),
            alpha: map_alpha(alpha, f),
        },
        ColorSpec::Hsv { h, s, v, alpha } => ColorSpec::Hsv {
            h: map_quantity(h, f),
            s: map_quantity(s, f),
            v: map_quantity(v, f),
            alpha: map_alpha(alpha, f),
        },
        ColorSpec::Gray { l } => ColorSpec::Gray { l: map_quantity(l, f) },
        ColorSpec::Lab { l, a, b, alpha } => ColorSpec::Lab {
            l: map_quantity(l, f),
            a: map_quantity(a, f),
            b: map_quantity(b, f),
            alpha: map_alpha(alpha, f),
        },
        ColorSpec::Oklab { l, a, b, alpha } => ColorSpec::Oklab {
            l: map_quantity(l, f),
            a: map_quantity(a, f),
            b: map_quantity(b, f),
            alpha: map_alpha(alpha, f),
        },
        ColorSpec::Lch { l, c, h, alpha } => ColorSpec::Lch {
            l: map_quantity(l, f),
            c: map_quantity(c, f),
            h: map_quantity(h, f),
            alpha: map_alpha(alpha, f),
        },
        ColorSpec::Named { color } => ColorSpec::Named { color },
    }
}

/// The text of `s` that a span covers.
pub open spec fn span_text(s: Seq<char>) -> spec_fn(Span) -> Seq<char> {
    |sp: Span| s.subrange(sp.start as int, sp.end as int)
}

/// The characters of a string.
pub open spec fn string_text() -> spec_fn(String) -> Seq<char> {
    |t: String| t@
}

/// The notation that a text holds, with the text of each of its numbers:
/// the first notation in the order of `form` that reads the whole text
/// once leading and trailing white space is set aside.
pub open spec fn notation(text: Seq<char>) -> Option<ColorSpec<Seq<char>>> {
    let s = trim(text);
    match first_form(s, 0) {
        Some(c) => Some(map_spec(c, span_text(s))),
        None => None,
    }
}

fn lexeme(s: &Vec<char>, sp: Span) -> (t: String)
    requires
        span_within(sp, s.len() as int),
    ensures
        t@ == span_text(s@)(sp),
{
    string_of(&slice_chars(s, sp.start, sp.end))
}

fn quantity_text(s: &Vec<char>, q: &Quantity<Span>) -> (r: Quantity<String>)
    requires
        quantity_within(*q, s.len() as int),
    ensures
        map_quantity(r, string_text()) == map_quantity(*q, span_text(s@)),
{
    Quantity { number: lexeme(s, q.number), unit: q.unit }
}

fn alpha_text(s: &Vec<char>, a: &Option<Quantity<Span>>) -> (r: Option<Quantity<String>>)
    requires
        alpha_within(*a, s.len() as int),
    ensures
        map_alpha(r, string_text()) == map_alpha(*a, span_text(s@)),
{
    match a {
        Some(q) => Some(quantity_text(s, q)),
        None => None,
    }
}

/// The notation with the text of each of its numbers.
fn spec_text(s: &Vec<char>, c: &ColorSpec<Span>) -> (r: ColorSpec<String>)
    requires
        spec_within(*c, s.len() as int),
    ensures
        map_spec(r, string_text()) == map_spec(*c, span_text(s@)),
{
    match c {
        ColorSpec::Hex { red, green, blue, opacity } => ColorSpec::Hex {
            red: *red,
            green: *green,
            blue: *blue,
            opacity: *opacity,
        },
        ColorSpec::Rgb { r, g, b, alpha } => ColorSpec::Rgb {
            r: quantity_text(s, r),
            g: quantity_text(s, g),
            b: quantity_text(s, b),
            alpha: alpha_text(s, alpha),
        },
        ColorSpec::Hsl { h, s: sat, l, alpha } => ColorSpec::Hsl {
            h: quantity_text(s, h),
            s: quantity_text(s, sat),
            l: quantity_text(s, l),
            alpha: alpha_text(s, alpha),
        },
        ColorSpec::Hsv { h, s: sat, v, alpha } => ColorSpec::Hsv {
            h: quantity_text(s, h),
            s: quantity_text(s, sat),
            v: quantity_text(s, v),
            alpha: alpha_text(s, alpha),
        },
        ColorSpec::Gray { l } => ColorSpec::Gray { l: quantity_text(s, l) },
        ColorSpec::Lab { l, a, b, alpha } => ColorSpec::Lab {
            l: quantity_text(s, l),
            a: quantity_text(s, a),
            b: quantity_text(s, b),
            alpha: alpha_text(s, alpha),
        },
        ColorSpec::Oklab { l, a, b, alpha } => ColorSpec::Oklab {
            l: quantity_text(s, l),
            a: quantity_text(s, a),
            b: quantity_text(s, b),
            alpha: alpha_text(s, alpha),
        },
        ColorSpec::Lch { l, c: chroma, h, alpha } => ColorSpec::Lch {
            l: quantity_text(s, l),
            c: quantity_text(s, chroma),
            h: quantity_text(s, h),
            alpha: alpha_text(s, alpha),
        },
        ColorSpec::Named { color } => ColorSpec::Named { color: *color },
    }
}

/// Reads a color notation (see `notation`): the notation and the text of
/// each of its numbers, or `None` where no notation reads the whole text.
pub fn parse_color(input: &str) -> (r: Option<ColorSpec<String>>)
    ensures
        match r {
            Some(c) => notation(input@) == Some(map_spec(c, string_text())),
            None => notation(input@) is None,
        },
{
    let s = trim_chars(&chars_of(input));
    match scan_notation(&s) {
        Some(c) => Some(spec_text(&s, &c)),
        None => None,
    }
}

proof fn lemma_run_to(s: Seq<char>, i: int, j: int, k: CharClass)
    requires
        0 <= i <= j <= s.len(),
        forall|m: int| i <= m < j ==> in_class(#[trigger] s[m], k),
        j == s.len() || !in_class(s[j], k),
    ensures
        run(s, i, k) == j,
    decreases j - i,
{
    if i < j {
        lemma_run_to(s, i + 1, j, k);
    }
}

/// A byte written in decimal, followed by a character that cannot continue
/// a number, is read as that plain number.
proof fn lemma_decimal_part(t: Seq<char>, a: int, n: int)
    requires
        0 <= n <= 255,
        0 <= a,
        a + crate::text::decimal(n as nat).len() < t.len(),
        t.subrange(a, a + crate::text::decimal(n as nat).len()) == crate::text::decimal(n as nat),
        !is_dec_digit(t[a + crate::text::decimal(n as nat).len()]),
        t[a + crate::text::decimal(n as nat).len()] != '.',
        t[a + crate::text::decimal(n as nat).len()] != 'e',
        t[a + crate::text::decimal(n as nat).len()] != 'E',
    ensures
        part(t, a, Part::Number) == Ok::<(Quantity<Span>, int), Stop>(
            (quantity(a, a + crate::text::decimal(n as nat).len(), Unit::Plain), a
                + crate::text::decimal(n as nat).len()),
        ),
        run(t, a, CharClass::Blank) == a,
{
    let d = crate::text::decimal(n as nat);
    let l = d.len() as int;
    crate::cli::parser::lemma_decimal_byte(n);
    assert forall|m: int| a <= m < a + l implies in_class(#[trigger] t[m], CharClass::Digit) by {
        assert(t[m] == t.subrange(a, a + l)[m - a]);
        assert(is_dec_digit(d[m - a]));
    }
    lemma_run_to(t, a, a + l, CharClass::Digit);
    assert(t[a] == d[0]);
    assert(is_dec_digit(t[a]));
    assert(mantissa_end(t, a) == Some(a + l));
}

/// Formatting a color as hexadecimal text, with or without the `#`, and
/// reading that text back gives the color's channels, with no alpha.
#[verifier::spinoff_prover]
#[verifier::rlimit(40)]
pub proof fn law_hex_notation_round_trip(c: crate::Rgb, leading_hash: bool)
    ensures
        notation(crate::rgb_hex_string(c, leading_hash)) == Some(
            ColorSpec::<Seq<char>>::Hex { red: c.r, green: c.g, blue: c.b, opacity: None },
        ),
{
    let t = crate::rgb_hex_string(c, leading_hash);
    let body = crate::text::hex2(c.r) + crate::text::hex2(c.g) + crate::text::hex2(c.b);
    crate::cli::parser::lemma_hex_digit_char(c.r as int / 16);
    crate::cli::parser::lemma_hex_digit_char(c.r as int % 16);
    crate::cli::parser::lemma_hex_digit_char(c.g as int / 16);
    crate::cli::parser::lemma_hex_digit_char(c.g as int % 16);
    crate::cli::parser::lemma_hex_digit_char(c.b as int / 16);
    crate::cli::parser::lemma_hex_digit_char(c.b as int % 16);
    let j: int = if leading_hash {
        1
    } else {
        0
    };
    assert(t =~= (if leading_hash { seq!['#'] } else { Seq::empty() }) + body);
    assert(t.len() == j + 6);
    assert(!crate::text::is_white_space(t[0]));
    assert(!crate::text::is_white_space(t.last()));
    assert(crate::text::trim_start(t) == t);
    assert(crate::text::trim_end(t) == t);
    assert(trim(t) == t);
    assert forall|m: int| j <= m < j + 6 implies in_class(#[trigger] t[m], CharClass::HexDigit) by {
        assert(t[m] == body[m - j]);
    }
    lemma_run_to(t, j, j + 6, CharClass::HexDigit);
    assert(char_at(t, 0, '#') == leading_hash);
    assert(hex_byte(t, j) == c.r);
    assert(hex_byte(t, j + 2) == c.g);
    assert(hex_byte(t, j + 4) == c.b);
    assert(first_form(t, 0) == Some(
        ColorSpec::<Span>::Hex { red: c.r, green: c.g, blue: c.b, opacity: None },
    ));
}

/// A color and an alpha byte written as eight hexadecimal digits
/// (`#RRGGBBAA`, the `#` optional) read back as the color's channels and
/// the alpha byte as its opacity.
#[verifier::spinoff_prover]
#[verifier::rlimit(40)]
pub proof fn law_hex8_notation_round_trip(c: crate::Rgb, alpha: u8, leading_hash: bool)
    ensures
        notation(
            (if leading_hash { seq!['#'] } else { Seq::empty() }) + crate::text::hex2(c.r)
                + crate::text::hex2(c.g) + crate::text::hex2(c.b) + crate::text::hex2(alpha),
        ) == Some(
            ColorSpec::<Seq<char>>::Hex { red: c.r, green: c.g, blue: c.b, opacity: Some(alpha) },
        ),
{
    let body = crate::text::hex2(c.r) + crate::text::hex2(c.g) + crate::text::hex2(c.b)
        + crate::text::hex2(alpha);
    let t = (if leading_hash { seq!['#'] } else { Seq::empty() }) + crate::text::hex2(c.r)
        + crate::text::hex2(c.g) + crate::text::hex2(c.b) + crate::text::hex2(alpha);
    crate::cli::parser::lemma_hex_digit_char(c.r as int / 16);
    crate::cli::parser::lemma_hex_digit_char(c.r as int % 16);
    crate::cli::parser::lemma_hex_digit_char(c.g as int / 16);
    crate::cli::parser::lemma_hex_digit_char(c.g as int % 16);
    crate::cli::parser::lemma_hex_digit_char(c.b as int / 16);
    crate::cli::parser::lemma_hex_digit_char(c.b as int % 16);
    crate::cli::parser::lemma_hex_digit_char(alpha as int / 16);
    crate::cli::parser::lemma_hex_digit_char(alpha as int % 16);
    let j: int = if leading_hash {
        1
    } else {
        0
    };
    assert(t =~= (if leading_hash { seq!['#'] } else { Seq::empty() }) + body);
    assert(t.len() == j + 8);
    assert(!crate::text::is_white_space(t[0]));
    assert(!crate::text::is_white_space(t.last()));
    assert(crate::text::trim_start(t) == t);
    assert(crate::text::trim_end(t) == t);
    assert(trim(t) == t);
    assert forall|m: int| j <= m < j + 8 implies in_class(#[trigger] t[m], CharClass::HexDigit) by {
        assert(t[m] == body[m - j]);
    }
    lemma_run_to(t, j, j + 8, CharClass::HexDigit);
    assert(char_at(t, 0, '#') == leading_hash);
    assert(hex_byte(t, j) == c.r);
    assert(hex_byte(t, j + 2) == c.g);
    assert(hex_byte(t, j + 4) == c.b);
    assert(hex_byte(t, j + 6) == alpha);
    assert(first_form(t, 0) == Some(
        ColorSpec::<Span>::Hex { red: c.r, green: c.g, blue: c.b, opacity: Some(alpha) },
    ));
}

/// Three hexadecimal digits (`#RGB`, the `#` optional) stand for the bytes
/// `RR`, `GG` and `BB`, with no alpha.
#[verifier::spinoff_prover]
#[verifier::rlimit(40)]
pub proof fn law_hex3_notation(r: int, g: int, b: int, leading_hash: bool)
    requires
        0 <= r < 16,
        0 <= g < 16,
        0 <= b < 16,
    ensures
        notation((if leading_hash { seq!['#'] } else { Seq::empty() }) + seq![crate::text::digit_char(r)] + seq![crate::text::digit_char(g)] + seq![crate::text::digit_char(b)]) == Some(
            ColorSpec::<Seq<char>>::Hex {
                red: (17 * r) as u8,
                green: (17 * g) as u8,
                blue: (17 * b) as u8,
                opacity: None,
            },
        ),
{
    let body = seq![crate::text::digit_char(r)] + seq![crate::text::digit_char(g)] + seq![crate::text::digit_char(b)];
    let t = (if leading_hash { seq!['#'] } else { Seq::empty() }) + seq![crate::text::digit_char(r)] + seq![crate::text::digit_char(g)] + seq![crate::text::digit_char(b)];
    crate::cli::parser::lemma_hex_digit_char(r);
    crate::cli::parser::lemma_hex_digit_char(g);
    crate::cli::parser::lemma_hex_digit_char(b);
    let j: int = if leading_hash {
        1
    } else {
        0
    };
    assert(t =~= (if leading_hash { seq!['#'] } else { Seq::empty() }) + body);
    assert(t.len() == j + 3);
    assert(!crate::text::is_white_space(t[0]));
    assert(!crate::text::is_white_space(t.last()));
    assert(crate::text::trim_start(t) == t);
    assert(crate::text::trim_end(t) == t);
    assert(trim(t) == t);
    assert forall|m: int| j <= m < j + 3 implies in_class(#[trigger] t[m], CharClass::HexDigit) by {
        assert(t[m] == body[m - j]);
    }
    lemma_run_to(t, j, j + 3, CharClass::HexDigit);
    assert(char_at(t, 0, '#') == leading_hash);
    assert(hex_short(t, j + 0) == (17 * r) as u8);
    assert(hex_short(t, j + 1) == (17 * g) as u8);
    assert(hex_short(t, j + 2) == (17 * b) as u8);
    assert(first_form(t, 0) == Some(
        ColorSpec::<Span>::Hex {
            red: (17 * r) as u8,
            green: (17 * g) as u8,
            blue: (17 * b) as u8,
            opacity: None,
        },
    ));
}

/// Four hexadecimal digits (`#RGBA`, the `#` optional) stand for the bytes
/// `RR`, `GG`, `BB` and the opacity `AA`.
#[verifier::spinoff_prover]
#[verifier::rlimit(40)]
pub proof fn law_hex4_notation(r: int, g: int, b: int, a: int, leading_hash: bool)
    requires
        0 <= r < 16,
        0 <= g < 16,
        0 <= b < 16,
        0 <= a < 16,
    ensures
        notation((if leading_hash { seq!['#'] } else { Seq::empty() }) + seq![crate::text::digit_char(r)] + seq![crate::text::digit_char(g)] + seq![crate::text::digit_char(b)] + seq![crate::text::digit_char(a)]) == Some(
            ColorSpec::<Seq<char>>::Hex {
                red: (17 * r) as u8,
                green: (17 * g) as u8,
                blue: (17 * b) as u8,
                opacity: Some((17 * a) as u8),
            },
        ),
{
    let body = seq![crate::text::digit_char(r)] + seq![crate::text::digit_char(g)] + seq![crate::text::digit_char(b)] + seq![crate::text::digit_char(a)];
    let t = (if leading_hash { seq!['#'] } else { Seq::empty() }) + seq![crate::text::digit_char(r)] + seq![crate::text::digit_char(g)] + seq![crate::text::digit_char(b)] + seq![crate::text::digit_char(a)];
    crate::cli::parser::lemma_hex_digit_char(r);
    crate::cli::parser::lemma_hex_digit_char(g);
    crate::cli::parser::lemma_hex_digit_char(b);
    crate::cli::parser::lemma_hex_digit_char(a);
    let j: int = if leading_hash {
        1
    } else {
        0
    };
    assert(t =~= (if leading_hash { seq!['#'] } else { Seq::empty() }) + body);
    assert(t.len() == j + 4);
    assert(!crate::text::is_white_space(t[0]));
    assert(!crate::text::is_white_space(t.last()));
    assert(crate::text::trim_start(t) == t);
    assert(crate::text::trim_end(t) == t);
    assert(trim(t) == t);
    assert forall|m: int| j <= m < j + 4 implies in_class(#[trigger] t[m], CharClass::HexDigit) by {
        assert(t[m] == body[m - j]);
    }
    lemma_run_to(t, j, j + 4, CharClass::HexDigit);
    assert(char_at(t, 0, '#') == leading_hash);
    assert(hex_short(t, j + 0) == (17 * r) as u8);
    assert(hex_short(t, j + 1) == (17 * g) as u8);
    assert(hex_short(t, j + 2) == (17 * b) as u8);
    assert(hex_short(t, j + 3) == (17 * a) as u8);
    assert(first_form(t, 0) == Some(
        ColorSpec::<Span>::Hex {
            red: (17 * r) as u8,
            green: (17 * g) as u8,
            blue: (17 * b) as u8,
            opacity: Some((17 * a) as u8),
        },
    ));
}

/// Formatting a color as `rgb(R, G, B)` or `rgb(R,G,B)` and reading that
/// text back gives the three channels as plain numbers written in decimal,
/// with no alpha.
#[verifier::spinoff_prover]
#[verifier::rlimit(80)]
pub proof fn law_rgb_notation_round_trip(c: crate::Rgb, format: crate::Format)
    ensures
        notation(crate::rgb_string(c, format)) == Some(
            ColorSpec::<Seq<char>>::Rgb {
                r: Quantity { number: crate::text::decimal(c.r as nat), unit: Unit::Plain },
                g: Quantity { number: crate::text::decimal(c.g as nat), unit: Unit::Plain },
                b: Quantity { number: crate::text::decimal(c.b as nat), unit: Unit::Plain },
                alpha: None,
            },
        ),
{
    let t = crate::rgb_string(c, format);
    let dr = crate::text::decimal(c.r as nat);
    let dg = crate::text::decimal(c.g as nat);
    let db = crate::text::decimal(c.b as nat);
    let sp = crate::format_space(format);
    crate::cli::parser::lemma_decimal_byte(c.r as int);
    crate::cli::parser::lemma_decimal_byte(c.g as int);
    crate::cli::parser::lemma_decimal_byte(c.b as int);
    let lr = dr.len() as int;
    let lg = dg.len() as int;
    let lb = db.len() as int;
    let s = sp.len() as int;
    assert(s == 0 || (s == 1 && sp[0] == ' '));
    let head = seq!['r', 'g', 'b', '('];
    assert(t =~= head + dr + seq![','] + sp + dg + seq![','] + sp + db + seq![')']);
    let a2 = 5 + lr + s;
    let a3 = a2 + lg + 1 + s;
    assert(t.len() == a3 + lb + 1);
    assert(t.subrange(0, 4) =~= head);
    assert(t.subrange(4, 4 + lr) =~= dr);
    assert(t.subrange(a2, a2 + lg) =~= dg);
    assert(t.subrange(a3, a3 + lb) =~= db);
    assert(t[4 + lr] == ',');
    assert(t[a2 + lg] == ',');
    assert(t[a3 + lb] == ')');
    assert(t[0] == 'r');
    // trimming changes nothing
    assert(crate::text::trim_start(t) == t);
    assert(crate::text::trim_end(t) == t);
    assert(trim(t) == t);
    // not hexadecimal
    lemma_run_to(t, 0, 0, CharClass::HexDigit);
    assert(form(t, 0) == Err::<(ColorSpec<Span>, int), Stop>(Stop::Error));
    // the three channels
    lemma_decimal_part(t, 4, c.r as int);
    lemma_decimal_part(t, a2, c.g as int);
    lemma_decimal_part(t, a3, c.b as int);
    assert forall|m: int| 5 + lr <= m < a2 implies in_class(#[trigger] t[m], CharClass::Blank) by {}
    lemma_run_to(t, 5 + lr, a2, CharClass::Blank);
    lemma_run_to(t, 4 + lr, 4 + lr, CharClass::Blank);
    assert(separator(t, 4 + lr) == Some(a2));
    assert forall|m: int| a2 + lg + 1 <= m < a3 implies in_class(#[trigger] t[m], CharClass::Blank) by {}
    lemma_run_to(t, a2 + lg + 1, a3, CharClass::Blank);
    lemma_run_to(t, a2 + lg, a2 + lg, CharClass::Blank);
    assert(separator(t, a2 + lg) == Some(a3));
    lemma_run_to(t, a3 + lb, a3 + lb, CharClass::Blank);
    assert(separator(t, a3 + lb) is None);
    assert(text_at(t, 0, seq!['r', 'g', 'b', '(']));
    let b = Body {
        first: quantity(4, 4 + lr, Unit::Plain),
        second: quantity(a2, a2 + lg, Unit::Plain),
        third: quantity(a3, a3 + lb, Unit::Plain),
        alpha: None,
    };
    assert(body(t, 4, (Part::Number, Part::Number, Part::Number), true) == Ok::<(Body, int), Stop>(
        (b, t.len() as int),
    ));
    assert(first_form(t, 1) == Some(
        ColorSpec::Rgb { r: b.first, g: b.second, b: b.third, alpha: b.alpha },
    ));
}

/// Leading and trailing white space never changes how a text is read.
pub proof fn law_notation_ignores_surrounding_white_space(t: Seq<char>)
    ensures
        notation(trim(t)) == notation(t),
{
    crate::text::lemma_trim_idempotent(t);
}

/// Whether a text is a nonempty run of decimal digits.
pub open spec fn all_digits(d: Seq<char>) -> bool {
    d.len() > 0 && forall|k: int| 0 <= k < d.len() ==> #[trigger] is_dec_digit(d[k])
}

/// Digits at `a`, followed by a character that is neither a digit nor `.`,
/// `e` or `E`, are a number ending there.
proof fn lemma_integer_number(t: Seq<char>, a: int, d: Seq<char>)
    requires
        all_digits(d),
        0 <= a,
        a + d.len() < t.len(),
        t.subrange(a, a + d.len()) == d,
        !is_dec_digit(t[a + d.len()]),
        t[a + d.len()] != '.',
        t[a + d.len()] != 'e',
        t[a + d.len()] != 'E',
    ensures
        number_end(t, a) == Ok::<int, Stop>(a + d.len()),
        run(t, a, CharClass::Blank) == a,
{
    let l = d.len() as int;
    assert forall|m: int| a <= m < a + l implies in_class(#[trigger] t[m], CharClass::Digit) by {
        assert(t[m] == t.subrange(a, a + l)[m - a]);
    }
    lemma_run_to(t, a, a + l, CharClass::Digit);
    assert(t[a] == d[0]);
    assert(mantissa_end(t, a) == Some(a + l));
}

/// Digits, `.` and one more digit at `a`, followed by `%`, are a number
/// ending before the `%`.
proof fn lemma_fraction_number(t: Seq<char>, a: int, d: Seq<char>, f: char)
    requires
        all_digits(d),
        is_dec_digit(f),
        0 <= a,
        a + d.len() + 2 < t.len(),
        t.subrange(a, a + d.len()) == d,
        t[a + d.len()] == '.',
        t[a + d.len() + 1] == f,
        t[a + d.len() + 2] == '%',
    ensures
        number_end(t, a) == Ok::<int, Stop>(a + d.len() + 2),
        run(t, a, CharClass::Blank) == a,
{
    let l = d.len() as int;
    assert forall|m: int| a <= m < a + l implies in_class(#[trigger] t[m], CharClass::Digit) by {
        assert(t[m] == t.subrange(a, a + l)[m - a]);
    }
    lemma_run_to(t, a, a + l, CharClass::Digit);
    assert forall|m: int| a + l + 1 <= m < a + l + 2 implies in_class(
        #[trigger] t[m],
        CharClass::Digit,
    ) by {}
    lemma_run_to(t, a + l + 1, a + l + 2, CharClass::Digit);
    assert(t[a] == d[0]);
    assert(mantissa_end(t, a) == Some(a + l + 2));
}

/// The text `hsl(H,{space}S.s%,{space}L.l%)` that the tool prints for a
/// color when its output is not a terminal.
#[verifier::opaque]
pub open spec fn hsl_text(
    h: Seq<char>,
    s: Seq<char>,
    s_tenth: char,
    l: Seq<char>,
    l_tenth: char,
    format: crate::Format,
) -> Seq<char> {
    let sp = crate::format_space(format);
    seq!['h', 's', 'l', '('] + h + seq![','] + sp + s + seq!['.', s_tenth, '%', ','] + sp + l
        + seq!['.', l_tenth, '%', ')']
}

/// Where the parts of an `hsl_text` stand.
proof fn lemma_hsl_text_layout(
    h: Seq<char>,
    s: Seq<char>,
    s_tenth: char,
    l: Seq<char>,
    l_tenth: char,
    format: crate::Format,
)
    ensures
        ({
            let t = hsl_text(h, s, s_tenth, l, l_tenth, format);
            let n = crate::format_space(format).len() as int;
            let lh = h.len() as int;
            let ls = s.len() as int;
            let ll = l.len() as int;
            let a2 = 5 + lh + n;
            let a3 = a2 + ls + 4 + n;
            &&& n == 0 || n == 1
            &&& t.len() == a3 + ll + 4
            &&& t.subrange(4, 4 + lh) == h
            &&& t.subrange(a2, a2 + ls) == s
            &&& t.subrange(a3, a3 + ll) == l
            &&& t.subrange(a2, a2 + ls + 2) == s + seq!['.', s_tenth]
            &&& t.subrange(a3, a3 + ll + 2) == l + seq!['.', l_tenth]
            &&& t[0] == 'h' && t[1] == 's' && t[2] == 'l' && t[3] == '('
            &&& t[4 + lh] == ','
            &&& forall|m: int| 5 + lh <= m < a2 ==> #[trigger] t[m] == ' '
            &&& t[a2 + ls] == '.' && t[a2 + ls + 1] == s_tenth
            &&& t[a2 + ls + 2] == '%' && t[a2 + ls + 3] == ','
            &&& forall|m: int| a2 + ls + 4 <= m < a3 ==> #[trigger] t[m] == ' '
            &&& t[a3 + ll] == '.' && t[a3 + ll + 1] == l_tenth
            &&& t[a3 + ll + 2] == '%' && t[a3 + ll + 3] == ')'
        }),
{
    reveal(hsl_text);
    let t = hsl_text(h, s, s_tenth, l, l_tenth, format);
    let sp = crate::format_space(format);
    let n = sp.len() as int;
    assert(n == 0 || (n == 1 && sp[0] == ' '));
    let lh = h.len() as int;
    let ls = s.len() as int;
    let ll = l.len() as int;
    let a2 = 5 + lh + n;
    let a3 = a2 + ls + 4 + n;
    let p1 = seq!['h', 's', 'l', '('] + h + seq![','] + sp;
    let p2 = p1 + s + seq!['.', s_tenth, '%', ','] + sp;
    assert(t =~= p2 + l + seq!['.', l_tenth, '%', ')']);
    assert(p1.len() == a2);
    assert(p2.len() == a3);
    assert(t.subrange(4, 4 + lh) =~= h);
    assert(t.subrange(a2, a2 + ls) =~= s);
    assert(t.subrange(a3, a3 + ll) =~= l);
    assert(t.subrange(a2, a2 + ls + 2) =~= s + seq!['.', s_tenth]);
    assert(t.subrange(a3, a3 + ll + 2) =~= l + seq!['.', l_tenth]);
}

/// A text that starts with `h` is neither hexadecimal nor an `rgb` triple.
proof fn lemma_not_rgb_forms(t: Seq<char>)
    requires
        t.len() >= 4,
        t[0] == 'h',
    ensures
        form(t, 0) == Err::<(ColorSpec<Span>, int), Stop>(Stop::Error),
        form(t, 1) == Err::<(ColorSpec<Span>, int), Stop>(Stop::Error),
        form(t, 2) == Err::<(ColorSpec<Span>, int), Stop>(Stop::Error),
{
    lemma_run_to(t, 0, 0, CharClass::HexDigit);
    lemma_run_to(t, 0, 0, CharClass::Blank);
    assert(!text_at(t, 0, seq!['r', 'g', 'b', '('])) by {
        assert(t.subrange(0, 4)[0] == 'h');
    }
    assert(!text_at(t, 0, seq!['r', 'g', 'b', 'a', '('])) by {
        if t.len() >= 5 {
            assert(t.subrange(0, 5)[0] == 'h');
        }
    }
    assert(!text_at_no_case(t, 0, seq!['n', 'a', 'n'])) by {
        assert(t.subrange(0, 3)[0] == 'h');
    }
    assert(!text_at_no_case(t, 0, seq!['i', 'n', 'f'])) by {
        assert(t.subrange(0, 3)[0] == 'h');
    }
    assert(number_end(t, 0) == Err::<int, Stop>(Stop::Error));
}

/// The text that the tool prints for a color outside a terminal,
/// `hsl(H,S.s%,L.l%)` (or with a space after each comma), reads back as an
/// `hsl` notation with those numbers: the output of one command is the
/// input of the next.
#[verifier::rlimit(80)]
#[verifier::spinoff_prover]
pub proof fn law_hsl_output_reads_back(
    h: Seq<char>,
    s: Seq<char>,
    s_tenth: char,
    l: Seq<char>,
    l_tenth: char,
    format: crate::Format,
)
    requires
        all_digits(h),
        all_digits(s),
        all_digits(l),
        is_dec_digit(s_tenth),
        is_dec_digit(l_tenth),
        h.len() + s.len() + l.len() + 16 <= usize::MAX,
    ensures
        notation(hsl_text(h, s, s_tenth, l, l_tenth, format)) == Some(
            ColorSpec::<Seq<char>>::Hsl {
                h: Quantity { number: h, unit: Unit::Degrees },
                s: Quantity { number: s + seq!['.', s_tenth], unit: Unit::Percent },
                l: Quantity { number: l + seq!['.', l_tenth], unit: Unit::Percent },
                alpha: None,
            },
        ),
{
    let t = hsl_text(h, s, s_tenth, l, l_tenth, format);
    lemma_hsl_text_layout(h, s, s_tenth, l, l_tenth, format);
    let n = crate::format_space(format).len() as int;
    let lh = h.len() as int;
    let ls = s.len() as int;
    let ll = l.len() as int;
    let a2 = 5 + lh + n;
    let a3 = a2 + ls + 4 + n;
    // trimming changes nothing
    assert(crate::text::trim_start(t) == t);
    assert(t.last() == ')');
    assert(crate::text::trim_end(t) == t);
    assert(trim(t) == t);
    lemma_not_rgb_forms(t);
    // the three components
    lemma_integer_number(t, 4, h);
    lemma_fraction_number(t, a2, s, s_tenth);
    lemma_fraction_number(t, a3, l, l_tenth);
    assert(angle(t, 4) == Ok::<(Quantity<Span>, int), Stop>(
        (quantity(4, 4 + lh, Unit::Degrees), 4 + lh),
    ));
    assert forall|m: int| 5 + lh <= m < a2 implies in_class(#[trigger] t[m], CharClass::Blank) by {}
    lemma_run_to(t, 5 + lh, a2, CharClass::Blank);
    lemma_run_to(t, 4 + lh, 4 + lh, CharClass::Blank);
    assert forall|m: int| a2 + ls + 4 <= m < a3 implies in_class(
        #[trigger] t[m],
        CharClass::Blank,
    ) by {}
    lemma_run_to(t, a2 + ls + 4, a3, CharClass::Blank);
    lemma_run_to(t, a2 + ls + 3, a2 + ls + 3, CharClass::Blank);
    lemma_run_to(t, a3 + ll + 3, a3 + ll + 3, CharClass::Blank);
    assert(text_at(t, 0, seq!['h', 's', 'l', '('])) by {
        assert(t.subrange(0, 4) =~= seq!['h', 's', 'l', '(']);
    }
    let b = Body {
        first: quantity(4, 4 + lh, Unit::Degrees),
        second: quantity(a2, a2 + ls + 2, Unit::Percent),
        third: quantity(a3, a3 + ll + 2, Unit::Percent),
        alpha: None,
    };
    assert(body(t, 4, (Part::Angle, Part::Percentage, Part::Percentage), true) == Ok::<
        (Body, int),
        Stop,
    >((b, t.len() as int)));
    let c = ColorSpec::Hsl { h: b.first, s: b.second, l: b.third, alpha: b.alpha };
    assert(first_form(t, 3) == Some(c));
    assert(first_form(t, 2) == Some(c));
    assert(first_form(t, 1) == Some(c));
    assert(first_form(t, 0) == Some(c));
    assert(span_text(t)(b.first.number) == h);
    assert(span_text(t)(b.second.number) == s + seq!['.', s_tenth]);
    assert(span_text(t)(b.third.number) == l + seq!['.', l_tenth]);
}

} // verus!

