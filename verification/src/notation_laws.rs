//! Laws of the notation reader that hold over all texts: a function name
//! spelled with the `a` of alpha (`rgba(`, `hsla(`, `hsva(`) reads the same
//! body as the name without it.
use vstd::prelude::*;

use crate::parser::{
    char_at, digit_at, first_form, form, forms, lemma_run_bounds, map_spec, mantissa_end,
    number_end, run, sign_at, text_at, text_at_no_case, in_class, Body, CharClass, ColorSpec,
    Quantity, Span, Stop, separator, ratio, angle, part, alpha, body, quantity, Part, Unit,
    hex_form, rgb_form, hue_form, gray_form, lab_form, lch_form, name_form,
};
use crate::parser::{map_alpha, map_quantity, notation, span_text};
use crate::text::{ascii_fold, eq_ignore_ascii_case, is_white_space, trim, trim_end, trim_start};
verus! {

/// `u` holds the characters of `s` from position `a` on, `d` places later:
/// `u` is `s` with `d` more characters somewhere before `a`.
pub open spec fn shifted(s: Seq<char>, u: Seq<char>, a: int, d: int) -> bool {
    &&& 0 <= a
    &&& 0 <= d
    &&& u.len() == s.len() + d
    &&& u.len() <= usize::MAX
    &&& forall|k: int| a <= k < s.len() ==> #[trigger] s[k] == u[k + d]
}

pub open spec fn shift_span(sp: Span, d: int) -> Span {
    Span { start: (sp.start + d) as usize, end: (sp.end + d) as usize }
}

pub open spec fn shift_quantity(q: Quantity<Span>, d: int) -> Quantity<Span> {
    Quantity { number: shift_span(q.number, d), unit: q.unit }
}

pub open spec fn shift_alpha(a: Option<Quantity<Span>>, d: int) -> Option<Quantity<Span>> {
    match a {
        Some(q) => Some(shift_quantity(q, d)),
        None => None,
    }
}

pub open spec fn shift_body(b: Body, d: int) -> Body {
    Body {
        first: shift_quantity(b.first, d),
        second: shift_quantity(b.second, d),
        third: shift_quantity(b.third, d),
        alpha: shift_alpha(b.alpha, d),
    }
}

/// A notation with each of its spans moved `d` places on.
pub open spec fn shift_spec(c: ColorSpec<Span>, d: int) -> ColorSpec<Span> {
    map_spec(c, |sp: Span| shift_span(sp, d))
}

/// The result of a notation's reader with its spans and end moved `d`
/// places on.
pub open spec fn shift_form(r: Result<(ColorSpec<Span>, int), Stop>, d: int) -> Result<
    (ColorSpec<Span>, int),
    Stop,
> {
    match r {
        Ok((c, e)) => Ok((shift_spec(c, d), e + d)),
        Err(x) => Err(x),
    }
}

pub open spec fn quantity_in(q: Quantity<Span>, lo: int, hi: int) -> bool {
    lo <= q.number.start <= q.number.end <= hi
}

pub open spec fn alpha_in(a: Option<Quantity<Span>>, lo: int, hi: int) -> bool {
    match a {
        Some(q) => quantity_in(q, lo, hi),
        None => true,
    }
}

pub open spec fn body_in(b: Body, lo: int, hi: int) -> bool {
    quantity_in(b.first, lo, hi) && quantity_in(b.second, lo, hi) && quantity_in(b.third, lo, hi)
        && alpha_in(b.alpha, lo, hi)
}

/// Every span of a notation lies within `[lo, hi]`.
pub open spec fn spec_in(c: ColorSpec<Span>, lo: int, hi: int) -> bool {
    match c {
        ColorSpec::Hex { .. } => true,
        ColorSpec::Rgb { r, g, b, alpha } => quantity_in(r, lo, hi) && quantity_in(g, lo, hi)
            && quantity_in(b, lo, hi) && alpha_in(alpha, lo, hi),
        ColorSpec::Hsl { h, s, l, alpha } => quantity_in(h, lo, hi) && quantity_in(s, lo, hi)
            && quantity_in(l, lo, hi) && alpha_in(alpha, lo, hi),
        ColorSpec::Hsv { h, s, v, alpha } => quantity_in(h, lo, hi) && quantity_in(s, lo, hi)
            && quantity_in(v, lo, hi) && alpha_in(alpha, lo, hi),
        ColorSpec::Gray { l } => quantity_in(l, lo, hi),
        ColorSpec::Lab { l, a, b, alpha } => quantity_in(l, lo, hi) && quantity_in(a, lo, hi)
            && quantity_in(b, lo, hi) && alpha_in(alpha, lo, hi),
        ColorSpec::Oklab { l, a, b, alpha } => quantity_in(l, lo, hi) && quantity_in(a, lo, hi)
            && quantity_in(b, lo, hi) && alpha_in(alpha, lo, hi),
        ColorSpec::Lch { l, c, h, alpha } => quantity_in(l, lo, hi) && quantity_in(c, lo, hi)
            && quantity_in(h, lo, hi) && alpha_in(alpha, lo, hi),
        ColorSpec::Named { .. } => true,
    }
}

#[verifier::spinoff_prover]
proof fn lemma_shift_run(s: Seq<char>, u: Seq<char>, a: int, d: int, i: int, k: CharClass)
    requires
        shifted(s, u, a, d),
        a <= i,
    ensures
        run(u, i + d, k) == run(s, i, k) + d,
    decreases s.len() - i,
{
    if i < s.len() {
        assert(s[i] == u[i + d]);
        if in_class(s[i], k) {
            lemma_shift_run(s, u, a, d, i + 1, k);
        }
    }
}

#[verifier::spinoff_prover]
proof fn lemma_shift_char(s: Seq<char>, u: Seq<char>, a: int, d: int, i: int)
    requires
        shifted(s, u, a, d),
        a <= i,
    ensures
        forall|c: char| #[trigger] char_at(u, i + d, c) == char_at(s, i, c),
        digit_at(u, i + d) == digit_at(s, i),
        sign_at(u, i + d) == sign_at(s, i),
{
    if i < s.len() {
        assert(s[i] == u[i + d]);
    }
}

#[verifier::spinoff_prover]
proof fn lemma_shift_text(s: Seq<char>, u: Seq<char>, a: int, d: int, i: int, t: Seq<char>)
    requires
        shifted(s, u, a, d),
        a <= i,
    ensures
        text_at(u, i + d, t) == text_at(s, i, t),
        text_at_no_case(u, i + d, t) == text_at_no_case(s, i, t),
{
    if i + t.len() <= s.len() {
        assert forall|m: int| 0 <= m < t.len() implies #[trigger] u.subrange(i + d, i + d + t.len())[m]
            == s.subrange(i, i + t.len())[m] by {
            assert(s[i + m] == u[i + m + d]);
        }
        assert(u.subrange(i + d, i + d + t.len()) =~= s.subrange(i, i + t.len()));
    }
}

#[verifier::spinoff_prover]
proof fn lemma_shift_mantissa(s: Seq<char>, u: Seq<char>, a: int, d: int, j: int)
    requires
        shifted(s, u, a, d),
        a <= j <= s.len(),
    ensures
        mantissa_end(u, j + d) == match mantissa_end(s, j) {
            Some(k) => Some(k + d),
            None => None::<int>,
        },
        mantissa_end(s, j) matches Some(k) ==> j <= k <= s.len(),
{
    lemma_shift_char(s, u, a, d, j);
    lemma_shift_char(s, u, a, d, j + 1);
    lemma_shift_run(s, u, a, d, j, CharClass::Digit);
    lemma_run_bounds(s, j, CharClass::Digit);
    let k = run(s, j, CharClass::Digit);
    lemma_shift_char(s, u, a, d, k);
    if char_at(s, k, '.') {
        lemma_shift_run(s, u, a, d, k + 1, CharClass::Digit);
        lemma_run_bounds(s, k + 1, CharClass::Digit);
    }
    if char_at(s, j, '.') && digit_at(s, j + 1) {
        lemma_shift_run(s, u, a, d, j + 1, CharClass::Digit);
        lemma_run_bounds(s, j + 1, CharClass::Digit);
    }
}

#[verifier::spinoff_prover]
proof fn lemma_shift_number(s: Seq<char>, u: Seq<char>, a: int, d: int, i: int)
    requires
        shifted(s, u, a, d),
        a <= i <= s.len(),
    ensures
        number_end(u, i + d) == match number_end(s, i) {
            Ok(e) => Ok(e + d),
            Err(x) => Err::<int, Stop>(x),
        },
        number_end(s, i) matches Ok(e) ==> i <= e <= s.len(),
{
    lemma_shift_char(s, u, a, d, i);
    let j = if sign_at(s, i) {
        i + 1
    } else {
        i
    };
    lemma_shift_mantissa(s, u, a, d, j);
    lemma_shift_text(s, u, a, d, i, seq!['n', 'a', 'n']);
    lemma_shift_text(s, u, a, d, i, seq!['i', 'n', 'f']);
    match mantissa_end(s, j) {
        Some(k) => {
            lemma_shift_char(s, u, a, d, k);
            lemma_shift_char(s, u, a, d, k + 1);
            let m = if sign_at(s, k + 1) {
                k + 2
            } else {
                k + 1
            };
            lemma_shift_char(s, u, a, d, m);
            if digit_at(s, m) {
                lemma_shift_run(s, u, a, d, m, CharClass::Digit);
                lemma_run_bounds(s, m, CharClass::Digit);
            }
        },
        None => {},
    }
}

#[verifier::spinoff_prover]
proof fn lemma_shift_separator(s: Seq<char>, u: Seq<char>, a: int, d: int, i: int)
    requires
        shifted(s, u, a, d),
        a <= i <= s.len(),
    ensures
        separator(u, i + d) == match separator(s, i) {
            Some(j) => Some(j + d),
            None => None::<int>,
        },
        separator(s, i) matches Some(j) ==> i <= j <= s.len(),
{
    lemma_shift_run(s, u, a, d, i, CharClass::Blank);
    lemma_run_bounds(s, i, CharClass::Blank);
    let j = run(s, i, CharClass::Blank);
    lemma_shift_char(s, u, a, d, j);
    if char_at(s, j, ',') {
        lemma_shift_run(s, u, a, d, j + 1, CharClass::Blank);
        lemma_run_bounds(s, j + 1, CharClass::Blank);
    }
}

#[verifier::spinoff_prover]
proof fn lemma_shift_quantity(i: int, e: int, unit: Unit, d: int)
    requires
        0 <= i <= e,
        0 <= d,
        e + d <= usize::MAX,
    ensures
        quantity(i + d, e + d, unit) == shift_quantity(quantity(i, e, unit), d),
        quantity_in(quantity(i, e, unit), i, e),
{
}

#[verifier::spinoff_prover]
proof fn lemma_shift_part(s: Seq<char>, u: Seq<char>, a: int, d: int, i: int, k: Part)
    requires
        shifted(s, u, a, d),
        a <= i <= s.len(),
    ensures
        match part(s, i, k) {
            Ok((q, e)) => part(u, i + d, k) == Ok::<(Quantity<Span>, int), Stop>(
                (shift_quantity(q, d), e + d),
            ) && quantity_in(q, i, e) && e <= s.len(),
            Err(x) => part(u, i + d, k) == Err::<(Quantity<Span>, int), Stop>(x),
        },
        match ratio(s, i) {
            Ok((q, e)) => ratio(u, i + d) == Ok::<(Quantity<Span>, int), Stop>(
                (shift_quantity(q, d), e + d),
            ) && quantity_in(q, i, e) && e <= s.len(),
            Err(x) => ratio(u, i + d) == Err::<(Quantity<Span>, int), Stop>(x),
        },
{
    lemma_shift_number(s, u, a, d, i);
    match number_end(s, i) {
        Ok(e) => {
            lemma_shift_char(s, u, a, d, e);
            lemma_shift_text(s, u, a, d, e, seq!['t', 'u', 'r', 'n']);
            lemma_shift_text(s, u, a, d, e, seq!['g', 'r', 'a', 'd']);
            lemma_shift_text(s, u, a, d, e, seq!['r', 'a', 'd']);
            lemma_shift_text(s, u, a, d, e, seq!['d', 'e', 'g']);
            lemma_shift_quantity(i, e, Unit::Plain, d);
            lemma_shift_quantity(i, e, Unit::Percent, d);
            lemma_shift_quantity(i, e, Unit::Degrees, d);
            lemma_shift_quantity(i, e, Unit::Radians, d);
            lemma_shift_quantity(i, e, Unit::Gradians, d);
            lemma_shift_quantity(i, e, Unit::Turns, d);
        },
        Err(_) => {},
    }
}

#[verifier::spinoff_prover]
proof fn lemma_shift_alpha(s: Seq<char>, u: Seq<char>, a: int, d: int, i: int)
    requires
        shifted(s, u, a, d),
        a <= i <= s.len(),
    ensures
        match alpha(s, i) {
            Ok((q, e)) => alpha(u, i + d) == Ok::<(Option<Quantity<Span>>, int), Stop>(
                (shift_alpha(q, d), e + d),
            ) && alpha_in(q, i, e) && i <= e <= s.len(),
            Err(x) => alpha(u, i + d) == Err::<(Option<Quantity<Span>>, int), Stop>(x),
        },
{
    lemma_shift_separator(s, u, a, d, i);
    match separator(s, i) {
        Some(j) => {
            lemma_shift_part(s, u, a, d, j, Part::Number);
        },
        None => {},
    }
}

#[verifier::spinoff_prover]
#[verifier::rlimit(100)]
proof fn lemma_shift_body(
    s: Seq<char>,
    u: Seq<char>,
    a: int,
    d: int,
    i: int,
    kinds: (Part, Part, Part),
    close: bool,
)
    requires
        shifted(s, u, a, d),
        a <= i <= s.len(),
    ensures
        match body(s, i, kinds, close) {
            Ok((b, e)) => body(u, i + d, kinds, close) == Ok::<(Body, int), Stop>(
                (shift_body(b, d), e + d),
            ) && body_in(b, i, s.len() as int) && e <= s.len(),
            Err(x) => body(u, i + d, kinds, close) == Err::<(Body, int), Stop>(x),
        },
{
    lemma_shift_run(s, u, a, d, i, CharClass::Blank);
    lemma_run_bounds(s, i, CharClass::Blank);
    let i1 = run(s, i, CharClass::Blank);
    lemma_shift_part(s, u, a, d, i1, kinds.0);
    if let Ok((first, e1)) = part(s, i1, kinds.0) {
        lemma_shift_separator(s, u, a, d, e1);
        if let Some(i2) = separator(s, e1) {
            lemma_shift_part(s, u, a, d, i2, kinds.1);
            if let Ok((second, e2)) = part(s, i2, kinds.1) {
                lemma_shift_separator(s, u, a, d, e2);
                if let Some(i3) = separator(s, e2) {
                    lemma_shift_part(s, u, a, d, i3, kinds.2);
                    if let Ok((third, e3)) = part(s, i3, kinds.2) {
                        lemma_shift_alpha(s, u, a, d, e3);
                        if let Ok((al, e4)) = alpha(s, e3) {
                            lemma_shift_run(s, u, a, d, e4, CharClass::Blank);
                            lemma_run_bounds(s, e4, CharClass::Blank);
                            let e5 = run(s, e4, CharClass::Blank);
                            lemma_shift_char(s, u, a, d, e5);
                        }
                    }
                }
            }
        }
    }
}

#[verifier::spinoff_prover]
proof fn lemma_run_stops(s: Seq<char>, i: int, k: CharClass, q: int)
    requires
        0 <= i <= q < s.len(),
        !in_class(s[q], k),
    ensures
        run(s, i, k) <= q,
    decreases q - i,
{
    if i < q && in_class(s[i], k) {
        lemma_run_stops(s, i + 1, k, q);
    }
}

/// A text does not hold `t` at its start where their first characters
/// differ, in any case.
#[verifier::spinoff_prover]
proof fn lemma_not_at_start(x: Seq<char>, t: Seq<char>)
    requires
        x.len() > 0,
        t.len() > 0,
        ascii_fold(x[0]) != ascii_fold(t[0]),
    ensures
        !text_at(x, 0, t),
        !text_at_no_case(x, 0, t),
{
    if t.len() <= x.len() {
        assert(x.subrange(0, t.len() as int)[0] == x[0]);
        if eq_ignore_ascii_case(x.subrange(0, t.len() as int), t) {
            assert(ascii_fold(x.subrange(0, t.len() as int)[0]) == ascii_fold(t[0]));
        }
    }
}

/// A text that begins with `h` or `r` and has an opening bracket after a
/// word of at least three letters is no hexadecimal color, no `gray(..)`,
/// `Lab(..)`, `OkLab(..)` or `LCh(..)`, and no color name.
#[verifier::spinoff_prover]
#[verifier::rlimit(100)]
proof fn lemma_other_readers_refuse(x: Seq<char>, q: int)
    requires
        x[0] == 'h' || x[0] == 'r',
        3 <= q < x.len(),
        x[q] == '(',
    ensures
        hex_form(x) == Err::<(ColorSpec<Span>, int), Stop>(Stop::Error),
        gray_form(x) == Err::<(ColorSpec<Span>, int), Stop>(Stop::Error),
        lab_form(x, false) == Err::<(ColorSpec<Span>, int), Stop>(Stop::Error),
        lab_form(x, true) == Err::<(ColorSpec<Span>, int), Stop>(Stop::Error),
        lch_form(x) == Err::<(ColorSpec<Span>, int), Stop>(Stop::Error),
        name_form(x) == Err::<(ColorSpec<Span>, int), Stop>(Stop::Error),
        x[0] == 'h' ==> rgb_form(x, Part::Number) == Err::<(ColorSpec<Span>, int), Stop>(
            Stop::Error,
        ),
        x[0] == 'h' ==> rgb_form(x, Part::Percentage) == Err::<(ColorSpec<Span>, int), Stop>(
            Stop::Error,
        ),
        x[0] == 'r' ==> hue_form(x, false) == Err::<(ColorSpec<Span>, int), Stop>(Stop::Error),
        x[0] == 'r' ==> hue_form(x, true) == Err::<(ColorSpec<Span>, int), Stop>(Stop::Error),
{
    assert(!in_class(x[0], CharClass::HexDigit));
    assert(run(x, 0, CharClass::HexDigit) == 0);
    lemma_not_at_start(x, seq!['g', 'r', 'a', 'y', '(']);
    lemma_not_at_start(x, seq!['c', 'i', 'e']);
    lemma_not_at_start(x, seq!['l', 'a', 'b', '(']);
    lemma_not_at_start(x, seq!['o', 'k', 'l', 'a', 'b', '(']);
    lemma_not_at_start(x, seq!['l', 'c', 'h', '(']);
    lemma_run_stops(x, 0, CharClass::Letter, q);
    if x[0] == 'h' {
        lemma_not_at_start(x, seq!['r', 'g', 'b', '(']);
        lemma_not_at_start(x, seq!['r', 'g', 'b', 'a', '(']);
        lemma_not_at_start(x, seq!['n', 'a', 'n']);
        lemma_not_at_start(x, seq!['i', 'n', 'f']);
        assert(run(x, 0, CharClass::Blank) == 0);
        assert(mantissa_end(x, 0) is None);
        assert(number_end(x, 0) == Err::<int, Stop>(Stop::Error));
    } else {
        lemma_not_at_start(x, seq!['h', 's', 'l', '(']);
        lemma_not_at_start(x, seq!['h', 's', 'l', 'a', '(']);
        lemma_not_at_start(x, seq!['h', 's', 'v', '(']);
        lemma_not_at_start(x, seq!['h', 's', 'v', 'a', '(']);
    }
}

#[verifier::spinoff_prover]
proof fn lemma_prefix_shifted(p: Seq<char>, q: Seq<char>, w: Seq<char>)
    requires
        p.len() == 4,
        q.len() == 5,
        w.len() + 5 <= usize::MAX,
    ensures
        shifted(p + w, q + w, 4, 1),
{
    assert forall|k: int| 4 <= k < (p + w).len() implies #[trigger] (p + w)[k] == (q + w)[k + 1] by {
        assert((p + w)[k] == w[k - 4]);
        assert((q + w)[k + 1] == w[k - 4]);
    }
}

/// What a reader gives has all its spans within `[lo, hi]`.
pub open spec fn form_in(r: Result<(ColorSpec<Span>, int), Stop>, lo: int, hi: int) -> bool {
    match r {
        Ok((c, e)) => spec_in(c, lo, hi),
        Err(_) => true,
    }
}

/// `hsl(` and `hsla(` (or `hsv(` and `hsva(`) open the same body.
#[verifier::spinoff_prover]
#[verifier::rlimit(100)]
proof fn lemma_hue_spellings(w: Seq<char>, hsv: bool)
    requires
        w.len() + 5 <= usize::MAX,
    ensures
        ({
            let last = if hsv { 'v' } else { 'l' };
            let s = seq!['h', 's', last, '('] + w;
            let u = seq!['h', 's', last, 'a', '('] + w;
            &&& shifted(s, u, 4, 1)
            &&& hue_form(u, hsv) == shift_form(hue_form(s, hsv), 1)
            &&& form_in(hue_form(s, hsv), 4, s.len() as int)
            &&& hue_form(s, !hsv) == Err::<(ColorSpec<Span>, int), Stop>(Stop::Error)
            &&& hue_form(u, !hsv) == Err::<(ColorSpec<Span>, int), Stop>(Stop::Error)
        }),
{
    let last = if hsv { 'v' } else { 'l' };
    let other = if hsv { 'l' } else { 'v' };
    let p = seq!['h', 's', last, '('];
    let q = seq!['h', 's', last, 'a', '('];
    let s = p + w;
    let u = q + w;
    lemma_prefix_shifted(p, q, w);
    assert(s.subrange(0, 4) =~= p);
    assert(u.subrange(0, 5) =~= q);
    assert(u.subrange(0, 4)[3] == 'a');
    assert(!text_at(u, 0, p));
    assert(text_at(s, 0, p));
    assert(text_at(u, 0, q));
    assert(s.subrange(0, 4)[2] == last);
    assert(!text_at(s, 0, seq!['h', 's', other, '(']));
    assert(s.len() < 5 || s.subrange(0, 5)[2] == last);
    assert(!text_at(s, 0, seq!['h', 's', other, 'a', '(']));
    assert(u.subrange(0, 4)[2] == last);
    assert(!text_at(u, 0, seq!['h', 's', other, '(']));
    assert(!text_at(u, 0, seq!['h', 's', other, 'a', '(']));
    lemma_shift_body(s, u, 4, 1, 4, (Part::Angle, Part::Percentage, Part::Percentage), true);
}

/// `rgb(` and `rgba(` open the same body.
#[verifier::spinoff_prover]
#[verifier::rlimit(100)]
proof fn lemma_rgb_spellings(w: Seq<char>, k: Part)
    requires
        w.len() + 5 <= usize::MAX,
    ensures
        ({
            let s = seq!['r', 'g', 'b', '('] + w;
            let u = seq!['r', 'g', 'b', 'a', '('] + w;
            &&& shifted(s, u, 4, 1)
            &&& rgb_form(u, k) == shift_form(rgb_form(s, k), 1)
            &&& form_in(rgb_form(s, k), 4, s.len() as int)
        }),
{
    let p = seq!['r', 'g', 'b', '('];
    let q = seq!['r', 'g', 'b', 'a', '('];
    let s = p + w;
    let u = q + w;
    lemma_prefix_shifted(p, q, w);
    assert(s.subrange(0, 4) =~= p);
    assert(u.subrange(0, 5) =~= q);
    assert(u.subrange(0, 4)[3] == 'a');
    assert(!text_at(u, 0, p));
    assert(text_at(s, 0, p));
    assert(text_at(u, 0, q));
    lemma_shift_body(s, u, 4, 1, 4, (k, k, k), true);
}

#[verifier::spinoff_prover]
proof fn lemma_shift_first_form(s: Seq<char>, u: Seq<char>, a: int, d: int, n: int)
    requires
        u.len() == s.len() + d,
        0 <= n,
        forall|m: int| n <= m < forms() ==> #[trigger] form(u, m) == shift_form(form(s, m), d),
        forall|m: int| n <= m < forms() ==> form_in(#[trigger] form(s, m), a, s.len() as int),
    ensures
        first_form(u, n) == match first_form(s, n) {
            Some(c) => Some(shift_spec(c, d)),
            None => None::<ColorSpec<Span>>,
        },
        first_form(s, n) matches Some(c) ==> spec_in(c, a, s.len() as int),
    decreases forms() - n,
{
    if n < forms() {
        assert(form(u, n) == shift_form(form(s, n), d));
        assert(form_in(form(s, n), a, s.len() as int));
        lemma_shift_first_form(s, u, a, d, n + 1);
    }
}

#[verifier::spinoff_prover]
proof fn lemma_shift_quantity_text(s: Seq<char>, u: Seq<char>, a: int, d: int, q: Quantity<Span>)
    requires
        shifted(s, u, a, d),
        quantity_in(q, a, s.len() as int),
    ensures
        map_quantity(map_quantity(q, |sp: Span| shift_span(sp, d)), span_text(u)) == map_quantity(
            q,
            span_text(s),
        ),
{
    let st = q.number.start as int;
    let en = q.number.end as int;
    assert forall|m: int| 0 <= m < en - st implies #[trigger] u.subrange(st + d, en + d)[m]
        == s.subrange(st, en)[m] by {
        assert(s[st + m] == u[st + m + d]);
    }
    assert(u.subrange(st + d, en + d) =~= s.subrange(st, en));
}

#[verifier::spinoff_prover]
proof fn lemma_shift_alpha_text(s: Seq<char>, u: Seq<char>, a: int, d: int, al: Option<Quantity<Span>>)
    requires
        shifted(s, u, a, d),
        alpha_in(al, a, s.len() as int),
    ensures
        map_alpha(map_alpha(al, |sp: Span| shift_span(sp, d)), span_text(u)) == map_alpha(
            al,
            span_text(s),
        ),
{
    if let Some(q) = al {
        lemma_shift_quantity_text(s, u, a, d, q);
    }
}

/// Moving every span `d` places on and reading the spans in the text with
/// `d` more characters before `a` gives the same texts.
#[verifier::spinoff_prover]
proof fn lemma_shift_spec_text(s: Seq<char>, u: Seq<char>, a: int, d: int, c: ColorSpec<Span>)
    requires
        shifted(s, u, a, d),
        spec_in(c, a, s.len() as int),
    ensures
        map_spec(shift_spec(c, d), span_text(u)) == map_spec(c, span_text(s)),
{
    match c {
        ColorSpec::Rgb { r: x, g: y, b: z, alpha: al }
        | ColorSpec::Hsl { h: x, s: y, l: z, alpha: al }
        | ColorSpec::Hsv { h: x, s: y, v: z, alpha: al }
        | ColorSpec::Lab { l: x, a: y, b: z, alpha: al }
        | ColorSpec::Oklab { l: x, a: y, b: z, alpha: al }
        | ColorSpec::Lch { l: x, c: y, h: z, alpha: al } => {
            lemma_shift_quantity_text(s, u, a, d, x);
            lemma_shift_quantity_text(s, u, a, d, y);
            lemma_shift_quantity_text(s, u, a, d, z);
            lemma_shift_alpha_text(s, u, a, d, al);
        },
        ColorSpec::Gray { l } => {
            lemma_shift_quantity_text(s, u, a, d, l);
        },
        _ => {},
    }
}

#[verifier::spinoff_prover]
proof fn lemma_trim_end_after(p: Seq<char>, t: Seq<char>)
    requires
        p.len() > 0,
        !is_white_space(p.last()),
    ensures
        trim_end(p + t) == p + trim_end(t),
    decreases t.len(),
{
    if t.len() == 0 {
        assert(p + t =~= p);
        assert(p + trim_end(t) =~= p);
    } else if is_white_space(t.last()) {
        assert((p + t).drop_last() =~= p + t.drop_last());
        lemma_trim_end_after(p, t.drop_last());
    } else {
        assert((p + t).last() == t.last());
    }
}

/// Trimming a text that opens with a word and a bracket trims its end only.
#[verifier::spinoff_prover]
proof fn lemma_trim_after(p: Seq<char>, t: Seq<char>)
    requires
        p.len() > 0,
        !is_white_space(p[0]),
        !is_white_space(p.last()),
    ensures
        trim(p + t) == p + trim_end(t),
{
    assert((p + t)[0] == p[0]);
    assert(trim_start(p + t) == p + t);
    lemma_trim_end_after(p, t);
}

#[verifier::spinoff_prover]
proof fn lemma_forms_agree(s: Seq<char>, u: Seq<char>, a: int, d: int)
    requires
        form(u, 0) == shift_form(form(s, 0), d),
        form_in(form(s, 0), a, s.len() as int),
        form(u, 1) == shift_form(form(s, 1), d),
        form_in(form(s, 1), a, s.len() as int),
        form(u, 2) == shift_form(form(s, 2), d),
        form_in(form(s, 2), a, s.len() as int),
        form(u, 3) == shift_form(form(s, 3), d),
        form_in(form(s, 3), a, s.len() as int),
        form(u, 4) == shift_form(form(s, 4), d),
        form_in(form(s, 4), a, s.len() as int),
        form(u, 5) == shift_form(form(s, 5), d),
        form_in(form(s, 5), a, s.len() as int),
        form(u, 6) == shift_form(form(s, 6), d),
        form_in(form(s, 6), a, s.len() as int),
        form(u, 7) == shift_form(form(s, 7), d),
        form_in(form(s, 7), a, s.len() as int),
        form(u, 8) == shift_form(form(s, 8), d),
        form_in(form(s, 8), a, s.len() as int),
        form(u, 9) == shift_form(form(s, 9), d),
        form_in(form(s, 9), a, s.len() as int),
    ensures
        forall|m: int| 0 <= m < forms() ==> #[trigger] form(u, m) == shift_form(form(s, m), d),
        forall|m: int| 0 <= m < forms() ==> form_in(#[trigger] form(s, m), a, s.len() as int),
{
    assert forall|m: int| 0 <= m < forms() implies #[trigger] form(u, m) == shift_form(form(s, m), d)
        && form_in(form(s, m), a, s.len() as int) by {
        assert(m == 0 || m == 1 || m == 2 || m == 3 || m == 4 || m == 5 || m == 6 || m == 7
            || m == 8 || m == 9);
    }
}

#[verifier::spinoff_prover]
proof fn lemma_trim_end_len(t: Seq<char>)
    ensures
        trim_end(t).len() <= t.len(),
    decreases t.len(),
{
    if t.len() > 0 && is_white_space(t.last()) {
        lemma_trim_end_len(t.drop_last());
    }
}

/// From the reading of the two trimmed texts to that of the notations.
#[verifier::spinoff_prover]
proof fn lemma_same_notation(p: Seq<char>, q: Seq<char>, t: Seq<char>)
    requires
        p.len() == 4,
        q.len() == 5,
        !is_white_space(p[0]),
        !is_white_space(p.last()),
        !is_white_space(q[0]),
        !is_white_space(q.last()),
        shifted(p + trim_end(t), q + trim_end(t), 4, 1),
        readers_agree(p + trim_end(t), q + trim_end(t)),
    ensures
        notation(q + t) == notation(p + t),
{
    let w = trim_end(t);
    let s = p + w;
    let u = q + w;
    lemma_trim_after(p, t);
    lemma_trim_after(q, t);
    reveal(readers_agree);
    lemma_shift_first_form(s, u, 4, 1, 0);
    if let Some(c) = first_form(s, 0) {
        lemma_shift_spec_text(s, u, 4, 1, c);
    }
}

/// A function name spelled with the `a` of alpha opens the same notation
/// as the name without it: `hsva(..)` reads as `hsv(..)`, `hsla(..)` as
/// `hsl(..)` and `rgba(..)` as `rgb(..)`, for every text that follows the
/// bracket (of a length that a string can have).
#[verifier::spinoff_prover]
pub proof fn law_alpha_spellings_read_the_same(t: Seq<char>)
    requires
        t.len() + 5 <= usize::MAX,
    ensures
        notation(seq!['h', 's', 'v', 'a', '('] + t) == notation(seq!['h', 's', 'v', '('] + t),
        notation(seq!['h', 's', 'l', 'a', '('] + t) == notation(seq!['h', 's', 'l', '('] + t),
        notation(seq!['r', 'g', 'b', 'a', '('] + t) == notation(seq!['r', 'g', 'b', '('] + t),
{
    lemma_hsv_family(t);
    lemma_hsl_family(t);
    lemma_rgb_family(t);
}

/// The two spellings with the same trimmed body agree reader by reader.
#[verifier::opaque]
pub open spec fn readers_agree(s: Seq<char>, u: Seq<char>) -> bool {
    &&& forall|m: int| 0 <= m < forms() ==> #[trigger] form(u, m) == shift_form(form(s, m), 1)
    &&& forall|m: int| 0 <= m < forms() ==> form_in(#[trigger] form(s, m), 4, s.len() as int)
}

#[verifier::spinoff_prover]
#[verifier::rlimit(100)]
proof fn lemma_hue_readers(w: Seq<char>, hsv: bool)
    requires
        w.len() + 5 <= usize::MAX,
    ensures
        hsv ==> shifted(seq!['h', 's', 'v', '('] + w, seq!['h', 's', 'v', 'a', '('] + w, 4, 1),
        hsv ==> readers_agree(seq!['h', 's', 'v', '('] + w, seq!['h', 's', 'v', 'a', '('] + w),
        !hsv ==> shifted(seq!['h', 's', 'l', '('] + w, seq!['h', 's', 'l', 'a', '('] + w, 4, 1),
        !hsv ==> readers_agree(seq!['h', 's', 'l', '('] + w, seq!['h', 's', 'l', 'a', '('] + w),
{
    let last = if hsv { 'v' } else { 'l' };
    let p = seq!['h', 's', last, '('];
    let q = seq!['h', 's', last, 'a', '('];
    lemma_hue_spellings(w, hsv);
    lemma_other_readers_refuse(p + w, 3);
    lemma_other_readers_refuse(q + w, 4);
    lemma_forms_agree(p + w, q + w, 4, 1);
    reveal(readers_agree);
}

#[verifier::spinoff_prover]
#[verifier::rlimit(100)]
proof fn lemma_rgb_readers(w: Seq<char>)
    requires
        w.len() + 5 <= usize::MAX,
    ensures
        shifted(seq!['r', 'g', 'b', '('] + w, seq!['r', 'g', 'b', 'a', '('] + w, 4, 1),
        readers_agree(seq!['r', 'g', 'b', '('] + w, seq!['r', 'g', 'b', 'a', '('] + w),
{
    let p = seq!['r', 'g', 'b', '('];
    let q = seq!['r', 'g', 'b', 'a', '('];
    lemma_rgb_spellings(w, Part::Number);
    lemma_rgb_spellings(w, Part::Percentage);
    lemma_other_readers_refuse(p + w, 3);
    lemma_other_readers_refuse(q + w, 4);
    lemma_forms_agree(p + w, q + w, 4, 1);
    reveal(readers_agree);
}

#[verifier::spinoff_prover]
#[verifier::rlimit(100)]
proof fn lemma_hsv_family(t: Seq<char>)
    requires
        t.len() + 5 <= usize::MAX,
    ensures
        notation(seq!['h', 's', 'v', 'a', '('] + t) == notation(seq!['h', 's', 'v', '('] + t),
{
    lemma_trim_end_len(t);
    lemma_hue_readers(trim_end(t), true);
    lemma_same_notation(seq!['h', 's', 'v', '('], seq!['h', 's', 'v', 'a', '('], t);
}

#[verifier::spinoff_prover]
#[verifier::rlimit(100)]
proof fn lemma_hsl_family(t: Seq<char>)
    requires
        t.len() + 5 <= usize::MAX,
    ensures
        notation(seq!['h', 's', 'l', 'a', '('] + t) == notation(seq!['h', 's', 'l', '('] + t),
{
    lemma_trim_end_len(t);
    lemma_hue_readers(trim_end(t), false);
    lemma_same_notation(seq!['h', 's', 'l', '('], seq!['h', 's', 'l', 'a', '('], t);
}

#[verifier::spinoff_prover]
#[verifier::rlimit(100)]
proof fn lemma_rgb_family(t: Seq<char>)
    requires
        t.len() + 5 <= usize::MAX,
    ensures
        notation(seq!['r', 'g', 'b', 'a', '('] + t) == notation(seq!['r', 'g', 'b', '('] + t),
{
    lemma_trim_end_len(t);
    lemma_rgb_readers(trim_end(t));
    lemma_same_notation(seq!['r', 'g', 'b', '('], seq!['r', 'g', 'b', 'a', '('], t);
}

} // verus!
