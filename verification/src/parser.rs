//! Parsing cron expressions: five or six space-separated fields, a
//! descriptor such as `@daily` or `@every 1h30m`, and an optional
//! `TZ=`/`CRON_TZ=` time-zone prefix.
//!
//! Each function's contract gives its exact outcome, errors included, as a
//! spec function over the characters of its input.
use vstd::prelude::*;
use crate::constant_delay::{every, every_delay, ConstantDelaySchedule};
use crate::duration::Duration;
use crate::schedule::ParsedSchedule;
use crate::spec::{SpecSchedule, STAR_BIT};
use crate::text::{
    chars_of, copy_of, digit_value, find_char, find_from, find_text, i32_of_text, int_chars, int_error_chars,
    int_error_text, int_text, is_digit, lemma_i32_of_text_range, lemma_split_text_nonempty,
    nat_chars, nat_text, parse_i32, push_all, push_str, slice_of, split, split_text, starts_with,
    starts_with_text, string_of, text_is, texts_of, trim, trim_text, words, words_of,
};
use crate::time::{zone_named, Location};

pub mod laws;
pub mod parse_option;

verus! {

/// Why a cron expression was refused.
#[derive(Debug, Clone, PartialEq, Eq)]
pub enum ParseError {
    /// The expression is empty (or only white space).
    EmptySpec,
    /// Any other reason, in words.
    Message(String),
}

impl View for ParseError {
    /// `None` for an empty expression, else the message.
    type V = Option<Seq<char>>;

    open spec fn view(&self) -> Option<Seq<char>> {
        match self {
            ParseError::EmptySpec => None,
            ParseError::Message(s) => Some(s@),
        }
    }
}

/// The text of an error.
pub open spec fn error_text(e: Option<Seq<char>>) -> Seq<char> {
    match e {
        None => "empty spec string"@,
        Some(m) => m,
    }
}

impl ParseError {
    /// The error in words.
    pub fn message(&self) -> (r: String)
        ensures
            r@ == error_text(self@),
    {
        match self {
            ParseError::EmptySpec => {
                let v = chars_of("empty spec string");
                string_of(&v)
            },
            ParseError::Message(s) => s.clone(),
        }
    }
}

/// A spec-level outcome: the value, or the view of the error.
pub type Outcome<T> = Result<T, Option<Seq<char>>>;

/// `r` is the executable form of the outcome `o`.
pub open spec fn gives<T>(r: Result<T, ParseError>, o: Outcome<T>) -> bool {
    match o {
        Ok(v) => r == Ok::<T, ParseError>(v),
        Err(e) => r matches Err(err) && err@ == e,
    }
}

/// The error with message `v`.
fn fail<T>(v: &Vec<char>) -> (r: Result<T, ParseError>)
    ensures
        r matches Err(e) && e@ == Some(v@),
{
    Err(ParseError::Message(string_of(v)))
}

// ---------------------------------------------------------------------------
// Field bounds and names.
/// The range of a field, and the names its values may be given by.
#[derive(Clone, Copy)]
pub struct Bounds<'a> {
    pub min: u32,
    pub max: u32,
    pub names: Option<&'a [(&'static str, u32)]>,
}

/// A list of names with their values, as text.
pub open spec fn names_view(l: Seq<(&str, u32)>) -> Seq<(Seq<char>, u32)> {
    l.map_values(|p: (&str, u32)| (p.0@, p.1))
}

/// The names of a field, as text.
pub open spec fn names_of(names: Option<&[(&str, u32)]>) -> Option<Seq<(Seq<char>, u32)>> {
    match names {
        Some(l) => Some(names_view(l@)),
        None => None,
    }
}

/// The names of a field, as text.
pub open spec fn name_table(b: Bounds) -> Option<Seq<(Seq<char>, u32)>> {
    names_of(b.names)
}

fn seconds_bounds() -> (b: Bounds<'static>)
    ensures
        b.min == 0 && b.max == 59 && name_table(b) is None,
{
    Bounds { min: 0, max: 59, names: None }
}

fn minutes_bounds() -> (b: Bounds<'static>)
    ensures
        b.min == 0 && b.max == 59 && name_table(b) is None,
{
    Bounds { min: 0, max: 59, names: None }
}

fn hours_bounds() -> (b: Bounds<'static>)
    ensures
        b.min == 0 && b.max == 23 && name_table(b) is None,
{
    Bounds { min: 0, max: 23, names: None }
}

fn dom_bounds() -> (b: Bounds<'static>)
    ensures
        b.min == 1 && b.max == 31 && name_table(b) is None,
{
    Bounds { min: 1, max: 31, names: None }
}

/// The names of the months, lower case.
pub open spec fn month_names() -> Seq<(Seq<char>, u32)> {
    seq![
        ("jan"@, 1u32),
        ("feb"@, 2u32),
        ("mar"@, 3u32),
        ("apr"@, 4u32),
        ("may"@, 5u32),
        ("jun"@, 6u32),
        ("jul"@, 7u32),
        ("aug"@, 8u32),
        ("sep"@, 9u32),
        ("oct"@, 10u32),
        ("nov"@, 11u32),
        ("dec"@, 12u32),
    ]
}

/// The names of the days of the week, lower case.
pub open spec fn weekday_names() -> Seq<(Seq<char>, u32)> {
    seq![
        ("sun"@, 0u32),
        ("mon"@, 1u32),
        ("tue"@, 2u32),
        ("wed"@, 3u32),
        ("thu"@, 4u32),
        ("fri"@, 5u32),
        ("sat"@, 6u32),
    ]
}

fn months_bounds() -> (b: Bounds<'static>)
    ensures
        b.min == 1 && b.max == 12 && name_table(b) == Some(month_names()),
{
    let names: &'static [(&'static str, u32)] = &[
        ("jan", 1),
        ("feb", 2),
        ("mar", 3),
        ("apr", 4),
        ("may", 5),
        ("jun", 6),
        ("jul", 7),
        ("aug", 8),
        ("sep", 9),
        ("oct", 10),
        ("nov", 11),
        ("dec", 12),
    ];
    let b = Bounds { min: 1, max: 12, names: Some(names) };
    assert(name_table(b) =~= Some(month_names()));
    b
}

fn dow_bounds() -> (b: Bounds<'static>)
    ensures
        b.min == 0 && b.max == 6 && name_table(b) == Some(weekday_names()),
{
    let names: &'static [(&'static str, u32)] = &[
        ("sun", 0),
        ("mon", 1),
        ("tue", 2),
        ("wed", 3),
        ("thu", 4),
        ("fri", 5),
        ("sat", 6),
    ];
    let b = Bounds { min: 0, max: 6, names: Some(names) };
    assert(name_table(b) =~= Some(weekday_names()));
    b
}

// ---------------------------------------------------------------------------
// Numbers and names.
/// What `str::to_lowercase` gives for `s` (the Unicode lower-case mapping).
pub uninterp spec fn lowercase_of(s: Seq<char>) -> Seq<char>;

/// All characters of `s` are ASCII.
pub open spec fn is_ascii_text(s: Seq<char>) -> bool {
    forall|i: int| 0 <= i < s.len() ==> (#[trigger] s[i] as u32) < 128
}

/// The ASCII lower case of `c`: `A` to `Z` become `a` to `z`, others stay.
pub open spec fn ascii_lower(c: char) -> char {
    if 65 <= (c as u32) <= 90 {
        ((c as u32) + 32) as char
    } else {
        c
    }
}

/// `s` in lower case, with std's `str::to_lowercase`. The contract names the
/// result, and states the Unicode lower-case mapping only on ASCII text,
/// where it maps `A` to `Z` to `a` to `z` one for one and keeps every other
/// character; beyond ASCII the mapping is not restated here.
#[verifier::external_body]
fn to_lowercase(s: &str) -> (r: String)
    ensures
        r@ == lowercase_of(s@),
        is_ascii_text(s@) ==> r@ == s@.map_values(|c: char| ascii_lower(c)),
{
    s.to_lowercase()
}

/// What `str::to_lowercase` gives for `s`: on ASCII text, `A` to `Z` in
/// lower case and every other character kept.
pub open spec fn lower_text(s: Seq<char>) -> Seq<char> {
    if is_ascii_text(s) {
        s.map_values(|c: char| ascii_lower(c))
    } else {
        lowercase_of(s)
    }
}

/// A field value written as a decimal number: std's `i32` parse, and no
/// negative numbers.
pub open spec fn int_value(expr: Seq<char>) -> Outcome<u32> {
    match i32_of_text(expr) {
        Err(e) => Err(
            Some("failed to parse int from "@ + expr + ": "@ + int_error_text(e)),
        ),
        Ok(n) => if n < 0 {
            Err(Some("negative number ("@ + int_text(n) + ") not allowed: "@ + expr))
        } else {
            Ok(n as u32)
        },
    }
}

/// The value of the first entry from position `i` on whose name is `key`.
pub open spec fn first_named(list: Seq<(Seq<char>, u32)>, key: Seq<char>, i: int) -> Option<u32>
    decreases list.len() - i,
{
    if i < 0 || i >= list.len() {
        None
    } else if list[i].0 == key {
        Some(list[i].1)
    } else {
        first_named(list, key, i + 1)
    }
}

/// A field value written as a name (matched in lower case) or a number.
pub open spec fn int_or_name(expr: Seq<char>, names: Option<Seq<(Seq<char>, u32)>>) -> Outcome<u32> {
    match names {
        Some(list) => match first_named(list, lower_text(expr), 0) {
            Some(v) => Ok(v),
            None => int_value(expr),
        },
        None => int_value(expr),
    }
}

/// An `int_value` is below 2^31.
pub proof fn lemma_int_value_small(expr: Seq<char>)
    ensures
        int_value(expr) matches Ok(v) ==> v <= i32::MAX,
{
    lemma_i32_of_text_range(expr);
}

fn must_parse_int(expr: &Vec<char>) -> (r: Result<u32, ParseError>)
    ensures
        gives(r, int_value(expr@)),
{
    match parse_i32(expr) {
        Err(e) => {
            let mut m = chars_of("failed to parse int from ");
            push_all(&mut m, expr);
            push_str(&mut m, ": ");
            let t = int_error_chars(e);
            push_all(&mut m, &t);
            fail(&m)
        },
        Ok(n) => {
            proof {
                lemma_i32_of_text_range(expr@);
            }
            if n < 0 {
                let mut m = chars_of("negative number (");
                let t = int_chars(n as i64);
                push_all(&mut m, &t);
                push_str(&mut m, ") not allowed: ");
                push_all(&mut m, expr);
                fail(&m)
            } else {
                Ok(n as u32)
            }
        },
    }
}

fn parse_int_or_name(expr: &Vec<char>, names: Option<&[(&'static str, u32)]>) -> (r: Result<u32, ParseError>)
    ensures
        gives(r, int_or_name(expr@, names_of(names))),
{
    if let Some(list) = names {
        let e = string_of(expr);
        let lower_s = to_lowercase(e.as_str());
        let lower = chars_of(lower_s.as_str());
        let ghost table = names_view(list@);
        let n = list.len();
        for i in 0..n
            invariant
                n == list@.len(),
                names == Some(list),
                table == names_view(list@),
                lower@ == lower_text(expr@),
                first_named(table, lower@, 0) == first_named(table, lower@, i as int),
        {
            let (name, val) = list[i];
            assert(table[i as int] == (name@, val));
            if text_is(&lower, name) {
                return Ok(val);
            }
        }
    }
    must_parse_int(expr)
}

// ---------------------------------------------------------------------------
// Bit sets.
/// `acc` with the bits `i, i + step, ...` up to `max` added.
pub open spec fn mask_acc(acc: u64, i: int, max: int, step: int) -> u64
    decreases max - i,
{
    if step <= 0 || i > max || i < 0 {
        acc
    } else if i + step > max {
        acc | (1u64 << (i as u64))
    } else {
        mask_acc(acc | (1u64 << (i as u64)), i + step, max, step)
    }
}

/// The bit set `{min, min + step, ...} ∩ [min, max]`.
pub open spec fn mask_of(min: int, max: int, step: int) -> u64 {
    mask_acc(0, min, max, step)
}

/// Each value visited from `i` on, stepping by `step` up to `max`, is a
/// bit position, and the next value does not overflow a `u32`.
pub open spec fn steps_fit(i: int, max: int, step: int) -> bool
    decreases max - i,
{
    if step <= 0 || i > max {
        true
    } else {
        &&& i < 64
        &&& i + step <= u32::MAX
        &&& (i + step <= max ==> steps_fit(i + step, max, step))
    }
}

/// `get_bits` runs without overflow: an empty range, or a positive step
/// whose values all fit.
pub open spec fn bits_ok(min: u32, max: u32, step: u32) -> bool {
    min > max || (step >= 1 && steps_fit(min as int, max as int, step as int))
}

/// A positive step below 2^32 - 64 over a range below 64 always fits.
pub proof fn lemma_steps_fit(i: int, max: int, step: int)
    requires
        0 <= i,
        max < 64,
        1 <= step <= u32::MAX - 64,
    ensures
        steps_fit(i, max, step),
    decreases max - i,
{
    if i <= max && i + step <= max {
        lemma_steps_fit(i + step, max, step);
    }
}


/// Bit `k` of `x` is set.
pub open spec fn has_bit(x: u64, k: int) -> bool {
    0 <= k < 64 && (x >> (k as u64)) & 1u64 == 1u64
}

/// `k` is one of `min, min + step, ...` up to `max`.
pub open spec fn in_steps(min: int, max: int, step: int, k: int) -> bool {
    min <= k <= max && (k - min) % step == 0
}

proof fn lemma_bit_or(a: u64, b: u64, k: u64)
    requires
        k < 64,
    ensures
        ((a | b) >> k) & 1u64 == 1u64 <==> ((a >> k) & 1u64 == 1u64 || (b >> k) & 1u64 == 1u64),
{
    assert(((a | b) >> k) & 1u64 == 1u64 <==> ((a >> k) & 1u64 == 1u64 || (b >> k) & 1u64 == 1u64))
        by (bit_vector)
        requires
            k < 64,
    ;
}

proof fn lemma_bit_single(i: u64, k: u64)
    requires
        i < 64,
        k < 64,
    ensures
        ((1u64 << i) >> k) & 1u64 == 1u64 <==> i == k,
{
    assert(((1u64 << i) >> k) & 1u64 == 1u64 <==> i == k) by (bit_vector)
        requires
            i < 64,
            k < 64,
    ;
}

proof fn lemma_bit_none(k: u64)
    requires
        k < 64,
    ensures
        (0u64 >> k) & 1u64 != 1u64,
{
    assert((0u64 >> k) & 1u64 != 1u64) by (bit_vector);
}

proof fn lemma_mask_acc_bits(acc: u64, i: int, max: int, step: int, k: int)
    requires
        0 <= i,
        max < 64,
        step >= 1,
        0 <= k < 64,
    ensures
        has_bit(mask_acc(acc, i, max, step), k) <==> (has_bit(acc, k) || in_steps(i, max, step, k)),
    decreases max - i,
{
    if i > max {
    } else {
        let a = acc | (1u64 << (i as u64));
        lemma_bit_or(acc, 1u64 << (i as u64), k as u64);
        lemma_bit_single(i as u64, k as u64);
        assert(has_bit(a, k) <==> (has_bit(acc, k) || k == i));
        assert(in_steps(i, max, step, i)) by {
            vstd::arithmetic::div_mod::lemma_small_mod(0, step as nat);
        }
        if i + step > max {
            if in_steps(i, max, step, k) {
                vstd::arithmetic::div_mod::lemma_small_mod((k - i) as nat, step as nat);
            }
        } else {
            lemma_mask_acc_bits(a, i + step, max, step, k);
            if k >= i + step {
                vstd::arithmetic::div_mod::lemma_mod_sub_multiples_vanish(k - i, step);
                assert((k - (i + step)) % step == (k - i) % step);
            } else if i < k {
                vstd::arithmetic::div_mod::lemma_small_mod((k - i) as nat, step as nat);
            }
        }
    }
}

/// The bits of `get_bits(min, max, step)` are exactly `min, min + step, ...`
/// up to `max`.
pub proof fn lemma_mask_bits(min: int, max: int, step: int, k: int)
    requires
        0 <= min,
        max < 64,
        step >= 1,
        0 <= k < 64,
    ensures
        has_bit(mask_of(min, max, step), k) <==> in_steps(min, max, step, k),
{
    lemma_mask_acc_bits(0, min, max, step, k);
    lemma_bit_none(k as u64);
}

/// The star bit is bit 63.
proof fn lemma_star_bit(x: u64, k: int)
    requires
        0 <= k < 63,
    ensures
        has_bit(x | STAR_BIT, k) <==> has_bit(x, k),
        has_bit(x | 0u64, k) <==> has_bit(x, k),
{
    lemma_bit_or(x, STAR_BIT, k as u64);
    lemma_bit_or(x, 0u64, k as u64);
    lemma_bit_none(k as u64);
    let kk = k as u64;
    assert((0x8000_0000_0000_0000u64 >> kk) & 1u64 != 1u64) by (bit_vector)
        requires
            kk < 63,
    ;
}

/// Every value that a parsed range sets, but for the star bit, lies within
/// the field's bounds.
pub proof fn lemma_range_in_bounds(
    expr: Seq<char>,
    min: u32,
    max: u32,
    names: Option<Seq<(Seq<char>, u32)>>,
    k: int,
)
    requires
        max < 63,
        range_value(expr, min, max, names) matches Ok(b) && has_bit(b, k),
        0 <= k < 63,
    ensures
        min <= k <= max,
{
    if let Ok((start, end, step, extra)) = range_parts(expr, min, max, names) {
        let m = mask_of(start as int, end as int, step as int);
        lemma_bit_or(m, extra, k as u64);
        lemma_star_bit(m, k);
        assert(extra == 0 || extra == STAR_BIT);
        if extra == STAR_BIT {
            lemma_bit_or(0u64, STAR_BIT, k as u64);
            lemma_star_bit(0u64, k);
            lemma_bit_none(k as u64);
        } else {
            lemma_bit_none(k as u64);
        }
        lemma_mask_bits(start as int, end as int, step as int, k);
    }
}

proof fn lemma_field_acc_in_bounds(
    pieces: Seq<Seq<char>>,
    i: int,
    acc: u64,
    min: u32,
    max: u32,
    names: Option<Seq<(Seq<char>, u32)>>,
    k: int,
)
    requires
        max < 63,
        0 <= k < 63,
        has_bit(acc, k) ==> min <= k <= max,
        field_acc(pieces, i, acc, min, max, names) matches Ok(b) && has_bit(b, k),
    ensures
        min <= k <= max,
    decreases pieces.len() - i,
{
    if 0 <= i < pieces.len() {
        if let Ok(b) = range_value(pieces[i], min, max, names) {
            lemma_bit_or(acc, b, k as u64);
            if has_bit(b, k) {
                lemma_range_in_bounds(pieces[i], min, max, names, k);
            }
            lemma_field_acc_in_bounds(pieces, i + 1, acc | b, min, max, names, k);
        }
    }
}

/// Every value that a parsed field sets, but for the star bit, lies within
/// the field's bounds.
pub proof fn lemma_field_in_bounds(
    field: Seq<char>,
    min: u32,
    max: u32,
    names: Option<Seq<(Seq<char>, u32)>>,
    k: int,
)
    requires
        max < 63,
        0 <= k < 63,
        field_value(field, min, max, names) matches Ok(b) && has_bit(b, k),
    ensures
        min <= k <= max,
{
    lemma_bit_none(k as u64);
    lemma_field_acc_in_bounds(split_text(field, ','), 0, 0, min, max, names, k);
}

/// The bits `min, min + step, ...` up to `max`.
pub fn get_bits(min: u32, max: u32, step: u32) -> (bits: u64)
    requires
        bits_ok(min, max, step),
    ensures
        bits == mask_of(min as int, max as int, step as int),
        min <= max < 64 ==> forall|k: int|
            0 <= k < 64 ==> (has_bit(bits, k) <==> in_steps(min as int, max as int, step as int, k)),
{
    proof {
        if min <= max < 64 {
            assert forall|k: int| 0 <= k < 64 implies (has_bit(
                mask_of(min as int, max as int, step as int),
                k,
            ) <==> in_steps(min as int, max as int, step as int, k)) by {
                lemma_mask_bits(min as int, max as int, step as int, k);
            }
        }
    }
    let mut bits: u64 = 0;
    let mut i = min;
    while i <= max
        invariant
            bits_ok(min, max, step),
            min <= max < 64 ==> forall|k: int|
                0 <= k < 64 ==> (has_bit(mask_of(min as int, max as int, step as int), k) <==> in_steps(
                    min as int,
                    max as int,
                    step as int,
                    k,
                )),
            min <= i,
            i <= max ==> steps_fit(i as int, max as int, step as int),
            mask_of(min as int, max as int, step as int) == (if i > max {
                bits
            } else {
                mask_acc(bits, i as int, max as int, step as int)
            }),
        decreases max - i,
    {
        bits = bits | (1u64 << i);
        let next = i + step;
        if next > max {
            return bits;
        }
        i = next;
    }
    bits
}

/// Every value of the range `b`, with the star bit.
pub fn all(b: Bounds) -> (bits: u64)
    requires
        bits_ok(b.min, b.max, 1),
    ensures
        bits == mask_of(b.min as int, b.max as int, 1) | STAR_BIT,
{
    get_bits(b.min, b.max, 1) | STAR_BIT
}

// ---------------------------------------------------------------------------
// Ranges and fields.
/// The start, end, step and extra bit of a range expression, or why it is
/// not one: `*` or `?` for the whole range, `a` or `a-b`, each optionally
/// followed by `/step` (`a/step` runs to the end of the range).
pub open spec fn range_parts(
    expr: Seq<char>,
    min: u32,
    max: u32,
    names: Option<Seq<(Seq<char>, u32)>>,
) -> Outcome<(u32, u32, u32, u64)> {
    let ras = split_text(expr, '/');
    let lah = split_text(ras[0], '-');
    let single = lah.len() == 1;
    let head: Outcome<(u32, u32, u64)> = if lah[0] == "*"@ || lah[0] == "?"@ {
        Ok((min, max, STAR_BIT))
    } else {
        match int_or_name(lah[0], names) {
            Err(e) => Err(e),
            Ok(s) => if lah.len() == 1 {
                Ok((s, s, 0u64))
            } else if lah.len() == 2 {
                match int_or_name(lah[1], names) {
                    Err(e) => Err(e),
                    Ok(e2) => Ok((s, e2, 0u64)),
                }
            } else {
                Err(Some("too many hyphens: "@ + expr))
            },
        }
    };
    match head {
        Err(e) => Err(e),
        Ok((start, end0, extra0)) => {
            let stepped: Outcome<(u32, u32, u64)> = if ras.len() == 1 {
                Ok((end0, 1u32, extra0))
            } else if ras.len() == 2 {
                match int_value(ras[1]) {
                    Err(e) => Err(e),
                    Ok(st) => Ok(
                        (
                            if single {
                                max
                            } else {
                                end0
                            },
                            st,
                            if st > 1 {
                                0u64
                            } else {
                                extra0
                            },
                        ),
                    ),
                }
            } else {
                Err(Some("too many slashes: "@ + expr))
            };
            match stepped {
                Err(e) => Err(e),
                Ok((end, step, extra)) => if start < min {
                    Err(
                        Some(
                            "beginning of range ("@ + nat_text(start as nat) + ") below minimum ("@
                                + nat_text(min as nat) + "): "@ + expr,
                        ),
                    )
                } else if end > max {
                    Err(
                        Some(
                            "end of range ("@ + nat_text(end as nat) + ") above maximum ("@
                                + nat_text(max as nat) + "): "@ + expr,
                        ),
                    )
                } else if start > end {
                    Err(
                        Some(
                            "beginning of range ("@ + nat_text(start as nat)
                                + ") beyond end of range ("@ + nat_text(end as nat) + "): "@
                                + expr,
                        ),
                    )
                } else if step == 0 {
                    Err(Some("step of range should be a positive number: "@ + expr))
                } else {
                    Ok((start, end, step, extra))
                },
            }
        },
    }
}

/// The bits of a range expression.
pub open spec fn range_value(
    expr: Seq<char>,
    min: u32,
    max: u32,
    names: Option<Seq<(Seq<char>, u32)>>,
) -> Outcome<u64> {
    match range_parts(expr, min, max, names) {
        Err(e) => Err(e),
        Ok((start, end, step, extra)) => Ok(mask_of(start as int, end as int, step as int) | extra),
    }
}

/// A range expression that parses has bits that `get_bits` can compute.
pub open spec fn range_fits(
    expr: Seq<char>,
    min: u32,
    max: u32,
    names: Option<Seq<(Seq<char>, u32)>>,
) -> bool {
    range_parts(expr, min, max, names) matches Ok((s, e, st, x)) ==> bits_ok(s, e, st)
}

/// Within a range whose maximum is below 64, every range expression fits.
pub proof fn lemma_range_fits(expr: Seq<char>, min: u32, max: u32, names: Option<Seq<(Seq<char>, u32)>>)
    requires
        max < 64,
    ensures
        range_fits(expr, min, max, names),
{
    let ras = split_text(expr, '/');
    lemma_split_text_nonempty(expr, '/');
    if ras.len() == 2 {
        lemma_int_value_small(ras[1]);
    }
    if let Ok((s, e, st, x)) = range_parts(expr, min, max, names) {
        lemma_steps_fit(s as int, e as int, st as int);
    }
}

fn get_range_chars(expr: &Vec<char>, r: Bounds) -> (res: Result<u64, ParseError>)
    requires
        range_fits(expr@, r.min, r.max, name_table(r)),
    ensures
        gives(res, range_value(expr@, r.min, r.max, name_table(r))),
{
    let range_and_step = split(expr, '/');
    let low_and_high = split(&range_and_step[0], '-');
    let single_digit = low_and_high.len() == 1;
    let mut extra: u64 = 0;
    let start: u32;
    let mut end: u32;
    proof {
        lemma_split_text_nonempty(expr@, '/');
        lemma_split_text_nonempty(range_and_step@[0]@, '-');
        assert(texts_of(range_and_step@)[0] == range_and_step@[0]@);
        assert(texts_of(low_and_high@)[0] == low_and_high@[0]@);
    }
    if text_is(&low_and_high[0], "*") || text_is(&low_and_high[0], "?") {
        start = r.min;
        end = r.max;
        extra = STAR_BIT;
    } else {
        start = match parse_int_or_name(&low_and_high[0], r.names) {
            Ok(v) => v,
            Err(e) => {
                return Err(e);
            },
        };
        if low_and_high.len() == 1 {
            end = start;
        } else if low_and_high.len() == 2 {
            assert(texts_of(low_and_high@)[1] == low_and_high@[1]@);
            end = match parse_int_or_name(&low_and_high[1], r.names) {
                Ok(v) => v,
                Err(e) => {
                    return Err(e);
                },
            };
        } else {
            let mut m = chars_of("too many hyphens: ");
            push_all(&mut m, expr);
            return fail(&m);
        }
    }
    let step: u32;
    if range_and_step.len() == 1 {
        step = 1;
    } else if range_and_step.len() == 2 {
        assert(texts_of(range_and_step@)[1] == range_and_step@[1]@);
        step = match must_parse_int(&range_and_step[1]) {
            Ok(v) => v,
            Err(e) => {
                return Err(e);
            },
        };
        if single_digit {
            end = r.max;
        }
        if step > 1 {
            extra = 0;
        }
    } else {
        let mut m = chars_of("too many slashes: ");
        push_all(&mut m, expr);
        return fail(&m);
    }
    if start < r.min {
        let mut m = chars_of("beginning of range (");
        let t = nat_chars(start as u64);
        push_all(&mut m, &t);
        push_str(&mut m, ") below minimum (");
        let t = nat_chars(r.min as u64);
        push_all(&mut m, &t);
        push_str(&mut m, "): ");
        push_all(&mut m, expr);
        return fail(&m);
    }
    if end > r.max {
        let mut m = chars_of("end of range (");
        let t = nat_chars(end as u64);
        push_all(&mut m, &t);
        push_str(&mut m, ") above maximum (");
        let t = nat_chars(r.max as u64);
        push_all(&mut m, &t);
        push_str(&mut m, "): ");
        push_all(&mut m, expr);
        return fail(&m);
    }
    if start > end {
        let mut m = chars_of("beginning of range (");
        let t = nat_chars(start as u64);
        push_all(&mut m, &t);
        push_str(&mut m, ") beyond end of range (");
        let t = nat_chars(end as u64);
        push_all(&mut m, &t);
        push_str(&mut m, "): ");
        push_all(&mut m, expr);
        return fail(&m);
    }
    if step == 0 {
        let mut m = chars_of("step of range should be a positive number: ");
        push_all(&mut m, expr);
        return fail(&m);
    }
    Ok(get_bits(start, end, step) | extra)
}

/// The bits of the range expression `expr` (`*`, `?`, `a`, `a-b`, each
/// optionally with `/step`) within the bounds `r`.
pub fn get_range(expr: &str, r: Bounds) -> (res: Result<u64, ParseError>)
    requires
        range_fits(expr@, r.min, r.max, name_table(r)),
    ensures
        gives(res, range_value(expr@, r.min, r.max, name_table(r))),
{
    let v = chars_of(expr);
    get_range_chars(&v, r)
}

/// The bits of the comma-separated range expressions `pieces[i..]`, added
/// to `acc`; the first error, if any.
pub open spec fn field_acc(
    pieces: Seq<Seq<char>>,
    i: int,
    acc: u64,
    min: u32,
    max: u32,
    names: Option<Seq<(Seq<char>, u32)>>,
) -> Outcome<u64>
    decreases pieces.len() - i,
{
    if i < 0 || i >= pieces.len() {
        Ok(acc)
    } else {
        match range_value(pieces[i], min, max, names) {
            Err(e) => Err(e),
            Ok(b) => field_acc(pieces, i + 1, acc | b, min, max, names),
        }
    }
}

/// The bits of a field: its comma-separated range expressions together.
pub open spec fn field_value(
    field: Seq<char>,
    min: u32,
    max: u32,
    names: Option<Seq<(Seq<char>, u32)>>,
) -> Outcome<u64> {
    field_acc(split_text(field, ','), 0, 0, min, max, names)
}

proof fn lemma_split_join(a: Seq<char>, b: Seq<char>, sep: char)
    ensures
        split_text(a + seq![sep] + b, sep) == split_text(a, sep) + split_text(b, sep),
    decreases b.len(),
{
    let s = a + seq![sep] + b;
    if b.len() == 0 {
        assert(s.drop_last() == a);
        assert(split_text(b, sep) == seq![Seq::<char>::empty()]);
        assert(split_text(s, sep) == split_text(a, sep).push(Seq::empty()));
    } else {
        let b1 = b.drop_last();
        lemma_split_join(a, b1, sep);
        lemma_split_text_nonempty(b1, sep);
        assert(s.drop_last() == a + seq![sep] + b1);
        assert(s.last() == b.last());
        let x = split_text(a, sep);
        let y = split_text(b1, sep);
        if b.last() == sep {
            assert((x + y).push(Seq::empty()) == x + y.push(Seq::empty()));
        } else {
            assert((x + y).update((x + y).len() - 1, (x + y).last().push(b.last())) == x + y.update(
                y.len() - 1,
                y.last().push(b.last()),
            ));
        }
    }
}

proof fn lemma_acc_shift(
    p: Seq<Seq<char>>,
    q: Seq<Seq<char>>,
    j: int,
    acc: u64,
    min: u32,
    max: u32,
    names: Option<Seq<(Seq<char>, u32)>>,
)
    requires
        0 <= j,
    ensures
        field_acc(p + q, p.len() + j, acc, min, max, names) == field_acc(q, j, acc, min, max, names),
    decreases q.len() - j,
{
    if j < q.len() {
        assert((p + q)[p.len() + j] == q[j]);
        if let Ok(b) = range_value(q[j], min, max, names) {
            lemma_acc_shift(p, q, j + 1, acc | b, min, max, names);
        }
    }
}

proof fn lemma_acc_prefix(
    p: Seq<Seq<char>>,
    q: Seq<Seq<char>>,
    i: int,
    acc: u64,
    min: u32,
    max: u32,
    names: Option<Seq<(Seq<char>, u32)>>,
)
    requires
        0 <= i <= p.len(),
    ensures
        field_acc(p + q, i, acc, min, max, names) == match field_acc(p, i, acc, min, max, names) {
            Err(e) => Err(e),
            Ok(x) => field_acc(q, 0, x, min, max, names),
        },
    decreases p.len() - i,
{
    if i < p.len() {
        assert((p + q)[i] == p[i]);
        if let Ok(b) = range_value(p[i], min, max, names) {
            lemma_acc_prefix(p, q, i + 1, acc | b, min, max, names);
        }
    } else {
        lemma_acc_shift(p, q, 0, acc, min, max, names);
    }
}

proof fn lemma_acc_or(
    q: Seq<Seq<char>>,
    j: int,
    acc: u64,
    min: u32,
    max: u32,
    names: Option<Seq<(Seq<char>, u32)>>,
)
    requires
        0 <= j,
    ensures
        field_acc(q, j, acc, min, max, names) == match field_acc(q, j, 0, min, max, names) {
            Err(e) => Err(e),
            Ok(z) => Ok(acc | z),
        },
    decreases q.len() - j,
{
    if j < q.len() {
        if let Ok(b) = range_value(q[j], min, max, names) {
            lemma_acc_or(q, j + 1, acc | b, min, max, names);
            lemma_acc_or(q, j + 1, 0u64 | b, min, max, names);
            if let Ok(z) = field_acc(q, j + 1, 0, min, max, names) {
                assert((acc | b) | z == acc | ((0u64 | b) | z)) by (bit_vector);
            }
        }
    } else {
        assert(acc | 0u64 == acc) by (bit_vector);
    }
}

/// A field joined by a comma is the union of its two halves; when either
/// half is refused, the first refusal is the field's.
pub proof fn lemma_field_join(
    a: Seq<char>,
    b: Seq<char>,
    min: u32,
    max: u32,
    names: Option<Seq<(Seq<char>, u32)>>,
)
    ensures
        field_value(a + seq![','] + b, min, max, names) == match field_value(a, min, max, names) {
            Err(e) => Err(e),
            Ok(x) => match field_value(b, min, max, names) {
                Err(e) => Err(e),
                Ok(y) => Ok(x | y),
            },
        },
{
    let p = split_text(a, ',');
    let q = split_text(b, ',');
    lemma_split_join(a, b, ',');
    lemma_split_text_nonempty(a, ',');
    lemma_acc_prefix(p, q, 0, 0, min, max, names);
    if let Ok(x) = field_acc(p, 0, 0, min, max, names) {
        lemma_acc_or(q, 0, x, min, max, names);
    }
}

/// Every range expression of a field that the field's parse reaches fits.
pub open spec fn field_fits_from(
    pieces: Seq<Seq<char>>,
    i: int,
    min: u32,
    max: u32,
    names: Option<Seq<(Seq<char>, u32)>>,
) -> bool
    decreases pieces.len() - i,
{
    if i < 0 || i >= pieces.len() {
        true
    } else {
        &&& range_fits(pieces[i], min, max, names)
        &&& (range_value(pieces[i], min, max, names) is Ok ==> field_fits_from(pieces, i + 1, min, max, names))
    }
}

/// Every range expression of `field` that its parse reaches fits.
pub open spec fn field_fits(
    field: Seq<char>,
    min: u32,
    max: u32,
    names: Option<Seq<(Seq<char>, u32)>>,
) -> bool {
    field_fits_from(split_text(field, ','), 0, min, max, names)
}

proof fn lemma_field_fits_from(
    pieces: Seq<Seq<char>>,
    i: int,
    min: u32,
    max: u32,
    names: Option<Seq<(Seq<char>, u32)>>,
)
    requires
        max < 64,
    ensures
        field_fits_from(pieces, i, min, max, names),
    decreases pieces.len() - i,
{
    if 0 <= i < pieces.len() {
        lemma_range_fits(pieces[i], min, max, names);
        lemma_field_fits_from(pieces, i + 1, min, max, names);
    }
}

/// Within a range whose maximum is below 64, every field fits.
pub proof fn lemma_field_fits(field: Seq<char>, min: u32, max: u32, names: Option<Seq<(Seq<char>, u32)>>)
    requires
        max < 64,
    ensures
        field_fits(field, min, max, names),
{
    lemma_field_fits_from(split_text(field, ','), 0, min, max, names);
}

fn get_field_chars(field: &Vec<char>, r: Bounds) -> (res: Result<u64, ParseError>)
    requires
        field_fits(field@, r.min, r.max, name_table(r)),
    ensures
        gives(res, field_value(field@, r.min, r.max, name_table(r))),
{
    let ranges = split(field, ',');
    let ghost pieces = texts_of(ranges@);
    let mut bits: u64 = 0;
    let n = ranges.len();
    for i in 0..n
        invariant
            n == ranges.len(),
            pieces == texts_of(ranges@),
            pieces == split_text(field@, ','),
            field_value(field@, r.min, r.max, name_table(r)) == field_acc(
                pieces,
                i as int,
                bits,
                r.min,
                r.max,
                name_table(r),
            ),
            field_fits_from(pieces, i as int, r.min, r.max, name_table(r)),
    {
        assert(pieces[i as int] == ranges@[i as int]@);
        let b = match get_range_chars(&ranges[i], r) {
            Ok(b) => b,
            Err(e) => {
                return Err(e);
            },
        };
        bits = bits | b;
    }
    Ok(bits)
}

/// The bits of a field: comma-separated range expressions within `r`.
pub fn get_field(field: &str, r: Bounds) -> (res: Result<u64, ParseError>)
    requires
        field_fits(field@, r.min, r.max, name_table(r)),
    ensures
        gives(res, field_value(field@, r.min, r.max, name_table(r))),
{
    let v = chars_of(field);
    get_field_chars(&v, r)
}

// ---------------------------------------------------------------------------
// Splitting an expression into its six fields.
/// The option bit of field `i` (second, minute, hour, day of month, month,
/// day of week).
pub open spec fn place_bit(i: int) -> u32 {
    if i == 0 {
        parse_option::SECOND
    } else if i == 1 {
        parse_option::MINUTE
    } else if i == 2 {
        parse_option::HOUR
    } else if i == 3 {
        parse_option::DOM
    } else if i == 4 {
        parse_option::MONTH
    } else {
        parse_option::DOW
    }
}

/// How many of the first `k` fields the options name.
pub open spec fn places_upto(opts: u32, k: int) -> int
    decreases k,
{
    if k <= 0 {
        0
    } else {
        places_upto(opts, k - 1) + if opts & place_bit(k - 1) != 0 {
            1int
        } else {
            0int
        }
    }
}

/// The text of a field that the options leave out.
pub open spec fn default_field(i: int) -> Seq<char> {
    if i <= 2 {
        "0"@
    } else {
        "*"@
    }
}

/// What std's `{:?}` prints for a list of strings.
pub uninterp spec fn debug_list_text(items: Seq<Seq<char>>) -> Seq<char>;

/// The views of a list of `String`s.
pub open spec fn strings_view(v: Seq<String>) -> Seq<Seq<char>> {
    v.map_values(|s: String| s@)
}

/// Formats a list of strings with std's `Debug` for slices (`{:?}`). The
/// contract names the text: the escaping rules of `str::escape_debug` are
/// not restated here.
#[verifier::external_body]
fn debug_list(items: &Vec<String>) -> (r: String)
    ensures
        r@ == debug_list_text(strings_view(items@)),
{
    format!("{:?}", items)
}

/// Field `i` of the six: the next of the given fields when the options
/// name it, else its default.
pub open spec fn expanded_field(working: Seq<Seq<char>>, opts: u32, i: int) -> Seq<char> {
    if opts & place_bit(i) != 0 {
        working[places_upto(opts, i)]
    } else {
        default_field(i)
    }
}

/// The six fields of an expression whose fields are `fields`, under parser
/// options `options`: the fields the options name, in order, with `0` for
/// an absent second, minute or hour and `*` for an absent day, month or
/// weekday. One optional field (seconds first, or weekday last) may be
/// left out.
pub open spec fn normalize_text(fields: Seq<Seq<char>>, options: u32) -> Outcome<Seq<Seq<char>>> {
    let o1 = if options & parse_option::SECOND_OPTIONAL != 0 {
        options | parse_option::SECOND
    } else {
        options
    };
    let k1: int = if options & parse_option::SECOND_OPTIONAL != 0 {
        1
    } else {
        0
    };
    let o2 = if o1 & parse_option::DOW_OPTIONAL != 0 {
        o1 | parse_option::DOW
    } else {
        o1
    };
    let optionals: int = k1 + if o1 & parse_option::DOW_OPTIONAL != 0 {
        1int
    } else {
        0int
    };
    if optionals > 1 {
        Err(Some("multiple optionals may not be configured"@))
    } else {
        let max = places_upto(o2, 6);
        let min = max - optionals;
        let count = fields.len() as int;
        if count < min || count > max {
            if min == max {
                Err(
                    Some(
                        "expected exactly "@ + nat_text(min as nat) + " fields, found "@ + nat_text(
                            count as nat,
                        ) + ": "@ + debug_list_text(fields),
                    ),
                )
            } else {
                Err(
                    Some(
                        "expected "@ + nat_text(min as nat) + " to "@ + nat_text(max as nat)
                            + " fields, found "@ + nat_text(count as nat) + ": "@ + debug_list_text(
                            fields,
                        ),
                    ),
                )
            }
        } else if min < max && count == min && o2 & parse_option::DOW_OPTIONAL == 0 && o2
            & parse_option::SECOND_OPTIONAL == 0 {
            Err(Some("unknown optional field"@))
        } else {
            let working = if min < max && count == min {
                if o2 & parse_option::DOW_OPTIONAL != 0 {
                    fields.push("*"@)
                } else {
                    seq!["0"@] + fields
                }
            } else {
                fields
            };
            Ok(Seq::new(6, |i: int| expanded_field(working, o2, i)))
        }
    }
}

/// With an optional seconds field, leaving it out reads as writing `0`.
pub proof fn lemma_optional_second(fields: Seq<Seq<char>>, options: u32)
    requires
        options & parse_option::SECOND_OPTIONAL != 0,
        options & parse_option::DOW_OPTIONAL == 0,
        fields.len() + 1 == places_upto(options | parse_option::SECOND, 6),
    ensures
        normalize_text(fields, options) == normalize_text(seq!["0"@] + fields, options),
{
    let o = options | parse_option::SECOND;
    assert(o & parse_option::DOW_OPTIONAL == 0 && o & parse_option::SECOND_OPTIONAL != 0) by (bit_vector)
        requires
            o == options | 1u32,
            options & 2u32 != 0,
            options & 128u32 == 0,
    ;
}

/// With an optional weekday field, leaving it out reads as writing `*`.
pub proof fn lemma_optional_weekday(fields: Seq<Seq<char>>, options: u32)
    requires
        options & parse_option::SECOND_OPTIONAL == 0,
        options & parse_option::DOW_OPTIONAL != 0,
        fields.len() + 1 == places_upto(options | parse_option::DOW, 6),
    ensures
        normalize_text(fields, options) == normalize_text(fields.push("*"@), options),
{
    let o = options | parse_option::DOW;
    assert(o & parse_option::DOW_OPTIONAL != 0) by (bit_vector)
        requires
            o == options | 64u32,
            options & 128u32 != 0,
    ;
}

proof fn lemma_places_upto_nonneg(opts: u32, k: int)
    ensures
        0 <= places_upto(opts, k),
    decreases k,
{
    if k > 0 {
        lemma_places_upto_nonneg(opts, k - 1);
    }
}

proof fn lemma_places_upto_mono(opts: u32, k: int, j: int)
    requires
        0 <= k <= j,
    ensures
        places_upto(opts, k) <= places_upto(opts, j),
        0 <= places_upto(opts, k),
    decreases j - k,
{
    lemma_places_upto_nonneg(opts, k);
    if k < j {
        lemma_places_upto_mono(opts, k, j - 1);
    }
}

/// The option bit of field `i`.
fn place_bit_of(i: usize) -> (b: u32)
    requires
        i < 6,
    ensures
        b == place_bit(i as int),
{
    if i == 0 {
        parse_option::SECOND
    } else if i == 1 {
        parse_option::MINUTE
    } else if i == 2 {
        parse_option::HOUR
    } else if i == 3 {
        parse_option::DOM
    } else if i == 4 {
        parse_option::MONTH
    } else {
        parse_option::DOW
    }
}

/// `String`s holding the texts of `v`.
fn strings_of(v: &Vec<Vec<char>>) -> (r: Vec<String>)
    ensures
        strings_view(r@) == texts_of(v@),
{
    let mut r: Vec<String> = Vec::new();
    let n = v.len();
    for i in 0..n
        invariant
            n == v.len(),
            r@.len() == i,
            forall|j: int| 0 <= j < i ==> (#[trigger] r@[j])@ == v@[j]@,
    {
        let s = string_of(&v[i]);
        r.push(s);
    }
    assert(strings_view(r@) =~= texts_of(v@));
    r
}

/// Copies of the texts of `v`.
fn texts_copy(v: &Vec<Vec<char>>) -> (r: Vec<Vec<char>>)
    ensures
        texts_of(r@) == texts_of(v@),
{
    let mut r: Vec<Vec<char>> = Vec::new();
    let n = v.len();
    for i in 0..n
        invariant
            n == v.len(),
            r@.len() == i,
            forall|j: int| 0 <= j < i ==> (#[trigger] r@[j])@ == v@[j]@,
    {
        let c = copy_of(&v[i]);
        r.push(c);
    }
    assert(texts_of(r@) =~= texts_of(v@));
    r
}

/// `r` carries the outcome `o` of a list of texts.
pub open spec fn gives_texts(r: Result<Vec<Vec<char>>, ParseError>, o: Outcome<Seq<Seq<char>>>) -> bool {
    match o {
        Ok(v) => r matches Ok(w) && texts_of(w@) == v,
        Err(e) => r matches Err(err) && err@ == e,
    }
}

fn normalize_texts(fields: &Vec<Vec<char>>, options: u32) -> (r: Result<Vec<Vec<char>>, ParseError>)
    ensures
        gives_texts(r, normalize_text(texts_of(fields@), options)),
{
    let ghost spec_fields = texts_of(fields@);
    let mut opts = options;
    let mut optionals: usize = 0;
    if options & parse_option::SECOND_OPTIONAL != 0 {
        opts = opts | parse_option::SECOND;
        optionals = optionals + 1;
    }
    let o1 = opts;
    if opts & parse_option::DOW_OPTIONAL != 0 {
        opts = opts | parse_option::DOW;
        optionals = optionals + 1;
    }
    if optionals > 1 {
        let m = chars_of("multiple optionals may not be configured");
        return fail(&m);
    }
    let mut max: usize = 0;
    for i in 0..6
        invariant
            max as int == places_upto(opts, i as int),
            max <= i,
    {
        if opts & place_bit_of(i) != 0 {
            max = max + 1;
        }
    }
    proof {
        if options & parse_option::SECOND_OPTIONAL != 0 {
            assert((options | 1u32) & 1u32 != 0) by (bit_vector);
            assert(((options | 1u32) | 64u32) & 1u32 != 0) by (bit_vector);
            assert(places_upto(opts, 0) == 0);
            assert(opts & place_bit(0) != 0);
            assert(places_upto(opts, 1) == 1);
            lemma_places_upto_mono(opts, 1, 6);
        }
        if o1 & parse_option::DOW_OPTIONAL != 0 {
            assert((o1 | 64u32) & 64u32 != 0) by (bit_vector);
            assert(places_upto(opts, 6) == places_upto(opts, 5) + 1);
            lemma_places_upto_mono(opts, 0, 5);
        }
    }
    let min = max - optionals;
    let count = fields.len();
    if count < min || count > max {
        let mut m: Vec<char>;
        if min == max {
            m = chars_of("expected exactly ");
            let t = nat_chars(min as u64);
            push_all(&mut m, &t);
        } else {
            m = chars_of("expected ");
            let t = nat_chars(min as u64);
            push_all(&mut m, &t);
            push_str(&mut m, " to ");
            let t = nat_chars(max as u64);
            push_all(&mut m, &t);
        }
        push_str(&mut m, " fields, found ");
        let t = nat_chars(count as u64);
        push_all(&mut m, &t);
        push_str(&mut m, ": ");
        let list = strings_of(fields);
        let d = debug_list(&list);
        let dt = chars_of(d.as_str());
        push_all(&mut m, &dt);
        return fail(&m);
    }
    let mut working = texts_copy(fields);
    if min < max && count == min {
        if opts & parse_option::DOW_OPTIONAL != 0 {
            let star = chars_of("*");
            working.push(star);
            assert(texts_of(working@) =~= spec_fields.push("*"@));
        } else if opts & parse_option::SECOND_OPTIONAL != 0 {
            let zero = chars_of("0");
            working.insert(0, zero);
            assert(texts_of(working@) =~= seq!["0"@] + spec_fields);
        } else {
            let m = chars_of("unknown optional field");
            return fail(&m);
        }
    }
    let ghost wv = texts_of(working@);
    assert(wv.len() == max);
    let mut expanded: Vec<Vec<char>> = Vec::new();
    let mut n: usize = 0;
    for i in 0..6
        invariant
            n as int == places_upto(opts, i as int),
            wv == texts_of(working@),
            wv.len() == max,
            max as int == places_upto(opts, 6),
            expanded@.len() == i,
            forall|k: int| 0 <= k < i ==> (#[trigger] expanded@[k])@ == expanded_field(wv, opts, k),
    {
        proof {
            lemma_places_upto_mono(opts, i + 1, 6);
        }
        if opts & place_bit_of(i) != 0 {
            assert(wv[n as int] == working@[n as int]@);
            let w = copy_of(&working[n]);
            expanded.push(w);
            n = n + 1;
        } else {
            let d = if i <= 2 {
                chars_of("0")
            } else {
                chars_of("*")
            };
            expanded.push(d);
        }
    }
    assert(texts_of(expanded@) =~= Seq::new(6, |i: int| expanded_field(wv, opts, i)));
    Ok(expanded)
}

/// The six fields of an expression given as its fields: see
/// [`normalize_text`].
pub fn normalize_fields(fields: &[&str], options: u32) -> (r: Result<Vec<String>, ParseError>)
    ensures
        match normalize_text(fields@.map_values(|s: &str| s@), options) {
            Ok(v) => r matches Ok(w) && strings_view(w@) == v,
            Err(e) => r matches Err(err) && err@ == e,
        },
{
    let mut texts: Vec<Vec<char>> = Vec::new();
    let n = fields.len();
    for i in 0..n
        invariant
            n == fields@.len(),
            texts@.len() == i,
            forall|j: int| 0 <= j < i ==> (#[trigger] texts@[j])@ == fields@[j]@,
    {
        let c = chars_of(fields[i]);
        texts.push(c);
    }
    assert(texts_of(texts@) =~= fields@.map_values(|s: &str| s@));
    match normalize_texts(&texts, options) {
        Err(e) => Err(e),
        Ok(w) => Ok(strings_of(&w)),
    }
}

// ---------------------------------------------------------------------------
// Durations (`@every`).
/// Where reading a duration ends: its length in nanoseconds, a failure (the
/// words after "failed to parse duration ...: "), or an `i64` overflow
/// (which panics).
pub enum DurationScan {
    Total(int),
    Fail(Seq<char>),
    Overflow,
}

/// Nanoseconds per unit, for the units that durations may use.
pub open spec fn unit_nanos(u: Seq<char>) -> Option<int> {
    if u == "ns"@ {
        Some(1)
    } else if u == "us"@ || u == "\u{b5}s"@ {
        Some(1000)
    } else if u == "ms"@ {
        Some(1_000_000)
    } else if u == "s"@ {
        Some(1_000_000_000)
    } else if u == "m"@ {
        Some(60_000_000_000)
    } else if u == "h"@ {
        Some(3_600_000_000_000)
    } else {
        None
    }
}

/// The end of the run of non-digits that starts at `i`.
pub open spec fn unit_end(s: Seq<char>, i: int) -> int
    decreases s.len() - i,
{
    if i < 0 || i >= s.len() || is_digit(s[i]) {
        i
    } else {
        unit_end(s, i + 1)
    }
}

/// The run of non-digits from `i` ends within the text, after `i` when it
/// starts on a non-digit, and at a digit when it ends before the end.
pub proof fn lemma_unit_end(s: Seq<char>, i: int)
    requires
        0 <= i <= s.len(),
    ensures
        i <= unit_end(s, i) <= s.len(),
        i < s.len() && !is_digit(s[i]) ==> i < unit_end(s, i),
        forall|k: int| i <= k < unit_end(s, i) ==> !is_digit(#[trigger] s[k]),
        unit_end(s, i) < s.len() ==> is_digit(s[unit_end(s, i)]),
    decreases s.len() - i,
{
    if i < s.len() && !is_digit(s[i]) {
        lemma_unit_end(s, i + 1);
    }
}

/// Reading a duration from position `i` with `total` nanoseconds so far, the
/// number `cur` being read, and whether it has a digit: numbers each
/// followed by a unit, in `i64` arithmetic.
pub open spec fn duration_scan(s: Seq<char>, i: int, total: int, cur: int, has_digit: bool) -> DurationScan
    decreases s.len() - i,
{
    if i < 0 || i >= s.len() {
        if has_digit {
            DurationScan::Fail("missing unit"@)
        } else {
            DurationScan::Total(total)
        }
    } else if is_digit(s[i]) {
        let c2 = cur * 10 + digit_value(s[i]);
        if c2 > i64::MAX {
            DurationScan::Overflow
        } else {
            duration_scan(s, i + 1, total, c2, true)
        }
    } else if !has_digit {
        DurationScan::Fail("invalid format"@)
    } else {
        let j = unit_end(s, i);
        let u = s.subrange(i, j);
        match unit_nanos(u) {
            None => DurationScan::Fail("unknown unit "@ + u),
            Some(m) => if cur * m > i64::MAX || total + cur * m > i64::MAX {
                DurationScan::Overflow
            } else {
                proof {
                    lemma_unit_end(s, i);
                }
                duration_scan(s, j, total + cur * m, 0, false)
            },
        }
    }
}

/// Reading the duration `s` stays within `i64` arithmetic.
pub open spec fn duration_fits(s: Seq<char>) -> bool {
    !(duration_scan(s, 0, 0, 0, false) is Overflow)
}

/// The length in nanoseconds of the duration `s` (such as `1h30m`), or why
/// it is not one.
pub open spec fn duration_value(s: Seq<char>) -> Outcome<int> {
    if s.len() == 0 {
        Err(Some("failed to parse duration "@ + s + ": empty"@))
    } else {
        match duration_scan(s, 0, 0, 0, false) {
            DurationScan::Total(t) => Ok(t),
            DurationScan::Fail(why) => Err(Some("failed to parse duration "@ + s + ": "@ + why)),
            DurationScan::Overflow => Ok(0),
        }
    }
}

/// The nanoseconds per unit of `u`.
fn unit_scale(u: &Vec<char>) -> (r: Option<i64>)
    ensures
        match unit_nanos(u@) {
            Some(m) => r == Some(m as i64) && 1 <= m <= 3_600_000_000_000,
            None => r is None,
        },
{
    if text_is(u, "ns") {
        Some(1)
    } else if text_is(u, "us") || text_is(u, "\u{b5}s") {
        Some(1000)
    } else if text_is(u, "ms") {
        Some(1_000_000)
    } else if text_is(u, "s") {
        Some(1_000_000_000)
    } else if text_is(u, "m") {
        Some(60_000_000_000)
    } else if text_is(u, "h") {
        Some(3_600_000_000_000)
    } else {
        None
    }
}

fn duration_fail<T>(s: &Vec<char>, why: &Vec<char>) -> (r: Result<T, ParseError>)
    ensures
        r matches Err(e) && e@ == Some("failed to parse duration "@ + s@ + ": "@ + why@),
{
    let mut m = chars_of("failed to parse duration ");
    push_all(&mut m, s);
    push_str(&mut m, ": ");
    push_all(&mut m, why);
    fail(&m)
}

/// Reads the duration `s`; `None` when the reading leaves `i64` arithmetic.
fn parse_duration_chars(s: &Vec<char>) -> (r: Option<Result<Duration, ParseError>>)
    ensures
        r is None <==> !duration_fits(s@),
        r matches Some(x) ==> match duration_value(s@) {
            Ok(n) => x matches Ok(d) && d@ == n && d == crate::duration::duration_of(n),
            Err(e) => x matches Err(err) && err@ == e,
        },
{
    let n = s.len();
    if n == 0 {
        let mut m = chars_of("failed to parse duration ");
        push_all(&mut m, s);
        push_str(&mut m, ": empty");
        return Some(fail(&m));
    }
    let mut total: i64 = 0;
    let mut cur: i64 = 0;
    let mut has_digit = false;
    let mut i: usize = 0;
    let ghost target = duration_scan(s@, 0, 0, 0, false);
    while i < n
        invariant
            n == s.len(),
            i <= n,
            0 <= total,
            0 <= cur,
            target == duration_scan(s@, 0, 0, 0, false),
            target == duration_scan(s@, i as int, total as int, cur as int, has_digit),
            duration_value(s@) == (match target {
                DurationScan::Total(t) => Ok(t),
                DurationScan::Fail(why) => Err(Some("failed to parse duration "@ + s@ + ": "@ + why)),
                DurationScan::Overflow => Ok(0),
            }),
        decreases n - i,
    {
        let c = s[i];
        match crate::text::digit_of(c) {
            Some(d) => {
                has_digit = true;
                let next = match cur.checked_mul(10) {
                    Some(x) => x.checked_add(d as i64),
                    None => None,
                };
                match next {
                    Some(x) => {
                        cur = x;
                    },
                    None => {
                        return None;
                    },
                }
                i = i + 1;
            },
            None => {
                if !has_digit {
                    let why = chars_of("invalid format");
                    return Some(duration_fail(s, &why));
                }
                let mut j = i;
                while j < n && crate::text::digit_of(s[j]).is_none()
                    invariant
                        n == s.len(),
                        i <= j <= n,
                        unit_end(s@, i as int) == unit_end(s@, j as int),
                    decreases n - j,
                {
                    j = j + 1;
                }
                proof {
                    lemma_unit_end(s@, i as int);
                }
                let unit = slice_of(s, i, j);
                match unit_scale(&unit) {
                    None => {
                        let mut why = chars_of("unknown unit ");
                        push_all(&mut why, &unit);
                        return Some(duration_fail(s, &why));
                    },
                    Some(m) => {
                        proof {
                            assert(cur as int * m as int >= 0) by (nonlinear_arith)
                                requires
                                    cur >= 0,
                                    m >= 1,
                            ;
                        }
                        let p = match cur.checked_mul(m) {
                            Some(p) => p,
                            None => {
                                return None;
                            },
                        };
                        total = match total.checked_add(p) {
                            Some(t) => t,
                            None => {
                                return None;
                            },
                        };
                        cur = 0;
                        has_digit = false;
                        i = j;
                    },
                }
            },
        }
    }
    if has_digit {
        let why = chars_of("missing unit");
        return Some(duration_fail(s, &why));
    }
    Some(Ok(Duration::nanoseconds(total)))
}

/// The duration written `s`, such as `1h30m`: numbers, each with a unit
/// (`ns`, `us` or `µs`, `ms`, `s`, `m`, `h`).
pub fn parse_duration(s: &str) -> (r: Result<Duration, ParseError>)
    requires
        duration_fits(s@),
    ensures
        match duration_value(s@) {
            Ok(n) => r matches Ok(d) && d@ == n && d == crate::duration::duration_of(n),
            Err(e) => r matches Err(err) && err@ == e,
        },
{
    let v = chars_of(s);
    match parse_duration_chars(&v) {
        Some(r) => r,
        None => {
            assert(false);
            Err(ParseError::EmptySpec)
        },
    }
}

// ---------------------------------------------------------------------------
// Descriptors.
/// Every value from `min` to `max`, with the star bit.
pub open spec fn star_mask(min: int, max: int) -> u64 {
    mask_of(min, max, 1) | STAR_BIT
}

/// The calendar schedule with the given bit sets.
pub open spec fn calendar(
    second: u64,
    minute: u64,
    hour: u64,
    dom: u64,
    month: u64,
    dow: u64,
    location: Option<Location>,
) -> ParsedSchedule {
    ParsedSchedule::Spec(SpecSchedule { second, minute, hour, dom, month, dow, location })
}

/// The schedule a descriptor stands for: `@yearly` (or `@annually`),
/// `@monthly`, `@weekly`, `@daily` (or `@midnight`), `@hourly`, or
/// `@every <duration>`.
pub open spec fn descriptor_value(d: Seq<char>, loc: Option<Location>) -> Outcome<ParsedSchedule> {
    if d == "@yearly"@ || d == "@annually"@ {
        Ok(calendar(1, 1, 1, 2, 2, star_mask(0, 6), loc))
    } else if d == "@monthly"@ {
        Ok(calendar(1, 1, 1, 2, star_mask(1, 12), star_mask(0, 6), loc))
    } else if d == "@weekly"@ {
        Ok(calendar(1, 1, 1, star_mask(1, 31), star_mask(1, 12), 1, loc))
    } else if d == "@daily"@ || d == "@midnight"@ {
        Ok(calendar(1, 1, 1, star_mask(1, 31), star_mask(1, 12), star_mask(0, 6), loc))
    } else if d == "@hourly"@ {
        Ok(calendar(1, 1, star_mask(0, 23), star_mask(1, 31), star_mask(1, 12), star_mask(0, 6), loc))
    } else if starts_with_text(d, "@every "@) {
        match duration_value(d.subrange("@every "@.len() as int, d.len() as int)) {
            Ok(n) => Ok(
                ParsedSchedule::Every(
                    ConstantDelaySchedule { delay: crate::duration::duration_of(every_delay(n)) },
                ),
            ),
            Err(e) => Err(e),
        }
    } else {
        Err(Some("unrecognized descriptor: "@ + d))
    }
}

/// An `@every` descriptor's duration can be read in `i64` arithmetic.
pub open spec fn descriptor_fits(d: Seq<char>) -> bool {
    starts_with_text(d, "@every "@) ==> duration_fits(d.subrange("@every "@.len() as int, d.len() as int))
}

fn star(min: u32, max: u32) -> (bits: u64)
    requires
        min <= max < 64,
    ensures
        bits == star_mask(min as int, max as int),
{
    proof {
        lemma_steps_fit(min as int, max as int, 1);
    }
    all(Bounds { min, max, names: None })
}

/// The named descriptors are not `@every` descriptors.
proof fn lemma_named_not_every(d: Seq<char>)
    ensures
        (d == "@yearly"@ || d == "@annually"@ || d == "@monthly"@ || d == "@weekly"@ || d
            == "@daily"@ || d == "@midnight"@ || d == "@hourly"@) ==> !starts_with_text(
            d,
            "@every "@,
        ),
{
    reveal_strlit("@every ");
    reveal_strlit("@yearly");
    reveal_strlit("@annually");
    reveal_strlit("@monthly");
    reveal_strlit("@weekly");
    reveal_strlit("@daily");
    reveal_strlit("@midnight");
    reveal_strlit("@hourly");
    if starts_with_text(d, "@every "@) {
        assert(d.subrange(0, 7)[1] == 'e');
        assert(d[1] == 'e');
    }
}

/// Reads the descriptor `d`; `None` when its duration leaves `i64`
/// arithmetic.
fn descriptor_chars(d: &Vec<char>, loc: Option<Location>) -> (r: Option<Result<ParsedSchedule, ParseError>>)
    ensures
        r is None <==> !descriptor_fits(d@),
        r matches Some(x) ==> gives(x, descriptor_value(d@, loc)),
{
    let sched = |second: u64, minute: u64, hour: u64, dom: u64, month: u64, dow: u64| -> (p:
        ParsedSchedule)
        ensures
            p == calendar(second, minute, hour, dom, month, dow, loc),
        { ParsedSchedule::Spec(SpecSchedule { second, minute, hour, dom, month, dow, location: loc }) };
    proof {
        lemma_named_not_every(d@);
    }
    if text_is(d, "@yearly") || text_is(d, "@annually") {
        Some(Ok(sched(1, 1, 1, 2, 2, star(0, 6))))
    } else if text_is(d, "@monthly") {
        Some(Ok(sched(1, 1, 1, 2, star(1, 12), star(0, 6))))
    } else if text_is(d, "@weekly") {
        Some(Ok(sched(1, 1, 1, star(1, 31), star(1, 12), 1)))
    } else if text_is(d, "@daily") || text_is(d, "@midnight") {
        Some(Ok(sched(1, 1, 1, star(1, 31), star(1, 12), star(0, 6))))
    } else if text_is(d, "@hourly") {
        Some(Ok(sched(1, 1, star(0, 23), star(1, 31), star(1, 12), star(0, 6))))
    } else if starts_with(d, "@every ") {
        let prefix = chars_of("@every ");
        let rest = slice_of(d, prefix.len(), d.len());
        match parse_duration_chars(&rest) {
            Some(Ok(dur)) => Some(Ok(ParsedSchedule::Every(every(dur)))),
            Some(Err(e)) => Some(Err(e)),
            None => None,
        }
    } else {
        let mut m = chars_of("unrecognized descriptor: ");
        push_all(&mut m, d);
        Some(fail(&m))
    }
}

/// The schedule a descriptor stands for, read in `loc`.
pub fn parse_descriptor(descriptor: &str, loc: Option<Location>) -> (r: Result<ParsedSchedule, ParseError>)
    requires
        descriptor_fits(descriptor@),
    ensures
        gives(r, descriptor_value(descriptor@, loc)),
{
    let d = chars_of(descriptor);
    match descriptor_chars(&d, loc) {
        Some(r) => r,
        None => {
            assert(false);
            Err(ParseError::EmptySpec)
        },
    }
}

// ---------------------------------------------------------------------------
// Whole expressions.
/// The calendar schedule with the six fields `f`, read in `loc`.
pub open spec fn fields_schedule(f: Seq<Seq<char>>, loc: Option<Location>) -> Outcome<ParsedSchedule> {
    match field_value(f[0], 0, 59, None) {
        Err(e) => Err(e),
        Ok(second) => match field_value(f[1], 0, 59, None) {
            Err(e) => Err(e),
            Ok(minute) => match field_value(f[2], 0, 23, None) {
                Err(e) => Err(e),
                Ok(hour) => match field_value(f[3], 1, 31, None) {
                    Err(e) => Err(e),
                    Ok(dom) => match field_value(f[4], 1, 12, Some(month_names())) {
                        Err(e) => Err(e),
                        Ok(month) => match field_value(f[5], 0, 6, Some(weekday_names())) {
                            Err(e) => Err(e),
                            Ok(dow) => Ok(calendar(second, minute, hour, dom, month, dow, loc)),
                        },
                    },
                },
            },
        },
    }
}

/// The schedule an expression without a zone prefix stands for: a
/// descriptor (when the options allow them), or fields.
pub open spec fn body_value(options: u32, s: Seq<char>, loc: Option<Location>) -> Outcome<ParsedSchedule> {
    if starts_with_text(s, "@"@) {
        if options & parse_option::DESCRIPTOR == 0 {
            Err(Some("parser does not accept descriptors: "@ + s))
        } else {
            descriptor_value(s, loc)
        }
    } else {
        match normalize_text(words_of(s), options) {
            Err(e) => Err(e),
            Ok(f) => fields_schedule(f, loc),
        }
    }
}

/// The position of the first `=` (the end of the zone prefix's key).
pub open spec fn key_end(s: Seq<char>) -> int {
    match find_text(s, '=') {
        Some(e) => e,
        None => 0,
    }
}

/// `s` begins with a zone prefix, `TZ=` or `CRON_TZ=`.
pub open spec fn has_zone_prefix(s: Seq<char>) -> bool {
    starts_with_text(s, "TZ="@) || starts_with_text(s, "CRON_TZ="@)
}

/// The schedule the expression `raw` stands for under parser options
/// `options`: white space around it is ignored, and a `TZ=<zone> ` or
/// `CRON_TZ=<zone> ` prefix names the zone whose wall clock it reads.
pub open spec fn parse_value(options: u32, raw: Seq<char>) -> Outcome<ParsedSchedule> {
    let s = trim_text(raw);
    if s.len() == 0 {
        Err(None)
    } else if has_zone_prefix(s) {
        let eq = key_end(s);
        match find_text(s, ' ') {
            None => Err(Some("provided bad location "@ + s.subrange(eq + 1, s.len() as int))),
            Some(sp) => {
                let name = s.subrange(eq + 1, sp);
                match zone_named(name) {
                    None => Err(Some("provided bad location "@ + name)),
                    Some(l) => body_value(options, trim_text(s.subrange(sp, s.len() as int)), Some(l)),
                }
            },
        }
    } else {
        body_value(options, s, None)
    }
}

/// An `@every` duration that the parse of `s` reaches can be read in `i64`
/// arithmetic (std panics on overflow otherwise).
pub open spec fn body_fits(options: u32, s: Seq<char>) -> bool {
    (starts_with_text(s, "@"@) && options & parse_option::DESCRIPTOR != 0) ==> descriptor_fits(s)
}

/// An `@every` duration that the parse of `raw` reaches can be read in
/// `i64` arithmetic.
pub open spec fn parse_fits(options: u32, raw: Seq<char>) -> bool {
    let s = trim_text(raw);
    if s.len() == 0 {
        true
    } else if has_zone_prefix(s) {
        match find_text(s, ' ') {
            None => true,
            Some(sp) => match zone_named(s.subrange(key_end(s) + 1, sp)) {
                None => true,
                Some(l) => body_fits(options, trim_text(s.subrange(sp, s.len() as int))),
            },
        }
    } else {
        body_fits(options, s)
    }
}

proof fn lemma_find_from_skip(s: Seq<char>, c: char, i: int, k: int)
    requires
        0 <= i <= k <= s.len(),
        forall|j: int| i <= j < k ==> s[j] != c,
    ensures
        find_from(s, c, i) == find_from(s, c, k),
    decreases k - i,
{
    if i < k {
        lemma_find_from_skip(s, c, i + 1, k);
    }
}

proof fn lemma_find_from_bound(s: Seq<char>, c: char, i: int)
    requires
        0 <= i,
    ensures
        find_from(s, c, i) matches Some(j) ==> i <= j < s.len() && s[j] == c,
    decreases s.len() - i,
{
    if i < s.len() && s[i] != c {
        lemma_find_from_bound(s, c, i + 1);
    }
}

/// In a text with a zone prefix, the key ends before the first space.
proof fn lemma_zone_prefix(s: Seq<char>)
    requires
        has_zone_prefix(s),
    ensures
        find_text(s, '=') == Some(key_end(s)),
        0 <= key_end(s) < s.len(),
        find_text(s, ' ') matches Some(sp) ==> key_end(s) < sp <= s.len(),
{
    reveal_strlit("TZ=");
    reveal_strlit("CRON_TZ=");
    if starts_with_text(s, "TZ="@) {
        let p = s.subrange(0, 3);
        assert(p == "TZ="@);
        assert(p[0] == 'T' && p[1] == 'Z' && p[2] == '=');
        assert(s[0] == p[0] && s[1] == p[1] && s[2] == p[2]);
        lemma_find_from_skip(s, '=', 0, 2);
        lemma_find_from_skip(s, ' ', 0, 3);
        lemma_find_from_bound(s, ' ', 3);
    } else {
        let p = s.subrange(0, 8);
        assert(p == "CRON_TZ="@);
        assert(p[0] == 'C' && p[1] == 'R' && p[2] == 'O' && p[3] == 'N' && p[4] == '_' && p[5]
            == 'T' && p[6] == 'Z' && p[7] == '=');
        assert(s[0] == p[0] && s[1] == p[1] && s[2] == p[2] && s[3] == p[3] && s[4] == p[4] && s[5]
            == p[5] && s[6] == p[6] && s[7] == p[7]);
        lemma_find_from_skip(s, '=', 0, 7);
        lemma_find_from_skip(s, ' ', 0, 8);
        lemma_find_from_bound(s, ' ', 8);
    }
}

/// Reads an expression without a zone prefix; `None` when an `@every`
/// duration leaves `i64` arithmetic.
fn parse_body(options: u32, s: &Vec<char>, loc: Option<Location>) -> (r: Option<Result<ParsedSchedule, ParseError>>)
    ensures
        r is None <==> !body_fits(options, s@),
        r matches Some(x) ==> gives(x, body_value(options, s@, loc)),
{
    if starts_with(s, "@") {
        if options & parse_option::DESCRIPTOR == 0 {
            let mut m = chars_of("parser does not accept descriptors: ");
            push_all(&mut m, s);
            return Some(fail(&m));
        }
        return descriptor_chars(s, loc);
    }
    Some(parse_fields(options, s, loc))
}

fn parse_fields(options: u32, s: &Vec<char>, loc: Option<Location>) -> (r: Result<ParsedSchedule, ParseError>)
    requires
        !starts_with_text(s@, "@"@),
    ensures
        gives(r, body_value(options, s@, loc)),
{
    let fields = words(s);
    let normalized = match normalize_texts(&fields, options) {
        Ok(f) => f,
        Err(e) => {
            return Err(e);
        },
    };
    let ghost f = texts_of(normalized@);
    assert(f.len() == 6);
    proof {
        lemma_field_fits(f[0], 0, 59, None);
        lemma_field_fits(f[1], 0, 59, None);
        lemma_field_fits(f[2], 0, 23, None);
        lemma_field_fits(f[3], 1, 31, None);
        lemma_field_fits(f[4], 1, 12, Some(month_names()));
        lemma_field_fits(f[5], 0, 6, Some(weekday_names()));
        assert(f[0] == normalized@[0]@);
        assert(f[1] == normalized@[1]@);
        assert(f[2] == normalized@[2]@);
        assert(f[3] == normalized@[3]@);
        assert(f[4] == normalized@[4]@);
        assert(f[5] == normalized@[5]@);
    }
    let second = match get_field_chars(&normalized[0], seconds_bounds()) {
        Ok(b) => b,
        Err(e) => {
            return Err(e);
        },
    };
    let minute = match get_field_chars(&normalized[1], minutes_bounds()) {
        Ok(b) => b,
        Err(e) => {
            return Err(e);
        },
    };
    let hour = match get_field_chars(&normalized[2], hours_bounds()) {
        Ok(b) => b,
        Err(e) => {
            return Err(e);
        },
    };
    let dom = match get_field_chars(&normalized[3], dom_bounds()) {
        Ok(b) => b,
        Err(e) => {
            return Err(e);
        },
    };
    let month = match get_field_chars(&normalized[4], months_bounds()) {
        Ok(b) => b,
        Err(e) => {
            return Err(e);
        },
    };
    let dow = match get_field_chars(&normalized[5], dow_bounds()) {
        Ok(b) => b,
        Err(e) => {
            return Err(e);
        },
    };
    Ok(ParsedSchedule::Spec(SpecSchedule { second, minute, hour, dom, month, dow, location: loc }))
}

/// A cron expression parser, accepting the fields that `options` names
/// (see `parse_option`).
#[derive(Debug, Clone, PartialEq, Eq)]
pub struct Parser {
    pub options: u32,
}

impl Parser {
    /// A parser for the fields that `options` names; at most one of the
    /// optional fields may be configured.
    pub fn new(options: u32) -> (p: Parser)
        requires
            !(options & parse_option::DOW_OPTIONAL != 0 && options & parse_option::SECOND_OPTIONAL
                != 0),
        ensures
            p.options == options,
    {
        Parser { options }
    }

    /// The schedule the expression `spec` stands for (see [`parse_value`]),
    /// or `None` when an `@every` duration in it leaves `i64` arithmetic.
    pub fn checked_parse(&self, spec: &str) -> (r: Option<Result<ParsedSchedule, ParseError>>)
        ensures
            r is None <==> !parse_fits(self.options, spec@),
            r matches Some(x) ==> gives(x, parse_value(self.options, spec@)),
    {
        let raw = chars_of(spec);
        let s = trim(&raw);
        if s.len() == 0 {
            return Some(Err(ParseError::EmptySpec));
        }
        if starts_with(&s, "TZ=") || starts_with(&s, "CRON_TZ=") {
            proof {
                lemma_zone_prefix(s@);
            }
            let eq = match find_char(&s, '=') {
                Some(e) => e,
                None => {
                    return Some(Err(ParseError::EmptySpec));
                },
            };
            let sp = match find_char(&s, ' ') {
                Some(sp) => sp,
                None => {
                    let mut m = chars_of("provided bad location ");
                    let rest = slice_of(&s, eq + 1, s.len());
                    push_all(&mut m, &rest);
                    return Some(fail(&m));
                },
            };
            let name = slice_of(&s, eq + 1, sp);
            let name_s = string_of(&name);
            let loc = match Location::from_name(name_s.as_str()) {
                Some(l) => l,
                None => {
                    let mut m = chars_of("provided bad location ");
                    push_all(&mut m, &name);
                    return Some(fail(&m));
                },
            };
            let rest = slice_of(&s, sp, s.len());
            let body = trim(&rest);
            return parse_body(self.options, &body, Some(loc));
        }
        parse_body(self.options, &s, None)
    }

    /// The schedule the expression `spec` stands for (see [`parse_value`]).
    pub fn parse(&self, spec: &str) -> (r: Result<ParsedSchedule, ParseError>)
        requires
            parse_fits(self.options, spec@),
        ensures
            gives(r, parse_value(self.options, spec@)),
    {
        match self.checked_parse(spec) {
            Some(r) => r,
            None => {
                assert(false);
                Err(ParseError::EmptySpec)
            },
        }
    }
}

/// The options of the standard parser: minute, hour, day of month, month,
/// day of week, and descriptors.
pub open spec fn standard_options() -> u32 {
    parse_option::MINUTE | parse_option::HOUR | parse_option::DOM | parse_option::MONTH
        | parse_option::DOW | parse_option::DESCRIPTOR
}

/// The parser for standard five-field expressions and descriptors.
pub fn standard_parser() -> (p: Parser)
    ensures
        p.options == standard_options(),
{
    let options = parse_option::MINUTE | parse_option::HOUR | parse_option::DOM
        | parse_option::MONTH | parse_option::DOW | parse_option::DESCRIPTOR;
    assert(options & parse_option::DOW_OPTIONAL == 0) by (bit_vector)
        requires
            options == 4u32 | 8u32 | 16u32 | 32u32 | 64u32 | 256u32,
    ;
    Parser::new(options)
}

/// The schedule a standard expression stands for.
pub fn parse_standard(standard_spec: &str) -> (r: Result<ParsedSchedule, ParseError>)
    requires
        parse_fits(standard_options(), standard_spec@),
    ensures
        gives(r, parse_value(standard_options(), standard_spec@)),
{
    standard_parser().parse(standard_spec)
}

} // verus!
