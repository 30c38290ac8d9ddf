//! Conversions between units.
//!
//! A conversion is a value, the unit that it is in, one of the words `to`, `in`
//! and `into`, and the unit that is asked for. Which conversion a text asks for
//! is decided here; the arithmetic is done on doubles, outside.

use vstd::arithmetic::power2::{lemma2_to64, lemma2_to64_rest, pow2};
use vstd::prelude::*;
use vstd::slice::slice_subrange;

use super::expr::{is_number_text, number_text};
use crate::cuts::{law_lowering, law_trimming, law_words, tight};
use crate::stdtext::{lowercase, to_lowercase};
use crate::text;
use crate::text::{
    ascii_lower, find, is_digit, is_white, lemma_trim_end, lemma_trim_start, lemma_word_len, rows,
    trim, trim_end, trim_start, word_len, words,
};

verus! {

// ---------------------------------------------------------------------------
// Units
// ---------------------------------------------------------------------------

/// A scale of temperature.
#[derive(Debug, Clone, Copy, PartialEq, Eq, Structural)]
pub enum Scale {
    Celsius,
    Fahrenheit,
    Kelvin,
}

/// What a unit measures.
#[derive(Debug, Clone, Copy, PartialEq, Eq, Structural)]
pub enum Dimension {
    Length,
    Mass,
    Data,
}

/// A unit that is a multiple of another: of the metre, the gram or the byte.
#[derive(Debug, Clone, Copy, PartialEq, Eq, Structural)]
pub struct LinearUnit {
    pub dimension: Dimension,
    /// How many of the base unit it is, as the bit pattern of a double.
    pub factor: u64,
}

/// How a value is converted.
#[derive(Debug, Clone, Copy, PartialEq, Eq, Structural)]
pub enum ConversionRule {
    Temperature { from: Scale, to: Scale },
    /// Multiply by one factor and divide by the other; both as bit patterns.
    Linear { from: u64, to: u64 },
}

/// A conversion that a text asks for.
#[derive(Debug, Clone, PartialEq, Eq)]
pub struct Conversion {
    /// The value as it was written.
    pub value: String,
    pub rule: ConversionRule,
    /// The unit that is asked for, as it was written.
    pub unit: String,
}

/// What a conversion is.
pub struct ConversionView {
    pub value: Seq<char>,
    pub rule: ConversionRule,
    pub unit: Seq<char>,
}

impl DeepView for Conversion {
    type V = ConversionView;

    open spec fn deep_view(&self) -> ConversionView {
        ConversionView { value: self.value@, rule: self.rule, unit: self.unit@ }
    }
}

/// The scale that a name stands for, in any letter case.
pub open spec fn scale_named(name: Seq<char>) -> Option<Scale> {
    let n = ascii_lower(name);
    if n == "c"@ || n == "celsius"@ {
        Some(Scale::Celsius)
    } else if n == "f"@ || n == "fahrenheit"@ {
        Some(Scale::Fahrenheit)
    } else if n == "k"@ || n == "kelvin"@ {
        Some(Scale::Kelvin)
    } else {
        None
    }
}

pub open spec fn length(factor: u64) -> Option<LinearUnit> {
    Some(LinearUnit { dimension: Dimension::Length, factor })
}

pub open spec fn mass(factor: u64) -> Option<LinearUnit> {
    Some(LinearUnit { dimension: Dimension::Mass, factor })
}

pub open spec fn data(factor: u64) -> Option<LinearUnit> {
    Some(LinearUnit { dimension: Dimension::Data, factor })
}

/// The unit that a name stands for, in any letter case. The factors are, in
/// order: 0.001, 0.01, 1, 1000, 0.0254, 0.3048, 0.9144 and 1609.344 metres;
/// 0.001, 1, 1000, 453.59237 and 28.349523125 grams; and 1, a thousand, a
/// million, a thousand million, a million million, and the first four powers of
/// 1024 bytes.
pub open spec fn unit_named(name: Seq<char>) -> Option<LinearUnit> {
    let n = ascii_lower(name);
    if n == "mm"@ {
        length(0x3F50_624D_D2F1_A9FC)
    } else if n == "cm"@ {
        length(0x3F84_7AE1_47AE_147B)
    } else if n == "m"@ {
        length(0x3FF0_0000_0000_0000)
    } else if n == "km"@ {
        length(0x408F_4000_0000_0000)
    } else if n == "in"@ {
        length(0x3F9A_0275_2546_0AA6)
    } else if n == "ft"@ {
        length(0x3FD3_81D7_DBF4_87FD)
    } else if n == "yd"@ {
        length(0x3FED_42C3_C9EE_CBFB)
    } else if n == "mi"@ {
        length(0x4099_2560_4189_374C)
    } else if n == "mg"@ {
        mass(0x3F50_624D_D2F1_A9FC)
    } else if n == "g"@ {
        mass(0x3FF0_0000_0000_0000)
    } else if n == "kg"@ {
        mass(0x408F_4000_0000_0000)
    } else if n == "lb"@ {
        mass(0x407C_597A_58F7_121B)
    } else if n == "oz"@ {
        mass(0x403C_597A_58F7_121B)
    } else if n == "b"@ {
        data(0x3FF0_0000_0000_0000)
    } else if n == "kb"@ {
        data(0x408F_4000_0000_0000)
    } else if n == "mb"@ {
        data(0x412E_8480_0000_0000)
    } else if n == "gb"@ {
        data(0x41CD_CD65_0000_0000)
    } else if n == "tb"@ {
        data(0x426D_1A94_A200_0000)
    } else if n == "kib"@ {
        data(0x4090_0000_0000_0000)
    } else if n == "mib"@ {
        data(0x4130_0000_0000_0000)
    } else if n == "gib"@ {
        data(0x41D0_0000_0000_0000)
    } else if n == "tib"@ {
        data(0x4270_0000_0000_0000)
    } else {
        None
    }
}

/// How a value is converted between two units: temperatures between scales,
/// anything else between units that measure the same.
pub open spec fn rule_between(from: Seq<char>, to: Seq<char>) -> Option<ConversionRule> {
    match (scale_named(from), scale_named(to)) {
        (Some(a), Some(b)) => Some(ConversionRule::Temperature { from: a, to: b }),
        _ => match (unit_named(from), unit_named(to)) {
            (Some(a), Some(b)) if a.dimension == b.dimension => Some(
                ConversionRule::Linear { from: a.factor, to: b.factor },
            ),
            _ => None,
        },
    }
}

fn scale_of(name: &[char]) -> (r: Option<Scale>)
    ensures
        r == scale_named(name@),
{
    let n = text::lowered_chars(name);
    if text::is_text(&n, "c") || text::is_text(&n, "celsius") {
        Some(Scale::Celsius)
    } else if text::is_text(&n, "f") || text::is_text(&n, "fahrenheit") {
        Some(Scale::Fahrenheit)
    } else if text::is_text(&n, "k") || text::is_text(&n, "kelvin") {
        Some(Scale::Kelvin)
    } else {
        None
    }
}

fn linear_factor(name: &[char]) -> (r: Option<LinearUnit>)
    ensures
        r == unit_named(name@),
{
    let n = text::lowered_chars(name);
    if text::is_text(&n, "mm") {
        Some(LinearUnit { dimension: Dimension::Length, factor: 0x3F50_624D_D2F1_A9FC })
    } else if text::is_text(&n, "cm") {
        Some(LinearUnit { dimension: Dimension::Length, factor: 0x3F84_7AE1_47AE_147B })
    } else if text::is_text(&n, "m") {
        Some(LinearUnit { dimension: Dimension::Length, factor: 0x3FF0_0000_0000_0000 })
    } else if text::is_text(&n, "km") {
        Some(LinearUnit { dimension: Dimension::Length, factor: 0x408F_4000_0000_0000 })
    } else if text::is_text(&n, "in") {
        Some(LinearUnit { dimension: Dimension::Length, factor: 0x3F9A_0275_2546_0AA6 })
    } else if text::is_text(&n, "ft") {
        Some(LinearUnit { dimension: Dimension::Length, factor: 0x3FD3_81D7_DBF4_87FD })
    } else if text::is_text(&n, "yd") {
        Some(LinearUnit { dimension: Dimension::Length, factor: 0x3FED_42C3_C9EE_CBFB })
    } else if text::is_text(&n, "mi") {
        Some(LinearUnit { dimension: Dimension::Length, factor: 0x4099_2560_4189_374C })
    } else if text::is_text(&n, "mg") {
        Some(LinearUnit { dimension: Dimension::Mass, factor: 0x3F50_624D_D2F1_A9FC })
    } else if text::is_text(&n, "g") {
        Some(LinearUnit { dimension: Dimension::Mass, factor: 0x3FF0_0000_0000_0000 })
    } else if text::is_text(&n, "kg") {
        Some(LinearUnit { dimension: Dimension::Mass, factor: 0x408F_4000_0000_0000 })
    } else if text::is_text(&n, "lb") {
        Some(LinearUnit { dimension: Dimension::Mass, factor: 0x407C_597A_58F7_121B })
    } else if text::is_text(&n, "oz") {
        Some(LinearUnit { dimension: Dimension::Mass, factor: 0x403C_597A_58F7_121B })
    } else if text::is_text(&n, "b") {
        Some(LinearUnit { dimension: Dimension::Data, factor: 0x3FF0_0000_0000_0000 })
    } else if text::is_text(&n, "kb") {
        Some(LinearUnit { dimension: Dimension::Data, factor: 0x408F_4000_0000_0000 })
    } else if text::is_text(&n, "mb") {
        Some(LinearUnit { dimension: Dimension::Data, factor: 0x412E_8480_0000_0000 })
    } else if text::is_text(&n, "gb") {
        Some(LinearUnit { dimension: Dimension::Data, factor: 0x41CD_CD65_0000_0000 })
    } else if text::is_text(&n, "tb") {
        Some(LinearUnit { dimension: Dimension::Data, factor: 0x426D_1A94_A200_0000 })
    } else if text::is_text(&n, "kib") {
        Some(LinearUnit { dimension: Dimension::Data, factor: 0x4090_0000_0000_0000 })
    } else if text::is_text(&n, "mib") {
        Some(LinearUnit { dimension: Dimension::Data, factor: 0x4130_0000_0000_0000 })
    } else if text::is_text(&n, "gib") {
        Some(LinearUnit { dimension: Dimension::Data, factor: 0x41D0_0000_0000_0000 })
    } else if text::is_text(&n, "tib") {
        Some(LinearUnit { dimension: Dimension::Data, factor: 0x4270_0000_0000_0000 })
    } else {
        None
    }
}

fn rule_of(from: &[char], to: &[char]) -> (r: Option<ConversionRule>)
    ensures
        r == rule_between(from@, to@),
{
    if let (Some(a), Some(b)) = (scale_of(from), scale_of(to)) {
        return Some(ConversionRule::Temperature { from: a, to: b });
    }
    if let (Some(a), Some(b)) = (linear_factor(from), linear_factor(to)) {
        if a.dimension == b.dimension {
            return Some(ConversionRule::Linear { from: a.factor, to: b.factor });
        }
    }
    None
}

/// A unit can be converted to another exactly when that can be converted back.
pub proof fn law_conversions_go_both_ways(from: Seq<char>, to: Seq<char>)
    ensures
        rule_between(from, to) is Some <==> rule_between(to, from) is Some,
        rule_between(from, to) matches Some(ConversionRule::Temperature { from: a, to: b })
            ==> rule_between(to, from) == Some(ConversionRule::Temperature { from: b, to: a }),
        rule_between(from, to) matches Some(ConversionRule::Linear { from: a, to: b })
            ==> rule_between(to, from) == Some(ConversionRule::Linear { from: b, to: a }),
{
}

// ---------------------------------------------------------------------------
// Places in a text
// ---------------------------------------------------------------------------

/// How many bytes UTF-8 takes for a character.
pub open spec fn width(c: char) -> int {
    let u = c as u32;
    if u < 0x80 {
        1
    } else if u < 0x800 {
        2
    } else if u < 0x10000 {
        3
    } else {
        4
    }
}

/// How many bytes UTF-8 takes for a text.
pub open spec fn byte_len(s: Seq<char>) -> int
    decreases s.len(),
{
    if s.len() == 0 {
        0
    } else {
        byte_len(s.drop_last()) + width(s.last())
    }
}

/// Whether a character of `s` begins, or `s` ends, after `bytes` bytes: the place
/// is `at`.
pub open spec fn place(s: Seq<char>, bytes: int, at: int) -> bool {
    0 <= at <= s.len() && byte_len(s.take(at)) == bytes
}

/// Whether there is a place after so many bytes.
pub open spec fn has_place(s: Seq<char>, bytes: int) -> bool {
    exists|at: int| place(s, bytes, at)
}

/// The place after so many bytes.
pub open spec fn place_after(s: Seq<char>, bytes: int) -> int {
    choose|at: int| place(s, bytes, at)
}

/// The word between the units, and where it stands in the text in lower case:
/// the first `to`, else the first `in`, else the first `into`. The pair is the
/// place and how long the word is with the spaces around it.
pub open spec fn separator(lower: Seq<char>) -> Option<(int, int)> {
    match (find(lower, " to "@), find(lower, " in "@), find(lower, " into "@)) {
        (Some(i), _, _) => Some((i, 4int)),
        (None, Some(i), _) => Some((i, 4int)),
        (None, None, Some(i)) => Some((i, 6int)),
        (None, None, None) => None,
    }
}

/// Whether the ends of the word between the units, counted in bytes of the text
/// in lower case, are places in the text itself.
pub open spec fn separable(src: Seq<char>, lower: Seq<char>) -> bool {
    match separator(lower) {
        Some((i, n)) => has_place(src, byte_len(lower.take(i))) && has_place(
            src,
            byte_len(lower.take(i)) + n,
        ),
        None => true,
    }
}

proof fn lemma_byte_len_grows(s: Seq<char>, a: int, b: int)
    requires
        0 <= a <= b <= s.len(),
    ensures
        byte_len(s.take(a)) + (b - a) <= byte_len(s.take(b)),
        0 <= byte_len(s.take(a)) <= 4 * a,
    decreases b,
{
    if a > 0 {
        assert(s.take(a).drop_last() =~= s.take(a - 1));
        lemma_byte_len_grows(s, a - 1, a - 1);
    }
    if a < b {
        assert(s.take(b).drop_last() =~= s.take(b - 1));
        lemma_byte_len_grows(s, a, b - 1);
    }
}

/// There is at most one place for a number of bytes.
proof fn lemma_one_place(s: Seq<char>, bytes: int, a: int, b: int)
    requires
        place(s, bytes, a),
        place(s, bytes, b),
    ensures
        a == b,
{
    if a < b {
        lemma_byte_len_grows(s, a, b);
    } else if b < a {
        lemma_byte_len_grows(s, b, a);
    }
}

fn char_width(c: char) -> (r: u8)
    ensures
        r == width(c),
{
    let u: u32 = c as u32;
    if u < 0x80 {
        1
    } else if u < 0x800 {
        2
    } else if u < 0x10000 {
        3
    } else {
        4
    }
}

fn bytes_before(s: &[char], n: usize) -> (r: u128)
    requires
        n <= s@.len(),
    ensures
        r == byte_len(s@.take(n as int)),
        r <= 4 * n,
{
    let mut sum: u128 = 0;
    let mut i: usize = 0;
    while i < n
        invariant
            i <= n <= s@.len(),
            sum == byte_len(s@.take(i as int)),
            sum <= 4 * i,
        decreases n - i,
    {
        assert(s@.take(i + 1).drop_last() =~= s@.take(i as int));
        sum = sum + char_width(s[i]) as u128;
        i += 1;
    }
    sum
}

fn place_of(s: &[char], bytes: u128) -> (r: Option<usize>)
    ensures
        r is Some ==> place(s@, bytes as int, r->0 as int),
        r is None ==> forall|a: int| !place(s@, bytes as int, a),
{
    let mut sum: u128 = 0;
    let mut i: usize = 0;
    while i < s.len()
        invariant
            i <= s@.len(),
            sum == byte_len(s@.take(i as int)),
            sum <= 4 * i,
            forall|a: int| 0 <= a < i ==> byte_len(#[trigger] s@.take(a)) != bytes,
        decreases s@.len() - i,
    {
        if sum == bytes {
            return Some(i);
        }
        assert(s@.take(i + 1).drop_last() =~= s@.take(i as int));
        sum = sum + char_width(s[i]) as u128;
        i += 1;
    }
    if sum == bytes {
        Some(i)
    } else {
        None
    }
}

// ---------------------------------------------------------------------------
// Conversions
// ---------------------------------------------------------------------------

/// The characters that the value may begin with.
pub open spec fn value_char(c: char) -> bool {
    is_digit(c) || c == '.' || c == '-' || c == '+'
}

/// How many of the first characters belong to the value.
pub open spec fn value_len(s: Seq<char>) -> nat
    decreases s.len(),
{
    if s.len() > 0 && value_char(s[0]) {
        value_len(s.skip(1)) + 1
    } else {
        0
    }
}

/// Whether a text is a number with a sign before it or without one.
pub open spec fn is_signed_number(s: Seq<char>) -> bool {
    if s.len() > 0 && (s[0] == '-' || s[0] == '+') {
        is_number_text(s.skip(1))
    } else {
        is_number_text(s)
    }
}

/// The conversion of what stands on the left to the unit that stands first on the
/// right.
pub open spec fn conversion_of(left: Seq<char>, right: Seq<char>) -> Option<ConversionView> {
    let lhs = trim(left);
    let n = value_len(lhs) as int;
    let units = words(trim(right));
    if units.len() == 0 || n == lhs.len() || !is_signed_number(lhs.take(n)) {
        None
    } else {
        match rule_between(trim(lhs.skip(n)), units[0]) {
            Some(rule) => Some(ConversionView { value: lhs.take(n), rule, unit: units[0] }),
            None => None,
        }
    }
}

/// The conversion that a text asks for, if it asks for one. `lower` is the text in
/// lower case: the word between the units is looked for there, and its ends are
/// carried over to the text itself by their bytes.
pub open spec fn conversion_in(src: Seq<char>, lower: Seq<char>) -> Option<ConversionView> {
    match separator(lower) {
        Some((i, n)) => {
            let start = byte_len(lower.take(i));
            conversion_of(src.take(place_after(src, start)), src.skip(place_after(src, start + n)))
        },
        None => None,
    }
}

fn find_separator(lower: &[char]) -> (r: Option<(usize, u8)>)
    ensures
        r is Some <==> separator(lower@) is Some,
        r matches Some((i, n)) ==> i <= lower@.len() && separator(lower@) == Some(
            (i as int, n as int),
        ),
{
    let to = text::chars(" to ");
    if let Some(i) = text::find_chars(lower, &to) {
        return Some((i, 4));
    }
    let within = text::chars(" in ");
    if let Some(i) = text::find_chars(lower, &within) {
        return Some((i, 4));
    }
    let into = text::chars(" into ");
    match text::find_chars(lower, &into) {
        Some(i) => Some((i, 6)),
        None => None,
    }
}

fn signed_number(s: &[char]) -> (r: bool)
    ensures
        r == is_signed_number(s@),
{
    let len: usize = s.len();
    if len > 0 && (s[0] == '-' || s[0] == '+') {
        let digits = slice_subrange(s, 1, len);
        assert(digits@ =~= s@.skip(1));
        number_text(digits)
    } else {
        number_text(s)
    }
}

fn read_conversion(left: &[char], right: &[char]) -> (r: Option<Conversion>)
    ensures
        r.deep_view() == conversion_of(left@, right@),
{
    let lhs = text::trim_chars(left);
    let len: usize = lhs.len();
    let mut n: usize = 0;
    assert(lhs@.skip(0) =~= lhs@);
    while n < len && (text::ascii_digit(lhs[n]) || lhs[n] == '.' || lhs[n] == '-' || lhs[n] == '+')
        invariant
            n <= len,
            len == lhs@.len(),
            value_len(lhs@) == n + value_len(lhs@.skip(n as int)),
        decreases len - n,
    {
        assert(lhs@.skip(n as int).skip(1) =~= lhs@.skip(n + 1));
        n += 1;
    }
    assert(value_len(lhs@) == n);
    let units = text::words_chars(text::trim_chars(right));
    let ghost uv = rows(units@);
    if units.len() == 0 || n == len {
        return None;
    }
    let value = slice_subrange(lhs, 0, n);
    let behind = slice_subrange(lhs, n, len);
    proof {
        assert(value@ =~= lhs@.take(n as int));
        assert(behind@ =~= lhs@.skip(n as int));
        assert(uv[0] == units@[0]@);
    }
    if !signed_number(value) {
        return None;
    }
    match rule_of(text::trim_chars(behind), &units[0]) {
        Some(rule) => Some(
            Conversion { value: text::string(value), rule, unit: text::string(&units[0]) },
        ),
        None => None,
    }
}

/// The conversion that a text asks for, given the text in lower case.
pub fn conversion_with(src: &str, lower: &str) -> (r: Option<Conversion>)
    requires
        separable(src@, lower@),
    ensures
        r.deep_view() == conversion_in(src@, lower@),
{
    let cs = text::chars(src);
    let low = text::chars(lower);
    match find_separator(&low) {
        Some((i, n)) => {
            let start = bytes_before(&low, i);
            let end = start + n as u128;
            match (place_of(&cs, start), place_of(&cs, end)) {
                (Some(a), Some(b)) => {
                    let left = slice_subrange(&cs, 0, a);
                    let right = slice_subrange(&cs, b, cs.len());
                    proof {
                        assert(left@ =~= src@.take(a as int));
                        assert(right@ =~= src@.skip(b as int));
                        let (pa, pb) = (
                            place_after(src@, start as int),
                            place_after(src@, start + n),
                        );
                        lemma_one_place(src@, start as int, a as int, pa);
                        lemma_one_place(src@, start + n, b as int, pb);
                    }
                    read_conversion(left, right)
                },
                _ => None,
            }
        },
        None => None,
    }
}

/// Whether the word between the units can be carried over from the text in lower
/// case to the text itself.
fn can_separate(src: &str, lower: &str) -> (r: bool)
    ensures
        r == separable(src@, lower@),
{
    let cs = text::chars(src);
    let low = text::chars(lower);
    match find_separator(&low) {
        Some((i, n)) => {
            let start = bytes_before(&low, i);
            let end = start + n as u128;
            match (place_of(&cs, start), place_of(&cs, end)) {
                (Some(a), Some(b)) => {
                    assert(place(src@, start as int, a as int));
                    assert(place(src@, start + n, b as int));
                    true
                },
                _ => false,
            }
        },
        None => true,
    }
}

/// The conversion that a text asks for. The outer result is nothing where the
/// text is of another length in lower case, so that the word between the units
/// has no place in it.
pub fn parse_conversion(src: &str) -> (r: Option<Option<Conversion>>)
    ensures
        r is Some <==> separable(src@, lowercase(src@)),
        r is Some ==> (r->0).deep_view() == conversion_in(src@, lowercase(src@)),
{
    let lower = to_lowercase(src);
    if can_separate(src, &lower) {
        Some(conversion_with(src, &lower))
    } else {
        None
    }
}

// ---------------------------------------------------------------------------
// What the units are
// ---------------------------------------------------------------------------

/// Whether a bit pattern is that of the double nearest to `num / den`. The pattern holds
/// fifty-two bits of the fraction, a leading one that is not written, and a power of
/// two.
pub open spec fn rounds(bits: u64, num: int, den: int) -> bool {
    let fraction = bits as int % 0x10_0000_0000_0000 + 0x10_0000_0000_0000;
    let halvings = 1075 - bits as int / 0x10_0000_0000_0000;
    let off = fraction * den - num * pow2(halvings as nat);
    0 <= halvings && -den <= 2 * off <= den
}

/// The sizes of the units in metres, grams and bytes.
pub open spec fn sized(name: Seq<char>, dimension: Dimension, bits: u64) -> bool {
    ||| name == "mm"@ && dimension == Dimension::Length && rounds(bits, 1, 1000)
    ||| name == "cm"@ && dimension == Dimension::Length && rounds(bits, 1, 100)
    ||| name == "m"@ && dimension == Dimension::Length && rounds(bits, 1, 1)
    ||| name == "km"@ && dimension == Dimension::Length && rounds(bits, 1000, 1)
    ||| name == "in"@ && dimension == Dimension::Length && rounds(bits, 254, 10000)
    ||| name == "ft"@ && dimension == Dimension::Length && rounds(bits, 3048, 10000)
    ||| name == "yd"@ && dimension == Dimension::Length && rounds(bits, 9144, 10000)
    ||| name == "mi"@ && dimension == Dimension::Length && rounds(bits, 1609344, 1000)
    ||| name == "mg"@ && dimension == Dimension::Mass && rounds(bits, 1, 1000)
    ||| name == "g"@ && dimension == Dimension::Mass && rounds(bits, 1, 1)
    ||| name == "kg"@ && dimension == Dimension::Mass && rounds(bits, 1000, 1)
    ||| name == "lb"@ && dimension == Dimension::Mass && rounds(bits, 45359237, 100000)
    ||| name == "oz"@ && dimension == Dimension::Mass && rounds(bits, 28349523125, 1000000000)
    ||| name == "b"@ && dimension == Dimension::Data && rounds(bits, 1, 1)
    ||| name == "kb"@ && dimension == Dimension::Data && rounds(bits, 1000, 1)
    ||| name == "mb"@ && dimension == Dimension::Data && rounds(bits, 1000000, 1)
    ||| name == "gb"@ && dimension == Dimension::Data && rounds(bits, 1000000000, 1)
    ||| name == "tb"@ && dimension == Dimension::Data && rounds(bits, 1000000000000, 1)
    ||| name == "kib"@ && dimension == Dimension::Data && rounds(bits, 1024, 1)
    ||| name == "mib"@ && dimension == Dimension::Data && rounds(bits, 1048576, 1)
    ||| name == "gib"@ && dimension == Dimension::Data && rounds(bits, 1073741824, 1)
    ||| name == "tib"@ && dimension == Dimension::Data && rounds(bits, 1099511627776, 1)
}

/// The names of the scales of temperature.
pub open spec fn degrees(name: Seq<char>, scale: Scale) -> bool {
    match scale {
        Scale::Celsius => name == "c"@ || name == "celsius"@,
        Scale::Fahrenheit => name == "f"@ || name == "fahrenheit"@,
        Scale::Kelvin => name == "k"@ || name == "kelvin"@,
    }
}

/// The bit patterns of the factors are those of the units' sizes.
proof fn lemma_factors()
    ensures
        rounds(0x3F50_624D_D2F1_A9FC, 1, 1000),
        rounds(0x3F84_7AE1_47AE_147B, 1, 100),
        rounds(0x3FF0_0000_0000_0000, 1, 1),
        rounds(0x408F_4000_0000_0000, 1000, 1),
        rounds(0x3F9A_0275_2546_0AA6, 254, 10000),
        rounds(0x3FD3_81D7_DBF4_87FD, 3048, 10000),
        rounds(0x3FED_42C3_C9EE_CBFB, 9144, 10000),
        rounds(0x4099_2560_4189_374C, 1609344, 1000),
        rounds(0x3F50_624D_D2F1_A9FC, 1, 1000),
        rounds(0x3FF0_0000_0000_0000, 1, 1),
        rounds(0x408F_4000_0000_0000, 1000, 1),
        rounds(0x407C_597A_58F7_121B, 45359237, 100000),
        rounds(0x403C_597A_58F7_121B, 28349523125, 1000000000),
        rounds(0x3FF0_0000_0000_0000, 1, 1),
        rounds(0x408F_4000_0000_0000, 1000, 1),
        rounds(0x412E_8480_0000_0000, 1000000, 1),
        rounds(0x41CD_CD65_0000_0000, 1000000000, 1),
        rounds(0x426D_1A94_A200_0000, 1000000000000, 1),
        rounds(0x4090_0000_0000_0000, 1024, 1),
        rounds(0x4130_0000_0000_0000, 1048576, 1),
        rounds(0x41D0_0000_0000_0000, 1073741824, 1),
        rounds(0x4270_0000_0000_0000, 1099511627776, 1),
{
    lemma2_to64();
    lemma2_to64_rest();
}

/// A name that stands for a unit is known as one that measures the same.
proof fn lemma_known(n: Seq<char>, dimension: Dimension, bits: u64)
    requires
        sized(n, dimension, bits),
        n == ascii_lower(n),
    ensures
        unit_named(n) matches Some(u) && u.dimension == dimension,
{
    reveal_strlit("mm");
    reveal_strlit("cm");
    reveal_strlit("m");
    reveal_strlit("km");
    reveal_strlit("in");
    reveal_strlit("ft");
    reveal_strlit("yd");
    reveal_strlit("mi");
    reveal_strlit("mg");
    reveal_strlit("g");
    reveal_strlit("kg");
    reveal_strlit("lb");
    reveal_strlit("oz");
    reveal_strlit("b");
    reveal_strlit("kb");
    reveal_strlit("mb");
    reveal_strlit("gb");
    reveal_strlit("tb");
    reveal_strlit("kib");
    reveal_strlit("mib");
    reveal_strlit("gib");
    reveal_strlit("tib");
    assert("mm"@.len() == 2 && "mm"@[0] == 'm' && "mm"@[1] == 'm');
    assert("cm"@.len() == 2 && "cm"@[0] == 'c' && "cm"@[1] == 'm');
    assert("m"@.len() == 1 && "m"@[0] == 'm');
    assert("km"@.len() == 2 && "km"@[0] == 'k' && "km"@[1] == 'm');
    assert("in"@.len() == 2 && "in"@[0] == 'i' && "in"@[1] == 'n');
    assert("ft"@.len() == 2 && "ft"@[0] == 'f' && "ft"@[1] == 't');
    assert("yd"@.len() == 2 && "yd"@[0] == 'y' && "yd"@[1] == 'd');
    assert("mi"@.len() == 2 && "mi"@[0] == 'm' && "mi"@[1] == 'i');
    assert("mg"@.len() == 2 && "mg"@[0] == 'm' && "mg"@[1] == 'g');
    assert("g"@.len() == 1 && "g"@[0] == 'g');
    assert("kg"@.len() == 2 && "kg"@[0] == 'k' && "kg"@[1] == 'g');
    assert("lb"@.len() == 2 && "lb"@[0] == 'l' && "lb"@[1] == 'b');
    assert("oz"@.len() == 2 && "oz"@[0] == 'o' && "oz"@[1] == 'z');
    assert("b"@.len() == 1 && "b"@[0] == 'b');
    assert("kb"@.len() == 2 && "kb"@[0] == 'k' && "kb"@[1] == 'b');
    assert("mb"@.len() == 2 && "mb"@[0] == 'm' && "mb"@[1] == 'b');
    assert("gb"@.len() == 2 && "gb"@[0] == 'g' && "gb"@[1] == 'b');
    assert("tb"@.len() == 2 && "tb"@[0] == 't' && "tb"@[1] == 'b');
    assert("kib"@.len() == 3 && "kib"@[0] == 'k' && "kib"@[1] == 'i' && "kib"@[2] == 'b');
    assert("mib"@.len() == 3 && "mib"@[0] == 'm' && "mib"@[1] == 'i' && "mib"@[2] == 'b');
    assert("gib"@.len() == 3 && "gib"@[0] == 'g' && "gib"@[1] == 'i' && "gib"@[2] == 'b');
    assert("tib"@.len() == 3 && "tib"@[0] == 't' && "tib"@[1] == 'i' && "tib"@[2] == 'b');
}

/// What the names of units stand for, in any letter case: the factor of a unit is the
/// double nearest to its size, and no other name is known. The sizes are given in
/// metres, grams and bytes.
pub proof fn law_units_have_their_sizes(name: Seq<char>, dimension: Dimension, bits: u64)
    ensures
        unit_named(name) matches Some(u) ==> sized(ascii_lower(name), u.dimension, u.factor),
        sized(ascii_lower(name), dimension, bits) ==> (unit_named(name) matches Some(u)
            && u.dimension == dimension),
{
    lemma_factors();
    if sized(ascii_lower(name), dimension, bits) {
        let n = ascii_lower(name);
        assert(ascii_lower(n) =~= n);
        lemma_known(n, dimension, bits);
    }
}

/// A conversion goes from the unit that is named first to the other. Between scales of
/// temperature it is one of temperatures; between other units that measure the same, it
/// multiplies by the size of the first and divides by that of the second. Nothing else
/// is converted.
pub proof fn law_conversions_go_by_the_sizes(from: Seq<char>, to: Seq<char>)
    ensures
        rule_between(from, to) matches Some(ConversionRule::Temperature { from: a, to: b })
            ==> degrees(ascii_lower(from), a) && degrees(ascii_lower(to), b),
        rule_between(from, to) matches Some(ConversionRule::Linear { from: a, to: b })
            ==> exists|d: Dimension| #[trigger]
            sized(ascii_lower(from), d, a) && sized(ascii_lower(to), d, b),
        forall|a: Scale, b: Scale| #[trigger]
            degrees(ascii_lower(from), a) && #[trigger] degrees(ascii_lower(to), b)
                ==> rule_between(from, to) is Some && rule_between(from, to)->0 is Temperature,
        forall|d: Dimension, x: u64, y: u64| #[trigger]
            sized(ascii_lower(from), d, x) && #[trigger] sized(ascii_lower(to), d, y)
                ==> rule_between(from, to) is Some,
{
    reveal_strlit("c");
    reveal_strlit("celsius");
    reveal_strlit("f");
    reveal_strlit("fahrenheit");
    reveal_strlit("k");
    reveal_strlit("kelvin");
    if let Some(ConversionRule::Linear { from: a, to: b }) = rule_between(from, to) {
        let d = unit_named(from)->0.dimension;
        law_units_have_their_sizes(from, d, a);
        law_units_have_their_sizes(to, d, b);
        assert(sized(ascii_lower(from), d, a));
    }
    assert forall|d: Dimension, x: u64, y: u64| #[trigger]
        sized(ascii_lower(from), d, x) && #[trigger] sized(
            ascii_lower(to),
            d,
            y,
        ) implies rule_between(from, to) is Some by {
        law_units_have_their_sizes(from, d, x);
        law_units_have_their_sizes(to, d, y);
    }
}

/// What is written as a value, a unit and another unit is read as a conversion of that
/// value between those units. There may be white space between the value and its unit.
pub proof fn law_conversions_read_back(
    value: Seq<char>,
    g: Seq<char>,
    from: Seq<char>,
    before: Seq<char>,
    to: Seq<char>,
    behind: Seq<char>,
)
    requires
        forall|i: int| 0 <= i < value.len() ==> '0' <= #[trigger] value[i] <= '9' || value[i] == '.'
            || value[i] == '-' || value[i] == '+',
        is_signed_number(value),
        forall|i: int| 0 <= i < g.len() ==> is_white(#[trigger] g[i]),
        from.len() > 0,
        tight(from),
        !('0' <= from[0] <= '9') && from[0] != '.' && from[0] != '-' && from[0] != '+',
        forall|i: int| 0 <= i < before.len() ==> is_white(#[trigger] before[i]),
        to.len() > 0,
        forall|i: int| 0 <= i < to.len() ==> !is_white(#[trigger] to[i]),
        behind.len() == 0 || is_white(behind[0]),
    ensures
        conversion_of(value + g + from, before + to + behind) == (match rule_between(from, to) {
            Some(rule) => Some(ConversionView { value, rule, unit: to }),
            None => None,
        }),
{
    let left = value + g + from;
    let none = Seq::<char>::empty();
    assert(value.len() > 0);
    assert(left[0] == value[0]);
    assert(left[left.len() - 1] == from[from.len() - 1]);
    assert(!is_white(value[0]));
    assert(none + left + none =~= left);
    law_trimming(none, left, none);
    let rest = g + from;
    assert(left =~= value + rest);
    assert(rest[0] == (if g.len() > 0 {
        g[0]
    } else {
        from[0]
    }));
    if g.len() > 0 {
        assert(is_white(g[0]));
    }
    lemma_value_len(value, rest);
    assert(left.take(value.len() as int) =~= value);
    assert(left.skip(value.len() as int) =~= rest);
    assert(g + from + none =~= rest);
    law_trimming(g, from, none);
    let right = before + to + behind;
    law_words(before, to, behind);
    lemma_words_trimmed(right);
}

proof fn lemma_value_len(v: Seq<char>, rest: Seq<char>)
    requires
        forall|i: int| 0 <= i < v.len() ==> '0' <= #[trigger] v[i] <= '9' || v[i] == '.' || v[i] == '-'
            || v[i] == '+',
        rest.len() == 0 || !value_char(rest[0]),
    ensures
        value_len(v + rest) == v.len(),
    decreases v.len(),
{
    if v.len() > 0 {
        let t = v.skip(1);
        assert forall|i: int| 0 <= i < t.len() implies '0' <= #[trigger] t[i] <= '9' || t[i] == '.'
            || t[i] == '-' || t[i] == '+' by {
            assert(t[i] == v[i + 1]);
        }
        lemma_value_len(t, rest);
        assert((v + rest).skip(1) =~= t + rest);
        assert((v + rest)[0] == v[0]);
    } else {
        assert(v + rest =~= rest);
    }
}

/// Trimming takes no words away.
proof fn lemma_words_trimmed(s: Seq<char>)
    ensures
        words(trim(s)).len() > 0 <==> words(s).len() > 0,
        words(s).len() > 0 ==> words(trim(s))[0] == words(s)[0],
{
    let t = trim_start(s);
    lemma_trim_start(s);
    lemma_trim_end(t);
    let u = trim(s);
    lemma_trim_start(u);
    if t.len() > 0 {
        lemma_end_of_blank(t);
        assert(u[0] == t[0]);
        assert(trim_start(u) == u);
        lemma_word_kept(t, u.len() as int);
        assert(t.take(u.len() as int) == u);
        lemma_word_len(t);
        lemma_word_len(u);
        assert(u.take(word_len(t) as int) =~= t.take(word_len(t) as int));
    } else {
        assert(u =~= Seq::empty());
        assert(trim_start(u) =~= Seq::empty());
    }
}

/// A text that begins with no white space is not trimmed away.
proof fn lemma_end_of_blank(t: Seq<char>)
    requires
        t.len() > 0,
        !is_white(t[0]),
    ensures
        trim_end(t).len() > 0,
    decreases t.len(),
{
    if is_white(t.last()) {
        assert(t.len() > 1);
        assert(t.drop_last()[0] == t[0]);
        lemma_end_of_blank(t.drop_last());
    }
}

/// The first word of a text ends before the white space at the end of it.
proof fn lemma_word_kept(t: Seq<char>, n: int)
    requires
        0 <= n <= t.len(),
        n == trim_end(t).len(),
        t.len() > 0,
        !is_white(t[0]),
    ensures
        word_len(t.take(n)) == word_len(t),
    decreases t.len(),
{
    lemma_end_of_blank(t);
    if is_white(t.last()) {
        let d = t.drop_last();
        assert(d[0] == t[0]);
        lemma_trim_end(d);
        lemma_word_kept(d, n);
        assert(d.take(n) =~= t.take(n));
        lemma_word_ends(d, seq![t.last()]);
        assert(d + seq![t.last()] =~= t);
    } else {
        assert(t.take(n) =~= t);
    }
}

/// White space behind a text lengthens no first word.
proof fn lemma_word_ends(d: Seq<char>, w: Seq<char>)
    requires
        w.len() > 0,
        is_white(w[0]),
    ensures
        word_len(d + w) == word_len(d),
    decreases d.len(),
{
    if d.len() == 0 {
        assert(d + w =~= w);
    } else {
        assert((d + w)[0] == d[0]);
        if !is_white(d[0]) {
            assert((d + w).skip(1) =~= d.skip(1) + w);
            lemma_word_ends(d.skip(1), w);
        }
    }
}

/// In a text of ASCII the word between the units is the first `to`, else the first `in`,
/// else the first `into`, in any letter case, with a space on either side; what stands
/// before it and behind it is what is converted.
pub proof fn law_the_word_between(
    left: Seq<char>,
    word: Seq<char>,
    right: Seq<char>,
    lower: Seq<char>,
)
    requires
        forall|i: int|
            0 <= i < (left + word + right).len() ==> (#[trigger] (left + word + right)[i]) as u32
                <= 0x7F,
        lower == ascii_lower(left + word + right),
        ({
            ||| word.len() == 4 && find(lower, " to "@) == Some(left.len() as int)
            ||| word.len() == 4 && find(lower, " to "@) is None && find(lower, " in "@) == Some(
                left.len() as int,
            )
            ||| word.len() == 6 && find(lower, " to "@) is None && find(lower, " in "@) is None
                && find(lower, " into "@) == Some(left.len() as int)
        }),
    ensures
        conversion_in(left + word + right, lower) == conversion_of(left, right),
        separable(left + word + right, lower),
{
    let src = left + word + right;
    let n = left.len() as int;
    let m = n + word.len();
    assert forall|i: int| 0 <= i < lower.len() implies (#[trigger] lower[i]) as u32
        <= 0x7F by {
        law_lowering(src, i);
        assert(src[i] as u32 <= 0x7F);
    }
    lemma_ascii_bytes(lower, n);
    lemma_ascii_bytes(src, n);
    lemma_ascii_bytes(src, m);
    assert(place(src, n, n));
    assert(place(src, m, m));
    lemma_one_place(src, n, n, place_after(src, n));
    lemma_one_place(src, m, m, place_after(src, m));
    assert(src.take(n) =~= left);
    assert(src.skip(m) =~= right);
}

proof fn lemma_ascii_bytes(s: Seq<char>, n: int)
    requires
        0 <= n <= s.len(),
        forall|i: int| 0 <= i < s.len() ==> (#[trigger] s[i]) as u32 <= 0x7F,
    ensures
        byte_len(s.take(n)) == n,
    decreases n,
{
    if n > 0 {
        assert(s.take(n).drop_last() =~= s.take(n - 1));
        assert(s.take(n).last() == s[n - 1]);
        lemma_ascii_bytes(s, n - 1);
    }
}

} // verus!
