//! Calculating and converting units.
//!
//! What a query asks for is decided here, as an expression or a conversion. The
//! arithmetic is done on doubles, outside; the answer comes back as text.

pub mod convert;
pub mod expr;
pub mod precedence;

use vstd::arithmetic::power2::{lemma2_to64, lemma2_to64_rest};
use vstd::prelude::*;
use vstd::slice::slice_subrange;

use self::convert::{conversion_in, parse_conversion, separable, Conversion};
use self::expr::{expression, parse_arith, tree, Expr};
use super::provider::{ItemView, PaletteItem};
use super::score::{clamped, near};
use crate::stdtext::lowercase;
use crate::text;
use crate::text::trim;

verus! {

/// The name of the provider.
pub const CALC_PROVIDER: &'static str = "calc";

/// The bit pattern of 0.99.
pub const CALC_SCORE: u64 = 0x3FEF_AE14_7AE1_47AE;

/// What a query asks for.
#[derive(Debug)]
pub enum Question {
    /// Neither a conversion nor an expression.
    Nothing,
    Conversion(Conversion),
    Arithmetic(Expr),
    /// The query is of another length in lower case, and the word between the
    /// units has no place in it.
    Misplaced,
}

/// How an answer came about.
#[derive(Debug, Clone, Copy, PartialEq, Eq, Structural)]
pub enum AnswerKind {
    Conversion,
    Arithmetic,
}

/// What an answer is called.
pub open spec fn kind_name(kind: AnswerKind) -> Seq<char> {
    match kind {
        AnswerKind::Conversion => "conversion"@,
        AnswerKind::Arithmetic => "result"@,
    }
}

/// The item of an answer.
pub open spec fn answer_item(query: Seq<char>, answer: Seq<char>, kind: AnswerKind) -> ItemView {
    ItemView {
        id: answer,
        provider: "calc"@,
        title: answer,
        subtitle: Some(kind_name(kind) + "  ·  "@ + trim(query)),
        icon: Some("calc"@),
        icon_path: None,
        score: clamped(CALC_SCORE),
    }
}

/// A number without the zeros at its end.
pub open spec fn without_zeros(s: Seq<char>) -> Seq<char>
    decreases s.len(),
{
    if s.len() > 0 && s.last() == '0' {
        without_zeros(s.drop_last())
    } else {
        s
    }
}

/// A number without the points at its end.
pub open spec fn without_points(s: Seq<char>) -> Seq<char>
    decreases s.len(),
{
    if s.len() > 0 && s.last() == '.' {
        without_points(s.drop_last())
    } else {
        s
    }
}

/// A number with decimals, without the zeros at its end and without the point
/// where no decimals are left.
pub fn shorten_decimals(number: &str) -> (r: String)
    ensures
        r@ == without_points(without_zeros(number@)),
{
    let cs = text::chars(number);
    let mut n: usize = cs.len();
    assert(cs@.take(n as int) =~= cs@);
    while n > 0 && cs[n - 1] == '0'
        invariant
            n <= cs@.len(),
            without_zeros(cs@) == without_zeros(cs@.take(n as int)),
        decreases n,
    {
        assert(cs@.take(n as int).drop_last() =~= cs@.take(n - 1));
        n -= 1;
    }
    let ghost plain = cs@.take(n as int);
    while n > 0 && cs[n - 1] == '.'
        invariant
            n <= cs@.len(),
            without_points(plain) == without_points(cs@.take(n as int)),
        decreases n,
    {
        assert(cs@.take(n as int).drop_last() =~= cs@.take(n - 1));
        n -= 1;
    }
    let out = slice_subrange(&cs, 0, n);
    assert(out@ =~= cs@.take(n as int));
    text::string(out)
}

/// The provider of answers.
#[derive(Debug, Clone, Copy, PartialEq, Eq)]
pub struct CalcProvider;

impl CalcProvider {
    pub fn new() -> (r: Self) {
        CalcProvider
    }

    /// What a query asks for: a conversion where it is one, else an expression.
    pub fn question(&self, query: &str) -> (r: Question)
        ensures
            ({
                let q = trim(query@);
                let lower = lowercase(q);
                if q.len() == 0 {
                    r is Nothing
                } else if !separable(q, lower) {
                    r is Misplaced
                } else {
                    match (conversion_in(q, lower), expression(q)) {
                        (Some(c), _) => r matches Question::Conversion(x) && x.deep_view() == c,
                        (None, Some(e)) => r matches Question::Arithmetic(x) && tree(x) == e,
                        (None, None) => r is Nothing,
                    }
                }
            }),
    {
        let q = text::trimmed(query);
        if text::chars(&q).len() == 0 {
            return Question::Nothing;
        }
        match parse_conversion(&q) {
            Some(Some(c)) => Question::Conversion(c),
            Some(None) => match parse_arith(&q) {
                Some(e) => Question::Arithmetic(e),
                None => Question::Nothing,
            },
            None => Question::Misplaced,
        }
    }

    /// The item of an answer.
    pub fn answer(&self, query: &str, answer: &str, kind: AnswerKind) -> (r: PaletteItem)
        ensures
            r.deep_view() == answer_item(query@, answer@, kind),
    {
        let name = match kind {
            AnswerKind::Conversion => "conversion",
            AnswerKind::Arithmetic => "result",
        };
        let q = text::trimmed(query);
        PaletteItem::new(CALC_PROVIDER, text::owned(answer), text::owned(answer)).with_subtitle(
            text::concat3(name, "  ·  ", &q),
        ).with_icon("calc").with_score(CALC_SCORE)
    }
}

/// What is shown of a number loses the zeros at its end, and the point where nothing is
/// left behind it; nothing else.
pub proof fn law_decimals_are_shortened(s: Seq<char>, zeros: nat)
    requires
        s.len() > 0 ==> s.last() != '0' && s.last() != '.',
    ensures
        without_points(without_zeros(s + Seq::new(zeros, |i: int| '0'))) == s,
        without_points(without_zeros(s + seq!['.'] + Seq::new(zeros, |i: int| '0'))) == s,
{
    lemma_zeros(s, zeros);
    lemma_zeros(s + seq!['.'], zeros);
    assert((s + seq!['.']).drop_last() =~= s);
    assert(without_points(s) == s);
}

proof fn lemma_zeros(s: Seq<char>, zeros: nat)
    requires
        s.len() > 0 ==> s.last() != '0',
    ensures
        without_zeros(s + Seq::new(zeros, |i: int| '0')) == s,
    decreases zeros,
{
    let t = s + Seq::new(zeros, |i: int| '0');
    if zeros == 0 {
        assert(t =~= s);
    } else {
        assert(t.last() == '0');
        assert(t.drop_last() =~= s + Seq::new((zeros - 1) as nat, |i: int| '0'));
        lemma_zeros(s, (zeros - 1) as nat);
    }
}

/// An answer is shown as it is, with what was asked and how it was answered, and is
/// scored 0.99.
pub proof fn law_answers_are_shown(query: Seq<char>, answer: Seq<char>)
    ensures
        answer_item(query, answer, AnswerKind::Conversion).title == answer,
        answer_item(query, answer, AnswerKind::Conversion).id == answer,
        answer_item(query, answer, AnswerKind::Conversion).subtitle == Some(
            "conversion"@ + "  ·  "@ + trim(query),
        ),
        answer_item(query, answer, AnswerKind::Arithmetic).subtitle == Some(
            "result"@ + "  ·  "@ + trim(query),
        ),
        answer_item(query, answer, AnswerKind::Arithmetic).title == answer,
        near(answer_item(query, answer, AnswerKind::Arithmetic).score, 99, 100),
        near(answer_item(query, answer, AnswerKind::Conversion).score, 99, 100),
{
    lemma2_to64();
    lemma2_to64_rest();
}

} // verus!
