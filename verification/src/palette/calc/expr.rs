//! Arithmetic expressions.
//!
//! An expression is read into a tree. `^` binds tighter than the sign before it,
//! so `-2^10` is the negative of a power; it associates to the right, and its
//! exponent may have a sign. `* / %` bind tighter than `+ -`; both associate to
//! the left.

use vstd::prelude::*;
use vstd::slice::slice_subrange;

use crate::text;
use crate::text::{is_digit, lemma_trim_start, trim_start};

verus! {

/// An arithmetic expression.
#[derive(Debug)]
pub enum Expr {
    /// A number as it was written.
    Number(String),
    Negated(Box<Expr>),
    Sum(Box<Expr>, Box<Expr>),
    Difference(Box<Expr>, Box<Expr>),
    Product(Box<Expr>, Box<Expr>),
    Quotient(Box<Expr>, Box<Expr>),
    Remainder(Box<Expr>, Box<Expr>),
    Power(Box<Expr>, Box<Expr>),
}

/// What an expression is.
pub enum ExprView {
    Number(Seq<char>),
    Negated(Box<ExprView>),
    Sum(Box<ExprView>, Box<ExprView>),
    Difference(Box<ExprView>, Box<ExprView>),
    Product(Box<ExprView>, Box<ExprView>),
    Quotient(Box<ExprView>, Box<ExprView>),
    Remainder(Box<ExprView>, Box<ExprView>),
    Power(Box<ExprView>, Box<ExprView>),
}

/// What an expression is.
pub open spec fn tree(e: Expr) -> ExprView
    decreases e,
{
    match e {
        Expr::Number(n) => ExprView::Number(n@),
        Expr::Negated(a) => ExprView::Negated(Box::new(tree(*a))),
        Expr::Sum(a, b) => ExprView::Sum(Box::new(tree(*a)), Box::new(tree(*b))),
        Expr::Difference(a, b) => ExprView::Difference(Box::new(tree(*a)), Box::new(tree(*b))),
        Expr::Product(a, b) => ExprView::Product(Box::new(tree(*a)), Box::new(tree(*b))),
        Expr::Quotient(a, b) => ExprView::Quotient(Box::new(tree(*a)), Box::new(tree(*b))),
        Expr::Remainder(a, b) => ExprView::Remainder(Box::new(tree(*a)), Box::new(tree(*b))),
        Expr::Power(a, b) => ExprView::Power(Box::new(tree(*a)), Box::new(tree(*b))),
    }
}

// ---------------------------------------------------------------------------
// Numbers
// ---------------------------------------------------------------------------

/// The characters that numbers are made of.
pub open spec fn number_char(c: char) -> bool {
    is_digit(c) || c == '.'
}

/// How many of the first characters are ones that numbers are made of.
pub open spec fn number_len(s: Seq<char>) -> nat
    decreases s.len(),
{
    if s.len() > 0 && number_char(s[0]) {
        number_len(s.skip(1)) + 1
    } else {
        0
    }
}

/// How many points there are.
pub open spec fn points(s: Seq<char>) -> nat
    decreases s.len(),
{
    if s.len() == 0 {
        0
    } else {
        points(s.drop_last()) + if s.last() == '.' {
            1nat
        } else {
            0nat
        }
    }
}

/// Whether a text is a number: digits, at least one, and at most one point.
pub open spec fn is_number_text(s: Seq<char>) -> bool {
    &&& forall|i: int| 0 <= i < s.len() ==> number_char(#[trigger] s[i])
    &&& points(s) <= 1
    &&& points(s) < s.len()
}

proof fn lemma_number_len(s: Seq<char>)
    ensures
        number_len(s) <= s.len(),
        forall|i: int| 0 <= i < number_len(s) ==> number_char(#[trigger] s[i]),
        number_len(s) < s.len() ==> !number_char(s[number_len(s) as int]),
    decreases s.len(),
{
    if s.len() > 0 && number_char(s[0]) {
        let t = s.skip(1);
        lemma_number_len(t);
        assert forall|i: int| 0 <= i < number_len(s) implies number_char(#[trigger] s[i]) by {
            if i > 0 {
                assert(number_char(t[i - 1]));
            }
        }
        if number_len(s) < s.len() {
            assert(t[number_len(t) as int] == s[number_len(s) as int]);
        }
    }
}

/// Whether a slice is a number.
pub fn number_text(s: &[char]) -> (r: bool)
    ensures
        r == is_number_text(s@),
{
    let mut dots: usize = 0;
    let mut i: usize = 0;
    while i < s.len()
        invariant
            i <= s@.len(),
            dots <= i,
            dots == points(s@.take(i as int)),
            forall|k: int| 0 <= k < i ==> number_char(#[trigger] s@[k]),
        decreases s@.len() - i,
    {
        assert(s@.take(i + 1).drop_last() =~= s@.take(i as int));
        if s[i] == '.' {
            dots += 1;
        } else if !text::ascii_digit(s[i]) {
            assert(!number_char(s@[i as int]));
            return false;
        }
        i += 1;
    }
    assert(s@.take(i as int) =~= s@);
    dots <= 1 && dots < s.len()
}

// ---------------------------------------------------------------------------
// The grammar
// ---------------------------------------------------------------------------

/// What was read, and the text behind it.
pub struct Parsed {
    pub tree: ExprView,
    pub rest: Seq<char>,
}

/// A sum of terms.
pub open spec fn expr(s: Seq<char>) -> Option<Parsed>
    decreases s.len(), 6int,
{
    match term(s) {
        Some(p) if p.rest.len() <= s.len() => more_terms(p.tree, p.rest),
        _ => None,
    }
}

/// The terms that follow one: each with a sign before it.
pub open spec fn more_terms(left: ExprView, s: Seq<char>) -> Option<Parsed>
    decreases s.len(), 5int,
{
    let r = trim_start(s);
    if r.len() > 0 && r.len() <= s.len() && (r[0] == '+' || r[0] == '-') {
        match term(r.skip(1)) {
            Some(p) if p.rest.len() < s.len() => more_terms(
                if r[0] == '+' {
                    ExprView::Sum(Box::new(left), Box::new(p.tree))
                } else {
                    ExprView::Difference(Box::new(left), Box::new(p.tree))
                },
                p.rest,
            ),
            _ => None,
        }
    } else {
        Some(Parsed { tree: left, rest: r })
    }
}

/// A product of factors.
pub open spec fn term(s: Seq<char>) -> Option<Parsed>
    decreases s.len(), 4int,
{
    match signed(s) {
        Some(p) if p.rest.len() <= s.len() => more_factors(p.tree, p.rest),
        _ => None,
    }
}

/// The tree of an operator between two factors.
pub open spec fn factor_tree(op: char, left: ExprView, right: ExprView) -> ExprView {
    if op == '*' {
        ExprView::Product(Box::new(left), Box::new(right))
    } else if op == '/' {
        ExprView::Quotient(Box::new(left), Box::new(right))
    } else {
        ExprView::Remainder(Box::new(left), Box::new(right))
    }
}

/// The factors that follow one: each with an operator before it.
pub open spec fn more_factors(left: ExprView, s: Seq<char>) -> Option<Parsed>
    decreases s.len(), 3int,
{
    let r = trim_start(s);
    if r.len() > 0 && r.len() <= s.len() && (r[0] == '*' || r[0] == '/' || r[0] == '%') {
        match signed(r.skip(1)) {
            Some(p) if p.rest.len() < s.len() => more_factors(
                factor_tree(r[0], left, p.tree),
                p.rest,
            ),
            _ => None,
        }
    } else {
        Some(Parsed { tree: left, rest: r })
    }
}

/// A power, with any number of signs before it.
pub open spec fn signed(s: Seq<char>) -> Option<Parsed>
    decreases s.len(), 2int,
{
    let r = trim_start(s);
    if r.len() > s.len() {
        None
    } else if r.len() > 0 && r[0] == '-' {
        match signed(r.skip(1)) {
            Some(p) => Some(Parsed { tree: ExprView::Negated(Box::new(p.tree)), rest: p.rest }),
            None => None,
        }
    } else if r.len() > 0 && r[0] == '+' {
        signed(r.skip(1))
    } else {
        power(r)
    }
}

/// An atom, raised to a signed power or not.
pub open spec fn power(s: Seq<char>) -> Option<Parsed>
    decreases s.len(), 1int,
{
    match atom(s) {
        Some(base) => {
            let r = trim_start(base.rest);
            if r.len() > 0 && r.len() <= s.len() && r[0] == '^' {
                match signed(r.skip(1)) {
                    Some(p) => Some(
                        Parsed {
                            tree: ExprView::Power(Box::new(base.tree), Box::new(p.tree)),
                            rest: p.rest,
                        },
                    ),
                    None => None,
                }
            } else {
                Some(Parsed { tree: base.tree, rest: r })
            }
        },
        None => None,
    }
}

/// A number, or an expression in parentheses.
pub open spec fn atom(s: Seq<char>) -> Option<Parsed>
    decreases s.len(), 0int,
{
    let r = trim_start(s);
    if r.len() > 0 && r.len() <= s.len() && r[0] == '(' {
        match expr(r.skip(1)) {
            Some(p) => {
                let q = trim_start(p.rest);
                if q.len() > 0 && q[0] == ')' {
                    Some(Parsed { tree: p.tree, rest: q.skip(1) })
                } else {
                    None
                }
            },
            None => None,
        }
    } else {
        let n = number_len(r) as int;
        if is_number_text(r.take(n)) {
            Some(Parsed { tree: ExprView::Number(r.take(n)), rest: r.skip(n) })
        } else {
            None
        }
    }
}

/// The expression that a whole text is, if it is one.
pub open spec fn expression(s: Seq<char>) -> Option<ExprView> {
    match expr(s) {
        Some(p) if trim_start(p.rest).len() == 0 => Some(p.tree),
        _ => None,
    }
}

// What is left is shorter than what was there.

pub(super) proof fn lemma_expr_shrinks(s: Seq<char>)
    ensures
        expr(s) matches Some(p) ==> p.rest.len() < s.len(),
    decreases s.len(), 6int,
{
    lemma_term_shrinks(s);
    if term(s) is Some {
        lemma_more_terms_shrink(term(s)->0.tree, term(s)->0.rest);
    }
}

proof fn lemma_more_terms_shrink(left: ExprView, s: Seq<char>)
    ensures
        more_terms(left, s) matches Some(p) ==> p.rest.len() <= s.len(),
    decreases s.len(), 5int,
{
    let r = trim_start(s);
    lemma_trim_start(s);
    if r.len() > 0 && (r[0] == '+' || r[0] == '-') {
        lemma_term_shrinks(r.skip(1));
        if term(r.skip(1)) is Some {
            let p = term(r.skip(1))->0;
            let next = if r[0] == '+' {
                ExprView::Sum(Box::new(left), Box::new(p.tree))
            } else {
                ExprView::Difference(Box::new(left), Box::new(p.tree))
            };
            lemma_more_terms_shrink(next, p.rest);
        }
    }
}

pub(super) proof fn lemma_term_shrinks(s: Seq<char>)
    ensures
        term(s) matches Some(p) ==> p.rest.len() < s.len(),
    decreases s.len(), 4int,
{
    lemma_signed_shrinks(s);
    if signed(s) is Some {
        lemma_more_factors_shrink(signed(s)->0.tree, signed(s)->0.rest);
    }
}

proof fn lemma_more_factors_shrink(left: ExprView, s: Seq<char>)
    ensures
        more_factors(left, s) matches Some(p) ==> p.rest.len() <= s.len(),
    decreases s.len(), 3int,
{
    let r = trim_start(s);
    lemma_trim_start(s);
    if r.len() > 0 && (r[0] == '*' || r[0] == '/' || r[0] == '%') {
        lemma_signed_shrinks(r.skip(1));
        if signed(r.skip(1)) is Some {
            let p = signed(r.skip(1))->0;
            lemma_more_factors_shrink(factor_tree(r[0], left, p.tree), p.rest);
        }
    }
}

pub(super) proof fn lemma_signed_shrinks(s: Seq<char>)
    ensures
        signed(s) matches Some(p) ==> p.rest.len() < s.len(),
    decreases s.len(), 2int,
{
    let r = trim_start(s);
    lemma_trim_start(s);
    if r.len() > 0 && (r[0] == '-' || r[0] == '+') {
        lemma_signed_shrinks(r.skip(1));
    } else {
        lemma_power_shrinks(r);
    }
}

pub(super) proof fn lemma_power_shrinks(s: Seq<char>)
    ensures
        power(s) matches Some(p) ==> p.rest.len() < s.len(),
    decreases s.len(), 1int,
{
    lemma_atom_shrinks(s);
    if atom(s) is Some {
        let r = trim_start(atom(s)->0.rest);
        lemma_trim_start(atom(s)->0.rest);
        if r.len() > 0 && r[0] == '^' {
            lemma_signed_shrinks(r.skip(1));
        }
    }
}

pub(super) proof fn lemma_atom_shrinks(s: Seq<char>)
    ensures
        atom(s) matches Some(p) ==> p.rest.len() < s.len(),
    decreases s.len(), 0int,
{
    let r = trim_start(s);
    lemma_trim_start(s);
    if r.len() > 0 && r[0] == '(' {
        lemma_expr_shrinks(r.skip(1));
        if expr(r.skip(1)) is Some {
            lemma_trim_start(expr(r.skip(1))->0.rest);
        }
    } else {
        lemma_number_len(r);
    }
}

// ---------------------------------------------------------------------------
// Reading
// ---------------------------------------------------------------------------

fn read_expr<'a>(s: &'a [char]) -> (r: Option<(Expr, &'a [char])>)
    ensures
        r is Some <==> expr(s@) is Some,
        r matches Some((e, rest)) ==> expr(s@) == Some(Parsed { tree: tree(e), rest: rest@ }),
    decreases s@.len(), 6int,
{
    proof {
        lemma_term_shrinks(s@);
    }
    let (mut left, mut rest) = match read_term(s) {
        Some(p) => p,
        None => {
            return None;
        },
    };
    loop
        invariant
            expr(s@) == more_terms(tree(left), rest@),
            rest@.len() < s@.len(),
        decreases rest@.len(),
    {
        proof {
            lemma_trim_start(rest@);
        }
        let r = text::trim_start_chars(rest);
        let len: usize = r.len();
        if len == 0 || (r[0] != '+' && r[0] != '-') {
            return Some((left, r));
        }
        let op = r[0];
        let tail = slice_subrange(r, 1, len);
        proof {
            assert(tail@ =~= r@.skip(1));
            lemma_term_shrinks(tail@);
        }
        match read_term(tail) {
            Some((right, next)) => {
                left = if op == '+' {
                    Expr::Sum(Box::new(left), Box::new(right))
                } else {
                    Expr::Difference(Box::new(left), Box::new(right))
                };
                rest = next;
            },
            None => {
                return None;
            },
        }
    }
}

fn read_term<'a>(s: &'a [char]) -> (r: Option<(Expr, &'a [char])>)
    ensures
        r is Some <==> term(s@) is Some,
        r matches Some((e, rest)) ==> term(s@) == Some(Parsed { tree: tree(e), rest: rest@ }),
    decreases s@.len(), 4int,
{
    proof {
        lemma_signed_shrinks(s@);
    }
    let (mut left, mut rest) = match read_signed(s) {
        Some(p) => p,
        None => {
            return None;
        },
    };
    loop
        invariant
            term(s@) == more_factors(tree(left), rest@),
            rest@.len() < s@.len(),
        decreases rest@.len(),
    {
        proof {
            lemma_trim_start(rest@);
        }
        let r = text::trim_start_chars(rest);
        let len: usize = r.len();
        if len == 0 || (r[0] != '*' && r[0] != '/' && r[0] != '%') {
            return Some((left, r));
        }
        let op = r[0];
        let tail = slice_subrange(r, 1, len);
        proof {
            assert(tail@ =~= r@.skip(1));
            lemma_signed_shrinks(tail@);
        }
        match read_signed(tail) {
            Some((right, next)) => {
                left = if op == '*' {
                    Expr::Product(Box::new(left), Box::new(right))
                } else if op == '/' {
                    Expr::Quotient(Box::new(left), Box::new(right))
                } else {
                    Expr::Remainder(Box::new(left), Box::new(right))
                };
                rest = next;
            },
            None => {
                return None;
            },
        }
    }
}

fn read_signed<'a>(s: &'a [char]) -> (r: Option<(Expr, &'a [char])>)
    ensures
        r is Some <==> signed(s@) is Some,
        r matches Some((e, rest)) ==> signed(s@) == Some(Parsed { tree: tree(e), rest: rest@ }),
    decreases s@.len(), 2int,
{
    proof {
        lemma_trim_start(s@);
    }
    let r = text::trim_start_chars(s);
    let len: usize = r.len();
    if len > 0 && (r[0] == '-' || r[0] == '+') {
        let tail = slice_subrange(r, 1, len);
        assert(tail@ =~= r@.skip(1));
        if r[0] == '+' {
            return read_signed(tail);
        }
        return match read_signed(tail) {
            Some((e, rest)) => Some((Expr::Negated(Box::new(e)), rest)),
            None => None,
        };
    }
    read_power(r)
}

fn read_power<'a>(s: &'a [char]) -> (r: Option<(Expr, &'a [char])>)
    ensures
        r is Some <==> power(s@) is Some,
        r matches Some((e, rest)) ==> power(s@) == Some(Parsed { tree: tree(e), rest: rest@ }),
    decreases s@.len(), 1int,
{
    proof {
        lemma_atom_shrinks(s@);
    }
    let (base, behind) = match read_atom(s) {
        Some(p) => p,
        None => {
            return None;
        },
    };
    proof {
        lemma_trim_start(behind@);
    }
    let r = text::trim_start_chars(behind);
    let len: usize = r.len();
    if len > 0 && r[0] == '^' {
        let tail = slice_subrange(r, 1, len);
        assert(tail@ =~= r@.skip(1));
        return match read_signed(tail) {
            Some((e, rest)) => Some((Expr::Power(Box::new(base), Box::new(e)), rest)),
            None => None,
        };
    }
    Some((base, r))
}

fn read_atom<'a>(s: &'a [char]) -> (r: Option<(Expr, &'a [char])>)
    ensures
        r is Some <==> atom(s@) is Some,
        r matches Some((e, rest)) ==> atom(s@) == Some(Parsed { tree: tree(e), rest: rest@ }),
    decreases s@.len(), 0int,
{
    proof {
        lemma_trim_start(s@);
    }
    let r = text::trim_start_chars(s);
    let len: usize = r.len();
    if len > 0 && r[0] == '(' {
        let tail = slice_subrange(r, 1, len);
        assert(tail@ =~= r@.skip(1));
        return match read_expr(tail) {
            Some((e, behind)) => {
                let q = text::trim_start_chars(behind);
                let qlen: usize = q.len();
                if qlen > 0 && q[0] == ')' {
                    let rest = slice_subrange(q, 1, qlen);
                    assert(rest@ =~= q@.skip(1));
                    Some((e, rest))
                } else {
                    None
                }
            },
            None => None,
        };
    }
    let mut n: usize = 0;
    assert(r@.skip(0) =~= r@);
    while n < len && (text::ascii_digit(r[n]) || r[n] == '.')
        invariant
            n <= len,
            len == r@.len(),
            number_len(r@) == n + number_len(r@.skip(n as int)),
        decreases len - n,
    {
        assert(r@.skip(n as int).skip(1) =~= r@.skip(n + 1));
        n += 1;
    }
    let digits = slice_subrange(r, 0, n);
    let rest = slice_subrange(r, n, len);
    proof {
        assert(digits@ =~= r@.take(n as int));
        assert(rest@ =~= r@.skip(n as int));
    }
    if number_text(digits) {
        Some((Expr::Number(text::string(digits)), rest))
    } else {
        None
    }
}

/// Reads a text as an arithmetic expression. Nothing where the text as a whole is
/// not one, so that words are not taken for arithmetic.
pub fn parse_arith(src: &str) -> (r: Option<Expr>)
    ensures
        r is Some <==> expression(src@) is Some,
        r is Some ==> expression(src@) == Some(tree(r->0)),
{
    let cs = text::chars(src);
    match read_expr(&cs) {
        Some((e, rest)) => {
            let behind = text::trim_start_chars(rest);
            if behind.len() == 0 {
                Some(e)
            } else {
                None
            }
        },
        None => None,
    }
}

// ---------------------------------------------------------------------------
// Writing
// ---------------------------------------------------------------------------

/// Two expressions with an operator between them, in parentheses.
pub open spec fn in_parens(a: Seq<char>, op: char, b: Seq<char>) -> Seq<char> {
    seq!['('] + a + seq![op] + b + seq![')']
}

/// The text of an expression with every operation in parentheses.
pub open spec fn printed(e: ExprView) -> Seq<char>
    decreases e,
{
    match e {
        ExprView::Number(n) => n,
        ExprView::Negated(a) => seq!['(', '-'] + printed(*a) + seq![')'],
        ExprView::Sum(a, b) => in_parens(printed(*a), '+', printed(*b)),
        ExprView::Difference(a, b) => in_parens(printed(*a), '-', printed(*b)),
        ExprView::Product(a, b) => in_parens(printed(*a), '*', printed(*b)),
        ExprView::Quotient(a, b) => in_parens(printed(*a), '/', printed(*b)),
        ExprView::Remainder(a, b) => in_parens(printed(*a), '%', printed(*b)),
        ExprView::Power(a, b) => in_parens(printed(*a), '^', printed(*b)),
    }
}

/// Whether the numbers of an expression are numbers.
pub open spec fn well_formed(e: ExprView) -> bool
    decreases e,
{
    match e {
        ExprView::Number(n) => is_number_text(n),
        ExprView::Negated(a) => well_formed(*a),
        ExprView::Sum(a, b) => well_formed(*a) && well_formed(*b),
        ExprView::Difference(a, b) => well_formed(*a) && well_formed(*b),
        ExprView::Product(a, b) => well_formed(*a) && well_formed(*b),
        ExprView::Quotient(a, b) => well_formed(*a) && well_formed(*b),
        ExprView::Remainder(a, b) => well_formed(*a) && well_formed(*b),
        ExprView::Power(a, b) => well_formed(*a) && well_formed(*b),
    }
}

/// Whether a text is at its end, or goes on with an operator or a parenthesis.
pub open spec fn at_operator(rest: Seq<char>) -> bool {
    rest.len() == 0 || rest[0] == '+' || rest[0] == '-' || rest[0] == '*' || rest[0] == '/'
        || rest[0] == '%' || rest[0] == '^' || rest[0] == ')'
}

pub(super) proof fn lemma_number_prefix(n: Seq<char>, rest: Seq<char>)
    requires
        forall|i: int| 0 <= i < n.len() ==> number_char(#[trigger] n[i]),
        at_operator(rest),
    ensures
        number_len(n + rest) == n.len(),
    decreases n.len(),
{
    if n.len() > 0 {
        let t = n.skip(1);
        assert forall|i: int| 0 <= i < t.len() implies number_char(#[trigger] t[i]) by {
            assert(number_char(n[i + 1]));
        }
        lemma_number_prefix(t, rest);
        assert((n + rest).skip(1) =~= t + rest);
        assert(number_char(n[0]));
    } else {
        assert(n + rest =~= rest);
    }
}

proof fn lemma_starts(e: ExprView)
    requires
        well_formed(e),
    ensures
        printed(e).len() > 0,
        printed(e)[0] == '(' || number_char(printed(e)[0]),
{
    match e {
        ExprView::Number(n) => {
            assert(number_char(n[0]));
        },
        _ => {},
    }
}

/// An expression in parentheses is read, where all of it is one factor.
proof fn lemma_closes(s: Seq<char>, tree: ExprView, rest: Seq<char>)
    requires
        s.len() > 0,
        s[0] == '(',
        signed(s.skip(1)) == Some(Parsed { tree, rest: seq![')'] + rest }),
    ensures
        atom(s) == Some(Parsed { tree, rest }),
{
    let inner = s.skip(1);
    let close = seq![')'] + rest;
    lemma_signed_shrinks(inner);
    assert(more_factors(tree, close) == Some(Parsed { tree, rest: close }));
    assert(term(inner) == Some(Parsed { tree, rest: close }));
    assert(more_terms(tree, close) == Some(Parsed { tree, rest: close }));
    assert(expr(inner) == Some(Parsed { tree, rest: close }));
    assert(close.skip(1) =~= rest);
}

/// A product in parentheses is read, where its factors are.
proof fn lemma_product_closes(
    s: Seq<char>,
    a: ExprView,
    op: char,
    b: ExprView,
    right: Seq<char>,
    rest: Seq<char>,
)
    requires
        s.len() > 0,
        s[0] == '(',
        op == '*' || op == '/' || op == '%',
        signed(s.skip(1)) == Some(Parsed { tree: a, rest: seq![op] + right }),
        signed(right) == Some(Parsed { tree: b, rest: seq![')'] + rest }),
    ensures
        atom(s) == Some(Parsed { tree: factor_tree(op, a, b), rest }),
{
    let inner = s.skip(1);
    let close = seq![')'] + rest;
    let both = seq![op] + right;
    let tree = factor_tree(op, a, b);
    lemma_signed_shrinks(inner);
    lemma_signed_shrinks(right);
    assert(both.skip(1) =~= right);
    assert(more_factors(tree, close) == Some(Parsed { tree, rest: close }));
    assert(more_factors(a, both) == Some(Parsed { tree, rest: close }));
    assert(term(inner) == Some(Parsed { tree, rest: close }));
    assert(more_terms(tree, close) == Some(Parsed { tree, rest: close }));
    assert(expr(inner) == Some(Parsed { tree, rest: close }));
    assert(close.skip(1) =~= rest);
}

/// A sum in parentheses is read, where its terms are.
proof fn lemma_sum_closes(
    s: Seq<char>,
    a: ExprView,
    op: char,
    b: ExprView,
    tree: ExprView,
    right: Seq<char>,
    rest: Seq<char>,
)
    requires
        s.len() > 0,
        s[0] == '(',
        op == '+' && tree == ExprView::Sum(Box::new(a), Box::new(b)) || op == '-' && tree
            == ExprView::Difference(Box::new(a), Box::new(b)),
        signed(s.skip(1)) == Some(Parsed { tree: a, rest: seq![op] + right }),
        signed(right) == Some(Parsed { tree: b, rest: seq![')'] + rest }),
    ensures
        atom(s) == Some(Parsed { tree, rest }),
{
    let inner = s.skip(1);
    let close = seq![')'] + rest;
    let both = seq![op] + right;
    lemma_signed_shrinks(inner);
    lemma_signed_shrinks(right);
    assert(both.skip(1) =~= right);
    assert(more_factors(a, both) == Some(Parsed { tree: a, rest: both }));
    assert(term(inner) == Some(Parsed { tree: a, rest: both }));
    assert(more_factors(b, close) == Some(Parsed { tree: b, rest: close }));
    assert(term(right) == Some(Parsed { tree: b, rest: close }));
    assert(more_terms(tree, close) == Some(Parsed { tree, rest: close }));
    assert(more_terms(a, both) == Some(Parsed { tree, rest: close }));
    assert(expr(inner) == Some(Parsed { tree, rest: close }));
    assert(close.skip(1) =~= rest);
}

/// A power in parentheses is read, where its base and its exponent are.
proof fn lemma_power_closes(
    s: Seq<char>,
    a: ExprView,
    b: ExprView,
    right: Seq<char>,
    rest: Seq<char>,
)
    requires
        s.len() > 1,
        s[0] == '(',
        s[1] == '(' || number_char(s[1]),
        atom(s.skip(1)) == Some(Parsed { tree: a, rest: seq!['^'] + right }),
        signed(right) == Some(Parsed { tree: b, rest: seq![')'] + rest }),
    ensures
        atom(s) == Some(Parsed { tree: ExprView::Power(Box::new(a), Box::new(b)), rest }),
{
    let inner = s.skip(1);
    let behind = seq!['^'] + right;
    let tree = ExprView::Power(Box::new(a), Box::new(b));
    lemma_atom_shrinks(inner);
    assert(behind.skip(1) =~= right);
    assert(inner[0] == s[1]);
    assert(trim_start(behind) == behind);
    assert(power(inner) == Some(Parsed { tree, rest: seq![')'] + rest }));
    assert(trim_start(inner) == inner);
    assert(signed(inner) == power(inner));
    lemma_closes(s, tree, rest);
}

/// The negative of a factor is read, where the factor is.
proof fn lemma_negated_reads(s: Seq<char>, a: ExprView, rest: Seq<char>)
    requires
        s.len() > 1,
        s[0] == '(',
        s[1] == '-',
        signed(s.skip(2)) == Some(Parsed { tree: a, rest: seq![')'] + rest }),
    ensures
        atom(s) == Some(Parsed { tree: ExprView::Negated(Box::new(a)), rest }),
{
    let inner = s.skip(1);
    assert(inner.skip(1) =~= s.skip(2));
    assert(inner[0] == '-');
    assert(trim_start(inner) == inner);
    lemma_closes(s, ExprView::Negated(Box::new(a)), rest);
}

/// What stands in the parentheses of an operation.
proof fn lemma_in_parens(a: Seq<char>, op: char, b: Seq<char>, rest: Seq<char>)
    ensures
        (in_parens(a, op, b) + rest)[0] == '(',
        (in_parens(a, op, b) + rest).len() > 1,
        a.len() > 0 ==> (in_parens(a, op, b) + rest)[1] == a[0],
        (in_parens(a, op, b) + rest).skip(1) == a + (seq![op] + (b + (seq![')'] + rest))),
{
    assert((in_parens(a, op, b) + rest).skip(1) =~= a + (seq![op] + (b + (seq![')'] + rest))));
}

/// A number is read, whatever operator follows it.
proof fn lemma_number_reads(n: Seq<char>, rest: Seq<char>)
    requires
        is_number_text(n),
        at_operator(rest),
    ensures
        atom(n + rest) == Some(Parsed { tree: ExprView::Number(n), rest }),
{
    let s = n + rest;
    lemma_number_prefix(n, rest);
    assert(number_char(n[0]));
    assert(s[0] == n[0]);
    assert(trim_start(s) == s);
    assert(s.take(n.len() as int) =~= n);
    assert(s.skip(n.len() as int) =~= rest);
}

/// An operand is read back, whatever operator follows it.
proof fn lemma_atom_reads(e: ExprView, rest: Seq<char>)
    requires
        well_formed(e),
        at_operator(rest),
    ensures
        atom(printed(e) + rest) == Some(Parsed { tree: e, rest }),
    decreases e, 0int,
{
    let s = printed(e) + rest;
    let close = seq![')'] + rest;
    match e {
        ExprView::Number(n) => {
            lemma_number_reads(n, rest);
        },
        ExprView::Negated(a) => {
            lemma_signed_reads(*a, close);
            assert(s.skip(2) =~= printed(*a) + close);
            lemma_negated_reads(s, *a, rest);
        },
        ExprView::Sum(a, b) => {
            let right = printed(*b) + close;
            lemma_in_parens(printed(*a), '+', printed(*b), rest);
            lemma_signed_reads(*a, seq!['+'] + right);
            lemma_signed_reads(*b, close);
            lemma_sum_closes(s, *a, '+', *b, e, right, rest);
        },
        ExprView::Difference(a, b) => {
            let right = printed(*b) + close;
            lemma_in_parens(printed(*a), '-', printed(*b), rest);
            lemma_signed_reads(*a, seq!['-'] + right);
            lemma_signed_reads(*b, close);
            lemma_sum_closes(s, *a, '-', *b, e, right, rest);
        },
        ExprView::Product(a, b) => {
            let right = printed(*b) + close;
            lemma_in_parens(printed(*a), '*', printed(*b), rest);
            lemma_signed_reads(*a, seq!['*'] + right);
            lemma_signed_reads(*b, close);
            lemma_product_closes(s, *a, '*', *b, right, rest);
        },
        ExprView::Quotient(a, b) => {
            let right = printed(*b) + close;
            lemma_in_parens(printed(*a), '/', printed(*b), rest);
            lemma_signed_reads(*a, seq!['/'] + right);
            lemma_signed_reads(*b, close);
            lemma_product_closes(s, *a, '/', *b, right, rest);
        },
        ExprView::Remainder(a, b) => {
            let right = printed(*b) + close;
            lemma_in_parens(printed(*a), '%', printed(*b), rest);
            lemma_signed_reads(*a, seq!['%'] + right);
            lemma_signed_reads(*b, close);
            lemma_product_closes(s, *a, '%', *b, right, rest);
        },
        ExprView::Power(a, b) => {
            let right = printed(*b) + close;
            lemma_in_parens(printed(*a), '^', printed(*b), rest);
            lemma_starts(*a);
            lemma_atom_reads(*a, seq!['^'] + right);
            lemma_signed_reads(*b, close);
            lemma_power_closes(s, *a, *b, right, rest);
        },
    }
}

/// A factor is read back, whatever operator but a power follows it.
proof fn lemma_signed_reads(e: ExprView, rest: Seq<char>)
    requires
        well_formed(e),
        at_operator(rest),
        rest.len() > 0 ==> rest[0] != '^',
    ensures
        signed(printed(e) + rest) == Some(Parsed { tree: e, rest }),
    decreases e, 1int,
{
    lemma_starts(e);
    lemma_atom_reads(e, rest);
    let s = printed(e) + rest;
    assert(trim_start(rest) == rest);
    assert(power(s) == Some(Parsed { tree: e, rest }));
}

/// Every expression is what its text with all parentheses is read as.
pub proof fn law_printed_expressions_read_back(e: ExprView)
    requires
        well_formed(e),
    ensures
        expression(printed(e)) == Some(e),
{
    let none = Seq::<char>::empty();
    let s = printed(e);
    lemma_signed_reads(e, none);
    assert(s + none =~= s);
    lemma_signed_shrinks(s);
    assert(more_factors(e, none) == Some(Parsed { tree: e, rest: none }));
    assert(term(s) == Some(Parsed { tree: e, rest: none }));
    assert(more_terms(e, none) == Some(Parsed { tree: e, rest: none }));
    assert(expr(s) == Some(Parsed { tree: e, rest: none }));
}

/// A number is written with digits and at most one point, and at least one digit.
pub proof fn law_what_a_number_is(s: Seq<char>)
    ensures
        is_number_text(s) <==> {
            &&& forall|i: int| 0 <= i < s.len() ==> '0' <= #[trigger] s[i] <= '9' || s[i] == '.'
            &&& forall|i: int, j: int| 0 <= i < j < s.len() ==> #[trigger] s[i] != '.' || #[trigger] s[j]
                != '.'
            &&& exists|i: int| 0 <= i < s.len() && '0' <= #[trigger] s[i] <= '9'
        },
{
    lemma_points(s);
    if is_number_text(s) {
        assert forall|i: int| 0 <= i < s.len() implies '0' <= #[trigger] s[i] <= '9' || s[i] == '.' by {
            assert(number_char(s[i]));
        }
    }
}

proof fn lemma_points(s: Seq<char>)
    ensures
        points(s) <= s.len(),
        points(s) == 0 <==> forall|i: int| 0 <= i < s.len() ==> #[trigger] s[i] != '.',
        points(s) <= 1 <==> forall|i: int, j: int|
            0 <= i < j < s.len() ==> #[trigger] s[i] != '.' || #[trigger] s[j] != '.',
        points(s) == s.len() <==> forall|i: int| 0 <= i < s.len() ==> #[trigger] s[i] == '.',
    decreases s.len(),
{
    if s.len() > 0 {
        let t = s.drop_last();
        let n = s.len() - 1;
        lemma_points(t);
        assert(s[n] == s.last());
        assert forall|i: int| 0 <= i < n implies #[trigger] t[i] == s[i] by {}
        if points(s) == 0 {
            assert forall|i: int| 0 <= i < s.len() implies #[trigger] s[i] != '.' by {
                if i < n {
                    assert(t[i] != '.');
                }
            }
        }
        if forall|i: int| 0 <= i < s.len() ==> #[trigger] s[i] != '.' {
            assert forall|i: int| 0 <= i < t.len() implies #[trigger] t[i] != '.' by {
                assert(s[i] != '.');
            }
        }
        if points(s) == s.len() {
            assert forall|i: int| 0 <= i < s.len() implies #[trigger] s[i] == '.' by {
                if i < n {
                    assert(t[i] == '.');
                }
            }
        }
        if forall|i: int| 0 <= i < s.len() ==> #[trigger] s[i] == '.' {
            assert forall|i: int| 0 <= i < t.len() implies #[trigger] t[i] == '.' by {
                assert(s[i] == '.');
            }
        }
        if points(s) <= 1 {
            assert forall|i: int, j: int| 0 <= i < j < s.len() implies #[trigger] s[i] != '.'
                || #[trigger] s[j] != '.' by {
                if j < n {
                    assert(t[i] != '.' || t[j] != '.');
                } else if s[n] == '.' {
                    assert(t[i] != '.');
                }
            }
        }
        if forall|i: int, j: int|
            0 <= i < j < s.len() ==> #[trigger] s[i] != '.' || #[trigger] s[j] != '.' {
            assert forall|i: int, j: int| 0 <= i < j < t.len() implies #[trigger] t[i] != '.'
                || #[trigger] t[j] != '.' by {
                assert(s[i] != '.' || s[j] != '.');
            }
            if s[n] == '.' {
                assert forall|i: int| 0 <= i < t.len() implies #[trigger] t[i] != '.' by {
                    assert(s[i] != '.' || s[n] != '.');
                }
            }
        }
    }
}

} // verus!
