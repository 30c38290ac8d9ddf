//! How expressions are read without needless parentheses.

use vstd::prelude::*;

use super::expr::{
    atom, expr, expression, factor_tree, is_number_text, lemma_atom_shrinks, lemma_signed_shrinks,
    lemma_term_shrinks,
    more_factors, more_terms, number_char, number_len, power, signed, term, ExprView, Parsed,
};
use crate::text::{is_white, lemma_trim_start, trim_start};

verus! {

/// How tightly an expression holds together: sums and differences least, then products,
/// quotients and remainders, then negatives, then powers, and numbers most.
pub open spec fn tightness(e: ExprView) -> int {
    match e {
        ExprView::Sum(_, _) => 0,
        ExprView::Difference(_, _) => 0,
        ExprView::Product(_, _) => 1,
        ExprView::Quotient(_, _) => 1,
        ExprView::Remainder(_, _) => 1,
        ExprView::Negated(_) => 2,
        ExprView::Power(_, _) => 3,
        ExprView::Number(_) => 4,
    }
}

/// The text of an expression with parentheses only where it holds together less than it
/// has to, and with `g` around its signs.
pub open spec fn written(e: ExprView, least: int, g: Seq<char>) -> Seq<char>
    decreases e, 1int,
{
    if tightness(e) < least {
        seq!['('] + (g + (plainly(e, g) + (g + seq![')'])))
    } else {
        plainly(e, g)
    }
}

/// The text of an expression without parentheses around it.
pub open spec fn plainly(e: ExprView, g: Seq<char>) -> Seq<char>
    decreases e, 0int,
{
    match e {
        ExprView::Number(n) => n,
        ExprView::Negated(a) => seq!['-'] + (g + written(*a, 2, g)),
        ExprView::Sum(a, b) => written(*a, 0, g) + (g + (seq!['+'] + (g + written(*b, 1, g)))),
        ExprView::Difference(a, b) => written(*a, 0, g) + (g + (seq!['-'] + (g + written(
            *b,
            1,
            g,
        )))),
        ExprView::Product(a, b) => written(*a, 1, g) + (g + (seq!['*'] + (g + written(*b, 2, g)))),
        ExprView::Quotient(a, b) => written(*a, 1, g) + (g + (seq!['/'] + (g + written(*b, 2, g)))),
        ExprView::Remainder(a, b) => written(*a, 1, g) + (g + (seq!['%'] + (g + written(
            *b,
            2,
            g,
        )))),
        ExprView::Power(a, b) => written(*a, 4, g) + (g + (seq!['^'] + (g + written(*b, 2, g)))),
    }
}

/// Whether every number of an expression is one: digits with a point among them or
/// without.
pub open spec fn numbers_are(e: ExprView) -> bool
    decreases e,
{
    match e {
        ExprView::Number(n) => is_number_text(n),
        ExprView::Negated(a) => numbers_are(*a),
        ExprView::Sum(a, b) => numbers_are(*a) && numbers_are(*b),
        ExprView::Difference(a, b) => numbers_are(*a) && numbers_are(*b),
        ExprView::Product(a, b) => numbers_are(*a) && numbers_are(*b),
        ExprView::Quotient(a, b) => numbers_are(*a) && numbers_are(*b),
        ExprView::Remainder(a, b) => numbers_are(*a) && numbers_are(*b),
        ExprView::Power(a, b) => numbers_are(*a) && numbers_are(*b),
    }
}

/// Whether a text is white space alone.
pub open spec fn gap(g: Seq<char>) -> bool {
    forall|i: int| 0 <= i < g.len() ==> is_white(#[trigger] g[i])
}

spec fn stops(rest: Seq<char>) -> bool {
    rest.len() == 0 || !number_char(rest[0])
}

spec fn no_sign(rest: Seq<char>, level: int) -> bool {
    let r = trim_start(rest);
    r.len() == 0 || {
        &&& level <= 3 ==> r[0] != '^'
        &&& level <= 1 ==> r[0] != '*' && r[0] != '/' && r[0] != '%'
        &&& level <= 0 ==> r[0] != '+' && r[0] != '-'
    }
}

proof fn lemma_gap(g: Seq<char>, s: Seq<char>)
    requires
        gap(g),
    ensures
        trim_start(g + s) == trim_start(s),
    decreases g.len(),
{
    if g.len() == 0 {
        assert(g + s =~= s);
    } else {
        assert((g + s)[0] == g[0]);
        assert((g + s).skip(1) =~= g.skip(1) + s);
        assert forall|i: int| 0 <= i < g.skip(1).len() implies is_white(#[trigger] g.skip(1)[i]) by {
            assert(g.skip(1)[i] == g[i + 1]);
        }
        lemma_gap(g.skip(1), s);
    }
}

proof fn lemma_trimmed_twice(s: Seq<char>)
    ensures
        trim_start(trim_start(s)) == trim_start(s),
{
    lemma_trim_start(s);
}

/// White space before a factor makes no difference.
proof fn lemma_signed_gap(g: Seq<char>, s: Seq<char>)
    requires
        gap(g),
    ensures
        signed(g + s) == signed(s),
{
    lemma_gap(g, s);
    lemma_trim_start(s);
    lemma_trim_start(g + s);
}

proof fn lemma_term_gap(g: Seq<char>, s: Seq<char>)
    requires
        gap(g),
    ensures
        term(g + s) == term(s),
{
    lemma_signed_gap(g, s);
    lemma_signed_shrinks(s);
}

proof fn lemma_expr_gap(g: Seq<char>, s: Seq<char>)
    requires
        gap(g),
    ensures
        expr(g + s) == expr(s),
{
    lemma_term_gap(g, s);
    lemma_term_shrinks(s);
}

/// What follows an operand: a gap, a sign and more.
proof fn lemma_behind(g: Seq<char>, op: char, more: Seq<char>)
    requires
        gap(g),
        !is_white(op),
        !number_char(op),
    ensures
        stops(g + (seq![op] + more)),
        trim_start(g + (seq![op] + more)) == seq![op] + more,
        (seq![op] + more).skip(1) == more,
        (seq![op] + more)[0] == op,
{
    lemma_gap(g, seq![op] + more);
    assert((seq![op] + more)[0] == op);
    assert(trim_start(seq![op] + more) == seq![op] + more);
    assert((seq![op] + more).skip(1) =~= more);
    if g.len() > 0 {
        assert((g + (seq![op] + more))[0] == g[0]);
        assert(is_white(g[0]));
    }
}

/// The first character of what is written begins an operand or is a sign.
proof fn lemma_begins(e: ExprView, least: int, g: Seq<char>)
    requires
        numbers_are(e),
    ensures
        written(e, least, g).len() > 0,
        ({
            let c = written(e, least, g)[0];
            c == '(' || c == '-' || number_char(c)
        }),
        least > 2 ==> written(e, least, g)[0] != '-',
    decreases e,
{
    if tightness(e) >= least {
        match e {
            ExprView::Number(n) => {
                assert(number_char(n[0]));
            },
            ExprView::Negated(a) => {},
            ExprView::Sum(a, b) => {
                lemma_begins(*a, 0, g);
            },
            ExprView::Difference(a, b) => {
                lemma_begins(*a, 0, g);
            },
            ExprView::Product(a, b) => {
                lemma_begins(*a, 1, g);
            },
            ExprView::Quotient(a, b) => {
                lemma_begins(*a, 1, g);
            },
            ExprView::Remainder(a, b) => {
                lemma_begins(*a, 1, g);
            },
            ExprView::Power(a, b) => {
                lemma_begins(*a, 4, g);
            },
        }
    }
}

proof fn lemma_number(n: Seq<char>, rest: Seq<char>)
    requires
        forall|i: int| 0 <= i < n.len() ==> number_char(#[trigger] n[i]),
        stops(rest),
    ensures
        number_len(n + rest) == n.len(),
    decreases n.len(),
{
    if n.len() > 0 {
        let t = n.skip(1);
        assert forall|i: int| 0 <= i < t.len() implies number_char(#[trigger] t[i]) by {
            assert(number_char(n[i + 1]));
        }
        lemma_number(t, rest);
        assert((n + rest).skip(1) =~= t + rest);
        assert(number_char(n[0]));
    } else {
        assert(n + rest =~= rest);
    }
}

/// A number is read, up to what follows it.
proof fn lemma_number_atom(n: Seq<char>, rest: Seq<char>)
    requires
        is_number_text(n),
        stops(rest),
    ensures
        atom(n + rest) == Some(Parsed { tree: ExprView::Number(n), rest }),
        (n + rest).len() > 0,
        number_char((n + rest)[0]),
{
    let s = n + rest;
    lemma_number(n, rest);
    assert(number_char(n[0]));
    assert(s[0] == n[0]);
    assert(trim_start(s) == s);
    assert(s.take(n.len() as int) =~= n);
    assert(s.skip(n.len() as int) =~= rest);
}

/// One more term.
proof fn lemma_next_term(a: ExprView, op: char, right: Seq<char>, b: ExprView, r: Seq<char>)
    requires
        op == '+' || op == '-',
        term(right) == Some(Parsed { tree: b, rest: r }),
    ensures
        more_terms(a, seq![op] + right) == more_terms(
            if op == '+' {
                ExprView::Sum(Box::new(a), Box::new(b))
            } else {
                ExprView::Difference(Box::new(a), Box::new(b))
            },
            r,
        ),
{
    let sign = seq![op] + right;
    assert(sign[0] == op);
    assert(trim_start(sign) == sign);
    assert(sign.skip(1) =~= right);
    lemma_term_shrinks(right);
}

/// One more factor.
proof fn lemma_next_factor(a: ExprView, op: char, right: Seq<char>, b: ExprView, r: Seq<char>)
    requires
        op == '*' || op == '/' || op == '%',
        signed(right) == Some(Parsed { tree: b, rest: r }),
    ensures
        more_factors(a, seq![op] + right) == more_factors(factor_tree(op, a, b), r),
{
    let sign = seq![op] + right;
    assert(sign[0] == op);
    assert(trim_start(sign) == sign);
    assert(sign.skip(1) =~= right);
    lemma_signed_shrinks(right);
}

/// A base and its exponent.
proof fn lemma_power(s: Seq<char>, a: ExprView, behind: Seq<char>, right: Seq<char>, b: ExprView, r: Seq<char>)
    requires
        s.len() > 0,
        s[0] == '(' || number_char(s[0]),
        atom(s) == Some(Parsed { tree: a, rest: behind }),
        trim_start(behind) == seq!['^'] + right,
        signed(right) == Some(Parsed { tree: b, rest: r }),
    ensures
        signed(s) == Some(Parsed { tree: ExprView::Power(Box::new(a), Box::new(b)), rest: r }),
{
    let sign = seq!['^'] + right;
    assert(sign[0] == '^');
    assert(sign.skip(1) =~= right);
    assert(trim_start(s) == s);
    lemma_atom_shrinks(s);
    lemma_trim_start(behind);
    assert(power(s) == Some(
        Parsed { tree: ExprView::Power(Box::new(a), Box::new(b)), rest: r },
    ));
}

/// An operand without an exponent.
proof fn lemma_no_power(s: Seq<char>, a: ExprView, rest: Seq<char>)
    requires
        s.len() > 0,
        s[0] == '(' || number_char(s[0]),
        atom(s) == Some(Parsed { tree: a, rest }),
        no_sign(rest, 3),
    ensures
        signed(s) == Some(Parsed { tree: a, rest: trim_start(rest) }),
{
    assert(trim_start(s) == s);
    assert(power(s) == Some(Parsed { tree: a, rest: trim_start(rest) }));
}

/// A negative.
proof fn lemma_negative(s: Seq<char>, right: Seq<char>, a: ExprView, r: Seq<char>)
    requires
        s == seq!['-'] + right,
        signed(right) == Some(Parsed { tree: a, rest: r }),
    ensures
        signed(s) == Some(Parsed { tree: ExprView::Negated(Box::new(a)), rest: r }),
{
    assert(s[0] == '-');
    assert(trim_start(s) == s);
    assert(s.skip(1) =~= right);
}

/// What is read as a factor is read as a product, with what follows.
proof fn lemma_factor_to_term(s: Seq<char>, a: ExprView, r: Seq<char>)
    requires
        signed(s) == Some(Parsed { tree: a, rest: r }),
    ensures
        term(s) == more_factors(a, r),
{
    lemma_signed_shrinks(s);
}

/// What is read as a product is read as a sum, with what follows.
proof fn lemma_term_to_sum(s: Seq<char>, a: ExprView, r: Seq<char>)
    requires
        term(s) == Some(Parsed { tree: a, rest: r }),
    ensures
        expr(s) == more_terms(a, r),
{
    lemma_term_shrinks(s);
}

/// Where no factor follows, a product is done.
proof fn lemma_no_factor(a: ExprView, rest: Seq<char>)
    requires
        no_sign(rest, 1),
    ensures
        more_factors(a, trim_start(rest)) == Some(Parsed { tree: a, rest: trim_start(rest) }),
{
    lemma_trimmed_twice(rest);
}

/// Something in parentheses is read as what stands in them.
proof fn lemma_parens(e: ExprView, g: Seq<char>, rest: Seq<char>)
    requires
        numbers_are(e),
        gap(g),
        expr(plainly(e, g) + (g + (seq![')'] + rest))) == Some(
            Parsed { tree: e, rest: seq![')'] + rest },
        ),
    ensures
        atom((seq!['('] + (g + (plainly(e, g) + (g + seq![')'])))) + rest) == Some(
            Parsed { tree: e, rest },
        ),
{
    let s = (seq!['('] + (g + (plainly(e, g) + (g + seq![')'])))) + rest;
    let inside = plainly(e, g) + (g + (seq![')'] + rest));
    assert(s[0] == '(');
    assert(trim_start(s) == s);
    assert(s.skip(1) =~= g + inside);
    lemma_expr_gap(g, inside);
    let close = seq![')'] + rest;
    assert(close[0] == ')');
    assert(trim_start(close) == close);
    assert(close.skip(1) =~= rest);
}

/// An operand is read, up to what follows it.
proof fn lemma_atom(e: ExprView, g: Seq<char>, rest: Seq<char>)
    requires
        numbers_are(e),
        gap(g),
        stops(rest),
    ensures
        atom(written(e, 4, g) + rest) == Some(Parsed { tree: e, rest }),
    decreases e, 4int,
{
    if tightness(e) < 4 {
        let close = seq![')'] + rest;
        lemma_behind(g, ')', rest);
        lemma_sums(e, g, g + close);
        assert(trim_start(close) == close);
        assert(more_terms(e, close) == Some(Parsed { tree: e, rest: close }));
        lemma_parens(e, g, rest);
    } else {
        lemma_number_atom(e->Number_0, rest);
    }
}

/// A factor is read, up to what follows it.
proof fn lemma_factor(e: ExprView, g: Seq<char>, rest: Seq<char>)
    requires
        numbers_are(e),
        gap(g),
        stops(rest),
        no_sign(rest, 3),
    ensures
        signed(written(e, 2, g) + rest) == Some(Parsed { tree: e, rest: trim_start(rest) }),
    decreases e, 5int,
{
    if tightness(e) >= 2 {
        lemma_simple_factor(e, g, rest);
    } else {
        let s = written(e, 2, g) + rest;
        lemma_atom(e, g, rest);
        assert(written(e, 2, g) == written(e, 4, g));
        assert(s[0] == '(');
        lemma_no_power(s, e, rest);
    }
}

/// A product is read, and then what follows it.
proof fn lemma_products(e: ExprView, g: Seq<char>, rest: Seq<char>)
    requires
        numbers_are(e),
        gap(g),
        stops(rest),
        no_sign(rest, 3),
    ensures
        term(written(e, 1, g) + rest) == more_factors(e, trim_start(rest)),
    decreases e, 6int,
{
    if tightness(e) >= 1 {
        lemma_simple_products(e, g, rest);
    } else {
        assert(written(e, 1, g) == written(e, 2, g));
        lemma_factor(e, g, rest);
        lemma_factor_to_term(written(e, 1, g) + rest, e, trim_start(rest));
    }
}

/// A sum is read, and then what follows it.
proof fn lemma_sums(e: ExprView, g: Seq<char>, rest: Seq<char>)
    requires
        numbers_are(e),
        gap(g),
        stops(rest),
        no_sign(rest, 1),
    ensures
        expr(plainly(e, g) + rest) == more_terms(e, trim_start(rest)),
    decreases e, 3int,
{
    let s = plainly(e, g) + rest;
    let r = trim_start(rest);
    if tightness(e) >= 1 {
        lemma_simple_products(e, g, rest);
        lemma_no_factor(e, rest);
        lemma_term_to_sum(s, e, r);
    } else {
        match e {
            ExprView::Sum(a, b) => {
                lemma_sum_of(*a, '+', *b, g, rest);
                lemma_sums(*a, g, g + (seq!['+'] + (g + (written(*b, 1, g) + rest))));
                lemma_products(*b, g, rest);
                lemma_no_factor(*b, rest);
                lemma_term_gap(g, written(*b, 1, g) + rest);
                lemma_next_term(*a, '+', g + (written(*b, 1, g) + rest), *b, r);
            },
            ExprView::Difference(a, b) => {
                lemma_sum_of(*a, '-', *b, g, rest);
                lemma_sums(*a, g, g + (seq!['-'] + (g + (written(*b, 1, g) + rest))));
                lemma_products(*b, g, rest);
                lemma_no_factor(*b, rest);
                lemma_term_gap(g, written(*b, 1, g) + rest);
                lemma_next_term(*a, '-', g + (written(*b, 1, g) + rest), *b, r);
            },
            _ => {},
        }
    }
}

/// The text of a sum or a difference.
proof fn lemma_sum_of(a: ExprView, op: char, b: ExprView, g: Seq<char>, rest: Seq<char>)
    requires
        gap(g),
        op == '+' || op == '-',
    ensures
        (written(a, 0, g) + (g + (seq![op] + (g + written(b, 1, g))))) + rest == plainly(a, g) + (g + (
        seq![op] + (g + (written(b, 1, g) + rest)))),
        stops(g + (seq![op] + (g + (written(b, 1, g) + rest)))),
        no_sign(g + (seq![op] + (g + (written(b, 1, g) + rest))), 1),
        trim_start(g + (seq![op] + (g + (written(b, 1, g) + rest)))) == seq![op] + (g + (written(
            b,
            1,
            g,
        ) + rest)),
{
    assert(tightness(a) >= 0);
    lemma_behind(g, op, g + (written(b, 1, g) + rest));
    assert((written(a, 0, g) + (g + (seq![op] + (g + written(b, 1, g))))) + rest =~= plainly(a, g)
        + (g + (seq![op] + (g + (written(b, 1, g) + rest)))));
}

/// The text of a product, a quotient or a remainder.
proof fn lemma_product_of(a: ExprView, op: char, b: ExprView, g: Seq<char>, rest: Seq<char>)
    requires
        gap(g),
        op == '*' || op == '/' || op == '%',
    ensures
        (written(a, 1, g) + (g + (seq![op] + (g + written(b, 2, g))))) + rest == written(a, 1, g) + (g
            + (seq![op] + (g + (written(b, 2, g) + rest)))),
        stops(g + (seq![op] + (g + (written(b, 2, g) + rest)))),
        no_sign(g + (seq![op] + (g + (written(b, 2, g) + rest))), 3),
        trim_start(g + (seq![op] + (g + (written(b, 2, g) + rest)))) == seq![op] + (g + (written(
            b,
            2,
            g,
        ) + rest)),
{
    lemma_behind(g, op, g + (written(b, 2, g) + rest));
    assert((written(a, 1, g) + (g + (seq![op] + (g + written(b, 2, g))))) + rest =~= written(
        a,
        1,
        g,
    ) + (g + (seq![op] + (g + (written(b, 2, g) + rest)))));
}

/// A product that stands alone is read, and then what follows it.
proof fn lemma_simple_products(e: ExprView, g: Seq<char>, rest: Seq<char>)
    requires
        numbers_are(e),
        gap(g),
        stops(rest),
        no_sign(rest, 3),
        tightness(e) >= 1,
    ensures
        term(plainly(e, g) + rest) == more_factors(e, trim_start(rest)),
    decreases e, 2int,
{
    let r = trim_start(rest);
    if tightness(e) >= 2 {
        lemma_simple_factor(e, g, rest);
        lemma_factor_to_term(plainly(e, g) + rest, e, r);
    } else {
        match e {
            ExprView::Product(a, b) => {
                lemma_product_of(*a, '*', *b, g, rest);
                lemma_products(*a, g, g + (seq!['*'] + (g + (written(*b, 2, g) + rest))));
                lemma_factor(*b, g, rest);
                lemma_signed_gap(g, written(*b, 2, g) + rest);
                lemma_next_factor(*a, '*', g + (written(*b, 2, g) + rest), *b, r);
            },
            ExprView::Quotient(a, b) => {
                lemma_product_of(*a, '/', *b, g, rest);
                lemma_products(*a, g, g + (seq!['/'] + (g + (written(*b, 2, g) + rest))));
                lemma_factor(*b, g, rest);
                lemma_signed_gap(g, written(*b, 2, g) + rest);
                lemma_next_factor(*a, '/', g + (written(*b, 2, g) + rest), *b, r);
            },
            ExprView::Remainder(a, b) => {
                lemma_product_of(*a, '%', *b, g, rest);
                lemma_products(*a, g, g + (seq!['%'] + (g + (written(*b, 2, g) + rest))));
                lemma_factor(*b, g, rest);
                lemma_signed_gap(g, written(*b, 2, g) + rest);
                lemma_next_factor(*a, '%', g + (written(*b, 2, g) + rest), *b, r);
            },
            _ => {},
        }
    }
}

/// A factor that stands alone is read, up to what follows it.
proof fn lemma_simple_factor(e: ExprView, g: Seq<char>, rest: Seq<char>)
    requires
        numbers_are(e),
        gap(g),
        stops(rest),
        no_sign(rest, 3),
        tightness(e) >= 2,
    ensures
        signed(plainly(e, g) + rest) == Some(Parsed { tree: e, rest: trim_start(rest) }),
    decreases e, 1int,
{
    let s = plainly(e, g) + rest;
    match e {
        ExprView::Negated(a) => {
            let right = written(*a, 2, g) + rest;
            assert(s =~= seq!['-'] + (g + right));
            lemma_factor(*a, g, rest);
            lemma_signed_gap(g, right);
            lemma_negative(s, g + right, *a, trim_start(rest));
        },
        ExprView::Power(a, b) => {
            let right = written(*b, 2, g) + rest;
            let behind = g + (seq!['^'] + (g + right));
            assert(s =~= written(*a, 4, g) + behind);
            lemma_behind(g, '^', g + right);
            lemma_atom(*a, g, behind);
            lemma_begins(*a, 4, g);
            assert(s[0] == written(*a, 4, g)[0]);
            lemma_factor(*b, g, rest);
            lemma_signed_gap(g, right);
            lemma_power(s, *a, behind, g + right, *b, trim_start(rest));
        },
        ExprView::Number(n) => {
            lemma_number_atom(n, rest);
            lemma_no_power(s, e, rest);
        },
        _ => {},
    }
}

/// Expressions are read with the usual precedence: powers before signs, signs before
/// products, quotients and remainders, and these before sums and differences. What is of
/// one kind is taken from the left, but powers from the right. Parentheses are needed
/// only where that is not what is meant, and white space makes no difference.
pub proof fn law_precedence(e: ExprView, g: Seq<char>)
    requires
        numbers_are(e),
        gap(g),
    ensures
        expression(g + (plainly(e, g) + g)) == Some(e),
        expression(plainly(e, g)) == Some(e),
{
    let none = Seq::<char>::empty();
    lemma_gap(g, none);
    assert(g + none =~= g);
    assert(stops(g)) by {
        if g.len() > 0 {
            assert(is_white(g[0]));
        }
    }
    assert(trim_start(none) == none);
    lemma_sums(e, g, g);
    lemma_sums(e, g, none);
    assert(plainly(e, g) + none =~= plainly(e, g));
    assert(more_terms(e, none) == Some(Parsed { tree: e, rest: none }));
    lemma_expr_gap(g, plainly(e, g) + g);
}

} // verus!
