//! Text order and stable sorting.

use vstd::prelude::*;

use crate::text::chars;

verus! {

// ---------------------------------------------------------------------------
// Lexicographic order
// ---------------------------------------------------------------------------

/// Whether `a` stands strictly before `b` in code point order. UTF-8 keeps code
/// point order, so this is also the order of the encoded bytes.
pub open spec fn lex_lt(a: Seq<char>, b: Seq<char>) -> bool
    decreases a.len(),
{
    if b.len() == 0 {
        false
    } else if a.len() == 0 {
        true
    } else if a[0] == b[0] {
        lex_lt(a.skip(1), b.skip(1))
    } else {
        a[0] < b[0]
    }
}

/// Whether `a` stands before `b` in code point order, or is equal to it.
pub open spec fn lex_le(a: Seq<char>, b: Seq<char>) -> bool {
    !lex_lt(b, a)
}

/// Any two texts are ordered one way or the other; equal ones are in both.
pub proof fn lemma_lex_total(a: Seq<char>, b: Seq<char>)
    ensures
        lex_le(a, b) || lex_le(b, a),
        lex_le(a, a),
        lex_le(a, b) && lex_le(b, a) ==> a == b,
    decreases a.len(),
{
    if a.len() > 0 {
        lemma_lex_total(a.skip(1), a.skip(1));
    }
    if a.len() > 0 && b.len() > 0 && a[0] == b[0] {
        lemma_lex_total(a.skip(1), b.skip(1));
        if lex_le(a, b) && lex_le(b, a) {
            assert(a =~= seq![a[0]] + a.skip(1));
            assert(b =~= seq![b[0]] + b.skip(1));
        }
    } else if a.len() == 0 && b.len() == 0 {
        assert(a =~= b);
    }
}

/// The text order is transitive.
pub proof fn lemma_lex_trans(a: Seq<char>, b: Seq<char>, c: Seq<char>)
    requires
        lex_le(a, b),
        lex_le(b, c),
    ensures
        lex_le(a, c),
    decreases a.len(),
{
    if a.len() > 0 && b.len() > 0 && c.len() > 0 {
        if a[0] == b[0] && b[0] == c[0] {
            lemma_lex_trans(a.skip(1), b.skip(1), c.skip(1));
        }
    }
}

/// Whether `a` stands strictly before `b` in code point order.
pub fn str_lt(a: &str, b: &str) -> (r: bool)
    ensures
        r == lex_lt(a@, b@),
{
    let x = chars(a);
    let y = chars(b);
    let mut i: usize = 0;
    proof {
        assert(x@.skip(0) =~= x@);
        assert(y@.skip(0) =~= y@);
    }
    while i < x.len() && i < y.len()
        invariant
            x@ == a@,
            y@ == b@,
            i <= x@.len(),
            i <= y@.len(),
            lex_lt(x@, y@) == lex_lt(x@.skip(i as int), y@.skip(i as int)),
        decreases x@.len() - i,
    {
        if x[i] != y[i] {
            return x[i] < y[i];
        }
        proof {
            assert(x@.skip(i as int).skip(1) =~= x@.skip(i + 1));
            assert(y@.skip(i as int).skip(1) =~= y@.skip(i + 1));
        }
        i += 1;
    }
    i < y.len()
}

// ---------------------------------------------------------------------------
// Stable sorting
// ---------------------------------------------------------------------------

/// `r` with `x` put behind the last element that is not above it.
pub open spec fn insert_sorted<T>(r: Seq<T>, x: T, le: spec_fn(T, T) -> bool) -> Seq<T>
    decreases r.len(),
{
    if r.len() == 0 || le(r.last(), x) {
        r.push(x)
    } else {
        insert_sorted(r.drop_last(), x, le).push(r.last())
    }
}

/// The elements of `s` in the order `le`; where neither of two is below the
/// other, the one that came first stays first.
pub open spec fn sort<T>(s: Seq<T>, le: spec_fn(T, T) -> bool) -> Seq<T>
    decreases s.len(),
{
    if s.len() == 0 {
        s
    } else {
        insert_sorted(sort(s.drop_last(), le), s.last(), le)
    }
}

/// Whether each element is in order with every later one.
pub open spec fn is_sorted<T>(s: Seq<T>, le: spec_fn(T, T) -> bool) -> bool {
    forall|i: int, j: int| 0 <= i < j < s.len() ==> le(#[trigger] s[i], #[trigger] s[j])
}

/// Whether `le` orders any two elements and is transitive.
pub open spec fn total_order<T>(le: spec_fn(T, T) -> bool) -> bool {
    &&& forall|a: T, b: T| #[trigger] le(a, b) || le(b, a)
    &&& forall|a: T, b: T, c: T| #[trigger] le(a, b) && #[trigger] le(b, c) ==> le(a, c)
}

proof fn lemma_insert_sorted<T>(r: Seq<T>, x: T, le: spec_fn(T, T) -> bool)
    requires
        total_order(le),
        is_sorted(r, le),
    ensures
        is_sorted(insert_sorted(r, x, le), le),
        insert_sorted(r, x, le).to_multiset() == r.to_multiset().insert(x),
        insert_sorted(r, x, le).len() == r.len() + 1,
        forall|k: int|
            0 <= k < insert_sorted(r, x, le).len() ==> #[trigger] insert_sorted(r, x, le)[k] == x
                || exists|m: int| 0 <= m < r.len() && r[m] == insert_sorted(r, x, le)[k],
    decreases r.len(),
{
    broadcast use vstd::seq_lib::group_to_multiset_ensures;

    let out = insert_sorted(r, x, le);
    if r.len() == 0 {
        assert(out =~= r.push(x));
    } else if le(r.last(), x) {
        assert forall|i: int, j: int| 0 <= i < j < out.len() implies le(
            #[trigger] out[i],
            #[trigger] out[j],
        ) by {
            if j == r.len() && i < r.len() - 1 {
                assert(le(r[i], r.last()));
            }
        }
        assert(out[r.len() as int] == x);
        assert forall|k: int| 0 <= k < out.len() implies #[trigger] out[k] == x || exists|m: int|
            0 <= m < r.len() && r[m] == out[k] by {
            if k < r.len() {
                assert(r[k] == out[k]);
            }
        }
    } else {
        let inner = insert_sorted(r.drop_last(), x, le);
        lemma_insert_sorted(r.drop_last(), x, le);
        assert(le(x, r.last()));
        assert forall|i: int, j: int| 0 <= i < j < out.len() implies le(
            #[trigger] out[i],
            #[trigger] out[j],
        ) by {
            if j == inner.len() {
                assert(inner[i] == out[i]);
                if inner[i] != x {
                    let m = choose|m: int| 0 <= m < r.drop_last().len() && r.drop_last()[m] == inner[i];
                    assert(le(r[m], r[r.len() - 1]));
                }
            } else {
                assert(le(inner[i], inner[j]));
            }
        }
        assert forall|k: int| 0 <= k < out.len() implies #[trigger] out[k] == x || exists|m: int|
            0 <= m < r.len() && r[m] == out[k] by {
            if k == inner.len() {
                assert(r[r.len() - 1] == out[k]);
            } else {
                assert(inner[k] == out[k]);
                if inner[k] != x {
                    let m = choose|m: int| 0 <= m < r.drop_last().len() && r.drop_last()[m] == inner[k];
                    assert(r[m] == out[k]);
                }
            }
        }
        assert(r =~= r.drop_last().push(r.last()));
        assert(out.to_multiset() =~= r.to_multiset().insert(x));
    }
}

/// Sorting by a total order gives a sorted permutation of its input.
pub proof fn lemma_sort<T>(s: Seq<T>, le: spec_fn(T, T) -> bool)
    requires
        total_order(le),
    ensures
        is_sorted(sort(s, le), le),
        sort(s, le).to_multiset() == s.to_multiset(),
        sort(s, le).len() == s.len(),
    decreases s.len(),
{
    broadcast use vstd::seq_lib::group_to_multiset_ensures;

    if s.len() > 0 {
        lemma_sort(s.drop_last(), le);
        lemma_insert_sorted(sort(s.drop_last(), le), s.last(), le);
        assert(s =~= s.drop_last().push(s.last()));
    }
}

/// Sorting keeps the number of elements, whatever the relation.
pub proof fn lemma_sort_len<T>(s: Seq<T>, le: spec_fn(T, T) -> bool)
    ensures
        sort(s, le).len() == s.len(),
    decreases s.len(),
{
    if s.len() > 0 {
        lemma_sort_len(s.drop_last(), le);
        lemma_insert_len(sort(s.drop_last(), le), s.last(), le);
    }
}

proof fn lemma_insert_len<T>(r: Seq<T>, x: T, le: spec_fn(T, T) -> bool)
    ensures
        insert_sorted(r, x, le).len() == r.len() + 1,
    decreases r.len(),
{
    if r.len() > 0 && !le(r.last(), x) {
        lemma_insert_len(r.drop_last(), x, le);
    }
}

/// What follows an element's place is above it, what precedes is not.
proof fn lemma_insert_position<T>(r: Seq<T>, x: T, le: spec_fn(T, T) -> bool, i: int)
    requires
        0 <= i <= r.len(),
        i > 0 ==> le(r[i - 1], x),
        forall|k: int| i <= k < r.len() ==> !le(#[trigger] r[k], x),
    ensures
        insert_sorted(r, x, le) == r.insert(i, x),
    decreases r.len(),
{
    if i == r.len() {
        assert(r.insert(i, x) =~= r.push(x));
    } else {
        assert(!le(r[r.len() - 1], x));
        lemma_insert_position(r.drop_last(), x, le, i);
        assert(r.drop_last().insert(i, x).push(r.last()) =~= r.insert(i, x));
    }
}

/// Sorts a vector. `key` is what the order looks at, `rel` the order itself.
pub fn sort_by<T, K, F: Fn(&T, &T) -> bool>(
    v: Vec<T>,
    le: F,
    Ghost(key): Ghost<spec_fn(T) -> K>,
    Ghost(rel): Ghost<spec_fn(K, K) -> bool>,
) -> (r: Vec<T>)
    requires
        forall|a: &T, b: &T| call_requires(le, (a, b)),
        forall|a: &T, b: &T, o: bool|
            call_ensures(le, (a, b), o) ==> o == rel(key(*a), key(*b)),
    ensures
        r@.map_values(key) == sort(v@.map_values(key), rel),
        r@ == sort(v@, |a: T, b: T| rel(key(a), key(b))),
{
    let ghost all = v@;
    let ghost full = |a: T, b: T| rel(key(a), key(b));
    let mut rest = v;
    let mut out: Vec<T> = Vec::new();
    let ghost mut n: int = 0;
    assert(all.take(0) =~= Seq::empty());
    while rest.len() > 0
        invariant
            0 <= n <= all.len(),
            full == (|a: T, b: T| rel(key(a), key(b))),
            rest@ == all.skip(n),
            out@ == sort(all.take(n), full),
            forall|a: &T, b: &T| call_requires(le, (a, b)),
            forall|a: &T, b: &T, o: bool|
                call_ensures(le, (a, b), o) ==> o == rel(key(*a), key(*b)),
        decreases rest@.len(),
    {
        let x = rest.remove(0);
        let ghost r0 = out@;
        let mut i: usize = out.len();
        while i > 0 && !le(&out[i - 1], &x)
            invariant
                i <= out@.len(),
                full == (|a: T, b: T| rel(key(a), key(b))),
                forall|k: int| i <= k < out@.len() ==> !full(#[trigger] out@[k], x),
                forall|a: &T, b: &T| call_requires(le, (a, b)),
                forall|a: &T, b: &T, o: bool|
                    call_ensures(le, (a, b), o) ==> o == rel(key(*a), key(*b)),
            ensures
                i <= out@.len(),
                i > 0 ==> full(out@[i - 1], x),
                forall|k: int| i <= k < out@.len() ==> !full(#[trigger] out@[k], x),
            decreases i,
        {
            i -= 1;
        }
        proof {
            lemma_insert_position(r0, x, full, i as int);
            assert(all.take(n + 1).drop_last() =~= all.take(n));
            assert(all.take(n + 1).last() == x);
            assert(all.skip(n).remove(0) =~= all.skip(n + 1));
            n = n + 1;
        }
        out.insert(i, x);
    }
    proof {
        assert(all.take(n) =~= all);
        lemma_sort_keys(all, key, rel);
    }
    out
}

proof fn lemma_insert_keys<T, K>(r: Seq<T>, x: T, key: spec_fn(T) -> K, rel: spec_fn(K, K) -> bool)
    ensures
        insert_sorted(r, x, |a: T, b: T| rel(key(a), key(b))).map_values(key) == insert_sorted(
            r.map_values(key),
            key(x),
            rel,
        ),
    decreases r.len(),
{
    let full = |a: T, b: T| rel(key(a), key(b));
    if r.len() == 0 || full(r.last(), x) {
        assert(r.push(x).map_values(key) =~= r.map_values(key).push(key(x)));
    } else {
        lemma_insert_keys(r.drop_last(), x, key, rel);
        assert(r.drop_last().map_values(key) =~= r.map_values(key).drop_last());
        assert(insert_sorted(r.drop_last(), x, full).push(r.last()).map_values(key)
            =~= insert_sorted(r.drop_last(), x, full).map_values(key).push(key(r.last())));
    }
}

/// Sorting elements by a key sorts the keys.
pub proof fn lemma_sort_keys<T, K>(s: Seq<T>, key: spec_fn(T) -> K, rel: spec_fn(K, K) -> bool)
    ensures
        sort(s, |a: T, b: T| rel(key(a), key(b))).map_values(key) == sort(s.map_values(key), rel),
    decreases s.len(),
{
    let full = |a: T, b: T| rel(key(a), key(b));
    if s.len() == 0 {
        assert(s.map_values(key) =~= Seq::empty());
        assert(sort(s, full).map_values(key) =~= sort(s.map_values(key), rel));
    } else {
        lemma_sort_keys(s.drop_last(), key, rel);
        lemma_insert_keys(sort(s.drop_last(), full), s.last(), key, rel);
        assert(s.drop_last().map_values(key) =~= s.map_values(key).drop_last());
    }
}

/// Sorting keeps, for any one element, the order of all that rank equal to it.
pub proof fn lemma_sort_stable<T>(s: Seq<T>, le: spec_fn(T, T) -> bool, k: T)
    requires
        total_order(le),
    ensures
        sort(s, le).filter(|x: T| le(x, k) && le(k, x)) == s.filter(
            |x: T| le(x, k) && le(k, x),
        ),
    decreases s.len(),
{
    let p = |x: T| le(x, k) && le(k, x);
    if s.len() > 0 {
        lemma_sort_stable(s.drop_last(), le, k);
        lemma_sort(s.drop_last(), le);
        lemma_insert_stable(sort(s.drop_last(), le), s.last(), le, k);
        s.drop_last().lemma_filter_push(s.last(), p);
        assert(s =~= s.drop_last().push(s.last()));
    }
}

proof fn lemma_insert_stable<T>(r: Seq<T>, x: T, le: spec_fn(T, T) -> bool, k: T)
    requires
        total_order(le),
        is_sorted(r, le),
    ensures
        insert_sorted(r, x, le).filter(|y: T| le(y, k) && le(k, y)) == (if le(x, k) && le(k, x) {
            r.filter(|y: T| le(y, k) && le(k, y)).push(x)
        } else {
            r.filter(|y: T| le(y, k) && le(k, y))
        }),
    decreases r.len(),
{
    let p = |y: T| le(y, k) && le(k, y);
    if r.len() == 0 || le(r.last(), x) {
        r.lemma_filter_push(x, p);
    } else {
        let head = r.drop_last();
        lemma_insert_stable(head, x, le, k);
        insert_sorted(head, x, le).lemma_filter_push(r.last(), p);
        head.lemma_filter_push(r.last(), p);
        assert(r =~= head.push(r.last()));
        if p(x) && p(r.last()) {
            // Both rank as `k` does, so the last one would not be above `x`.
            assert(le(r.last(), k) && le(k, x));
            assert(le(r.last(), x));
        }
    }
}

// ---------------------------------------------------------------------------
// Laws
// ---------------------------------------------------------------------------

/// Whether two texts are the same up to a place, at which the first has ended or has the
/// lesser character.
pub open spec fn lesser_at(a: Seq<char>, b: Seq<char>, i: int) -> bool {
    &&& 0 <= i <= a.len()
    &&& i < b.len()
    &&& a.take(i) == b.take(i)
    &&& i == a.len() || a[i] < b[i]
}

/// One text stands before another where, at the first place where they differ, it has
/// ended or has the lesser character.
pub proof fn law_text_order(a: Seq<char>, b: Seq<char>)
    ensures
        lex_lt(a, b) <==> exists|i: int| lesser_at(a, b, i),
    decreases a.len(),
{
    assert(a.take(0) =~= b.take(0));
    if b.len() > 0 && a.len() > 0 {
        let (x, y) = (a.skip(1), b.skip(1));
        law_text_order(x, y);
        if a[0] == b[0] {
            if lex_lt(a, b) {
                let i = choose|i: int| lesser_at(x, y, i);
                assert(a.take(i + 1) =~= seq![a[0]] + x.take(i));
                assert(b.take(i + 1) =~= seq![b[0]] + y.take(i));
                assert(lesser_at(a, b, i + 1));
            }
            if exists|i: int| lesser_at(a, b, i) {
                let i = choose|i: int| lesser_at(a, b, i);
                assert(i > 0);
                assert(x.take(i - 1) =~= a.take(i).skip(1));
                assert(y.take(i - 1) =~= b.take(i).skip(1));
                assert(lesser_at(x, y, i - 1));
            }
        } else {
            if a[0] < b[0] {
                assert(lesser_at(a, b, 0));
            }
            if exists|i: int| lesser_at(a, b, i) {
                let i = choose|i: int| lesser_at(a, b, i);
                if i > 0 {
                    assert(a.take(i)[0] == b.take(i)[0]);
                }
            }
        }
    } else if b.len() > 0 {
        assert(lesser_at(a, b, 0));
    }
}

/// Sorting by an order keeps every element, as often as it was there, and puts none
/// before one that goes before it.
pub proof fn law_sorting<T>(s: Seq<T>, le: spec_fn(T, T) -> bool)
    requires
        forall|a: T, b: T| #[trigger] le(a, b) || le(b, a),
        forall|a: T, b: T, c: T| #[trigger] le(a, b) && #[trigger] le(b, c) ==> le(a, c),
    ensures
        forall|i: int, j: int|
            0 <= i < j < sort(s, le).len() ==> le(#[trigger] sort(s, le)[i], #[trigger] sort(s, le)[j]),
        sort(s, le).to_multiset() == s.to_multiset(),
        sort(s, le).len() == s.len(),
{
    assert(total_order(le));
    lemma_sort(s, le);
    assert forall|i: int, j: int| 0 <= i < j < sort(s, le).len() implies le(
        #[trigger] sort(s, le)[i],
        #[trigger] sort(s, le)[j],
    ) by {}
}

} // verus!
