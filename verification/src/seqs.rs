//! Sequence vocabulary shared by the contracts.

use vstd::prelude::*;

verus! {

/// The least index of an element that satisfies `p`.
pub open spec fn first_where<T>(s: Seq<T>, p: spec_fn(T) -> bool) -> Option<int>
    decreases s.len(),
{
    if s.len() == 0 {
        None
    } else {
        match first_where(s.drop_last(), p) {
            Some(i) => Some(i),
            None => if p(s.last()) {
                Some(s.len() - 1)
            } else {
                None
            },
        }
    }
}

/// `first_where` gives the least index, or nothing where no element satisfies `p`.
pub proof fn lemma_first_where<T>(s: Seq<T>, p: spec_fn(T) -> bool)
    ensures
        first_where(s, p) is Some ==> {
            let i = first_where(s, p)->0;
            0 <= i < s.len() && p(s[i]) && forall|k: int| 0 <= k < i ==> !p(#[trigger] s[k])
        },
        first_where(s, p) is None ==> forall|k: int| 0 <= k < s.len() ==> !p(#[trigger] s[k]),
    decreases s.len(),
{
    if s.len() > 0 {
        let t = s.drop_last();
        lemma_first_where(t, p);
        if first_where(t, p) is Some {
            let i = first_where(t, p)->0;
            assert(p(s[i]));
            assert forall|k: int| 0 <= k < i implies !p(#[trigger] s[k]) by {
                assert(!p(t[k]));
            }
        } else {
            assert forall|k: int| 0 <= k < s.len() - 1 implies !p(#[trigger] s[k]) by {
                assert(!p(t[k]));
            }
        }
    }
}

/// An index that satisfies `p` with none before it is the least one.
pub proof fn lemma_first_where_is<T>(s: Seq<T>, p: spec_fn(T) -> bool, i: int)
    requires
        0 <= i < s.len(),
        p(s[i]),
        forall|k: int| 0 <= k < i ==> !p(#[trigger] s[k]),
    ensures
        first_where(s, p) == Some(i),
{
    lemma_first_where(s, p);
}

/// Where no element satisfies `p` there is no least index.
pub proof fn lemma_first_where_none<T>(s: Seq<T>, p: spec_fn(T) -> bool)
    requires
        forall|k: int| 0 <= k < s.len() ==> !p(#[trigger] s[k]),
    ensures
        first_where(s, p) is None,
{
    lemma_first_where(s, p);
}

/// The indices of the elements that satisfy `p`, in order.
pub open spec fn indices_where<T>(s: Seq<T>, p: spec_fn(T) -> bool) -> Seq<int>
    decreases s.len(),
{
    if s.len() == 0 {
        Seq::empty()
    } else if p(s.last()) {
        indices_where(s.drop_last(), p).push(s.len() - 1)
    } else {
        indices_where(s.drop_last(), p)
    }
}

/// `indices_where` holds exactly the indices of the elements that satisfy `p`.
pub proof fn lemma_indices_where<T>(s: Seq<T>, p: spec_fn(T) -> bool)
    ensures
        forall|k: int|
            0 <= k < indices_where(s, p).len() ==> 0 <= #[trigger] indices_where(s, p)[k] < s.len()
                && p(s[indices_where(s, p)[k]]),
        forall|i: int| 0 <= i < s.len() && p(#[trigger] s[i]) ==> indices_where(s, p).contains(i),
    decreases s.len(),
{
    if s.len() > 0 {
        let t = s.drop_last();
        lemma_indices_where(t, p);
        let a = indices_where(t, p);
        let b = indices_where(s, p);
        assert forall|k: int| 0 <= k < b.len() implies 0 <= #[trigger] b[k] < s.len() && p(
            s[b[k]],
        ) by {
            if k < a.len() {
                assert(a[k] == b[k]);
                assert(t[a[k]] == s[b[k]]);
            }
        }
        assert forall|i: int| 0 <= i < s.len() && p(#[trigger] s[i]) implies b.contains(i) by {
            if i < t.len() {
                assert(p(t[i]));
                let k = choose|k: int| 0 <= k < a.len() && a[k] == i;
                assert(b[k] == i);
            } else {
                assert(b[b.len() - 1] == i);
            }
        }
    }
}

/// Flattening one more part puts it behind what was there.
pub proof fn lemma_flatten_push<T>(parts: Seq<Seq<T>>, part: Seq<T>)
    ensures
        parts.push(part).flatten() == parts.flatten() + part,
    decreases parts.len(),
{
    let more = parts.push(part);
    if parts.len() == 0 {
        assert(more.drop_first() =~= Seq::empty());
        assert(more.drop_first().flatten() =~= Seq::empty());
        assert(parts.flatten() =~= Seq::empty());
        assert(more.flatten() =~= part);
    } else {
        lemma_flatten_push(parts.drop_first(), part);
        assert(more.drop_first() =~= parts.drop_first().push(part));
        assert(more.flatten() =~= parts.flatten() + part);
    }
}

/// The indices in a list of `usize` as mathematical numbers.
pub open spec fn as_ints(v: Seq<usize>) -> Seq<int> {
    v.map_values(|i: usize| i as int)
}

} // verus!
