//! What the providers of the palette hand out, and how it is ranked.

use vstd::prelude::*;

use super::score::{clamp, clamped, less, rank, HALF};
use crate::order::{
    is_sorted, lemma_lex_total, lemma_lex_trans, lemma_sort, lemma_sort_stable, lex_le, lex_lt,
    sort, sort_by, str_lt, total_order,
};
use crate::text;

verus! {

/// One row of the palette.
#[derive(Debug, Clone, PartialEq, Eq)]
pub struct PaletteItem {
    /// What the provider finds the item again by.
    pub id: String,
    /// The name of the provider that the item came from.
    pub provider: String,
    /// The primary text.
    pub title: String,
    /// The secondary text.
    pub subtitle: Option<String>,
    /// The kind of glyph that stands for the item where it has no image.
    pub icon: Option<String>,
    /// The path of an image.
    pub icon_path: Option<String>,
    /// How relevant the item is, from zero to one, as a bit pattern.
    pub score: u64,
}

/// What an item holds.
pub struct ItemView {
    pub id: Seq<char>,
    pub provider: Seq<char>,
    pub title: Seq<char>,
    pub subtitle: Option<Seq<char>>,
    pub icon: Option<Seq<char>>,
    pub icon_path: Option<Seq<char>>,
    pub score: u64,
}

impl DeepView for PaletteItem {
    type V = ItemView;

    open spec fn deep_view(&self) -> ItemView {
        ItemView {
            id: self.id@,
            provider: self.provider@,
            title: self.title@,
            subtitle: self.subtitle.deep_view(),
            icon: self.icon.deep_view(),
            icon_path: self.icon_path.deep_view(),
            score: self.score,
        }
    }
}

impl PaletteItem {
    /// An item with nothing but its texts, of middling relevance.
    pub fn new(provider: &str, id: String, title: String) -> (r: Self)
        ensures
            r.deep_view() == (ItemView {
                id: id@,
                provider: provider@,
                title: title@,
                subtitle: None,
                icon: None,
                icon_path: None,
                score: HALF,
            }),
    {
        PaletteItem {
            id,
            provider: text::owned(provider),
            title,
            subtitle: None,
            icon: None,
            icon_path: None,
            score: HALF,
        }
    }

    pub fn with_subtitle(self, subtitle: String) -> (r: Self)
        ensures
            r.deep_view() == (ItemView { subtitle: Some(subtitle@), ..self.deep_view() }),
    {
        let mut out = self;
        out.subtitle = Some(subtitle);
        out
    }

    pub fn with_icon(self, icon: &str) -> (r: Self)
        ensures
            r.deep_view() == (ItemView { icon: Some(icon@), ..self.deep_view() }),
    {
        let mut out = self;
        out.icon = Some(text::owned(icon));
        out
    }

    pub fn with_icon_path(self, icon_path: String) -> (r: Self)
        ensures
            r.deep_view() == (ItemView { icon_path: Some(icon_path@), ..self.deep_view() }),
    {
        let mut out = self;
        out.icon_path = Some(icon_path);
        out
    }

    /// Sets the relevance, limited to the range from zero to one.
    pub fn with_score(self, score: u64) -> (r: Self)
        ensures
            r.deep_view() == (ItemView { score: clamped(score), ..self.deep_view() }),
    {
        let mut out = self;
        out.score = clamp(score);
        out
    }
}

/// What the shell shows of the palette.
#[derive(Debug, Clone, PartialEq, Eq)]
pub struct PaletteState {
    pub open: bool,
    pub query: String,
    pub results: Vec<PaletteItem>,
}

/// What a palette state holds.
pub struct StateView {
    pub open: bool,
    pub query: Seq<char>,
    pub results: Seq<ItemView>,
}

impl DeepView for PaletteState {
    type V = StateView;

    open spec fn deep_view(&self) -> StateView {
        StateView { open: self.open, query: self.query@, results: self.results.deep_view() }
    }
}

/// The palette when it is closed.
pub open spec fn closed_state() -> StateView {
    StateView { open: false, query: Seq::empty(), results: Seq::empty() }
}

impl Default for PaletteState {
    fn default() -> (r: Self)
        ensures
            r.deep_view() == closed_state(),
    {
        let r = PaletteState { open: false, query: String::new(), results: Vec::new() };
        assert(r.query@ =~= Seq::empty());
        assert(r.results.deep_view() =~= Seq::empty());
        r
    }
}

/// Why an item could not be executed.
#[derive(Debug, Clone, PartialEq, Eq)]
pub enum ProviderError {
    /// The provider does not know the item.
    UnknownItem(String),
    /// The action failed.
    ExecuteFailed(String),
}

impl ProviderError {
    /// What is logged of the error.
    pub fn message(&self) -> (r: String)
        ensures
            r@ == match *self {
                ProviderError::UnknownItem(id) => "item id not recognized: "@ + id@,
                ProviderError::ExecuteFailed(why) => "execute failed: "@ + why@,
            },
    {
        match self {
            ProviderError::UnknownItem(id) => text::concat2("item id not recognized: ", id),
            ProviderError::ExecuteFailed(why) => text::concat2("execute failed: ", why),
        }
    }
}

pub type ProviderResult<T> = Result<T, ProviderError>;

// ---------------------------------------------------------------------------
// Ranking
// ---------------------------------------------------------------------------

/// Whether `a` is ranked before `b` or level with it: by falling score, then by
/// provider, then by title.
pub open spec fn ranked_before(a: ItemView, b: ItemView) -> bool {
    ||| rank(a.score) > rank(b.score)
    ||| rank(a.score) == rank(b.score) && lex_lt(a.provider, b.provider)
    ||| rank(a.score) == rank(b.score) && a.provider == b.provider && lex_le(a.title, b.title)
}

/// At most the first `limit` elements.
pub open spec fn at_most<T>(s: Seq<T>, limit: int) -> Seq<T> {
    if s.len() <= limit {
        s
    } else {
        s.take(limit)
    }
}

/// The lists of several providers as one ranked list of limited length. Items
/// that rank level keep the order in which they came.
pub open spec fn merged(buckets: Seq<Seq<ItemView>>, limit: int) -> Seq<ItemView> {
    at_most(sort(buckets.flatten(), |a: ItemView, b: ItemView| ranked_before(a, b)), limit)
}

/// Shortens a list of items to at most `limit`.
pub(crate) fn truncated(items: Vec<PaletteItem>, limit: usize) -> (r: Vec<PaletteItem>)
    ensures
        r.deep_view() == at_most(items.deep_view(), limit as int),
{
    let mut out = items;
    if out.len() > limit {
        out.truncate(limit);
    }
    assert(out.deep_view() =~= at_most(items.deep_view(), limit as int));
    out
}

/// Whether `a` is ranked before `b` or level with it.
fn item_before(a: &PaletteItem, b: &PaletteItem) -> (r: bool)
    ensures
        r == ranked_before(a.deep_view(), b.deep_view()),
{
    if less(b.score, a.score) {
        return true;
    }
    if less(a.score, b.score) {
        return false;
    }
    if str_lt(&a.provider, &b.provider) {
        return true;
    }
    text::same(&a.provider, &b.provider) && !str_lt(&b.title, &a.title)
}

/// Merges the lists of several providers into one ranked list of at most `limit`
/// items.
pub fn merge_results(buckets: Vec<Vec<PaletteItem>>, limit: usize) -> (r: Vec<PaletteItem>)
    ensures
        r.deep_view() == merged(buckets.deep_view(), limit as int),
{
    let ghost all = buckets.deep_view();
    let mut rest = buckets;
    let mut items: Vec<PaletteItem> = Vec::new();
    proof {
        assert(items.deep_view() + rest.deep_view().flatten() =~= all.flatten());
    }
    while rest.len() > 0
        invariant
            items.deep_view() + rest.deep_view().flatten() == all.flatten(),
        decreases rest@.len(),
    {
        let ghost before = items.deep_view();
        let ghost rv = rest.deep_view();
        let mut bucket = rest.remove(0);
        let ghost bv = bucket.deep_view();
        proof {
            assert(rv[0] == bv);
            assert(rv.drop_first() =~= rest.deep_view());
            assert(rv.flatten() == bv + rest.deep_view().flatten());
        }
        items.append(&mut bucket);
        proof {
            assert(items.deep_view() =~= before + bv);
            assert(items.deep_view() + rest.deep_view().flatten() =~= before + rv.flatten());
        }
    }
    proof {
        assert(rest.deep_view() =~= Seq::empty());
        assert(items.deep_view() =~= all.flatten());
    }
    let ghost key = |i: PaletteItem| i.deep_view();
    let ghost rel = |a: ItemView, b: ItemView| ranked_before(a, b);
    assert(items@.map_values(key) =~= items.deep_view());
    let le = |a: &PaletteItem, b: &PaletteItem| -> (o: bool)
        ensures
            o == ranked_before(a.deep_view(), b.deep_view()),
    {
        let before = item_before(a, b);
        before
    };
    let sorted = sort_by::<PaletteItem, ItemView, _>(items, le, Ghost(key), Ghost(rel));
    assert(sorted@.map_values(key) =~= sorted.deep_view());
    truncated(sorted, limit)
}

/// The ranking orders any two items and is transitive.
pub proof fn lemma_ranking_is_total()
    ensures
        total_order(|a: ItemView, b: ItemView| ranked_before(a, b)),
{
    let le = |a: ItemView, b: ItemView| ranked_before(a, b);
    assert forall|a: ItemView, b: ItemView| #[trigger] le(a, b) || le(b, a) by {
        lemma_lex_total(a.provider, b.provider);
        lemma_lex_total(a.title, b.title);
    }
    assert forall|a: ItemView, b: ItemView, c: ItemView| #[trigger]
        le(a, b) && #[trigger] le(b, c) implies le(a, c) by {
        lemma_lex_total(a.provider, b.provider);
        lemma_lex_total(b.provider, c.provider);
        lemma_lex_total(a.provider, c.provider);
        if lex_le(a.provider, b.provider) && lex_le(b.provider, c.provider) {
            lemma_lex_trans(a.provider, b.provider, c.provider);
        }
        if lex_le(c.provider, a.provider) && lex_le(a.provider, b.provider) {
            lemma_lex_trans(c.provider, a.provider, b.provider);
        }
        if lex_le(b.provider, c.provider) && lex_le(c.provider, a.provider) {
            lemma_lex_trans(b.provider, c.provider, a.provider);
        }
        if lex_le(a.title, b.title) && lex_le(b.title, c.title) {
            lemma_lex_trans(a.title, b.title, c.title);
        }
    }
}

/// A merged list is in order, holds no more items than its limit and none that
/// no provider gave; where the limit is not reached it holds every one of them.
pub proof fn law_merging_ranks_and_limits(buckets: Seq<Seq<ItemView>>, limit: int)
    requires
        0 <= limit,
    ensures
        is_sorted(merged(buckets, limit), |a: ItemView, b: ItemView| ranked_before(a, b)),
        merged(buckets, limit).len() == if buckets.flatten().len() <= limit {
            buckets.flatten().len() as int
        } else {
            limit
        },
        forall|k: int|
            0 <= k < merged(buckets, limit).len() ==> buckets.flatten().contains(
                #[trigger] merged(buckets, limit)[k],
            ),
        buckets.flatten().len() <= limit ==> merged(buckets, limit).to_multiset()
            == buckets.flatten().to_multiset(),
{
    broadcast use vstd::seq_lib::group_to_multiset_ensures;

    let le = |a: ItemView, b: ItemView| ranked_before(a, b);
    let all = buckets.flatten();
    let full = sort(all, le);
    lemma_ranking_is_total();
    lemma_sort(all, le);
    let out = merged(buckets, limit);
    assert forall|k: int| 0 <= k < out.len() implies all.contains(#[trigger] out[k]) by {
        assert(out[k] == full[k]);
        assert(full.contains(full[k]));
        assert(full.to_multiset().count(full[k]) > 0);
        assert(all.to_multiset().count(full[k]) > 0);
    }
}

/// What the limit leaves out ranks no higher than anything that stays.
pub proof fn law_merging_keeps_the_best(buckets: Seq<Seq<ItemView>>, limit: int, x: ItemView)
    requires
        0 <= limit,
        buckets.flatten().contains(x),
        !merged(buckets, limit).contains(x),
    ensures
        forall|k: int|
            0 <= k < merged(buckets, limit).len() ==> ranked_before(
                #[trigger] merged(buckets, limit)[k],
                x,
            ),
{
    broadcast use vstd::seq_lib::group_to_multiset_ensures;

    let le = |a: ItemView, b: ItemView| ranked_before(a, b);
    let all = buckets.flatten();
    let full = sort(all, le);
    lemma_ranking_is_total();
    lemma_sort(all, le);
    assert(all.to_multiset().count(x) > 0);
    assert(full.contains(x));
    let j = choose|j: int| 0 <= j < full.len() && full[j] == x;
    let out = merged(buckets, limit);
    assert forall|k: int| 0 <= k < out.len() implies ranked_before(#[trigger] out[k], x) by {
        assert(out[k] == full[k]);
        if j < out.len() {
            assert(out[j] == x);
        }
        assert(le(full[k], full[j]));
    }
}

/// Items that rank level keep the order in which the providers gave them.
pub proof fn law_merging_is_stable(buckets: Seq<Seq<ItemView>>, x: ItemView)
    ensures
        ({
            let level = |y: ItemView| ranked_before(y, x) && ranked_before(x, y);
            merged(buckets, buckets.flatten().len() as int).filter(level)
                == buckets.flatten().filter(level)
        }),
{
    let le = |a: ItemView, b: ItemView| ranked_before(a, b);
    let all = buckets.flatten();
    lemma_ranking_is_total();
    lemma_sort(all, le);
    lemma_sort_stable(all, le, x);
    assert((|y: ItemView| le(y, x) && le(x, y)) =~= (|y: ItemView|
        ranked_before(y, x) && ranked_before(x, y)));
}

/// The higher score ranks first, and of equal scores the provider and then the title that
/// comes first as a text. Scores from zero to one order as their patterns do.
pub proof fn law_higher_scores_rank_first(a: ItemView, b: ItemView)
    requires
        a.score <= 0x3FF0_0000_0000_0000,
        b.score <= 0x3FF0_0000_0000_0000,
    ensures
        ranked_before(a, b) <==> a.score > b.score || (a.score == b.score && (lex_lt(
            a.provider,
            b.provider,
        ) || (a.provider == b.provider && !lex_lt(b.title, a.title)))),
{
}

/// What is limited keeps its first elements, and all of them where they are not too many.
pub proof fn law_limits_keep_the_first<T>(s: Seq<T>, limit: int)
    requires
        0 <= limit,
    ensures
        at_most(s, limit).len() == (if s.len() < limit {
            s.len() as int
        } else {
            limit
        }),
        forall|i: int| 0 <= i < at_most(s, limit).len() ==> #[trigger] at_most(s, limit)[i] == s[i],
{
}

} // verus!
