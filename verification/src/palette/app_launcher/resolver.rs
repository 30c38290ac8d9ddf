//! The resolver: which directories it knows, and where it looks for an icon.

use vstd::prelude::*;

use super::icons::{
    bare_name, candidate_subdirs, extensions_for_subdir, exts_of, fallbacks, icon_exts,
    icon_name_fallbacks, strip_known_extension, subdirs, texts,
};
use super::themes::{build_theme_chain, theme_chain, ThemeIndex};
use crate::paths::{joined, path_join};
use crate::seqs::{first_where, lemma_first_where_is, lemma_first_where_none, lemma_flatten_push};
use crate::text;

verus! {

/// The directories of a theme that exist.
#[derive(Debug, Clone, PartialEq, Eq)]
pub struct ThemeDirs {
    pub base: String,
    pub subdirs: Vec<String>,
}

/// What the directories of a theme are.
pub struct ThemeDirsView {
    pub base: Seq<char>,
    pub subdirs: Seq<Seq<char>>,
}

impl DeepView for ThemeDirs {
    type V = ThemeDirsView;

    open spec fn deep_view(&self) -> ThemeDirsView {
        ThemeDirsView { base: self.base@, subdirs: self.subdirs.deep_view() }
    }
}

/// The directories that icons are looked for in.
#[derive(Debug, Clone, PartialEq, Eq)]
pub struct IconResolver {
    /// The `pixmaps` directories.
    pub pixmaps_dirs: Vec<String>,
    /// The directories that hold the themes, where some icons stand beside them.
    pub loose_icon_roots: Vec<String>,
    /// The directories of the themes, in the order of the chain.
    pub theme_cache: Vec<ThemeDirs>,
}

/// What a resolver knows.
pub struct ResolverView {
    pub pixmaps_dirs: Seq<Seq<char>>,
    pub loose_icon_roots: Seq<Seq<char>>,
    pub theme_cache: Seq<ThemeDirsView>,
}

impl DeepView for IconResolver {
    type V = ResolverView;

    open spec fn deep_view(&self) -> ResolverView {
        ResolverView {
            pixmaps_dirs: self.pixmaps_dirs.deep_view(),
            loose_icon_roots: self.loose_icon_roots.deep_view(),
            theme_cache: self.theme_cache.deep_view(),
        }
    }
}

// ---------------------------------------------------------------------------
// Building
// ---------------------------------------------------------------------------

/// The roots that have a given directory: its path below each of them.
pub open spec fn below(roots: Seq<Seq<char>>, rel: Seq<char>, dirs: Seq<Seq<char>>) -> Seq<
    Seq<char>,
> {
    roots.map_values(|r: Seq<char>| joined(r, rel)).filter(|d: Seq<char>| dirs.contains(d))
}

/// The directory of a theme below a root.
pub open spec fn theme_base(root: Seq<char>, theme: Seq<char>) -> Seq<char> {
    joined(joined(root, "icons"@), theme)
}

/// The directories in a theme that exist.
pub open spec fn live_subdirs(base: Seq<char>, dirs: Seq<Seq<char>>) -> Seq<Seq<char>> {
    subdirs().filter(|s: Seq<char>| dirs.contains(joined(base, s)))
}

/// What a root has of a theme, where it has anything.
pub open spec fn live_theme(root: Seq<char>, theme: Seq<char>, dirs: Seq<Seq<char>>) -> Option<
    ThemeDirsView,
> {
    let base = theme_base(root, theme);
    if dirs.contains(base) && live_subdirs(base, dirs).len() > 0 {
        Some(ThemeDirsView { base, subdirs: live_subdirs(base, dirs) })
    } else {
        None
    }
}

/// What the roots have of a theme, in their order.
pub open spec fn live_in(roots: Seq<Seq<char>>, theme: Seq<char>, dirs: Seq<Seq<char>>) -> Seq<
    ThemeDirsView,
>
    decreases roots.len(),
{
    if roots.len() == 0 {
        Seq::empty()
    } else {
        match live_theme(roots.last(), theme, dirs) {
            Some(t) => live_in(roots.drop_last(), theme, dirs).push(t),
            None => live_in(roots.drop_last(), theme, dirs),
        }
    }
}

/// A chain with `hicolor` at its end, where it is not in it.
pub open spec fn with_hicolor(chain: Seq<Seq<char>>) -> Seq<Seq<char>> {
    if chain.contains("hicolor"@) {
        chain
    } else {
        chain.push("hicolor"@)
    }
}

/// The resolver for some roots and a chain of themes, where `dirs` are the
/// directories that exist.
pub open spec fn resolver(
    roots: Seq<Seq<char>>,
    chain: Seq<Seq<char>>,
    dirs: Seq<Seq<char>>,
) -> ResolverView {
    ResolverView {
        pixmaps_dirs: below(roots, "pixmaps"@, dirs),
        loose_icon_roots: below(roots, "icons"@, dirs),
        theme_cache: with_hicolor(chain).map_values(
            |theme: Seq<char>| live_in(roots, theme, dirs),
        ).flatten(),
    }
}

fn find_below(roots: &[String], rel: &str, dirs: &[String]) -> (r: Vec<String>)
    ensures
        r.deep_view() == below(roots.deep_view(), rel@, dirs.deep_view()),
{
    let ghost dv = dirs.deep_view();
    let ghost wanted = rel@;
    let ghost all = roots.deep_view().map_values(|r: Seq<char>| joined(r, wanted));
    let ghost p = |d: Seq<char>| dv.contains(d);
    let mut out: Vec<String> = Vec::new();
    let mut i: usize = 0;
    assert(all.take(0).filter(p) =~= Seq::empty()) by {
        reveal(Seq::filter);
    }
    assert(out.deep_view() =~= all.take(0).filter(p));
    while i < roots.len()
        invariant
            i <= roots@.len(),
            dv == dirs.deep_view(),
            wanted == rel@,
            all == roots.deep_view().map_values(|r: Seq<char>| joined(r, wanted)),
            p == (|d: Seq<char>| dv.contains(d)),
            out.deep_view() == all.take(i as int).filter(p),
        decreases roots@.len() - i,
    {
        let ghost before = out.deep_view();
        let dir = path_join(&roots[i], rel);
        proof {
            assert(all.take(i + 1) =~= all.take(i as int).push(all[i as int]));
            all.take(i as int).lemma_filter_push(all[i as int], p);
            assert(all[i as int] == dir@);
        }
        if text::strings_contain(dirs, &dir) {
            out.push(dir);
            assert(out.deep_view() =~= before.push(all[i as int]));
        }
        i += 1;
    }
    assert(all.take(i as int) =~= all);
    out
}

fn find_subdirs(base: &str, candidates: &[String], dirs: &[String]) -> (r: Vec<String>)
    requires
        candidates.deep_view() == subdirs(),
    ensures
        r.deep_view() == live_subdirs(base@, dirs.deep_view()),
{
    let ghost dv = dirs.deep_view();
    let ghost bv = base@;
    let ghost all = candidates.deep_view();
    let ghost p = |s: Seq<char>| dv.contains(joined(bv, s));
    let mut out: Vec<String> = Vec::new();
    let mut i: usize = 0;
    assert(all.take(0).filter(p) =~= Seq::empty()) by {
        reveal(Seq::filter);
    }
    assert(out.deep_view() =~= all.take(0).filter(p));
    while i < candidates.len()
        invariant
            i <= candidates@.len(),
            dv == dirs.deep_view(),
            bv == base@,
            all == candidates.deep_view(),
            p == (|s: Seq<char>| dv.contains(joined(bv, s))),
            out.deep_view() == all.take(i as int).filter(p),
        decreases candidates@.len() - i,
    {
        let ghost before = out.deep_view();
        proof {
            assert(all.take(i + 1) =~= all.take(i as int).push(all[i as int]));
            all.take(i as int).lemma_filter_push(all[i as int], p);
        }
        if text::strings_contain(dirs, &path_join(base, &candidates[i])) {
            out.push(candidates[i].clone());
            assert(out.deep_view() =~= before.push(all[i as int]));
        }
        i += 1;
    }
    assert(all.take(i as int) =~= all);
    out
}

fn find_theme(
    out: &mut Vec<ThemeDirs>,
    roots: &[String],
    theme: &str,
    candidates: &[String],
    dirs: &[String],
)
    requires
        candidates.deep_view() == subdirs(),
    ensures
        final(out).deep_view() == old(out).deep_view() + live_in(
            roots.deep_view(),
            theme@,
            dirs.deep_view(),
        ),
{
    let ghost rv = roots.deep_view();
    let ghost dv = dirs.deep_view();
    let ghost before = out.deep_view();
    let mut i: usize = 0;
    assert(before + live_in(rv.take(0), theme@, dv) =~= before);
    while i < roots.len()
        invariant
            i <= roots@.len(),
            rv == roots.deep_view(),
            dv == dirs.deep_view(),
            candidates.deep_view() == subdirs(),
            out.deep_view() == before + live_in(rv.take(i as int), theme@, dv),
        decreases roots@.len() - i,
    {
        let ghost now = out.deep_view();
        assert(rv.take(i + 1).drop_last() =~= rv.take(i as int));
        assert(rv.take(i + 1).last() == roots@[i as int]@);
        let base = path_join(&path_join(&roots[i], "icons"), theme);
        if text::strings_contain(dirs, &base) {
            let found = find_subdirs(&base, candidates, dirs);
            if found.len() > 0 {
                let dirs_of_theme = ThemeDirs { base, subdirs: found };
                out.push(dirs_of_theme);
                assert(out.deep_view() =~= now.push(dirs_of_theme.deep_view()));
                assert(out.deep_view() =~= before + live_in(rv.take(i + 1), theme@, dv));
            }
        }
        i += 1;
    }
    assert(rv.take(i as int) =~= rv);
}

impl IconResolver {
    /// A resolver for the chosen theme and what it inherits from.
    pub fn new(
        search_roots: &[String],
        indexes: &[ThemeIndex],
        primary: Option<&str>,
        dirs: &[String],
    ) -> (r: Self)
        ensures
            r.deep_view() == resolver(
                search_roots.deep_view(),
                theme_chain(
                    indexes@,
                    match primary {
                        Some(p) => Some(p@),
                        None => None,
                    },
                ),
                dirs.deep_view(),
            ),
    {
        let chain = build_theme_chain(indexes, primary);
        IconResolver::from_parts(search_roots, &chain, dirs)
    }

    /// A resolver for some roots and a chain of themes. `dirs` are the
    /// directories that exist; see [`directories_to_test`].
    pub fn from_parts(search_roots: &[String], theme_chain: &[String], dirs: &[String]) -> (r: Self)
        ensures
            r.deep_view() == resolver(
                search_roots.deep_view(),
                theme_chain.deep_view(),
                dirs.deep_view(),
            ),
    {
        let pixmaps_dirs = find_below(search_roots, "pixmaps", dirs);
        let loose_icon_roots = find_below(search_roots, "icons", dirs);
        let candidates = candidate_subdirs();
        let chain = full_chain(theme_chain);
        let ghost cv = chain.deep_view();
        let ghost rv = search_roots.deep_view();
        let ghost dv = dirs.deep_view();
        let ghost parts = cv.map_values(|theme: Seq<char>| live_in(rv, theme, dv));
        let mut theme_cache: Vec<ThemeDirs> = Vec::new();
        let mut i: usize = 0;
        assert(parts.take(0).flatten() =~= Seq::empty());
        assert(theme_cache.deep_view() =~= parts.take(0).flatten());
        while i < chain.len()
            invariant
                i <= chain@.len(),
                cv == chain.deep_view(),
                rv == search_roots.deep_view(),
                dv == dirs.deep_view(),
                parts == cv.map_values(|theme: Seq<char>| live_in(rv, theme, dv)),
                candidates.deep_view() == subdirs(),
                theme_cache.deep_view() == parts.take(i as int).flatten(),
            decreases chain@.len() - i,
        {
            proof {
                assert(parts.take(i + 1) =~= parts.take(i as int).push(parts[i as int]));
                lemma_flatten_push(parts.take(i as int), parts[i as int]);
                assert(cv[i as int] == chain@[i as int]@);
            }
            find_theme(&mut theme_cache, search_roots, &chain[i], &candidates, dirs);
            i += 1;
        }
        assert(parts.take(i as int) =~= parts);
        IconResolver { pixmaps_dirs, loose_icon_roots, theme_cache }
    }
}

fn full_chain(chain: &[String]) -> (r: Vec<String>)
    ensures
        r.deep_view() == with_hicolor(chain.deep_view()),
{
    let mut out = text::clone_strings(chain);
    if !text::strings_contain(chain, "hicolor") {
        out.push(text::owned("hicolor"));
        assert(out.deep_view() =~= chain.deep_view().push("hicolor"@));
    }
    out
}

// ---------------------------------------------------------------------------
// Directories to test
// ---------------------------------------------------------------------------

/// The directories of one theme below one root that a resolver asks for.
pub open spec fn asked_of_theme(root: Seq<char>, theme: Seq<char>) -> Seq<Seq<char>> {
    seq![theme_base(root, theme)] + subdirs().map_values(
        |s: Seq<char>| joined(theme_base(root, theme), s),
    )
}

/// The directories below one root that a resolver asks for.
pub open spec fn asked_of_root(root: Seq<char>, chain: Seq<Seq<char>>) -> Seq<Seq<char>> {
    seq![joined(root, "pixmaps"@), joined(root, "icons"@)] + chain.map_values(
        |theme: Seq<char>| asked_of_theme(root, theme),
    ).flatten()
}

/// The directories that a resolver asks for.
pub open spec fn asked(roots: Seq<Seq<char>>, chain: Seq<Seq<char>>) -> Seq<Seq<char>> {
    roots.map_values(|r: Seq<char>| asked_of_root(r, with_hicolor(chain))).flatten()
}

fn push_theme_questions(out: &mut Vec<String>, root: &str, theme: &str, candidates: &[String])
    requires
        candidates.deep_view() == subdirs(),
    ensures
        final(out).deep_view() == old(out).deep_view() + asked_of_theme(root@, theme@),
{
    let ghost before = out.deep_view();
    let base = path_join(&path_join(root, "icons"), theme);
    let ghost bv = base@;
    let ghost all = subdirs().map_values(|s: Seq<char>| joined(theme_base(root@, theme@), s));
    out.push(base.clone());
    let mut i: usize = 0;
    assert(out.deep_view() =~= before + seq![bv] + all.take(0));
    while i < candidates.len()
        invariant
            i <= candidates@.len(),
            candidates.deep_view() == subdirs(),
            bv == theme_base(root@, theme@),
            base@ == bv,
            all == subdirs().map_values(|s: Seq<char>| joined(theme_base(root@, theme@), s)),
            out.deep_view() == before + seq![bv] + all.take(i as int),
        decreases candidates@.len() - i,
    {
        let ghost now = out.deep_view();
        proof {
            assert(candidates.deep_view()[i as int] == candidates@[i as int]@);
        }
        out.push(path_join(&base, &candidates[i]));
        assert(out.deep_view() =~= now.push(all[i as int]));
        assert(out.deep_view() =~= before + seq![bv] + all.take(i + 1));
        i += 1;
    }
    assert(all.take(i as int) =~= all) by {
        assert(candidates.deep_view().len() == candidates@.len());
    }
    assert(out.deep_view() =~= before + asked_of_theme(root@, theme@));
}

/// The directories whose existence a resolver depends on.
pub fn directories_to_test(search_roots: &[String], theme_chain: &[String]) -> (r: Vec<String>)
    ensures
        r.deep_view() == asked(search_roots.deep_view(), theme_chain.deep_view()),
{
    let candidates = candidate_subdirs();
    let chain = full_chain(theme_chain);
    let ghost cv = chain.deep_view();
    let ghost rv = search_roots.deep_view();
    let ghost parts = rv.map_values(|r: Seq<char>| asked_of_root(r, cv));
    let mut out: Vec<String> = Vec::new();
    let mut i: usize = 0;
    assert(parts.take(0).flatten() =~= Seq::empty());
    assert(out.deep_view() =~= parts.take(0).flatten());
    while i < search_roots.len()
        invariant
            i <= search_roots@.len(),
            cv == chain.deep_view(),
            rv == search_roots.deep_view(),
            parts == rv.map_values(|r: Seq<char>| asked_of_root(r, cv)),
            candidates.deep_view() == subdirs(),
            out.deep_view() == parts.take(i as int).flatten(),
        decreases search_roots@.len() - i,
    {
        let ghost before = out.deep_view();
        let root = search_roots[i].clone();
        let ghost rt = root@;
        let ghost inner = cv.map_values(|theme: Seq<char>| asked_of_theme(rt, theme));
        let ghost head = seq![joined(rt, "pixmaps"@), joined(rt, "icons"@)];
        out.push(path_join(&root, "pixmaps"));
        out.push(path_join(&root, "icons"));
        let mut k: usize = 0;
        assert(inner.take(0).flatten() =~= Seq::empty());
        assert(out.deep_view() =~= before + head + inner.take(0).flatten());
        while k < chain.len()
            invariant
                k <= chain@.len(),
                cv == chain.deep_view(),
                rt == root@,
                inner == cv.map_values(|theme: Seq<char>| asked_of_theme(rt, theme)),
                candidates.deep_view() == subdirs(),
                out.deep_view() == before + head + inner.take(k as int).flatten(),
            decreases chain@.len() - k,
        {
            proof {
                assert(inner.take(k + 1) =~= inner.take(k as int).push(inner[k as int]));
                lemma_flatten_push(inner.take(k as int), inner[k as int]);
                assert(cv[k as int] == chain@[k as int]@);
                assert(before + head + (inner.take(k as int).flatten() + inner[k as int])
                    =~= before + head + inner.take(k as int).flatten() + inner[k as int]);
            }
            push_theme_questions(&mut out, &root, &chain[k], &candidates);
            k += 1;
        }
        proof {
            assert(inner.take(k as int) =~= inner);
            assert(out.deep_view() =~= before + asked_of_root(rt, cv));
            assert(parts.take(i + 1) =~= parts.take(i as int).push(parts[i as int]));
            lemma_flatten_push(parts.take(i as int), parts[i as int]);
            assert(parts[i as int] == asked_of_root(rt, cv));
        }
        i += 1;
    }
    assert(parts.take(i as int) =~= parts);
    assert(parts =~= rv.map_values(|r: Seq<char>| asked_of_root(r, with_hicolor(theme_chain.deep_view()))));
    out
}

/// Filters that agree on every element keep the same ones.
proof fn lemma_filters_agree<T>(s: Seq<T>, p: spec_fn(T) -> bool, q: spec_fn(T) -> bool)
    requires
        forall|i: int| 0 <= i < s.len() ==> p(#[trigger] s[i]) == q(s[i]),
    ensures
        s.filter(p) == s.filter(q),
    decreases s.len(),
{
    reveal(Seq::filter);
    if s.len() > 0 {
        let t = s.drop_last();
        assert forall|i: int| 0 <= i < t.len() implies p(#[trigger] t[i]) == q(t[i]) by {
            assert(t[i] == s[i]);
        }
        lemma_filters_agree(t, p, q);
    }
}

/// What a part holds, the whole holds.
proof fn lemma_flatten_contains<T>(parts: Seq<Seq<T>>, i: int, k: int)
    requires
        0 <= i < parts.len(),
        0 <= k < parts[i].len(),
    ensures
        parts.flatten().contains(parts[i][k]),
    decreases parts.len(),
{
    let x = parts[i][k];
    let rest = parts.drop_first().flatten();
    if i == 0 {
        assert((parts[0] + rest)[k] == x);
    } else {
        assert(parts.drop_first()[i - 1] == parts[i]);
        lemma_flatten_contains(parts.drop_first(), i - 1, k);
        let m = choose|m: int| 0 <= m < rest.len() && rest[m] == x;
        assert((parts[0] + rest)[parts[0].len() + m] == x);
    }
    assert(parts.flatten() == parts[0] + rest);
}

/// A resolver depends on nothing but the directories that it asks for: where two
/// file systems agree on those, it is the same in both.
pub proof fn law_only_tested_directories_matter(
    roots: Seq<Seq<char>>,
    chain: Seq<Seq<char>>,
    a: Seq<Seq<char>>,
    b: Seq<Seq<char>>,
)
    requires
        forall|k: int|
            0 <= k < asked(roots, chain).len() ==> (a.contains(#[trigger] asked(roots, chain)[k])
                <==> b.contains(asked(roots, chain)[k])),
    ensures
        resolver(roots, chain, a) == resolver(roots, chain, b),
{
    let full = with_hicolor(chain);
    let all = asked(roots, chain);
    let parts = roots.map_values(|r: Seq<char>| asked_of_root(r, full));
    assert forall|x: Seq<char>| #[trigger] all.contains(x) implies a.contains(x) == b.contains(
        x,
    ) by {
        let k = choose|k: int| 0 <= k < all.len() && all[k] == x;
        assert(a.contains(all[k]) <==> b.contains(all[k]));
    }
    assert forall|i: int, k: int|
        0 <= i < roots.len() && 0 <= k < asked_of_root(
            roots[i],
            full,
        ).len() implies all.contains(#[trigger] asked_of_root(#[trigger] roots[i], full)[k]) by {
        assert(parts[i] == asked_of_root(roots[i], full));
        lemma_flatten_contains(parts, i, k);
    }
    lemma_below_agrees(roots, "pixmaps"@, a, b, all, |i: int| 0int, full);
    lemma_below_agrees(roots, "icons"@, a, b, all, |i: int| 1int, full);
    assert forall|t: int| 0 <= t < full.len() implies #[trigger] live_in(roots, full[t], a)
        == live_in(roots, full[t], b) by {
        lemma_live_agrees(roots, full, t, a, b, all);
    }
    assert(full.map_values(|theme: Seq<char>| live_in(roots, theme, a)) =~= full.map_values(
        |theme: Seq<char>| live_in(roots, theme, b),
    ));
}

proof fn lemma_below_agrees(
    roots: Seq<Seq<char>>,
    rel: Seq<char>,
    a: Seq<Seq<char>>,
    b: Seq<Seq<char>>,
    all: Seq<Seq<char>>,
    place: spec_fn(int) -> int,
    full: Seq<Seq<char>>,
)
    requires
        forall|x: Seq<char>| #[trigger] all.contains(x) ==> a.contains(x) == b.contains(x),
        forall|i: int, k: int|
            0 <= i < roots.len() && 0 <= k < asked_of_root(roots[i], full).len() ==> all.contains(
                #[trigger] asked_of_root(#[trigger] roots[i], full)[k],
            ),
        forall|i: int|
            0 <= i < roots.len() ==> 0 <= #[trigger] place(i) < asked_of_root(roots[i], full).len()
                && asked_of_root(roots[i], full)[place(i)] == joined(roots[i], rel),
    ensures
        below(roots, rel, a) == below(roots, rel, b),
{
    let s = roots.map_values(|r: Seq<char>| joined(r, rel));
    let p = |d: Seq<char>| a.contains(d);
    let q = |d: Seq<char>| b.contains(d);
    assert forall|i: int| 0 <= i < s.len() implies p(#[trigger] s[i]) == q(s[i]) by {
        assert(all.contains(asked_of_root(roots[i], full)[place(i)]));
    }
    lemma_filters_agree(s, p, q);
}

proof fn lemma_live_agrees(
    roots: Seq<Seq<char>>,
    full: Seq<Seq<char>>,
    t: int,
    a: Seq<Seq<char>>,
    b: Seq<Seq<char>>,
    all: Seq<Seq<char>>,
)
    requires
        0 <= t < full.len(),
        forall|x: Seq<char>| #[trigger] all.contains(x) ==> a.contains(x) == b.contains(x),
        forall|i: int, k: int|
            0 <= i < roots.len() && 0 <= k < asked_of_root(roots[i], full).len() ==> all.contains(
                #[trigger] asked_of_root(#[trigger] roots[i], full)[k],
            ),
    ensures
        live_in(roots, full[t], a) == live_in(roots, full[t], b),
    decreases roots.len(),
{
    if roots.len() > 0 {
        let theme = full[t];
        let shorter = roots.drop_last();
        assert forall|i: int, k: int|
            0 <= i < shorter.len() && 0 <= k < asked_of_root(
                shorter[i],
                full,
            ).len() implies all.contains(
            #[trigger] asked_of_root(#[trigger] shorter[i], full)[k],
        ) by {
            assert(shorter[i] == roots[i]);
        }
        lemma_live_agrees(shorter, full, t, a, b, all);
        let last = roots.len() - 1;
        let root = roots[last];
        let inner = full.map_values(|th: Seq<char>| asked_of_theme(root, th));
        let whole = asked_of_root(root, full);
        assert forall|k: int| 0 <= k < asked_of_theme(root, theme).len() implies all.contains(
            #[trigger] asked_of_theme(root, theme)[k],
        ) by {
            let x = asked_of_theme(root, theme)[k];
            assert(inner[t] == asked_of_theme(root, theme));
            lemma_flatten_contains(inner, t, k);
            let m = choose|m: int| 0 <= m < inner.flatten().len() && inner.flatten()[m] == x;
            assert(whole[2 + m] == x);
            assert(all.contains(asked_of_root(roots[last], full)[2 + m]));
        }
        let base = theme_base(root, theme);
        assert(asked_of_theme(root, theme)[0] == base);
        assert(a.contains(base) == b.contains(base));
        let p = |s: Seq<char>| a.contains(joined(base, s));
        let q = |s: Seq<char>| b.contains(joined(base, s));
        let subs = subdirs();
        assert forall|i: int| 0 <= i < subs.len() implies p(#[trigger] subs[i]) == q(subs[i]) by {
            assert(asked_of_theme(root, theme)[1 + i] == joined(base, subs[i]));
        }
        lemma_filters_agree(subs, p, q);
        assert(live_theme(root, theme, a) == live_theme(root, theme, b));
    }
}

// ---------------------------------------------------------------------------
// Looking an icon up
// ---------------------------------------------------------------------------

/// The file of an icon in a directory.
pub open spec fn icon_file(dir: Seq<char>, bare: Seq<char>, ext: Seq<char>) -> Seq<char> {
    joined(dir, bare + "."@ + ext)
}

/// The files of an icon in a directory, for some extensions.
pub open spec fn files_in(dir: Seq<char>, bare: Seq<char>, exts: Seq<Seq<char>>) -> Seq<Seq<char>> {
    exts.map_values(|e: Seq<char>| icon_file(dir, bare, e))
}

/// The files of an icon in a theme.
pub open spec fn files_in_theme(t: ThemeDirsView, bare: Seq<char>) -> Seq<Seq<char>> {
    t.subdirs.map_values(|s: Seq<char>| files_in(joined(t.base, s), bare, exts_of(s))).flatten()
}

/// The files that a name may stand for, in the order in which they are tried.
pub open spec fn files_of_name(v: ResolverView, name: Seq<char>) -> Seq<Seq<char>> {
    let bare = bare_name(name);
    v.pixmaps_dirs.map_values(|d: Seq<char>| files_in(d, bare, icon_exts())).flatten()
        + v.loose_icon_roots.map_values(|d: Seq<char>| files_in(d, bare, icon_exts())).flatten()
        + v.theme_cache.map_values(|t: ThemeDirsView| files_in_theme(t, bare)).flatten()
}

/// The files that an icon may stand for, in the order in which they are tried:
/// an absolute path for itself alone, a name for those of each of its fallbacks.
pub open spec fn files_of_icon(v: ResolverView, icon: Seq<char>) -> Seq<Seq<char>> {
    if icon.len() == 0 {
        Seq::empty()
    } else if icon[0] == '/' {
        seq![icon]
    } else {
        fallbacks(icon).map_values(|n: Seq<char>| files_of_name(v, n)).flatten()
    }
}

/// The first of some paths that exists.
pub open spec fn first_existing(paths: Seq<Seq<char>>, files: Seq<Seq<char>>) -> Option<Seq<char>> {
    match first_where(paths, |p: Seq<char>| files.contains(p)) {
        Some(i) => Some(paths[i]),
        None => None,
    }
}

fn push_files(out: &mut Vec<String>, dir: &str, bare: &str, exts: &[&'static str])
    ensures
        final(out).deep_view() == old(out).deep_view() + files_in(dir@, bare@, texts(exts@)),
{
    let ghost before = out.deep_view();
    let ghost all = files_in(dir@, bare@, texts(exts@));
    let mut i: usize = 0;
    assert(before + all.take(0) =~= before);
    while i < exts.len()
        invariant
            i <= exts@.len(),
            all == files_in(dir@, bare@, texts(exts@)),
            out.deep_view() == before + all.take(i as int),
        decreases exts@.len() - i,
    {
        let ghost now = out.deep_view();
        proof {
            assert(texts(exts@)[i as int] == exts@[i as int]@);
        }
        let file = text::concat3(bare, ".", exts[i]);
        out.push(path_join(dir, &file));
        assert(out.deep_view() =~= now.push(all[i as int]));
        assert(out.deep_view() =~= before + all.take(i + 1));
        i += 1;
    }
    assert(all.take(i as int) =~= all) by {
        assert(texts(exts@).len() == exts@.len());
    }
}

fn push_files_below(out: &mut Vec<String>, dirs: &[String], bare: &str)
    ensures
        final(out).deep_view() == old(out).deep_view() + dirs.deep_view().map_values(
            |d: Seq<char>| files_in(d, bare@, icon_exts()),
        ).flatten(),
{
    let ghost before = out.deep_view();
    let ghost dv = dirs.deep_view();
    let ghost bv = bare@;
    let ghost parts = dv.map_values(|d: Seq<char>| files_in(d, bv, icon_exts()));
    let exts: Vec<&'static str> = vec!["svg", "png", "xpm"];
    assert(texts(exts@) =~= icon_exts());
    let mut i: usize = 0;
    assert(parts.take(0).flatten() =~= Seq::empty());
    assert(before + parts.take(0).flatten() =~= before);
    while i < dirs.len()
        invariant
            i <= dirs@.len(),
            dv == dirs.deep_view(),
            bv == bare@,
            parts == dv.map_values(|d: Seq<char>| files_in(d, bv, icon_exts())),
            texts(exts@) == icon_exts(),
            out.deep_view() == before + parts.take(i as int).flatten(),
        decreases dirs@.len() - i,
    {
        proof {
            assert(parts.take(i + 1) =~= parts.take(i as int).push(parts[i as int]));
            lemma_flatten_push(parts.take(i as int), parts[i as int]);
            assert(dv[i as int] == dirs@[i as int]@);
            assert(before + (parts.take(i as int).flatten() + parts[i as int]) =~= before
                + parts.take(i as int).flatten() + parts[i as int]);
        }
        push_files(out, &dirs[i], bare, &exts);
        i += 1;
    }
    assert(parts.take(i as int) =~= parts);
}

fn push_files_of_theme(out: &mut Vec<String>, t: &ThemeDirs, bare: &str)
    ensures
        final(out).deep_view() == old(out).deep_view() + files_in_theme(t.deep_view(), bare@),
{
    let ghost before = out.deep_view();
    let ghost tv = t.deep_view();
    let ghost bv = bare@;
    let ghost parts = tv.subdirs.map_values(
        |s: Seq<char>| files_in(joined(tv.base, s), bv, exts_of(s)),
    );
    let mut i: usize = 0;
    assert(parts.take(0).flatten() =~= Seq::empty());
    assert(before + parts.take(0).flatten() =~= before);
    while i < t.subdirs.len()
        invariant
            i <= t.subdirs@.len(),
            tv == t.deep_view(),
            bv == bare@,
            parts == tv.subdirs.map_values(
                |s: Seq<char>| files_in(joined(tv.base, s), bv, exts_of(s)),
            ),
            out.deep_view() == before + parts.take(i as int).flatten(),
        decreases t.subdirs@.len() - i,
    {
        proof {
            assert(parts.take(i + 1) =~= parts.take(i as int).push(parts[i as int]));
            lemma_flatten_push(parts.take(i as int), parts[i as int]);
            assert(tv.subdirs[i as int] == t.subdirs@[i as int]@);
            assert(before + (parts.take(i as int).flatten() + parts[i as int]) =~= before
                + parts.take(i as int).flatten() + parts[i as int]);
        }
        let dir = path_join(&t.base, &t.subdirs[i]);
        let exts = extensions_for_subdir(&t.subdirs[i]);
        push_files(out, &dir, bare, &exts);
        i += 1;
    }
    assert(parts.take(i as int) =~= parts);
}

impl IconResolver {
    fn push_files_of_name(&self, out: &mut Vec<String>, name: &str)
        ensures
            final(out).deep_view() == old(out).deep_view() + files_of_name(self.deep_view(), name@),
    {
        let ghost before = out.deep_view();
        let ghost v = self.deep_view();
        let bare = strip_known_extension(name);
        let ghost bv = bare@;
        push_files_below(out, &self.pixmaps_dirs, &bare);
        push_files_below(out, &self.loose_icon_roots, &bare);
        let ghost start = out.deep_view();
        let ghost parts = v.theme_cache.map_values(|t: ThemeDirsView| files_in_theme(t, bv));
        let mut i: usize = 0;
        assert(parts.take(0).flatten() =~= Seq::empty());
        assert(start + parts.take(0).flatten() =~= start);
        while i < self.theme_cache.len()
            invariant
                i <= self.theme_cache@.len(),
                v == self.deep_view(),
                bv == bare@,
                parts == v.theme_cache.map_values(|t: ThemeDirsView| files_in_theme(t, bv)),
                out.deep_view() == start + parts.take(i as int).flatten(),
            decreases self.theme_cache@.len() - i,
        {
            proof {
                assert(parts.take(i + 1) =~= parts.take(i as int).push(parts[i as int]));
                lemma_flatten_push(parts.take(i as int), parts[i as int]);
                assert(v.theme_cache[i as int] == self.theme_cache@[i as int].deep_view());
                assert(start + (parts.take(i as int).flatten() + parts[i as int]) =~= start
                    + parts.take(i as int).flatten() + parts[i as int]);
            }
            push_files_of_theme(out, &self.theme_cache[i], &bare);
            i += 1;
        }
        assert(parts.take(i as int) =~= parts);
        assert(out.deep_view() =~= before + files_of_name(v, name@));
    }

    /// The files that an icon may stand for, in the order in which they are
    /// tried.
    pub fn lookup_paths(&self, icon_name: &str) -> (r: Vec<String>)
        ensures
            r.deep_view() == files_of_icon(self.deep_view(), icon_name@),
    {
        let mut out: Vec<String> = Vec::new();
        assert(out.deep_view() =~= Seq::empty());
        let cs = text::chars(icon_name);
        if cs.len() == 0 {
            return out;
        }
        if cs[0] == '/' {
            out.push(text::owned(icon_name));
            assert(out.deep_view() =~= seq![icon_name@]);
            return out;
        }
        let names = icon_name_fallbacks(icon_name);
        let ghost v = self.deep_view();
        let ghost nv = names.deep_view();
        let ghost parts = nv.map_values(|n: Seq<char>| files_of_name(v, n));
        let mut i: usize = 0;
        assert(parts.take(0).flatten() =~= Seq::empty());
        assert(out.deep_view() =~= parts.take(0).flatten());
        while i < names.len()
            invariant
                i <= names@.len(),
                v == self.deep_view(),
                nv == names.deep_view(),
                parts == nv.map_values(|n: Seq<char>| files_of_name(v, n)),
                out.deep_view() == parts.take(i as int).flatten(),
            decreases names@.len() - i,
        {
            proof {
                assert(parts.take(i + 1) =~= parts.take(i as int).push(parts[i as int]));
                lemma_flatten_push(parts.take(i as int), parts[i as int]);
                assert(nv[i as int] == names@[i as int]@);
            }
            self.push_files_of_name(&mut out, &names[i]);
            i += 1;
        }
        assert(parts.take(i as int) =~= parts);
        out
    }

    /// The image of an icon: the first of its files that exists. `files` are the
    /// files that exist, of those that [`IconResolver::lookup_paths`] names.
    pub fn resolve(&self, icon_name: &str, files: &[String]) -> (r: Option<String>)
        ensures
            r.deep_view() == first_existing(
                files_of_icon(self.deep_view(), icon_name@),
                files.deep_view(),
            ),
    {
        let paths = self.lookup_paths(icon_name);
        let ghost pv = paths.deep_view();
        let ghost fv = files.deep_view();
        let ghost p = |x: Seq<char>| fv.contains(x);
        let mut i: usize = 0;
        while i < paths.len()
            invariant
                i <= paths@.len(),
                pv == paths.deep_view(),
                pv == files_of_icon(self.deep_view(), icon_name@),
                fv == files.deep_view(),
                p == (|x: Seq<char>| fv.contains(x)),
                forall|k: int| 0 <= k < i ==> !p(#[trigger] pv[k]),
            decreases paths@.len() - i,
        {
            if text::strings_contain(files, &paths[i]) {
                proof {
                    assert(p(pv[i as int]));
                    lemma_first_where_is(pv, p, i as int);
                }
                return Some(paths[i].clone());
            }
            assert(!p(pv[i as int]));
            i += 1;
        }
        proof {
            lemma_first_where_none(pv, p);
        }
        None
    }
}

/// The first of some paths that is there is taken; where none is, there is no icon.
pub proof fn law_the_first_icon_that_is_there(paths: Seq<Seq<char>>, files: Seq<Seq<char>>)
    ensures
        first_existing(paths, files) is None <==> forall|i: int|
            0 <= i < paths.len() ==> !files.contains(#[trigger] paths[i]),
        first_existing(paths, files) matches Some(p) ==> exists|i: int|
            0 <= i < paths.len() && #[trigger] paths[i] == p && files.contains(p) && forall|j: int|
                0 <= j < i ==> !files.contains(#[trigger] paths[j]),
{
    let f = |p: Seq<char>| files.contains(p);
    crate::seqs::lemma_first_where(paths, f);
    match first_where(paths, f) {
        Some(i) => {
            assert(f(paths[i]));
            assert forall|j: int| 0 <= j < i implies !files.contains(#[trigger] paths[j]) by {
                assert(!f(paths[j]));
            }
        },
        None => {
            assert forall|j: int| 0 <= j < paths.len() implies !files.contains(
                #[trigger] paths[j],
            ) by {
                assert(!f(paths[j]));
            }
        },
    }
}

/// An absolute path is the icon itself; a name is looked for by each of its forms, and each
/// of these in the directories of pictures, then beside the themes, and then in the themes,
/// in their order.
pub proof fn law_where_icons_are_looked_for(v: ResolverView, icon: Seq<char>)
    ensures
        icon.len() == 0 ==> files_of_icon(v, icon).len() == 0,
        icon.len() > 0 && icon[0] == '/' ==> files_of_icon(v, icon) == seq![icon],
        icon.len() > 0 && icon[0] != '/' ==> files_of_icon(v, icon) == fallbacks(icon).map_values(
            |n: Seq<char>| files_of_name(v, n),
        ).flatten(),
        files_of_name(v, icon) == v.pixmaps_dirs.map_values(
            |d: Seq<char>| files_in(d, bare_name(icon), seq!["svg"@, "png"@, "xpm"@]),
        ).flatten() + v.loose_icon_roots.map_values(
            |d: Seq<char>| files_in(d, bare_name(icon), seq!["svg"@, "png"@, "xpm"@]),
        ).flatten() + v.theme_cache.map_values(
            |t: ThemeDirsView| files_in_theme(t, bare_name(icon)),
        ).flatten(),
{
    let a = |d: Seq<char>| files_in(d, bare_name(icon), seq!["svg"@, "png"@, "xpm"@]);
    let b = |d: Seq<char>| files_in(d, bare_name(icon), icon_exts());
    assert(v.pixmaps_dirs.map_values(a) =~= v.pixmaps_dirs.map_values(b));
    assert(v.loose_icon_roots.map_values(a) =~= v.loose_icon_roots.map_values(b));
}

/// A file of an icon is its name and an extension below a directory.
pub proof fn law_files_of_icons(dir: Seq<char>, bare: Seq<char>, exts: Seq<Seq<char>>, i: int)
    requires
        0 <= i < exts.len(),
    ensures
        files_in(dir, bare, exts).len() == exts.len(),
        files_in(dir, bare, exts)[i] == joined(dir, bare + "."@ + exts[i]),
{
}

/// The directories that are known are those that are there: the pictures and the icons below
/// each root, and of each theme in the chain, with `hicolor` at its end where it is not in it,
/// the directories below each root in turn.
pub proof fn law_known_directories_are_there(
    roots: Seq<Seq<char>>,
    chain: Seq<Seq<char>>,
    dirs: Seq<Seq<char>>,
    d: Seq<char>,
)
    ensures
        resolver(roots, chain, dirs).pixmaps_dirs.contains(d) <==> dirs.contains(d) && exists|i: int|
            0 <= i < roots.len() && d == joined(#[trigger] roots[i], "pixmaps"@),
        resolver(roots, chain, dirs).loose_icon_roots.contains(d) <==> dirs.contains(d) && exists|i: int|
            0 <= i < roots.len() && d == joined(#[trigger] roots[i], "icons"@),
        chain.contains("hicolor"@) ==> with_hicolor(chain) == chain,
        !chain.contains("hicolor"@) ==> with_hicolor(chain) == chain.push("hicolor"@),
{
    lemma_below(roots, "pixmaps"@, dirs, d);
    lemma_below(roots, "icons"@, dirs, d);
}

proof fn lemma_below(roots: Seq<Seq<char>>, rel: Seq<char>, dirs: Seq<Seq<char>>, d: Seq<char>)
    ensures
        below(roots, rel, dirs).contains(d) <==> dirs.contains(d) && exists|i: int|
            0 <= i < roots.len() && d == joined(#[trigger] roots[i], rel),
{
    let all = roots.map_values(|r: Seq<char>| joined(r, rel));
    let f = |x: Seq<char>| dirs.contains(x);
    if below(roots, rel, dirs).contains(d) {
        let k = choose|k: int| 0 <= k < all.filter(f).len() && all.filter(f)[k] == d;
        all.lemma_filter_pred(f, k);
        all.lemma_filter_contains_rev(f, d);
        let i = choose|i: int| 0 <= i < all.len() && all[i] == d;
        assert(d == joined(roots[i], rel));
    }
    if dirs.contains(d) && exists|i: int| 0 <= i < roots.len() && d == joined(#[trigger] roots[i], rel) {
        let i = choose|i: int| 0 <= i < roots.len() && d == joined(#[trigger] roots[i], rel);
        assert(all[i] == d);
        all.lemma_filter_contains(f, i);
    }
}

/// A theme is known below a root where its directory is there and one of those that are
/// looked at in it is; these are kept in their order.
pub proof fn law_live_themes(root: Seq<char>, theme: Seq<char>, dirs: Seq<Seq<char>>)
    ensures
        ({
            let base = joined(joined(root, "icons"@), theme);
            let live = subdirs().filter(|s: Seq<char>| dirs.contains(joined(base, s)));
            live_theme(root, theme, dirs) == (if dirs.contains(base) && live.len() > 0 {
                Some(ThemeDirsView { base, subdirs: live })
            } else {
                None
            })
        }),
{
}

/// The directories of a theme come in the order of the roots that it is known below.
pub proof fn law_themes_come_in_the_order_of_the_roots(
    roots: Seq<Seq<char>>,
    root: Seq<char>,
    theme: Seq<char>,
    dirs: Seq<Seq<char>>,
)
    ensures
        live_in(Seq::empty(), theme, dirs).len() == 0,
        live_theme(root, theme, dirs) is Some ==> live_in(roots.push(root), theme, dirs) == live_in(
            roots,
            theme,
            dirs,
        ).push(live_theme(root, theme, dirs)->0),
        live_theme(root, theme, dirs) is None ==> live_in(roots.push(root), theme, dirs) == live_in(
            roots,
            theme,
            dirs,
        ),
{
    assert(roots.push(root).drop_last() =~= roots);
}

} // verus!
