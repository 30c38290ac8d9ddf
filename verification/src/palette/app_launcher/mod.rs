//! Launching applications.
//!
//! The provider holds the desktop entries that were found and the times of the
//! last launches. An entry that matches a query is rated by how well it matches
//! and by how long ago it was launched. The rating is arithmetic on doubles and
//! comes in as a function; which entries match, and how, is decided here.

pub mod entry;
pub mod history;
pub mod icons;
pub mod ini;
pub mod readback;
pub mod resolver;
pub mod themes;

use vstd::prelude::*;
use vstd::utf8::encode_utf8;

use self::entry::{command_words, DesktopEntry, EntryView};
use self::history::{age, age_seconds, LaunchHistory};
use self::resolver::{files_of_icon, first_existing, IconResolver, ResolverView};
use super::provider::{
    at_most, truncated, ItemView, PaletteItem, ProviderError, ProviderResult,
};
use super::score::{clamped, less, rank};
use crate::order::{
    is_sorted, lemma_lex_total, lemma_lex_trans, lemma_sort, lex_le, lex_lt, sort, sort_by, str_lt,
    total_order,
};
use crate::paths::{joined, path_join};
use crate::seqs::{first_where, lemma_first_where, lemma_first_where_is, lemma_first_where_none};
use crate::text;
use crate::text::{ascii_lower, has, starts_with};

verus! {

/// The name of the provider.
pub const APP_LAUNCHER_PROVIDER: &'static str = "app-launcher";

/// How many applications are shown at most.
pub const MAX_APPS: usize = 256;

// ---------------------------------------------------------------------------
// Directories
// ---------------------------------------------------------------------------

/// The data directories of the user and of the system, in the order in which
/// they are searched.
pub open spec fn data_roots(
    data_home: Option<Seq<char>>,
    home: Option<Seq<char>>,
    data_dirs: Option<Seq<Seq<char>>>,
) -> Seq<Seq<char>> {
    let own = match (data_home, home) {
        (Some(d), _) => seq![d],
        (None, Some(h)) => seq![joined(h, ".local/share"@)],
        (None, None) => Seq::empty(),
    };
    own + match data_dirs {
        Some(dirs) => dirs,
        None => seq!["/usr/local/share"@, "/usr/share"@],
    }
}

/// The directories to look for icon themes and pixmaps below: those of the user
/// first, then those of the system.
pub fn default_icon_search_roots(
    data_home: &Option<String>,
    home: &Option<String>,
    data_dirs: &Option<Vec<String>>,
) -> (r: Vec<String>)
    ensures
        r.deep_view() == data_roots(
            data_home.deep_view(),
            home.deep_view(),
            data_dirs.deep_view(),
        ),
{
    let mut roots: Vec<String> = Vec::new();
    match (data_home, home) {
        (Some(d), _) => {
            roots.push(text::owned(d));
        },
        (None, Some(h)) => {
            roots.push(path_join(h, ".local/share"));
        },
        (None, None) => {},
    }
    let ghost own = roots.deep_view();
    match data_dirs {
        Some(dirs) => {
            let mut more = text::clone_strings(dirs);
            roots.append(&mut more);
            assert(roots.deep_view() =~= own + dirs.deep_view());
        },
        None => {
            roots.push(text::owned("/usr/local/share"));
            roots.push(text::owned("/usr/share"));
        },
    }
    assert(roots.deep_view() =~= data_roots(
        data_home.deep_view(),
        home.deep_view(),
        data_dirs.deep_view(),
    ));
    roots
}

/// The directories to look for desktop entries in.
pub open spec fn app_dirs(
    data_home: Option<Seq<char>>,
    home: Option<Seq<char>>,
    data_dirs: Option<Seq<Seq<char>>>,
) -> Seq<Seq<char>> {
    let own = match (data_home, home) {
        (Some(d), _) => seq![joined(d, "applications"@)],
        (None, Some(h)) => seq![joined(h, ".local/share/applications"@)],
        (None, None) => Seq::empty(),
    };
    own + match data_dirs {
        Some(dirs) => dirs.map_values(|d: Seq<char>| joined(d, "applications"@)),
        None => seq!["/usr/local/share/applications"@, "/usr/share/applications"@],
    }
}

/// The directories to look for desktop entries in: that of the user first, then
/// those of the system.
pub fn default_search_paths(
    data_home: &Option<String>,
    home: &Option<String>,
    data_dirs: &Option<Vec<String>>,
) -> (r: Vec<String>)
    ensures
        r.deep_view() == app_dirs(data_home.deep_view(), home.deep_view(), data_dirs.deep_view()),
{
    let mut out: Vec<String> = Vec::new();
    match (data_home, home) {
        (Some(d), _) => {
            out.push(path_join(d, "applications"));
        },
        (None, Some(h)) => {
            out.push(path_join(h, ".local/share/applications"));
        },
        (None, None) => {},
    }
    let ghost own = out.deep_view();
    match data_dirs {
        Some(dirs) => {
            let ghost all = dirs.deep_view().map_values(
                |d: Seq<char>| joined(d, "applications"@),
            );
            let mut i: usize = 0;
            assert(own + all.take(0) =~= own);
            while i < dirs.len()
                invariant
                    i <= dirs@.len(),
                    all == dirs.deep_view().map_values(
                        |d: Seq<char>| joined(d, "applications"@),
                    ),
                    out.deep_view() == own + all.take(i as int),
                decreases dirs@.len() - i,
            {
                let ghost now = out.deep_view();
                out.push(path_join(&dirs[i], "applications"));
                assert(out.deep_view() =~= now.push(all[i as int]));
                assert(out.deep_view() =~= own + all.take(i + 1));
                i += 1;
            }
            assert(all.take(i as int) =~= all);
        },
        None => {
            out.push(text::owned("/usr/local/share/applications"));
            out.push(text::owned("/usr/share/applications"));
        },
    }
    assert(out.deep_view() =~= app_dirs(
        data_home.deep_view(),
        home.deep_view(),
        data_dirs.deep_view(),
    ));
    out
}

// ---------------------------------------------------------------------------
// Matching
// ---------------------------------------------------------------------------

/// How an entry matches a query.
#[derive(Debug, Clone, Copy, PartialEq, Eq, Structural)]
pub enum AppMatch {
    /// There is no query.
    Neutral,
    /// The query is the name.
    Exact,
    /// The name begins with the query.
    Prefix,
    /// The name holds the query; the lengths of both, in bytes.
    Inside { query_bytes: usize, name_bytes: usize },
    /// The command holds the query.
    Command,
}

/// How an entry matches a query, if it does. The case of ASCII letters does not
/// matter.
pub open spec fn matching(e: EntryView, query: Seq<char>) -> Option<AppMatch> {
    let q = ascii_lower(query);
    let name = ascii_lower(e.name);
    if query.len() == 0 {
        Some(AppMatch::Neutral)
    } else if name == q {
        Some(AppMatch::Exact)
    } else if starts_with(name, q) {
        Some(AppMatch::Prefix)
    } else if has(name, q) {
        Some(
            AppMatch::Inside {
                query_bytes: encode_utf8(q).len() as usize,
                name_bytes: encode_utf8(name).len() as usize,
            },
        )
    } else if has(ascii_lower(e.exec_line), q) {
        Some(AppMatch::Command)
    } else {
        None
    }
}

/// How an entry matches a query, if it does.
pub fn score_entry(entry: &DesktopEntry, query: &str) -> (r: Option<AppMatch>)
    ensures
        r == matching(entry.deep_view(), query@),
{
    let cs = text::chars(query);
    if cs.len() == 0 {
        return Some(AppMatch::Neutral);
    }
    let q = text::lowered(query);
    let name = text::lowered(&entry.name);
    if text::same(&name, &q) {
        return Some(AppMatch::Exact);
    }
    if text::begins(&name, &q) {
        return Some(AppMatch::Prefix);
    }
    if text::contains(&name, &q) {
        return Some(
            AppMatch::Inside {
                query_bytes: q.as_str().len(),
                name_bytes: name.as_str().len(),
            },
        );
    }
    let command = text::lowered(&entry.exec_line);
    if text::contains(&command, &q) {
        return Some(AppMatch::Command);
    }
    None
}

// ---------------------------------------------------------------------------
// Searching
// ---------------------------------------------------------------------------

/// An entry that matches, and how.
pub struct Matched {
    pub entry: EntryView,
    pub how: AppMatch,
}

/// The entries that match a query, in their order.
pub open spec fn matched(entries: Seq<EntryView>, query: Seq<char>) -> Seq<Matched>
    decreases entries.len(),
{
    if entries.len() == 0 {
        Seq::empty()
    } else {
        match matching(entries.last(), query) {
            Some(how) => matched(entries.drop_last(), query).push(
                Matched { entry: entries.last(), how },
            ),
            None => matched(entries.drop_last(), query),
        }
    }
}

/// The seconds since an entry was launched.
pub open spec fn age_of(launches: Map<Seq<char>, i64>, id: Seq<char>, now: i64) -> Option<u64> {
    if launches.dom().contains(id) {
        Some(age(launches[id], now) as u64)
    } else {
        None
    }
}

/// The item of an entry with a given rating.
pub open spec fn app_item(e: EntryView, rating: u64) -> ItemView {
    ItemView {
        id: e.id,
        provider: "app-launcher"@,
        title: e.name,
        subtitle: Some(
            match e.comment {
                Some(c) => c,
                None => e.exec_line,
            },
        ),
        icon: Some("app"@),
        icon_path: e.icon_path,
        score: clamped(rating),
    }
}

/// The items of some matches with their ratings.
pub open spec fn app_items(found: Seq<Matched>, ratings: Seq<u64>) -> Seq<ItemView> {
    Seq::new(found.len(), |i: int| app_item(found[i].entry, ratings[i]))
}

/// Whether `a` is shown before `b` or level with it: by falling score, then by
/// title.
pub open spec fn shown_before(a: ItemView, b: ItemView) -> bool {
    rank(a.score) > rank(b.score) || rank(a.score) == rank(b.score) && lex_le(a.title, b.title)
}

/// What a search shows for some matches with their ratings.
pub open spec fn shown(found: Seq<Matched>, ratings: Seq<u64>) -> Seq<ItemView> {
    at_most(
        sort(app_items(found, ratings), |a: ItemView, b: ItemView| shown_before(a, b)),
        MAX_APPS as int,
    )
}

/// Whether the ratings are ones that a function gives for the matches.
pub open spec fn rated<F: Fn(AppMatch, Option<u64>) -> u64>(
    rate: F,
    found: Seq<Matched>,
    launches: Map<Seq<char>, i64>,
    now: i64,
    ratings: Seq<u64>,
) -> bool {
    &&& ratings.len() == found.len()
    &&& forall|i: int|
        0 <= i < found.len() ==> call_ensures(
            rate,
            (found[i].how, age_of(launches, found[i].entry.id, now)),
            #[trigger] ratings[i],
        )
}

/// The provider of applications.
pub struct AppLauncherProvider {
    pub entries: Vec<DesktopEntry>,
    pub launches: LaunchHistory,
}

/// An entry with the image of its icon.
pub open spec fn with_icon_resolved(
    e: EntryView,
    resolver: ResolverView,
    files: Seq<Seq<char>>,
) -> EntryView {
    match e.icon_name {
        Some(name) => EntryView {
            icon_path: first_existing(files_of_icon(resolver, name), files),
            ..e
        },
        None => e,
    }
}

/// Finds the images of the icons of all entries.
pub fn resolve_icons(entries: Vec<DesktopEntry>, resolver: &IconResolver, files: &[String]) -> (r:
    Vec<DesktopEntry>)
    ensures
        r.deep_view() == entries.deep_view().map_values(
            |e: EntryView| with_icon_resolved(e, resolver.deep_view(), files.deep_view()),
        ),
{
    let ghost ev = entries.deep_view();
    let ghost rv = resolver.deep_view();
    let ghost fv = files.deep_view();
    let ghost all = ev.map_values(|e: EntryView| with_icon_resolved(e, rv, fv));
    let mut rest = entries;
    let mut out: Vec<DesktopEntry> = Vec::new();
    let ghost mut n: int = 0;
    assert(out.deep_view() =~= all.take(0));
    assert(ev.skip(0) =~= ev);
    while rest.len() > 0
        invariant
            0 <= n <= ev.len(),
            rest.deep_view() == ev.skip(n),
            rv == resolver.deep_view(),
            fv == files.deep_view(),
            all == ev.map_values(|e: EntryView| with_icon_resolved(e, rv, fv)),
            out.deep_view() == all.take(n),
        decreases rest@.len(),
    {
        let ghost before = out.deep_view();
        let ghost rest0 = rest.deep_view();
        let mut entry = rest.remove(0);
        proof {
            assert(entry.deep_view() == rest0[0]);
            assert(rest.deep_view() =~= rest0.skip(1));
            assert(rest0.skip(1) =~= ev.skip(n + 1));
            assert(rest0.len() > 0);
        }
        let image = match &entry.icon_name {
            Some(name) => resolver.resolve(name, files),
            None => text::clone_opt(&entry.icon_path),
        };
        entry.icon_path = image;
        out.push(entry);
        proof {
            assert(out.deep_view() =~= before.push(all[n]));
            assert(out.deep_view() =~= all.take(n + 1));
            n = n + 1;
        }
    }
    assert(all.take(n) =~= all);
    out
}

/// The item of an entry.
fn item_of(e: &DesktopEntry, rating: u64) -> (r: PaletteItem)
    ensures
        r.deep_view() == app_item(e.deep_view(), rating),
{
    let item = PaletteItem::new(APP_LAUNCHER_PROVIDER, e.id.clone(), e.name.clone()).with_score(
        rating,
    ).with_icon("app");
    let item = match &e.comment {
        Some(c) => item.with_subtitle(c.clone()),
        None => item.with_subtitle(e.exec_line.clone()),
    };
    match &e.icon_path {
        Some(p) => item.with_icon_path(p.clone()),
        None => item,
    }
}

fn item_shown_before(a: &PaletteItem, b: &PaletteItem) -> (r: bool)
    ensures
        r == shown_before(a.deep_view(), b.deep_view()),
{
    if less(b.score, a.score) {
        return true;
    }
    !less(a.score, b.score) && !str_lt(&b.title, &a.title)
}

impl AppLauncherProvider {
    /// A provider of the given entries, whose icons are looked up.
    pub fn new(
        entries: Vec<DesktopEntry>,
        resolver: &IconResolver,
        files: &[String],
        launches: LaunchHistory,
    ) -> (r: Self)
        ensures
            r.entries.deep_view() == entries.deep_view().map_values(
                |e: EntryView| with_icon_resolved(e, resolver.deep_view(), files.deep_view()),
            ),
            r.launches == launches,
    {
        AppLauncherProvider::from_entries_with_history(
            resolve_icons(entries, resolver, files),
            launches,
        )
    }

    /// A provider of the given entries, none of which was launched.
    pub fn from_entries(entries: Vec<DesktopEntry>) -> (r: Self)
        ensures
            r.entries == entries,
            r.launches.entries@ == Map::<Seq<char>, i64>::empty(),
            r.launches.path@.len() == 0,
    {
        AppLauncherProvider::from_entries_with_history(entries, LaunchHistory::in_memory())
    }

    /// A provider of the given entries with the given history.
    pub fn from_entries_with_history(entries: Vec<DesktopEntry>, launches: LaunchHistory) -> (r:
        Self)
        ensures
            r.entries == entries,
            r.launches == launches,
    {
        AppLauncherProvider { entries, launches }
    }

    /// Takes other entries, whose icons are looked up. The history stays.
    pub fn rescan(&mut self, entries: Vec<DesktopEntry>, resolver: &IconResolver, files: &[String])
        ensures
            final(self).entries.deep_view() == entries.deep_view().map_values(
                |e: EntryView| with_icon_resolved(e, resolver.deep_view(), files.deep_view()),
            ),
            final(self).launches == old(self).launches,
    {
        self.entries = resolve_icons(entries, resolver, files);
    }

    /// The applications that match a query, best first. `rate` gives the score of
    /// a match, as a bit pattern, from how an entry matches and how many seconds
    /// ago it was launched.
    pub fn search<F: Fn(AppMatch, Option<u64>) -> u64>(&self, query: &str, now: i64, rate: F) -> (r:
        Vec<PaletteItem>)
        requires
            forall|how: AppMatch, age: Option<u64>| #[trigger] call_requires(rate, (how, age)),
        ensures
            exists|ratings: Seq<u64>| #[trigger]
                rated(
                    rate,
                    matched(self.entries.deep_view(), query@),
                    self.launches.entries@,
                    now,
                    ratings,
                ) && r.deep_view() == shown(matched(self.entries.deep_view(), query@), ratings),
    {
        let ghost ev = self.entries.deep_view();
        let ghost lv = self.launches.entries@;
        let mut out: Vec<PaletteItem> = Vec::new();
        let ghost mut ratings: Seq<u64> = Seq::empty();
        let mut i: usize = 0;
        assert(out.deep_view() =~= app_items(matched(ev.take(0), query@), ratings));
        while i < self.entries.len()
            invariant
                i <= self.entries@.len(),
                ev == self.entries.deep_view(),
                lv == self.launches.entries@,
                rated(rate, matched(ev.take(i as int), query@), lv, now, ratings),
                out.deep_view() == app_items(matched(ev.take(i as int), query@), ratings),
                forall|how: AppMatch, age: Option<u64>| #[trigger]
                    call_requires(rate, (how, age)),
            decreases self.entries@.len() - i,
        {
            let ghost found = matched(ev.take(i as int), query@);
            let ghost before = out.deep_view();
            proof {
                assert(ev.take(i + 1).drop_last() =~= ev.take(i as int));
                assert(ev.take(i + 1).last() == self.entries@[i as int].deep_view());
            }
            let entry = &self.entries[i];
            if let Some(how) = score_entry(entry, query) {
                let since: Option<u64> = match self.launches.last_launch(&entry.id) {
                    Some(last) => Some(age_seconds(last, now)),
                    None => None,
                };
                let rating = rate(how, since);
                out.push(item_of(entry, rating));
                proof {
                    let more = matched(ev.take(i + 1), query@);
                    let ghost r0 = ratings;
                    ratings = ratings.push(rating);
                    assert(more == found.push(Matched { entry: entry.deep_view(), how }));
                    assert forall|k: int| 0 <= k < more.len() implies call_ensures(
                        rate,
                        (more[k].how, age_of(lv, more[k].entry.id, now)),
                        #[trigger] ratings[k],
                    ) by {
                        if k < found.len() {
                            assert(more[k] == found[k]);
                            assert(ratings[k] == r0[k]);
                        }
                    }
                    assert(out.deep_view() =~= before.push(app_item(entry.deep_view(), rating)));
                    assert(out.deep_view() =~= app_items(more, ratings));
                }
            }
            i += 1;
        }
        assert(ev.take(i as int) =~= ev);
        let ghost key = |x: PaletteItem| x.deep_view();
        let ghost rel = |a: ItemView, b: ItemView| shown_before(a, b);
        assert(out@.map_values(key) =~= out.deep_view());
        let le = |a: &PaletteItem, b: &PaletteItem| -> (o: bool)
            ensures
                o == shown_before(a.deep_view(), b.deep_view()),
        {
            let before = item_shown_before(a, b);
            before
        };
        let sorted = sort_by::<PaletteItem, ItemView, _>(out, le, Ghost(key), Ghost(rel));
        assert(sorted@.map_values(key) =~= sorted.deep_view());
        let r = truncated(sorted, MAX_APPS);
        assert(r.deep_view() == shown(matched(ev, query@), ratings));
        r
    }

    /// The entry of an item, and the command that launches it.
    pub fn launch_command(&self, item_id: &str) -> (r: ProviderResult<(String, Vec<String>)>)
        ensures
            ({
                let ev = self.entries.deep_view();
                match first_where(ev, |e: EntryView| e.id == item_id@) {
                    None => r is Err && r->Err_0 is UnknownItem && (r->Err_0)->UnknownItem_0@
                        == item_id@,
                    Some(i) => {
                        let words = command_words(ev[i].exec_line);
                        if words.len() == 0 {
                            r is Err && r->Err_0 is ExecuteFailed && (
                            r->Err_0)->ExecuteFailed_0@ == "empty Exec line for "@ + item_id@
                        } else {
                            r matches Ok((program, args)) && program@ == words[0]
                                && args.deep_view() == words.skip(1)
                        }
                    },
                }
            }),
    {
        let ghost ev = self.entries.deep_view();
        let ghost wanted = item_id@;
        let ghost p = |e: EntryView| e.id == wanted;
        let mut i: usize = 0;
        while i < self.entries.len()
            invariant
                i <= self.entries@.len(),
                ev == self.entries.deep_view(),
                wanted == item_id@,
                p == (|e: EntryView| e.id == wanted),
                forall|k: int| 0 <= k < i ==> !p(#[trigger] ev[k]),
            decreases self.entries@.len() - i,
        {
            assert(ev[i as int] == self.entries@[i as int].deep_view());
            if text::same(&self.entries[i].id, item_id) {
                proof {
                    assert(p(ev[i as int]));
                    lemma_first_where_is(ev, p, i as int);
                }
                return match self.entries[i].resolved_exec() {
                    Some(command) => Ok(command),
                    None => Err(
                        ProviderError::ExecuteFailed(
                            text::concat2("empty Exec line for ", item_id),
                        ),
                    ),
                };
            }
            assert(!p(ev[i as int]));
            i += 1;
        }
        proof {
            lemma_first_where_none(ev, p);
        }
        Err(ProviderError::UnknownItem(text::owned(item_id)))
    }

    /// What comes of an attempt to launch an item. `spawned` is the message of
    /// the system where the program could not be started. A launch that
    /// succeeded is noted.
    pub fn launched(
        &mut self,
        item_id: &str,
        program: &str,
        spawned: Result<(), String>,
        now: i64,
    ) -> (r: ProviderResult<()>)
        ensures
            final(self).entries == old(self).entries,
            final(self).launches.path == old(self).launches.path,
            final(self).launches.entries@ == (if spawned is Ok {
                old(self).launches.entries@.insert(item_id@, now)
            } else {
                old(self).launches.entries@
            }),
            r is Ok <==> spawned is Ok,
            r is Err ==> r->Err_0 is ExecuteFailed && (r->Err_0)->ExecuteFailed_0@ == "spawn "@
                + program@ + ": "@ + spawned->Err_0@,
    {
        match spawned {
            Ok(_) => {
                self.launches.record(item_id, now);
                Ok(())
            },
            Err(why) => {
                let head = text::concat3("spawn ", program, ": ");
                Err(ProviderError::ExecuteFailed(text::concat2(&head, &why)))
            },
        }
    }
}

// ---------------------------------------------------------------------------
// Laws
// ---------------------------------------------------------------------------

proof fn lemma_shown_order_is_total()
    ensures
        total_order(|a: ItemView, b: ItemView| shown_before(a, b)),
{
    let le = |a: ItemView, b: ItemView| shown_before(a, b);
    assert forall|a: ItemView, b: ItemView| #[trigger] le(a, b) || le(b, a) by {
        lemma_lex_total(a.title, b.title);
    }
    assert forall|a: ItemView, b: ItemView, c: ItemView| #[trigger]
        le(a, b) && #[trigger] le(b, c) implies le(a, c) by {
        if lex_le(a.title, b.title) && lex_le(b.title, c.title) {
            lemma_lex_trans(a.title, b.title, c.title);
        }
    }
}

proof fn lemma_matched(entries: Seq<EntryView>, query: Seq<char>)
    ensures
        forall|k: int|
            0 <= k < matched(entries, query).len() ==> entries.contains(
                (#[trigger] matched(entries, query)[k]).entry,
            ) && matching(matched(entries, query)[k].entry, query) == Some(
                matched(entries, query)[k].how,
            ),
        forall|i: int|
            0 <= i < entries.len() && matching(#[trigger] entries[i], query) is Some ==> exists|
                k: int,
            |
                0 <= k < matched(entries, query).len() && (#[trigger] matched(
                    entries,
                    query,
                )[k]).entry == entries[i],
    decreases entries.len(),
{
    if entries.len() > 0 {
        let t = entries.drop_last();
        lemma_matched(t, query);
        let a = matched(t, query);
        let b = matched(entries, query);
        assert forall|k: int| 0 <= k < b.len() implies entries.contains((#[trigger] b[k]).entry)
            && matching(b[k].entry, query) == Some(b[k].how) by {
            if k < a.len() {
                assert(a[k] == b[k]);
                let m = choose|m: int| 0 <= m < t.len() && t[m] == a[k].entry;
                assert(entries[m] == b[k].entry);
            } else {
                assert(entries[entries.len() - 1] == b[k].entry);
            }
        }
        assert forall|i: int|
            0 <= i < entries.len() && matching(#[trigger] entries[i], query) is Some implies exists|
            k: int,
        |
            0 <= k < b.len() && (#[trigger] b[k]).entry == entries[i] by {
            if i < t.len() {
                assert(t[i] == entries[i]);
                let k = choose|k: int| 0 <= k < a.len() && (#[trigger] a[k]).entry == t[i];
                assert(b[k].entry == entries[i]);
            } else {
                assert(b[b.len() - 1].entry == entries[i]);
            }
        }
    }
}

/// However recently an entry was launched, it is not shown for a query that it
/// does not match; and where the limit is not reached, all that match are shown.
pub proof fn law_only_matching_apps_are_shown(
    entries: Seq<EntryView>,
    query: Seq<char>,
    ratings: Seq<u64>,
)
    requires
        ratings.len() == matched(entries, query).len(),
    ensures
        shown(matched(entries, query), ratings).len() <= MAX_APPS,
        forall|k: int|
            0 <= k < shown(matched(entries, query), ratings).len() ==> exists|i: int|
                0 <= i < entries.len() && matching(#[trigger] entries[i], query) is Some
                    && entries[i].id == (#[trigger] shown(
                    matched(entries, query),
                    ratings,
                )[k]).id && entries[i].name == shown(matched(entries, query), ratings)[k].title,
        matched(entries, query).len() <= MAX_APPS ==> shown(
            matched(entries, query),
            ratings,
        ).to_multiset() == app_items(matched(entries, query), ratings).to_multiset(),
        is_sorted(
            shown(matched(entries, query), ratings),
            |a: ItemView, b: ItemView| shown_before(a, b),
        ),
{
    broadcast use vstd::seq_lib::group_to_multiset_ensures;

    let le = |a: ItemView, b: ItemView| shown_before(a, b);
    let found = matched(entries, query);
    let items = app_items(found, ratings);
    let full = sort(items, le);
    let out = shown(found, ratings);
    lemma_shown_order_is_total();
    lemma_sort(items, le);
    lemma_matched(entries, query);
    assert forall|k: int| 0 <= k < out.len() implies exists|i: int|
        0 <= i < entries.len() && matching(#[trigger] entries[i], query) is Some && entries[i].id
            == (#[trigger] out[k]).id && entries[i].name == out[k].title by {
        assert(out[k] == full[k]);
        assert(full.contains(full[k]));
        assert(full.to_multiset().count(full[k]) > 0);
        assert(items.to_multiset().count(full[k]) > 0);
        assert(items.contains(full[k]));
        let m = choose|m: int| 0 <= m < items.len() && items[m] == full[k];
        assert(items[m] == app_item(found[m].entry, ratings[m]));
        let i = choose|i: int| 0 <= i < entries.len() && entries[i] == found[m].entry;
        assert(matching(entries[i], query) is Some);
    }
}

/// How an application is found: without a query each of them is; else, in any letter case,
/// by its whole name, by the beginning of it, by anything in it, or by its command, the
/// first of these that holds.
pub proof fn law_how_applications_are_found(e: EntryView, query: Seq<char>)
    ensures
        ({
            let q = ascii_lower(query);
            let n = ascii_lower(e.name);
            let c = ascii_lower(e.exec_line);
            let m = matching(e, query);
            let inside = |s: Seq<char>|
                exists|i: int|
                    0 <= i && i + q.len() <= s.len() && #[trigger] s.subrange(i, i + q.len()) == q;
            &&& query.len() == 0 ==> m == Some(AppMatch::Neutral)
            &&& query.len() > 0 && n == q ==> m == Some(AppMatch::Exact)
            &&& query.len() > 0 && n != q && n.len() >= q.len() && n.take(q.len() as int) == q ==> m
                == Some(AppMatch::Prefix)
            &&& query.len() > 0 && inside(n) && (n.len() < q.len() || n.take(q.len() as int) != q)
                ==> m == Some(
                AppMatch::Inside {
                    query_bytes: encode_utf8(q).len() as usize,
                    name_bytes: encode_utf8(n).len() as usize,
                },
            )
            &&& query.len() > 0 && !inside(n) && inside(c) ==> m == Some(AppMatch::Command)
            &&& query.len() > 0 && !inside(n) && !inside(c) ==> m is None
        }),
{
    let q = ascii_lower(query);
    let n = ascii_lower(e.name);
    let c = ascii_lower(e.exec_line);
    lemma_has(n, q);
    lemma_has(c, q);
    assert(n.subrange(0, n.len() as int) =~= n);
    if n.len() >= q.len() {
        assert(n.subrange(0, q.len() as int) =~= n.take(q.len() as int));
    }
}

proof fn lemma_has(s: Seq<char>, q: Seq<char>)
    ensures
        has(s, q) <==> exists|i: int|
            0 <= i && i + q.len() <= s.len() && #[trigger] s.subrange(i, i + q.len()) == q,
{
    if has(s, q) {
        let i = choose|i: int| crate::text::occurs_at(s, q, i);
        assert(s.subrange(i, i + q.len()) == q);
    }
    if exists|i: int|
        0 <= i && i + q.len() <= s.len() && #[trigger] s.subrange(i, i + q.len()) == q {
        let i = choose|i: int|
            0 <= i && i + q.len() <= s.len() && #[trigger] s.subrange(i, i + q.len()) == q;
        assert(crate::text::occurs_at(s, q, i));
    }
}

/// Every application that is found is listed, in order, with how it was found.
pub proof fn law_found_applications_are_listed(
    entries: Seq<EntryView>,
    e: EntryView,
    query: Seq<char>,
)
    ensures
        matched(Seq::empty(), query).len() == 0,
        matching(e, query) is None ==> matched(entries.push(e), query) == matched(entries, query),
        matching(e, query) matches Some(how) ==> matched(entries.push(e), query) == matched(
            entries,
            query,
        ).push(Matched { entry: e, how }),
{
    assert(entries.push(e).drop_last() =~= entries);
}

/// What is shown of an application: its name, its comment or else its command, and its
/// icon. How long ago it was launched is the time since then, and none where the clock
/// went back. The best comes first, and of equal ones the name that comes first.
pub proof fn law_applications_are_shown(
    e: EntryView,
    rating: u64,
    other: ItemView,
    launches: Map<Seq<char>, i64>,
    now: i64,
)
    requires
        rating <= 0x3FF0_0000_0000_0000,
        other.score <= 0x3FF0_0000_0000_0000,
    ensures
        ({
            let i = app_item(e, rating);
            &&& i.id == e.id && i.title == e.name && i.provider == "app-launcher"@ && i.icon_path
                == e.icon_path && i.icon == Some("app"@) && i.score == rating
            &&& e.comment is Some ==> i.subtitle == e.comment
            &&& e.comment is None ==> i.subtitle == Some(e.exec_line)
            &&& shown_before(i, other) <==> rating > other.score || (rating == other.score
                && !lex_lt(other.title, e.name))
        }),
        !launches.dom().contains(e.id) ==> age_of(launches, e.id, now) is None,
        launches.dom().contains(e.id) ==> age_of(launches, e.id, now) == Some(
            (if now < launches[e.id] {
                0
            } else {
                now - launches[e.id]
            }) as u64,
        ),
{
}

/// Where applications and icons are looked for: below the user's own data directory, and
/// then below the others, which are the usual two where none are named.
pub proof fn law_where_is_looked(
    data_home: Option<Seq<char>>,
    home: Option<Seq<char>>,
    data_dirs: Option<Seq<Seq<char>>>,
)
    ensures
        ({
            let own = if data_home is Some {
                seq![data_home->0]
            } else if home is Some {
                seq![joined(home->0, ".local/share"@)]
            } else {
                Seq::empty()
            };
            data_roots(data_home, home, data_dirs) =~= own + (if data_dirs is Some {
                data_dirs->0
            } else {
                seq!["/usr/local/share"@, "/usr/share"@]
            })
        }),
        app_dirs(data_home, home, data_dirs).len() == data_roots(data_home, home, data_dirs).len(),
        data_home is Some ==> app_dirs(data_home, home, data_dirs)[0] == joined(
            data_home->0,
            "applications"@,
        ),
        data_home is None && home is Some ==> app_dirs(data_home, home, data_dirs)[0] == joined(
            home->0,
            ".local/share/applications"@,
        ),
        data_dirs matches Some(dirs) ==> forall|i: int|
            0 <= i < dirs.len() ==> app_dirs(data_home, home, data_dirs)[app_dirs(
                data_home,
                home,
                data_dirs,
            ).len() - dirs.len() + i] == joined(#[trigger] dirs[i], "applications"@),
        data_dirs is None ==> app_dirs(data_home, home, data_dirs).contains(
            "/usr/local/share/applications"@,
        ) && app_dirs(data_home, home, data_dirs).last() == "/usr/share/applications"@,
{
    if data_dirs is None {
        let all = app_dirs(data_home, home, data_dirs);
        assert(all[all.len() - 2] == "/usr/local/share/applications"@);
    }
}

/// The image of an application is the first file of its icon that is there; an application
/// without an icon, and all else of any, stays as it is.
pub proof fn law_images_of_applications(
    e: EntryView,
    resolver: ResolverView,
    files: Seq<Seq<char>>,
    i: int,
)
    ensures
        with_icon_resolved(e, resolver, files) == (EntryView {
            icon_path: with_icon_resolved(e, resolver, files).icon_path,
            ..e
        }),
        e.icon_name is None ==> with_icon_resolved(e, resolver, files) == e,
        e.icon_name is Some ==> ({
            let paths = files_of_icon(resolver, e.icon_name->0);
            &&& (0 <= i < paths.len() && files.contains(paths[i]) && (forall|j: int|
                0 <= j < i ==> !files.contains(#[trigger] paths[j]))) ==> with_icon_resolved(
                e,
                resolver,
                files,
            ).icon_path == Some(paths[i])
            &&& (forall|j: int| 0 <= j < paths.len() ==> !files.contains(#[trigger] paths[j]))
                ==> with_icon_resolved(e, resolver, files).icon_path is None
        }),
{
    if let Some(name) = e.icon_name {
        let paths = files_of_icon(resolver, name);
        let p = |x: Seq<char>| files.contains(x);
        lemma_first_where(paths, p);
    }
}

} // verus!
