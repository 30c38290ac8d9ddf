//! Icon themes: which one is chosen, and which others it inherits from.

use vstd::prelude::*;
use vstd::slice::slice_subrange;

use super::ini::in_section;
use crate::cuts::{law_beginnings_and_ends, law_parts, law_trimming, tight};
use crate::paths::{joined, path_join};
use crate::text;
use crate::text::{is_white, lines, rows, split, starts_with, trim};

verus! {

// ---------------------------------------------------------------------------
// Inheritance
// ---------------------------------------------------------------------------

/// What stands behind `Inherits=` on the first line of the section
/// `[Icon Theme]` that begins so.
pub open spec fn inherits_value(lines: Seq<Seq<char>>) -> Option<Seq<char>>
    decreases lines.len(),
{
    if lines.len() == 0 {
        None
    } else {
        let line = trim(lines.last());
        match inherits_value(lines.drop_last()) {
            Some(v) => Some(v),
            None => if in_section(lines.drop_last(), "[Icon Theme]"@) && starts_with(
                line,
                "Inherits="@,
            ) {
                Some(line.skip(9))
            } else {
                None
            },
        }
    }
}

/// The trimmed parts of a list with commas, without the empty ones.
pub open spec fn listed(value: Seq<char>) -> Seq<Seq<char>> {
    split(value, ',').map_values(|s: Seq<char>| trim(s)).filter(|s: Seq<char>| s.len() > 0)
}

/// The themes that an `index.theme` file names as the ones it inherits from.
pub open spec fn inherited(text: Seq<char>) -> Seq<Seq<char>> {
    match inherits_value(lines(text)) {
        Some(v) => listed(v),
        None => Seq::empty(),
    }
}

fn list_parts(value: &[char]) -> (r: Vec<String>)
    ensures
        r.deep_view() == listed(value@),
{
    let parts = text::split_chars(value, ',');
    let ghost pv = rows(parts@);
    let ghost tv = pv.map_values(|s: Seq<char>| trim(s));
    let ghost p = |s: Seq<char>| s.len() > 0;
    let mut out: Vec<String> = Vec::new();
    let mut i: usize = 0;
    assert(tv.take(0).filter(p) =~= Seq::empty()) by {
        reveal(Seq::filter);
    }
    assert(out.deep_view() =~= tv.take(0).filter(p));
    while i < parts.len()
        invariant
            i <= parts@.len(),
            pv == rows(parts@),
            tv == pv.map_values(|s: Seq<char>| trim(s)),
            p == (|s: Seq<char>| s.len() > 0),
            out.deep_view() == tv.take(i as int).filter(p),
        decreases parts@.len() - i,
    {
        let ghost before = out.deep_view();
        proof {
            assert(tv.take(i + 1) =~= tv.take(i as int).push(tv[i as int]));
            tv.take(i as int).lemma_filter_push(tv[i as int], p);
        }
        let part = text::trim_chars(&parts[i]);
        if part.len() > 0 {
            out.push(text::string(part));
            assert(out.deep_view() =~= before.push(tv[i as int]));
        }
        i += 1;
    }
    assert(tv.take(i as int) =~= tv);
    out
}

/// The themes that an `index.theme` file names as the ones it inherits from, in
/// order. None where the file does not say.
pub fn parse_theme_inherits(text: &str) -> (r: Vec<String>)
    ensures
        r.deep_view() == inherited(text@),
{
    let cs = text::chars(text);
    let all = text::lines_chars(&cs);
    let ghost lv = rows(all@);
    let mut in_header = false;
    let mut i: usize = 0;
    proof {
        reveal_strlit("Inherits=");
    }
    while i < all.len()
        invariant
            i <= all@.len(),
            lv == rows(all@),
            lv == lines(text@),
            "Inherits="@.len() == 9,
            "Inherits="@[0] == 'I',
            in_header == in_section(lv.take(i as int), "[Icon Theme]"@),
            inherits_value(lv.take(i as int)) is None,
        decreases all@.len() - i,
    {
        proof {
            assert(lv.take(i + 1).drop_last() =~= lv.take(i as int));
            assert(lv.take(i + 1).last() == all@[i as int]@);
        }
        let line = text::trim_chars(&all[i]);
        let len: usize = line.len();
        if len > 0 && line[0] == '[' {
            proof {
                if starts_with(line@, "Inherits="@) {
                    assert(line@.subrange(0, 9)[0] == line@[0]);
                }
            }
            in_header = text::is_text(line, "[Icon Theme]");
        } else if in_header && text::begins_chars(line, "Inherits=") {
            let value = slice_subrange(line, 9, len);
            proof {
                assert(value@ =~= line@.skip(9));
                lemma_first_stays(lv, i + 1);
            }
            return list_parts(value);
        }
        i += 1;
    }
    assert(lv.take(i as int) =~= lv);
    Vec::new()
}

/// The first value stays the first, whatever lines follow.
proof fn lemma_first_stays(lines: Seq<Seq<char>>, n: int)
    requires
        0 <= n <= lines.len(),
        inherits_value(lines.take(n)) is Some,
    ensures
        inherits_value(lines) == inherits_value(lines.take(n)),
    decreases lines.len(),
{
    if n < lines.len() {
        assert(lines.drop_last().take(n) =~= lines.take(n));
        lemma_first_stays(lines.drop_last(), n);
    } else {
        assert(lines.take(n) =~= lines);
    }
}

// ---------------------------------------------------------------------------
// The chosen theme
// ---------------------------------------------------------------------------

/// `s` without the white space and the equals signs that it begins with.
pub open spec fn after_equals(s: Seq<char>) -> Seq<char>
    decreases s.len(),
{
    if s.len() > 0 && (is_white(s[0]) || s[0] == '=') {
        after_equals(s.skip(1))
    } else {
        s
    }
}

/// `s` without the characters `c` that it begins with.
pub open spec fn without_leading(s: Seq<char>, c: char) -> Seq<char>
    decreases s.len(),
{
    if s.len() > 0 && s[0] == c {
        without_leading(s.skip(1), c)
    } else {
        s
    }
}

/// `s` without the characters `c` that it ends with.
pub open spec fn without_trailing(s: Seq<char>, c: char) -> Seq<char>
    decreases s.len(),
{
    if s.len() > 0 && s.last() == c {
        without_trailing(s.drop_last(), c)
    } else {
        s
    }
}

/// `s` without the characters `c` at both of its ends.
pub open spec fn unwrapped(s: Seq<char>, c: char) -> Seq<char> {
    without_trailing(without_leading(s, c), c)
}

/// The theme that a line of the settings names, without the quotes around it.
pub open spec fn theme_on_line(line: Seq<char>) -> Seq<char> {
    unwrapped(unwrapped(trim(after_equals(line.skip(19))), '"'), '\'')
}

/// Whether a trimmed line of the settings names a theme.
pub open spec fn names_theme(line: Seq<char>) -> bool {
    starts_with(line, "gtk-icon-theme-name"@) && theme_on_line(line).len() > 0
}

/// The theme on the first line of the section `[Settings]` that names one.
pub open spec fn chosen_theme(lines: Seq<Seq<char>>) -> Option<Seq<char>>
    decreases lines.len(),
{
    if lines.len() == 0 {
        None
    } else {
        match chosen_theme(lines.drop_last()) {
            Some(v) => Some(v),
            None => if in_section(lines.drop_last(), "[Settings]"@) && names_theme(
                trim(lines.last()),
            ) {
                Some(theme_on_line(trim(lines.last())))
            } else {
                None
            },
        }
    }
}

fn skip_equals(s: &[char]) -> (r: &[char])
    ensures
        r@ == after_equals(s@),
{
    let mut i: usize = 0;
    assert(s@.skip(0) =~= s@);
    while i < s.len() && (text::white(s[i]) || s[i] == '=')
        invariant
            i <= s@.len(),
            after_equals(s@) == after_equals(s@.skip(i as int)),
        decreases s@.len() - i,
    {
        assert(s@.skip(i as int).skip(1) =~= s@.skip(i + 1));
        i += 1;
    }
    assert(s@.skip(i as int) =~= s@.subrange(i as int, s@.len() as int));
    slice_subrange(s, i, s.len())
}

fn unwrap_char(s: &[char], c: char) -> (r: &[char])
    ensures
        r@ == unwrapped(s@, c),
{
    let mut i: usize = 0;
    assert(s@.skip(0) =~= s@);
    while i < s.len() && s[i] == c
        invariant
            i <= s@.len(),
            without_leading(s@, c) == without_leading(s@.skip(i as int), c),
        decreases s@.len() - i,
    {
        assert(s@.skip(i as int).skip(1) =~= s@.skip(i + 1));
        i += 1;
    }
    let ghost lead = s@.skip(i as int);
    let mut n: usize = s.len();
    assert(s@.subrange(i as int, n as int) =~= lead);
    while n > i && s[n - 1] == c
        invariant
            i <= n <= s@.len(),
            without_trailing(lead, c) == without_trailing(s@.subrange(i as int, n as int), c),
        decreases n,
    {
        assert(s@.subrange(i as int, n as int).drop_last() =~= s@.subrange(i as int, n - 1));
        n -= 1;
    }
    slice_subrange(s, i, n)
}

/// The icon theme that a GTK settings file sets.
pub fn read_icon_theme_from_settings(text: &str) -> (r: Option<String>)
    ensures
        r.deep_view() == chosen_theme(lines(text@)),
{
    let cs = text::chars(text);
    let all = text::lines_chars(&cs);
    let ghost lv = rows(all@);
    let mut in_settings = false;
    let mut i: usize = 0;
    proof {
        reveal_strlit("gtk-icon-theme-name");
    }
    while i < all.len()
        invariant
            i <= all@.len(),
            lv == rows(all@),
            lv == lines(text@),
            "gtk-icon-theme-name"@.len() == 19,
            "gtk-icon-theme-name"@[0] == 'g',
            in_settings == in_section(lv.take(i as int), "[Settings]"@),
            chosen_theme(lv.take(i as int)) is None,
        decreases all@.len() - i,
    {
        proof {
            assert(lv.take(i + 1).drop_last() =~= lv.take(i as int));
            assert(lv.take(i + 1).last() == all@[i as int]@);
        }
        let line = text::trim_chars(&all[i]);
        let len: usize = line.len();
        if len > 0 && line[0] == '[' {
            proof {
                if starts_with(line@, "gtk-icon-theme-name"@) {
                    assert(line@.subrange(0, 19)[0] == line@[0]);
                }
            }
            in_settings = text::is_text(line, "[Settings]");
        } else if in_settings && text::begins_chars(line, "gtk-icon-theme-name") {
            let behind = slice_subrange(line, 19, len);
            assert(behind@ =~= line@.skip(19));
            let plain = text::trim_chars(skip_equals(behind));
            let value = unwrap_char(unwrap_char(plain, '"'), '\'');
            if value.len() > 0 {
                proof {
                    lemma_choice_stays(lv, i + 1);
                }
                return Some(text::string(value));
            }
        }
        i += 1;
    }
    assert(lv.take(i as int) =~= lv);
    None
}

/// The first choice stays the first, whatever lines follow.
proof fn lemma_choice_stays(lines: Seq<Seq<char>>, n: int)
    requires
        0 <= n <= lines.len(),
        chosen_theme(lines.take(n)) is Some,
    ensures
        chosen_theme(lines) == chosen_theme(lines.take(n)),
    decreases lines.len(),
{
    if n < lines.len() {
        assert(lines.drop_last().take(n) =~= lines.take(n));
        lemma_choice_stays(lines.drop_last(), n);
    } else {
        assert(lines.take(n) =~= lines);
    }
}

/// The settings files below the configuration directory of the user, in the
/// order in which they are asked. None where there is no such directory.
pub open spec fn settings_paths(
    xdg_config_home: Option<Seq<char>>,
    home: Option<Seq<char>>,
) -> Seq<Seq<char>> {
    match (xdg_config_home, home) {
        (Some(base), _) => seq![
            joined(base, "gtk-4.0/settings.ini"@),
            joined(base, "gtk-3.0/settings.ini"@),
        ],
        (None, Some(h)) => seq![
            joined(joined(h, ".config"@), "gtk-4.0/settings.ini"@),
            joined(joined(h, ".config"@), "gtk-3.0/settings.ini"@),
        ],
        (None, None) => Seq::empty(),
    }
}

/// The settings files to ask for the icon theme.
pub fn settings_files(xdg_config_home: &Option<String>, home: &Option<String>) -> (r: Vec<String>)
    ensures
        r.deep_view() == settings_paths(xdg_config_home.deep_view(), home.deep_view()),
{
    let base = match (xdg_config_home, home) {
        (Some(base), _) => text::owned(base),
        (None, Some(h)) => path_join(h, ".config"),
        (None, None) => {
            let none: Vec<String> = Vec::new();
            assert(none.deep_view() =~= Seq::empty());
            return none;
        },
    };
    let mut out: Vec<String> = Vec::new();
    out.push(path_join(&base, "gtk-4.0/settings.ini"));
    out.push(path_join(&base, "gtk-3.0/settings.ini"));
    assert(out.deep_view() =~= settings_paths(xdg_config_home.deep_view(), home.deep_view()));
    out
}

/// The first theme that one of the settings files names. A file that could not
/// be read names none.
pub open spec fn detected(texts: Seq<Option<Seq<char>>>) -> Option<Seq<char>>
    decreases texts.len(),
{
    if texts.len() == 0 {
        None
    } else {
        match texts[0] {
            Some(t) if chosen_theme(lines(t)) is Some => chosen_theme(lines(t)),
            _ => detected(texts.skip(1)),
        }
    }
}

/// The icon theme that the user has configured. `texts` are the contents of the
/// settings files, in the order of [`settings_files`].
pub fn detect_primary_icon_theme(texts: &[Option<String>]) -> (r: Option<String>)
    ensures
        r.deep_view() == detected(texts.deep_view()),
{
    let ghost tv = texts.deep_view();
    let mut i: usize = 0;
    assert(tv.skip(0) =~= tv);
    while i < texts.len()
        invariant
            i <= texts@.len(),
            tv == texts.deep_view(),
            detected(tv) == detected(tv.skip(i as int)),
        decreases texts@.len() - i,
    {
        proof {
            assert(tv.skip(i as int).skip(1) =~= tv.skip(i + 1));
            assert(tv.skip(i as int)[0] == texts@[i as int].deep_view());
        }
        if let Some(t) = &texts[i] {
            let found = read_icon_theme_from_settings(t);
            if found.is_some() {
                return found;
            }
        }
        i += 1;
    }
    None
}

// ---------------------------------------------------------------------------
// The chain
// ---------------------------------------------------------------------------

/// The `index.theme` file of a theme.
#[derive(Debug, Clone, PartialEq, Eq)]
pub struct ThemeIndex {
    pub theme: String,
    pub text: String,
}

/// The themes that a theme inherits from: what the first file for it says.
pub open spec fn parents(indexes: Seq<ThemeIndex>, theme: Seq<char>) -> Seq<Seq<char>>
    decreases indexes.len(),
{
    if indexes.len() == 0 {
        Seq::empty()
    } else if indexes[0].theme@ == theme {
        inherited(indexes[0].text@)
    } else {
        parents(indexes.skip(1), theme)
    }
}

/// How many files are for themes that were not visited.
pub open spec fn unvisited(indexes: Seq<ThemeIndex>, visited: Seq<Seq<char>>) -> nat
    decreases indexes.len(),
{
    if indexes.len() == 0 {
        0
    } else {
        unvisited(indexes.skip(1), visited) + if visited.contains(indexes[0].theme@) {
            0nat
        } else {
            1nat
        }
    }
}

/// Visiting a theme leaves no more files, and fewer where the theme has one.
proof fn lemma_visiting(indexes: Seq<ThemeIndex>, visited: Seq<Seq<char>>, theme: Seq<char>)
    requires
        !visited.contains(theme),
    ensures
        unvisited(indexes, visited.push(theme)) <= unvisited(indexes, visited),
        parents(indexes, theme).len() > 0 ==> unvisited(indexes, visited.push(theme)) < unvisited(
            indexes,
            visited,
        ),
    decreases indexes.len(),
{
    if indexes.len() > 0 {
        lemma_visiting(indexes.skip(1), visited, theme);
        let t = indexes[0].theme@;
        let more = visited.push(theme);
        if visited.contains(t) {
            let k = choose|k: int| 0 <= k < visited.len() && visited[k] == t;
            assert(more[k] == t);
        }
        if t == theme {
            assert(more[more.len() - 1] == t);
        } else if more.contains(t) {
            let k = choose|k: int| 0 <= k < more.len() && more[k] == t;
            assert(visited[k] == t);
        }
    }
}

/// The themes in the order in which they are visited. The themes to visit stand
/// on a stack; the first of those that a theme inherits from comes to stand on
/// top. A theme that was visited is passed over, so themes that inherit from
/// each other do no harm.
pub open spec fn visits(
    indexes: Seq<ThemeIndex>,
    stack: Seq<Seq<char>>,
    visited: Seq<Seq<char>>,
) -> Seq<Seq<char>>
    decreases unvisited(indexes, visited), stack.len(),
    via visits_decrease
{
    if stack.len() == 0 {
        visited
    } else {
        let theme = stack.last();
        if visited.contains(theme) {
            visits(indexes, stack.drop_last(), visited)
        } else {
            visits(
                indexes,
                stack.drop_last() + parents(indexes, theme).reverse(),
                visited.push(theme),
            )
        }
    }
}

#[via_fn]
proof fn visits_decrease(
    indexes: Seq<ThemeIndex>,
    stack: Seq<Seq<char>>,
    visited: Seq<Seq<char>>,
) {
    if stack.len() > 0 && !visited.contains(stack.last()) {
        lemma_visiting(indexes, visited, stack.last());
    }
}

/// The chosen theme and all that it inherits from, and `hicolor` at the end
/// where it is not among them.
pub open spec fn theme_chain(indexes: Seq<ThemeIndex>, primary: Option<Seq<char>>) -> Seq<
    Seq<char>,
> {
    let stack = match primary {
        Some(p) => seq![p],
        None => Seq::empty(),
    };
    let chain = visits(indexes, stack, Seq::empty());
    if chain.contains("hicolor"@) {
        chain
    } else {
        chain.push("hicolor"@)
    }
}

fn parents_of(indexes: &[ThemeIndex], theme: &str) -> (r: Vec<String>)
    ensures
        r.deep_view() == parents(indexes@, theme@),
{
    let mut i: usize = 0;
    assert(indexes@.skip(0) =~= indexes@);
    while i < indexes.len()
        invariant
            i <= indexes@.len(),
            parents(indexes@, theme@) == parents(indexes@.skip(i as int), theme@),
        decreases indexes@.len() - i,
    {
        assert(indexes@.skip(i as int).skip(1) =~= indexes@.skip(i + 1));
        if text::same(&indexes[i].theme, theme) {
            return parse_theme_inherits(&indexes[i].text);
        }
        i += 1;
    }
    let none: Vec<String> = Vec::new();
    assert(none.deep_view() =~= Seq::empty());
    none
}

/// The chain of themes to look for icons in. `indexes` are the `index.theme`
/// files that there are; of several for one theme the first counts.
pub fn build_theme_chain(indexes: &[ThemeIndex], primary: Option<&str>) -> (r: Vec<String>)
    ensures
        r.deep_view() == theme_chain(
            indexes@,
            match primary {
                Some(p) => Some(p@),
                None => None,
            },
        ),
{
    let mut chain: Vec<String> = Vec::new();
    let mut stack: Vec<String> = Vec::new();
    if let Some(p) = primary {
        stack.push(text::owned(p));
        assert(stack.deep_view() =~= seq![p@]);
    } else {
        assert(stack.deep_view() =~= Seq::empty());
    }
    assert(chain.deep_view() =~= Seq::empty());
    let ghost start = stack.deep_view();
    while stack.len() > 0
        invariant
            visits(indexes@, start, Seq::empty()) == visits(
                indexes@,
                stack.deep_view(),
                chain.deep_view(),
            ),
        decreases unvisited(indexes@, chain.deep_view()), stack@.len(),
    {
        let ghost sv = stack.deep_view();
        let ghost cv = chain.deep_view();
        let theme = stack.remove(stack.len() - 1);
        assert(theme@ == sv.last());
        assert(stack.deep_view() =~= sv.drop_last());
        if !text::strings_contain(&chain, &theme) {
            let above = parents_of(indexes, &theme);
            let ghost av = above.deep_view();
            proof {
                lemma_visiting(indexes@, cv, theme@);
            }
            let mut k: usize = above.len();
            assert(sv.drop_last() + av.skip(k as int).reverse() =~= sv.drop_last());
            while k > 0
                invariant
                    k <= above@.len(),
                    av == above.deep_view(),
                    stack.deep_view() == sv.drop_last() + av.skip(k as int).reverse(),
                decreases k,
            {
                let ghost before = stack.deep_view();
                k -= 1;
                stack.push(above[k].clone());
                assert(stack.deep_view() =~= before.push(av[k as int]));
                assert(stack.deep_view() =~= sv.drop_last() + av.skip(k as int).reverse());
            }
            assert(av.skip(0) =~= av);
            chain.push(theme);
            assert(chain.deep_view() =~= cv.push(sv.last()));
        }
    }
    let ghost cv = chain.deep_view();
    if !text::strings_contain(&chain, "hicolor") {
        chain.push(text::owned("hicolor"));
        assert(chain.deep_view() =~= cv.push("hicolor"@));
    }
    chain
}

/// The themes whose `index.theme` files are to be looked for next: those of the chain,
/// as far as the files that are known tell it, that were not looked for. Where there
/// are none, the chain is known.
pub fn themes_to_read(indexes: &[ThemeIndex], primary: Option<&str>, looked_for: &[String]) -> (r:
    Vec<String>)
    ensures
        r.deep_view() == theme_chain(
            indexes@,
            match primary {
                Some(p) => Some(p@),
                None => None,
            },
        ).filter(|theme: Seq<char>| !looked_for.deep_view().contains(theme)),
{
    let chain = build_theme_chain(indexes, primary);
    let ghost cv = chain.deep_view();
    let ghost fresh = |theme: Seq<char>| !looked_for.deep_view().contains(theme);
    let mut out: Vec<String> = Vec::new();
    let mut i: usize = 0;
    assert(cv.take(0).filter(fresh) =~= Seq::empty()) by {
        reveal(Seq::filter);
    }
    assert(out.deep_view() =~= cv.take(0).filter(fresh));
    while i < chain.len()
        invariant
            i <= chain@.len(),
            cv == chain.deep_view(),
            fresh == (|theme: Seq<char>| !looked_for.deep_view().contains(theme)),
            out.deep_view() == cv.take(i as int).filter(fresh),
        decreases chain@.len() - i,
    {
        let ghost before = out.deep_view();
        proof {
            assert(cv.take(i + 1) =~= cv.take(i as int).push(cv[i as int]));
            cv.take(i as int).lemma_filter_push(cv[i as int], fresh);
        }
        if !text::strings_contain(looked_for, &chain[i]) {
            out.push(chain[i].clone());
            assert(out.deep_view() =~= before.push(cv[i as int]));
        }
        i += 1;
    }
    assert(cv.take(i as int) =~= cv);
    out
}

/// What every step of the walk keeps.
pub open spec fn walk_inv(
    indexes: Seq<ThemeIndex>,
    stack: Seq<Seq<char>>,
    visited: Seq<Seq<char>>,
) -> bool {
    &&& visited.no_duplicates()
    &&& forall|k: int, j: int|
        0 <= k < visited.len() && 0 <= j < parents(indexes, visited[k]).len() ==> (
        visited.contains(#[trigger] parents(indexes, #[trigger] visited[k])[j]) || stack.contains(
            parents(indexes, visited[k])[j],
        ))
}

proof fn lemma_visits(
    indexes: Seq<ThemeIndex>,
    stack: Seq<Seq<char>>,
    visited: Seq<Seq<char>>,
)
    requires
        walk_inv(indexes, stack, visited),
    ensures
        walk_inv(indexes, Seq::empty(), visits(indexes, stack, visited)),
        visited.len() <= visits(indexes, stack, visited).len(),
        visits(indexes, stack, visited).take(visited.len() as int) == visited,
        forall|k: int|
            0 <= k < stack.len() ==> visits(indexes, stack, visited).contains(#[trigger] stack[k]),
        stack.len() > 0 && visited.len() == 0 ==> visits(indexes, stack, visited).len() > 0
            && visits(indexes, stack, visited)[0] == stack.last(),
    decreases unvisited(indexes, visited), stack.len(),
{
    if stack.len() == 0 {
        assert(stack =~= Seq::empty());
        assert(visited.take(visited.len() as int) =~= visited);
    } else {
        let theme = stack.last();
        let rest = stack.drop_last();
        let out = visits(indexes, stack, visited);
        if visited.contains(theme) {
            assert forall|k: int, j: int|
                0 <= k < visited.len() && 0 <= j < parents(indexes, visited[k]).len() implies (
            visited.contains(#[trigger] parents(indexes, #[trigger] visited[k])[j])
                || rest.contains(parents(indexes, visited[k])[j])) by {
                let x = parents(indexes, visited[k])[j];
                if !visited.contains(x) {
                    let m = choose|m: int| 0 <= m < stack.len() && stack[m] == x;
                    assert(rest[m] == x);
                }
            }
            lemma_visits(indexes, rest, visited);
            assert forall|k: int| 0 <= k < stack.len() implies out.contains(#[trigger] stack[k]) by {
                if k < rest.len() {
                    assert(rest[k] == stack[k]);
                } else {
                    let m = choose|m: int| 0 <= m < visited.len() && visited[m] == theme;
                    assert(out.take(visited.len() as int)[m] == theme);
                    assert(out[m] == theme);
                }
            }
        } else {
            let above = parents(indexes, theme);
            let more = rest + above.reverse();
            let seen = visited.push(theme);
            lemma_visiting(indexes, visited, theme);
            assert forall|k: int, j: int|
                0 <= k < seen.len() && 0 <= j < parents(indexes, seen[k]).len() implies (
            seen.contains(#[trigger] parents(indexes, #[trigger] seen[k])[j]) || more.contains(
                parents(indexes, seen[k])[j],
            )) by {
                let x = parents(indexes, seen[k])[j];
                if k == visited.len() {
                    assert(x == above[j]);
                    assert(above.reverse()[above.len() - 1 - j] == x);
                    assert(more[rest.len() + (above.len() - 1 - j)] == x);
                } else {
                    assert(x == parents(indexes, visited[k])[j]);
                    if visited.contains(x) {
                        let m = choose|m: int| 0 <= m < visited.len() && visited[m] == x;
                        assert(seen[m] == x);
                    } else {
                        let m = choose|m: int| 0 <= m < stack.len() && stack[m] == x;
                        if m < rest.len() {
                            assert(more[m] == x);
                        } else {
                            assert(seen[visited.len() as int] == x);
                        }
                    }
                }
            }
            lemma_visits(indexes, more, seen);
            assert(out.take(seen.len() as int) == seen);
            assert(out.take(visited.len() as int) =~= out.take(seen.len() as int).take(
                visited.len() as int,
            ));
            assert(seen.take(visited.len() as int) =~= visited);
            assert(out.take(seen.len() as int)[visited.len() as int] == theme);
            assert(out[visited.len() as int] == theme);
            assert forall|k: int| 0 <= k < stack.len() implies out.contains(#[trigger] stack[k]) by {
                if k < rest.len() {
                    assert(more[k] == stack[k]);
                }
            }
        }
    }
}

/// A chain begins with the chosen theme, holds no theme twice, always holds
/// `hicolor`, and holds whatever one of its themes inherits from.
pub proof fn law_chains_are_complete(indexes: Seq<ThemeIndex>, primary: Option<Seq<char>>)
    ensures
        theme_chain(indexes, primary).no_duplicates(),
        theme_chain(indexes, primary).contains("hicolor"@),
        primary is Some ==> theme_chain(indexes, primary)[0] == primary->0,
        forall|k: int, j: int|
            0 <= k < theme_chain(indexes, primary).len() && 0 <= j < parents(
                indexes,
                theme_chain(indexes, primary)[k],
            ).len() ==> (theme_chain(indexes, primary).contains(
                #[trigger] parents(indexes, #[trigger] theme_chain(indexes, primary)[k])[j],
            ) || theme_chain(indexes, primary)[k] == "hicolor"@),
{
    let stack = match primary {
        Some(p) => seq![p],
        None => Seq::empty(),
    };
    lemma_visits(indexes, stack, Seq::empty());
    let walked = visits(indexes, stack, Seq::empty());
    let chain = theme_chain(indexes, primary);
    if !walked.contains("hicolor"@) {
        assert(chain[walked.len() as int] == "hicolor"@);
    }
    assert forall|k: int, j: int|
        0 <= k < chain.len() && 0 <= j < parents(indexes, chain[k]).len() implies (chain.contains(
        #[trigger] parents(indexes, #[trigger] chain[k])[j],
    ) || chain[k] == "hicolor"@) by {
        if chain[k] != "hicolor"@ {
            assert(chain[k] == walked[k]);
            let x = parents(indexes, walked[k])[j];
            assert(walked.contains(x));
            let m = choose|m: int| 0 <= m < walked.len() && walked[m] == x;
            assert(chain[m] == x);
        }
    }
}

/// The first line of the section that names what is inherited counts; the parts between
/// commas are the themes, without the space around them and without the empty ones.
pub proof fn law_inherited_themes_read_back(
    before: Seq<Seq<char>>,
    value: Seq<char>,
    other: Seq<char>,
)
    requires
        in_section(before, "[Icon Theme]"@),
        tight(value),
        value.len() > 0,
        tight(other),
        other.len() < 9 || other.take(9) != "Inherits="@,
    ensures
        inherits_value(before) is None ==> inherits_value(before.push("Inherits="@ + value)) == Some(
            value,
        ),
        inherits_value(before) is Some ==> inherits_value(before.push("Inherits="@ + value))
            == inherits_value(before),
        inherits_value(before.push(other)) == inherits_value(before),
        inherits_value(Seq::empty()) is None,
{
    reveal_strlit("Inherits=");
    let none = Seq::<char>::empty();
    let line = "Inherits="@ + value;
    assert(before.push(line).drop_last() =~= before);
    assert(before.push(other).drop_last() =~= before);
    assert(line[0] == 'I');
    assert(line[line.len() - 1] == value[value.len() - 1]);
    assert(none + line + none =~= line);
    law_trimming(none, line, none);
    assert(none + other + none =~= other);
    law_trimming(none, other, none);
    law_beginnings_and_ends(line, "Inherits="@);
    law_beginnings_and_ends(other, "Inherits="@);
    assert(line.take(9) =~= "Inherits="@);
    assert(line.skip(9) =~= value);
}

/// The parts of a list with commas.
pub proof fn law_lists_of_themes(first: Seq<char>, rest: Seq<char>)
    requires
        tight(first),
        !first.contains(','),
    ensures
        first.len() > 0 ==> listed(first) == seq![first] && listed(first + seq![','] + rest) == seq![
            first,
        ] + listed(rest),
        first.len() == 0 ==> listed(first) == Seq::<Seq<char>>::empty() && listed(
            first + seq![','] + rest,
        ) == listed(rest),
{
    let none = Seq::<char>::empty();
    assert(none + first + none =~= first);
    law_trimming(none, first, none);
    law_parts(first, ',', rest);
    let t = |s: Seq<char>| trim(s);
    let p = |s: Seq<char>| s.len() > 0;
    let tail = split(rest, ',').map_values(t);
    assert(split(first, ',').map_values(t) =~= seq![first]);
    assert(split(first + seq![','] + rest, ',').map_values(t) =~= seq![first] + tail);
    let e = Seq::<Seq<char>>::empty();
    assert(e.filter(p) =~= e) by {
        reveal(Seq::filter);
    }
    assert(e.push(first) =~= seq![first]);
    e.lemma_filter_push(first, p);
    Seq::filter_distributes_over_add(seq![first], tail, p);
    if first.len() > 0 {
        assert(seq![first].filter(p) =~= seq![first]);
    } else {
        assert(seq![first].filter(p) =~= e);
        assert(e + tail.filter(p) =~= tail.filter(p));
    }
}

/// The name of the theme stands behind the key and an equals sign, in quotes or not.
pub proof fn law_chosen_themes_read_back(name: Seq<char>)
    requires
        name.len() > 0,
        tight(name),
        name[0] != '=' && name[0] != '"' && name[0] != '\'',
        name.last() != '"' && name.last() != '\'',
    ensures
        theme_on_line("gtk-icon-theme-name="@ + name) == name,
        theme_on_line("gtk-icon-theme-name = "@ + name) == name,
        theme_on_line("gtk-icon-theme-name=\""@ + name + "\""@) == name,
{
    reveal_strlit("gtk-icon-theme-name=");
    reveal_strlit("gtk-icon-theme-name = ");
    reveal_strlit("gtk-icon-theme-name=\"");
    reveal_strlit("\"");
    let none = Seq::<char>::empty();
    assert(none + name + none =~= name);
    law_trimming(none, name, none);
    assert(unwrapped(name, '"') == name);
    assert(unwrapped(name, '\'') == name);
    let a = "gtk-icon-theme-name="@ + name;
    assert(a.skip(19) =~= seq!['='] + name);
    assert((seq!['='] + name).skip(1) =~= name);
    assert(after_equals(name) == name);
    assert(after_equals(seq!['='] + name) == name);
    let b = "gtk-icon-theme-name = "@ + name;
    let b1 = seq!['=', ' '] + name;
    let b2 = seq![' '] + name;
    assert(b.skip(19) =~= seq![' ', '=', ' '] + name);
    assert((seq![' ', '=', ' '] + name).skip(1) =~= b1);
    assert(b1.skip(1) =~= b2);
    assert(b2.skip(1) =~= name);
    assert(after_equals(b2) == name);
    assert(after_equals(b1) == name);
    assert(after_equals(b.skip(19)) == name);
    let c = "gtk-icon-theme-name=\""@ + name + "\""@;
    let q = seq!['"'] + name + seq!['"'];
    assert(c.skip(19) =~= seq!['='] + q);
    assert((seq!['='] + q).skip(1) =~= q);
    assert(q[0] == '"');
    assert(after_equals(q) == q);
    assert(none + q + none =~= q);
    assert(q[q.len() - 1] == '"');
    law_trimming(none, q, none);
    let n = name + seq!['"'];
    assert(q.skip(1) =~= n);
    assert(n[0] == name[0]);
    assert(without_leading(n, '"') == n);
    assert(without_leading(q, '"') == n);
    assert(n.drop_last() =~= name);
    assert(without_trailing(name, '"') == name);
    assert(without_trailing(n, '"') == name);
}

/// The settings are asked in order, and the first theme that is named is taken.
pub proof fn law_the_first_settings_count(
    text: Option<Seq<char>>,
    rest: Seq<Option<Seq<char>>>,
)
    ensures
        detected(Seq::empty()) is None,
        text is Some && chosen_theme(lines(text->0)) is Some ==> detected(seq![text] + rest)
            == chosen_theme(lines(text->0)),
        text is None || chosen_theme(lines(text->0)) is None ==> detected(seq![text] + rest)
            == detected(rest),
{
    assert((seq![text] + rest).skip(1) =~= rest);
}

/// Themes are visited depth first: a theme, then what it inherits from in the order in which
/// it names them, each with what it inherits from in turn; none twice.
pub proof fn law_themes_are_visited_in_order(
    indexes: Seq<ThemeIndex>,
    stack: Seq<Seq<char>>,
    theme: Seq<char>,
    visited: Seq<Seq<char>>,
)
    ensures
        visits(indexes, Seq::empty(), visited) == visited,
        visited.contains(theme) ==> visits(indexes, stack.push(theme), visited) == visits(
            indexes,
            stack,
            visited,
        ),
        !visited.contains(theme) ==> visits(indexes, stack.push(theme), visited) == visits(
            indexes,
            stack + parents(indexes, theme).reverse(),
            visited.push(theme),
        ),
{
    assert(stack.push(theme).drop_last() =~= stack);
}

/// The settings are looked for below the directory for configuration, else below the home
/// directory; the newer ones first.
pub proof fn law_where_settings_are(base: Seq<char>, home: Option<Seq<char>>)
    requires
        base.len() > 0,
        base.last() != '/',
    ensures
        settings_paths(Some(base), home) == seq![
            base + "/gtk-4.0/settings.ini"@,
            base + "/gtk-3.0/settings.ini"@,
        ],
        settings_paths(None, Some(base)) == seq![
            base + "/.config/gtk-4.0/settings.ini"@,
            base + "/.config/gtk-3.0/settings.ini"@,
        ],
        settings_paths(None, None).len() == 0,
{
    reveal_strlit("gtk-4.0/settings.ini");
    reveal_strlit("gtk-3.0/settings.ini");
    reveal_strlit("/gtk-4.0/settings.ini");
    reveal_strlit("/gtk-3.0/settings.ini");
    reveal_strlit(".config");
    reveal_strlit("/.config/gtk-4.0/settings.ini");
    reveal_strlit("/.config/gtk-3.0/settings.ini");
    let a = settings_paths(Some(base), home);
    let b = settings_paths(None, Some(base));
    assert(a[0] =~= base + "/gtk-4.0/settings.ini"@);
    assert(a[1] =~= base + "/gtk-3.0/settings.ini"@);
    assert(b[0] =~= base + "/.config/gtk-4.0/settings.ini"@);
    assert(b[1] =~= base + "/.config/gtk-3.0/settings.ini"@);
}

} // verus!
