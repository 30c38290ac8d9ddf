//! The names and places of icons.
//!
//! An icon is an absolute path or a name. Here stands what does not depend on
//! the file system: the names to look an icon up by, and the directories of a
//! theme to look in.

use vstd::prelude::*;
use vstd::slice::slice_subrange;

use crate::cuts::{law_beginnings_and_ends, law_places_of_a_character};
use crate::seqs::lemma_flatten_push;
use crate::text;
use crate::text::{ends_with, has, last_index_of, starts_with};

verus! {

// ---------------------------------------------------------------------------
// Names
// ---------------------------------------------------------------------------

/// A name without a known image extension. A dot in the name is not by itself
/// the beginning of an extension.
pub open spec fn bare_name(name: Seq<char>) -> Seq<char> {
    if ends_with(name, ".svg"@) || ends_with(name, ".png"@) || ends_with(name, ".xpm"@) {
        name.take(name.len() - 4)
    } else {
        name
    }
}

/// A name without a known image extension.
pub fn strip_known_extension(name: &str) -> (r: String)
    ensures
        r@ == bare_name(name@),
{
    if text::ends(name, ".svg") || text::ends(name, ".png") || text::ends(name, ".xpm") {
        proof {
            reveal_strlit(".svg");
            reveal_strlit(".png");
            reveal_strlit(".xpm");
        }
        let cs = text::chars(name);
        let bare = slice_subrange(&cs, 0, cs.len() - 4);
        assert(bare@ =~= name@.take(name@.len() - 4));
        text::string(bare)
    } else {
        text::owned(name)
    }
}

/// `names` and behind it `name`, where that is not empty and not among them.
pub open spec fn with_new(names: Seq<Seq<char>>, name: Seq<char>) -> Seq<Seq<char>> {
    if name.len() == 0 || names.contains(name) {
        names
    } else {
        names.push(name)
    }
}

/// `names` and behind it what is left of `name` without its last part, then
/// without its last two parts, and so on; parts begin with a dash.
pub open spec fn with_shortened(names: Seq<Seq<char>>, name: Seq<char>) -> Seq<Seq<char>>
    decreases name.len(),
{
    match last_index_of(name, '-') {
        Some(i) if 0 <= i < name.len() => with_shortened(with_new(names, name.take(i)), name.take(i)),
        _ => names,
    }
}

/// A name, and behind it its tail after the last dot.
pub open spec fn with_tail(name: Seq<char>) -> Seq<Seq<char>> {
    match last_index_of(name, '.') {
        Some(i) => with_new(seq![name], name.skip(i + 1)),
        None => seq![name],
    }
}

/// The names to look an icon up by, in order: its own, its tail after the last
/// dot, and both of them shortened.
pub open spec fn fallbacks(name: Seq<char>) -> Seq<Seq<char>> {
    let bases = with_tail(name);
    let first = with_shortened(bases, bases[0]);
    if bases.len() > 1 {
        with_shortened(first, bases[1])
    } else {
        first
    }
}

fn add_new(names: &mut Vec<String>, name: &[char])
    ensures
        final(names).deep_view() == with_new(old(names).deep_view(), name@),
{
    let ghost before = names.deep_view();
    let s = text::string(name);
    if name.len() > 0 && !text::strings_contain(names, &s) {
        names.push(s);
        assert(names.deep_view() =~= before.push(name@));
    }
}

fn add_shortened(names: &mut Vec<String>, name: &[char])
    ensures
        final(names).deep_view() == with_shortened(old(names).deep_view(), name@),
{
    let ghost target = with_shortened(names.deep_view(), name@);
    let mut current: &[char] = name;
    loop
        invariant
            target == with_shortened(names.deep_view(), current@),
        ensures
            target == names.deep_view(),
        decreases current@.len(),
    {
        match text::last_index_chars(current, '-') {
            Some(i) => {
                let shorter = slice_subrange(current, 0, i);
                assert(shorter@ =~= current@.take(i as int));
                add_new(names, shorter);
                current = shorter;
            },
            None => {
                break;
            },
        }
    }
}

/// The names to look an icon up by, in order. The first is its own.
pub fn icon_name_fallbacks(icon_name: &str) -> (r: Vec<String>)
    ensures
        r.deep_view() == fallbacks(icon_name@),
{
    let cs = text::chars(icon_name);
    let len: usize = cs.len();
    let mut out: Vec<String> = Vec::new();
    out.push(text::owned(icon_name));
    assert(out.deep_view() =~= seq![icon_name@]);
    let mut tail: &[char] = slice_subrange(&cs, len, len);
    if let Some(i) = text::last_index_chars(&cs, '.') {
        tail = slice_subrange(&cs, i + 1, len);
        assert(tail@ =~= icon_name@.skip(i + 1));
        add_new(&mut out, tail);
    }
    let ghost bases = out.deep_view();
    let both = out.len() > 1;
    assert(bases == with_tail(icon_name@));
    assert(both ==> bases[1] == tail@);
    assert(bases[0] == cs@);
    add_shortened(&mut out, &cs);
    if both {
        add_shortened(&mut out, tail);
    }
    out
}

proof fn lemma_with_new(names: Seq<Seq<char>>, name: Seq<char>)
    requires
        names.no_duplicates(),
        names.len() > 0,
    ensures
        with_new(names, name).no_duplicates(),
        with_new(names, name).len() >= names.len(),
        with_new(names, name)[0] == names[0],
        forall|k: int|
            names.len() <= k < with_new(names, name).len() ==> (#[trigger] with_new(
                names,
                name,
            )[k]).len() > 0,
        with_new(names, name).take(names.len() as int) == names,
{
    assert(with_new(names, name).take(names.len() as int) =~= names);
}

proof fn lemma_with_shortened(names: Seq<Seq<char>>, name: Seq<char>)
    requires
        names.no_duplicates(),
        names.len() > 0,
    ensures
        with_shortened(names, name).no_duplicates(),
        with_shortened(names, name).len() >= names.len(),
        with_shortened(names, name)[0] == names[0],
        forall|k: int|
            names.len() <= k < with_shortened(names, name).len() ==> (#[trigger] with_shortened(
                names,
                name,
            )[k]).len() > 0,
        with_shortened(names, name).take(names.len() as int) == names,
    decreases name.len(),
{
    let out = with_shortened(names, name);
    match last_index_of(name, '-') {
        Some(i) if 0 <= i < name.len() => {
            let more = with_new(names, name.take(i));
            lemma_with_new(names, name.take(i));
            lemma_with_shortened(more, name.take(i));
            assert(out.take(names.len() as int) =~= out.take(more.len() as int).take(
                names.len() as int,
            ));
            assert forall|k: int| names.len() <= k < out.len() implies (#[trigger] out[k]).len()
                > 0 by {
                if k < more.len() {
                    assert(out.take(more.len() as int)[k] == more[k]);
                }
            }
        },
        _ => {
            assert(names.take(names.len() as int) =~= names);
        },
    }
}

/// The names to look an icon up by begin with its own and hold none twice; the
/// others are not empty.
pub proof fn law_fallbacks_begin_with_the_name(name: Seq<char>)
    ensures
        fallbacks(name)[0] == name,
        fallbacks(name).no_duplicates(),
        forall|k: int| 0 < k < fallbacks(name).len() ==> (#[trigger] fallbacks(name)[k]).len() > 0,
{
    let start = seq![name];
    let bases = with_tail(name);
    if last_index_of(name, '.') is Some {
        lemma_with_new(start, name.skip(last_index_of(name, '.')->0 + 1));
    }
    lemma_with_shortened(bases, bases[0]);
    let first = with_shortened(bases, bases[0]);
    assert forall|k: int| 0 < k < first.len() implies (#[trigger] first[k]).len() > 0 by {
        if k < bases.len() {
            assert(first.take(bases.len() as int)[k] == bases[k]);
        }
    }
    if bases.len() > 1 {
        lemma_with_shortened(first, bases[1]);
        let out = fallbacks(name);
        assert forall|k: int| 0 < k < out.len() implies (#[trigger] out[k]).len() > 0 by {
            if k < first.len() {
                assert(out.take(first.len() as int)[k] == first[k]);
            }
        }
    }
}

// ---------------------------------------------------------------------------
// Directories of a theme
// ---------------------------------------------------------------------------

/// The contents of a list of string slices.
pub open spec fn texts(v: Seq<&str>) -> Seq<Seq<char>> {
    v.map_values(|s: &str| s@)
}

/// The extensions that are tried outside of the themes.
pub open spec fn icon_exts() -> Seq<Seq<char>> {
    seq!["svg"@, "png"@, "xpm"@]
}

/// The sizes of themes with directories `size/context`, from the best to the
/// least.
pub open spec fn theme_sizes() -> Seq<Seq<char>> {
    seq![
        "scalable"@,
        "512x512"@,
        "512x512@2x"@,
        "256x256"@,
        "256x256@2x"@,
        "128x128"@,
        "128x128@2x"@,
        "96x96"@,
        "96x96@2x"@,
        "64x64"@,
        "64x64@2x"@,
        "48x48"@,
        "48x48@2x"@,
        "40x40"@,
        "32x32"@,
        "32x32@2x"@,
        "24x24"@,
        "24x24@2x"@,
        "22x22"@,
        "22x22@2x"@,
        "16x16"@,
        "16x16@2x"@,
    ]
}

/// The sizes of themes with directories `context/size`.
pub open spec fn breeze_sizes() -> Seq<Seq<char>> {
    seq![
        "scalable"@,
        "512"@,
        "256"@,
        "128"@,
        "96"@,
        "64"@,
        "48"@,
        "32"@,
        "24"@,
        "24@2x"@,
        "22"@,
        "22@2x"@,
        "16"@,
        "16@2x"@,
    ]
}

/// The kinds of icons, from the one that is looked at first.
pub open spec fn contexts() -> Seq<Seq<char>> {
    seq!["apps"@, "status"@, "categories"@, "devices"@]
}

/// The sized directories of one kind of icons, in both layouts.
pub open spec fn sized(context: Seq<char>) -> Seq<Seq<char>> {
    theme_sizes().map_values(|size: Seq<char>| size + "/"@ + context)
        + breeze_sizes().map_values(|size: Seq<char>| context + "/"@ + size)
}

/// The monochrome directories of one kind of icons, in both layouts.
pub open spec fn symbolic(context: Seq<char>) -> Seq<Seq<char>> {
    seq!["symbolic/"@ + context, context + "/symbolic"@]
}

/// The directories of a theme that are looked at, in order.
pub open spec fn subdirs() -> Seq<Seq<char>> {
    contexts().map_values(|c: Seq<char>| sized(c)).flatten() + contexts().map_values(
        |c: Seq<char>| symbolic(c),
    ).flatten()
}

fn theme_size_names() -> (r: Vec<&'static str>)
    ensures
        texts(r@) == theme_sizes(),
{
    let r: Vec<&'static str> = vec![
        "scalable",
        "512x512",
        "512x512@2x",
        "256x256",
        "256x256@2x",
        "128x128",
        "128x128@2x",
        "96x96",
        "96x96@2x",
        "64x64",
        "64x64@2x",
        "48x48",
        "48x48@2x",
        "40x40",
        "32x32",
        "32x32@2x",
        "24x24",
        "24x24@2x",
        "22x22",
        "22x22@2x",
        "16x16",
        "16x16@2x",
    ];
    assert(texts(r@) =~= theme_sizes());
    r
}

fn breeze_size_names() -> (r: Vec<&'static str>)
    ensures
        texts(r@) == breeze_sizes(),
{
    let r: Vec<&'static str> = vec![
        "scalable",
        "512",
        "256",
        "128",
        "96",
        "64",
        "48",
        "32",
        "24",
        "24@2x",
        "22",
        "22@2x",
        "16",
        "16@2x",
    ];
    assert(texts(r@) =~= breeze_sizes());
    r
}

fn context_names() -> (r: Vec<&'static str>)
    ensures
        texts(r@) == contexts(),
{
    let r: Vec<&'static str> = vec!["apps", "status", "categories", "devices"];
    assert(texts(r@) =~= contexts());
    r
}

fn push_sized(out: &mut Vec<String>, context: &str)
    ensures
        final(out).deep_view() == old(out).deep_view() + sized(context@),
{
    let ghost before = out.deep_view();
    let sizes = theme_size_names();
    let ghost a = theme_sizes().map_values(|size: Seq<char>| size + "/"@ + context@);
    let ghost b = breeze_sizes().map_values(|size: Seq<char>| context@ + "/"@ + size);
    let mut i: usize = 0;
    assert(before + a.take(0) =~= before);
    while i < sizes.len()
        invariant
            i <= sizes@.len(),
            texts(sizes@) == theme_sizes(),
            a == theme_sizes().map_values(|size: Seq<char>| size + "/"@ + context@),
            out.deep_view() == before + a.take(i as int),
        decreases sizes@.len() - i,
    {
        let ghost now = out.deep_view();
        proof {
            assert(texts(sizes@)[i as int] == sizes@[i as int]@);
        }
        out.push(text::concat3(sizes[i], "/", context));
        assert(out.deep_view() =~= now.push(a[i as int]));
        assert(out.deep_view() =~= before + a.take(i + 1));
        i += 1;
    }
    assert(a.take(i as int) =~= a) by {
        assert(texts(sizes@).len() == sizes@.len());
    }
    let short = breeze_size_names();
    let mut j: usize = 0;
    assert(before + a + b.take(0) =~= before + a);
    while j < short.len()
        invariant
            j <= short@.len(),
            texts(short@) == breeze_sizes(),
            b == breeze_sizes().map_values(|size: Seq<char>| context@ + "/"@ + size),
            out.deep_view() == before + a + b.take(j as int),
        decreases short@.len() - j,
    {
        let ghost now = out.deep_view();
        proof {
            assert(texts(short@)[j as int] == short@[j as int]@);
        }
        out.push(text::concat3(context, "/", short[j]));
        assert(out.deep_view() =~= now.push(b[j as int]));
        assert(out.deep_view() =~= before + a + b.take(j + 1));
        j += 1;
    }
    assert(b.take(j as int) =~= b) by {
        assert(texts(short@).len() == short@.len());
    }
    assert(out.deep_view() =~= before + sized(context@));
}

/// The directories of a theme that are looked at, in order: applications first
/// in every size, then the other kinds, and the monochrome ones last.
pub fn candidate_subdirs() -> (r: Vec<String>)
    ensures
        r.deep_view() == subdirs(),
{
    let names = context_names();
    let ghost cv = contexts();
    let ghost a = cv.map_values(|c: Seq<char>| sized(c));
    let ghost b = cv.map_values(|c: Seq<char>| symbolic(c));
    let mut out: Vec<String> = Vec::new();
    let mut i: usize = 0;
    assert(a.take(0).flatten() =~= Seq::empty());
    assert(out.deep_view() =~= a.take(0).flatten());
    while i < names.len()
        invariant
            i <= names@.len(),
            cv == contexts(),
            texts(names@) == cv,
            a == cv.map_values(|c: Seq<char>| sized(c)),
            out.deep_view() == a.take(i as int).flatten(),
        decreases names@.len() - i,
    {
        proof {
            assert(texts(names@)[i as int] == names@[i as int]@);
            assert(a.take(i + 1) =~= a.take(i as int).push(a[i as int]));
            lemma_flatten_push(a.take(i as int), a[i as int]);
        }
        push_sized(&mut out, names[i]);
        i += 1;
    }
    assert(a.take(i as int) =~= a) by {
        assert(texts(names@).len() == names@.len());
    }
    let ghost base = a.flatten();
    let mut j: usize = 0;
    assert(b.take(0).flatten() =~= Seq::empty());
    assert(out.deep_view() =~= base + b.take(0).flatten());
    while j < names.len()
        invariant
            j <= names@.len(),
            cv == contexts(),
            texts(names@) == cv,
            b == cv.map_values(|c: Seq<char>| symbolic(c)),
            out.deep_view() == base + b.take(j as int).flatten(),
        decreases names@.len() - j,
    {
        let ghost now = out.deep_view();
        proof {
            assert(texts(names@)[j as int] == names@[j as int]@);
            assert(b.take(j + 1) =~= b.take(j as int).push(b[j as int]));
            lemma_flatten_push(b.take(j as int), b[j as int]);
        }
        out.push(text::concat2("symbolic/", names[j]));
        out.push(text::concat2(names[j], "/symbolic"));
        assert(out.deep_view() =~= now + symbolic(cv[j as int]));
        assert(out.deep_view() =~= base + b.take(j + 1).flatten());
        j += 1;
    }
    assert(b.take(j as int) =~= b) by {
        assert(texts(names@).len() == names@.len());
    }
    out
}

/// The extensions that are tried in a directory of a theme: drawings only where
/// it holds scalable or monochrome icons, else images first.
pub open spec fn exts_of(subdir: Seq<char>) -> Seq<Seq<char>> {
    if starts_with(subdir, "scalable"@) || has(subdir, "/scalable"@) || starts_with(
        subdir,
        "symbolic"@,
    ) || has(subdir, "/symbolic"@) {
        seq!["svg"@]
    } else {
        seq!["png"@, "svg"@]
    }
}

/// The extensions that are tried in a directory of a theme.
pub fn extensions_for_subdir(subdir: &str) -> (r: Vec<&'static str>)
    ensures
        texts(r@) == exts_of(subdir@),
{
    if text::begins(subdir, "scalable") || text::contains(subdir, "/scalable") || text::begins(
        subdir,
        "symbolic",
    ) || text::contains(subdir, "/symbolic") {
        let r: Vec<&'static str> = vec!["svg"];
        assert(texts(r@) =~= seq!["svg"@]);
        r
    } else {
        let r: Vec<&'static str> = vec!["png", "svg"];
        assert(texts(r@) =~= seq!["png"@, "svg"@]);
        r
    }
}

/// A known extension is taken off a name, and nothing else is.
pub proof fn law_extensions_are_taken_off(name: Seq<char>)
    ensures
        bare_name(name + ".svg"@) == name,
        bare_name(name + ".png"@) == name,
        bare_name(name + ".xpm"@) == name,
        name.len() < 4 || (name.skip(name.len() - 4) != ".svg"@ && name.skip(name.len() - 4)
            != ".png"@ && name.skip(name.len() - 4) != ".xpm"@) ==> bare_name(name) == name,
{
    reveal_strlit(".svg");
    reveal_strlit(".png");
    reveal_strlit(".xpm");
    lemma_bare(name, ".svg"@);
    lemma_bare(name, ".png"@);
    lemma_bare(name, ".xpm"@);
    law_beginnings_and_ends(name, ".svg"@);
    law_beginnings_and_ends(name, ".png"@);
    law_beginnings_and_ends(name, ".xpm"@);
}

proof fn lemma_bare(name: Seq<char>, ext: Seq<char>)
    requires
        ext.len() == 4,
        ext == ".svg"@ || ext == ".png"@ || ext == ".xpm"@,
    ensures
        bare_name(name + ext) == name,
{
    let s = name + ext;
    law_beginnings_and_ends(s, ext);
    assert(s.skip(s.len() - 4) =~= ext);
    assert(s.take(s.len() - 4) =~= name);
}

/// A name is also looked up by its tail behind the last dot, and by what stands before its
/// last dash, and before the dash before that, and so on; each name that is new and not
/// empty comes behind the others.
pub proof fn law_names_get_shorter(names: Seq<Seq<char>>, a: Seq<char>, b: Seq<char>)
    ensures
        !a.contains('-') ==> with_shortened(names, a) == names,
        !b.contains('-') ==> with_shortened(names, a + seq!['-'] + b) == with_shortened(
            with_new(names, a),
            a,
        ),
        !a.contains('.') ==> with_tail(a) == seq![a],
        !b.contains('.') ==> with_tail(a + seq!['.'] + b) == with_new(seq![a + seq!['.'] + b], b),
        a.len() == 0 || names.contains(a) ==> with_new(names, a) == names,
        a.len() > 0 && !names.contains(a) ==> with_new(names, a) == names.push(a),
{
    law_places_of_a_character(a, '-');
    law_places_of_a_character(a, '.');
    let s = a + seq!['-'] + b;
    let t = a + seq!['.'] + b;
    law_places_of_a_character(s, '-');
    law_places_of_a_character(t, '.');
    assert(s[a.len() as int] == '-');
    assert(t[a.len() as int] == '.');
    assert(s.contains('-'));
    assert(t.contains('.'));
    if !b.contains('-') {
        let i = last_index_of(s, '-')->0;
        if i > a.len() {
            assert(b[i - a.len() - 1] == '-');
        }
        assert(s.take(a.len() as int) =~= a);
    }
    if !b.contains('.') {
        let i = last_index_of(t, '.')->0;
        if i > a.len() {
            assert(b[i - a.len() - 1] == '.');
        }
        assert(t.skip(a.len() as int + 1) =~= b);
    }
}

/// A name is looked up first by itself and its tail, then by the shorter forms of itself,
/// and then by those of its tail.
pub proof fn law_fallbacks_in_order(name: Seq<char>)
    ensures
        with_tail(name).len() == 1 ==> fallbacks(name) == with_shortened(with_tail(name), name),
        with_tail(name).len() > 1 ==> fallbacks(name) == with_shortened(
            with_shortened(with_tail(name), name),
            with_tail(name)[1],
        ),
        with_tail(name)[0] == name,
        1 <= with_tail(name).len() <= 2,
{
}

/// In directories of drawings only drawings are looked for, in others bitmaps first.
pub proof fn law_extensions_of_directories(subdir: Seq<char>)
    ensures
        ({
            let begins = |w: Seq<char>| subdir.len() >= w.len() && subdir.take(w.len() as int) == w;
            let holds = |w: Seq<char>|
                exists|i: int|
                    0 <= i && i + w.len() <= subdir.len() && #[trigger] subdir.subrange(i, i + w.len())
                        == w;
            if begins("scalable"@) || holds("/scalable"@) || begins("symbolic"@) || holds(
                "/symbolic"@,
            ) {
                exts_of(subdir) == seq!["svg"@]
            } else {
                exts_of(subdir) == seq!["png"@, "svg"@]
            }
        }),
{
    law_beginnings_and_ends(subdir, "scalable"@);
    law_beginnings_and_ends(subdir, "/scalable"@);
    law_beginnings_and_ends(subdir, "symbolic"@);
    law_beginnings_and_ends(subdir, "/symbolic"@);
}

/// The sizes fall, from drawings down; applications are looked at first, and monochrome
/// pictures last.
pub proof fn law_sizes_fall()
    ensures
        theme_sizes() == seq![
            "scalable"@,
            "512x512"@,
            "512x512@2x"@,
            "256x256"@,
            "256x256@2x"@,
            "128x128"@,
            "128x128@2x"@,
            "96x96"@,
            "96x96@2x"@,
            "64x64"@,
            "64x64@2x"@,
            "48x48"@,
            "48x48@2x"@,
            "40x40"@,
            "32x32"@,
            "32x32@2x"@,
            "24x24"@,
            "24x24@2x"@,
            "22x22"@,
            "22x22@2x"@,
            "16x16"@,
            "16x16@2x"@,
        ],
        breeze_sizes() == seq![
            "scalable"@,
            "512"@,
            "256"@,
            "128"@,
            "96"@,
            "64"@,
            "48"@,
            "32"@,
            "24"@,
            "24@2x"@,
            "22"@,
            "22@2x"@,
            "16"@,
            "16@2x"@,
        ],
        contexts() == seq!["apps"@, "status"@, "categories"@, "devices"@],
{
}

/// The directories of one kind of icons are named by size and kind in one layout and by kind
/// and size in the other.
pub proof fn law_directories_of_a_kind(context: Seq<char>, i: int)
    ensures
        sized(context).len() == theme_sizes().len() + breeze_sizes().len(),
        0 <= i < theme_sizes().len() ==> sized(context)[i] == theme_sizes()[i] + "/"@ + context,
        0 <= i < breeze_sizes().len() ==> sized(context)[theme_sizes().len() + i] == context + "/"@
            + breeze_sizes()[i],
        symbolic(context) == seq!["symbolic/"@ + context, context + "/symbolic"@],
        subdirs() == contexts().map_values(|c: Seq<char>| sized(c)).flatten()
            + contexts().map_values(|c: Seq<char>| symbolic(c)).flatten(),
{
}

} // verus!
