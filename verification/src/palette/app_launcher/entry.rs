//! Desktop entries.
//!
//! Of a `.desktop` file only a few keys of the section `[Desktop Entry]` are
//! read: what the application is called, what starts it, what it is for, which
//! icon it has, and whether it is to be shown.

use vstd::prelude::*;
use vstd::slice::slice_subrange;

use super::ini::in_section;
use crate::text;
use crate::text::{ascii_lower, index_of, lines, rows, trim, words};

verus! {

/// What is read of one `.desktop` file.
#[derive(Debug, Clone, PartialEq, Eq)]
pub struct DesktopEntry {
    pub id: String,
    pub name: String,
    pub exec_line: String,
    pub comment: Option<String>,
    /// The icon as the file names it: an absolute path or a name in a theme.
    pub icon_name: Option<String>,
    /// The image that the icon was found to be.
    pub icon_path: Option<String>,
}

/// What a desktop entry holds.
pub struct EntryView {
    pub id: Seq<char>,
    pub name: Seq<char>,
    pub exec_line: Seq<char>,
    pub comment: Option<Seq<char>>,
    pub icon_name: Option<Seq<char>>,
    pub icon_path: Option<Seq<char>>,
}

impl DeepView for DesktopEntry {
    type V = EntryView;

    open spec fn deep_view(&self) -> EntryView {
        EntryView {
            id: self.id@,
            name: self.name@,
            exec_line: self.exec_line@,
            comment: self.comment.deep_view(),
            icon_name: self.icon_name.deep_view(),
            icon_path: self.icon_path.deep_view(),
        }
    }
}

// ---------------------------------------------------------------------------
// The file
// ---------------------------------------------------------------------------

/// The keys of the section with their values, in the order of the file.
pub open spec fn pairs(lines: Seq<Seq<char>>) -> Seq<(Seq<char>, Seq<char>)>
    decreases lines.len(),
{
    if lines.len() == 0 {
        Seq::empty()
    } else {
        let before = pairs(lines.drop_last());
        let line = trim(lines.last());
        if line.len() == 0 || line[0] == '#' || line[0] == '[' || !in_section(lines.drop_last(), "[Desktop Entry]"@) {
            before
        } else {
            match index_of(line, '=') {
                Some(i) => before.push((trim(line.take(i)), trim(line.skip(i + 1)))),
                None => before,
            }
        }
    }
}

/// The first value of a key.
pub open spec fn first_value(pairs: Seq<(Seq<char>, Seq<char>)>, key: Seq<char>) -> Option<
    Seq<char>,
>
    decreases pairs.len(),
{
    if pairs.len() == 0 {
        None
    } else {
        match first_value(pairs.drop_last(), key) {
            Some(v) => Some(v),
            None => if pairs.last().0 == key {
                Some(pairs.last().1)
            } else {
                None
            },
        }
    }
}

/// The first value of a key that is not empty.
pub open spec fn first_filled(pairs: Seq<(Seq<char>, Seq<char>)>, key: Seq<char>) -> Option<
    Seq<char>,
>
    decreases pairs.len(),
{
    if pairs.len() == 0 {
        None
    } else {
        match first_filled(pairs.drop_last(), key) {
            Some(v) => Some(v),
            None => if pairs.last().0 == key && pairs.last().1.len() > 0 {
                Some(pairs.last().1)
            } else {
                None
            },
        }
    }
}

/// Whether the last value of a key is `true`, in any letter case.
pub open spec fn flag(pairs: Seq<(Seq<char>, Seq<char>)>, key: Seq<char>) -> bool
    decreases pairs.len(),
{
    if pairs.len() == 0 {
        false
    } else if pairs.last().0 == key {
        ascii_lower(pairs.last().1) == "true"@
    } else {
        flag(pairs.drop_last(), key)
    }
}

/// What a `.desktop` file says, or nothing where it is not to be shown, needs a
/// terminal, or lacks a name or a command.
pub open spec fn parsed(text: Seq<char>, stem: Seq<char>) -> Option<EntryView> {
    let p = pairs(lines(text));
    if flag(p, "NoDisplay"@) || flag(p, "Hidden"@) || flag(p, "Terminal"@) {
        None
    } else {
        match (first_value(p, "Name"@), first_value(p, "Exec"@)) {
            (Some(name), Some(exec_line)) => Some(
                EntryView {
                    id: stem,
                    name,
                    exec_line,
                    comment: first_value(p, "Comment"@),
                    icon_name: first_filled(p, "Icon"@),
                    icon_path: None,
                },
            ),
            _ => None,
        }
    }
}

/// The value of a key, where it is the first of it.
fn keep_first(known: &mut Option<String>, key: &[char], value: &[char], wanted: &str, Ghost(p): Ghost<
    Seq<(Seq<char>, Seq<char>)>,
>)
    requires
        old(known).deep_view() == first_value(p, wanted@),
    ensures
        final(known).deep_view() == first_value(p.push((key@, value@)), wanted@),
{
    assert(p.push((key@, value@)).drop_last() =~= p);
    if known.is_none() && text::is_text(key, wanted) {
        *known = Some(text::string(value));
    }
}

/// Whether a value is `true`, in any letter case.
fn truth(value: &[char]) -> (r: bool)
    ensures
        r == (ascii_lower(value@) == "true"@),
{
    let low = text::lowered_chars(value);
    text::is_text(&low, "true")
}

/// The state of a flag after one more key.
fn keep_last(known: bool, key: &[char], value: &[char], wanted: &str, Ghost(p): Ghost<
    Seq<(Seq<char>, Seq<char>)>,
>) -> (r: bool)
    requires
        known == flag(p, wanted@),
    ensures
        r == flag(p.push((key@, value@)), wanted@),
{
    assert(p.push((key@, value@)).drop_last() =~= p);
    if text::is_text(key, wanted) {
        truth(value)
    } else {
        known
    }
}

impl DesktopEntry {
    /// Reads a `.desktop` file. `file_stem` becomes the identifier.
    pub fn parse(text: &str, file_stem: &str) -> (r: Option<Self>)
        ensures
            r.deep_view() == parsed(text@, file_stem@),
    {
        let cs = text::chars(text);
        let all = text::lines_chars(&cs);
        let ghost lv = rows(all@);
        let mut in_entry = false;
        let mut name: Option<String> = None;
        let mut exec_line: Option<String> = None;
        let mut comment: Option<String> = None;
        let mut icon_name: Option<String> = None;
        let mut no_display = false;
        let mut hidden = false;
        let mut terminal = false;
        let mut i: usize = 0;
        while i < all.len()
            invariant
                i <= all@.len(),
                lv == rows(all@),
                in_entry == in_section(lv.take(i as int), "[Desktop Entry]"@),
                name.deep_view() == first_value(pairs(lv.take(i as int)), "Name"@),
                exec_line.deep_view() == first_value(pairs(lv.take(i as int)), "Exec"@),
                comment.deep_view() == first_value(pairs(lv.take(i as int)), "Comment"@),
                icon_name.deep_view() == first_filled(pairs(lv.take(i as int)), "Icon"@),
                no_display == flag(pairs(lv.take(i as int)), "NoDisplay"@),
                hidden == flag(pairs(lv.take(i as int)), "Hidden"@),
                terminal == flag(pairs(lv.take(i as int)), "Terminal"@),
            decreases all@.len() - i,
        {
            let ghost p = pairs(lv.take(i as int));
            assert(lv.take(i + 1).drop_last() =~= lv.take(i as int));
            assert(lv.take(i + 1).last() == all@[i as int]@);
            let line = text::trim_chars(&all[i]);
            let len: usize = line.len();
            if len > 0 && line[0] != '#' {
                if line[0] == '[' {
                    in_entry = text::is_text(line, "[Desktop Entry]");
                } else if in_entry {
                    if let Some(at) = text::index_chars_from(line, '=', 0) {
                        let left = slice_subrange(line, 0, at);
                        let right = slice_subrange(line, at + 1, len);
                        let key = text::trim_chars(left);
                        let value = text::trim_chars(right);
                        proof {
                            assert(left@ =~= line@.take(at as int));
                            assert(right@ =~= line@.skip(at + 1));
                            assert(pairs(lv.take(i + 1)) == p.push((key@, value@)));
                            assert(p.push((key@, value@)).drop_last() =~= p);
                        }
                        keep_first(&mut name, key, value, "Name", Ghost(p));
                        keep_first(&mut exec_line, key, value, "Exec", Ghost(p));
                        keep_first(&mut comment, key, value, "Comment", Ghost(p));
                        if icon_name.is_none() && value.len() > 0 && text::is_text(key, "Icon") {
                            icon_name = Some(text::string(value));
                        }
                        no_display = keep_last(no_display, key, value, "NoDisplay", Ghost(p));
                        hidden = keep_last(hidden, key, value, "Hidden", Ghost(p));
                        terminal = keep_last(terminal, key, value, "Terminal", Ghost(p));
                    }
                }
            }
            i += 1;
        }
        assert(lv.take(i as int) =~= lines(text@));
        if no_display || hidden || terminal {
            return None;
        }
        match (name, exec_line) {
            (Some(name), Some(exec_line)) => Some(
                DesktopEntry {
                    id: text::owned(file_stem),
                    name,
                    exec_line,
                    comment,
                    icon_name,
                    icon_path: None,
                },
            ),
            _ => None,
        }
    }
}

// ---------------------------------------------------------------------------
// The command
// ---------------------------------------------------------------------------

/// The field codes that stand for files and for parts of the entry itself.
pub open spec fn field_code(word: Seq<char>) -> bool {
    ||| word == "%f"@
    ||| word == "%F"@
    ||| word == "%u"@
    ||| word == "%U"@
    ||| word == "%i"@
    ||| word == "%c"@
    ||| word == "%k"@
}

/// The words of a command without its field codes.
pub open spec fn command_words(exec_line: Seq<char>) -> Seq<Seq<char>> {
    words(exec_line).filter(|w: Seq<char>| !field_code(w))
}

fn is_field_code(word: &[char]) -> (r: bool)
    ensures
        r == field_code(word@),
{
    text::is_text(word, "%f") || text::is_text(word, "%F") || text::is_text(word, "%u")
        || text::is_text(word, "%U") || text::is_text(word, "%i") || text::is_text(word, "%c")
        || text::is_text(word, "%k")
}

impl DesktopEntry {
    /// The program and its arguments, without field codes: no files are handed
    /// to what is launched. Nothing where no word is left.
    pub fn resolved_exec(&self) -> (r: Option<(String, Vec<String>)>)
        ensures
            r is Some <==> command_words(self.exec_line@).len() > 0,
            r matches Some((program, args)) ==> program@ == command_words(self.exec_line@)[0]
                && args.deep_view() == command_words(self.exec_line@).skip(1),
    {
        let cs = text::chars(&self.exec_line);
        let all = text::words_chars(&cs);
        let ghost wv = rows(all@);
        let ghost p = |w: Seq<char>| !field_code(w);
        let mut out: Vec<String> = Vec::new();
        let mut i: usize = 0;
        assert(wv.take(0).filter(p) =~= Seq::empty()) by {
            reveal(Seq::filter);
        }
        assert(out.deep_view() =~= wv.take(0).filter(p));
        while i < all.len()
            invariant
                i <= all@.len(),
                wv == rows(all@),
                p == (|w: Seq<char>| !field_code(w)),
                out.deep_view() == wv.take(i as int).filter(p),
            decreases all@.len() - i,
        {
            let ghost before = out.deep_view();
            proof {
                assert(wv.take(i + 1) =~= wv.take(i as int).push(wv[i as int]));
                wv.take(i as int).lemma_filter_push(wv[i as int], p);
            }
            if !is_field_code(&all[i]) {
                out.push(text::string(&all[i]));
                assert(out.deep_view() =~= before.push(wv[i as int]));
            }
            i += 1;
        }
        assert(wv.take(i as int) =~= words(self.exec_line@));
        let ghost ov = out.deep_view();
        if out.len() == 0 {
            return None;
        }
        let program = out.remove(0);
        assert(program@ == ov[0]);
        assert(out.deep_view() =~= ov.skip(1));
        Some((program, out))
    }
}

/// No field code reaches the program that is launched.
pub proof fn law_commands_hold_no_field_codes(exec_line: Seq<char>, k: int)
    requires
        0 <= k < command_words(exec_line).len(),
    ensures
        !field_code(command_words(exec_line)[k]),
        words(exec_line).contains(command_words(exec_line)[k]),
{
    let p = |w: Seq<char>| !field_code(w);
    words(exec_line).lemma_filter_pred(p, k);
    words(exec_line).lemma_filter_contains_rev(p, command_words(exec_line)[k]);
}

// ---------------------------------------------------------------------------
// Scanning
// ---------------------------------------------------------------------------

/// A file of an application directory.
#[derive(Debug, Clone, PartialEq, Eq)]
pub struct DesktopFile {
    /// The last component of the path.
    pub name: String,
    pub text: String,
}

/// The stem of a file with the extension `desktop`.
pub open spec fn desktop_stem(name: Seq<char>) -> Option<Seq<char>> {
    if name.len() > 8 && text::ends_with(name, ".desktop"@) {
        Some(name.take(name.len() - 8))
    } else {
        None
    }
}

/// What one file contributes.
pub open spec fn entry_of(f: DesktopFile) -> Option<EntryView> {
    match desktop_stem(f.name@) {
        Some(stem) => parsed(f.text@, stem),
        None => None,
    }
}

/// The entries of several files, in their order.
pub open spec fn scanned(files: Seq<DesktopFile>) -> Seq<EntryView>
    decreases files.len(),
{
    if files.len() == 0 {
        Seq::empty()
    } else {
        match entry_of(files.last()) {
            Some(e) => scanned(files.drop_last()).push(e),
            None => scanned(files.drop_last()),
        }
    }
}

/// The stem of a file with the extension `desktop`.
pub fn stem_of(name: &str) -> (r: Option<String>)
    ensures
        r.deep_view() == desktop_stem(name@),
{
    let cs = text::chars(name);
    if cs.len() > 8 && text::ends(name, ".desktop") {
        let stem = slice_subrange(&cs, 0, cs.len() - 8);
        assert(stem@ =~= name@.take(name@.len() - 8));
        Some(text::string(stem))
    } else {
        None
    }
}

/// Reads the `.desktop` files among the files of the application directories.
/// Files that say nothing to show are passed over; two entries of the same name
/// are both kept.
pub fn scan_desktop_entries(files: &[DesktopFile]) -> (r: Vec<DesktopEntry>)
    ensures
        r.deep_view() == scanned(files@),
{
    let mut out: Vec<DesktopEntry> = Vec::new();
    let mut i: usize = 0;
    assert(out.deep_view() =~= scanned(files@.take(0)));
    while i < files.len()
        invariant
            i <= files@.len(),
            out.deep_view() == scanned(files@.take(i as int)),
        decreases files@.len() - i,
    {
        let ghost before = out.deep_view();
        assert(files@.take(i + 1).drop_last() =~= files@.take(i as int));
        if let Some(stem) = stem_of(&files[i].name) {
            if let Some(entry) = DesktopEntry::parse(&files[i].text, &stem) {
                out.push(entry);
                assert(out.deep_view() =~= before.push(entry.deep_view()));
            }
        }
        i += 1;
    }
    assert(files@.take(i as int) =~= files@);
    out
}

/// A file is of an application where its name is something and `.desktop`; the application
/// goes by what stands before that.
pub proof fn law_desktop_files_are_known_by_name(stem: Seq<char>, name: Seq<char>)
    ensures
        stem.len() > 0 ==> desktop_stem(stem + ".desktop"@) == Some(stem),
        desktop_stem(name) matches Some(s) ==> s.len() > 0 && name == s + ".desktop"@,
{
    reveal_strlit(".desktop");
    let whole = stem + ".desktop"@;
    assert(whole.take(whole.len() - 8) =~= stem);
    assert(whole.skip(whole.len() - 8) =~= ".desktop"@);
    if stem.len() > 0 {
        assert(text::ends_with(whole, ".desktop"@));
    }
    if let Some(s) = desktop_stem(name) {
        assert(name =~= s + ".desktop"@);
    }
}

/// Applications come in the order of their files; a file that holds none is passed over.
pub proof fn law_applications_come_in_the_order_of_the_files(
    files: Seq<DesktopFile>,
    f: DesktopFile,
    stem: Seq<char>,
)
    ensures
        scanned(Seq::empty()).len() == 0,
        (stem.len() > 0 && f.name@ == stem + ".desktop"@) ==> (match parsed(f.text@, stem) {
            Some(e) => scanned(files.push(f)) == scanned(files).push(e),
            None => scanned(files.push(f)) == scanned(files),
        }),
        !text::ends_with(f.name@, ".desktop"@) ==> scanned(files.push(f)) == scanned(files),
{
    law_desktop_files_are_known_by_name(stem, f.name@);
    assert(files.push(f).drop_last() =~= files);
}

} // verus!
