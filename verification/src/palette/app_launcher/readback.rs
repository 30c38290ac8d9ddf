//! Desktop files read back as they were written.

use vstd::prelude::*;

use super::entry::{first_filled, first_value, flag, pairs, parsed};
use super::ini::in_section;
use crate::cuts::{law_lines, law_trimming, lemma_index_behind, tight};
use crate::text::{ascii_lower, index_of, is_white, lines, trim};

verus! {

/// Whether a text is white space alone.
pub open spec fn gap(s: Seq<char>) -> bool {
    forall|i: int| 0 <= i < s.len() ==> is_white(#[trigger] s[i])
}

/// Whether a text can be written as a key: it is not empty, has no white space around
/// it, holds no equals sign and no end of a line, and begins neither a comment nor a
/// section.
pub open spec fn key_text(k: Seq<char>) -> bool {
    &&& k.len() > 0
    &&& tight(k)
    &&& !k.contains('=')
    &&& !k.contains('\n')
    &&& k[0] != '#'
    &&& k[0] != '['
}

/// Whether a text can be written as a value: it has no white space around it and holds
/// no end of a line. It may hold any number of equals signs.
pub open spec fn value_text(v: Seq<char>) -> bool {
    tight(v) && !v.contains('\n')
}

/// A line with a key and a value is read as the two, whatever white space stands around
/// them and whatever equals signs the value holds.
pub proof fn law_a_line_is_a_key_and_a_value(
    before: Seq<Seq<char>>,
    a: Seq<char>,
    k: Seq<char>,
    b: Seq<char>,
    c: Seq<char>,
    v: Seq<char>,
    d: Seq<char>,
)
    requires
        in_section(before, "[Desktop Entry]"@),
        gap(a),
        gap(b),
        gap(c),
        gap(d),
        key_text(k),
        tight(v),
    ensures
        pairs(before.push(a + k + b + seq!['='] + c + v + d)) == pairs(before).push((k, v)),
        in_section(
            before.push(a + k + b + seq!['='] + c + v + d),
            "[Desktop Entry]"@,
        ),
{
    let line = a + k + b + seq!['='] + c + v + d;
    assert(before.push(line).drop_last() =~= before);
    let none = Seq::<char>::empty();
    let kb = k + b;
    assert(!kb.contains('=')) by {
        if kb.contains('=') {
            let i = choose|i: int| 0 <= i < kb.len() && kb[i] == '=';
            if i < k.len() {
                assert(k[i] == '=');
            } else {
                assert(b[i - k.len()] == '=');
                assert(is_white(b[i - k.len()]));
            }
        }
    }
    let rest = if v.len() > 0 {
        c + v
    } else {
        none
    };
    let end = if v.len() > 0 {
        d
    } else {
        c + d
    };
    let core = kb + seq!['='] + rest;
    assert(gap(end)) by {
        assert forall|i: int| 0 <= i < end.len() implies is_white(#[trigger] end[i]) by {
            if v.len() == 0 {
                if i < c.len() {
                    assert(end[i] == c[i]);
                } else {
                    assert(end[i] == d[i - c.len()]);
                }
            }
        }
    }
    assert(core[0] == k[0]);
    assert(tight(core)) by {
        if v.len() > 0 {
            assert(core[core.len() - 1] == v[v.len() - 1]);
        } else {
            assert(core[core.len() - 1] == '=');
        }
    }
    assert(line =~= a + core + end);
    law_trimming(a, core, end);
    lemma_index_behind(kb, '=', rest);
    assert(core.take(kb.len() as int) =~= kb);
    assert(core.skip(kb.len() as int + 1) =~= rest);
    assert(none + k + b =~= kb);
    law_trimming(none, k, b);
    if v.len() > 0 {
        assert(c + v + none =~= rest);
        law_trimming(c, v, none);
    } else {
        assert(none + v + none =~= rest);
        law_trimming(none, v, none);
        assert(v =~= none);
    }
}

/// Blank lines and comments say nothing, and a line in brackets begins another section.
pub proof fn law_other_lines_say_nothing(before: Seq<Seq<char>>, line: Seq<char>, header: Seq<char>)
    requires
        tight(line),
        line.len() == 0 || line[0] == '#' || line[0] == '[' || !line.contains('=')
            || !in_section(before, "[Desktop Entry]"@),
    ensures
        pairs(before.push(line)) == pairs(before),
        in_section(before.push(line), header) == (if line.len() > 0 && line[0] == '[' {
            line == header
        } else {
            in_section(before, header)
        }),
        !in_section(Seq::empty(), header),
{
    let none = Seq::<char>::empty();
    assert(before.push(line).drop_last() =~= before);
    assert(none + line + none =~= line);
    law_trimming(none, line, none);
    crate::cuts::law_places_of_a_character(line, '=');
}

/// The first value of a key is the one of its first line; a flag goes by its last.
pub proof fn law_first_and_last_values(ps: Seq<(Seq<char>, Seq<char>)>, key: Seq<char>)
    ensures
        match first_value(ps, key) {
            Some(v) => exists|i: int|
                0 <= i < ps.len() && #[trigger] ps[i] == (key, v) && forall|j: int|
                    0 <= j < i ==> (#[trigger] ps[j]).0 != key,
            None => forall|i: int| 0 <= i < ps.len() ==> (#[trigger] ps[i]).0 != key,
        },
        match first_filled(ps, key) {
            Some(v) => v.len() > 0 && exists|i: int|
                0 <= i < ps.len() && #[trigger] ps[i] == (key, v) && forall|j: int|
                    0 <= j < i ==> (#[trigger] ps[j]).0 != key || ps[j].1.len() == 0,
            None => forall|i: int|
                0 <= i < ps.len() ==> (#[trigger] ps[i]).0 != key || ps[i].1.len() == 0,
        },
        flag(ps, key) <==> exists|i: int|
            0 <= i < ps.len() && (#[trigger] ps[i]).0 == key && ascii_lower(ps[i].1) == "true"@
                && forall|j: int| i < j < ps.len() ==> (#[trigger] ps[j]).0 != key,
    decreases ps.len(),
{
    if ps.len() > 0 {
        let front = ps.drop_last();
        law_first_and_last_values(front, key);
        let n = ps.len() - 1;
        assert(ps[n] == ps.last());
        match first_value(front, key) {
            Some(v) => {
                let i = choose|i: int|
                    0 <= i < front.len() && #[trigger] front[i] == (key, v) && forall|j: int|
                        0 <= j < i ==> (#[trigger] front[j]).0 != key;
                assert(ps[i] == (key, v));
                assert forall|j: int| 0 <= j < i implies (#[trigger] ps[j]).0 != key by {
                    assert(front[j].0 != key);
                }
            },
            None => {
                assert forall|j: int| 0 <= j < n implies (#[trigger] ps[j]).0 != key by {
                    assert(front[j].0 != key);
                }
                if ps.last().0 == key {
                    assert(ps[n] == (key, ps.last().1));
                }
            },
        }
        match first_filled(front, key) {
            Some(v) => {
                let i = choose|i: int|
                    0 <= i < front.len() && #[trigger] front[i] == (key, v) && forall|j: int|
                        0 <= j < i ==> (#[trigger] front[j]).0 != key || front[j].1.len() == 0;
                assert(ps[i] == (key, v));
                assert forall|j: int| 0 <= j < i implies (#[trigger] ps[j]).0 != key
                    || ps[j].1.len() == 0 by {
                    assert(front[j].0 != key || front[j].1.len() == 0);
                }
            },
            None => {
                assert forall|j: int| 0 <= j < n implies (#[trigger] ps[j]).0 != key
                    || ps[j].1.len() == 0 by {
                    assert(front[j].0 != key || front[j].1.len() == 0);
                }
                if ps.last().0 == key && ps.last().1.len() > 0 {
                    assert(ps[n] == (key, ps.last().1));
                }
            },
        }
        if ps.last().0 != key {
            if flag(front, key) {
                let i = choose|i: int|
                    0 <= i < front.len() && (#[trigger] front[i]).0 == key && ascii_lower(
                        front[i].1,
                    ) == "true"@ && forall|j: int|
                        i < j < front.len() ==> (#[trigger] front[j]).0 != key;
                assert(ps[i].0 == key);
                assert forall|j: int| i < j < ps.len() implies (#[trigger] ps[j]).0 != key by {
                    if j < n {
                        assert(front[j].0 != key);
                    }
                }
            } else if exists|i: int|
                0 <= i < ps.len() && (#[trigger] ps[i]).0 == key && ascii_lower(ps[i].1) == "true"@
                    && forall|j: int| i < j < ps.len() ==> (#[trigger] ps[j]).0 != key {
                let i = choose|i: int|
                    0 <= i < ps.len() && (#[trigger] ps[i]).0 == key && ascii_lower(ps[i].1)
                        == "true"@ && forall|j: int|
                        i < j < ps.len() ==> (#[trigger] ps[j]).0 != key;
                assert(front[i].0 == key);
                assert forall|j: int| i < j < front.len() implies (#[trigger] front[j]).0 != key by {
                    assert(ps[j].0 != key);
                }
            }
        } else if ascii_lower(ps.last().1) == "true"@ {
            assert(ps[n].0 == key);
        }
    }
}

/// Keys with their values as lines.
pub open spec fn written(ps: Seq<(Seq<char>, Seq<char>)>) -> Seq<char>
    decreases ps.len(),
{
    if ps.len() == 0 {
        Seq::empty()
    } else {
        (ps[0].0 + seq!['='] + ps[0].1) + seq!['\n'] + written(ps.drop_first())
    }
}

/// A desktop file with these keys and values.
pub open spec fn desktop_text(ps: Seq<(Seq<char>, Seq<char>)>) -> Seq<char> {
    "[Desktop Entry]"@ + seq!['\n'] + written(ps)
}

proof fn lemma_written_lines(ps: Seq<(Seq<char>, Seq<char>)>)
    requires
        forall|i: int|
            0 <= i < ps.len() ==> key_text((#[trigger] ps[i]).0) && value_text(ps[i].1),
    ensures
        lines(written(ps)) == ps.map_values(
            |p: (Seq<char>, Seq<char>)| p.0 + seq!['='] + p.1,
        ),
    decreases ps.len(),
{
    let f = |p: (Seq<char>, Seq<char>)| p.0 + seq!['='] + p.1;
    if ps.len() == 0 {
        law_lines(Seq::empty(), Seq::empty());
        assert(ps.map_values(f) =~= Seq::empty());
    } else {
        let rest = ps.drop_first();
        assert forall|i: int| 0 <= i < rest.len() implies key_text((#[trigger] rest[i]).0)
            && value_text(rest[i].1) by {
            assert(rest[i] == ps[i + 1]);
        }
        lemma_written_lines(rest);
        let (k, v) = ps[0];
        assert(key_text(ps[0].0) && value_text(ps[0].1));
        let line = k + seq!['='] + v;
        assert(!line.contains('\n')) by {
            if line.contains('\n') {
                let i = choose|i: int| 0 <= i < line.len() && line[i] == '\n';
                if i < k.len() {
                    assert(k[i] == '\n');
                } else if i > k.len() {
                    assert(v[i - k.len() - 1] == '\n');
                }
            }
        }
        assert(line.last() != '\r') by {
            if v.len() > 0 {
                assert(line.last() == v[v.len() - 1]);
            } else {
                assert(line.last() == '=');
            }
        }
        law_lines(line, written(rest));
        assert(ps.map_values(f) =~= seq![line] + rest.map_values(f));
    }
}

proof fn lemma_written_pairs(ps: Seq<(Seq<char>, Seq<char>)>)
    requires
        forall|i: int|
            0 <= i < ps.len() ==> key_text((#[trigger] ps[i]).0) && value_text(ps[i].1),
    ensures
        pairs(
            seq!["[Desktop Entry]"@] + ps.map_values(
                |p: (Seq<char>, Seq<char>)| p.0 + seq!['='] + p.1,
            ),
        ) == ps,
        in_section(
            seq!["[Desktop Entry]"@] + ps.map_values(
                |p: (Seq<char>, Seq<char>)| p.0 + seq!['='] + p.1,
            ),
            "[Desktop Entry]"@,
        ),
    decreases ps.len(),
{
    let f = |p: (Seq<char>, Seq<char>)| p.0 + seq!['='] + p.1;
    let none = Seq::<char>::empty();
    let head = "[Desktop Entry]"@;
    reveal_strlit("[Desktop Entry]");
    if ps.len() == 0 {
        let start = Seq::<Seq<char>>::empty();
        law_other_lines_say_nothing(start, head, head);
        assert(seq![head] + ps.map_values(f) =~= start.push(head));
        assert(pairs(start) =~= Seq::empty());
        assert(ps =~= Seq::empty());
    } else {
        let front = ps.drop_last();
        let (k, v) = ps.last();
        assert forall|i: int| 0 <= i < front.len() implies key_text((#[trigger] front[i]).0)
            && value_text(front[i].1) by {
            assert(front[i] == ps[i]);
        }
        assert(key_text(ps[ps.len() - 1].0) && value_text(ps[ps.len() - 1].1));
        lemma_written_pairs(front);
        let before = seq![head] + front.map_values(f);
        law_a_line_is_a_key_and_a_value(before, none, k, none, none, v, none);
        assert(none + k + none + seq!['='] + none + v + none =~= k + seq!['='] + v);
        assert(seq![head] + ps.map_values(f) =~= before.push(f(ps.last())));
        assert(front.push((k, v)) =~= ps);
    }
}

/// A desktop file reads back as it was written. It is shown exactly where it has a name
/// and a command and the last word on hiding it, on not displaying it and on a terminal
/// is not `true`. The first name, command and comment count, and the first icon that
/// is not empty.
pub proof fn law_desktop_files_read_back(ps: Seq<(Seq<char>, Seq<char>)>, stem: Seq<char>)
    requires
        forall|i: int|
            0 <= i < ps.len() ==> key_text((#[trigger] ps[i]).0) && value_text(ps[i].1),
    ensures
        ({
            let set = |key: Seq<char>|
                exists|i: int|
                    0 <= i < ps.len() && (#[trigger] ps[i]).0 == key && ascii_lower(ps[i].1)
                        == "true"@ && forall|j: int|
                        i < j < ps.len() ==> (#[trigger] ps[j]).0 != key;
            let known = |key: Seq<char>| exists|i: int| 0 <= i < ps.len() && (#[trigger] ps[i]).0 == key;
            parsed(desktop_text(ps), stem) is Some <==> known("Name"@) && known("Exec"@) && !set(
                "NoDisplay"@,
            ) && !set("Hidden"@) && !set("Terminal"@)
        }),
        parsed(desktop_text(ps), stem) matches Some(e) ==> {
            &&& e.id == stem
            &&& e.icon_path is None
            &&& forall|i: int|
                0 <= i < ps.len() && (forall|j: int| 0 <= j < i ==> (#[trigger] ps[j]).0 != ps[i].0)
                    ==> {
                    &&& (#[trigger] ps[i]).0 == "Name"@ ==> e.name == ps[i].1
                    &&& ps[i].0 == "Exec"@ ==> e.exec_line == ps[i].1
                    &&& ps[i].0 == "Comment"@ ==> e.comment == Some(ps[i].1)
                    &&& ps[i].0 == "Icon"@ && ps[i].1.len() > 0 ==> e.icon_name == Some(ps[i].1)
                }
            &&& e.comment is Some ==> exists|i: int|
                0 <= i < ps.len() && (#[trigger] ps[i]) == ("Comment"@, e.comment->0)
            &&& e.icon_name is Some ==> exists|i: int|
                0 <= i < ps.len() && (#[trigger] ps[i]) == ("Icon"@, e.icon_name->0)
            &&& e.icon_name is None ==> forall|i: int|
                0 <= i < ps.len() ==> (#[trigger] ps[i]).0 != "Icon"@ || ps[i].1.len() == 0
        },
{
    let f = |p: (Seq<char>, Seq<char>)| p.0 + seq!['='] + p.1;
    let head = "[Desktop Entry]"@;
    reveal_strlit("[Desktop Entry]");
    lemma_written_lines(ps);
    lemma_written_pairs(ps);
    assert(!head.contains('\n'));
    law_lines(head, written(ps));
    assert(pairs(lines(desktop_text(ps))) == ps);
    law_first_and_last_values(ps, "Name"@);
    law_first_and_last_values(ps, "Exec"@);
    law_first_and_last_values(ps, "Comment"@);
    law_first_and_last_values(ps, "Icon"@);
    law_first_and_last_values(ps, "NoDisplay"@);
    law_first_and_last_values(ps, "Hidden"@);
    law_first_and_last_values(ps, "Terminal"@);
}

} // verus!
