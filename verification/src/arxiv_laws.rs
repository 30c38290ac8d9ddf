//! What a feed of papers says reads back.

use vstd::prelude::*;

use crate::arxiv_watch::{
    acted, element, fresh, last_of, paper_of, papers_in, papers_of, polled, query_text, seen_file,
    terms, unescaped, with_ids, PaperView, WatchStepView, WatchView,
};
use crate::cuts::{lemma_find_behind, lemma_find_nothing};
use crate::remote::runner::{lemma_words_of_join, one_word};
use crate::text::{find, join, lemma_find_from, occurs_at, pieces_after, replace, trim, words};

verus! {

/// A paper as a feed writes it. The gaps are what stands between its elements.
pub struct Written {
    pub id: Seq<char>,
    pub title: Seq<char>,
    pub summary: Seq<char>,
    pub published: Seq<char>,
    pub gaps: (Seq<char>, Seq<char>, Seq<char>, Seq<char>, Seq<char>),
}

/// Whether nothing in a paper looks like a tag.
pub open spec fn plain(w: Written) -> bool {
    &&& !w.id.contains('<')
    &&& !w.title.contains('<')
    &&& !w.summary.contains('<')
    &&& !w.published.contains('<')
    &&& !w.gaps.0.contains('<')
    &&& !w.gaps.1.contains('<')
    &&& !w.gaps.2.contains('<')
    &&& !w.gaps.3.contains('<')
    &&& !w.gaps.4.contains('<')
}

/// The elements of a paper.
pub open spec fn elements(w: Written) -> Seq<char> {
    w.gaps.0 + "<id>"@ + w.id + "</id>"@ + w.gaps.1 + "<title>"@ + w.title + "</title>"@ + w.gaps.2
        + "<summary>"@ + w.summary + "</summary>"@ + w.gaps.3 + "<published>"@ + w.published
        + "</published>"@ + w.gaps.4
}

/// A feed: the papers as entries, one after the other.
pub open spec fn feed(ws: Seq<Written>, tail: Seq<char>) -> Seq<char>
    decreases ws.len(),
{
    if ws.len() == 0 {
        tail
    } else {
        "<entry>"@ + (elements(ws[0]) + "</entry>"@) + feed(ws.drop_first(), tail)
    }
}

/// Whether a text holds no tag that begins as a given one does.
pub open spec fn without(s: Seq<char>, next: char) -> bool {
    &&& forall|i: int| 0 <= i < s.len() - 1 && #[trigger] s[i] == '<' ==> s[i + 1] != next
    &&& s.len() > 0 ==> s.last() != '<'
}

proof fn lemma_without_add(a: Seq<char>, b: Seq<char>, next: char)
    requires
        without(a, next),
        without(b, next),
    ensures
        without(a + b, next),
{
    let s = a + b;
    assert forall|i: int| 0 <= i < s.len() - 1 && #[trigger] s[i] == '<' implies s[i + 1] != next by {
        if i < a.len() {
            assert(a[i] == '<');
            if i == a.len() - 1 {
                assert(a.last() == '<');
            } else {
                assert(s[i + 1] == a[i + 1]);
            }
        } else {
            assert(b[i - a.len()] == '<');
            assert(s[i + 1] == b[i + 1 - a.len()]);
        }
    }
    if b.len() == 0 {
        assert(s =~= a);
    } else {
        assert(s.last() == b.last());
    }
}

proof fn lemma_without_tags(s: Seq<char>, next: char)
    requires
        !s.contains('<'),
    ensures
        without(s, next),
{
    assert forall|i: int| 0 <= i < s.len() implies #[trigger] s[i] != '<' by {
        if s[i] == '<' {
            assert(s.contains('<'));
        }
    }
    if s.len() > 0 {
        assert(s[s.len() - 1] != '<');
    }
}

/// A tag is found behind a text that holds none that begins so.
proof fn lemma_find_tag(a: Seq<char>, pat: Seq<char>, b: Seq<char>)
    requires
        pat.len() > 1,
        pat[0] == '<',
        without(a, pat[1]),
    ensures
        find(a + pat + b, pat) == Some(a.len() as int),
{
    let s = a + pat + b;
    let n = a.len() as int;
    let there = s.subrange(n, n + pat.len());
    assert(there =~= pat);
    lemma_find_from(s, pat, 0);
    assert(occurs_at(s, pat, n));
    let i = find(s, pat)->0;
    assert(0 <= i <= n);
    if i < n {
        let found = s.subrange(i, i + pat.len());
        assert(found == pat);
        assert(found[0] == s[i] && found[1] == s[i + 1]);
        assert(a[i] == '<');
        if i == n - 1 {
            assert(a.last() == '<');
        } else {
            assert(s[i + 1] == a[i + 1]);
        }
    }
}

/// No such tag is found in a text that holds none that begins so.
proof fn lemma_find_no_tag(s: Seq<char>, pat: Seq<char>)
    requires
        pat.len() > 1,
        pat[0] == '<',
        without(s, pat[1]),
    ensures
        find(s, pat) is None,
{
    lemma_find_from(s, pat, 0);
    if find(s, pat) is Some {
        let i = find(s, pat)->0;
        let found = s.subrange(i, i + pat.len());
        assert(found[0] == s[i] && found[1] == s[i + 1]);
    }
}

/// The element behind a text.
proof fn lemma_element(
    a: Seq<char>,
    name: Seq<char>,
    open: Seq<char>,
    body: Seq<char>,
    close: Seq<char>,
    b: Seq<char>,
)
    requires
        name.len() > 0,
        open == "<"@ + name + ">"@,
        close == "</"@ + name + ">"@,
        without(a, name[0]),
        !body.contains('<'),
    ensures
        element(a + open + body + close + b, name) == Some(body),
{
    reveal_strlit("<");
    reveal_strlit("</");
    reveal_strlit(">");
    assert(open[0] == '<' && open[1] == name[0]);
    assert(close[0] == '<');
    let behind = body + close + b;
    let block = a + open + body + close + b;
    assert(block =~= a + open + behind);
    lemma_find_tag(a, open, behind);
    assert(block.skip(a.len() as int + open.len()) =~= behind);
    lemma_find_behind(body, close, b);
    assert(behind.take(body.len() as int) =~= body);
}

/// What stands before each element of a paper.
proof fn lemma_before(w: Written, next: char)
    requires
        plain(w),
    ensures
        ({
            let g0 = w.gaps.0;
            let a1 = g0 + "<id>"@ + w.id + "</id>"@ + w.gaps.1;
            let a2 = a1 + "<title>"@ + w.title + "</title>"@ + w.gaps.2;
            let a3 = a2 + "<summary>"@ + w.summary + "</summary>"@ + w.gaps.3;
            let a4 = a3 + "<published>"@ + w.published + "</published>"@ + w.gaps.4;
            &&& without(g0, next)
            &&& next != 'i' && next != '/' ==> without(a1, next)
            &&& next != 'i' && next != '/' && next != 't' ==> without(a2, next)
            &&& next != 'i' && next != '/' && next != 't' && next != 's' ==> without(a3, next)
            &&& next != 'i' && next != '/' && next != 't' && next != 's' && next != 'p' ==> without(
                a4,
                next,
            )
        }),
{
    let g0 = w.gaps.0;
    let a1 = g0 + "<id>"@ + w.id + "</id>"@ + w.gaps.1;
    let a2 = a1 + "<title>"@ + w.title + "</title>"@ + w.gaps.2;
    let a3 = a2 + "<summary>"@ + w.summary + "</summary>"@ + w.gaps.3;
    reveal_strlit("<id>");
    reveal_strlit("</id>");
    reveal_strlit("<title>");
    reveal_strlit("</title>");
    reveal_strlit("<summary>");
    reveal_strlit("</summary>");
    reveal_strlit("<published>");
    reveal_strlit("</published>");
    lemma_without_tags(g0, next);
    lemma_without_tags(w.gaps.1, next);
    lemma_without_tags(w.gaps.2, next);
    lemma_without_tags(w.gaps.3, next);
    lemma_without_tags(w.gaps.4, next);
    lemma_without_tags(w.id, next);
    lemma_without_tags(w.title, next);
    lemma_without_tags(w.summary, next);
    lemma_without_tags(w.published, next);
    if next != 'i' && next != '/' {
        lemma_without_add(g0, "<id>"@, next);
        lemma_without_add(g0 + "<id>"@, w.id, next);
        lemma_without_add(g0 + "<id>"@ + w.id, "</id>"@, next);
        lemma_without_add(g0 + "<id>"@ + w.id + "</id>"@, w.gaps.1, next);
        if next != 't' {
            lemma_without_add(a1, "<title>"@, next);
            lemma_without_add(a1 + "<title>"@, w.title, next);
            lemma_without_add(a1 + "<title>"@ + w.title, "</title>"@, next);
            lemma_without_add(a1 + "<title>"@ + w.title + "</title>"@, w.gaps.2, next);
            if next != 's' {
                lemma_without_add(a2, "<summary>"@, next);
                lemma_without_add(a2 + "<summary>"@, w.summary, next);
                lemma_without_add(a2 + "<summary>"@ + w.summary, "</summary>"@, next);
                lemma_without_add(a2 + "<summary>"@ + w.summary + "</summary>"@, w.gaps.3, next);
                if next != 'p' {
                    lemma_without_add(a3, "<published>"@, next);
                    lemma_without_add(a3 + "<published>"@, w.published, next);
                    lemma_without_add(a3 + "<published>"@ + w.published, "</published>"@, next);
                    lemma_without_add(
                        a3 + "<published>"@ + w.published + "</published>"@,
                        w.gaps.4,
                        next,
                    );
                }
            }
        }
    }
}

/// Whether a paper is what was written: its identifier and date without the space around
/// them, its title with the entities read, the PDF in the place of the abstract, and of
/// the summary, with the entities read, the first 280 characters, or all where there are
/// no more.
pub open spec fn reads_as(p: PaperView, w: Written) -> bool {
    &&& p.id == trim(w.id)
    &&& p.title == unescaped(w.title)
    &&& p.published == trim(w.published)
    &&& p.url == replace(trim(w.id), "/abs/"@, "/pdf/"@)
    &&& p.summary.len() == (if unescaped(w.summary).len() < 280 {
        unescaped(w.summary).len()
    } else {
        280
    })
    &&& forall|i: int| 0 <= i < p.summary.len() ==> p.summary[i] == #[trigger] unescaped(w.summary)[i]
}

/// The end of an entry is found behind its elements.
proof fn lemma_end_of_entry(w: Written, rest: Seq<char>)
    requires
        plain(w),
    ensures
        find(elements(w) + "</entry>"@ + rest, "</entry>"@) == Some(elements(w).len() as int),
{
    let a = elements(w);
    let pat = "</entry>"@;
    let s = a + pat + rest;
    reveal_strlit("</entry>");
    reveal_strlit("<id>");
    reveal_strlit("</id>");
    reveal_strlit("<title>");
    reveal_strlit("</title>");
    reveal_strlit("<summary>");
    reveal_strlit("</summary>");
    reveal_strlit("<published>");
    reveal_strlit("</published>");
    let n = a.len() as int;
    let there = s.subrange(n, n + pat.len());
    assert(there =~= pat);
    lemma_find_from(s, pat, 0);
    assert(occurs_at(s, pat, n));
    lemma_no_close(w);
    let i = find(s, pat)->0;
    assert(0 <= i <= n);
    if i < n {
        let found = s.subrange(i, i + pat.len());
        assert(found == pat);
        assert(found[0] == s[i] && found[1] == s[i + 1] && found[2] == s[i + 2]);
        assert(a[i] == '<');
        assert(s[i + 1] == a[i + 1]);
        assert(s[i + 2] == a[i + 2]);
    }
}

/// Whether no closing tag in a text begins as that of an entry.
spec fn no_close(s: Seq<char>) -> bool {
    forall|i: int|
        0 <= i < s.len() && #[trigger] s[i] == '<' ==> i + 2 < s.len() && !(s[i + 1] == '/' && s[i + 2]
            == 'e')
}

proof fn lemma_no_close_add(a: Seq<char>, b: Seq<char>)
    requires
        no_close(a),
        no_close(b),
    ensures
        no_close(a + b),
{
    let s = a + b;
    assert forall|i: int| 0 <= i < s.len() && #[trigger] s[i] == '<' implies i + 2 < s.len() && !(s[i
        + 1] == '/' && s[i + 2] == 'e') by {
        if i < a.len() {
            assert(a[i] == '<');
            assert(s[i + 1] == a[i + 1] && s[i + 2] == a[i + 2]);
        } else {
            assert(b[i - a.len()] == '<');
            assert(s[i + 1] == b[i - a.len() + 1] && s[i + 2] == b[i - a.len() + 2]);
        }
    }
}

proof fn lemma_no_close_plain(s: Seq<char>)
    requires
        !s.contains('<'),
    ensures
        no_close(s),
{
    assert forall|i: int| 0 <= i < s.len() implies #[trigger] s[i] != '<' by {
        if s[i] == '<' {
            assert(s.contains('<'));
        }
    }
}

proof fn lemma_no_close(w: Written)
    requires
        plain(w),
    ensures
        no_close(elements(w)),
{
    reveal_strlit("<id>");
    reveal_strlit("</id>");
    reveal_strlit("<title>");
    reveal_strlit("</title>");
    reveal_strlit("<summary>");
    reveal_strlit("</summary>");
    reveal_strlit("<published>");
    reveal_strlit("</published>");
    lemma_no_close_plain(w.gaps.0);
    lemma_no_close_plain(w.gaps.1);
    lemma_no_close_plain(w.gaps.2);
    lemma_no_close_plain(w.gaps.3);
    lemma_no_close_plain(w.gaps.4);
    lemma_no_close_plain(w.id);
    lemma_no_close_plain(w.title);
    lemma_no_close_plain(w.summary);
    lemma_no_close_plain(w.published);
    let s0 = w.gaps.0;
    lemma_no_close_add(s0, "<id>"@);
    let s1 = s0 + "<id>"@;
    lemma_no_close_add(s1, w.id);
    let s2 = s1 + w.id;
    lemma_no_close_add(s2, "</id>"@);
    let s3 = s2 + "</id>"@;
    lemma_no_close_add(s3, w.gaps.1);
    let s4 = s3 + w.gaps.1;
    lemma_no_close_add(s4, "<title>"@);
    let s5 = s4 + "<title>"@;
    lemma_no_close_add(s5, w.title);
    let s6 = s5 + w.title;
    lemma_no_close_add(s6, "</title>"@);
    let s7 = s6 + "</title>"@;
    lemma_no_close_add(s7, w.gaps.2);
    let s8 = s7 + w.gaps.2;
    lemma_no_close_add(s8, "<summary>"@);
    let s9 = s8 + "<summary>"@;
    lemma_no_close_add(s9, w.summary);
    let s10 = s9 + w.summary;
    lemma_no_close_add(s10, "</summary>"@);
    let s11 = s10 + "</summary>"@;
    lemma_no_close_add(s11, w.gaps.3);
    let s12 = s11 + w.gaps.3;
    lemma_no_close_add(s12, "<published>"@);
    let s13 = s12 + "<published>"@;
    lemma_no_close_add(s13, w.published);
    let s14 = s13 + w.published;
    lemma_no_close_add(s14, "</published>"@);
    lemma_no_close_add(s14 + "</published>"@, w.gaps.4);
}

/// An entry reads back as the paper that was written.
pub proof fn law_entries_read_back(w: Written, rest: Seq<char>)
    requires
        plain(w),
    ensures
        paper_of(elements(w) + "</entry>"@ + rest) matches Some(p) && reads_as(p, w),
{
    let block = elements(w);
    let chunk = block + "</entry>"@ + rest;
    lemma_end_of_entry(w, rest);
    assert(chunk.take(block.len() as int) =~= block);
    let a1 = w.gaps.0 + "<id>"@ + w.id + "</id>"@ + w.gaps.1;
    let a2 = a1 + "<title>"@ + w.title + "</title>"@ + w.gaps.2;
    let a3 = a2 + "<summary>"@ + w.summary + "</summary>"@ + w.gaps.3;
    let b3 = w.gaps.4;
    let b2 = w.gaps.3 + "<published>"@ + w.published + "</published>"@ + b3;
    let b1 = w.gaps.2 + "<summary>"@ + w.summary + "</summary>"@ + b2;
    let b0 = w.gaps.1 + "<title>"@ + w.title + "</title>"@ + b1;
    reveal_strlit("<");
    reveal_strlit("</");
    reveal_strlit(">");
    reveal_strlit("id");
    reveal_strlit("title");
    reveal_strlit("summary");
    reveal_strlit("published");
    reveal_strlit("<id>");
    reveal_strlit("</id>");
    reveal_strlit("<title>");
    reveal_strlit("</title>");
    reveal_strlit("<summary>");
    reveal_strlit("</summary>");
    reveal_strlit("<published>");
    reveal_strlit("</published>");
    assert("<id>"@ =~= "<"@ + "id"@ + ">"@);
    assert("</id>"@ =~= "</"@ + "id"@ + ">"@);
    assert("<title>"@ =~= "<"@ + "title"@ + ">"@);
    assert("</title>"@ =~= "</"@ + "title"@ + ">"@);
    assert("<summary>"@ =~= "<"@ + "summary"@ + ">"@);
    assert("</summary>"@ =~= "</"@ + "summary"@ + ">"@);
    assert("<published>"@ =~= "<"@ + "published"@ + ">"@);
    assert("</published>"@ =~= "</"@ + "published"@ + ">"@);
    lemma_before(w, 'i');
    lemma_before(w, 't');
    lemma_before(w, 's');
    lemma_before(w, 'p');
    assert(block =~= w.gaps.0 + "<id>"@ + w.id + "</id>"@ + b0);
    lemma_element(w.gaps.0, "id"@, "<id>"@, w.id, "</id>"@, b0);
    assert(block =~= a1 + "<title>"@ + w.title + "</title>"@ + b1);
    lemma_element(a1, "title"@, "<title>"@, w.title, "</title>"@, b1);
    assert(block =~= a2 + "<summary>"@ + w.summary + "</summary>"@ + b2);
    lemma_element(a2, "summary"@, "<summary>"@, w.summary, "</summary>"@, b2);
    assert(block =~= a3 + "<published>"@ + w.published + "</published>"@ + b3);
    lemma_element(a3, "published"@, "<published>"@, w.published, "</published>"@, b3);
}

/// The pieces of a feed: one for each paper.
proof fn lemma_pieces(a: Seq<char>, ws: Seq<Written>, tail: Seq<char>)
    requires
        without(a, 'e'),
        without(tail, 'e'),
        forall|i: int| 0 <= i < ws.len() ==> plain(#[trigger] ws[i]),
    ensures
        pieces_after(a + feed(ws, tail), "<entry>"@).len() == ws.len(),
        forall|i: int|
            0 <= i < ws.len() ==> pieces_after(a + feed(ws, tail), "<entry>"@)[i] == elements(
                #[trigger] ws[i],
            ) + "</entry>"@ + (if i == ws.len() - 1 {
                tail
            } else {
                Seq::empty()
            }),
    decreases ws.len(),
{
    let pat = "<entry>"@;
    reveal_strlit("<entry>");
    reveal_strlit("</entry>");
    let s = a + feed(ws, tail);
    if ws.len() == 0 {
        lemma_without_add(a, tail, 'e');
        lemma_find_no_tag(s, pat);
    } else {
        let later = ws.drop_first();
        assert forall|i: int| 0 <= i < later.len() implies plain(#[trigger] later[i]) by {
            assert(later[i] == ws[i + 1]);
        }
        assert(plain(ws[0]));
        let entry = elements(ws[0]) + "</entry>"@;
        let rest = entry + feed(later, tail);
        lemma_find_tag(a, pat, rest);
        assert(s =~= a + pat + rest);
        assert(s.skip(a.len() as int + pat.len()) =~= rest);
        lemma_before(ws[0], 'e');
        lemma_without_add(elements(ws[0]), "</entry>"@, 'e');
        lemma_pieces(entry, later, tail);
        let pieces = pieces_after(s, pat);
        let first = pieces[0];
        if later.len() == 0 {
            lemma_without_add(entry, tail, 'e');
            lemma_find_no_tag(rest, pat);
            assert(first =~= entry + tail);
        } else {
            let behind = (elements(later[0]) + "</entry>"@) + feed(later.drop_first(), tail);
            assert(rest =~= entry + pat + behind);
            lemma_find_tag(entry, pat, behind);
            assert(rest.take(entry.len() as int) =~= entry);
            assert(first =~= entry + Seq::<char>::empty());
        }
        assert(pieces =~= seq![first] + pieces_after(rest, pat));
        assert forall|i: int| 0 <= i < ws.len() implies pieces[i] == elements(#[trigger] ws[i])
            + "</entry>"@ + (if i == ws.len() - 1 {
            tail
        } else {
            Seq::empty()
        }) by {
            if i > 0 {
                assert(later[i - 1] == ws[i]);
                assert(pieces[i] == pieces_after(rest, pat)[i - 1]);
            }
        }
    }
}

proof fn lemma_papers(ws: Seq<Written>, chunks: Seq<Seq<char>>, tails: Seq<Seq<char>>)
    requires
        chunks.len() == ws.len(),
        tails.len() == ws.len(),
        forall|i: int| 0 <= i < ws.len() ==> plain(#[trigger] ws[i]),
        forall|i: int|
            0 <= i < ws.len() ==> chunks[i] == elements(#[trigger] ws[i]) + "</entry>"@ + tails[i],
    ensures
        papers_of(chunks).len() == ws.len(),
        forall|i: int| 0 <= i < ws.len() ==> reads_as(papers_of(chunks)[i], #[trigger] ws[i]),
    decreases ws.len(),
{
    if ws.len() > 0 {
        let n = ws.len() - 1;
        let front = ws.drop_last();
        assert forall|i: int| 0 <= i < front.len() implies plain(#[trigger] front[i])
            && chunks.drop_last()[i] == elements(front[i]) + "</entry>"@ + tails.drop_last()[i] by {
            assert(front[i] == ws[i]);
        }
        lemma_papers(front, chunks.drop_last(), tails.drop_last());
        assert(plain(ws[n]));
        law_entries_read_back(ws[n], tails[n]);
        let before = papers_of(chunks.drop_last());
        assert(papers_of(chunks) == before.push(paper_of(chunks.last())->0));
        assert forall|i: int| 0 <= i < ws.len() implies reads_as(
            papers_of(chunks)[i],
            #[trigger] ws[i],
        ) by {
            if i < n {
                assert(front[i] == ws[i]);
            }
        }
    }
}

/// A feed reads back as the papers that were written, each once and in order, whatever
/// stands before and behind the entries.
pub proof fn law_feeds_read_back(head: Seq<char>, ws: Seq<Written>, tail: Seq<char>)
    requires
        without(head, 'e'),
        without(tail, 'e'),
        forall|i: int| 0 <= i < ws.len() ==> plain(#[trigger] ws[i]),
    ensures
        papers_in(head + feed(ws, tail)).len() == ws.len(),
        forall|i: int|
            0 <= i < ws.len() ==> reads_as(papers_in(head + feed(ws, tail))[i], #[trigger] ws[i]),
{
    lemma_pieces(head, ws, tail);
    let tails = Seq::new(
        ws.len(),
        |i: int|
            if i == ws.len() - 1 {
                tail
            } else {
                Seq::<char>::empty()
            },
    );
    lemma_papers(ws, pieces_after(head + feed(ws, tail), "<entry>"@), tails);
}

/// Whatever a feed holds, no summary is longer than 280 characters.
pub proof fn law_summaries_are_short(xml: Seq<char>, i: int)
    requires
        0 <= i < papers_in(xml).len(),
    ensures
        papers_in(xml)[i].summary.len() <= 280,
{
    lemma_short(pieces_after(xml, "<entry>"@), i);
}

proof fn lemma_short(chunks: Seq<Seq<char>>, i: int)
    requires
        0 <= i < papers_of(chunks).len(),
    ensures
        papers_of(chunks)[i].summary.len() <= 280,
    decreases chunks.len(),
{
    let before = papers_of(chunks.drop_last());
    if i < before.len() {
        lemma_short(chunks.drop_last(), i);
    }
}

// ---------------------------------------------------------------------------
// Entities
// ---------------------------------------------------------------------------

/// A pattern that differs from what stands at the only ampersand is not found.
proof fn lemma_other_entity(a: Seq<char>, there: Seq<char>, b: Seq<char>, pat: Seq<char>, j: int)
    requires
        !a.contains('&'),
        !b.contains('&'),
        0 < j < pat.len(),
        j < there.len(),
        pat[0] == '&',
        pat[j] != there[j],
        forall|k: int| 0 < k < there.len() ==> there[k] != '&',
    ensures
        find(a + there + b, pat) is None,
{
    let s = a + there + b;
    lemma_find_from(s, pat, 0);
    if find(s, pat) is Some {
        let i = find(s, pat)->0;
        let found = s.subrange(i, i + pat.len());
        assert(found == pat);
        assert(found[0] == s[i] && found[j] == s[i + j]);
        if i < a.len() {
            assert(a[i] == '&');
        } else if i == a.len() {
            assert(s[i + j] == there[j]);
        } else if i < a.len() + there.len() {
            assert(s[i] == there[i - a.len()]);
        } else {
            assert(b[i - a.len() - there.len()] == '&');
        }
    }
}

/// An entity is replaced where it is the only one.
proof fn lemma_the_entity(a: Seq<char>, pat: Seq<char>, b: Seq<char>, with: Seq<char>)
    requires
        !a.contains('&'),
        !b.contains('&'),
        pat.len() > 0,
        pat[0] == '&',
    ensures
        replace(a + pat + b, pat, with) == a + with + b,
{
    let s = a + pat + b;
    lemma_find_behind(a, pat, b);
    assert(s.take(a.len() as int) =~= a);
    assert(s.skip(a.len() as int + pat.len()) =~= b);
    lemma_find_nothing(b, pat);
    assert(replace(b, pat, with) == b);
    let n = a.len() as int;
    assert(find(s, pat) == Some(n));
    assert(replace(s, pat, with) == s.take(n) + with + replace(
        s.skip(n + pat.len()),
        pat,
        with,
    ));
}

proof fn lemma_no_more(s: Seq<char>)
    requires
        !s.contains('&'),
    ensures
        replace(s, "&amp;"@, "&"@) == s,
        replace(s, "&lt;"@, "<"@) == s,
        replace(s, "&gt;"@, ">"@) == s,
        replace(s, "&quot;"@, "\""@) == s,
        replace(s, "&#39;"@, "'"@) == s,
        replace(s, "&apos;"@, "'"@) == s,
{
    reveal_strlit("&amp;");
    reveal_strlit("&lt;");
    reveal_strlit("&gt;");
    reveal_strlit("&quot;");
    reveal_strlit("&#39;");
    reveal_strlit("&apos;");
    lemma_find_nothing(s, "&amp;"@);
    lemma_find_nothing(s, "&lt;"@);
    lemma_find_nothing(s, "&gt;"@);
    lemma_find_nothing(s, "&quot;"@);
    lemma_find_nothing(s, "&#39;"@);
    lemma_find_nothing(s, "&apos;"@);
}

proof fn lemma_none_in(a: Seq<char>, m: Seq<char>, b: Seq<char>)
    requires
        !a.contains('&'),
        !m.contains('&'),
        !b.contains('&'),
    ensures
        !(a + m + b).contains('&'),
{
    let s = a + m + b;
    if s.contains('&') {
        let i = choose|i: int| 0 <= i < s.len() && s[i] == '&';
        if i < a.len() {
            assert(a[i] == '&');
        } else if i < a.len() + m.len() {
            assert(m[i - a.len()] == '&');
        } else {
            assert(b[i - a.len() - m.len()] == '&');
        }
    }
}

/// A text without an ampersand keeps its words; between each two there is one space.
pub proof fn law_plain_texts_keep_their_words(s: Seq<char>)
    requires
        !s.contains('&'),
    ensures
        unescaped(s) == join(words(s), " "@),
{
    lemma_no_more(s);
}

/// Each of the entities stands for its character.
pub proof fn law_entities_stand_for_characters(a: Seq<char>, b: Seq<char>)
    requires
        !a.contains('&'),
        !b.contains('&'),
    ensures
        unescaped(a + "&lt;"@ + b) == unescaped(a + "<"@ + b),
        unescaped(a + "&gt;"@ + b) == unescaped(a + ">"@ + b),
        unescaped(a + "&quot;"@ + b) == unescaped(a + "\""@ + b),
        unescaped(a + "&#39;"@ + b) == unescaped(a + "'"@ + b),
        unescaped(a + "&apos;"@ + b) == unescaped(a + "'"@ + b),
        b.len() == 0 || b[0] == ' ' ==> unescaped(a + "&amp;"@ + b) == join(
            words(a + "&"@ + b),
            " "@,
        ),
{
    reveal_strlit("&amp;");
    reveal_strlit("&lt;");
    reveal_strlit("&gt;");
    reveal_strlit("&quot;");
    reveal_strlit("&#39;");
    reveal_strlit("&apos;");
    reveal_strlit("&");
    reveal_strlit("<");
    reveal_strlit(">");
    reveal_strlit("\"");
    reveal_strlit("'");
    lemma_none_in(a, "<"@, b);
    lemma_none_in(a, ">"@, b);
    lemma_none_in(a, "\""@, b);
    lemma_none_in(a, "'"@, b);
    lemma_no_more(a + "<"@ + b);
    lemma_no_more(a + ">"@ + b);
    lemma_no_more(a + "\""@ + b);
    lemma_no_more(a + "'"@ + b);
    lemma_other_entity(a, "&lt;"@, b, "&amp;"@, 1);
    lemma_the_entity(a, "&lt;"@, b, "<"@);
    lemma_other_entity(a, "&gt;"@, b, "&amp;"@, 1);
    lemma_other_entity(a, "&gt;"@, b, "&lt;"@, 1);
    lemma_the_entity(a, "&gt;"@, b, ">"@);
    lemma_other_entity(a, "&quot;"@, b, "&amp;"@, 1);
    lemma_other_entity(a, "&quot;"@, b, "&lt;"@, 1);
    lemma_other_entity(a, "&quot;"@, b, "&gt;"@, 1);
    lemma_the_entity(a, "&quot;"@, b, "\""@);
    lemma_other_entity(a, "&#39;"@, b, "&amp;"@, 1);
    lemma_other_entity(a, "&#39;"@, b, "&lt;"@, 1);
    lemma_other_entity(a, "&#39;"@, b, "&gt;"@, 1);
    lemma_other_entity(a, "&#39;"@, b, "&quot;"@, 1);
    lemma_the_entity(a, "&#39;"@, b, "'"@);
    lemma_other_entity(a, "&apos;"@, b, "&amp;"@, 2);
    lemma_other_entity(a, "&apos;"@, b, "&lt;"@, 1);
    lemma_other_entity(a, "&apos;"@, b, "&gt;"@, 1);
    lemma_other_entity(a, "&apos;"@, b, "&quot;"@, 1);
    lemma_other_entity(a, "&apos;"@, b, "&#39;"@, 1);
    lemma_the_entity(a, "&apos;"@, b, "'"@);
    lemma_the_entity(a, "&amp;"@, b, "&"@);
    if b.len() == 0 || b[0] == ' ' {
        lemma_lone(a, b, "&lt;"@);
        lemma_lone(a, b, "&gt;"@);
        lemma_lone(a, b, "&quot;"@);
        lemma_lone(a, b, "&#39;"@);
        lemma_lone(a, b, "&apos;"@);
    }
}

/// An ampersand before a space begins no entity.
proof fn lemma_lone(a: Seq<char>, b: Seq<char>, pat: Seq<char>)
    requires
        !a.contains('&'),
        !b.contains('&'),
        b.len() == 0 || b[0] == ' ',
        pat.len() > 1,
        pat[0] == '&',
        pat[1] != ' ',
    ensures
        find(a + "&"@ + b, pat) is None,
{
    reveal_strlit("&");
    let s = a + "&"@ + b;
    lemma_find_from(s, pat, 0);
    if find(s, pat) is Some {
        let i = find(s, pat)->0;
        let found = s.subrange(i, i + pat.len());
        assert(found == pat);
        assert(found[0] == s[i] && found[1] == s[i + 1]);
        if i < a.len() {
            assert(a[i] == '&');
        } else if i > a.len() {
            assert(b[i - a.len() - 1] == '&');
        } else {
            assert(s[i + 1] == b[0]);
        }
    }
}

/// A text whose words have one space between each two, and that holds no ampersand,
/// is read as it is.
pub proof fn law_tidy_texts_stay(ws: Seq<Seq<char>>)
    requires
        forall|i: int| 0 <= i < ws.len() ==> one_word(#[trigger] ws[i]),
        !join(ws, " "@).contains('&'),
    ensures
        unescaped(join(ws, " "@)) == join(ws, " "@),
{
    lemma_words_of_join(ws);
    law_plain_texts_keep_their_words(join(ws, " "@));
}

// ---------------------------------------------------------------------------
// What is new
// ---------------------------------------------------------------------------

/// Every paper of a feed that was not seen is new, in the order of the feed, and no other;
/// from then on it was seen. The new ones are shown, and where there are none, those that
/// were shown stay.
pub proof fn law_unseen_papers_are_shown(s: WatchView, xml: Seq<char>, p: PaperView)
    ensures
        fresh(papers_in(xml), s.seen).contains(p) <==> papers_in(xml).contains(p) && !s.seen.contains(
            p.id,
        ),
        fresh(papers_in(xml), s.seen) == papers_in(xml).filter(
            |x: PaperView| !s.seen.contains(x.id),
        ),
        fresh(papers_in(xml), s.seen).len() > 0 ==> polled(s, xml).last_new == fresh(
            papers_in(xml),
            s.seen,
        ),
        fresh(papers_in(xml), s.seen).len() == 0 ==> polled(s, xml).last_new == s.last_new,
        forall|x: Seq<char>| #[trigger]
            polled(s, xml).seen.contains(x) <==> s.seen.contains(x) || exists|i: int|
                0 <= i < papers_in(xml).len() && (#[trigger] papers_in(xml)[i]).id == x,
{
    let all = papers_in(xml);
    let f = |x: PaperView| !s.seen.contains(x.id);
    let news = all.filter(f);
    if news.contains(p) {
        let k = choose|k: int| 0 <= k < news.len() && news[k] == p;
        all.lemma_filter_pred(f, k);
        all.lemma_filter_contains_rev(f, p);
    }
    if all.contains(p) && !s.seen.contains(p.id) {
        let k = choose|k: int| 0 <= k < all.len() && all[k] == p;
        all.lemma_filter_contains(f, k);
    }
    assert forall|x: Seq<char>| #[trigger] polled(s, xml).seen.contains(x) <==> s.seen.contains(x)
        || exists|i: int| 0 <= i < all.len() && (#[trigger] all[i]).id == x by {
        lemma_with_ids(s.seen, news, x);
        if polled(s, xml).seen.contains(x) && !s.seen.contains(x) {
            let k = choose|k: int| 0 <= k < news.len() && (#[trigger] news[k]).id == x;
            assert(news.contains(news[k]));
            all.lemma_filter_contains_rev(f, news[k]);
            let i = choose|i: int| 0 <= i < all.len() && all[i] == news[k];
            assert(all[i].id == x);
        }
        if exists|i: int| 0 <= i < all.len() && (#[trigger] all[i]).id == x {
            let i = choose|i: int| 0 <= i < all.len() && (#[trigger] all[i]).id == x;
            if !s.seen.contains(x) {
                all.lemma_filter_contains(f, i);
                let k = choose|k: int| 0 <= k < news.len() && news[k] == all[i];
                assert(news[k].id == x);
            }
        }
    }
}

proof fn lemma_with_ids(seen: Seq<Seq<char>>, papers: Seq<PaperView>, x: Seq<char>)
    ensures
        with_ids(seen, papers).contains(x) <==> seen.contains(x) || exists|k: int|
            0 <= k < papers.len() && (#[trigger] papers[k]).id == x,
    decreases papers.len(),
{
    if papers.len() > 0 {
        let front = papers.drop_last();
        let before = with_ids(seen, front);
        let id = papers.last().id;
        lemma_with_ids(seen, front, x);
        assert(papers[papers.len() - 1].id == id);
        let after = with_ids(seen, papers);
        if !before.contains(id) {
            assert(after == before.push(id));
            if before.contains(x) {
                let k = choose|k: int| 0 <= k < before.len() && before[k] == x;
                assert(after[k] == x);
            }
            assert(after[before.len() as int] == id);
            if after.contains(x) && x != id {
                let k = choose|k: int| 0 <= k < after.len() && after[k] == x;
                assert(before[k] == x);
            }
        }
        if exists|k: int| 0 <= k < front.len() && (#[trigger] front[k]).id == x {
            let k = choose|k: int| 0 <= k < front.len() && (#[trigger] front[k]).id == x;
            assert(papers[k].id == x);
        }
        if exists|k: int| 0 <= k < papers.len() && (#[trigger] papers[k]).id == x {
            let k = choose|k: int| 0 <= k < papers.len() && (#[trigger] papers[k]).id == x;
            if k < front.len() {
                assert(front[k].id == x);
            }
        }
    }
}

/// A click opens the paper that it names, and changes nothing; acknowledging clears what is
/// shown, but not what was seen. Of what was seen the last two thousand are kept.
pub proof fn law_clicks_on_papers(s: WatchView, action: Seq<char>, url: Option<Seq<char>>)
    ensures
        action == "open"@ ==> acted(s, action, url).0 == s && acted(s, action, url).1 == (
        if url is Some {
            WatchStepView::Open(url->0)
        } else {
            WatchStepView::Ignore
        }),
        action == "ack"@ ==> acted(s, action, url).0.seen == s.seen && acted(
            s,
            action,
            url,
        ).0.last_new.len() == 0 && acted(s, action, url).1 == WatchStepView::Publish,
        action != "open"@ && action != "ack"@ ==> acted(s, action, url).0 == s && acted(
            s,
            action,
            url,
        ).1 == WatchStepView::Ignore,
        forall|i: int|
            0 <= i < last_of(s.seen, 2000).len() ==> #[trigger] last_of(s.seen, 2000)[i] == s.seen[
            s.seen.len() - last_of(s.seen, 2000).len() + i],
        last_of(s.seen, 2000).len() == (if s.seen.len() < 2000 {
            s.seen.len()
        } else {
            2000
        }),
{
    reveal_strlit("open");
    reveal_strlit("ack");
    assert("open"@.len() == 4 && "ack"@.len() == 3);
}

/// What is asked for: each keyword anywhere and each author as one, in quotes and with plus
/// signs for spaces, any of them.
pub proof fn law_watched_terms(keywords: Seq<Seq<char>>, authors: Seq<Seq<char>>)
    ensures
        terms(keywords, authors).len() == keywords.len() + authors.len(),
        forall|i: int|
            0 <= i < keywords.len() ==> #[trigger] terms(keywords, authors)[i] == "all:"@ + ("%22"@
                + replace(trim(keywords[i]), " "@, "+"@) + "%22"@),
        forall|i: int|
            0 <= i < authors.len() ==> #[trigger] terms(keywords, authors)[keywords.len() + i]
                == "au:"@ + ("%22"@ + replace(trim(authors[i]), " "@, "+"@) + "%22"@),
        query_text(keywords, authors) == join(terms(keywords, authors), "+OR+"@),
{
}

/// What was seen is kept below the directory for state, else below the home directory, else
/// below the one for temporary files.
pub proof fn law_where_seen_papers_are_kept(
    base: Seq<char>,
    home: Option<Seq<char>>,
    temp: Seq<char>,
)
    requires
        base.len() > 0,
        base.last() != '/',
    ensures
        seen_file(Some(base), home, temp) == base + "/levshell/arxiv_seen.json"@,
        seen_file(None, Some(base), temp) == base + "/.local/state/levshell/arxiv_seen.json"@,
        seen_file(None, None, base) == base + "/levshell/arxiv_seen.json"@,
{
    reveal_strlit("levshell");
    reveal_strlit("arxiv_seen.json");
    reveal_strlit(".local/state");
    reveal_strlit("/levshell/arxiv_seen.json");
    reveal_strlit("/.local/state/levshell/arxiv_seen.json");
    assert(seen_file(Some(base), home, temp) =~= base + "/levshell/arxiv_seen.json"@);
    assert(seen_file(None, Some(base), temp) =~= base + "/.local/state/levshell/arxiv_seen.json"@);
    assert(seen_file(None, None, base) =~= base + "/levshell/arxiv_seen.json"@);
}

} // verus!
