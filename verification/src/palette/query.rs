//! Queries for full-text search.
//!
//! Punctuation has a meaning in the language of such queries, so it is taken out;
//! every word is looked for as the beginning of a word.

use vstd::prelude::*;

use crate::cuts::{law_trimming, tight};
use crate::remote::runner::{lemma_words_of_join, one_word};
use crate::stdtext::{alphanumeric, is_alphanumeric};
use crate::text;
use crate::text::{is_white, join, rows, trim, words};

verus! {

/// What is kept of a query: letters, numbers and white space.
pub open spec fn kept(query: Seq<char>) -> Seq<char> {
    query.filter(|c: char| alphanumeric(c) || is_white(c))
}

/// The query for a text without punctuation: each word with a star behind it.
/// Nothing where there is no word.
pub open spec fn prefix_terms(plain: Seq<char>) -> Option<Seq<char>> {
    if trim(plain).len() == 0 {
        None
    } else {
        Some(join(words(trim(plain)).map_values(|w: Seq<char>| w + "*"@), " "@))
    }
}

/// The query for a text without punctuation.
pub fn prefix_query(plain: &str) -> (r: Option<String>)
    ensures
        r.deep_view() == prefix_terms(plain@),
{
    let cs = text::chars(plain);
    let cleaned = text::trim_chars(&cs);
    if cleaned.len() == 0 {
        return None;
    }
    let all = text::words_chars(cleaned);
    let ghost wv = rows(all@);
    let ghost terms = wv.map_values(|w: Seq<char>| w + "*"@);
    let mut out: Vec<String> = Vec::new();
    let mut i: usize = 0;
    assert(out.deep_view() =~= terms.take(0));
    while i < all.len()
        invariant
            i <= all@.len(),
            wv == rows(all@),
            terms == wv.map_values(|w: Seq<char>| w + "*"@),
            out.deep_view() == terms.take(i as int),
        decreases all@.len() - i,
    {
        let ghost before = out.deep_view();
        let word = text::string(&all[i]);
        out.push(text::concat2(&word, "*"));
        assert(out.deep_view() =~= before.push(terms[i as int]));
        assert(out.deep_view() =~= terms.take(i + 1));
        i += 1;
    }
    assert(terms.take(i as int) =~= terms);
    Some(text::join_strings(&out, " "))
}

/// The full-text query for what was typed. Nothing where it holds no word: then
/// there is nothing to look for.
pub fn sanitize_query(query: &str) -> (r: Option<String>)
    ensures
        r.deep_view() == prefix_terms(kept(query@)),
{
    let cs = text::chars(query);
    let ghost p = |c: char| alphanumeric(c) || is_white(c);
    let mut plain = String::new();
    let mut i: usize = 0;
    assert(cs@.take(0).filter(p) =~= Seq::empty()) by {
        reveal(Seq::filter);
    }
    assert(plain@ =~= cs@.take(0).filter(p));
    while i < cs.len()
        invariant
            i <= cs@.len(),
            p == (|c: char| alphanumeric(c) || is_white(c)),
            plain@ == cs@.take(i as int).filter(p),
        decreases cs@.len() - i,
    {
        proof {
            assert(cs@.take(i + 1) =~= cs@.take(i as int).push(cs@[i as int]));
            cs@.take(i as int).lemma_filter_push(cs@[i as int], p);
        }
        if is_alphanumeric(cs[i]) || text::white(cs[i]) {
            plain.push(cs[i]);
        }
        i += 1;
    }
    assert(cs@.take(i as int) =~= query@);
    prefix_query(&plain)
}

/// What is searched for: the letters, digits and white space of the query, each of the
/// words as the beginning of one. Without a word nothing is searched for.
pub proof fn law_words_are_beginnings(query: Seq<char>, ws: Seq<Seq<char>>)
    requires
        forall|i: int| 0 <= i < ws.len() ==> one_word(#[trigger] ws[i]),
    ensures
        kept(query).len() <= query.len(),
        forall|i: int| 0 <= i < kept(query).len() ==> alphanumeric(#[trigger] kept(query)[i]) || is_white(
            kept(query)[i],
        ),
        forall|i: int|
            0 <= i < query.len() && (alphanumeric(#[trigger] query[i]) || is_white(query[i])) ==> kept(
                query,
            ).contains(query[i]),
        ws.len() == 0 ==> prefix_terms(join(ws, " "@)) is None,
        ws.len() > 0 ==> prefix_terms(join(ws, " "@)) == Some(
            join(ws.map_values(|w: Seq<char>| w.push('*')), " "@),
        ),
{
    let f = |c: char| alphanumeric(c) || is_white(c);
    query.lemma_filter_len(f);
    assert forall|i: int| 0 <= i < kept(query).len() implies alphanumeric(#[trigger] kept(query)[i])
        || is_white(kept(query)[i]) by {
        query.lemma_filter_pred(f, i);
    }
    assert forall|i: int|
        0 <= i < query.len() && (alphanumeric(#[trigger] query[i]) || is_white(
            query[i],
        )) implies kept(query).contains(query[i]) by {
        query.lemma_filter_contains(f, i);
    }
    lemma_words_of_join(ws);
    let s = join(ws, " "@);
    lemma_join_tight(ws);
    let none = Seq::<char>::empty();
    assert(none + s + none =~= s);
    law_trimming(none, s, none);
    reveal_strlit("*");
    assert(ws.map_values(|w: Seq<char>| w + "*"@) =~= ws.map_values(|w: Seq<char>| w.push('*'))) by {
        assert forall|i: int| 0 <= i < ws.len() implies ws[i] + "*"@ =~= #[trigger] ws[i].push('*') by {}
    }
}

proof fn lemma_join_tight(ws: Seq<Seq<char>>)
    requires
        forall|i: int| 0 <= i < ws.len() ==> one_word(#[trigger] ws[i]),
    ensures
        tight(join(ws, " "@)),
        join(ws, " "@).len() > 0 <==> ws.len() > 0,
    decreases ws.len(),
{
    if ws.len() > 0 {
        let s = join(ws, " "@);
        let n = ws.len() - 1;
        assert(one_word(ws[0]));
        assert(one_word(ws[n]));
        if ws.len() > 1 {
            let front = ws.drop_last();
            assert forall|i: int| 0 <= i < front.len() implies one_word(#[trigger] front[i]) by {
                assert(front[i] == ws[i]);
            }
            lemma_join_tight(front);
            assert(s[0] == join(front, " "@)[0]);
            assert(s[s.len() - 1] == ws[n][ws[n].len() - 1]);
        }
    }
}

} // verus!
