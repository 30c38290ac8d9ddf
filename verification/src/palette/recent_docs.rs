//! Documents that were opened recently.
//!
//! The desktop keeps them in a file of bookmarks. Of each bookmark two attributes
//! are read: what it points to, and when that was changed.

use vstd::arithmetic::power2::{lemma2_to64, lemma2_to64_rest};
use vstd::prelude::*;
use vstd::slice::slice_subrange;
use vstd::utf8::{
    char_u32_cast, decode_utf8, encode_scalar, encode_utf8, encode_utf8_decode_utf8,
    encode_utf8_valid_utf8, valid_utf8,
};

use super::provider::{at_most, ItemView, PaletteItem, ProviderError};
use super::score::{clamped, near};
use crate::cuts::{law_places_of_a_character, lemma_find_behind, lemma_index_behind};
use crate::order::{
    law_sorting, lemma_lex_total, lemma_lex_trans, lex_le, lex_lt, sort, sort_by, str_lt,
};
use crate::paths::{file_name, file_name_of, joined, parent_dir, parent_of, path_join};
use crate::stdtext::{from_utf8_lossy, lowercase, to_lowercase, utf8_lossy};
use crate::text;
use crate::text::{find, has, index_of, pieces_after, starts_with, trim};
use crate::utf8::{lemma_ascii_char, lemma_encoded, lemma_encoded_add, lemma_encoded_char};

verus! {

/// The name of the provider.
pub const RECENT_DOCS_PROVIDER: &'static str = "recent-docs";

/// How many documents are shown at most.
pub const MAX_RESULTS: usize = 12;

// ---------------------------------------------------------------------------
// Percent encoding
// ---------------------------------------------------------------------------

/// The value of a hexadecimal digit.
pub open spec fn hex_value(b: u8) -> Option<int> {
    if 0x30 <= b <= 0x39 {
        Some(b - 0x30)
    } else if 0x41 <= b <= 0x46 {
        Some(b - 0x41 + 10)
    } else if 0x61 <= b <= 0x66 {
        Some(b - 0x61 + 10)
    } else {
        None
    }
}

/// The byte that two characters stand for: two hexadecimal digits, or a plus sign
/// and one.
pub open spec fn pair_value(a: u8, b: u8) -> Option<u8> {
    match (hex_value(a), hex_value(b)) {
        (Some(x), Some(y)) => Some((16 * x + y) as u8),
        (None, Some(y)) if a == 0x2B => Some(y as u8),
        _ => None,
    }
}

/// The bytes that a percent-encoded text stands for. A percent sign that no byte
/// follows stands for itself.
pub open spec fn decoded(b: Seq<u8>) -> Seq<u8>
    decreases b.len(),
{
    if b.len() == 0 {
        Seq::empty()
    } else if b[0] == 0x25 && b.len() > 2 && pair_value(b[1], b[2]) is Some {
        seq![pair_value(b[1], b[2])->0] + decoded(b.skip(3))
    } else {
        seq![b[0]] + decoded(b.skip(1))
    }
}

fn hex_of(b: u8) -> (r: Option<u8>)
    ensures
        match (r, hex_value(b)) {
            (Some(x), Some(y)) => x == y && x < 16,
            (None, None) => true,
            _ => false,
        },
{
    if 0x30 <= b && b <= 0x39 {
        Some(b - 0x30)
    } else if 0x41 <= b && b <= 0x46 {
        Some(b - 0x41 + 10)
    } else if 0x61 <= b && b <= 0x66 {
        Some(b - 0x61 + 10)
    } else {
        None
    }
}

fn byte_of(a: u8, b: u8) -> (r: Option<u8>)
    ensures
        r == pair_value(a, b),
{
    match (hex_of(a), hex_of(b)) {
        (Some(x), Some(y)) => Some(16 * x + y),
        (None, Some(y)) => {
            if a == 0x2B {
                Some(y)
            } else {
                None
            }
        },
        _ => None,
    }
}

/// The bytes that a percent-encoded text stands for.
pub fn percent_bytes(s: &str) -> (r: Vec<u8>)
    ensures
        r@ == decoded(encode_utf8(s@)),
{
    let b = s.as_bytes();
    let len: usize = b.len();
    let mut out: Vec<u8> = Vec::new();
    let mut i: usize = 0;
    assert(b@.skip(0) =~= b@);
    assert(out@ + decoded(b@) =~= decoded(b@));
    while i < len
        invariant
            i <= len,
            len == b@.len(),
            out@ + decoded(b@.skip(i as int)) == decoded(b@),
        decreases len - i,
    {
        let ghost rest = b@.skip(i as int);
        let ghost before = out@;
        if b[i] == 0x25 && len - i > 2 {
            if let Some(byte) = byte_of(b[i + 1], b[i + 2]) {
                out.push(byte);
                proof {
                    assert(rest.skip(3) =~= b@.skip(i + 3));
                    assert(out@ + decoded(b@.skip(i + 3)) =~= before + decoded(rest));
                }
                i += 3;
                continue;
            }
        }
        out.push(b[i]);
        proof {
            assert(rest.skip(1) =~= b@.skip(i + 1));
            assert(out@ + decoded(b@.skip(i + 1)) =~= before + decoded(rest));
        }
        i += 1;
    }
    assert(decoded(b@.skip(i as int)) =~= Seq::empty());
    assert(out@ =~= decoded(b@));
    out
}

/// Bytes without a percent sign stand for themselves.
proof fn lemma_plain_bytes(b: Seq<u8>)
    requires
        !b.contains(0x25u8),
    ensures
        decoded(b) == b,
    decreases b.len(),
{
    if b.len() > 0 {
        assert(b[0] != 0x25);
        assert(!b.skip(1).contains(0x25u8)) by {
            if b.skip(1).contains(0x25u8) {
                let k = choose|k: int| 0 <= k < b.skip(1).len() && b.skip(1)[k] == 0x25;
                assert(b[k + 1] == 0x25);
            }
        }
        lemma_plain_bytes(b.skip(1));
        assert(seq![b[0]] + b.skip(1) =~= b);
    } else {
        assert(decoded(b) =~= b);
    }
}

/// The text that a percent-encoded text stands for. A text without a percent sign
/// stands for itself; bytes that are no UTF-8 are replaced.
pub fn percent_decode(s: &str) -> (r: String)
    ensures
        r@ == utf8_lossy(decoded(encode_utf8(s@))),
        valid_utf8(decoded(encode_utf8(s@))) ==> r@ == decode_utf8(decoded(encode_utf8(s@))),
        !s@.contains('%') ==> r@ == s@,
{
    let bytes = percent_bytes(s);
    proof {
        if !s@.contains('%') {
            assert forall|i: int| 0 <= i < s@.len() implies (#[trigger] s@[i]) as u32
                != 0x25u8 as u32 by {
                assert(s@.contains(s@[i]));
                char_u32_cast(s@[i], s@[i] as u32);
            }
            lemma_encoded(s@, 0x25u8);
            lemma_plain_bytes(encode_utf8(s@));
            encode_utf8_valid_utf8(s@);
            encode_utf8_decode_utf8(s@);
        }
    }
    from_utf8_lossy(&bytes)
}

/// Whether a text is an escape of one byte: a percent sign and two hexadecimal
/// digits of either case.
pub open spec fn escapes_byte(form: Seq<char>, b: u8) -> bool {
    &&& form.len() == 3
    &&& form[0] == '%'
    &&& form[1] as u32 <= 0x7F
    &&& form[2] as u32 <= 0x7F
    &&& hex_value(form[1] as u8) is Some
    &&& hex_value(form[2] as u8) is Some
    &&& 16 * hex_value(form[1] as u8)->0 + hex_value(form[2] as u8)->0 == b
}

/// Whether a text is an escape of some bytes, one after the other.
pub open spec fn escapes_bytes(form: Seq<char>, bytes: Seq<u8>) -> bool
    decreases bytes.len(),
{
    if bytes.len() == 0 {
        form.len() == 0
    } else {
        form.len() >= 3 && escapes_byte(form.take(3), bytes[0]) && escapes_bytes(
            form.skip(3),
            bytes.skip(1),
        )
    }
}

/// Whether a text stands for a character: the character itself, unless it is a
/// percent sign, or the escape of its bytes.
pub open spec fn stands_for(form: Seq<char>, c: char) -> bool {
    form == seq![c] && c != '%' || escapes_bytes(form, encode_scalar(c as u32))
}

/// Bytes without a percent sign stand for themselves, whatever follows.
proof fn lemma_plain_prefix(x: Seq<u8>, rest: Seq<u8>)
    requires
        !x.contains(0x25u8),
    ensures
        decoded(x + rest) == x + decoded(rest),
    decreases x.len(),
{
    if x.len() == 0 {
        assert(x + rest =~= rest);
        assert(x + decoded(rest) =~= decoded(rest));
    } else {
        assert(x.contains(x[0]));
        assert(!x.skip(1).contains(0x25u8)) by {
            if x.skip(1).contains(0x25u8) {
                let k = choose|k: int| 0 <= k < x.skip(1).len() && x.skip(1)[k] == 0x25;
                assert(x[k + 1] == 0x25);
            }
        }
        lemma_plain_prefix(x.skip(1), rest);
        assert((x + rest).skip(1) =~= x.skip(1) + rest);
        assert(decoded(x + rest) =~= x + decoded(rest));
    }
}

/// Escaped bytes are read back, whatever follows.
proof fn lemma_escaped_prefix(form: Seq<char>, bytes: Seq<u8>, rest: Seq<u8>)
    requires
        escapes_bytes(form, bytes),
    ensures
        decoded(encode_utf8(form) + rest) == bytes + decoded(rest),
    decreases bytes.len(),
{
    if bytes.len() == 0 {
        assert(encode_utf8(form) + rest =~= rest);
        assert(bytes + decoded(rest) =~= decoded(rest));
    } else {
        let one = form.take(3);
        let more = form.skip(3);
        lemma_escaped_prefix(more, bytes.skip(1), rest);
        assert(one + more =~= form);
        lemma_encoded_add(one, more);
        lemma_ascii_char('%');
        lemma_ascii_char(one[1]);
        lemma_ascii_char(one[2]);
        let triple = seq![0x25u8, one[1] as u8, one[2] as u8];
        assert(encode_utf8(one) =~= triple) by {
            let two = one.drop_first();
            let last = two.drop_first();
            assert(last.drop_first() =~= Seq::<char>::empty());
            assert(encode_utf8(last.drop_first()) =~= Seq::<u8>::empty());
            assert(encode_utf8(last) =~= seq![one[2] as u8]);
            assert(encode_utf8(two) =~= seq![one[1] as u8, one[2] as u8]);
        }
        let all = encode_utf8(form) + rest;
        assert(all =~= triple + (encode_utf8(more) + rest));
        assert(all.skip(3) =~= encode_utf8(more) + rest);
        assert(pair_value(all[1], all[2]) == Some(bytes[0]));
        assert(decoded(all) =~= seq![bytes[0]] + decoded(all.skip(3)));
        assert(decoded(all) =~= bytes + decoded(rest));
    }
}

proof fn lemma_escaped_reads_back(p: Seq<char>, forms: Seq<Seq<char>>)
    requires
        forms.len() == p.len(),
        forall|i: int| 0 <= i < p.len() ==> stands_for(#[trigger] forms[i], p[i]),
    ensures
        decoded(encode_utf8(forms.flatten())) == encode_utf8(p),
    decreases p.len(),
{
    if p.len() == 0 {
        assert(forms.flatten() =~= Seq::empty());
        assert(decoded(encode_utf8(forms.flatten())) =~= encode_utf8(p));
    } else {
        let more = forms.drop_first();
        let rest = p.drop_first();
        assert forall|i: int| 0 <= i < rest.len() implies stands_for(
            #[trigger] more[i],
            rest[i],
        ) by {
            assert(stands_for(forms[i + 1], p[i + 1]));
        }
        lemma_escaped_reads_back(rest, more);
        let form = forms[0];
        let tail = encode_utf8(more.flatten());
        let bytes = encode_scalar(p[0] as u32);
        assert(forms.flatten() == form + more.flatten());
        lemma_encoded_add(form, more.flatten());
        assert(stands_for(forms[0], p[0]));
        if escapes_bytes(form, bytes) {
            lemma_escaped_prefix(form, bytes, tail);
        } else {
            char_u32_cast(p[0], p[0] as u32);
            lemma_encoded_char(p[0], 0x25u8);
            assert(form.drop_first() =~= Seq::<char>::empty());
            assert(encode_utf8(form.drop_first()) =~= Seq::<u8>::empty());
            assert(encode_utf8(form) =~= bytes);
            lemma_plain_prefix(bytes, tail);
        }
        assert(decoded(encode_utf8(forms.flatten())) =~= encode_utf8(p));
    }
}

/// Whichever characters of a text are escaped, as long as its percent signs are,
/// decoding gives the text back.
pub proof fn law_escaped_texts_read_back(p: Seq<char>, forms: Seq<Seq<char>>)
    requires
        forms.len() == p.len(),
        forall|i: int| 0 <= i < p.len() ==> stands_for(#[trigger] forms[i], p[i]),
    ensures
        valid_utf8(decoded(encode_utf8(forms.flatten()))),
        decode_utf8(decoded(encode_utf8(forms.flatten()))) == p,
{
    lemma_escaped_reads_back(p, forms);
    encode_utf8_valid_utf8(p);
    encode_utf8_decode_utf8(p);
}

// ---------------------------------------------------------------------------
// Bookmarks
// ---------------------------------------------------------------------------

/// The value of an attribute in a tag: what stands between the quotes behind its
/// name.
pub open spec fn attribute(tag: Seq<char>, name: Seq<char>) -> Option<Seq<char>> {
    let key = name + "=\""@;
    match find(tag, key) {
        Some(i) => {
            let rest = tag.skip(i + key.len());
            match index_of(rest, '"') {
                Some(j) => Some(rest.take(j)),
                None => None,
            }
        },
        None => None,
    }
}

/// The value of an attribute in a tag.
pub fn attr(tag: &[char], name: &str) -> (r: Option<String>)
    ensures
        r.deep_view() == attribute(tag@, name@),
{
    let key = text::concat2(name, "=\"");
    let pattern = text::chars(&key);
    let len: usize = tag.len();
    match text::find_chars(tag, &pattern) {
        Some(i) => {
            let rest = slice_subrange(tag, i + pattern.len(), len);
            assert(rest@ =~= tag@.skip(i + pattern@.len()));
            match text::index_chars_from(rest, '"', 0) {
                Some(j) => {
                    let value = slice_subrange(rest, 0, j);
                    assert(value@ =~= rest@.take(j as int));
                    Some(text::string(value))
                },
                None => None,
            }
        },
        None => None,
    }
}

/// A document: when it was changed and where it is.
#[derive(Debug, Clone, PartialEq, Eq)]
pub struct RecentDoc {
    /// A time in a form that orders as the times do.
    pub modified: String,
    pub path: String,
}

/// What a [`RecentDoc`] holds.
pub struct DocView {
    pub modified: Seq<char>,
    pub path: Seq<char>,
}

impl DeepView for RecentDoc {
    type V = DocView;

    open spec fn deep_view(&self) -> DocView {
        DocView { modified: self.modified@, path: self.path@ }
    }
}

/// The document of a bookmark, where it points to a file. What stands behind the
/// first `>` is no part of it.
pub open spec fn doc_of(piece: Seq<char>) -> Option<DocView> {
    match index_of(piece, '>') {
        Some(end) => {
            let tag = piece.take(end);
            match attribute(tag, "href"@) {
                Some(href) if starts_with(href, "file://"@) => Some(
                    DocView {
                        modified: match (attribute(tag, "modified"@), attribute(tag, "visited"@)) {
                            (Some(t), _) => t,
                            (None, Some(t)) => t,
                            (None, None) => Seq::empty(),
                        },
                        path: utf8_lossy(decoded(encode_utf8(href.skip(7)))),
                    },
                ),
                _ => None,
            }
        },
        None => None,
    }
}

/// The documents of some bookmarks, in their order.
pub open spec fn docs_of(pieces: Seq<Seq<char>>) -> Seq<DocView>
    decreases pieces.len(),
{
    if pieces.len() == 0 {
        Seq::empty()
    } else {
        match doc_of(pieces.last()) {
            Some(d) => docs_of(pieces.drop_last()).push(d),
            None => docs_of(pieces.drop_last()),
        }
    }
}

/// Whether `a` is listed before `b` or level with it: the later one first.
pub open spec fn newer_first(a: DocView, b: DocView) -> bool {
    lex_le(b.modified, a.modified)
}

/// The documents of a file of bookmarks, the newest first.
pub open spec fn listed_docs(xml: Seq<char>) -> Seq<DocView> {
    sort(docs_of(pieces_after(xml, "<bookmark"@)), |a: DocView, b: DocView| newer_first(a, b))
}

fn read_doc(piece: &[char]) -> (r: Option<RecentDoc>)
    ensures
        r.deep_view() == doc_of(piece@),
{
    let end: usize = match text::index_chars_from(piece, '>', 0) {
        Some(i) => i,
        None => {
            return None;
        },
    };
    let tag = slice_subrange(piece, 0, end);
    assert(tag@ =~= piece@.take(end as int));
    let href = match attr(tag, "href") {
        Some(h) => h,
        None => {
            return None;
        },
    };
    if !text::begins(&href, "file://") {
        return None;
    }
    proof {
        reveal_strlit("file://");
    }
    let cs = text::chars(&href);
    let behind = slice_subrange(&cs, 7, cs.len());
    assert(behind@ =~= href@.skip(7));
    let path = percent_decode(&text::string(behind));
    let modified = match (attr(tag, "modified"), attr(tag, "visited")) {
        (Some(t), _) => t,
        (None, Some(t)) => t,
        (None, None) => String::new(),
    };
    Some(RecentDoc { modified, path })
}

/// The documents of a file of bookmarks, the newest first. Bookmarks that do not
/// point to a file are passed over.
pub fn parse_xbel(xml: &str) -> (r: Vec<RecentDoc>)
    ensures
        r.deep_view() == listed_docs(xml@),
{
    let cs = text::chars(xml);
    let pattern = text::chars("<bookmark");
    proof {
        reveal_strlit("<bookmark");
    }
    let pieces = text::find_pieces(&cs, &pattern);
    let ghost pv = text::rows(pieces@);
    let mut out: Vec<RecentDoc> = Vec::new();
    let mut i: usize = 0;
    assert(out.deep_view() =~= docs_of(pv.take(0)));
    while i < pieces.len()
        invariant
            i <= pieces@.len(),
            pv == text::rows(pieces@),
            out.deep_view() == docs_of(pv.take(i as int)),
        decreases pieces@.len() - i,
    {
        let ghost before = out.deep_view();
        assert(pv.take(i + 1).drop_last() =~= pv.take(i as int));
        assert(pv.take(i + 1).last() == pieces@[i as int]@);
        if let Some(doc) = read_doc(&pieces[i]) {
            out.push(doc);
            assert(out.deep_view() =~= before.push(doc.deep_view()));
        }
        i += 1;
    }
    assert(pv.take(i as int) =~= pv);
    let ghost key = |d: RecentDoc| d.deep_view();
    let ghost rel = |a: DocView, b: DocView| newer_first(a, b);
    assert(out@.map_values(key) =~= out.deep_view());
    let le = |a: &RecentDoc, b: &RecentDoc| -> (o: bool)
        ensures
            o == newer_first(a.deep_view(), b.deep_view()),
    {
        let later = str_lt(&a.modified, &b.modified);
        !later
    };
    let sorted = sort_by::<RecentDoc, DocView, _>(out, le, Ghost(key), Ghost(rel));
    assert(sorted@.map_values(key) =~= sorted.deep_view());
    sorted
}

// ---------------------------------------------------------------------------
// Searching
// ---------------------------------------------------------------------------

/// The score of a document by its rank, as a bit pattern: 0.68, and 0.02 less for
/// each rank, but not below 0.38.
pub open spec fn doc_score(rank: int) -> u64 {
    if rank == 0 {
        0x3FE5_C28F_5C28_F5C3
    } else if rank == 1 {
        0x3FE5_1EB8_51EB_851F
    } else if rank == 2 {
        0x3FE4_7AE1_47AE_147B
    } else if rank == 3 {
        0x3FE3_D70A_3D70_A3D8
    } else if rank == 4 {
        0x3FE3_3333_3333_3334
    } else if rank == 5 {
        0x3FE2_8F5C_28F5_C290
    } else if rank == 6 {
        0x3FE1_EB85_1EB8_51EC
    } else if rank == 7 {
        0x3FE1_47AE_147A_E148
    } else if rank == 8 {
        0x3FE0_A3D7_0A3D_70A4
    } else if rank == 9 {
        0x3FE0_0000_0000_0000
    } else if rank == 10 {
        0x3FDE_B851_EB85_1EB9
    } else if rank == 11 {
        0x3FDD_70A3_D70A_3D72
    } else if rank == 12 {
        0x3FDC_28F5_C28F_5C2A
    } else if rank == 13 {
        0x3FDA_E147_AE14_7AE2
    } else if rank == 14 {
        0x3FD9_9999_9999_999A
    } else {
        0x3FD8_51EB_851E_B853
    }
}

/// What a document is called; empty where its path has no last part.
pub open spec fn doc_name(path: Seq<char>) -> Seq<char> {
    match file_name(path) {
        Some(n) => n,
        None => Seq::empty(),
    }
}

/// Whether a document is shown: it exists, and its name holds the query. `q` is
/// the query in lower case.
pub open spec fn doc_matches(d: DocView, q: Seq<char>, existing: Seq<Seq<char>>) -> bool {
    existing.contains(d.path) && (q.len() == 0 || has(lowercase(doc_name(d.path)), q))
}

/// The item of a document.
pub open spec fn doc_item(d: DocView, rank: int) -> ItemView {
    ItemView {
        id: d.path,
        provider: "recent-docs"@,
        title: doc_name(d.path),
        subtitle: Some(
            match parent_dir(d.path) {
                Some(p) => p,
                None => Seq::empty(),
            },
        ),
        icon: Some("file"@),
        icon_path: None,
        score: clamped(doc_score(rank)),
    }
}

/// The items of the documents that match. Those that do not match count for the
/// rank of the others.
pub open spec fn doc_items(docs: Seq<DocView>, q: Seq<char>, existing: Seq<Seq<char>>) -> Seq<
    ItemView,
>
    decreases docs.len(),
{
    if docs.len() == 0 {
        Seq::empty()
    } else {
        let before = doc_items(docs.drop_last(), q, existing);
        if doc_matches(docs.last(), q, existing) {
            before.push(doc_item(docs.last(), docs.len() - 1))
        } else {
            before
        }
    }
}

fn score_of_rank(rank: usize) -> (r: u64)
    ensures
        r == doc_score(rank as int),
{
    match rank {
        0 => 0x3FE5_C28F_5C28_F5C3,
        1 => 0x3FE5_1EB8_51EB_851F,
        2 => 0x3FE4_7AE1_47AE_147B,
        3 => 0x3FE3_D70A_3D70_A3D8,
        4 => 0x3FE3_3333_3333_3334,
        5 => 0x3FE2_8F5C_28F5_C290,
        6 => 0x3FE1_EB85_1EB8_51EC,
        7 => 0x3FE1_47AE_147A_E148,
        8 => 0x3FE0_A3D7_0A3D_70A4,
        9 => 0x3FE0_0000_0000_0000,
        10 => 0x3FDE_B851_EB85_1EB9,
        11 => 0x3FDD_70A3_D70A_3D72,
        12 => 0x3FDC_28F5_C28F_5C2A,
        13 => 0x3FDA_E147_AE14_7AE2,
        14 => 0x3FD9_9999_9999_999A,
        _ => 0x3FD8_51EB_851E_B853,
    }
}

fn name_of(path: &str) -> (r: String)
    ensures
        r@ == doc_name(path@),
{
    match file_name_of(path) {
        Some(n) => n,
        None => String::new(),
    }
}

fn item_of(doc: &RecentDoc, rank: usize) -> (r: PaletteItem)
    ensures
        r.deep_view() == doc_item(doc.deep_view(), rank as int),
{
    let parent = match parent_of(&doc.path) {
        Some(p) => p,
        None => String::new(),
    };
    PaletteItem::new(
        RECENT_DOCS_PROVIDER,
        doc.path.clone(),
        name_of(&doc.path),
    ).with_subtitle(parent).with_icon("file").with_score(score_of_rank(rank))
}

/// Further documents only add items behind those that are there.
proof fn lemma_items_grow(docs: Seq<DocView>, q: Seq<char>, existing: Seq<Seq<char>>, n: int)
    requires
        0 <= n <= docs.len(),
    ensures
        doc_items(docs.take(n), q, existing).len() <= doc_items(docs, q, existing).len(),
        doc_items(docs, q, existing).take(doc_items(docs.take(n), q, existing).len() as int)
            == doc_items(docs.take(n), q, existing),
    decreases docs.len() - n,
{
    let a = doc_items(docs.take(n), q, existing);
    let all = doc_items(docs, q, existing);
    if n < docs.len() {
        let b = doc_items(docs.take(n + 1), q, existing);
        lemma_items_grow(docs, q, existing, n + 1);
        assert(docs.take(n + 1).drop_last() =~= docs.take(n));
        assert(b.take(a.len() as int) =~= a);
        assert(all.take(a.len() as int) =~= all.take(b.len() as int).take(a.len() as int));
    } else {
        assert(docs.take(n) =~= docs);
        assert(all.take(all.len() as int) =~= all);
    }
}

/// The file of bookmarks below the data directory of the user.
pub open spec fn bookmarks_path(xdg_data_home: Option<Seq<char>>, home: Option<Seq<char>>) -> Option<
    Seq<char>,
> {
    match (xdg_data_home, home) {
        (Some(base), _) => Some(joined(base, "recently-used.xbel"@)),
        (None, Some(h)) => Some(joined(joined(h, ".local/share"@), "recently-used.xbel"@)),
        (None, None) => None,
    }
}

/// The file of bookmarks.
pub fn xbel_path(xdg_data_home: &Option<String>, home: &Option<String>) -> (r: Option<String>)
    ensures
        r.deep_view() == bookmarks_path(xdg_data_home.deep_view(), home.deep_view()),
{
    match (xdg_data_home, home) {
        (Some(base), _) => Some(path_join(base, "recently-used.xbel")),
        (None, Some(h)) => Some(path_join(&path_join(h, ".local/share"), "recently-used.xbel")),
        (None, None) => None,
    }
}

/// The provider of recent documents.
#[derive(Debug, Clone, Copy, PartialEq, Eq)]
pub struct RecentDocsProvider;

impl RecentDocsProvider {
    pub fn new() -> (r: Self) {
        RecentDocsProvider
    }

    /// The document that choosing an item opens: none where it is gone.
    pub fn chosen(&self, item_id: &str, exists: bool) -> (r: Option<String>)
        ensures
            r.deep_view() == (if exists {
                Some(item_id@)
            } else {
                None
            }),
    {
        if exists {
            Some(text::owned(item_id))
        } else {
            None
        }
    }

    /// The error where the program that opens a document could not be started.
    pub fn failed(&self, why: &str) -> (r: ProviderError)
        ensures
            r is ExecuteFailed,
            r->ExecuteFailed_0@ == "xdg-open: "@ + why@,
    {
        ProviderError::ExecuteFailed(text::concat2("xdg-open: ", why))
    }

    /// The documents that match a query in lower case, at most [`MAX_RESULTS`].
    /// `existing` are the paths that exist.
    pub fn matching(&self, q: &str, docs: &[RecentDoc], existing: &[String]) -> (r: Vec<
        PaletteItem,
    >)
        ensures
            r.deep_view() == at_most(
                doc_items(docs.deep_view(), q@, existing.deep_view()),
                MAX_RESULTS as int,
            ),
    {
        let ghost dv = docs.deep_view();
        let ghost xv = existing.deep_view();
        let empty = text::chars(q).len() == 0;
        let mut out: Vec<PaletteItem> = Vec::new();
        let mut i: usize = 0;
        assert(out.deep_view() =~= doc_items(dv.take(0), q@, xv));
        while i < docs.len() && out.len() < MAX_RESULTS
            invariant
                i <= docs@.len(),
                dv == docs.deep_view(),
                xv == existing.deep_view(),
                empty == (q@.len() == 0),
                out@.len() <= MAX_RESULTS,
                out.deep_view() == doc_items(dv.take(i as int), q@, xv),
            decreases docs@.len() - i,
        {
            let ghost before = out.deep_view();
            assert(dv.take(i + 1).drop_last() =~= dv.take(i as int));
            assert(dv.take(i + 1).last() == docs@[i as int].deep_view());
            let doc = &docs[i];
            if text::strings_contain(existing, &doc.path) && (empty || text::contains(
                &to_lowercase(&name_of(&doc.path)),
                q,
            )) {
                out.push(item_of(doc, i));
                assert(out.deep_view() =~= before.push(doc_item(doc.deep_view(), i as int)));
            }
            i += 1;
        }
        proof {
            lemma_items_grow(dv, q@, xv, i as int);
            let all = doc_items(dv, q@, xv);
            if i == docs@.len() {
                assert(dv.take(i as int) =~= dv);
                assert(all.take(all.len() as int) =~= all);
            }
            assert(out.deep_view().len() == out@.len());
            assert(out.deep_view() =~= at_most(all, MAX_RESULTS as int));
        }
        out
    }

    /// The documents that match a query. An empty query matches every document.
    pub fn search(&self, query: &str, docs: &[RecentDoc], existing: &[String]) -> (r: Vec<
        PaletteItem,
    >)
        ensures
            r.deep_view() == at_most(
                doc_items(docs.deep_view(), lowercase(trim(query@)), existing.deep_view()),
                MAX_RESULTS as int,
            ),
    {
        let q = to_lowercase(&text::trimmed(query));
        self.matching(&q, docs, existing)
    }
}

/// A document that does not exist is never offered.
pub proof fn law_offered_documents_exist(
    docs: Seq<DocView>,
    q: Seq<char>,
    existing: Seq<Seq<char>>,
)
    ensures
        forall|k: int|
            0 <= k < doc_items(docs, q, existing).len() ==> existing.contains(
                (#[trigger] doc_items(docs, q, existing)[k]).id,
            ),
    decreases docs.len(),
{
    if docs.len() > 0 {
        law_offered_documents_exist(docs.drop_last(), q, existing);
        let a = doc_items(docs.drop_last(), q, existing);
        let b = doc_items(docs, q, existing);
        assert forall|k: int| 0 <= k < b.len() implies existing.contains((#[trigger] b[k]).id) by {
            if k < a.len() {
                assert(b[k] == a[k]);
            }
        }
    }
}

/// The newest document is scored 0.68, and each further one 0.02 less, but none below 0.38.
pub proof fn law_document_scores_go_down_by_steps(place: int)
    requires
        0 <= place,
    ensures
        near(
            doc_score(place),
            68 - 2 * (if place < 15 {
                place
            } else {
                15
            }),
            100,
        ),
{
    lemma2_to64();
    lemma2_to64_rest();
    assert(near(0x3FE5_C28F_5C28_F5C3, 68, 100));
    assert(near(0x3FE5_1EB8_51EB_851F, 66, 100));
    assert(near(0x3FE4_7AE1_47AE_147B, 64, 100));
    assert(near(0x3FE3_D70A_3D70_A3D8, 62, 100));
    assert(near(0x3FE3_3333_3333_3334, 60, 100));
    assert(near(0x3FE2_8F5C_28F5_C290, 58, 100));
    assert(near(0x3FE1_EB85_1EB8_51EC, 56, 100));
    assert(near(0x3FE1_47AE_147A_E148, 54, 100));
    assert(near(0x3FE0_A3D7_0A3D_70A4, 52, 100));
    assert(near(0x3FE0_0000_0000_0000, 50, 100));
    assert(near(0x3FDE_B851_EB85_1EB9, 48, 100));
    assert(near(0x3FDD_70A3_D70A_3D72, 46, 100));
    assert(near(0x3FDC_28F5_C28F_5C2A, 44, 100));
    assert(near(0x3FDA_E147_AE14_7AE2, 42, 100));
    assert(near(0x3FD9_9999_9999_999A, 40, 100));
    assert(near(0x3FD8_51EB_851E_B853, 38, 100));
}

/// An attribute is what stands in quotes behind its name, where that first stands.
pub proof fn law_attributes_read_back(
    a: Seq<char>,
    name: Seq<char>,
    value: Seq<char>,
    b: Seq<char>,
)
    requires
        name.len() > 0,
        !a.contains(name[0]),
        !value.contains('"'),
    ensures
        attribute(a + (name + "=\""@) + value + "\""@ + b, name) == Some(value),
{
    reveal_strlit("=\"");
    reveal_strlit("\"");
    let key = name + "=\""@;
    let behind = value + "\""@ + b;
    let tag = a + key + value + "\""@ + b;
    assert(key[0] == name[0]);
    assert(tag =~= a + key + behind);
    lemma_find_behind(a, key, behind);
    assert(tag.skip(a.len() as int + key.len()) =~= behind);
    assert("\""@ =~= seq!['"']);
    lemma_index_behind(value, '"', b);
    assert(behind.take(value.len() as int) =~= value);
}

/// A document is listed where its bookmark names a file; by when it was changed, or else by
/// when it was visited.
pub proof fn law_bookmarks_of_files_are_listed(tag: Seq<char>, rest: Seq<char>)
    requires
        !tag.contains('>'),
    ensures
        ({
            let href = attribute(tag, "href"@);
            let d = doc_of(tag + ">"@ + rest);
            &&& href is None ==> d is None
            &&& href is Some ==> (d is Some <==> href->0.len() >= 7 && href->0.take(7) == "file://"@)
            &&& d is Some ==> d->0.path == utf8_lossy(decoded(encode_utf8(href->0.skip(7))))
            &&& d is Some && attribute(tag, "modified"@) is Some ==> d->0.modified == attribute(
                tag,
                "modified"@,
            )->0
            &&& d is Some && attribute(tag, "modified"@) is None && attribute(
                tag,
                "visited"@,
            ) is Some ==> d->0.modified == attribute(tag, "visited"@)->0
        }),
        doc_of(tag) is None,
{
    reveal_strlit(">");
    reveal_strlit("file://");
    assert(">"@ =~= seq!['>']);
    lemma_index_behind(tag, '>', rest);
    assert((tag + ">"@ + rest).take(tag.len() as int) =~= tag);
    law_places_of_a_character(tag, '>');
    if attribute(tag, "href"@) is Some {
        let h = attribute(tag, "href"@)->0;
        if h.len() >= 7 {
            assert(h.subrange(0, 7) =~= h.take(7));
        }
    }
}

/// The documents are listed with the newest first: each bookmark that names a file is, and
/// nothing else.
pub proof fn law_newest_documents_first(xml: Seq<char>)
    ensures
        ({
            let out = listed_docs(xml);
            &&& forall|i: int, j: int|
                0 <= i < j < out.len() ==> !lex_lt(
                    (#[trigger] out[i]).modified,
                    (#[trigger] out[j]).modified,
                )
            &&& out.to_multiset() == docs_of(pieces_after(xml, "<bookmark"@)).to_multiset()
        }),
{
    let le = |a: DocView, b: DocView| newer_first(a, b);
    assert forall|a: DocView, b: DocView| #[trigger] le(a, b) || le(b, a) by {
        lemma_lex_total(a.modified, b.modified);
    }
    assert forall|a: DocView, b: DocView, c: DocView| #[trigger]
        le(a, b) && #[trigger] le(b, c) implies le(a, c) by {
        lemma_lex_trans(c.modified, b.modified, a.modified);
    }
    let all = docs_of(pieces_after(xml, "<bookmark"@));
    law_sorting(all, le);
    let out = listed_docs(xml);
    assert forall|i: int, j: int| 0 <= i < j < out.len() implies !lex_lt(
        (#[trigger] out[i]).modified,
        (#[trigger] out[j]).modified,
    ) by {
        assert(le(out[i], out[j]));
    }
}

/// Each piece that is a document adds it behind the others.
pub proof fn law_documents_come_in_order(pieces: Seq<Seq<char>>, piece: Seq<char>)
    ensures
        docs_of(Seq::empty()).len() == 0,
        doc_of(piece) is None ==> docs_of(pieces.push(piece)) == docs_of(pieces),
        doc_of(piece) is Some ==> docs_of(pieces.push(piece)) == docs_of(pieces).push(
            doc_of(piece)->0,
        ),
{
    assert(pieces.push(piece).drop_last() =~= pieces);
}

/// Whether a text stands somewhere in another.
pub open spec fn stands_in(q: Seq<char>, s: Seq<char>) -> bool {
    exists|i: int| 0 <= i && i + q.len() <= s.len() && #[trigger] s.subrange(i, i + q.len()) == q
}

/// A document is offered where it is still there and the query, in lower case, is in its
/// name; it keeps its place among all of them for its score.
pub proof fn law_documents_are_offered(
    docs: Seq<DocView>,
    d: DocView,
    q: Seq<char>,
    existing: Seq<Seq<char>>,
    name: Seq<char>,
)
    requires
        file_name(d.path) is Some ==> name == file_name(d.path)->0,
        file_name(d.path) is None ==> name.len() == 0,
    ensures
        !existing.contains(d.path) || !(q.len() == 0 || stands_in(q, lowercase(name))) ==> doc_items(
            docs.push(d),
            q,
            existing,
        ) == doc_items(docs, q, existing),
        existing.contains(d.path) && (q.len() == 0 || stands_in(q, lowercase(name))) ==> {
            let all = doc_items(docs.push(d), q, existing);
            &&& all.len() == doc_items(docs, q, existing).len() + 1
            &&& all.drop_last() == doc_items(docs, q, existing)
            &&& all.last().id == d.path
            &&& all.last().title == name
            &&& all.last().provider == "recent-docs"@
            &&& all.last().score == clamped(doc_score(docs.len() as int))
        },
{
    assert(docs.push(d).drop_last() =~= docs);
    if file_name(d.path) is None {
        assert(name =~= Seq::empty());
    }
    assert(doc_name(d.path) == name);
    let low = lowercase(name);
    assert(has(low, q) <==> stands_in(q, low)) by {
        if has(low, q) {
            let i = choose|i: int| crate::text::occurs_at(low, q, i);
            assert(low.subrange(i, i + q.len()) == q);
        }
        if stands_in(q, low) {
            let i = choose|i: int|
                0 <= i && i + q.len() <= low.len() && #[trigger] low.subrange(i, i + q.len()) == q;
            assert(crate::text::occurs_at(low, q, i));
        }
    }
    let before = doc_items(docs, q, existing);
    let item = doc_item(d, docs.len() as int);
    let all = docs.push(d);
    assert(before.push(item).drop_last() =~= before);
    assert(all.last() == d);
    assert(all.len() - 1 == docs.len());
    if doc_matches(d, q, existing) {
        assert(doc_items(all, q, existing) == before.push(item));
    } else {
        assert(doc_items(all, q, existing) == before);
    }
}

/// A percent sign and two hexadecimal digits stand for their byte; other bytes stand for
/// themselves.
pub proof fn law_escapes(high: u8, low: u8, rest: Seq<u8>, b: u8)
    requires
        high < 16,
        low < 16,
    ensures
        ({
            let digit = |d: u8|
                if d < 10 {
                    (0x30 + d) as u8
                } else {
                    (0x41 + d - 10) as u8
                };
            let small = |d: u8|
                if d < 10 {
                    (0x30 + d) as u8
                } else {
                    (0x61 + d - 10) as u8
                };
            &&& decoded(seq![0x25u8, digit(high), digit(low)] + rest) == seq![
                (16 * high + low) as u8,
            ] + decoded(rest)
            &&& decoded(seq![0x25u8, small(high), small(low)] + rest) == seq![
                (16 * high + low) as u8,
            ] + decoded(rest)
        }),
        b != 0x25 ==> decoded(seq![b] + rest) == seq![b] + decoded(rest),
        decoded(Seq::empty()).len() == 0,
{
    let digit = |d: u8|
        if d < 10 {
            (0x30 + d) as u8
        } else {
            (0x41 + d - 10) as u8
        };
    let small = |d: u8|
        if d < 10 {
            (0x30 + d) as u8
        } else {
            (0x61 + d - 10) as u8
        };
    let s = seq![0x25u8, digit(high), digit(low)] + rest;
    let t = seq![0x25u8, small(high), small(low)] + rest;
    assert(s.skip(3) =~= rest);
    assert(t.skip(3) =~= rest);
    assert((seq![b] + rest).skip(1) =~= rest);
    assert(s[1] == digit(high) && s[2] == digit(low));
    assert(t[1] == small(high) && t[2] == small(low));
    assert(hex_value(s[1]) == Some(high as int) && hex_value(s[2]) == Some(low as int));
    assert(hex_value(t[1]) == Some(high as int) && hex_value(t[2]) == Some(low as int));
}

/// The bookmarks are looked for below the directory for data, else below the home directory.
pub proof fn law_where_bookmarks_are(base: Seq<char>, home: Option<Seq<char>>)
    requires
        base.len() > 0,
        base.last() != '/',
    ensures
        bookmarks_path(Some(base), home) == Some(base + "/recently-used.xbel"@),
        bookmarks_path(None, Some(base)) == Some(base + "/.local/share/recently-used.xbel"@),
        bookmarks_path(None, None) is None,
{
    reveal_strlit("recently-used.xbel");
    reveal_strlit("/recently-used.xbel");
    reveal_strlit(".local/share");
    reveal_strlit("/.local/share/recently-used.xbel");
    assert(bookmarks_path(Some(base), home)->0 =~= base + "/recently-used.xbel"@);
    assert(bookmarks_path(None, Some(base))->0 =~= base + "/.local/share/recently-used.xbel"@);
}

/// A plus sign may stand for the first digit, and counts nothing; where what follows a percent
/// sign is no number, or is too short, the sign stands for itself.
pub proof fn law_odd_escapes(d: u8, a: u8, b: u8, rest: Seq<u8>)
    ensures
        0x30 <= d <= 0x39 ==> decoded(seq![0x25u8, 0x2Bu8, d] + rest) == seq![(d - 0x30) as u8]
            + decoded(rest),
        0x41 <= d <= 0x46 ==> decoded(seq![0x25u8, 0x2Bu8, d] + rest) == seq![(d - 0x37) as u8]
            + decoded(rest),
        0x61 <= d <= 0x66 ==> decoded(seq![0x25u8, 0x2Bu8, d] + rest) == seq![(d - 0x57) as u8]
            + decoded(rest),
        !(0x30 <= b <= 0x39 || 0x41 <= b <= 0x46 || 0x61 <= b <= 0x66) ==> decoded(
            seq![0x25u8, a, b] + rest,
        ) == seq![0x25u8] + decoded(seq![a, b] + rest),
        decoded(seq![0x25u8, a]) == seq![0x25u8] + decoded(seq![a]),
        decoded(seq![0x25u8]) == seq![0x25u8],
{
    let plus = seq![0x25u8, 0x2Bu8, d] + rest;
    assert(plus.skip(3) =~= rest);
    let odd = seq![0x25u8, a, b] + rest;
    assert(odd.skip(1) =~= seq![a, b] + rest);
    let two = seq![0x25u8, a];
    assert(two.skip(1) =~= seq![a]);
    let one = seq![0x25u8];
    assert(one.skip(1) =~= Seq::empty());
    assert(decoded(one.skip(1)) =~= Seq::empty());
    assert(decoded(one) =~= one);
}

} // verus!
