//! Character-level text operations with exact specifications.
//!
//! Text is modelled as a sequence of `char`. The executable functions work on
//! slices of `char`; `chars` and `string` convert to and from the standard
//! string types.

use vstd::prelude::*;
use vstd::slice::slice_subrange;
use vstd::string::StringExecFns;

verus! {

/// `String::push` appends one character at the end.
pub assume_specification[ String::push ](s: &mut String, ch: char)
    ensures
        final(s)@ == old(s)@.push(ch),
;

// ---------------------------------------------------------------------------
// Conversions
// ---------------------------------------------------------------------------

/// The characters of a string.
pub fn chars(s: &str) -> (r: Vec<char>)
    ensures
        r@ == s@,
{
    let mut out: Vec<char> = Vec::new();
    for c in it: s.chars()
        invariant
            it.seq() == s@,
            out@ == s@.take(it.index() as int),
    {
        out.push(c);
    }
    out
}

/// A string made of the given characters.
pub fn string(cs: &[char]) -> (r: String)
    ensures
        r@ == cs@,
{
    let mut out = String::new();
    let mut i: usize = 0;
    while i < cs.len()
        invariant
            i <= cs@.len(),
            out@ == cs@.take(i as int),
        decreases cs@.len() - i,
    {
        out.push(cs[i]);
        proof {
            assert(cs@.take(i + 1) =~= cs@.take(i as int).push(cs@[i as int]));
        }
        i += 1;
    }
    proof {
        assert(cs@.take(i as int) =~= cs@);
    }
    out
}


/// Whether two strings hold the same characters.
pub fn same(a: &str, b: &str) -> (r: bool)
    ensures
        r == (a@ == b@),
{
    let x = chars(a);
    let y = chars(b);
    same_chars(&x, &y)
}

/// Whether two character slices are equal.
pub fn same_chars(a: &[char], b: &[char]) -> (r: bool)
    ensures
        r == (a@ == b@),
{
    if a.len() != b.len() {
        return false;
    }
    let mut i: usize = 0;
    while i < a.len()
        invariant
            i <= a@.len(),
            a@.len() == b@.len(),
            forall|k: int| 0 <= k < i ==> a@[k] == b@[k],
        decreases a@.len() - i,
    {
        if a[i] != b[i] {
            assert(a@[i as int] != b@[i as int]);
            return false;
        }
        i += 1;
    }
    assert(a@ =~= b@);
    true
}

/// Whether the slice holds the characters of `t`.
pub fn is_text(s: &[char], t: &str) -> (r: bool)
    ensures
        r == (s@ == t@),
{
    let cs = chars(t);
    same_chars(s, &cs)
}

/// An owned copy of a string.
pub fn owned(s: &str) -> (r: String)
    ensures
        r@ == s@,
{
    s.to_owned()
}

/// Clones an optional string.
pub fn clone_opt(s: &Option<String>) -> (r: Option<String>)
    ensures
        r == *s,
        r.deep_view() == s.deep_view(),
{
    match s {
        Some(x) => Some(x.clone()),
        None => None,
    }
}

/// Clones a list of strings.
pub fn clone_strings(v: &[String]) -> (r: Vec<String>)
    ensures
        r@ == v@,
        r.deep_view() == v.deep_view(),
{
    let mut out: Vec<String> = Vec::new();
    let mut i: usize = 0;
    while i < v.len()
        invariant
            i <= v@.len(),
            out@ == v@.take(i as int),
        decreases v@.len() - i,
    {
        out.push(v[i].clone());
        i += 1;
    }
    assert(out@ =~= v@);
    assert(out.deep_view() =~= v.deep_view());
    out
}

/// Whether a list of strings holds a given text.
pub fn strings_contain(v: &[String], s: &str) -> (r: bool)
    ensures
        r == v.deep_view().contains(s@),
{
    let mut i: usize = 0;
    while i < v.len()
        invariant
            i <= v@.len(),
            forall|k: int| 0 <= k < i ==> v@[k]@ != s@,
        decreases v@.len() - i,
    {
        if same(&v[i], s) {
            assert(v.deep_view()[i as int] == s@);
            return true;
        }
        i += 1;
    }
    assert forall|k: int| 0 <= k < v.deep_view().len() implies v.deep_view()[k] != s@ by {
        assert(v@[k]@ != s@);
    }
    false
}

// ---------------------------------------------------------------------------
// White space and trimming
// ---------------------------------------------------------------------------

/// The characters with the Unicode `White_Space` property.
pub open spec fn is_white(c: char) -> bool {
    let u = c as u32;
    ||| 0x09 <= u <= 0x0D
    ||| u == 0x20
    ||| u == 0x85
    ||| u == 0xA0
    ||| u == 0x1680
    ||| 0x2000 <= u <= 0x200A
    ||| u == 0x2028
    ||| u == 0x2029
    ||| u == 0x202F
    ||| u == 0x205F
    ||| u == 0x3000
}

/// Whether a character has the Unicode `White_Space` property.
pub fn white(c: char) -> (r: bool)
    ensures
        r == is_white(c),
{
    let u: u32 = c as u32;
    (0x09 <= u && u <= 0x0D) || u == 0x20 || u == 0x85 || u == 0xA0 || u == 0x1680 || (0x2000 <= u
        && u <= 0x200A) || u == 0x2028 || u == 0x2029 || u == 0x202F || u == 0x205F || u == 0x3000
}

/// `s` without its leading white space.
pub open spec fn trim_start(s: Seq<char>) -> Seq<char>
    decreases s.len(),
{
    if s.len() > 0 && is_white(s[0]) {
        trim_start(s.skip(1))
    } else {
        s
    }
}

/// `s` without its trailing white space.
pub open spec fn trim_end(s: Seq<char>) -> Seq<char>
    decreases s.len(),
{
    if s.len() > 0 && is_white(s.last()) {
        trim_end(s.drop_last())
    } else {
        s
    }
}

/// `s` without leading and trailing white space.
pub open spec fn trim(s: Seq<char>) -> Seq<char> {
    trim_end(trim_start(s))
}

/// Whether `s` is made of white space alone.
pub open spec fn blank(s: Seq<char>) -> bool {
    forall|i: int| 0 <= i < s.len() ==> is_white(#[trigger] s[i])
}

/// Whether a string is made of white space alone.
pub fn is_blank(s: &str) -> (r: bool)
    ensures
        r == blank(s@),
{
    let cs = chars(s);
    let mut i: usize = 0;
    while i < cs.len()
        invariant
            i <= cs@.len(),
            cs@ == s@,
            forall|k: int| 0 <= k < i ==> is_white(#[trigger] s@[k]),
        decreases cs@.len() - i,
    {
        if !white(cs[i]) {
            assert(!is_white(s@[i as int]));
            return false;
        }
        i += 1;
    }
    true
}

/// The slice without its leading white space.
pub fn trim_start_chars(s: &[char]) -> (r: &[char])
    ensures
        r@ == trim_start(s@),
{
    let mut i: usize = 0;
    assert(s@.skip(0) =~= s@);
    while i < s.len() && white(s[i])
        invariant
            i <= s@.len(),
            trim_start(s@) == trim_start(s@.skip(i as int)),
        decreases s@.len() - i,
    {
        assert(s@.skip(i as int).skip(1) =~= s@.skip(i + 1));
        i += 1;
    }
    assert(s@.skip(i as int) =~= s@.subrange(i as int, s@.len() as int));
    slice_subrange(s, i, s.len())
}

/// The slice without its trailing white space.
pub fn trim_end_chars(s: &[char]) -> (r: &[char])
    ensures
        r@ == trim_end(s@),
{
    let mut n: usize = s.len();
    assert(s@.take(n as int) =~= s@);
    while n > 0 && white(s[n - 1])
        invariant
            n <= s@.len(),
            trim_end(s@) == trim_end(s@.take(n as int)),
        decreases n,
    {
        assert(s@.take(n as int).drop_last() =~= s@.take(n - 1));
        n -= 1;
    }
    assert(s@.take(n as int) =~= s@.subrange(0, n as int));
    slice_subrange(s, 0, n)
}

/// The slice without leading and trailing white space.
pub fn trim_chars(s: &[char]) -> (r: &[char])
    ensures
        r@ == trim(s@),
{
    trim_end_chars(trim_start_chars(s))
}

/// The string without leading and trailing white space.
pub fn trimmed(s: &str) -> (r: String)
    ensures
        r@ == trim(s@),
{
    let cs = chars(s);
    string(trim_chars(&cs))
}

// ---------------------------------------------------------------------------
// Searching
// ---------------------------------------------------------------------------

/// Whether `pat` stands in `s` at position `i`.
pub open spec fn occurs_at(s: Seq<char>, pat: Seq<char>, i: int) -> bool {
    0 <= i && i + pat.len() <= s.len() && s.subrange(i, i + pat.len()) == pat
}

/// Whether `s` begins with `pat`.
pub open spec fn starts_with(s: Seq<char>, pat: Seq<char>) -> bool {
    occurs_at(s, pat, 0)
}

/// Whether `s` ends with `pat`.
pub open spec fn ends_with(s: Seq<char>, pat: Seq<char>) -> bool {
    occurs_at(s, pat, s.len() - pat.len())
}

/// Whether `pat` stands anywhere in `s`.
pub open spec fn has(s: Seq<char>, pat: Seq<char>) -> bool {
    exists|i: int| occurs_at(s, pat, i)
}

/// The first position at or after `from` where `pat` stands in `s`.
pub open spec fn find_from(s: Seq<char>, pat: Seq<char>, from: int) -> Option<int>
    decreases s.len() + 1 - from,
{
    if from < 0 || from + pat.len() > s.len() {
        None
    } else if occurs_at(s, pat, from) {
        Some(from)
    } else {
        find_from(s, pat, from + 1)
    }
}

/// The first position where `pat` stands in `s`.
pub open spec fn find(s: Seq<char>, pat: Seq<char>) -> Option<int> {
    find_from(s, pat, 0)
}

/// `find_from` gives the least position, or nothing where there is none.
pub proof fn lemma_find_from(s: Seq<char>, pat: Seq<char>, from: int)
    requires
        0 <= from,
    ensures
        find_from(s, pat, from) is Some ==> {
            let i = find_from(s, pat, from)->0;
            from <= i && occurs_at(s, pat, i) && forall|k: int|
                from <= k < i ==> !occurs_at(s, pat, k)
        },
        find_from(s, pat, from) is None ==> forall|k: int|
            from <= k ==> !occurs_at(s, pat, k),
    decreases s.len() + 1 - from,
{
    if from + pat.len() > s.len() {
    } else if occurs_at(s, pat, from) {
    } else {
        lemma_find_from(s, pat, from + 1);
    }
}

/// `find` succeeds exactly when the text holds the pattern.
pub proof fn lemma_find_has(s: Seq<char>, pat: Seq<char>)
    ensures
        find(s, pat) is Some <==> has(s, pat),
{
    lemma_find_from(s, pat, 0);
}

/// Whether `pat` stands in `s` at position `i`.
pub fn occurs(s: &[char], pat: &[char], i: usize) -> (r: bool)
    ensures
        r == occurs_at(s@, pat@, i as int),
{
    if i > s.len() || pat.len() > s.len() - i {
        return false;
    }
    same_chars(slice_subrange(s, i, i + pat.len()), pat)
}

/// The first position at or after `from` where `pat` stands in `s`.
pub fn find_chars_from(s: &[char], pat: &[char], from: usize) -> (r: Option<usize>)
    ensures
        r is Some <==> find_from(s@, pat@, from as int) is Some,
        r is Some ==> r->0 as int == find_from(s@, pat@, from as int)->0,
        r is Some ==> from <= r->0 && occurs_at(s@, pat@, r->0 as int),
{
    let mut i: usize = from;
    while i <= s.len() && pat.len() <= s.len() - i
        invariant
            from <= i,
            find_from(s@, pat@, from as int) == find_from(s@, pat@, i as int),
        decreases s@.len() + 1 - i,
    {
        if occurs(s, pat, i) {
            return Some(i);
        }
        if i == s.len() {
            assert(find_from(s@, pat@, i + 1) is None);
            return None;
        }
        i += 1;
    }
    None
}

/// The first position where `pat` stands in `s`.
pub fn find_chars(s: &[char], pat: &[char]) -> (r: Option<usize>)
    ensures
        r is Some <==> find(s@, pat@) is Some,
        r is Some ==> r->0 as int == find(s@, pat@)->0,
        r is Some ==> occurs_at(s@, pat@, r->0 as int),
        r is Some <==> has(s@, pat@),
{
    proof {
        lemma_find_has(s@, pat@);
    }
    find_chars_from(s, pat, 0)
}

/// Whether the string holds `pat`.
pub fn contains(s: &str, pat: &str) -> (r: bool)
    ensures
        r == has(s@, pat@),
{
    let cs = chars(s);
    let ps = chars(pat);
    find_chars(&cs, &ps).is_some()
}

/// Whether the string begins with `pat`.
pub fn begins(s: &str, pat: &str) -> (r: bool)
    ensures
        r == starts_with(s@, pat@),
{
    let cs = chars(s);
    let ps = chars(pat);
    occurs(&cs, &ps, 0)
}

/// Whether the slice begins with the string `pat`.
pub fn begins_chars(s: &[char], pat: &str) -> (r: bool)
    ensures
        r == starts_with(s@, pat@),
{
    let ps = chars(pat);
    occurs(s, &ps, 0)
}

/// Whether the string ends with `pat`.
pub fn ends(s: &str, pat: &str) -> (r: bool)
    ensures
        r == ends_with(s@, pat@),
{
    let cs = chars(s);
    let ps = chars(pat);
    if ps.len() > cs.len() {
        return false;
    }
    occurs(&cs, &ps, cs.len() - ps.len())
}

/// The first position of a character at or after `from`.
pub open spec fn index_from(s: Seq<char>, c: char, from: int) -> Option<int>
    decreases s.len() - from,
{
    if from < 0 || from >= s.len() {
        None
    } else if s[from] == c {
        Some(from)
    } else {
        index_from(s, c, from + 1)
    }
}

/// The first position of a character.
pub open spec fn index_of(s: Seq<char>, c: char) -> Option<int> {
    index_from(s, c, 0)
}

/// `index_from` gives the least position, or nothing where there is none.
pub proof fn lemma_index_from(s: Seq<char>, c: char, from: int)
    requires
        0 <= from,
    ensures
        index_from(s, c, from) is Some ==> {
            let i = index_from(s, c, from)->0;
            from <= i < s.len() && s[i] == c && forall|k: int| from <= k < i ==> s[k] != c
        },
        index_from(s, c, from) is None ==> forall|k: int| from <= k < s.len() ==> s[k] != c,
    decreases s.len() - from,
{
    if from < s.len() && s[from] != c {
        lemma_index_from(s, c, from + 1);
    }
}

/// The first position of a character at or after `from`.
pub fn index_chars_from(s: &[char], c: char, from: usize) -> (r: Option<usize>)
    ensures
        r is Some <==> index_from(s@, c, from as int) is Some,
        r is Some ==> r->0 as int == index_from(s@, c, from as int)->0,
        r is Some ==> from <= r->0 < s@.len() && s@[r->0 as int] == c,
{
    let mut i: usize = from;
    while i < s.len()
        invariant
            from <= i,
            index_from(s@, c, from as int) == index_from(s@, c, i as int),
        decreases s@.len() - i,
    {
        if s[i] == c {
            return Some(i);
        }
        i += 1;
    }
    None
}

/// The last position of a character.
pub open spec fn last_index_of(s: Seq<char>, c: char) -> Option<int>
    decreases s.len(),
{
    if s.len() == 0 {
        None
    } else if s.last() == c {
        Some(s.len() - 1)
    } else {
        last_index_of(s.drop_last(), c)
    }
}

/// `last_index_of` gives the greatest position, or nothing where there is none.
pub proof fn lemma_last_index_of(s: Seq<char>, c: char)
    ensures
        last_index_of(s, c) is Some ==> {
            let i = last_index_of(s, c)->0;
            0 <= i < s.len() && s[i] == c && forall|k: int| i < k < s.len() ==> s[k] != c
        },
        last_index_of(s, c) is None ==> forall|k: int| 0 <= k < s.len() ==> s[k] != c,
    decreases s.len(),
{
    if s.len() > 0 && s.last() != c {
        let t = s.drop_last();
        lemma_last_index_of(t, c);
        assert forall|k: int|
            0 <= k < s.len() && (last_index_of(t, c) is Some ==> last_index_of(t, c)->0
                < k) implies s[k] != c by {
            if k < t.len() {
                assert(t[k] != c);
            }
        }
    }
}

/// The last position of a character.
pub fn last_index_chars(s: &[char], c: char) -> (r: Option<usize>)
    ensures
        r is Some <==> last_index_of(s@, c) is Some,
        r is Some ==> r->0 as int == last_index_of(s@, c)->0,
        r is Some ==> r->0 < s@.len() && s@[r->0 as int] == c,
{
    let mut n: usize = s.len();
    assert(s@.take(n as int) =~= s@);
    while n > 0
        invariant
            n <= s@.len(),
            last_index_of(s@, c) == last_index_of(s@.take(n as int), c),
        decreases n,
    {
        if s[n - 1] == c {
            return Some(n - 1);
        }
        assert(s@.take(n as int).drop_last() =~= s@.take(n - 1));
        n -= 1;
    }
    None
}

// ---------------------------------------------------------------------------
// Letter case
// ---------------------------------------------------------------------------

/// `c` in lower case where it is an ASCII letter.
pub open spec fn lower_char(c: char) -> char {
    if 'A' <= c <= 'Z' {
        ((c as u32 + 32) as u32) as char
    } else {
        c
    }
}

/// `s` with its ASCII letters in lower case.
pub open spec fn ascii_lower(s: Seq<char>) -> Seq<char> {
    s.map_values(|c: char| lower_char(c))
}

/// `c` in lower case where it is an ASCII letter.
pub fn lowered_char(c: char) -> (r: char)
    ensures
        r == lower_char(c),
{
    if 'A' <= c && c <= 'Z' {
        let b: u8 = c as u8;
        (b + 32) as char
    } else {
        c
    }
}

/// The characters with the ASCII letters in lower case.
pub fn lowered_chars(s: &[char]) -> (r: Vec<char>)
    ensures
        r@ == ascii_lower(s@),
{
    let mut out: Vec<char> = Vec::new();
    let mut i: usize = 0;
    while i < s.len()
        invariant
            i <= s@.len(),
            out@ == ascii_lower(s@).take(i as int),
        decreases s@.len() - i,
    {
        out.push(lowered_char(s[i]));
        assert(out@ =~= ascii_lower(s@).take(i + 1));
        i += 1;
    }
    assert(out@ =~= ascii_lower(s@));
    out
}

/// The string with the ASCII letters in lower case.
pub fn lowered(s: &str) -> (r: String)
    ensures
        r@ == ascii_lower(s@),
{
    let cs = chars(s);
    let low = lowered_chars(&cs);
    string(&low)
}

// ---------------------------------------------------------------------------
// Splitting
// ---------------------------------------------------------------------------

/// The pieces of `s` between the occurrences of `sep`: always at least one.
pub open spec fn split(s: Seq<char>, sep: char) -> Seq<Seq<char>>
    decreases s.len(),
{
    match index_of(s, sep) {
        Some(i) if 0 <= i < s.len() => seq![s.take(i)] + split(s.skip(i + 1), sep),
        _ => seq![s],
    }
}

/// The number of leading characters that are not white space.
pub open spec fn word_len(s: Seq<char>) -> nat
    decreases s.len(),
{
    if s.len() == 0 || is_white(s[0]) {
        0
    } else {
        1 + word_len(s.skip(1))
    }
}

/// `trim_start` never lengthens, and leaves no leading white space.
pub proof fn lemma_trim_start(s: Seq<char>)
    ensures
        trim_start(s).len() <= s.len(),
        trim_start(s).len() > 0 ==> !is_white(trim_start(s)[0]),
    decreases s.len(),
{
    if s.len() > 0 && is_white(s[0]) {
        lemma_trim_start(s.skip(1));
    }
}

/// `trim_end` keeps a prefix, and leaves no trailing white space.
pub proof fn lemma_trim_end(s: Seq<char>)
    ensures
        trim_end(s).len() <= s.len(),
        trim_end(s) == s.take(trim_end(s).len() as int),
        trim_end(s).len() > 0 ==> !is_white(trim_end(s).last()),
    decreases s.len(),
{
    if s.len() > 0 && is_white(s.last()) {
        lemma_trim_end(s.drop_last());
        assert(s.drop_last().take(trim_end(s).len() as int) =~= s.take(trim_end(s).len() as int));
    } else {
        assert(s.take(s.len() as int) =~= s);
    }
}

/// `word_len` is bounded by the length.
pub proof fn lemma_word_len(s: Seq<char>)
    ensures
        word_len(s) <= s.len(),
        s.len() > 0 && !is_white(s[0]) ==> word_len(s) > 0,
    decreases s.len(),
{
    if s.len() > 0 && !is_white(s[0]) {
        lemma_word_len(s.skip(1));
    }
}

/// The maximal runs of characters that are not white space.
pub open spec fn words(s: Seq<char>) -> Seq<Seq<char>>
    decreases s.len(),
    via words_decreases
{
    let t = trim_start(s);
    if t.len() == 0 {
        Seq::empty()
    } else {
        seq![t.take(word_len(t) as int)] + words(t.skip(word_len(t) as int))
    }
}

#[via_fn]
proof fn words_decreases(s: Seq<char>) {
    lemma_trim_start(s);
    lemma_word_len(trim_start(s));
}

/// `s` without one carriage return at its end.
pub open spec fn strip_cr(s: Seq<char>) -> Seq<char> {
    if s.len() > 0 && s.last() == '\r' {
        s.drop_last()
    } else {
        s
    }
}

/// The lines of `s`, without their line ends (`\n` or `\r\n`).
pub open spec fn lines(s: Seq<char>) -> Seq<Seq<char>>
    decreases s.len(),
{
    if s.len() == 0 {
        Seq::empty()
    } else {
        match index_of(s, '\n') {
            Some(i) if 0 <= i < s.len() => seq![strip_cr(s.take(i))] + lines(s.skip(i + 1)),
            _ => seq![s],
        }
    }
}

/// The contents of a list of character vectors.
pub open spec fn rows(v: Seq<Vec<char>>) -> Seq<Seq<char>> {
    v.map_values(|x: Vec<char>| x@)
}

/// The pieces of a slice between the occurrences of `sep`.
pub fn split_chars(s: &[char], sep: char) -> (r: Vec<Vec<char>>)
    ensures
        rows(r@) == split(s@, sep),
        r@.len() > 0,
{
    let mut out: Vec<Vec<char>> = Vec::new();
    let mut rest: &[char] = s;
    proof {
        assert(rows(out@) + split(rest@, sep) =~= split(s@, sep));
    }
    loop
        invariant
            rows(out@) + split(rest@, sep) == split(s@, sep),
        decreases rest@.len(),
    {
        let ghost before = rows(out@);
        let ghost r0 = rest@;
        let len: usize = rest.len();
        match index_chars_from(rest, sep, 0) {
            Some(i) => {
                let piece = vstd::slice::slice_to_vec(slice_subrange(rest, 0, i));
                let tail = slice_subrange(rest, i + 1, len);
                proof {
                    assert(piece@ =~= r0.take(i as int));
                    assert(tail@ =~= r0.skip(i + 1));
                }
                out.push(piece);
                rest = tail;
                proof {
                    assert(rows(out@) =~= before.push(r0.take(i as int)));
                    assert(rows(out@) + split(rest@, sep) =~= before + split(r0, sep));
                }
            },
            None => {
                out.push(vstd::slice::slice_to_vec(rest));
                proof {
                    assert(rows(out@) =~= before.push(r0));
                    assert(split(r0, sep) =~= seq![r0]);
                    assert(rows(out@) =~= split(s@, sep));
                }
                return out;
            },
        }
    }
}

/// The number of leading characters that are not white space.
pub fn word_len_chars(s: &[char]) -> (r: usize)
    ensures
        r == word_len(s@),
        r <= s@.len(),
{
    let mut i: usize = 0;
    assert(s@.skip(0) =~= s@);
    while i < s.len() && !white(s[i])
        invariant
            i <= s@.len(),
            word_len(s@) == i + word_len(s@.skip(i as int)),
        decreases s@.len() - i,
    {
        assert(s@.skip(i as int).skip(1) =~= s@.skip(i + 1));
        i += 1;
    }
    i
}

/// The maximal runs of characters that are not white space.
pub fn words_chars(s: &[char]) -> (r: Vec<Vec<char>>)
    ensures
        rows(r@) == words(s@),
{
    let mut out: Vec<Vec<char>> = Vec::new();
    let mut rest: &[char] = s;
    proof {
        assert(rows(out@) + words(rest@) =~= words(s@));
    }
    loop
        invariant
            rows(out@) + words(rest@) == words(s@),
        decreases rest@.len(),
    {
        let ghost before = rows(out@);
        let ghost r0 = rest@;
        let len: usize = rest.len();
        let t = trim_start_chars(rest);
        proof {
            lemma_trim_start(r0);
            lemma_word_len(t@);
        }
        if t.len() == 0 {
            proof {
                assert(words(r0) =~= Seq::empty());
                assert(rows(out@) =~= words(s@));
            }
            return out;
        }
        let n = word_len_chars(t);
        let word = vstd::slice::slice_to_vec(slice_subrange(t, 0, n));
        rest = slice_subrange(t, n, t.len());
        proof {
            assert(word@ =~= t@.take(n as int));
            assert(rest@ =~= t@.skip(n as int));
        }
        out.push(word);
        proof {
            assert(rows(out@) =~= before.push(t@.take(n as int)));
            assert(rows(out@) + words(rest@) =~= before + words(r0));
        }
    }
}

/// The lines of a slice, without their line ends.
pub fn lines_chars(s: &[char]) -> (r: Vec<Vec<char>>)
    ensures
        rows(r@) == lines(s@),
{
    let mut out: Vec<Vec<char>> = Vec::new();
    let mut rest: &[char] = s;
    proof {
        assert(rows(out@) + lines(rest@) =~= lines(s@));
    }
    loop
        invariant
            rows(out@) + lines(rest@) == lines(s@),
        decreases rest@.len(),
    {
        let ghost before = rows(out@);
        let ghost r0 = rest@;
        let len: usize = rest.len();
        if rest.len() == 0 {
            proof {
                assert(rows(out@) =~= lines(s@));
            }
            return out;
        }
        match index_chars_from(rest, '\n', 0) {
            Some(i) => {
                let n: usize = if i > 0 && rest[i - 1] == '\r' {
                    i - 1
                } else {
                    i
                };
                let line = vstd::slice::slice_to_vec(slice_subrange(rest, 0, n));
                let tail = slice_subrange(rest, i + 1, len);
                proof {
                    assert(line@ =~= strip_cr(r0.take(i as int)));
                    assert(tail@ =~= r0.skip(i + 1));
                }
                out.push(line);
                rest = tail;
                proof {
                    assert(rows(out@) =~= before.push(strip_cr(r0.take(i as int))));
                    assert(rows(out@) + lines(rest@) =~= before + lines(r0));
                }
            },
            None => {
                out.push(vstd::slice::slice_to_vec(rest));
                proof {
                    assert(rows(out@) =~= before.push(r0));
                    assert(lines(r0) =~= seq![r0]);
                    assert(rows(out@) =~= lines(s@));
                }
                return out;
            },
        }
    }
}

// ---------------------------------------------------------------------------
// Building
// ---------------------------------------------------------------------------

/// `s` with every occurrence of `pat`, from the left, replaced by `with`.
pub open spec fn replace(s: Seq<char>, pat: Seq<char>, with: Seq<char>) -> Seq<char>
    recommends
        pat.len() > 0,
    decreases s.len(),
{
    match find(s, pat) {
        Some(i) if 0 <= i && 0 < pat.len() && i + pat.len() <= s.len() => s.take(i) + with
            + replace(s.skip(i + pat.len()), pat, with),
        _ => s,
    }
}

/// The parts with `sep` between each two of them.
pub open spec fn join(parts: Seq<Seq<char>>, sep: Seq<char>) -> Seq<char>
    decreases parts.len(),
{
    if parts.len() == 0 {
        Seq::empty()
    } else if parts.len() == 1 {
        parts[0]
    } else {
        join(parts.drop_last(), sep) + sep + parts.last()
    }
}

/// What follows each occurrence of `pat`, up to the next one.
pub open spec fn pieces_after(s: Seq<char>, pat: Seq<char>) -> Seq<Seq<char>>
    decreases s.len(),
{
    match find(s, pat) {
        Some(i) if 0 <= i && pat.len() > 0 && i + pat.len() <= s.len() => {
            let rest = s.skip(i + pat.len());
            let piece = match find(rest, pat) {
                Some(j) => rest.take(j),
                None => rest,
            };
            seq![piece] + pieces_after(rest, pat)
        },
        _ => Seq::empty(),
    }
}

/// What follows each occurrence of a pattern, up to the next one.
pub fn find_pieces(s: &[char], pattern: &[char]) -> (r: Vec<Vec<char>>)
    requires
        pattern@.len() > 0,
    ensures
        rows(r@) == pieces_after(s@, pattern@),
{
    let mut out: Vec<Vec<char>> = Vec::new();
    let mut rest: &[char] = s;
    assert(rows(out@) + pieces_after(rest@, pattern@) =~= pieces_after(s@, pattern@));
    loop
        invariant
            pattern@.len() > 0,
            rows(out@) + pieces_after(rest@, pattern@) == pieces_after(s@, pattern@),
        decreases rest@.len(),
    {
        let ghost before = rows(out@);
        let ghost r0 = rest@;
        let len: usize = rest.len();
        match find_chars(rest, pattern) {
            Some(i) => {
                let tail = slice_subrange(rest, i + pattern.len(), len);
                assert(tail@ =~= r0.skip(i + pattern@.len()));
                let piece = match find_chars(tail, pattern) {
                    Some(j) => {
                        let p = slice_subrange(tail, 0, j);
                        assert(p@ =~= tail@.take(j as int));
                        vstd::slice::slice_to_vec(p)
                    },
                    None => vstd::slice::slice_to_vec(tail),
                };
                let ghost pv = piece@;
                out.push(piece);
                rest = tail;
                proof {
                    assert(rows(out@) =~= before.push(pv));
                    assert(pieces_after(r0, pattern@) == seq![pv] + pieces_after(
                        rest@,
                        pattern@,
                    ));
                    assert(rows(out@) + pieces_after(rest@, pattern@) =~= before
                        + pieces_after(r0, pattern@));
                }
            },
            None => {
                assert(rows(out@) =~= pieces_after(s@, pattern@));
                return out;
            },
        }
    }
}

/// Appends a slice to a vector.
pub fn extend(v: &mut Vec<char>, s: &[char])
    ensures
        final(v)@ == old(v)@ + s@,
{
    let ghost v0 = v@;
    let mut i: usize = 0;
    while i < s.len()
        invariant
            i <= s@.len(),
            v@ == v0 + s@.take(i as int),
        decreases s@.len() - i,
    {
        v.push(s[i]);
        proof {
            assert(s@.take(i + 1) =~= s@.take(i as int).push(s@[i as int]));
            assert(v@ =~= v0 + s@.take(i + 1));
        }
        i += 1;
    }
    assert(s@.take(i as int) =~= s@);
}

/// The slice with every occurrence of `pat` replaced by `with`.
pub fn replace_chars(s: &[char], pat: &[char], with: &[char]) -> (r: Vec<char>)
    requires
        pat@.len() > 0,
    ensures
        r@ == replace(s@, pat@, with@),
{
    let mut out: Vec<char> = Vec::new();
    let mut rest: &[char] = s;
    assert(out@ + replace(rest@, pat@, with@) =~= replace(s@, pat@, with@));
    loop
        invariant
            pat@.len() > 0,
            out@ + replace(rest@, pat@, with@) == replace(s@, pat@, with@),
        decreases rest@.len(),
    {
        let ghost before = out@;
        let ghost r0 = rest@;
        let len: usize = rest.len();
        match find_chars(rest, pat) {
            Some(i) => {
                extend(&mut out, slice_subrange(rest, 0, i));
                extend(&mut out, with);
                rest = slice_subrange(rest, i + pat.len(), len);
                proof {
                    assert(r0.subrange(0, i as int) =~= r0.take(i as int));
                    assert(rest@ =~= r0.skip(i + pat@.len()));
                    assert(out@ + replace(rest@, pat@, with@) =~= before + replace(
                        r0,
                        pat@,
                        with@,
                    ));
                }
            },
            None => {
                extend(&mut out, rest);
                return out;
            },
        }
    }
}

/// The string with every occurrence of `pat` replaced by `with`.
pub fn replaced(s: &str, pat: &str, with: &str) -> (r: String)
    requires
        pat@.len() > 0,
    ensures
        r@ == replace(s@, pat@, with@),
{
    let cs = chars(s);
    let ps = chars(pat);
    let ws = chars(with);
    string(&replace_chars(&cs, &ps, &ws))
}

/// The strings with `sep` between each two of them.
pub fn join_strings(parts: &[String], sep: &str) -> (r: String)
    ensures
        r@ == join(parts.deep_view(), sep@),
{
    let mut out = String::new();
    let mut i: usize = 0;
    let ghost all = parts.deep_view();
    while i < parts.len()
        invariant
            i <= parts@.len(),
            all == parts.deep_view(),
            out@ == join(all.take(i as int), sep@),
        decreases parts@.len() - i,
    {
        if i > 0 {
            out.append(sep);
        }
        out.append(&parts[i]);
        proof {
            assert(all.take(i + 1).drop_last() =~= all.take(i as int));
            assert(all.take(i + 1).last() == parts@[i as int]@);
            assert(out@ =~= join(all.take(i + 1), sep@));
        }
        i += 1;
    }
    assert(all.take(i as int) =~= all);
    out
}

/// The concatenation of two strings.
pub fn concat2(a: &str, b: &str) -> (r: String)
    ensures
        r@ == a@ + b@,
{
    let mut out = owned(a);
    out.append(b);
    out
}

/// The concatenation of three strings.
pub fn concat3(a: &str, b: &str, c: &str) -> (r: String)
    ensures
        r@ == a@ + b@ + c@,
{
    let mut out = owned(a);
    out.append(b);
    out.append(c);
    out
}

// ---------------------------------------------------------------------------
// Numbers
// ---------------------------------------------------------------------------

/// The decimal digit of value `d`.
pub open spec fn digit(d: nat) -> char {
    (('0' as u32) + d) as char
}

/// The decimal digits of `n`, without leading zeros.
pub open spec fn decimal(n: nat) -> Seq<char>
    decreases n,
{
    if n < 10 {
        seq![digit(n)]
    } else {
        decimal(n / 10).push(digit(n % 10))
    }
}

/// The decimal notation of an integer.
pub open spec fn decimal_int(n: int) -> Seq<char> {
    if n < 0 {
        seq!['-'] + decimal((-n) as nat)
    } else {
        decimal(n as nat)
    }
}

/// Whether a character is an ASCII digit.
pub open spec fn is_digit(c: char) -> bool {
    '0' <= c <= '9'
}

/// Whether a text is made of ASCII digits alone.
pub open spec fn all_digits(s: Seq<char>) -> bool {
    forall|i: int| 0 <= i < s.len() ==> is_digit(#[trigger] s[i])
}

/// The value of a string of ASCII digits.
pub open spec fn digits_value(s: Seq<char>) -> nat
    decreases s.len(),
{
    if s.len() == 0 {
        0
    } else {
        (digits_value(s.drop_last()) * 10 + (s.last() as u32 - '0' as u32)) as nat
    }
}

/// The number that `s` denotes: an optional `+`, then one or more ASCII digits.
pub open spec fn parse_nat(s: Seq<char>) -> Option<nat> {
    let d = if s.len() > 0 && s[0] == '+' {
        s.skip(1)
    } else {
        s
    };
    if d.len() > 0 && all_digits(d) {
        Some(digits_value(d))
    } else {
        None
    }
}

/// The number that `s` denotes, where it is no larger than `max`.
pub open spec fn parse_max(s: Seq<char>, max: nat) -> Option<nat> {
    match parse_nat(s) {
        Some(n) if n <= max => Some(n),
        _ => None,
    }
}

/// Whether a character is an ASCII digit.
pub fn ascii_digit(c: char) -> (r: bool)
    ensures
        r == is_digit(c),
{
    '0' <= c && c <= '9'
}

/// The decimal digit of value `d`.
pub fn digit_char(d: u8) -> (r: char)
    requires
        d < 10,
    ensures
        r == digit(d as nat),
{
    match d {
        0 => '0',
        1 => '1',
        2 => '2',
        3 => '3',
        4 => '4',
        5 => '5',
        6 => '6',
        7 => '7',
        8 => '8',
        _ => '9',
    }
}

/// The decimal digits of `n`.
pub fn decimal_chars(n: u64) -> (r: Vec<char>)
    ensures
        r@ == decimal(n as nat),
    decreases n,
{
    if n < 10 {
        let mut out: Vec<char> = Vec::new();
        out.push(digit_char(n as u8));
        assert(out@ =~= decimal(n as nat));
        out
    } else {
        let mut out = decimal_chars(n / 10);
        out.push(digit_char((n % 10) as u8));
        out
    }
}

/// The decimal notation of an unsigned number.
pub fn decimal_string(n: u64) -> (r: String)
    ensures
        r@ == decimal(n as nat),
{
    string(&decimal_chars(n))
}

/// The decimal notation of a signed number.
pub fn decimal_string_i64(n: i64) -> (r: String)
    ensures
        r@ == decimal_int(n as int),
{
    if n < 0 {
        let m: u64 = (-(n as i128)) as u64;
        let mut out: Vec<char> = Vec::new();
        out.push('-');
        extend(&mut out, &decimal_chars(m));
        assert(out@ =~= decimal_int(n as int));
        string(&out)
    } else {
        decimal_string(n as u64)
    }
}

/// Digit strings only grow in value.
proof fn lemma_digits_value_monotone(s: Seq<char>, n: int)
    requires
        0 <= n <= s.len(),
        all_digits(s),
    ensures
        digits_value(s.take(n)) <= digits_value(s),
    decreases s.len() - n,
{
    if n == s.len() {
        assert(s.take(n) =~= s);
    } else {
        lemma_digits_value_monotone(s, n + 1);
        assert(s.take(n + 1).drop_last() =~= s.take(n));
        assert(is_digit(s[n]));
    }
}

/// The number that a slice denotes, where it is no larger than `max`.
pub fn parse_chars(s: &[char], max: u64) -> (r: Option<u64>)
    ensures
        r is Some <==> parse_max(s@, max as nat) is Some,
        r is Some ==> r->0 as nat == parse_max(s@, max as nat)->0,
{
    let d: &[char] = if s.len() > 0 && s[0] == '+' {
        slice_subrange(s, 1, s.len())
    } else {
        s
    };
    proof {
        if s@.len() > 0 && s@[0] == '+' {
            assert(d@ =~= s@.skip(1));
        }
    }
    if d.len() == 0 {
        return None;
    }
    let ghost body = if s@.len() > 0 && s@[0] == '+' {
        s@.skip(1)
    } else {
        s@
    };
    let mut i: usize = 0;
    while i < d.len()
        invariant
            i <= d@.len(),
            d@ == body,
            body == (if s@.len() > 0 && s@[0] == '+' {
                s@.skip(1)
            } else {
                s@
            }),
            forall|k: int| 0 <= k < i ==> is_digit(#[trigger] d@[k]),
        decreases d@.len() - i,
    {
        if !ascii_digit(d[i]) {
            assert(!is_digit(body[i as int]));
            assert(!all_digits(body));
            return None;
        }
        i += 1;
    }
    let mut value: u64 = 0;
    let mut j: usize = 0;
    assert(d@.take(0) =~= Seq::empty());
    while j < d.len()
        invariant
            j <= d@.len(),
            all_digits(d@),
            value as nat == digits_value(d@.take(j as int)),
            parse_nat(s@) == Some(digits_value(d@)),
            value <= max,
        decreases d@.len() - j,
    {
        assert(is_digit(d@[j as int]));
        let v: u64 = (d[j] as u32 - '0' as u32) as u64;
        proof {
            assert(d@.take(j + 1).drop_last() =~= d@.take(j as int));
            lemma_digits_value_monotone(d@, j + 1);
        }
        if value > max / 10 || v > max - value * 10 {
            return None;
        }
        value = value * 10 + v;
        j += 1;
    }
    assert(d@.take(j as int) =~= d@);
    Some(value)
}

} // verus!
