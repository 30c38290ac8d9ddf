//! What cutting, trimming, searching and numbering texts comes to.

use vstd::prelude::*;
use vstd::utf8::char_u32_cast;

use crate::text::{
    all_digits, ascii_lower, decimal, digits_value, ends_with, find, has, index_of, is_digit,
    is_white, join, last_index_of, lemma_find_from, lemma_index_from, lemma_last_index_of,
    lemma_trim_end, lemma_trim_start, lines, occurs_at, parse_max, parse_nat,
    pieces_after, replace, split, starts_with, strip_cr, trim, trim_end, trim_start, word_len, words,
};

verus! {

// ---------------------------------------------------------------------------
// White space
// ---------------------------------------------------------------------------

/// Which characters are white space: tabs, ends of lines and of pages, and spaces of any
/// width.
pub proof fn law_white_space(c: char)
    ensures
        is_white(c) <==> c == '\t' || c == '\n' || c == '\u{b}' || c == '\u{c}' || c == '\r' || c == ' '
            || c == '\u{85}' || c == '\u{a0}' || c == '\u{1680}' || ('\u{2000}' <= c && c <= '\u{200a}')
            || c == '\u{2028}' || c == '\u{2029}' || c == '\u{202f}' || c == '\u{205f}' || c
            == '\u{3000}',
{
    char_u32_cast(c, c as u32);
}

/// Whether a text is empty, or begins and ends with characters that are no white space.
pub open spec fn tight(s: Seq<char>) -> bool {
    s.len() > 0 ==> !is_white(s[0]) && !is_white(s[s.len() - 1])
}

proof fn lemma_trim_start_of(a: Seq<char>, m: Seq<char>)
    requires
        forall|i: int| 0 <= i < a.len() ==> is_white(#[trigger] a[i]),
        m.len() > 0 ==> !is_white(m[0]),
    ensures
        trim_start(a + m) == m,
    decreases a.len(),
{
    if a.len() == 0 {
        assert(a + m =~= m);
    } else {
        assert((a + m)[0] == a[0]);
        assert((a + m).skip(1) =~= a.skip(1) + m);
        assert forall|i: int| 0 <= i < a.skip(1).len() implies is_white(#[trigger] a.skip(1)[i]) by {
            assert(a.skip(1)[i] == a[i + 1]);
        }
        lemma_trim_start_of(a.skip(1), m);
    }
}

proof fn lemma_trim_end_of(m: Seq<char>, b: Seq<char>)
    requires
        forall|i: int| 0 <= i < b.len() ==> is_white(#[trigger] b[i]),
        m.len() > 0 ==> !is_white(m[m.len() - 1]),
    ensures
        trim_end(m + b) == m,
    decreases b.len(),
{
    if b.len() == 0 {
        assert(m + b =~= m);
    } else {
        assert((m + b).last() == b.last());
        assert((m + b).drop_last() =~= m + b.drop_last());
        assert forall|i: int| 0 <= i < b.drop_last().len() implies is_white(
            #[trigger] b.drop_last()[i],
        ) by {
            assert(b.drop_last()[i] == b[i]);
        }
        lemma_trim_end_of(m, b.drop_last());
    }
}

/// Trimming takes away the white space before and behind a text, and nothing else.
pub proof fn law_trimming(before: Seq<char>, s: Seq<char>, behind: Seq<char>)
    requires
        forall|i: int| 0 <= i < before.len() ==> is_white(#[trigger] before[i]),
        forall|i: int| 0 <= i < behind.len() ==> is_white(#[trigger] behind[i]),
        tight(s),
    ensures
        trim(before + s + behind) == s,
        trim(s) == s,
{
    if s.len() > 0 {
        let m = s + behind;
        assert(m[0] == s[0]);
        assert(before + s + behind =~= before + m);
        lemma_trim_start_of(before, m);
        lemma_trim_end_of(s, behind);
        let none = Seq::<char>::empty();
        lemma_trim_start_of(none, s);
        lemma_trim_end_of(s, none);
        assert(none + s =~= s);
        assert(s + none =~= s);
    } else {
        let all = before + s + behind;
        assert forall|i: int| 0 <= i < all.len() implies is_white(#[trigger] all[i]) by {
            if i < before.len() {
                assert(all[i] == before[i]);
            } else {
                assert(all[i] == behind[i - before.len()]);
            }
        }
        lemma_trim_start_of(all, s);
        assert(all + s =~= all);
        assert(trim_end(s) =~= s);
        assert(trim_start(s) =~= s);
    }
}

/// What is left after trimming is tight.
pub proof fn law_trimmed_texts_are_tight(s: Seq<char>)
    ensures
        tight(trim(s)),
        trim(trim(s)) == trim(s),
{
    lemma_trim_start(s);
    lemma_trim_end(trim_start(s));
    let t = trim(s);
    if t.len() > 0 {
        assert(t[0] == trim_start(s)[0]);
    }
    let none = Seq::<char>::empty();
    law_trimming(none, t, none);
}

// ---------------------------------------------------------------------------
// Searching
// ---------------------------------------------------------------------------

/// A search gives the first place where the pattern stands, and none exactly where it
/// stands nowhere.
pub proof fn law_searches_find_the_first(s: Seq<char>, pat: Seq<char>, i: int)
    requires
        0 <= i,
        i + pat.len() <= s.len(),
        s.subrange(i, i + pat.len()) == pat,
    ensures
        find(s, pat) matches Some(at) && 0 <= at <= i && s.subrange(at, at + pat.len()) == pat && (
        forall|k: int| 0 <= k < at ==> #[trigger] s.subrange(k, k + pat.len()) != pat),
{
    lemma_find_from(s, pat, 0);
    assert(occurs_at(s, pat, i));
    let at = find(s, pat)->0;
    assert forall|k: int| 0 <= k < at implies #[trigger] s.subrange(k, k + pat.len()) != pat by {
        assert(!occurs_at(s, pat, k));
    }
}

/// Where a search finds nothing, the pattern stands nowhere; what it finds is there.
pub proof fn law_searches_are_true(s: Seq<char>, pat: Seq<char>)
    ensures
        find(s, pat) matches Some(at) ==> 0 <= at && at + pat.len() <= s.len() && s.subrange(
            at,
            at + pat.len(),
        ) == pat,
        find(s, pat) is None ==> forall|i: int|
            0 <= i && i + pat.len() <= s.len() ==> #[trigger] s.subrange(i, i + pat.len()) != pat,
{
    lemma_find_from(s, pat, 0);
    if find(s, pat) is None {
        assert forall|i: int| 0 <= i && i + pat.len() <= s.len() implies #[trigger] s.subrange(
            i,
            i + pat.len(),
        ) != pat by {
            assert(!occurs_at(s, pat, i));
        }
    }
}

/// A search for a character gives its first place, from the left or from the right.
pub proof fn law_places_of_a_character(s: Seq<char>, c: char)
    ensures
        index_of(s, c) matches Some(i) ==> 0 <= i < s.len() && s[i] == c && forall|k: int|
            0 <= k < i ==> s[k] != c,
        last_index_of(s, c) matches Some(i) ==> 0 <= i < s.len() && s[i] == c && forall|k: int|
            i < k < s.len() ==> s[k] != c,
        index_of(s, c) is Some <==> s.contains(c),
        last_index_of(s, c) is Some <==> s.contains(c),
{
    lemma_index_from(s, c, 0);
    lemma_last_index_of(s, c);
}

/// The first place of a character behind a text that lacks it.
pub proof fn lemma_index_behind(a: Seq<char>, c: char, b: Seq<char>)
    requires
        !a.contains(c),
    ensures
        index_of(a + seq![c] + b, c) == Some(a.len() as int),
{
    let s = a + seq![c] + b;
    lemma_index_from(s, c, 0);
    assert(s[a.len() as int] == c);
    let i = index_of(s, c)->0;
    if i < a.len() {
        assert(a[i] == c);
    }
}

proof fn lemma_no_index(s: Seq<char>, c: char)
    requires
        !s.contains(c),
    ensures
        index_of(s, c) is None,
{
    lemma_index_from(s, c, 0);
}

/// The first place of a pattern that stands behind a text without the pattern's first
/// character.
pub proof fn lemma_find_behind(a: Seq<char>, pat: Seq<char>, b: Seq<char>)
    requires
        pat.len() > 0,
        !a.contains(pat[0]),
    ensures
        find(a + pat + b, pat) == Some(a.len() as int),
{
    let s = a + pat + b;
    let n = a.len() as int;
    let there = s.subrange(n, n + pat.len());
    assert(there =~= pat);
    lemma_find_from(s, pat, 0);
    assert(occurs_at(s, pat, n));
    let i = find(s, pat)->0;
    assert(0 <= i <= n);
    if i < n {
        let found = s.subrange(i, i + pat.len());
        assert(found == pat);
        assert(found[0] == s[i]);
        assert(s[i] == a[i]);
        assert(a.contains(a[i]));
    }
}

/// A text without a pattern's first character is without the pattern.
pub proof fn lemma_find_nothing(s: Seq<char>, pat: Seq<char>)
    requires
        pat.len() > 0,
        !s.contains(pat[0]),
    ensures
        find(s, pat) is None,
{
    lemma_find_from(s, pat, 0);
    if find(s, pat) is Some {
        let i = find(s, pat)->0;
        assert(s.subrange(i, i + pat.len())[0] == s[i]);
    }
}

// ---------------------------------------------------------------------------
// Cutting
// ---------------------------------------------------------------------------

/// A text without the separator is one part; in front of a separator it is the first of
/// the parts.
pub proof fn law_parts(first: Seq<char>, sep: char, rest: Seq<char>)
    requires
        !first.contains(sep),
    ensures
        split(first, sep) == seq![first],
        split(first + seq![sep] + rest, sep) == seq![first] + split(rest, sep),
{
    lemma_no_index(first, sep);
    lemma_index_behind(first, sep, rest);
    let s = first + seq![sep] + rest;
    assert(s.take(first.len() as int) =~= first);
    assert(s.skip(first.len() as int + 1) =~= rest);
}

/// A line ends at `\n` or `\r\n`, which is no part of it. What stands behind the last
/// end is a line too, where it is not empty.
pub proof fn law_lines(line: Seq<char>, rest: Seq<char>)
    requires
        !line.contains('\n'),
    ensures
        lines(Seq::<char>::empty()) == Seq::<Seq<char>>::empty(),
        line.len() > 0 ==> lines(line) == seq![line],
        (line.len() > 0 ==> line.last() != '\r') ==> lines(line + seq!['\n'] + rest) == seq![line]
            + lines(rest),
        lines(line + seq!['\r', '\n'] + rest) == seq![line] + lines(rest),
{
    lemma_no_index(line, '\n');
    lemma_index_behind(line, '\n', rest);
    let s = line + seq!['\n'] + rest;
    assert(s.take(line.len() as int) =~= line);
    assert(s.skip(line.len() as int + 1) =~= rest);
    let cr = line + seq!['\r'];
    assert(!cr.contains('\n')) by {
        if cr.contains('\n') {
            let k = choose|k: int| 0 <= k < cr.len() && cr[k] == '\n';
            assert(line[k] == '\n');
        }
    }
    lemma_index_behind(cr, '\n', rest);
    let t = line + seq!['\r', '\n'] + rest;
    assert(t =~= cr + seq!['\n'] + rest);
    assert(t.take(cr.len() as int) =~= cr);
    assert(t.skip(cr.len() as int + 1) =~= rest);
    assert(strip_cr(cr) =~= line);
}

/// The length of the word that a text begins with.
pub proof fn lemma_word_before(w: Seq<char>, rest: Seq<char>)
    requires
        forall|i: int| 0 <= i < w.len() ==> !is_white(#[trigger] w[i]),
        rest.len() == 0 || is_white(rest[0]),
    ensures
        word_len(w + rest) == w.len(),
    decreases w.len(),
{
    if w.len() == 0 {
        assert(w + rest =~= rest);
    } else {
        assert((w + rest)[0] == w[0]);
        assert((w + rest).skip(1) =~= w.skip(1) + rest);
        assert forall|i: int| 0 <= i < w.skip(1).len() implies !is_white(#[trigger] w.skip(1)[i]) by {
            assert(w.skip(1)[i] == w[i + 1]);
        }
        lemma_word_before(w.skip(1), rest);
    }
}

/// White space holds no words. A run of other characters, between white space or the
/// ends of the text, is a word.
pub proof fn law_words(gap: Seq<char>, word: Seq<char>, rest: Seq<char>)
    requires
        forall|i: int| 0 <= i < gap.len() ==> is_white(#[trigger] gap[i]),
        word.len() > 0,
        forall|i: int| 0 <= i < word.len() ==> !is_white(#[trigger] word[i]),
        rest.len() == 0 || is_white(rest[0]),
    ensures
        words(gap) == Seq::<Seq<char>>::empty(),
        words(gap + word + rest) == seq![word] + words(rest),
{
    let none = Seq::<char>::empty();
    lemma_trim_start_of(gap, none);
    assert(gap + none =~= gap);
    let m = word + rest;
    assert(m[0] == word[0]);
    assert(gap + word + rest =~= gap + m);
    lemma_trim_start_of(gap, m);
    lemma_word_before(word, rest);
    assert(m.take(word.len() as int) =~= word);
    assert(m.skip(word.len() as int) =~= rest);
}

/// Joined parts follow each other with the separator between each two.
pub proof fn law_joining(parts: Seq<Seq<char>>, last: Seq<char>, sep: Seq<char>)
    ensures
        join(seq![last], sep) == last,
        parts.len() > 0 ==> join(parts.push(last), sep) == join(parts, sep) + sep + last,
        join(Seq::<Seq<char>>::empty(), sep) == Seq::<char>::empty(),
{
    assert(parts.push(last).drop_last() =~= parts);
}

/// Replacing puts the other text in the place of the first occurrence, and goes on
/// behind it. A text without the pattern stays.
pub proof fn law_replacing(a: Seq<char>, pat: Seq<char>, b: Seq<char>, with: Seq<char>)
    requires
        pat.len() > 0,
        forall|k: int|
            0 <= k < a.len() ==> #[trigger] (a + pat + b).subrange(k, k + pat.len()) != pat,
    ensures
        replace(a + pat + b, pat, with) == a + with + replace(b, pat, with),
        (forall|k: int|
            0 <= k && k + pat.len() <= b.len() ==> #[trigger] b.subrange(k, k + pat.len()) != pat)
            ==> replace(b, pat, with) == b,
{
    let s = a + pat + b;
    let n = a.len() as int;
    assert(s.subrange(n, n + pat.len()) =~= pat);
    lemma_find_from(s, pat, 0);
    assert(occurs_at(s, pat, n));
    let i = find(s, pat)->0;
    if i < n {
        assert(s.subrange(i, i + pat.len()) != pat);
    }
    assert(s.take(n) =~= a);
    assert(s.skip(n + pat.len()) =~= b);
    lemma_find_from(b, pat, 0);
}

/// Replacing in a text without the pattern's first character changes nothing.
pub proof fn lemma_replace_nothing(s: Seq<char>, pat: Seq<char>, with: Seq<char>)
    requires
        pat.len() > 0,
        !s.contains(pat[0]),
    ensures
        replace(s, pat, with) == s,
{
    lemma_find_nothing(s, pat);
}

/// The pieces behind a pattern: none where it does not stand; else what stands between
/// it and the next, and then the pieces from there.
pub proof fn law_pieces(a: Seq<char>, pat: Seq<char>, piece: Seq<char>, rest: Seq<char>)
    requires
        pat.len() > 0,
        !a.contains(pat[0]),
        find(piece + rest, pat) == (if rest.len() == 0 {
            None
        } else {
            Some(piece.len() as int)
        }),
    ensures
        pieces_after(a, pat) == Seq::<Seq<char>>::empty(),
        pieces_after(a + pat + piece + rest, pat) == seq![piece] + pieces_after(piece + rest, pat),
{
    lemma_find_nothing(a, pat);
    let b = piece + rest;
    let s = a + pat + piece + rest;
    assert(s =~= a + pat + b);
    lemma_find_behind(a, pat, b);
    assert(s.skip(a.len() as int + pat.len()) =~= b);
    assert(b.take(piece.len() as int) =~= piece);
    if rest.len() == 0 {
        assert(b =~= piece);
    }
}

// ---------------------------------------------------------------------------
// Letters and numbers
// ---------------------------------------------------------------------------

/// Lowering takes each capital letter of ASCII to its small one and leaves all else.
pub proof fn law_lowering(s: Seq<char>, i: int)
    requires
        0 <= i < s.len(),
    ensures
        ascii_lower(s).len() == s.len(),
        'A' <= s[i] <= 'Z' ==> ascii_lower(s)[i] as u32 == s[i] as u32 + 32,
        !('A' <= s[i] <= 'Z') ==> ascii_lower(s)[i] == s[i],
{
}

/// Texts that are in lower case stay as they are.
pub proof fn law_lowering_again(s: Seq<char>)
    requires
        forall|i: int| 0 <= i < s.len() ==> !('A' <= #[trigger] s[i] <= 'Z'),
    ensures
        ascii_lower(s) == s,
{
    assert(ascii_lower(s) =~= s);
}

/// A number in decimal reads back as the number, with no digit in vain.
pub proof fn law_numbers_read_back(n: nat)
    ensures
        parse_nat(decimal(n)) == Some(n),
        forall|i: int| 0 <= i < decimal(n).len() ==> '0' <= #[trigger] decimal(n)[i] <= '9',
        decimal(n).len() > 0,
        decimal(n).len() > 1 ==> decimal(n)[0] != '0',
        all_digits(decimal(n)),
        digits_value(decimal(n)) == n,
        n < 10 ==> decimal(n).len() == 1 && decimal(n)[0] as u32 == 0x30 + n,
        n >= 10 ==> decimal(n).drop_last() == decimal(n / 10) && decimal(n).last() as u32 == 0x30 + n
            % 10,
    decreases n,
{
    let s = decimal(n);
    if n < 10 {
        assert(s[0] as u32 == 0x30 + n);
        assert(s.drop_last() =~= Seq::empty());
        assert(digits_value(s.drop_last()) == 0);
    } else {
        law_numbers_read_back(n / 10);
        let t = decimal(n / 10);
        assert(s.drop_last() =~= t);
        assert(s.last() as u32 == 0x30 + n % 10);
        assert forall|i: int| 0 <= i < s.len() implies '0' <= #[trigger] s[i] <= '9' by {
            if i < t.len() {
                assert(s[i] == t[i]);
            }
        }
        assert(s[0] == t[0]);
        if t.len() == 1 {
            assert(n / 10 < 10) by {
                if n / 10 >= 10 {
                    law_numbers_read_back(n / 100);
                    assert(n / 10 / 10 == n / 100);
                }
            }
        }
    }
    assert(s[0] != '+');
}

/// What can be read as a number is its digits, behind a plus sign or not: each digit
/// counts ten times the next.
pub proof fn law_reading_numbers(s: Seq<char>, d: char, max: nat)
    requires
        s.len() > 0,
        forall|i: int| 0 <= i < s.len() ==> '0' <= #[trigger] s[i] <= '9',
        '0' <= d <= '9',
    ensures
        parse_nat(s) is Some,
        parse_nat(seq![d]) == Some((d as u32 - 0x30) as nat),
        parse_nat(s.push(d)) == Some((parse_nat(s)->0 * 10 + (d as u32 - 0x30)) as nat),
        parse_nat(seq!['+'] + s) == parse_nat(s),
        parse_max(s, max) == (if parse_nat(s)->0 <= max {
            parse_nat(s)
        } else {
            None
        }),
{
    assert(s.push(d).drop_last() =~= s);
    assert((seq!['+'] + s).skip(1) =~= s);
    assert(all_digits(s));
    assert(all_digits(s.push(d)));
    assert(all_digits(seq![d]));
    assert(seq![d].drop_last() =~= Seq::empty());
    assert(digits_value(seq![d].drop_last()) == 0);
}

/// A text that holds anything but digits, behind a plus sign or not, is no number.
pub proof fn law_what_is_no_number(s: Seq<char>, i: int)
    requires
        0 <= i < s.len(),
        !('0' <= s[i] <= '9'),
        i > 0 || s[0] != '+' || s.len() == 1,
    ensures
        parse_nat(s) is None,
        parse_nat(Seq::<char>::empty()) is None,
{
    if s[0] == '+' {
        if i > 0 {
            assert(s.skip(1)[i - 1] == s[i]);
            assert(!is_digit(s.skip(1)[i - 1]));
        }
    } else {
        assert(!is_digit(s[i]));
    }
}

/// A text begins with another, ends with it or holds it where the other stands at its
/// beginning, at its end or anywhere in it.
pub proof fn law_beginnings_and_ends(s: Seq<char>, pat: Seq<char>)
    ensures
        starts_with(s, pat) <==> s.len() >= pat.len() && s.take(pat.len() as int) == pat,
        ends_with(s, pat) <==> s.len() >= pat.len() && s.skip(s.len() - pat.len()) == pat,
        has(s, pat) <==> exists|i: int|
            0 <= i && i + pat.len() <= s.len() && #[trigger] s.subrange(i, i + pat.len()) == pat,
{
    if s.len() >= pat.len() {
        assert(s.take(pat.len() as int) =~= s.subrange(0, pat.len() as int));
        assert(s.skip(s.len() - pat.len()) =~= s.subrange(s.len() - pat.len(), s.len() as int));
    }
    if has(s, pat) {
        let i = choose|i: int| occurs_at(s, pat, i);
        assert(s.subrange(i, i + pat.len()) == pat);
    }
    if exists|i: int|
        0 <= i && i + pat.len() <= s.len() && #[trigger] s.subrange(i, i + pat.len()) == pat {
        let i = choose|i: int|
            0 <= i && i + pat.len() <= s.len() && #[trigger] s.subrange(i, i + pat.len()) == pat;
        assert(occurs_at(s, pat, i));
    }
}

} // verus!
