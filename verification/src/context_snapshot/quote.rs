//! Quoting for the compositor's command parser and for the shell.

use vstd::prelude::*;

use crate::text;
use crate::text::join;

verus! {

// ---------------------------------------------------------------------------
// Compositor commands
// ---------------------------------------------------------------------------

/// `s` with a backslash before each double quote and each backslash.
pub open spec fn sway_escaped(s: Seq<char>) -> Seq<char>
    decreases s.len(),
{
    if s.len() == 0 {
        Seq::empty()
    } else if s[0] == '"' || s[0] == '\\' {
        seq!['\\', s[0]] + sway_escaped(s.skip(1))
    } else {
        seq![s[0]] + sway_escaped(s.skip(1))
    }
}

/// `s` in double quotes.
pub open spec fn sway_quoted(s: Seq<char>) -> Seq<char> {
    seq!['"'] + sway_escaped(s) + seq!['"']
}

/// Quotes a text for the compositor's command parser.
pub fn sway_quote(s: &str) -> (r: String)
    ensures
        r@ == sway_quoted(s@),
{
    let cs = text::chars(s);
    let mut out = String::new();
    out.push('"');
    let mut i: usize = 0;
    proof {
        assert(cs@.skip(0) =~= cs@);
        assert(out@ =~= seq!['"']);
    }
    while i < cs.len()
        invariant
            i <= cs@.len(),
            out@ + sway_escaped(cs@.skip(i as int)) == seq!['"'] + sway_escaped(cs@),
        decreases cs@.len() - i,
    {
        let ghost before = out@;
        let c = cs[i];
        if c == '"' || c == '\\' {
            out.push('\\');
        }
        out.push(c);
        proof {
            assert(cs@.skip(i as int).skip(1) =~= cs@.skip(i + 1));
            assert(out@ + sway_escaped(cs@.skip(i + 1)) =~= before + sway_escaped(
                cs@.skip(i as int),
            ));
        }
        i += 1;
    }
    proof {
        assert(out@ =~= seq!['"'] + sway_escaped(cs@));
    }
    out.push('"');
    assert(out@ =~= sway_quoted(s@));
    out
}

/// How the compositor reads a quoted text, from behind the opening quote: the
/// text and what follows the closing quote. A backslash makes the next
/// character stand for itself.
pub open spec fn sway_read(t: Seq<char>) -> Option<(Seq<char>, Seq<char>)>
    decreases t.len(),
{
    if t.len() == 0 {
        None
    } else if t[0] == '"' {
        Some((Seq::empty(), t.skip(1)))
    } else if t[0] == '\\' {
        if t.len() < 2 {
            None
        } else {
            match sway_read(t.skip(2)) {
                Some((s, rest)) => Some((seq![t[1]] + s, rest)),
                None => None,
            }
        }
    } else {
        match sway_read(t.skip(1)) {
            Some((s, rest)) => Some((seq![t[0]] + s, rest)),
            None => None,
        }
    }
}

/// A quoted text reads back as itself, whatever follows it.
pub proof fn law_sway_quote_reads_back(s: Seq<char>, rest: Seq<char>)
    ensures
        sway_quoted(s)[0] == '"',
        sway_read((sway_quoted(s) + rest).skip(1)) == Some((s, rest)),
{
    lemma_sway_read(s, rest);
    assert((sway_quoted(s) + rest).skip(1) =~= sway_escaped(s) + seq!['"'] + rest);
}

proof fn lemma_sway_read(s: Seq<char>, rest: Seq<char>)
    ensures
        sway_read(sway_escaped(s) + seq!['"'] + rest) == Some((s, rest)),
    decreases s.len(),
{
    let t = sway_escaped(s) + seq!['"'] + rest;
    if s.len() == 0 {
        assert(t.skip(1) =~= rest);
        assert(s =~= Seq::empty());
    } else {
        let tail = sway_escaped(s.skip(1)) + seq!['"'] + rest;
        lemma_sway_read(s.skip(1), rest);
        assert(s =~= seq![s[0]] + s.skip(1));
        if s[0] == '"' || s[0] == '\\' {
            assert(t.skip(2) =~= tail);
            assert(t[0] == '\\');
            assert(t[1] == s[0]);
        } else {
            assert(t.skip(1) =~= tail);
            assert(t[0] == s[0]);
        }
    }
}

// ---------------------------------------------------------------------------
// Shell words
// ---------------------------------------------------------------------------

/// `s` with each single quote replaced by a closing quote, an escaped quote and
/// an opening quote.
pub open spec fn shell_escaped(s: Seq<char>) -> Seq<char>
    decreases s.len(),
{
    if s.len() == 0 {
        Seq::empty()
    } else if s[0] == '\'' {
        seq!['\'', '\\', '\'', '\''] + shell_escaped(s.skip(1))
    } else {
        seq![s[0]] + shell_escaped(s.skip(1))
    }
}

/// `s` as one word of a shell command.
pub open spec fn shell_quoted(s: Seq<char>) -> Seq<char> {
    seq!['\''] + shell_escaped(s) + seq!['\'']
}

/// A list of arguments as a shell command.
pub open spec fn shell_quoted_words(args: Seq<Seq<char>>) -> Seq<char> {
    join(args.map_values(|a: Seq<char>| shell_quoted(a)), " "@)
}

/// Quotes a text as one word of a shell command.
pub fn shell_quote_one(s: &str) -> (r: String)
    ensures
        r@ == shell_quoted(s@),
{
    let cs = text::chars(s);
    let mut out = String::new();
    out.push('\'');
    let mut i: usize = 0;
    proof {
        assert(cs@.skip(0) =~= cs@);
        assert(out@ =~= seq!['\'']);
    }
    while i < cs.len()
        invariant
            i <= cs@.len(),
            out@ + shell_escaped(cs@.skip(i as int)) == seq!['\''] + shell_escaped(cs@),
        decreases cs@.len() - i,
    {
        let ghost before = out@;
        let c = cs[i];
        if c == '\'' {
            out.push('\'');
            out.push('\\');
            out.push('\'');
            out.push('\'');
        } else {
            out.push(c);
        }
        proof {
            assert(cs@.skip(i as int).skip(1) =~= cs@.skip(i + 1));
            assert(out@ + shell_escaped(cs@.skip(i + 1)) =~= before + shell_escaped(
                cs@.skip(i as int),
            ));
        }
        i += 1;
    }
    proof {
        assert(out@ =~= seq!['\''] + shell_escaped(cs@));
    }
    out.push('\'');
    assert(out@ =~= shell_quoted(s@));
    out
}

/// Quotes a list of arguments as a shell command.
pub fn shell_quote_cmdline(args: &[String]) -> (r: String)
    ensures
        r@ == shell_quoted_words(args.deep_view()),
{
    let ghost want = args.deep_view().map_values(|a: Seq<char>| shell_quoted(a));
    let mut words: Vec<String> = Vec::new();
    let mut i: usize = 0;
    assert(words.deep_view() =~= want.take(0));
    while i < args.len()
        invariant
            i <= args@.len(),
            want == args.deep_view().map_values(|a: Seq<char>| shell_quoted(a)),
            words.deep_view() == want.take(i as int),
        decreases args@.len() - i,
    {
        let ghost before = words.deep_view();
        words.push(shell_quote_one(&args[i]));
        proof {
            assert(words.deep_view() =~= before.push(want[i as int]));
            assert(want.take(i + 1) =~= want.take(i as int).push(want[i as int]));
        }
        i += 1;
    }
    assert(want.take(i as int) =~= want);
    text::join_strings(&words, " ")
}

/// How the shell reads one word made of single-quoted parts and escaped
/// characters: the word and what follows it. `inside` tells whether a quote is
/// open; outside, a space or the end closes the word.
pub open spec fn shell_read(t: Seq<char>, inside: bool) -> Option<(Seq<char>, Seq<char>)>
    decreases t.len(),
{
    if t.len() == 0 {
        if inside {
            None
        } else {
            Some((Seq::empty(), Seq::empty()))
        }
    } else if t[0] == '\'' {
        shell_read(t.skip(1), !inside)
    } else if inside {
        match shell_read(t.skip(1), true) {
            Some((s, rest)) => Some((seq![t[0]] + s, rest)),
            None => None,
        }
    } else if t[0] == '\\' {
        if t.len() < 2 {
            None
        } else {
            match shell_read(t.skip(2), false) {
                Some((s, rest)) => Some((seq![t[1]] + s, rest)),
                None => None,
            }
        }
    } else if t[0] == ' ' {
        Some((Seq::empty(), t))
    } else {
        None
    }
}

/// How the shell reads a command made of such words with a space between them.
pub open spec fn shell_read_words(t: Seq<char>) -> Option<Seq<Seq<char>>>
    decreases t.len(),
{
    match shell_read(t, false) {
        None => None,
        Some((word, rest)) => if rest.len() == 0 {
            Some(seq![word])
        } else if rest.len() > t.len() {
            None
        } else {
            match shell_read_words(rest.skip(1)) {
                None => None,
                Some(words) => Some(seq![word] + words),
            }
        },
    }
}

/// A quoted argument reads back as one word with the same text.
pub proof fn law_shell_quote_reads_back(s: Seq<char>, rest: Seq<char>)
    requires
        rest.len() == 0 || rest[0] == ' ',
    ensures
        shell_read(shell_quoted(s) + rest, false) == Some((s, rest)),
{
    let t = shell_quoted(s) + rest;
    assert(t.skip(1) =~= shell_escaped(s) + seq!['\''] + rest);
    lemma_shell_read(s, rest);
}

proof fn lemma_shell_read(s: Seq<char>, rest: Seq<char>)
    requires
        rest.len() == 0 || rest[0] == ' ',
    ensures
        shell_read(shell_escaped(s) + seq!['\''] + rest, true) == Some((s, rest)),
    decreases s.len(),
{
    let t = shell_escaped(s) + seq!['\''] + rest;
    reveal_with_fuel(shell_read, 3);
    if s.len() == 0 {
        assert(t.skip(1) =~= rest);
        assert(s =~= Seq::empty());
        if rest.len() == 0 {
            assert(rest =~= Seq::empty());
        }
    } else {
        let tail = shell_escaped(s.skip(1)) + seq!['\''] + rest;
        lemma_shell_read(s.skip(1), rest);
        assert(s =~= seq![s[0]] + s.skip(1));
        if s[0] == '\'' {
            assert(t.skip(1).skip(2).skip(1) =~= tail);
            assert(t.skip(1)[0] == '\\');
            assert(t.skip(1)[1] == '\'');
            assert(t.skip(1).skip(2)[0] == '\'');
            assert(shell_read(t.skip(1).skip(2), false) == Some((s.skip(1), rest)));
        } else {
            assert(t.skip(1) =~= tail);
        }
    }
}

/// The shell reads a quoted command back as the arguments it was made of.
pub proof fn law_shell_quote_cmdline_reads_back(args: Seq<Seq<char>>)
    requires
        args.len() > 0,
    ensures
        shell_read_words(shell_quoted_words(args)) == Some(args),
    decreases args.len(),
{
    let quoted = args.map_values(|a: Seq<char>| shell_quoted(a));
    reveal_strlit(" ");
    if args.len() == 1 {
        law_shell_quote_reads_back(args[0], Seq::empty());
        assert(shell_quoted(args[0]) + Seq::<char>::empty() =~= shell_quoted(args[0]));
        assert(args =~= seq![args[0]]);
    } else {
        let tail = args.skip(1);
        let tail_quoted = tail.map_values(|a: Seq<char>| shell_quoted(a));
        law_shell_quote_cmdline_reads_back(tail);
        lemma_join_front(quoted, " "@);
        assert(quoted.skip(1) =~= tail_quoted);
        let rest = " "@ + shell_quoted_words(tail);
        assert(shell_quoted_words(args) =~= shell_quoted(args[0]) + rest);
        law_shell_quote_reads_back(args[0], rest);
        assert(rest.skip(1) =~= shell_quoted_words(tail));
        assert(args =~= seq![args[0]] + tail);
    }
}

/// `join` can be unrolled from the front as well as from the back.
pub proof fn lemma_join_front(parts: Seq<Seq<char>>, sep: Seq<char>)
    requires
        parts.len() >= 2,
    ensures
        join(parts, sep) == parts[0] + sep + join(parts.skip(1), sep),
    decreases parts.len(),
{
    if parts.len() == 2 {
        assert(parts.drop_last() =~= seq![parts[0]]);
        assert(join(parts.drop_last(), sep) == parts[0]);
        assert(parts.skip(1)[0] == parts[1]);
        assert(join(parts, sep) =~= parts[0] + sep + join(parts.skip(1), sep));
    } else {
        lemma_join_front(parts.drop_last(), sep);
        assert(parts.drop_last().skip(1) =~= parts.skip(1).drop_last());
        assert(parts.skip(1).last() == parts.last());
        assert(join(parts, sep) =~= parts[0] + sep + join(parts.skip(1), sep));
    }
}

} // verus!
