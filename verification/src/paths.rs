//! File system paths as text.

use vstd::prelude::*;
use vstd::string::StringExecFns;

use crate::text;
use crate::text::split;

verus! {

/// `rel` below the directory `base`.
pub open spec fn joined(base: Seq<char>, rel: Seq<char>) -> Seq<char> {
    if rel.len() > 0 && rel[0] == '/' {
        rel
    } else if base.len() == 0 || base.last() == '/' {
        base + rel
    } else {
        base + seq!['/'] + rel
    }
}

/// Joins a relative path to a directory; an absolute one stands for itself.
pub fn path_join(base: &str, rel: &str) -> (r: String)
    ensures
        r@ == joined(base@, rel@),
{
    let b = text::chars(base);
    let f = text::chars(rel);
    if f.len() > 0 && f[0] == '/' {
        return text::owned(rel);
    }
    if b.len() == 0 || b[b.len() - 1] == '/' {
        return text::concat2(base, rel);
    }
    let mut out = text::owned(base);
    out.push('/');
    out.append(rel);
    assert(out@ =~= joined(base@, rel@));
    out
}

/// The parts of a path: what stands between its slashes, but for nothing and for a
/// single dot.
pub open spec fn parts(path: Seq<char>) -> Seq<Seq<char>> {
    split(path, '/').filter(|part: Seq<char>| part.len() > 0 && part != "."@)
}

/// The last part of a path, where there is one and it does not go up.
pub open spec fn file_name(path: Seq<char>) -> Option<Seq<char>> {
    if parts(path).len() == 0 || parts(path).last() == ".."@ {
        None
    } else {
        Some(parts(path).last())
    }
}

/// A path without its last part.
pub uninterp spec fn parent_dir(path: Seq<char>) -> Option<Seq<char>>;

/// `std::path::Path::file_name` gives the last part of a path, or nothing where there
/// is none or it goes up. Parts stand between slashes; repeated slashes, slashes at the
/// end and single dots make no part that counts.
#[verifier::external_body]
pub(crate) fn file_name_of(path: &str) -> (r: Option<String>)
    ensures
        r.deep_view() == file_name(path@),
{
    std::path::Path::new(path).file_name().and_then(|n| n.to_str()).map(|n| n.to_owned())
}

/// `std::path::Path::parent` gives a path without its last part, or nothing where
/// there is none. The result depends on the path alone; how what is left is written
/// is not stated here.
#[verifier::external_body]
pub(crate) fn parent_of(path: &str) -> (r: Option<String>)
    ensures
        r.deep_view() == parent_dir(path@),
{
    std::path::Path::new(path).parent().map(|p| p.display().to_string())
}

/// A path below a directory is the two with a slash between them; an absolute path stands
/// for itself, and nothing is put between where the directory ends in a slash or is empty.
pub proof fn law_joining_paths(base: Seq<char>, rel: Seq<char>)
    ensures
        rel.len() > 0 && rel[0] == '/' ==> joined(base, rel) == rel,
        (rel.len() == 0 || rel[0] != '/') && base.len() == 0 ==> joined(base, rel) == rel,
        (rel.len() == 0 || rel[0] != '/') && base.len() > 0 && base[base.len() - 1] == '/' ==> joined(
            base,
            rel,
        ) == base + rel,
        (rel.len() == 0 || rel[0] != '/') && base.len() > 0 && base[base.len() - 1] != '/' ==> joined(
            base,
            rel,
        ) == base + "/"@ + rel,
{
    reveal_strlit("/");
    assert("/"@ =~= seq!['/']);
    if base.len() == 0 {
        assert(base + rel =~= rel);
    }
}

} // verus!
