//! The registry of named hosts.

use vstd::prelude::*;
use vstd::utf8::char_u32_cast;

use crate::cuts::law_lowering;
use crate::order::{
    law_sorting, lemma_lex_total, lemma_lex_trans, lex_le, lex_lt, sort, sort_by, str_lt,
};
use crate::seqs::{first_where, lemma_first_where_is, lemma_first_where_none};
use crate::text;
use crate::text::ascii_lower;

verus! {

/// The hosts that one configuration file declares.
#[derive(Debug, Clone, PartialEq, Eq)]
pub struct HostFile {
    pub hosts: Vec<HostConfig>,
}

/// The seconds that a connection may take where none are configured.
pub const DEFAULT_CONNECT_TIMEOUT_SECS: u64 = 5;

/// A named host.
#[derive(Debug, Clone, PartialEq, Eq)]
pub struct HostConfig {
    /// What the host is called here.
    pub name: String,
    /// What is handed to `ssh`; `localhost` runs commands directly.
    pub hostname: String,
    pub user: Option<String>,
    pub port: Option<u16>,
    /// What the widgets call the host.
    pub display_name: Option<String>,
    pub project: Option<String>,
    pub poll_interval_secs: Option<u64>,
    pub connect_timeout_secs: u64,
    /// Which modules watch the host. None at all: it is dormant.
    pub roles: Vec<HostRole>,
}

/// Which module watches a host.
#[derive(Debug, Clone, Copy, PartialEq, Eq, Hash, Structural)]
pub enum HostRole {
    SshMonitor,
    Gpu,
    Jobs,
}

/// What the widgets call a host.
pub open spec fn shown_name(h: HostConfig) -> Seq<char> {
    match h.display_name {
        Some(d) => d@,
        None => h.name@,
    }
}

/// The seconds that a connection may take: at least one.
pub open spec fn timeout_of(h: HostConfig) -> u64 {
    if h.connect_timeout_secs < 1 {
        1
    } else {
        h.connect_timeout_secs
    }
}

/// Whether a host is this machine.
pub open spec fn local(h: HostConfig) -> bool {
    h.hostname@ == "localhost"@ || h.hostname@ == "127.0.0.1"@ || h.hostname@ == "::1"@
}

impl HostConfig {
    pub fn display_name(&self) -> (r: &str)
        ensures
            r@ == shown_name(*self),
    {
        match &self.display_name {
            Some(d) => d.as_str(),
            None => self.name.as_str(),
        }
    }

    /// The seconds that a connection may take: at least one.
    pub fn connect_timeout(&self) -> (r: u64)
        ensures
            r == timeout_of(*self),
    {
        if self.connect_timeout_secs < 1 {
            1
        } else {
            self.connect_timeout_secs
        }
    }

    pub fn has_role(&self, role: HostRole) -> (r: bool)
        ensures
            r == self.roles@.contains(role),
    {
        let mut i: usize = 0;
        while i < self.roles.len()
            invariant
                i <= self.roles@.len(),
                forall|k: int| 0 <= k < i ==> self.roles@[k] != role,
            decreases self.roles@.len() - i,
        {
            if self.roles[i] == role {
                return true;
            }
            i += 1;
        }
        false
    }

    /// Whether the host is this machine.
    pub fn is_local(&self) -> (r: bool)
        ensures
            r == local(*self),
    {
        text::same(&self.hostname, "localhost") || text::same(&self.hostname, "127.0.0.1")
            || text::same(&self.hostname, "::1")
    }
}

/// Why the hosts could not be loaded.
#[derive(Debug, Clone, PartialEq, Eq)]
pub enum HostRegistryError {
    /// The directory could not be read.
    Io { path: String, source: String },
    /// A file could not be read.
    FileIo { path: String, source: String },
    /// A file declares no hosts.
    Toml { path: String, source: String },
    /// Two hosts have the same name; the second stands in this file.
    DuplicateName { name: String, path: String },
}

impl HostRegistryError {
    pub fn message(&self) -> (r: String)
        ensures
            r@ == (match self {
                HostRegistryError::Io { path, source } => "reading host config dir "@ + path@
                    + ": "@ + source@,
                HostRegistryError::FileIo { path, source } => "reading host config file "@ + path@
                    + ": "@ + source@,
                HostRegistryError::Toml { path, source } => "parsing host config "@ + path@ + ": "@
                    + source@,
                HostRegistryError::DuplicateName { name, path } => "duplicate host name "@ + name@
                    + " in "@ + path@,
            }),
    {
        match self {
            HostRegistryError::Io { path, source } => text::concat2(
                &text::concat3("reading host config dir ", path, ": "),
                source,
            ),
            HostRegistryError::FileIo { path, source } => text::concat2(
                &text::concat3("reading host config file ", path, ": "),
                source,
            ),
            HostRegistryError::Toml { path, source } => text::concat2(
                &text::concat3("parsing host config ", path, ": "),
                source,
            ),
            HostRegistryError::DuplicateName { name, path } => text::concat2(
                &text::concat3("duplicate host name ", name, " in "),
                path,
            ),
        }
    }
}

/// The hosts that are known.
#[derive(Debug, Clone, PartialEq, Eq)]
pub struct HostRegistry {
    pub hosts: Vec<HostConfig>,
}

/// A configuration file: the hosts that it declares, or nothing where it could
/// not be read.
pub struct LoadedFile {
    pub path: String,
    pub hosts: Option<Vec<HostConfig>>,
}

/// What became of an attempt to read a file.
#[derive(Debug, Clone, PartialEq, Eq)]
pub enum HostFileOutcome {
    /// It could not be read, for this reason.
    Unreadable(String),
    /// It declares no hosts, for this reason.
    Malformed(String),
    /// It declares these.
    Read(Vec<HostConfig>),
}

/// The hosts of the file at `path`, given what became of the attempt to read it.
pub fn load_file(path: &str, outcome: HostFileOutcome) -> (r: Result<
    Vec<HostConfig>,
    HostRegistryError,
>)
    ensures
        match outcome {
            HostFileOutcome::Unreadable(e) => r matches Err(HostRegistryError::FileIo {
                path: p,
                source,
            }) && p@ == path@ && source == e,
            HostFileOutcome::Malformed(e) => r matches Err(HostRegistryError::Toml {
                path: p,
                source,
            }) && p@ == path@ && source == e,
            HostFileOutcome::Read(hosts) => r matches Ok(x) && x == hosts,
        },
{
    match outcome {
        HostFileOutcome::Unreadable(e) => Err(
            HostRegistryError::FileIo { path: text::owned(path), source: e },
        ),
        HostFileOutcome::Malformed(e) => Err(
            HostRegistryError::Toml { path: text::owned(path), source: e },
        ),
        HostFileOutcome::Read(hosts) => Ok(hosts),
    }
}

/// A host and the file that declares it.
pub struct Declared {
    pub host: HostConfig,
    pub path: Seq<char>,
}

/// The hosts of one file.
pub open spec fn declared_in(f: LoadedFile) -> Seq<Declared> {
    match f.hosts {
        Some(hosts) => hosts@.map_values(|h: HostConfig| Declared { host: h, path: f.path@ }),
        None => Seq::empty(),
    }
}

/// The hosts of several files, one after the other.
pub open spec fn declared(files: Seq<LoadedFile>) -> Seq<Declared>
    decreases files.len(),
{
    if files.len() == 0 {
        Seq::empty()
    } else {
        declared_in(files[0]) + declared(files.skip(1))
    }
}

/// Whether some earlier host has the name of the host at `k`.
pub open spec fn repeats(d: Seq<Declared>, k: int) -> bool {
    exists|j: int| 0 <= j < k && (#[trigger] d[j]).host.name@ == d[k].host.name@
}

/// Whether the host at `k` is the first that repeats a name.
pub open spec fn first_repeat(d: Seq<Declared>, k: int) -> bool {
    &&& 0 <= k < d.len()
    &&& repeats(d, k)
    &&& forall|j: int| 0 <= j < k ==> !#[trigger] repeats(d, j)
}

/// Whether no two hosts have the same name.
pub open spec fn names_distinct(d: Seq<Declared>) -> bool {
    forall|k: int| 0 <= k < d.len() ==> !#[trigger] repeats(d, k)
}

/// The configuration files among the files of a directory: those with the
/// extension `toml` in any letter case.
pub open spec fn is_config_file(file: Seq<char>) -> bool {
    &&& file.len() > 5
    &&& file[file.len() - 5] == '.'
    &&& (file[file.len() - 4] == 't' || file[file.len() - 4] == 'T')
    &&& (file[file.len() - 3] == 'o' || file[file.len() - 3] == 'O')
    &&& (file[file.len() - 2] == 'm' || file[file.len() - 2] == 'M')
    &&& (file[file.len() - 1] == 'l' || file[file.len() - 1] == 'L')
}

/// The order in which the files are read.
pub open spec fn load_order(files: Seq<Seq<char>>) -> Seq<Seq<char>> {
    sort(
        files.filter(|f: Seq<char>| is_config_file(f)),
        |a: Seq<char>, b: Seq<char>| lex_le(a, b),
    )
}

/// The configuration files of a directory, in the order in which they are read.
pub fn config_files(files: &[String]) -> (r: Vec<String>)
    ensures
        r.deep_view() == load_order(files.deep_view()),
{
    let ghost fv = files.deep_view();
    let ghost p = |f: Seq<char>| is_config_file(f);
    let mut out: Vec<String> = Vec::new();
    let mut i: usize = 0;
    assert(fv.take(0).filter(p) =~= Seq::empty()) by {
        reveal(Seq::filter);
    }
    assert(out.deep_view() =~= fv.take(0).filter(p));
    while i < files.len()
        invariant
            i <= files@.len(),
            fv == files.deep_view(),
            p == (|f: Seq<char>| is_config_file(f)),
            out.deep_view() == fv.take(i as int).filter(p),
        decreases files@.len() - i,
    {
        let ghost before = out.deep_view();
        proof {
            assert(fv.take(i + 1) =~= fv.take(i as int).push(fv[i as int]));
            fv.take(i as int).lemma_filter_push(fv[i as int], p);
        }
        let cs = text::chars(&files[i]);
        let n: usize = cs.len();
        if n > 5 && cs[n - 5] == '.' && (cs[n - 4] == 't' || cs[n - 4] == 'T') && (cs[n - 3] == 'o'
            || cs[n - 3] == 'O') && (cs[n - 2] == 'm' || cs[n - 2] == 'M') && (cs[n - 1] == 'l'
            || cs[n - 1] == 'L') {
            out.push(files[i].clone());
            assert(out.deep_view() =~= before.push(fv[i as int]));
        }
        i += 1;
    }
    assert(fv.take(i as int) =~= fv);
    let ghost key = |s: String| s@;
    let ghost rel = |a: Seq<char>, b: Seq<char>| lex_le(a, b);
    assert(out@.map_values(key) =~= out.deep_view());
    let le = |a: &String, b: &String| -> (o: bool)
        ensures
            o == lex_le(a@, b@),
    {
        let after = str_lt(b, a);
        !after
    };
    let sorted = sort_by::<String, Seq<char>, _>(out, le, Ghost(key), Ghost(rel));
    assert(sorted@.map_values(key) =~= sorted.deep_view());
    sorted
}

impl HostRegistry {
    pub fn new(hosts: Vec<HostConfig>) -> (r: Self)
        ensures
            r.hosts == hosts,
    {
        HostRegistry { hosts }
    }

    /// Merges the hosts of the configuration files. A file that could not be
    /// read is passed over; a name that comes twice is an error.
    pub fn load_from_files(files: Vec<LoadedFile>) -> (r: Result<Self, HostRegistryError>)
        ensures
            r is Ok <==> names_distinct(declared(files@)),
            r is Ok ==> r->Ok_0.hosts@ == declared(files@).map_values(|d: Declared| d.host),
            r is Err ==> (r->Err_0 matches HostRegistryError::DuplicateName { name, path }
                && exists|k: int| #[trigger]
                first_repeat(declared(files@), k) && name@ == declared(files@)[k].host.name@
                    && path@ == declared(files@)[k].path),
    {
        let ghost all = declared(files@);
        let mut rest = files;
        let mut hosts: Vec<HostConfig> = Vec::new();
        let ghost mut n: int = 0;
        proof {
            assert(all =~= all.take(0) + declared(rest@));
            assert(hosts@ =~= all.take(0).map_values(|d: Declared| d.host));
        }
        while rest.len() > 0
            invariant
                0 <= n <= all.len(),
                all == all.take(n) + declared(rest@),
                hosts@ == all.take(n).map_values(|d: Declared| d.host),
                forall|k: int| 0 <= k < n ==> !#[trigger] repeats(all, k),
                all == declared(files@),
            decreases rest@.len(),
        {
            let ghost rv = rest@;
            let file = rest.remove(0);
            proof {
                assert(rv.skip(1) =~= rest@);
                assert(file == rv[0]);
                assert(declared(rv) == declared_in(file) + declared(rest@));
            }
            match file.hosts {
                Some(found) => {
                    let ghost part = declared_in(file);
                    let ghost fv = found@;
                    let mut found = found;
                    let ghost n0 = n;
                    while found.len() > 0
                        invariant
                            0 <= n0 <= n <= n0 + fv.len(),
                            n0 + part.len() <= all.len(),
                            part.len() == fv.len(),
                            forall|j: int| 0 <= j < part.len() ==> #[trigger] all[n0 + j] == part[j],
                            forall|j: int|
                                0 <= j < part.len() ==> (#[trigger] part[j]).host == fv[j]
                                    && part[j].path == file.path@,
                            found@ == fv.skip(n - n0),
                            hosts@ == all.take(n).map_values(|d: Declared| d.host),
                            forall|k: int| 0 <= k < n ==> !#[trigger] repeats(all, k),
                            all == declared(files@),
                        ensures
                            n == n0 + fv.len(),
                        decreases found@.len(),
                    {
                        let host = found.remove(0);
                        proof {
                            assert(host == fv[n - n0]);
                            assert(all[n0 + (n - n0)] == part[n - n0]);
                            assert(all[n].host == host);
                            assert(fv.skip(n - n0).remove(0) =~= fv.skip(n + 1 - n0));
                        }
                        let mut i: usize = 0;
                        while i < hosts.len()
                            invariant
                                i <= hosts@.len(),
                                0 <= n < all.len(),
                                all[n].host == host,
                                all[n].path == file.path@,
                                hosts@ == all.take(n).map_values(|d: Declared| d.host),
                                forall|k: int|
                                    0 <= k < i ==> (#[trigger] hosts@[k]).name@ != host.name@,
                                forall|k: int| 0 <= k < n ==> !#[trigger] repeats(all, k),
                                all == declared(files@),
                            decreases hosts@.len() - i,
                        {
                            if text::same(&hosts[i].name, &host.name) {
                                proof {
                                    assert(all[i as int].host == hosts@[i as int]);
                                    assert(all[i as int].host.name@ == all[n].host.name@);
                                    assert(repeats(all, n));
                                    assert(first_repeat(all, n));
                                }
                                return Err(
                                    HostRegistryError::DuplicateName {
                                        name: host.name,
                                        path: file.path,
                                    },
                                );
                            }
                            i += 1;
                        }
                        proof {
                            assert(!repeats(all, n)) by {
                                if repeats(all, n) {
                                    let j = choose|j: int|
                                        0 <= j < n && (#[trigger] all[j]).host.name@
                                            == all[n].host.name@;
                                    assert(hosts@[j] == all[j].host);
                                }
                            }
                            assert(all.take(n + 1).map_values(|d: Declared| d.host)
                                =~= all.take(n).map_values(|d: Declared| d.host).push(host));
                            n = n + 1;
                        }
                        hosts.push(host);
                    }
                    proof {
                        assert(all =~= all.take(n) + declared(rest@));
                    }
                },
                None => {
                    proof {
                        assert(declared(rv) =~= declared(rest@));
                    }
                },
            }
        }
        proof {
            assert(all.take(n) =~= all);
        }
        Ok(HostRegistry { hosts })
    }

    pub fn hosts(&self) -> (r: &[HostConfig])
        ensures
            r@ == self.hosts@,
    {
        &self.hosts
    }

    /// The first host of a name.
    pub fn by_name(&self, name: &str) -> (r: Option<&HostConfig>)
        ensures
            match first_where(self.hosts@, |h: HostConfig| h.name@ == name@) {
                Some(i) => r == Some(&self.hosts@[i]),
                None => r is None,
            },
    {
        let ghost p = |h: HostConfig| h.name@ == name@;
        let mut i: usize = 0;
        while i < self.hosts.len()
            invariant
                i <= self.hosts@.len(),
                p == (|h: HostConfig| h.name@ == name@),
                forall|k: int| 0 <= k < i ==> !p(#[trigger] self.hosts@[k]),
            decreases self.hosts@.len() - i,
        {
            if text::same(&self.hosts[i].name, name) {
                proof {
                    lemma_first_where_is(self.hosts@, p, i as int);
                }
                return Some(&self.hosts[i]);
            }
            i += 1;
        }
        proof {
            lemma_first_where_none(self.hosts@, p);
        }
        None
    }

    /// The hosts of a role, in order.
    pub fn filter_by_role(&self, role: HostRole) -> (r: Vec<&HostConfig>)
        ensures
            r@.map_values(|h: &HostConfig| *h) == self.hosts@.filter(
                |h: HostConfig| h.roles@.contains(role),
            ),
    {
        let ghost hv = self.hosts@;
        let ghost p = |h: HostConfig| h.roles@.contains(role);
        let ghost g = |h: &HostConfig| *h;
        let mut out: Vec<&HostConfig> = Vec::new();
        let mut i: usize = 0;
        assert(hv.take(0).filter(p) =~= Seq::empty()) by {
            reveal(Seq::filter);
        }
        assert(out@.map_values(g) =~= hv.take(0).filter(p));
        while i < self.hosts.len()
            invariant
                i <= self.hosts@.len(),
                hv == self.hosts@,
                p == (|h: HostConfig| h.roles@.contains(role)),
                g == (|h: &HostConfig| *h),
                out@.map_values(g) == hv.take(i as int).filter(p),
            decreases self.hosts@.len() - i,
        {
            let ghost before = out@;
            proof {
                assert(hv.take(i + 1) =~= hv.take(i as int).push(hv[i as int]));
                hv.take(i as int).lemma_filter_push(hv[i as int], p);
            }
            let h = &self.hosts[i];
            if h.has_role(role) {
                out.push(h);
                assert(out@.map_values(g) =~= before.map_values(g).push(hv[i as int]));
            }
            i += 1;
        }
        assert(hv.take(i as int) =~= hv);
        out
    }
}

/// Loaded hosts have distinct names, so that a name stands for one host.
pub proof fn law_loaded_names_are_distinct(files: Seq<LoadedFile>, i: int, j: int)
    requires
        names_distinct(declared(files)),
        0 <= i < j < declared(files).len(),
    ensures
        declared(files)[i].host.name@ != declared(files)[j].host.name@,
{
    let d = declared(files);
    assert(!repeats(d, j));
}

/// A file that cannot be read changes nothing.
pub proof fn law_unreadable_files_are_skipped(files: Seq<LoadedFile>, bad: LoadedFile)
    requires
        bad.hosts is None,
    ensures
        declared(seq![bad] + files) == declared(files),
{
    let all = seq![bad] + files;
    assert(all.skip(1) =~= files);
    assert(declared(all) =~= declared(files));
}

/// A host is this machine by any of three names; connecting may take what is configured,
/// and at least a second.
pub proof fn law_hosts(h: HostConfig)
    ensures
        local(h) <==> h.hostname@ == "localhost"@ || h.hostname@ == "127.0.0.1"@ || h.hostname@
            == "::1"@,
        timeout_of(h) == (if h.connect_timeout_secs == 0 {
            1
        } else {
            h.connect_timeout_secs
        }),
        h.display_name is Some ==> shown_name(h) == h.display_name->0@,
        h.display_name is None ==> shown_name(h) == h.name@,
{
}

/// The files that are read are those whose names end in `.toml`, in any letter case, and
/// are more than that; in the order of their names.
pub proof fn law_config_files(files: Seq<Seq<char>>)
    ensures
        forall|i: int, j: int|
            0 <= i < j < load_order(files).len() ==> !lex_lt(
                #[trigger] load_order(files)[j],
                #[trigger] load_order(files)[i],
            ),
        forall|f: Seq<char>| #[trigger]
            load_order(files).contains(f) <==> files.contains(f) && f.len() > 5 && ascii_lower(
                f.skip(f.len() - 5),
            ) == ".toml"@,
{
    broadcast use vstd::seq_lib::group_to_multiset_ensures;

    let p = |f: Seq<char>| is_config_file(f);
    let le = |a: Seq<char>, b: Seq<char>| lex_le(a, b);
    let kept = files.filter(p);
    let out = load_order(files);
    assert forall|a: Seq<char>, b: Seq<char>| #[trigger] le(a, b) || le(b, a) by {
        lemma_lex_total(a, b);
    }
    assert forall|a: Seq<char>, b: Seq<char>, c: Seq<char>| #[trigger]
        le(a, b) && #[trigger] le(b, c) implies le(a, c) by {
        lemma_lex_trans(a, b, c);
    }
    law_sorting(kept, le);
    assert forall|i: int, j: int| 0 <= i < j < out.len() implies !lex_lt(
        #[trigger] out[j],
        #[trigger] out[i],
    ) by {
        assert(le(out[i], out[j]));
    }
    assert forall|f: Seq<char>| #[trigger] out.contains(f) <==> files.contains(f) && f.len() > 5
        && ascii_lower(f.skip(f.len() - 5)) == ".toml"@ by {
        assert(out.contains(f) <==> out.to_multiset().count(f) > 0);
        assert(kept.contains(f) <==> kept.to_multiset().count(f) > 0);
        lemma_toml(f);
        if kept.contains(f) {
            let m = choose|m: int| 0 <= m < kept.len() && kept[m] == f;
            files.lemma_filter_pred(p, m);
            files.lemma_filter_contains_rev(p, f);
        }
        if files.contains(f) && is_config_file(f) {
            let m = choose|m: int| 0 <= m < files.len() && files[m] == f;
            files.lemma_filter_contains(p, m);
        }
    }
}

proof fn lemma_toml(f: Seq<char>)
    ensures
        is_config_file(f) <==> f.len() > 5 && ascii_lower(f.skip(f.len() - 5)) == ".toml"@,
{
    reveal_strlit(".toml");
    if f.len() > 5 {
        let e = f.skip(f.len() - 5);
        let n = f.len();
        let l = ascii_lower(e);
        assert(e[0] == f[n - 5] && e[1] == f[n - 4] && e[2] == f[n - 3] && e[3] == f[n - 2] && e[4]
            == f[n - 1]);
        law_lowering(e, 0);
        law_lowering(e, 1);
        law_lowering(e, 2);
        law_lowering(e, 3);
        law_lowering(e, 4);
        char_u32_cast(e[0], e[0] as u32);
        char_u32_cast(e[1], e[1] as u32);
        char_u32_cast(e[2], e[2] as u32);
        char_u32_cast(e[3], e[3] as u32);
        char_u32_cast(e[4], e[4] as u32);
        if is_config_file(f) {
            assert(l =~= ".toml"@);
        }
        if l == ".toml"@ {
            assert(l[0] == '.' && l[1] == 't' && l[2] == 'o' && l[3] == 'm' && l[4] == 'l');
            assert(l[1] as u32 == 0x74 && l[2] as u32 == 0x6F && l[3] as u32 == 0x6D && l[4] as u32
                == 0x6C);
        }
    }
}

/// The host that is refused is the first whose name stood before: there is one where two
/// hosts have the same name, it is one alone, and before it no two have.
pub proof fn law_the_first_repeated_host_is_named(d: Seq<Declared>, i: int, j: int, k: int)
    requires
        0 <= i < j < d.len(),
        d[i].host.name@ == d[j].host.name@,
        first_repeat(d, k),
    ensures
        k <= j,
        !names_distinct(d),
        exists|a: int| 0 <= a < k && (#[trigger] d[a]).host.name@ == d[k].host.name@,
        forall|a: int, b: int|
            0 <= a < b < k ==> (#[trigger] d[a]).host.name@ != (#[trigger] d[b]).host.name@,
{
    assert(repeats(d, j));
    assert forall|a: int, b: int| 0 <= a < b < k implies (#[trigger] d[a]).host.name@ != (
    #[trigger] d[b]).host.name@ by {
        assert(!repeats(d, b));
    }
}

/// The hosts of a file come in its order, behind those of the files before it, and each is
/// known to be from its file.
pub proof fn law_hosts_come_in_the_order_of_the_files(
    f: LoadedFile,
    files: Seq<LoadedFile>,
    i: int,
)
    requires
        f.hosts is Some,
        0 <= i < f.hosts->0@.len(),
    ensures
        declared(seq![f] + files).len() == f.hosts->0@.len() + declared(files).len(),
        declared(seq![f] + files)[i].host == f.hosts->0@[i],
        declared(seq![f] + files)[i].path == f.path@,
        declared(seq![f] + files).skip(f.hosts->0@.len() as int) == declared(files),
{
    assert((seq![f] + files).skip(1) =~= files);
    assert(declared(seq![f] + files) == declared_in(f) + declared(files));
    assert((declared_in(f) + declared(files)).skip(f.hosts->0@.len() as int) =~= declared(files));
}

} // verus!
