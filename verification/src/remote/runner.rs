//! Running commands on a host.

use vstd::prelude::*;
use vstd::string::StringExecFns;

use super::host::{local, timeout_of, HostConfig};
use crate::stdtext::{debug_string, debug_text};
use crate::text;
use crate::text::{decimal, join, words};

verus! {

/// What a command printed, and its exit status where it has one.
#[derive(Debug, Clone, PartialEq, Eq)]
pub struct CommandOutput {
    pub stdout: String,
    pub stderr: String,
    pub status: Option<i32>,
}

impl CommandOutput {
    pub fn is_success(&self) -> (r: bool)
        ensures
            r == (self.status == Some(0i32)),
    {
        match self.status {
            Some(s) => s == 0,
            None => false,
        }
    }

    fn copy(&self) -> (r: CommandOutput)
        ensures
            r == *self,
    {
        CommandOutput {
            stdout: self.stdout.clone(),
            stderr: self.stderr.clone(),
            status: self.status,
        }
    }
}

/// Why a command gave no output.
#[derive(Debug, Clone, PartialEq, Eq)]
pub enum RemoteError {
    Timeout { host: String },
    Spawn { host: String, source: String },
    MockMissing { host: String, cmd: Vec<String> },
}

/// The `Debug` form of a list of strings.
pub open spec fn debug_list(items: Seq<Seq<char>>) -> Seq<char> {
    "["@ + join(items.map_values(|s: Seq<char>| debug_text(s)), ", "@) + "]"@
}

impl RemoteError {
    /// The error in words.
    pub open spec fn words(self) -> Seq<char> {
        match self {
            RemoteError::Timeout { host } => "remote command timed out on host "@ + host@,
            RemoteError::Spawn { host, source } => "failed to spawn command on host "@ + host@
                + ": "@ + source@,
            RemoteError::MockMissing { host, cmd } => "no mock response configured for host "@
                + host@ + " command "@ + debug_list(cmd.deep_view()),
        }
    }

    /// The error in words.
    pub fn message(&self) -> (r: String)
        ensures
            r@ == self.words(),
    {
        match self {
            RemoteError::Timeout { host } => text::concat2(
                "remote command timed out on host ",
                host,
            ),
            RemoteError::Spawn { host, source } => {
                let mut out = text::concat3("failed to spawn command on host ", host, ": ");
                out.append(source);
                out
            },
            RemoteError::MockMissing { host, cmd } => {
                let ghost want = cmd.deep_view().map_values(|s: Seq<char>| debug_text(s));
                let mut items: Vec<String> = Vec::new();
                let mut i: usize = 0;
                assert(items.deep_view() =~= want.take(0));
                while i < cmd.len()
                    invariant
                        i <= cmd@.len(),
                        want == cmd.deep_view().map_values(|s: Seq<char>| debug_text(s)),
                        items.deep_view() == want.take(i as int),
                    decreases cmd@.len() - i,
                {
                    let ghost before = items.deep_view();
                    items.push(debug_string(&cmd[i]));
                    proof {
                        assert(items.deep_view() =~= before.push(want[i as int]));
                        assert(want.take(i + 1) =~= want.take(i as int).push(want[i as int]));
                    }
                    i += 1;
                }
                assert(want.take(i as int) =~= want);
                let mut out = text::concat3(
                    "no mock response configured for host ",
                    host,
                    " command ",
                );
                out.append(&text::concat3("[", &text::join_strings(&items, ", "), "]"));
                out
            },
        }
    }
}

/// One run of a command: what was asked of a host, within how many seconds, and
/// what it came to.
pub struct RunView {
    pub host: HostConfig,
    pub argv: Seq<Seq<char>>,
    pub timeout_secs: int,
    pub reply: Result<CommandOutput, RemoteError>,
}

/// Whether a run asked a host for a command, and gave it some seconds more than
/// connecting may take.
pub open spec fn asks(run: RunView, h: HostConfig, argv: Seq<Seq<char>>, extra_secs: int) -> bool {
    &&& run.host == h
    &&& run.argv == argv
    &&& run.timeout_secs == timeout_of(h) + extra_secs
}

/// Whether a log goes on from another by one run, which asked a host.
pub open spec fn asked_once(
    before: Seq<RunView>,
    after: Seq<RunView>,
    h: HostConfig,
    argv: Seq<Seq<char>>,
    extra_secs: int,
) -> bool {
    &&& after.len() == before.len() + 1
    &&& after.drop_last() == before
    &&& asks(after.last(), h, argv, extra_secs)
}

/// Whether a log goes on from another by one run for each of some hosts, in order.
pub open spec fn asked_each(
    before: Seq<RunView>,
    after: Seq<RunView>,
    hosts: Seq<HostConfig>,
    argv: spec_fn(HostConfig) -> Seq<Seq<char>>,
    extra_secs: int,
) -> bool {
    &&& after.len() == before.len() + hosts.len()
    &&& after.take(before.len() as int) == before
    &&& forall|i: int|
        0 <= i < hosts.len() ==> asks(
            after[before.len() + i],
            #[trigger] hosts[i],
            argv(hosts[i]),
            extra_secs,
        )
}

/// Asking one host more goes on from having asked the hosts before it.
pub proof fn lemma_asked_next(
    before: Seq<RunView>,
    middle: Seq<RunView>,
    after: Seq<RunView>,
    hosts: Seq<HostConfig>,
    i: int,
    argv: spec_fn(HostConfig) -> Seq<Seq<char>>,
    extra_secs: int,
)
    requires
        0 <= i < hosts.len(),
        asked_each(before, middle, hosts.take(i), argv, extra_secs),
        asked_once(middle, after, hosts[i], argv(hosts[i]), extra_secs),
    ensures
        asked_each(before, after, hosts.take(i + 1), argv, extra_secs),
        forall|k: int| 0 <= k < before.len() + i ==> after[k] == #[trigger] middle[k],
        after[before.len() + i] == after.last(),
{
    let next = hosts.take(i + 1);
    assert forall|k: int| 0 <= k < before.len() + i implies after[k] == #[trigger] middle[k] by {
        assert(after.drop_last()[k] == middle[k]);
    }
    assert(after.take(before.len() as int) =~= before) by {
        assert forall|k: int| 0 <= k < before.len() implies after[k] == before[k] by {
            assert(middle.take(before.len() as int)[k] == middle[k]);
        }
    }
    assert forall|k: int| 0 <= k < next.len() implies asks(
        after[before.len() + k],
        #[trigger] next[k],
        argv(next[k]),
        extra_secs,
    ) by {
        if k < i {
            assert(hosts.take(i)[k] == next[k]);
            assert(after[before.len() + k] == middle[before.len() + k]);
        }
    }
}

/// What runs commands on hosts.
pub trait RemoteRunner {
    /// The runs so far. A verified runner says which they are: with the default, which
    /// is one fixed list, it cannot meet the contract of `run`. Code that is not
    /// verified has no way to say it.
    closed spec fn log(&self) -> Seq<RunView> {
        arbitrary()
    }

    /// Runs `argv` on a host, within so many seconds.
    fn run(&mut self, host: &HostConfig, argv: &[String], timeout_secs: u64) -> (r: Result<
        CommandOutput,
        RemoteError,
    >)
        ensures
            final(self).log() == old(self).log().push(
                RunView {
                    host: *host,
                    argv: argv.deep_view(),
                    timeout_secs: timeout_secs as int,
                    reply: r,
                },
            ),
    ;
}

// ---------------------------------------------------------------------------
// Commands over ssh
// ---------------------------------------------------------------------------

/// Runs commands through the system's `ssh`.
#[derive(Debug, Clone, PartialEq, Eq)]
pub struct SshRunner {
    pub ssh_binary: Option<String>,
}

/// The options that keep `ssh` from asking anything and share its connections.
pub open spec fn ssh_options(h: HostConfig) -> Seq<Seq<char>> {
    seq![
        "-o"@,
        "BatchMode=yes"@,
        "-o"@,
        "ConnectTimeout="@ + decimal(timeout_of(h) as nat),
        "-o"@,
        "ControlMaster=auto"@,
        "-o"@,
        "ControlPersist=60"@,
        "-o"@,
        "StrictHostKeyChecking=accept-new"@,
    ]
}

/// The command line that runs `argv` on a host: `argv` itself on this machine,
/// wrapped in `ssh` on any other.
pub open spec fn command_line(
    binary: Option<Seq<char>>,
    h: HostConfig,
    argv: Seq<Seq<char>>,
) -> Seq<Seq<char>> {
    if local(h) {
        argv
    } else {
        seq![
            match binary {
                Some(b) => b,
                None => "ssh"@,
            },
        ] + ssh_options(h) + (match h.port {
            Some(p) => seq!["-p"@, decimal(p as nat)],
            None => Seq::empty(),
        }) + seq![
            match h.user {
                Some(u) => u@ + "@"@ + h.hostname@,
                None => h.hostname@,
            },
        ] + argv
    }
}

fn push_text(out: &mut Vec<String>, s: &str)
    ensures
        final(out).deep_view() == old(out).deep_view().push(s@),
{
    let ghost before = out.deep_view();
    out.push(text::owned(s));
    assert(out.deep_view() =~= before.push(s@));
}

fn push_all(out: &mut Vec<String>, more: &[String])
    ensures
        final(out).deep_view() == old(out).deep_view() + more.deep_view(),
{
    let ghost before = out.deep_view();
    let ghost mv = more.deep_view();
    let mut i: usize = 0;
    assert(out.deep_view() =~= before + mv.take(0));
    while i < more.len()
        invariant
            i <= more@.len(),
            mv == more.deep_view(),
            out.deep_view() == before + mv.take(i as int),
        decreases more@.len() - i,
    {
        let ghost mid = out.deep_view();
        out.push(more[i].clone());
        proof {
            assert(out.deep_view() =~= mid.push(mv[i as int]));
            assert(before + mv.take(i + 1) =~= (before + mv.take(i as int)).push(mv[i as int]));
        }
        i += 1;
    }
    assert(mv.take(i as int) =~= mv);
}

impl SshRunner {
    pub fn new() -> (r: Self)
        ensures
            r.ssh_binary is None,
    {
        SshRunner { ssh_binary: None }
    }

    pub fn with_ssh_binary(binary: String) -> (r: Self)
        ensures
            r.ssh_binary == Some(binary),
    {
        SshRunner { ssh_binary: Some(binary) }
    }

    /// The command line that runs `argv` on a host: the program, then its
    /// arguments.
    pub fn build_command(&self, host: &HostConfig, argv: &[String]) -> (r: Vec<String>)
        requires
            argv@.len() > 0,
        ensures
            r.deep_view() == command_line(
                self.ssh_binary.deep_view(),
                *host,
                argv.deep_view(),
            ),
            r@.len() > 0,
    {
        let mut out: Vec<String> = Vec::new();
        assert(out.deep_view() =~= Seq::empty());
        if host.is_local() {
            push_all(&mut out, argv);
            assert(out.deep_view() =~= argv.deep_view());
            assert(out.deep_view().len() == argv@.len());
            return out;
        }
        match &self.ssh_binary {
            Some(b) => push_text(&mut out, b),
            None => push_text(&mut out, "ssh"),
        }
        let ghost head = out.deep_view();
        push_text(&mut out, "-o");
        push_text(&mut out, "BatchMode=yes");
        push_text(&mut out, "-o");
        push_text(
            &mut out,
            &text::concat2("ConnectTimeout=", &text::decimal_string(host.connect_timeout())),
        );
        push_text(&mut out, "-o");
        push_text(&mut out, "ControlMaster=auto");
        push_text(&mut out, "-o");
        push_text(&mut out, "ControlPersist=60");
        push_text(&mut out, "-o");
        push_text(&mut out, "StrictHostKeyChecking=accept-new");
        assert(out.deep_view() =~= head + ssh_options(*host));
        match host.port {
            Some(port) => {
                push_text(&mut out, "-p");
                push_text(&mut out, &text::decimal_string(port as u64));
            },
            None => {},
        }
        match &host.user {
            Some(u) => push_text(&mut out, &text::concat3(u, "@", &host.hostname)),
            None => push_text(&mut out, &host.hostname),
        }
        push_all(&mut out, argv);
        proof {
            assert(out.deep_view() =~= command_line(
                self.ssh_binary.deep_view(),
                *host,
                argv.deep_view(),
            ));
            assert(out.deep_view().len() == out@.len());
        }
        out
    }

    /// The command line to run, or the error where there is nothing to run.
    pub fn prepare(&self, host: &HostConfig, argv: &[String]) -> (r: Result<
        Vec<String>,
        RemoteError,
    >)
        ensures
            r is Ok <==> argv@.len() > 0,
            r is Ok ==> r->Ok_0.deep_view() == command_line(
                self.ssh_binary.deep_view(),
                *host,
                argv.deep_view(),
            ),
            r is Err ==> (r->Err_0 matches RemoteError::Spawn { host: h, source } && h@
                == host.name@ && source@ == "empty argv for remote command"@),
    {
        if argv.len() == 0 {
            return Err(
                RemoteError::Spawn {
                    host: host.name.clone(),
                    source: text::owned("empty argv for remote command"),
                },
            );
        }
        Ok(self.build_command(host, argv))
    }
}

// ---------------------------------------------------------------------------
// Canned answers
// ---------------------------------------------------------------------------

/// A canned answer.
#[derive(Debug, Clone, PartialEq, Eq)]
pub enum MockResponse {
    Output(CommandOutput),
    Timeout,
}

/// A canned answer for a host and the beginning of a command line.
pub struct MockEntry {
    pub host: String,
    pub prefix: String,
    pub response: MockResponse,
}

/// Answers with canned output, and records what was asked.
pub struct MockRunner {
    pub responses: Vec<MockEntry>,
    /// The runs so far: host and command line.
    pub calls: Vec<(String, Vec<String>)>,
    /// The runs so far, with their limits and answers.
    pub history: Ghost<Seq<RunView>>,
}

/// Whether an entry is for a host and a command line: the words of its prefix
/// are the first words of the command line.
pub open spec fn applies(e: MockEntry, host: Seq<char>, argv: Seq<Seq<char>>) -> bool {
    &&& e.host@ == host
    &&& words(e.prefix@).len() <= argv.len()
    &&& argv.take(words(e.prefix@).len() as int) == words(e.prefix@)
}

/// Whether no two entries are for the same host and the same prefix.
pub open spec fn keys_distinct(entries: Seq<MockEntry>) -> bool {
    forall|i: int, j: int|
        0 <= i < j < entries.len() ==> !((#[trigger] entries[i]).host@ == (
        #[trigger] entries[j]).host@ && entries[i].prefix@ == entries[j].prefix@)
}

/// Whether there is an entry for a host and exactly this prefix.
pub open spec fn has_key(entries: Seq<MockEntry>, host: Seq<char>, prefix: Seq<char>) -> bool {
    exists|i: int|
        0 <= i < entries.len() && (#[trigger] entries[i]).host@ == host && entries[i].prefix@
            == prefix
}

/// Whether a runner is another one with one answer set: for its host and prefix there
/// is that answer, in place of any other, and all else is as it was.
pub open spec fn registered(
    before: MockRunner,
    after: MockRunner,
    host: Seq<char>,
    prefix: Seq<char>,
    response: MockResponse,
) -> bool {
    &&& after.calls == before.calls
    &&& after.log() == before.log()
    &&& exists|i: int|
        0 <= i < after.responses@.len() && (#[trigger] after.responses@[i]).host@ == host
            && after.responses@[i].prefix@ == prefix && after.responses@[i].response == response
    &&& forall|k: int|
        0 <= k < before.responses@.len() && !((#[trigger] before.responses@[k]).host@ == host
            && before.responses@[k].prefix@ == prefix) ==> after.responses@[k]
            == before.responses@[k]
    &&& after.responses@.len() == before.responses@.len() + (if has_key(
        before.responses@,
        host,
        prefix,
    ) {
        0int
    } else {
        1int
    })
    &&& keys_distinct(before.responses@) ==> keys_distinct(after.responses@)
}

/// What an answer comes to.
pub open spec fn answer_is(
    response: MockResponse,
    host: Seq<char>,
    r: Result<CommandOutput, RemoteError>,
) -> bool {
    match response {
        MockResponse::Output(o) => r == Ok::<CommandOutput, RemoteError>(o),
        MockResponse::Timeout => r matches Err(RemoteError::Timeout { host: h }) && h@ == host,
    }
}

impl MockRunner {
    pub fn new() -> (r: Self)
        ensures
            r.responses@.len() == 0,
            keys_distinct(r.responses@),
            r.calls@.len() == 0,
            r.log().len() == 0,
    {
        MockRunner { responses: Vec::new(), calls: Vec::new(), history: Ghost(Seq::empty()) }
    }

    fn set(&mut self, host: &str, argv_prefix: &[String], response: MockResponse)
        ensures
            registered(
                *old(self),
                *final(self),
                host@,
                join(argv_prefix.deep_view(), " "@),
                response,
            ),
    {
        let prefix = text::join_strings(argv_prefix, " ");
        let ghost r0 = self.responses@;
        match self.position(host, &prefix) {
            Some(i) => {
                let entry = MockEntry { host: text::owned(host), prefix, response };
                self.responses.set(i, entry);
                assert(self.responses@[i as int] == entry);
            },
            None => {
                let entry = MockEntry { host: text::owned(host), prefix, response };
                self.responses.push(entry);
                assert(self.responses@[r0.len() as int] == entry);
            },
        }
    }

    /// The entry for a host and exactly this prefix.
    fn position(&self, host: &str, prefix: &str) -> (r: Option<usize>)
        ensures
            r is Some ==> r->0 < self.responses@.len() && self.responses@[r->0 as int].host@
                == host@ && self.responses@[r->0 as int].prefix@ == prefix@,
            r is None ==> forall|i: int|
                0 <= i < self.responses@.len() ==> !((#[trigger] self.responses@[i]).host@ == host@
                    && self.responses@[i].prefix@ == prefix@),
    {
        let mut i: usize = 0;
        while i < self.responses.len()
            invariant
                i <= self.responses@.len(),
                forall|k: int|
                    0 <= k < i ==> !((#[trigger] self.responses@[k]).host@ == host@
                        && self.responses@[k].prefix@ == prefix@),
            decreases self.responses@.len() - i,
        {
            if text::same(&self.responses[i].host, host) && text::same(
                &self.responses[i].prefix,
                prefix,
            ) {
                return Some(i);
            }
            i += 1;
        }
        None
    }

    /// Sets the answer for a host and the beginning of a command line, and gives the
    /// runner back.
    pub fn respond(&mut self, host: &str, argv_prefix: &[String], output: CommandOutput) -> (r:
        &mut Self)
        ensures
            registered(
                *old(self),
                *r,
                host@,
                join(argv_prefix.deep_view(), " "@),
                MockResponse::Output(output),
            ),
            *final(self) == *final(r),
    {
        self.set(host, argv_prefix, MockResponse::Output(output));
        self
    }

    /// Sets a timeout as the answer for a host and the beginning of a command line,
    /// and gives the runner back.
    pub fn respond_with_timeout(&mut self, host: &str, argv_prefix: &[String]) -> (r: &mut Self)
        ensures
            registered(
                *old(self),
                *r,
                host@,
                join(argv_prefix.deep_view(), " "@),
                MockResponse::Timeout,
            ),
            *final(self) == *final(r),
    {
        self.set(host, argv_prefix, MockResponse::Timeout);
        self
    }

    /// The runs so far.
    pub fn calls(&self) -> (r: &Vec<(String, Vec<String>)>)
        ensures
            r == &self.calls,
    {
        &self.calls
    }

    /// An entry that is for a host and a command line. Where there are several,
    /// any of them.
    fn lookup(&self, host: &str, argv: &[String]) -> (r: Option<usize>)
        ensures
            r is Some ==> r->0 < self.responses@.len() && applies(
                self.responses@[r->0 as int],
                host@,
                argv.deep_view(),
            ),
            r is None ==> forall|i: int|
                0 <= i < self.responses@.len() ==> !applies(
                    #[trigger] self.responses@[i],
                    host@,
                    argv.deep_view(),
                ),
    {
        let mut i: usize = 0;
        while i < self.responses.len()
            invariant
                i <= self.responses@.len(),
                forall|k: int|
                    0 <= k < i ==> !applies(
                        #[trigger] self.responses@[k],
                        host@,
                        argv.deep_view(),
                    ),
            decreases self.responses@.len() - i,
        {
            let e = &self.responses[i];
            if text::same(&e.host, host) {
                let cs = text::chars(&e.prefix);
                let parts = text::words_chars(&cs);
                if begins_with(argv, &parts) {
                    return Some(i);
                }
            }
            i += 1;
        }
        None
    }
}

/// Whether the first words of a command line are the given ones.
fn begins_with(argv: &[String], parts: &Vec<Vec<char>>) -> (r: bool)
    ensures
        r == (parts@.len() <= argv@.len() && argv.deep_view().take(parts@.len() as int)
            == text::rows(parts@)),
{
    if parts.len() > argv.len() {
        return false;
    }
    let ghost av = argv.deep_view().take(parts@.len() as int);
    let ghost pv = text::rows(parts@);
    let mut i: usize = 0;
    while i < parts.len()
        invariant
            i <= parts@.len(),
            parts@.len() <= argv@.len(),
            av == argv.deep_view().take(parts@.len() as int),
            pv == text::rows(parts@),
            forall|k: int| 0 <= k < i ==> av[k] == pv[k],
        decreases parts@.len() - i,
    {
        let cs = text::chars(&argv[i]);
        if !text::same_chars(&cs, &parts[i]) {
            assert(av[i as int] != pv[i as int]);
            return false;
        }
        i += 1;
    }
    assert(av =~= pv);
    true
}

impl RemoteRunner for MockRunner {
    open spec fn log(&self) -> Seq<RunView> {
        self.history@
    }

    fn run(&mut self, host: &HostConfig, argv: &[String], timeout_secs: u64) -> (r: Result<
        CommandOutput,
        RemoteError,
    >)
        ensures
            final(self).responses == old(self).responses,
            final(self).calls@.len() == old(self).calls@.len() + 1,
            final(self).calls@.drop_last() == old(self).calls@,
            final(self).calls@.last().0@ == host.name@,
            final(self).calls@.last().1.deep_view() == argv.deep_view(),
            (exists|i: int|
                0 <= i < old(self).responses@.len() && applies(
                    #[trigger] old(self).responses@[i],
                    host.name@,
                    argv.deep_view(),
                ) && answer_is(old(self).responses@[i].response, host.name@, r)) || ((forall|i: int|
                0 <= i < old(self).responses@.len() ==> !applies(
                    #[trigger] old(self).responses@[i],
                    host.name@,
                    argv.deep_view(),
                )) && (r matches Err(RemoteError::MockMissing { host: h, cmd }) && h@ == host.name@
                && cmd.deep_view() == argv.deep_view())),
    {
        let call = (host.name.clone(), text::clone_strings(argv));
        self.calls.push(call);
        assert(self.calls@.drop_last() =~= old(self).calls@);
        let reply: Result<CommandOutput, RemoteError> = match self.lookup(&host.name, argv) {
            Some(i) => match &self.responses[i].response {
                MockResponse::Output(o) => {
                    let out = o.copy();
                    assert(applies(self.responses@[i as int], host.name@, argv.deep_view()));
                    Ok(out)
                },
                MockResponse::Timeout => Err(RemoteError::Timeout { host: host.name.clone() }),
            },
            None => Err(
                RemoteError::MockMissing {
                    host: host.name.clone(),
                    cmd: text::clone_strings(argv),
                },
            ),
        };
        let ghost run = RunView {
            host: *host,
            argv: argv.deep_view(),
            timeout_secs: timeout_secs as int,
            reply,
        };
        let ghost next = self.history@.push(run);
        self.history = Ghost(next);
        reply
    }
}

// ---------------------------------------------------------------------------
// Prefixes
// ---------------------------------------------------------------------------

/// Whether a text is one word: it is not empty and holds no white space.
pub open spec fn one_word(s: Seq<char>) -> bool {
    &&& s.len() > 0
    &&& forall|i: int| 0 <= i < s.len() ==> !text::is_white(#[trigger] s[i])
}

/// A text that begins with characters that are no white space, up to white space.
proof fn lemma_first_word(w: Seq<char>, rest: Seq<char>)
    requires
        forall|i: int| 0 <= i < w.len() ==> !text::is_white(#[trigger] w[i]),
        rest.len() == 0 || text::is_white(rest[0]),
    ensures
        text::word_len(w + rest) == w.len(),
    decreases w.len(),
{
    if w.len() == 0 {
        assert(w + rest =~= rest);
    } else {
        assert((w + rest)[0] == w[0]);
        assert((w + rest).skip(1) =~= w.skip(1) + rest);
        lemma_first_word(w.skip(1), rest);
    }
}

/// Joined texts begin with the first of them.
proof fn lemma_join_first(parts: Seq<Seq<char>>, sep: Seq<char>)
    requires
        parts.len() > 1,
    ensures
        join(parts, sep) == parts[0] + sep + join(parts.drop_first(), sep),
    decreases parts.len(),
{
    if parts.len() == 2 {
        assert(parts.drop_last()[0] == parts[0]);
        assert(parts.drop_first()[0] == parts[1]);
        assert(join(parts.drop_last(), sep) == parts[0]);
    } else {
        lemma_join_first(parts.drop_last(), sep);
        assert(parts.drop_last().drop_first() =~= parts.drop_first().drop_last());
        assert(join(parts, sep) =~= parts[0] + sep + join(parts.drop_first(), sep));
    }
}

/// Words that are joined by spaces are the words of what comes of it.
pub proof fn lemma_words_of_join(parts: Seq<Seq<char>>)
    requires
        forall|i: int| 0 <= i < parts.len() ==> one_word(#[trigger] parts[i]),
    ensures
        words(join(parts, " "@)) == parts,
    decreases parts.len(),
{
    reveal_strlit(" ");
    let s = join(parts, " "@);
    if parts.len() == 0 {
        assert(words(s) =~= parts);
    } else {
        let w = parts[0];
        let later = parts.drop_first();
        let behind = join(later, " "@);
        let rest = if parts.len() == 1 {
            Seq::empty()
        } else {
            " "@ + behind
        };
        assert(one_word(w));
        assert forall|i: int| 0 <= i < later.len() implies one_word(#[trigger] later[i]) by {
            assert(later[i] == parts[i + 1]);
        }
        lemma_words_of_join(later);
        if parts.len() > 1 {
            lemma_join_first(parts, " "@);
            assert(rest.skip(1) =~= behind);
        }
        assert(s =~= w + rest);
        assert(s[0] == w[0]);
        lemma_first_word(w, rest);
        assert(s.take(w.len() as int) =~= w);
        assert(s.skip(w.len() as int) =~= rest);
        assert(words(rest) == words(behind));
        assert(words(s) =~= seq![w] + later);
        assert(seq![w] + later =~= parts);
    }
}

/// An answer that was set for the beginning of a command line is for the command lines
/// that begin so, and for no others, where no part of the beginning is empty or holds
/// white space.
pub proof fn law_answers_are_for_their_prefix(
    e: MockEntry,
    parts: Seq<Seq<char>>,
    host: Seq<char>,
    argv: Seq<Seq<char>>,
)
    requires
        e.prefix@ == join(parts, " "@),
        forall|i: int| 0 <= i < parts.len() ==> one_word(#[trigger] parts[i]),
    ensures
        applies(e, host, argv) <==> e.host@ == host && parts.len() <= argv.len() && argv.take(
            parts.len() as int,
        ) == parts,
{
    lemma_words_of_join(parts);
}

/// On this machine a command is run as it is. On any other it is run by `ssh`, or by the
/// program that stands in for it: with options that ask nothing and share connections and
/// with the seconds that connecting may take, with the port where there is one, and with
/// the user before the host's name where there is one; the command comes last.
pub proof fn law_commands_go_over_ssh(
    binary: Option<Seq<char>>,
    h: HostConfig,
    argv: Seq<Seq<char>>,
)
    ensures
        ({
            let here = h.hostname@ == "localhost"@ || h.hostname@ == "127.0.0.1"@ || h.hostname@
                == "::1"@;
            let c = command_line(binary, h, argv);
            let ports = if h.port is Some {
                2int
            } else {
                0int
            };
            &&& here ==> c == argv
            &&& !here ==> {
                &&& c.len() == 12 + ports + argv.len()
                &&& c[0] == (if binary is Some {
                    binary->0
                } else {
                    "ssh"@
                })
                &&& c[1] == "-o"@ && c[2] == "BatchMode=yes"@
                &&& c[3] == "-o"@ && c[4] == "ConnectTimeout="@ + decimal(
                    if h.connect_timeout_secs == 0 {
                        1
                    } else {
                        h.connect_timeout_secs as nat
                    },
                )
                &&& c[5] == "-o"@ && c[6] == "ControlMaster=auto"@
                &&& c[7] == "-o"@ && c[8] == "ControlPersist=60"@
                &&& c[9] == "-o"@ && c[10] == "StrictHostKeyChecking=accept-new"@
                &&& h.port is Some ==> c[11] == "-p"@ && c[12] == decimal(h.port->0 as nat)
                &&& c[11 + ports] == (if h.user is Some {
                    h.user->0@ + "@"@ + h.hostname@
                } else {
                    h.hostname@
                })
                &&& c.skip(12 + ports) == argv
            }
        }),
{
    let c = command_line(binary, h, argv);
    let ports = if h.port is Some {
        2int
    } else {
        0int
    };
    if !local(h) {
        assert(c.skip(12 + ports) =~= argv);
    }
}

} // verus!
