//! The state of a LaTeX build.
//!
//! Which processes run and what the logs hold is found out outside. Here stands
//! which process is a build, what a log says, and what is shown for how long.

use vstd::prelude::*;
use vstd::slice::slice_subrange;

use crate::events::{Event, EventKind, EventView};
use crate::seqs::{first_where, lemma_first_where_is, lemma_first_where_none};
use crate::text;
use crate::text::{lines, rows, starts_with, trim};

verus! {

pub const LATEX_WIDGET_ID: &'static str = "latex-status";

pub const LATEX_WIDGET_TYPE: &'static str = "latex_status";

/// For how many ticks a result is shown.
pub const RESULT_TICKS: u32 = 10;

/// How many characters of an error are shown.
pub const ERROR_CHARS: usize = 160;

/// Where a build stands.
#[derive(Debug, Clone, Copy, PartialEq, Eq, Structural)]
pub enum Phase {
    Idle,
    Compiling,
    Success,
    Error,
}

impl Phase {
    /// What the phase is called on the wire.
    pub fn wire(self) -> (r: &'static str)
        ensures
            r@ == match self {
                Phase::Idle => "idle"@,
                Phase::Compiling => "compiling"@,
                Phase::Success => "success"@,
                Phase::Error => "error"@,
            },
    {
        match self {
            Phase::Idle => "idle",
            Phase::Compiling => "compiling",
            Phase::Success => "success",
            Phase::Error => "error",
        }
    }
}

// ---------------------------------------------------------------------------
// Processes and logs
// ---------------------------------------------------------------------------

/// Whether a command is a TeX engine.
pub open spec fn engine_name(command: Seq<char>) -> bool {
    ||| command == "pdflatex"@
    ||| command == "xelatex"@
    ||| command == "lualatex"@
    ||| command == "latex"@
    ||| command == "latexmk"@
    ||| command == "tectonic"@
}

/// Whether the name of a process, as the system gives it, is that of a TeX engine.
pub fn is_engine(comm: &str) -> (r: bool)
    ensures
        r == engine_name(trim(comm@)),
{
    let cs = text::chars(comm);
    let name = text::trim_chars(&cs);
    text::is_text(name, "pdflatex") || text::is_text(name, "xelatex") || text::is_text(
        name,
        "lualatex",
    ) || text::is_text(name, "latex") || text::is_text(name, "latexmk") || text::is_text(
        name,
        "tectonic",
    )
}

/// A process that runs.
#[derive(Debug, Clone, PartialEq, Eq)]
pub struct Process {
    pub pid: i32,
    /// Its name; nothing where that could not be read.
    pub comm: Option<String>,
}

/// Whether a process is a TeX engine.
pub open spec fn runs_engine(p: Process) -> bool {
    p.comm matches Some(c) && engine_name(trim(c@))
}

/// The first of some processes that is a TeX engine.
pub fn find_engine(processes: &[Process]) -> (r: Option<i32>)
    ensures
        r == (match first_where(processes@, |p: Process| runs_engine(p)) {
            Some(i) => Some(processes@[i].pid),
            None => None,
        }),
{
    let ghost p = |p: Process| runs_engine(p);
    let mut i: usize = 0;
    while i < processes.len()
        invariant
            i <= processes@.len(),
            p == (|p: Process| runs_engine(p)),
            forall|k: int| 0 <= k < i ==> !p(#[trigger] processes@[k]),
        decreases processes@.len() - i,
    {
        let found = match &processes[i].comm {
            Some(c) => is_engine(c),
            None => false,
        };
        if found {
            proof {
                lemma_first_where_is(processes@, p, i as int);
            }
            return Some(processes[i].pid);
        }
        i += 1;
    }
    proof {
        lemma_first_where_none(processes@, p);
    }
    None
}

/// A file of the directory of a build.
#[derive(Debug, Clone, PartialEq, Eq)]
pub struct BuildFile {
    /// The last component of the path.
    pub name: String,
    pub path: String,
    /// When the file was changed; nothing where that could not be read.
    pub modified: Option<i128>,
}

/// Whether a file is a log.
pub open spec fn is_log(f: BuildFile) -> bool {
    f.name@.len() > 4 && text::ends_with(f.name@, ".log"@) && f.modified is Some
}

/// The place of the newest log: of several that were changed at the same time the
/// first.
pub open spec fn newest(files: Seq<BuildFile>) -> Option<int>
    decreases files.len(),
{
    if files.len() == 0 {
        None
    } else {
        let f = files.last();
        match newest(files.drop_last()) {
            Some(i) => if is_log(f) && f.modified->0 > files[i].modified->0 {
                Some(files.len() - 1)
            } else {
                Some(i)
            },
            None => if is_log(f) {
                Some(files.len() - 1)
            } else {
                None
            },
        }
    }
}

proof fn lemma_newest(files: Seq<BuildFile>)
    ensures
        newest(files) matches Some(i) ==> 0 <= i < files.len() && is_log(files[i]),
        newest(files) matches Some(i) ==> forall|k: int|
            0 <= k < files.len() && is_log(#[trigger] files[k]) ==> files[k].modified->0
                <= files[i].modified->0,
        newest(files) is None ==> forall|k: int| 0 <= k < files.len() ==> !is_log(#[trigger] files[k]),
    decreases files.len(),
{
    if files.len() > 0 {
        let t = files.drop_last();
        lemma_newest(t);
        assert forall|k: int| 0 <= k < t.len() implies t[k] == #[trigger] files[k] by {}
    }
}

/// The newest log of a directory.
pub fn newest_log(files: &[BuildFile]) -> (r: Option<String>)
    ensures
        r.deep_view() == (match newest(files@) {
            Some(i) => Some(files@[i].path@),
            None => None,
        }),
{
    let mut best: Option<(usize, i128)> = None;
    let mut i: usize = 0;
    while i < files.len()
        invariant
            i <= files@.len(),
            match (best, newest(files@.take(i as int))) {
                (Some((k, t)), Some(n)) => k == n && k < i && files@[k as int].modified == Some(t),
                (None, None) => true,
                _ => false,
            },
        decreases files@.len() - i,
    {
        assert(files@.take(i + 1).drop_last() =~= files@.take(i as int));
        let f = &files[i];
        assert(files@.take(i + 1).last() == *f);
        let cs = text::chars(&f.name);
        if cs.len() > 4 && text::ends(&f.name, ".log") {
            if let Some(m) = f.modified {
                let better = match best {
                    Some((_, t)) => m > t,
                    None => true,
                };
                if better {
                    best = Some((i, m));
                }
            }
        }
        i += 1;
    }
    assert(files@.take(i as int) =~= files@);
    match best {
        Some((k, _)) => Some(files[k].path.clone()),
        None => None,
    }
}

/// What is shown of an error line: trimmed, and not longer than fits.
pub open spec fn error_text(line: Seq<char>) -> Seq<char> {
    let t = trim(line);
    if t.len() <= ERROR_CHARS {
        t
    } else {
        t.take(ERROR_CHARS as int)
    }
}

/// The first line of a log that reports an error.
pub open spec fn first_error_in(lines: Seq<Seq<char>>) -> Option<Seq<char>>
    decreases lines.len(),
{
    if lines.len() == 0 {
        None
    } else if starts_with(lines[0], "! "@) {
        Some(error_text(lines[0]))
    } else {
        first_error_in(lines.skip(1))
    }
}

/// The first error that a log reports.
pub fn first_error(log: &str) -> (r: Option<String>)
    ensures
        r.deep_view() == first_error_in(lines(log@)),
{
    let cs = text::chars(log);
    let all = text::lines_chars(&cs);
    let ghost lv = rows(all@);
    let mut i: usize = 0;
    assert(lv.skip(0) =~= lv);
    while i < all.len()
        invariant
            i <= all@.len(),
            lv == rows(all@),
            lv == lines(log@),
            first_error_in(lv) == first_error_in(lv.skip(i as int)),
        decreases all@.len() - i,
    {
        assert(lv.skip(i as int).skip(1) =~= lv.skip(i + 1));
        assert(lv.skip(i as int)[0] == all@[i as int]@);
        if text::begins_chars(&all[i], "! ") {
            let t = text::trim_chars(&all[i]);
            if t.len() <= ERROR_CHARS {
                return Some(text::string(t));
            }
            let part = slice_subrange(t, 0, ERROR_CHARS);
            assert(part@ =~= t@.take(ERROR_CHARS as int));
            return Some(text::string(part));
        }
        i += 1;
    }
    None
}

// ---------------------------------------------------------------------------
// The state
// ---------------------------------------------------------------------------

/// A build that runs.
#[derive(Debug, Clone, PartialEq, Eq)]
pub struct Engine {
    pub pid: i32,
    /// Its working directory.
    pub dir: String,
}

/// What is known of a build that has ended.
#[derive(Debug, Clone, PartialEq, Eq)]
pub struct Finished {
    pub log: Option<String>,
    pub error: Option<String>,
}

/// What a look at the system found.
#[derive(Debug, Clone, PartialEq, Eq)]
pub struct Probe {
    /// The build that runs.
    pub engine: Option<Engine>,
    /// What is known of the build that was watched, where none runs now.
    pub finished: Option<Finished>,
}

/// What a [`Probe`] holds.
pub struct ProbeView {
    pub engine: Option<(i32, Seq<char>)>,
    pub finished: Option<(Option<Seq<char>>, Option<Seq<char>>)>,
}

impl DeepView for Probe {
    type V = ProbeView;

    open spec fn deep_view(&self) -> ProbeView {
        ProbeView {
            engine: match self.engine {
                Some(e) => Some((e.pid, e.dir@)),
                None => None,
            },
            finished: match self.finished {
                Some(f) => Some((f.log.deep_view(), f.error.deep_view())),
                None => None,
            },
        }
    }
}

/// What a look at the system found: the build that runs or, where none does and one
/// was watched, what its newest log says. `text` is what that log holds, where it
/// could be read.
pub fn probe(engine: Option<Engine>, watched: bool, log: Option<String>, text: Option<&str>) -> (r:
    Probe)
    ensures
        r.engine == engine,
        r.deep_view().finished == (if engine is None && watched {
            Some(
                (
                    log.deep_view(),
                    match text {
                        Some(t) => first_error_in(lines(t@)),
                        None => None,
                    },
                ),
            )
        } else {
            None
        }),
{
    let finished: Option<Finished> = match engine {
        None if watched => {
            let error = match text {
                Some(t) => first_error(t),
                None => None,
            };
            Some(Finished { log, error })
        },
        _ => None,
    };
    Probe { engine, finished }
}

/// The state of the module.
pub struct LatexView {
    pub phase: Phase,
    pub watched: Option<(i32, Seq<char>)>,
    pub log_path: Option<Seq<char>>,
    pub error: Option<Seq<char>>,
    pub result_ttl: u32,
}

/// The state after a look at the system, and whether the shell is to be told.
pub open spec fn applied(s: LatexView, probe: ProbeView) -> (LatexView, bool) {
    match probe.engine {
        Some((pid, dir)) => {
            let already = (s.watched matches Some((p, _)) && p == pid) || s.phase
                == Phase::Compiling;
            let now_watching = LatexView { watched: Some((pid, dir)), ..s };
            if already {
                (now_watching, false)
            } else {
                (
                    LatexView { phase: Phase::Compiling, error: None, log_path: None, ..now_watching },
                    true,
                )
            }
        },
        None => if s.watched is Some {
            let (log, error) = match probe.finished {
                Some(f) => f,
                None => (None, None),
            };
            (
                LatexView {
                    phase: if error is Some {
                        Phase::Error
                    } else {
                        Phase::Success
                    },
                    watched: None,
                    log_path: log,
                    error,
                    result_ttl: RESULT_TICKS,
                },
                true,
            )
        } else if s.phase == Phase::Success || s.phase == Phase::Error {
            let ttl = if s.result_ttl > 0 {
                (s.result_ttl - 1) as u32
            } else {
                0
            };
            if ttl == 0 {
                (
                    LatexView {
                        phase: Phase::Idle,
                        error: None,
                        log_path: None,
                        result_ttl: 0,
                        ..s
                    },
                    true,
                )
            } else {
                (LatexView { result_ttl: ttl, ..s }, false)
            }
        } else {
            (s, false)
        },
    }
}

/// The module behind the widget.
#[derive(Debug, Clone, PartialEq, Eq)]
pub struct LatexStatusModule {
    pub phase: Phase,
    /// The build that is watched.
    pub watched: Option<Engine>,
    pub log_path: Option<String>,
    pub error: Option<String>,
    /// For how many ticks a result is still shown.
    pub result_ttl: u32,
}

impl LatexStatusModule {
    /// The state of the module.
    pub open spec fn state(&self) -> LatexView {
        LatexView {
            phase: self.phase,
            watched: match self.watched {
                Some(e) => Some((e.pid, e.dir@)),
                None => None,
            },
            log_path: self.log_path.deep_view(),
            error: self.error.deep_view(),
            result_ttl: self.result_ttl,
        }
    }

    /// A module that watches nothing.
    pub fn new() -> (r: Self)
        ensures
            r.state() == (LatexView {
                phase: Phase::Idle,
                watched: None,
                log_path: None,
                error: None,
                result_ttl: 0,
            }),
    {
        LatexStatusModule {
            phase: Phase::Idle,
            watched: None,
            log_path: None,
            error: None,
            result_ttl: 0,
        }
    }

    /// Takes what a look at the system found. Tells whether the shell is to be
    /// told.
    pub fn apply(&mut self, probe: Probe) -> (r: bool)
        ensures
            final(self).state() == applied(old(self).state(), probe.deep_view()).0,
            r == applied(old(self).state(), probe.deep_view()).1,
    {
        match probe.engine {
            Some(engine) => {
                let known = match &self.watched {
                    Some(e) => e.pid == engine.pid,
                    None => false,
                };
                let already = known || self.phase == Phase::Compiling;
                self.watched = Some(engine);
                if !already {
                    self.phase = Phase::Compiling;
                    self.error = None;
                    self.log_path = None;
                }
                !already
            },
            None => {
                if self.watched.is_some() {
                    self.watched = None;
                    match probe.finished {
                        Some(f) => {
                            self.phase = if f.error.is_some() {
                                Phase::Error
                            } else {
                                Phase::Success
                            };
                            self.error = f.error;
                            self.log_path = f.log;
                        },
                        None => {
                            self.phase = Phase::Success;
                            self.error = None;
                            self.log_path = None;
                        },
                    }
                    self.result_ttl = RESULT_TICKS;
                    true
                } else if self.phase == Phase::Success || self.phase == Phase::Error {
                    if self.result_ttl > 0 {
                        self.result_ttl = self.result_ttl - 1;
                    }
                    if self.result_ttl == 0 {
                        self.phase = Phase::Idle;
                        self.error = None;
                        self.log_path = None;
                        true
                    } else {
                        false
                    }
                } else {
                    false
                }
            },
        }
    }

    /// The log that is to be opened on an event, if one is.
    pub fn on_event(&self, event: &Event) -> (r: Option<String>)
        ensures
            r.deep_view() == (match event.deep_view() {
                EventView::WidgetActionReceived { widget_id, action, data: _ } if widget_id
                    == "latex-status"@ && action == "open_log"@ => self.state().log_path,
                _ => None,
            }),
    {
        match event {
            Event::WidgetActionReceived { widget_id, action, data: _ } => {
                if text::same(widget_id, LATEX_WIDGET_ID) && text::same(action, "open_log") {
                    text::clone_opt(&self.log_path)
                } else {
                    None
                }
            },
            _ => None,
        }
    }

    /// The kinds of event that the module listens to.
    pub fn subscribed_events(&self) -> (r: Vec<EventKind>)
        ensures
            r@ == seq![EventKind::WidgetActionReceived],
    {
        let r: Vec<EventKind> = vec![EventKind::WidgetActionReceived];
        assert(r@ =~= seq![EventKind::WidgetActionReceived]);
        r
    }
}

// ---------------------------------------------------------------------------
// Laws
// ---------------------------------------------------------------------------

/// What holds of the state at all times.
pub open spec fn consistent(s: LatexView) -> bool {
    &&& s.phase == Phase::Compiling <==> s.watched is Some
    &&& s.phase == Phase::Error <==> s.error is Some
    &&& s.phase == Phase::Idle || s.phase == Phase::Compiling ==> s.log_path is None
    &&& s.phase == Phase::Success || s.phase == Phase::Error ==> 0 < s.result_ttl <= RESULT_TICKS
}

/// The phase says what the rest of the state holds: a build is watched exactly
/// while it compiles, an error is held exactly where it is shown, and nothing is
/// left over when the widget is idle. Every look at the system keeps it so.
pub proof fn law_the_phase_tells_the_state(s: LatexView, probe: ProbeView)
    requires
        consistent(s),
    ensures
        consistent(applied(s, probe).0),
{
}

/// The shell is told exactly when what it shows changes its phase.
pub proof fn law_the_shell_is_told_of_changes(s: LatexView, probe: ProbeView)
    requires
        consistent(s),
    ensures
        applied(s, probe).1 <==> applied(s, probe).0.phase != s.phase,
        !applied(s, probe).1 ==> applied(s, probe).0.error == s.error && applied(
            s,
            probe,
        ).0.log_path == s.log_path,
{
}

/// The state after `n` looks that find nothing.
pub open spec fn idled(s: LatexView, n: nat) -> LatexView
    decreases n,
{
    if n == 0 {
        s
    } else {
        applied(idled(s, (n - 1) as nat), ProbeView { engine: None, finished: None }).0
    }
}

proof fn lemma_idled(s: LatexView, n: nat)
    requires
        consistent(s),
        s.phase == Phase::Success || s.phase == Phase::Error,
        n <= s.result_ttl,
    ensures
        n < s.result_ttl ==> idled(s, n).phase == s.phase && idled(s, n).watched is None && idled(
            s,
            n,
        ).result_ttl == s.result_ttl - n,
        n == s.result_ttl ==> idled(s, n).phase == Phase::Idle && idled(s, n).watched is None,
    decreases n,
{
    if n > 0 {
        lemma_idled(s, (n - 1) as nat);
    }
}

/// A result is shown for its ticks and then goes: after as many looks that find
/// nothing the widget is idle, and not before.
pub proof fn law_results_go_after_their_ticks(s: LatexView, probe: ProbeView, n: nat)
    requires
        consistent(s),
        s.watched is Some,
        probe.engine is None,
        n <= RESULT_TICKS,
    ensures
        idled(applied(s, probe).0, n).phase == Phase::Idle <==> n == RESULT_TICKS,
{
    let shown = applied(s, probe).0;
    lemma_idled(shown, n);
}

/// The newest log is a log that no other log is newer than.
pub proof fn law_no_log_is_newer(files: Seq<BuildFile>, k: int)
    requires
        0 <= k < files.len(),
        is_log(files[k]),
    ensures
        newest(files) matches Some(i) && is_log(files[i]) && files[k].modified->0
            <= files[i].modified->0,
{
    lemma_newest(files);
}

/// The engines are the six that are named.
pub proof fn law_engines_are_known_by_name(command: Seq<char>)
    ensures
        engine_name(command) <==> command == "pdflatex"@ || command == "xelatex"@ || command
            == "lualatex"@ || command == "latex"@ || command == "latexmk"@ || command == "tectonic"@,
{
}

/// The error that is shown is the first line that begins with an exclamation mark and a
/// space, without the space around it, up to 160 characters. Without such a line there is
/// none.
pub proof fn law_the_first_error_is_shown(ls: Seq<Seq<char>>)
    ensures
        first_error_in(ls) is None <==> forall|i: int|
            0 <= i < ls.len() ==> !((#[trigger] ls[i]).len() >= 2 && ls[i][0] == '!' && ls[i][1]
                == ' '),
        first_error_in(ls) matches Some(e) ==> exists|i: int|
            {
                &&& 0 <= i < ls.len()
                &&& (#[trigger] ls[i]).len() >= 2 && ls[i][0] == '!' && ls[i][1] == ' '
                &&& forall|j: int|
                    0 <= j < i ==> !((#[trigger] ls[j]).len() >= 2 && ls[j][0] == '!' && ls[j][1]
                        == ' ')
                &&& e.len() == (if trim(ls[i]).len() < 160 {
                    trim(ls[i]).len()
                } else {
                    160
                })
                &&& e == trim(ls[i]).take(e.len() as int)
            },
    decreases ls.len(),
{
    reveal_strlit("! ");
    if ls.len() > 0 {
        let line = ls[0];
        assert(starts_with(line, "! "@) <==> line.len() >= 2 && line[0] == '!' && line[1] == ' ') by {
            if line.len() >= 2 {
                let head = line.subrange(0, 2);
                assert(head[0] == line[0] && head[1] == line[1]);
                if line[0] == '!' && line[1] == ' ' {
                    assert(head =~= "! "@);
                }
            }
        }
        let t = trim(line);
        assert(t.take(t.len() as int) =~= t);
        if !starts_with(line, "! "@) {
            let rest = ls.skip(1);
            law_the_first_error_is_shown(rest);
            if first_error_in(rest) is None {
                assert forall|i: int| 0 <= i < ls.len() implies !((#[trigger] ls[i]).len() >= 2
                    && ls[i][0] == '!' && ls[i][1] == ' ') by {
                    if i > 0 {
                        assert(rest[i - 1] == ls[i]);
                    }
                }
            } else {
                let e = first_error_in(rest)->0;
                let i = choose|i: int|
                    {
                        &&& 0 <= i < rest.len()
                        &&& (#[trigger] rest[i]).len() >= 2 && rest[i][0] == '!' && rest[i][1] == ' '
                        &&& forall|j: int|
                            0 <= j < i ==> !((#[trigger] rest[j]).len() >= 2 && rest[j][0] == '!'
                                && rest[j][1] == ' ')
                        &&& e.len() == (if trim(rest[i]).len() < 160 {
                            trim(rest[i]).len()
                        } else {
                            160
                        })
                        &&& e == trim(rest[i]).take(e.len() as int)
                    };
                assert(ls[i + 1] == rest[i]);
                assert forall|j: int| 0 <= j < i + 1 implies !((#[trigger] ls[j]).len() >= 2
                    && ls[j][0] == '!' && ls[j][1] == ' ') by {
                    if j > 0 {
                        assert(rest[j - 1] == ls[j]);
                    }
                }
            }
        }
    }
}

/// Where a look finds a build, it is watched and shown as compiling. Where a watched
/// build is gone, it succeeded or failed by what its log says, and that is shown for ten
/// looks. A look that finds nothing takes one of them away, and the last one leaves the
/// widget idle.
pub proof fn law_looks_move_the_phase(s: LatexView, probe: ProbeView)
    requires
        consistent(s),
    ensures
        ({
            let (n, told) = applied(s, probe);
            match probe.engine {
                Some((pid, dir)) => n.phase == Phase::Compiling && n.watched == Some((pid, dir))
                    && n.error is None && n.log_path is None,
                None => if s.phase == Phase::Compiling {
                    &&& n.watched is None
                    &&& n.result_ttl == 10
                    &&& probe.finished is None ==> n.phase == Phase::Success && n.log_path is None
                    &&& probe.finished matches Some((log, error)) ==> n.log_path == log && n.error
                        == error && n.phase == (if error is Some {
                        Phase::Error
                    } else {
                        Phase::Success
                    })
                    &&& told
                } else if s.phase == Phase::Idle {
                    n == s && !told
                } else if s.result_ttl > 1 {
                    n == LatexView { result_ttl: (s.result_ttl - 1) as u32, ..s } && !told
                } else {
                    n.phase == Phase::Idle && n.watched is None && n.error is None
                        && n.log_path is None && told
                },
            }
        }),
{
}

/// A log is a file whose name ends in `.log` and is more than that, and whose time is
/// known. The newest is taken, and of several of the same time the first.
pub proof fn law_the_newest_log_is_taken(files: Seq<BuildFile>)
    ensures
        newest(files) matches Some(i) ==> {
            &&& 0 <= i < files.len()
            &&& files[i].name@.len() > 4
            &&& files[i].name@.skip(files[i].name@.len() - 4) == ".log"@
            &&& files[i].modified is Some
            &&& forall|k: int|
                0 <= k < files.len() && (#[trigger] files[k]).name@.len() > 4 && files[k].name@.skip(
                    files[k].name@.len() - 4,
                ) == ".log"@ && files[k].modified is Some ==> files[k].modified->0
                    <= files[i].modified->0 && (k < i ==> files[k].modified->0
                    < files[i].modified->0)
        },
        newest(files) is None ==> forall|k: int|
            0 <= k < files.len() ==> !((#[trigger] files[k]).name@.len() > 4 && files[k].name@.skip(
                files[k].name@.len() - 4,
            ) == ".log"@ && files[k].modified is Some),
    decreases files.len(),
{
    reveal_strlit(".log");
    assert forall|k: int| 0 <= k < files.len() implies (is_log(#[trigger] files[k]) <==> (
    files[k].name@.len() > 4 && files[k].name@.skip(files[k].name@.len() - 4) == ".log"@
        && files[k].modified is Some)) by {
        let n = files[k].name@;
        if n.len() > 4 {
            assert(n.skip(n.len() - 4) =~= n.subrange(n.len() - 4, n.len() as int));
        }
    }
    lemma_newest(files);
    if files.len() > 0 {
        let front = files.drop_last();
        law_the_newest_log_is_taken(front);
        assert forall|k: int| 0 <= k < front.len() implies #[trigger] files[k] == front[k] by {}
        assert(files[files.len() - 1] == files.last());
        if newest(files) is Some {
            let i = newest(files)->0;
            assert forall|k: int|
                0 <= k < files.len() && (#[trigger] files[k]).name@.len() > 4 && files[k].name@.skip(
                    files[k].name@.len() - 4,
                ) == ".log"@ && files[k].modified is Some implies files[k].modified->0
                <= files[i].modified->0 && (k < i ==> files[k].modified->0 < files[i].modified->0) by {
                assert(is_log(files[k]));
                if k < i {
                    assert(front[k] == files[k]);
                    if newest(front) is Some {
                        let j = newest(front)->0;
                        assert(files[j] == front[j]);
                        assert(front[k].modified->0 <= front[j].modified->0);
                    }
                }
            }
        }
    }
}

} // verus!
