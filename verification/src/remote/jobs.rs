//! The jobs that a batch system holds for the user.

use vstd::prelude::*;

use super::host::{shown_name, HostConfig, HostRegistry, HostRole};
use super::runner::{
    asked_each, asked_once, lemma_asked_next, CommandOutput, RemoteError, RemoteRunner,
};
use crate::events::WidgetStatus;
use crate::text;
use crate::text::{decimal_int, lines, split, trim};

verus! {

pub const JOBS_WIDGET_ID: &'static str = "remote-jobs";

pub const JOBS_WIDGET_TYPE: &'static str = "remote_jobs";

/// The seconds between two polls.
pub const DEFAULT_POLL_INTERVAL_SECS: u64 = 30;

/// The seconds that the command may take beyond those for connecting.
pub const EXTRA_SECS: u64 = 3;

/// The fields that are asked for, with a bar between each two.
pub const SQUEUE_FORMAT: &'static str = "%i|%j|%T|%R|%M|%l";

/// One job.
#[derive(Debug, Clone, PartialEq, Eq)]
pub struct SlurmJob {
    pub id: String,
    pub name: String,
    pub state: String,
    pub reason: String,
    pub time_used: String,
    pub time_limit: String,
}

/// The contents of a [`SlurmJob`].
pub struct JobView {
    pub id: Seq<char>,
    pub name: Seq<char>,
    pub state: Seq<char>,
    pub reason: Seq<char>,
    pub time_used: Seq<char>,
    pub time_limit: Seq<char>,
}

impl DeepView for SlurmJob {
    type V = JobView;

    open spec fn deep_view(&self) -> JobView {
        JobView {
            id: self.id@,
            name: self.name@,
            state: self.state@,
            reason: self.reason@,
            time_used: self.time_used@,
            time_limit: self.time_limit@,
        }
    }
}

/// The job that a line describes: six fields between bars, each trimmed, the
/// first of them not empty.
pub open spec fn job_of(line: Seq<char>) -> Option<JobView> {
    let f = split(line, '|');
    if f.len() != 6 || trim(f[0]).len() == 0 {
        None
    } else {
        Some(
            JobView {
                id: trim(f[0]),
                name: trim(f[1]),
                state: trim(f[2]),
                reason: trim(f[3]),
                time_used: trim(f[4]),
                time_limit: trim(f[5]),
            },
        )
    }
}

fn parse_chars(line: &[char]) -> (r: Option<SlurmJob>)
    ensures
        r.deep_view() == job_of(line@),
{
    let fields = text::split_chars(line, '|');
    assert(text::rows(fields@).len() == fields@.len());
    if fields.len() != 6 {
        return None;
    }
    let id = text::trim_chars(&fields[0]);
    if id.len() == 0 {
        return None;
    }
    Some(
        SlurmJob {
            id: text::string(id),
            name: text::string(text::trim_chars(&fields[1])),
            state: text::string(text::trim_chars(&fields[2])),
            reason: text::string(text::trim_chars(&fields[3])),
            time_used: text::string(text::trim_chars(&fields[4])),
            time_limit: text::string(text::trim_chars(&fields[5])),
        },
    )
}

impl SlurmJob {
    /// Reads one line.
    pub fn parse_line(line: &str) -> (r: Option<Self>)
        ensures
            r.deep_view() == job_of(line@),
    {
        let cs = text::chars(line);
        parse_chars(&cs)
    }
}

/// The jobs that some lines describe; blank and broken lines are passed over.
pub open spec fn jobs_of(ls: Seq<Seq<char>>) -> Seq<JobView>
    decreases ls.len(),
{
    if ls.len() == 0 {
        Seq::empty()
    } else {
        let before = jobs_of(ls.drop_last());
        if trim(ls.last()).len() == 0 {
            before
        } else {
            match job_of(ls.last()) {
                Some(j) => before.push(j),
                None => before,
            }
        }
    }
}

/// The jobs on one host.
#[derive(Debug, Clone, PartialEq, Eq)]
pub struct JobsHostState {
    pub name: String,
    pub display_name: String,
    pub project: Option<String>,
    pub status: String,
    pub jobs: Vec<SlurmJob>,
    pub error: Option<String>,
}

/// The contents of a [`JobsHostState`].
pub struct JobsHostView {
    pub name: Seq<char>,
    pub display_name: Seq<char>,
    pub project: Option<Seq<char>>,
    pub status: Seq<char>,
    pub jobs: Seq<JobView>,
    pub error: Option<Seq<char>>,
}

impl DeepView for JobsHostState {
    type V = JobsHostView;

    open spec fn deep_view(&self) -> JobsHostView {
        JobsHostView {
            name: self.name@,
            display_name: self.display_name@,
            project: self.project.deep_view(),
            status: self.status@,
            jobs: self.jobs.deep_view(),
            error: self.error.deep_view(),
        }
    }
}

/// The jobs on all hosts.
#[derive(Debug, Clone, PartialEq, Eq)]
pub struct RemoteJobsState {
    pub hosts: Vec<JobsHostState>,
}

/// The command line that asks a host for the user's jobs.
pub open spec fn jobs_argv_of(h: HostConfig) -> Seq<Seq<char>> {
    seq![
        "squeue"@,
        "-h"@,
        "--user="@ + (match h.user {
            Some(u) => u@,
            None => "$USER"@,
        }),
        "--format="@ + SQUEUE_FORMAT@,
    ]
}

/// The command line that asks a host for the user's jobs.
pub fn jobs_argv(host: &HostConfig) -> (r: Vec<String>)
    ensures
        r.deep_view() == jobs_argv_of(*host),
{
    let mut out: Vec<String> = Vec::new();
    out.push(text::owned("squeue"));
    out.push(text::owned("-h"));
    match &host.user {
        Some(u) => out.push(text::concat2("--user=", u)),
        None => out.push(text::concat2("--user=", "$USER")),
    }
    out.push(text::concat2("--format=", SQUEUE_FORMAT));
    assert(out.deep_view() =~= jobs_argv_of(*host));
    out
}

/// The status of a host with these jobs.
pub open spec fn jobs_status(jobs: Seq<JobView>) -> Seq<char> {
    if exists|i: int| 0 <= i < jobs.len() && (#[trigger] jobs[i]).state == "RUNNING"@ {
        "running"@
    } else if jobs.len() > 0 {
        "pending"@
    } else {
        "idle"@
    }
}

/// Why a command that ended with a status is taken as a failure.
pub open spec fn exit_reason(program: Seq<char>, status: Option<i32>) -> Seq<char> {
    match status {
        Some(c) => if c == 127 {
            program + " not installed"@
        } else {
            program + " exit "@ + decimal_int(c as int)
        },
        None => program + " killed"@,
    }
}

/// Why a command that ended with a status is taken as a failure.
pub fn exit_reason_text(program: &str, status: Option<i32>) -> (r: String)
    ensures
        r@ == exit_reason(program@, status),
{
    match status {
        Some(c) => if c == 127 {
            text::concat2(program, " not installed")
        } else {
            text::concat3(program, " exit ", &text::decimal_string_i64(c as i64))
        },
        None => text::concat2(program, " killed"),
    }
}

/// Why a command gave no output.
pub open spec fn error_reason(e: RemoteError) -> Seq<char> {
    match e {
        RemoteError::Timeout { host } => "timeout"@,
        _ => e.words(),
    }
}

/// Why a command gave no output.
pub fn error_reason_text(e: &RemoteError) -> (r: String)
    ensures
        r@ == error_reason(*e),
{
    match e {
        RemoteError::Timeout { host: _ } => text::owned("timeout"),
        _ => e.message(),
    }
}

/// The state of a host, given what the command came to.
pub open spec fn jobs_state_of(h: HostConfig, result: Result<CommandOutput, RemoteError>) -> JobsHostView {
    let offline = JobsHostView {
        name: h.name@,
        display_name: shown_name(h),
        project: h.project.deep_view(),
        status: "offline"@,
        jobs: Seq::empty(),
        error: None,
    };
    match result {
        Ok(out) => if out.status == Some(0i32) {
            let jobs = jobs_of(lines(out.stdout@));
            JobsHostView { status: jobs_status(jobs), jobs, error: None, ..offline }
        } else {
            JobsHostView { error: Some(exit_reason("squeue"@, out.status)), ..offline }
        },
        Err(e) => JobsHostView { error: Some(error_reason(e)), ..offline },
    }
}

/// Reads the jobs out of what the command printed.
pub fn parse_jobs(stdout: &str) -> (r: Vec<SlurmJob>)
    ensures
        r.deep_view() == jobs_of(lines(stdout@)),
{
    let cs = text::chars(stdout);
    let ls = text::lines_chars(&cs);
    let ghost lv = text::rows(ls@);
    let mut out: Vec<SlurmJob> = Vec::new();
    let mut i: usize = 0;
    assert(lv.take(0) =~= Seq::empty());
    assert(out.deep_view() =~= jobs_of(lv.take(0)));
    while i < ls.len()
        invariant
            i <= ls@.len(),
            lv == text::rows(ls@),
            out.deep_view() == jobs_of(lv.take(i as int)),
        decreases ls@.len() - i,
    {
        let ghost before = out.deep_view();
        proof {
            assert(lv.take(i + 1).drop_last() =~= lv.take(i as int));
            assert(lv.take(i + 1).last() == ls@[i as int]@);
        }
        if text::trim_chars(&ls[i]).len() > 0 {
            match parse_chars(&ls[i]) {
                Some(j) => {
                    out.push(j);
                    assert(out.deep_view() =~= before.push(j.deep_view()));
                },
                None => {},
            }
        }
        i += 1;
    }
    assert(lv.take(i as int) =~= lv);
    out
}

fn status_of(jobs: &Vec<SlurmJob>) -> (r: String)
    ensures
        r@ == jobs_status(jobs.deep_view()),
{
    let ghost jv = jobs.deep_view();
    let mut i: usize = 0;
    while i < jobs.len()
        invariant
            i <= jobs@.len(),
            jv == jobs.deep_view(),
            forall|k: int| 0 <= k < i ==> (#[trigger] jv[k]).state != "RUNNING"@,
        decreases jobs@.len() - i,
    {
        if text::same(&jobs[i].state, "RUNNING") {
            assert(jv[i as int].state == "RUNNING"@);
            return text::owned("running");
        }
        i += 1;
    }
    if jobs.len() > 0 {
        text::owned("pending")
    } else {
        text::owned("idle")
    }
}

/// The state of a host, given what the command came to.
pub fn jobs_state(host: &HostConfig, result: &Result<CommandOutput, RemoteError>) -> (r:
    JobsHostState)
    ensures
        r.deep_view() == jobs_state_of(*host, *result),
{
    let mut status = text::owned("offline");
    let mut jobs: Vec<SlurmJob> = Vec::new();
    let mut error: Option<String> = None;
    assert(jobs.deep_view() =~= Seq::empty());
    match result {
        Ok(out) => {
            if out.is_success() {
                jobs = parse_jobs(&out.stdout);
                status = status_of(&jobs);
            } else {
                error = Some(exit_reason_text("squeue", out.status));
            }
        },
        Err(e) => {
            error = Some(error_reason_text(e));
        },
    }
    JobsHostState {
        name: host.name.clone(),
        display_name: text::owned(host.display_name()),
        project: text::clone_opt(&host.project),
        status,
        jobs,
        error,
    }
}

/// Whether any host is offline.
pub open spec fn some_offline(hosts: Seq<JobsHostView>) -> bool {
    exists|i: int| 0 <= i < hosts.len() && (#[trigger] hosts[i]).status == "offline"@
}

/// How up to date the widget is: stale while a host is offline.
pub fn widget_status(state: &RemoteJobsState) -> (r: WidgetStatus)
    ensures
        r == (if some_offline(state.hosts.deep_view()) {
            WidgetStatus::Stale
        } else {
            WidgetStatus::Normal
        }),
{
    let ghost hv = state.hosts.deep_view();
    let mut i: usize = 0;
    while i < state.hosts.len()
        invariant
            i <= state.hosts@.len(),
            hv == state.hosts.deep_view(),
            forall|k: int| 0 <= k < i ==> (#[trigger] hv[k]).status != "offline"@,
        decreases state.hosts@.len() - i,
    {
        if text::same(&state.hosts[i].status, "offline") {
            assert(hv[i as int].status == "offline"@);
            return WidgetStatus::Stale;
        }
        i += 1;
    }
    WidgetStatus::Normal
}

/// The module that watches the jobs.
pub struct RemoteJobsModule {
    pub registry: HostRegistry,
    pub poll_interval_secs: u64,
}

/// The hosts whose jobs are watched.
pub open spec fn jobs_hosts(registry: HostRegistry) -> Seq<HostConfig> {
    registry.hosts@.filter(|h: HostConfig| h.roles@.contains(HostRole::Jobs))
}

impl RemoteJobsModule {
    pub fn new(registry: HostRegistry) -> (r: Self)
        ensures
            r.registry == registry,
            r.poll_interval_secs == DEFAULT_POLL_INTERVAL_SECS,
    {
        RemoteJobsModule { registry, poll_interval_secs: DEFAULT_POLL_INTERVAL_SECS }
    }

    pub fn with_poll_interval(self, secs: u64) -> (r: Self)
        ensures
            r.registry == self.registry,
            r.poll_interval_secs == secs,
    {
        RemoteJobsModule { registry: self.registry, poll_interval_secs: secs }
    }

    /// Asks one host.
    pub fn probe_host<R: RemoteRunner>(&self, runner: &mut R, host: &HostConfig) -> (r:
        JobsHostState)
        requires
            host.connect_timeout_secs + EXTRA_SECS <= u64::MAX,
        ensures
            asked_once(old(runner).log(), final(runner).log(), *host, jobs_argv_of(*host), EXTRA_SECS as int),
            r.deep_view() == jobs_state_of(*host, final(runner).log().last().reply),
    {
        let argv = jobs_argv(host);
        let ghost log0 = runner.log();
        let result = runner.run(host, &argv, host.connect_timeout() + EXTRA_SECS);
        assert(runner.log().drop_last() =~= log0);
        jobs_state(host, &result)
    }

    /// Asks every host that is watched, in order. Nothing where none is.
    pub fn run_once<R: RemoteRunner>(&self, runner: &mut R) -> (r: Option<RemoteJobsState>)
        requires
            forall|i: int|
                0 <= i < jobs_hosts(self.registry).len() ==> (
                #[trigger] jobs_hosts(self.registry)[i]).connect_timeout_secs + EXTRA_SECS
                    <= u64::MAX,
        ensures
            r is Some <==> jobs_hosts(self.registry).len() > 0,
            asked_each(
                old(runner).log(),
                final(runner).log(),
                jobs_hosts(self.registry),
                |h: HostConfig| jobs_argv_of(h),
                EXTRA_SECS as int,
            ),
            r is Some ==> r->0.hosts@.len() == jobs_hosts(self.registry).len() && forall|i: int|
                0 <= i < r->0.hosts@.len() ==> (#[trigger] r->0.hosts@[i]).deep_view()
                    == jobs_state_of(
                    jobs_hosts(self.registry)[i],
                    final(runner).log()[old(runner).log().len() + i].reply,
                ),
    {
        let hosts = self.registry.filter_by_role(HostRole::Jobs);
        let ghost hv = jobs_hosts(self.registry);
        let ghost log0 = runner.log();
        let ghost argv = |h: HostConfig| jobs_argv_of(h);
        proof {
            assert(hosts@.map_values(|h: &HostConfig| *h).len() == hosts@.len());
            assert(log0.take(log0.len() as int) =~= log0);
        }
        if hosts.len() == 0 {
            return None;
        }
        let mut out: Vec<JobsHostState> = Vec::new();
        let mut i: usize = 0;
        while i < hosts.len()
            invariant
                i <= hosts@.len(),
                hosts@.len() == hv.len(),
                hv == jobs_hosts(self.registry),
                forall|k: int| 0 <= k < hosts@.len() ==> *(#[trigger] hosts@[k]) == hv[k],
                argv == (|h: HostConfig| jobs_argv_of(h)),
                forall|k: int|
                    0 <= k < hv.len() ==> (#[trigger] hv[k]).connect_timeout_secs + EXTRA_SECS
                        <= u64::MAX,
                out@.len() == i,
                forall|k: int|
                    0 <= k < i ==> (#[trigger] out@[k]).deep_view() == jobs_state_of(
                        hv[k],
                        runner.log()[log0.len() + k].reply,
                    ),
                asked_each(log0, runner.log(), hv.take(i as int), argv, EXTRA_SECS as int),
            decreases hosts@.len() - i,
        {
            let ghost middle = runner.log();
            assert(hv[i as int].connect_timeout_secs + EXTRA_SECS <= u64::MAX);
            let state = self.probe_host(runner, hosts[i]);
            out.push(state);
            proof {
                lemma_asked_next(log0, middle, runner.log(), hv, i as int, argv, EXTRA_SECS as int);
                assert forall|k: int| 0 <= k < i + 1 implies (#[trigger] out@[k]).deep_view()
                    == jobs_state_of(hv[k], runner.log()[log0.len() + k].reply) by {
                    if k < i {
                        assert(runner.log()[log0.len() + k] == middle[log0.len() + k]);
                    }
                }
            }
            i += 1;
        }
        assert(hv.take(i as int) =~= hv);
        Some(RemoteJobsState { hosts: out })
    }
}

/// A host without jobs to show is offline or idle, never running or pending; and
/// an offline host always says why.
pub proof fn law_offline_hosts_say_why(h: HostConfig, result: Result<CommandOutput, RemoteError>)
    ensures
        ({
            let s = jobs_state_of(h, result);
            &&& s.status == "offline"@ <==> s.error is Some
            &&& s.error is Some ==> s.jobs.len() == 0
        }),
{
    reveal_strlit("offline");
    reveal_strlit("running");
    reveal_strlit("pending");
    reveal_strlit("idle");
    assert("offline"@[0] != "running"@[0]);
    assert("offline"@[0] != "pending"@[0]);
    assert("offline"@[0] != "idle"@[0]);
}

} // verus!
