//! The GPUs of the hosts.
//!
//! Utilization is an IEEE 754 double, held as its bit pattern: reading one is
//! left to the caller, comparing it with the threshold is not.

use vstd::prelude::*;

use super::host::{shown_name, HostConfig, HostRegistry, HostRole};
use super::jobs::{error_reason, error_reason_text, exit_reason, exit_reason_text};
use super::runner::{
    asked_each, asked_once, lemma_asked_next, CommandOutput, RemoteError, RemoteRunner,
};
use crate::events::WidgetStatus;
use crate::ideation::config::INFINITY_BITS;
use crate::text;
use crate::text::{lines, parse_max, split, trim};

verus! {

pub const GPU_WIDGET_ID: &'static str = "gpu-fleet";

pub const GPU_WIDGET_TYPE: &'static str = "gpu_fleet";

/// The seconds between two polls.
pub const DEFAULT_POLL_INTERVAL_SECS: u64 = 15;

/// The seconds that the command may take beyond those for connecting.
pub const EXTRA_SECS: u64 = 2;

/// The bit pattern of 80.0, from which on a GPU counts as busy.
pub const BUSY_BITS: u64 = 0x4054_0000_0000_0000;

/// One GPU.
#[derive(Debug, Clone, PartialEq, Eq)]
pub struct GpuSample {
    pub index: u32,
    pub name: String,
    /// The utilization in percent, as a bit pattern.
    pub utilization_percent: u64,
    pub memory_used_mb: u64,
    pub memory_total_mb: u64,
    pub temperature_c: u32,
}

/// The contents of a [`GpuSample`].
pub struct GpuView {
    pub index: nat,
    pub name: Seq<char>,
    pub utilization_percent: u64,
    pub memory_used_mb: nat,
    pub memory_total_mb: nat,
    pub temperature_c: nat,
}

impl DeepView for GpuSample {
    type V = GpuView;

    open spec fn deep_view(&self) -> GpuView {
        GpuView {
            index: self.index as nat,
            name: self.name@,
            utilization_percent: self.utilization_percent,
            memory_used_mb: self.memory_used_mb as nat,
            memory_total_mb: self.memory_total_mb as nat,
            temperature_c: self.temperature_c as nat,
        }
    }
}

/// The text of the utilization field: the third of six fields between commas,
/// trimmed. Empty where the line has not six fields.
pub open spec fn utilization_text(line: Seq<char>) -> Seq<char> {
    let f = split(line, ',');
    if f.len() != 6 {
        Seq::empty()
    } else {
        trim(f[2])
    }
}

/// The GPU that a line describes, where its utilization field reads as
/// `percent`.
pub open spec fn gpu_of(line: Seq<char>, percent: Option<u64>) -> Option<GpuView> {
    let f = split(line, ',');
    if f.len() != 6 || percent is None || parse_max(trim(f[0]), u32::MAX as nat) is None
        || parse_max(trim(f[3]), u64::MAX as nat) is None || parse_max(
        trim(f[4]),
        u64::MAX as nat,
    ) is None || parse_max(trim(f[5]), u32::MAX as nat) is None {
        None
    } else {
        Some(
            GpuView {
                index: parse_max(trim(f[0]), u32::MAX as nat)->0,
                name: trim(f[1]),
                utilization_percent: percent->0,
                memory_used_mb: parse_max(trim(f[3]), u64::MAX as nat)->0,
                memory_total_mb: parse_max(trim(f[4]), u64::MAX as nat)->0,
                temperature_c: parse_max(trim(f[5]), u32::MAX as nat)->0,
            },
        )
    }
}

fn utilization_chars(line: &[char]) -> (r: String)
    ensures
        r@ == utilization_text(line@),
{
    let fields = text::split_chars(line, ',');
    assert(text::rows(fields@).len() == fields@.len());
    if fields.len() != 6 {
        return String::new();
    }
    text::string(text::trim_chars(&fields[2]))
}

fn parse_chars(line: &[char], percent: Option<u64>) -> (r: Option<GpuSample>)
    ensures
        r.deep_view() == gpu_of(line@, percent),
{
    let fields = text::split_chars(line, ',');
    assert(text::rows(fields@).len() == fields@.len());
    if fields.len() != 6 {
        return None;
    }
    let utilization: u64 = match percent {
        Some(p) => p,
        None => {
            return None;
        },
    };
    let index: u64 = match text::parse_chars(text::trim_chars(&fields[0]), u32::MAX as u64) {
        Some(n) => n,
        None => {
            return None;
        },
    };
    let used: u64 = match text::parse_chars(text::trim_chars(&fields[3]), u64::MAX) {
        Some(n) => n,
        None => {
            return None;
        },
    };
    let total: u64 = match text::parse_chars(text::trim_chars(&fields[4]), u64::MAX) {
        Some(n) => n,
        None => {
            return None;
        },
    };
    let temperature: u64 = match text::parse_chars(text::trim_chars(&fields[5]), u32::MAX as u64) {
        Some(n) => n,
        None => {
            return None;
        },
    };
    Some(
        GpuSample {
            index: index as u32,
            name: text::string(text::trim_chars(&fields[1])),
            utilization_percent: utilization,
            memory_used_mb: used,
            memory_total_mb: total,
            temperature_c: temperature as u32,
        },
    )
}

impl GpuSample {
    /// The text of the utilization field of a line.
    pub fn utilization_field(line: &str) -> (r: String)
        ensures
            r@ == utilization_text(line@),
    {
        let cs = text::chars(line);
        utilization_chars(&cs)
    }

    /// Reads one line. `percent` is what its utilization field reads as.
    pub fn parse_csv_line(line: &str, percent: Option<u64>) -> (r: Option<Self>)
        ensures
            r.deep_view() == gpu_of(line@, percent),
    {
        let cs = text::chars(line);
        parse_chars(&cs, percent)
    }
}

/// The lines that are not blank.
pub open spec fn sample_lines(stdout: Seq<char>) -> Seq<Seq<char>> {
    lines(stdout).filter(|l: Seq<char>| trim(l).len() > 0)
}

/// The GPUs that some lines describe; broken lines are passed over.
pub open spec fn gpus_of(ls: Seq<Seq<char>>, percents: Seq<Option<u64>>) -> Seq<GpuView>
    decreases ls.len(),
{
    if ls.len() == 0 {
        Seq::empty()
    } else {
        let before = gpus_of(ls.drop_last(), percents);
        match gpu_of(ls.last(), percents[ls.len() - 1]) {
            Some(g) => before.push(g),
            None => before,
        }
    }
}

/// The lines that are not blank.
fn sample_rows(stdout: &str) -> (r: Vec<Vec<char>>)
    ensures
        text::rows(r@) == sample_lines(stdout@),
{
    let cs = text::chars(stdout);
    let ls = text::lines_chars(&cs);
    let ghost lv = text::rows(ls@);
    let ghost p = |l: Seq<char>| trim(l).len() > 0;
    let mut out: Vec<Vec<char>> = Vec::new();
    let mut i: usize = 0;
    assert(lv.take(0).filter(p) =~= Seq::empty()) by {
        reveal(Seq::filter);
    }
    assert(text::rows(out@) =~= lv.take(0).filter(p));
    while i < ls.len()
        invariant
            i <= ls@.len(),
            lv == text::rows(ls@),
            p == (|l: Seq<char>| trim(l).len() > 0),
            text::rows(out@) == lv.take(i as int).filter(p),
        decreases ls@.len() - i,
    {
        let ghost before = out@;
        proof {
            assert(lv.take(i + 1) =~= lv.take(i as int).push(lv[i as int]));
            lv.take(i as int).lemma_filter_push(lv[i as int], p);
        }
        if text::trim_chars(&ls[i]).len() > 0 {
            out.push(vstd::slice::slice_to_vec(&ls[i]));
            assert(text::rows(out@) =~= text::rows(before).push(lv[i as int]));
        }
        i += 1;
    }
    assert(lv.take(i as int) =~= lv);
    out
}

/// The texts of the utilization fields, one for each line that is not blank.
pub fn utilization_fields(stdout: &str) -> (r: Vec<String>)
    ensures
        r.deep_view() == sample_lines(stdout@).map_values(|l: Seq<char>| utilization_text(l)),
{
    let rows = sample_rows(stdout);
    let ghost want = sample_lines(stdout@).map_values(|l: Seq<char>| utilization_text(l));
    let mut out: Vec<String> = Vec::new();
    let mut i: usize = 0;
    assert(text::rows(rows@).len() == rows@.len());
    assert(out.deep_view() =~= want.take(0));
    while i < rows.len()
        invariant
            i <= rows@.len(),
            text::rows(rows@) == sample_lines(stdout@),
            want == sample_lines(stdout@).map_values(|l: Seq<char>| utilization_text(l)),
            want.len() == rows@.len(),
            out.deep_view() == want.take(i as int),
        decreases rows@.len() - i,
    {
        let ghost before = out.deep_view();
        assert(text::rows(rows@)[i as int] == rows@[i as int]@);
        out.push(utilization_chars(&rows[i]));
        proof {
            assert(out.deep_view() =~= before.push(want[i as int]));
            assert(want.take(i + 1) =~= want.take(i as int).push(want[i as int]));
        }
        i += 1;
    }
    assert(want.take(i as int) =~= want);
    out
}

/// The GPUs of one host.
#[derive(Debug, Clone, PartialEq, Eq)]
pub struct GpuHostState {
    pub name: String,
    pub display_name: String,
    pub project: Option<String>,
    pub status: String,
    pub gpus: Vec<GpuSample>,
    pub error: Option<String>,
}

/// The contents of a [`GpuHostState`].
pub struct GpuHostView {
    pub name: Seq<char>,
    pub display_name: Seq<char>,
    pub project: Option<Seq<char>>,
    pub status: Seq<char>,
    pub gpus: Seq<GpuView>,
    pub error: Option<Seq<char>>,
}

impl DeepView for GpuHostState {
    type V = GpuHostView;

    open spec fn deep_view(&self) -> GpuHostView {
        GpuHostView {
            name: self.name@,
            display_name: self.display_name@,
            project: self.project.deep_view(),
            status: self.status@,
            gpus: self.gpus.deep_view(),
            error: self.error.deep_view(),
        }
    }
}

/// The GPUs of all hosts.
#[derive(Debug, Clone, PartialEq, Eq)]
pub struct GpuFleetState {
    pub hosts: Vec<GpuHostState>,
}

/// The command line that asks a host for its GPUs.
pub open spec fn gpu_argv_of() -> Seq<Seq<char>> {
    seq![
        "nvidia-smi"@,
        "--query-gpu=index,name,utilization.gpu,memory.used,memory.total,temperature.gpu"@,
        "--format=csv,noheader,nounits"@,
    ]
}

/// The command line that asks a host for its GPUs.
pub fn gpu_argv() -> (r: Vec<String>)
    ensures
        r.deep_view() == gpu_argv_of(),
{
    let mut out: Vec<String> = Vec::new();
    out.push(text::owned("nvidia-smi"));
    out.push(
        text::owned(
            "--query-gpu=index,name,utilization.gpu,memory.used,memory.total,temperature.gpu",
        ),
    );
    out.push(text::owned("--format=csv,noheader,nounits"));
    assert(out.deep_view() =~= gpu_argv_of());
    out
}

/// Whether a utilization, as a bit pattern, is at or above the threshold. What
/// lies above infinity is negative or no number.
pub open spec fn busy(bits: u64) -> bool {
    BUSY_BITS <= bits <= INFINITY_BITS
}

/// The status of a host with these GPUs.
pub open spec fn gpu_status(gpus: Seq<GpuView>) -> Seq<char> {
    if gpus.len() == 0 {
        "offline"@
    } else if exists|i: int| 0 <= i < gpus.len() && busy((#[trigger] gpus[i]).utilization_percent) {
        "busy"@
    } else {
        "healthy"@
    }
}

/// The state of a host, given what the command came to and what the utilization
/// fields read as.
pub open spec fn gpu_state_of(
    h: HostConfig,
    result: Result<CommandOutput, RemoteError>,
    percents: Seq<Option<u64>>,
) -> GpuHostView {
    let offline = GpuHostView {
        name: h.name@,
        display_name: shown_name(h),
        project: h.project.deep_view(),
        status: "offline"@,
        gpus: Seq::empty(),
        error: None,
    };
    match result {
        Ok(out) => if out.status == Some(0i32) {
            let gpus = gpus_of(sample_lines(out.stdout@), percents);
            GpuHostView {
                status: gpu_status(gpus),
                gpus,
                error: if gpus.len() == 0 {
                    Some("nvidia-smi returned no GPUs"@)
                } else {
                    None
                },
                ..offline
            }
        } else {
            GpuHostView { error: Some(exit_reason("nvidia-smi"@, out.status)), ..offline }
        },
        Err(e) => GpuHostView { error: Some(error_reason(e)), ..offline },
    }
}

fn parse_gpus(stdout: &str, percents: &[Option<u64>]) -> (r: Vec<GpuSample>)
    requires
        percents@.len() == sample_lines(stdout@).len(),
    ensures
        r.deep_view() == gpus_of(sample_lines(stdout@), percents@),
{
    let rows = sample_rows(stdout);
    let ghost lv = sample_lines(stdout@);
    let mut out: Vec<GpuSample> = Vec::new();
    let mut i: usize = 0;
    assert(text::rows(rows@).len() == rows@.len());
    assert(lv.take(0) =~= Seq::empty());
    assert(out.deep_view() =~= gpus_of(lv.take(0), percents@));
    while i < rows.len()
        invariant
            i <= rows@.len(),
            text::rows(rows@) == lv,
            rows@.len() == lv.len(),
            percents@.len() == lv.len(),
            out.deep_view() == gpus_of(lv.take(i as int), percents@),
        decreases rows@.len() - i,
    {
        let ghost before = out.deep_view();
        proof {
            assert(text::rows(rows@)[i as int] == rows@[i as int]@);
            assert(lv.take(i + 1).drop_last() =~= lv.take(i as int));
            assert(lv.take(i + 1).last() == rows@[i as int]@);
        }
        match parse_chars(&rows[i], percents[i]) {
            Some(g) => {
                out.push(g);
                assert(out.deep_view() =~= before.push(g.deep_view()));
            },
            None => {},
        }
        i += 1;
    }
    assert(lv.take(i as int) =~= lv);
    out
}

fn any_busy(gpus: &Vec<GpuSample>) -> (r: bool)
    ensures
        r == (exists|i: int|
            0 <= i < gpus.deep_view().len() && busy(
                (#[trigger] gpus.deep_view()[i]).utilization_percent,
            )),
{
    let ghost gv = gpus.deep_view();
    let mut i: usize = 0;
    while i < gpus.len()
        invariant
            i <= gpus@.len(),
            gv == gpus.deep_view(),
            forall|k: int| 0 <= k < i ==> !busy((#[trigger] gv[k]).utilization_percent),
        decreases gpus@.len() - i,
    {
        let bits: u64 = gpus[i].utilization_percent;
        if BUSY_BITS <= bits && bits <= INFINITY_BITS {
            assert(busy(gv[i as int].utilization_percent));
            return true;
        }
        i += 1;
    }
    false
}

/// The state of a host, given what the command came to and what the utilization
/// fields read as: one value for each line that is not blank.
pub fn gpu_state(
    host: &HostConfig,
    result: &Result<CommandOutput, RemoteError>,
    percents: &[Option<u64>],
) -> (r: GpuHostState)
    requires
        *result is Ok && result->Ok_0.status == Some(0i32) ==> percents@.len() == sample_lines(
            result->Ok_0.stdout@,
        ).len(),
    ensures
        r.deep_view() == gpu_state_of(*host, *result, percents@),
{
    let mut status = text::owned("offline");
    let mut gpus: Vec<GpuSample> = Vec::new();
    let mut error: Option<String> = None;
    assert(gpus.deep_view() =~= Seq::empty());
    match result {
        Ok(out) => {
            if out.is_success() {
                gpus = parse_gpus(&out.stdout, percents);
                assert(gpus.deep_view().len() == gpus@.len());
                if gpus.len() == 0 {
                    error = Some(text::owned("nvidia-smi returned no GPUs"));
                } else if any_busy(&gpus) {
                    status = text::owned("busy");
                } else {
                    status = text::owned("healthy");
                }
            } else {
                error = Some(exit_reason_text("nvidia-smi", out.status));
            }
        },
        Err(e) => {
            error = Some(error_reason_text(e));
        },
    }
    GpuHostState {
        name: host.name.clone(),
        display_name: text::owned(host.display_name()),
        project: text::clone_opt(&host.project),
        status,
        gpus,
        error,
    }
}

/// How up to date the widget is: stale while a host is offline.
pub fn widget_status(state: &GpuFleetState) -> (r: WidgetStatus)
    ensures
        r == (if exists|i: int|
            0 <= i < state.hosts@.len() && (#[trigger] state.hosts@[i]).status@ == "offline"@ {
            WidgetStatus::Stale
        } else {
            WidgetStatus::Normal
        }),
{
    let mut i: usize = 0;
    while i < state.hosts.len()
        invariant
            i <= state.hosts@.len(),
            forall|k: int| 0 <= k < i ==> (#[trigger] state.hosts@[k]).status@ != "offline"@,
        decreases state.hosts@.len() - i,
    {
        if text::same(&state.hosts[i].status, "offline") {
            assert(state.hosts@[i as int].status@ == "offline"@);
            return WidgetStatus::Stale;
        }
        i += 1;
    }
    WidgetStatus::Normal
}

/// The module that watches the GPUs.
pub struct GpuDashboardModule {
    pub registry: HostRegistry,
    pub poll_interval_secs: u64,
}

impl GpuDashboardModule {
    pub fn new(registry: HostRegistry) -> (r: Self)
        ensures
            r.registry == registry,
            r.poll_interval_secs == DEFAULT_POLL_INTERVAL_SECS,
    {
        GpuDashboardModule { registry, poll_interval_secs: DEFAULT_POLL_INTERVAL_SECS }
    }

    pub fn with_poll_interval(self, secs: u64) -> (r: Self)
        ensures
            r.registry == self.registry,
            r.poll_interval_secs == secs,
    {
        GpuDashboardModule { registry: self.registry, poll_interval_secs: secs }
    }

    /// The hosts whose GPUs are watched.
    pub fn hosts(&self) -> (r: Vec<&HostConfig>)
        ensures
            r@.map_values(|h: &HostConfig| *h) == gpu_hosts(self.registry),
    {
        self.registry.filter_by_role(HostRole::Gpu)
    }
}

/// Whether `percent` is what `read` made of a utilization field.
pub open spec fn reads_as<F: Fn(&str) -> Option<u64>>(
    read: F,
    field: Seq<char>,
    percent: Option<u64>,
) -> bool {
    exists|s: &str| s@ == field && #[trigger] call_ensures(read, (s,), percent)
}

/// Whether a state is what an answer of a host comes to, with utilization fields as
/// `read` made them out.
pub open spec fn answers_for<F: Fn(&str) -> Option<u64>>(
    state: GpuHostState,
    h: HostConfig,
    reply: Result<CommandOutput, RemoteError>,
    read: F,
) -> bool {
    exists|percents: Seq<Option<u64>>|
        state.deep_view() == #[trigger] gpu_state_of(h, reply, percents) && (reply is Ok
            && reply->Ok_0.status == Some(0i32) ==> {
            &&& percents.len() == sample_lines(reply->Ok_0.stdout@).len()
            &&& forall|i: int|
                0 <= i < percents.len() ==> reads_as(
                    read,
                    utilization_text(sample_lines(reply->Ok_0.stdout@)[i]),
                    #[trigger] percents[i],
                )
        })
}

/// The hosts whose GPUs are watched.
pub open spec fn gpu_hosts(registry: HostRegistry) -> Seq<HostConfig> {
    registry.hosts@.filter(|h: HostConfig| h.roles@.contains(HostRole::Gpu))
}

impl GpuDashboardModule {
    /// Asks one host. `read` makes a utilization field out.
    pub fn probe_host<R: RemoteRunner, F: Fn(&str) -> Option<u64>>(
        &self,
        runner: &mut R,
        host: &HostConfig,
        read: &F,
    ) -> (r: GpuHostState)
        requires
            host.connect_timeout_secs + EXTRA_SECS <= u64::MAX,
            forall|s: &str| call_requires(read, (s,)),
        ensures
            asked_once(old(runner).log(), final(runner).log(), *host, gpu_argv_of(), EXTRA_SECS as int),
            answers_for(r, *host, final(runner).log().last().reply, *read),
    {
        let argv = gpu_argv();
        let ghost log0 = runner.log();
        let result = runner.run(host, &argv, host.connect_timeout() + EXTRA_SECS);
        assert(runner.log().drop_last() =~= log0);
        let mut percents: Vec<Option<u64>> = Vec::new();
        match &result {
            Ok(out) => {
                if out.is_success() {
                    let fields = utilization_fields(&out.stdout);
                    let ghost ls = sample_lines(out.stdout@);
                    let ghost fv = fields.deep_view();
                    assert(fv.len() == fields@.len());
                    let mut i: usize = 0;
                    while i < fields.len()
                        invariant
                            i <= fields@.len(),
                            fields@.len() == ls.len(),
                            fv == fields.deep_view(),
                            fv == ls.map_values(|l: Seq<char>| utilization_text(l)),
                            forall|s: &str| call_requires(read, (s,)),
                            percents@.len() == i,
                            forall|k: int|
                                0 <= k < i ==> reads_as(
                                    *read,
                                    utilization_text(ls[k]),
                                    #[trigger] percents@[k],
                                ),
                        decreases fields@.len() - i,
                    {
                        let field = fields[i].as_str();
                        proof {
                            assert(fv[i as int] == field@);
                            assert(fv[i as int] == utilization_text(ls[i as int]));
                        }
                        let percent = read(field);
                        percents.push(percent);
                        assert(reads_as(*read, utilization_text(ls[i as int]), percent));
                        i += 1;
                    }
                }
            },
            Err(_) => {},
        }
        let state = gpu_state(host, &result, &percents);
        assert(state.deep_view() == gpu_state_of(*host, result, percents@));
        state
    }

    /// Asks every host that is watched, in order. Nothing where none is.
    pub fn run_once<R: RemoteRunner, F: Fn(&str) -> Option<u64>>(
        &self,
        runner: &mut R,
        read: &F,
    ) -> (r: Option<GpuFleetState>)
        requires
            forall|i: int|
                0 <= i < gpu_hosts(self.registry).len() ==> (
                #[trigger] gpu_hosts(self.registry)[i]).connect_timeout_secs + EXTRA_SECS
                    <= u64::MAX,
            forall|s: &str| call_requires(read, (s,)),
        ensures
            r is Some <==> gpu_hosts(self.registry).len() > 0,
            asked_each(
                old(runner).log(),
                final(runner).log(),
                gpu_hosts(self.registry),
                |h: HostConfig| gpu_argv_of(),
                EXTRA_SECS as int,
            ),
            r is Some ==> r->0.hosts@.len() == gpu_hosts(self.registry).len() && forall|i: int|
                0 <= i < r->0.hosts@.len() ==> answers_for(
                    #[trigger] r->0.hosts@[i],
                    gpu_hosts(self.registry)[i],
                    final(runner).log()[old(runner).log().len() + i].reply,
                    *read,
                ),
    {
        let hosts = self.hosts();
        let ghost hv = gpu_hosts(self.registry);
        let ghost log0 = runner.log();
        let ghost argv = |h: HostConfig| gpu_argv_of();
        proof {
            assert(hosts@.map_values(|h: &HostConfig| *h).len() == hosts@.len());
            assert(log0.take(log0.len() as int) =~= log0);
            assert forall|k: int| 0 <= k < hosts@.len() implies *(#[trigger] hosts@[k]) == hv[k] by {
                assert(hosts@.map_values(|h: &HostConfig| *h)[k] == *hosts@[k]);
            }
        }
        if hosts.len() == 0 {
            return None;
        }
        let mut out: Vec<GpuHostState> = Vec::new();
        let mut i: usize = 0;
        while i < hosts.len()
            invariant
                i <= hosts@.len(),
                hosts@.len() == hv.len(),
                hv == gpu_hosts(self.registry),
                forall|k: int| 0 <= k < hosts@.len() ==> *(#[trigger] hosts@[k]) == hv[k],
                argv == (|h: HostConfig| gpu_argv_of()),
                forall|k: int|
                    0 <= k < hv.len() ==> (#[trigger] hv[k]).connect_timeout_secs + EXTRA_SECS
                        <= u64::MAX,
                forall|s: &str| call_requires(read, (s,)),
                out@.len() == i,
                forall|k: int|
                    0 <= k < i ==> answers_for(
                        #[trigger] out@[k],
                        hv[k],
                        runner.log()[log0.len() + k].reply,
                        *read,
                    ),
                asked_each(log0, runner.log(), hv.take(i as int), argv, EXTRA_SECS as int),
            decreases hosts@.len() - i,
        {
            let ghost middle = runner.log();
            assert(hv[i as int].connect_timeout_secs + EXTRA_SECS <= u64::MAX);
            let state = self.probe_host(runner, hosts[i], read);
            out.push(state);
            proof {
                lemma_asked_next(log0, middle, runner.log(), hv, i as int, argv, EXTRA_SECS as int);
                assert forall|k: int| 0 <= k < i + 1 implies answers_for(
                    #[trigger] out@[k],
                    hv[k],
                    runner.log()[log0.len() + k].reply,
                    *read,
                ) by {
                    if k < i {
                        assert(runner.log()[log0.len() + k] == middle[log0.len() + k]);
                    }
                }
            }
            i += 1;
        }
        assert(hv.take(i as int) =~= hv);
        Some(GpuFleetState { hosts: out })
    }
}

/// A host is offline exactly when there is an error to show, and then shows no
/// GPU.
pub proof fn law_offline_hosts_say_why(
    h: HostConfig,
    result: Result<CommandOutput, RemoteError>,
    percents: Seq<Option<u64>>,
)
    ensures
        ({
            let s = gpu_state_of(h, result, percents);
            &&& s.status == "offline"@ <==> s.error is Some
            &&& s.error is Some <==> s.gpus.len() == 0
        }),
{
    reveal_strlit("offline");
    reveal_strlit("busy");
    reveal_strlit("healthy");
    assert("offline"@[0] != "busy"@[0]);
    assert("offline"@[0] != "healthy"@[0]);
}

} // verus!
