//! What the states of the hosts say of the answers that they gave.

use vstd::prelude::*;

use super::gpu::{
    busy, gpu_argv_of, gpu_hosts, gpu_of, gpu_state_of, gpu_status, gpus_of, sample_lines,
    utilization_text, GpuView,
};
use super::host::{shown_name, HostConfig, HostRegistry, HostRole};
use super::jobs::{job_of, jobs_argv_of, jobs_hosts, jobs_of, jobs_state_of, jobs_status, JobView};
use super::runner::{asked_each, asks, CommandOutput, RemoteError, RunView};
use super::ssh_monitor::{
    asks_for_poll, down_count, millis_between, raw_level, reached_after, reports, ssh_argv_of,
    ssh_state_of, transitions, SshHostView, SshMonitorModule, SshReport,
};
use crate::cuts::{law_lines, law_numbers_read_back, law_parts, law_trimming, tight};
use crate::escalation::{next_level, EscalationLevel};
use crate::events::{EventView, WidgetStatus};
use crate::text::{decimal, decimal_int, is_white, lines, parse_max, split, trim};

verus! {

// ---------------------------------------------------------------------------
// Cards
// ---------------------------------------------------------------------------

/// A host that answered and has cards is busy exactly where one of them is used at 80
/// percent or more, and healthy exactly where none is. Without a card it counts as
/// offline. Patterns from that of 80.0 to that of infinity are the numbers from 80.0 on.
pub proof fn law_one_busy_card_makes_a_busy_host(
    h: HostConfig,
    out: CommandOutput,
    percents: Seq<Option<u64>>,
)
    requires
        out.status == Some(0i32),
    ensures
        ({
            let s = gpu_state_of(h, Ok(out), percents);
            &&& s.status == "busy"@ <==> exists|i: int|
                0 <= i < s.gpus.len() && 0x4054_0000_0000_0000 <= (
                #[trigger] s.gpus[i]).utilization_percent <= 0x7FF0_0000_0000_0000
            &&& s.status == "healthy"@ <==> s.gpus.len() > 0 && forall|i: int|
                0 <= i < s.gpus.len() ==> !(0x4054_0000_0000_0000 <= (
                #[trigger] s.gpus[i]).utilization_percent <= 0x7FF0_0000_0000_0000)
            &&& s.status == "offline"@ <==> s.gpus.len() == 0
        }),
{
    reveal_strlit("busy");
    reveal_strlit("healthy");
    reveal_strlit("offline");
    assert("offline"@[0] == 'o' && "busy"@[0] == 'b' && "healthy"@[0] == 'h');
    assert("offline"@ != "busy"@ && "offline"@ != "healthy"@ && "busy"@ != "healthy"@);
    let gpus = gpu_state_of(h, Ok(out), percents).gpus;
    assert(gpu_state_of(h, Ok(out), percents).status == gpu_status(gpus));
    assert forall|i: int| 0 <= i < gpus.len() implies (busy(
        (#[trigger] gpus[i]).utilization_percent,
    ) <==> 0x4054_0000_0000_0000 <= gpus[i].utilization_percent <= 0x7FF0_0000_0000_0000) by {}
}

/// The status of a host does not depend on the order of its cards, or on how often one
/// of them is listed.
pub proof fn law_the_order_of_the_cards_is_nothing(
    h: HostConfig,
    a: CommandOutput,
    pa: Seq<Option<u64>>,
    b: CommandOutput,
    pb: Seq<Option<u64>>,
)
    requires
        a.status == Some(0i32),
        b.status == Some(0i32),
        forall|g: GpuView|
            gpu_state_of(h, Ok(a), pa).gpus.contains(g) <==> #[trigger] gpu_state_of(
                h,
                Ok(b),
                pb,
            ).gpus.contains(g),
    ensures
        gpu_state_of(h, Ok(a), pa).status == gpu_state_of(h, Ok(b), pb).status,
{
    let s = gpu_state_of(h, Ok(a), pa);
    let t = gpu_state_of(h, Ok(b), pb);
    law_one_busy_card_makes_a_busy_host(h, a, pa);
    law_one_busy_card_makes_a_busy_host(h, b, pb);
    let hot = |u: u64| 0x4054_0000_0000_0000 <= u <= 0x7FF0_0000_0000_0000;
    assert forall|i: int| 0 <= i < s.gpus.len() implies exists|j: int|
        0 <= j < t.gpus.len() && #[trigger] t.gpus[j] == #[trigger] s.gpus[i] by {
        assert(s.gpus.contains(s.gpus[i]));
        assert(t.gpus.contains(s.gpus[i]));
    }
    assert forall|j: int| 0 <= j < t.gpus.len() implies exists|i: int|
        0 <= i < s.gpus.len() && #[trigger] s.gpus[i] == #[trigger] t.gpus[j] by {
        assert(t.gpus.contains(t.gpus[j]));
        assert(s.gpus.contains(t.gpus[j]));
    }
    if s.status == "busy"@ {
        let i = choose|i: int| 0 <= i < s.gpus.len() && hot((#[trigger] s.gpus[i]).utilization_percent);
        let j = choose|j: int| 0 <= j < t.gpus.len() && #[trigger] t.gpus[j] == s.gpus[i];
        assert(hot(t.gpus[j].utilization_percent));
    } else if t.status == "busy"@ {
        let j = choose|j: int| 0 <= j < t.gpus.len() && hot((#[trigger] t.gpus[j]).utilization_percent);
        let i = choose|i: int| 0 <= i < s.gpus.len() && #[trigger] s.gpus[i] == t.gpus[j];
        assert(hot(s.gpus[i].utilization_percent));
    } else {
        if s.gpus.len() > 0 {
            assert(s.gpus.contains(s.gpus[0]));
            assert(t.gpus.contains(s.gpus[0]));
        }
        if t.gpus.len() > 0 {
            assert(t.gpus.contains(t.gpus[0]));
            assert(s.gpus.contains(t.gpus[0]));
        }
    }
}

/// Six fields with a separator between each two.
pub open spec fn six(
    a: Seq<char>,
    b: Seq<char>,
    c: Seq<char>,
    d: Seq<char>,
    e: Seq<char>,
    f: Seq<char>,
    sep: char,
) -> Seq<char> {
    a + seq![sep] + (b + seq![sep] + (c + seq![sep] + (d + seq![sep] + (e + seq![sep] + f))))
}

proof fn lemma_six(
    a: Seq<char>,
    b: Seq<char>,
    c: Seq<char>,
    d: Seq<char>,
    e: Seq<char>,
    f: Seq<char>,
    sep: char,
)
    requires
        !a.contains(sep),
        !b.contains(sep),
        !c.contains(sep),
        !d.contains(sep),
        !e.contains(sep),
        !f.contains(sep),
    ensures
        split(six(a, b, c, d, e, f, sep), sep) == seq![a, b, c, d, e, f],
{
    let none = Seq::<char>::empty();
    law_parts(f, sep, none);
    law_parts(e, sep, f);
    let s4 = e + seq![sep] + f;
    law_parts(d, sep, s4);
    let s3 = d + seq![sep] + s4;
    law_parts(c, sep, s3);
    let s2 = c + seq![sep] + s3;
    law_parts(b, sep, s2);
    let s1 = b + seq![sep] + s2;
    law_parts(a, sep, s1);
    assert(split(six(a, b, c, d, e, f, sep), sep) =~= seq![a, b, c, d, e, f]);
}

/// A field with a space before it, or without one.
proof fn lemma_spaced(s: Seq<char>, sep: char)
    requires
        tight(s),
        !s.contains(sep),
        sep != ' ',
    ensures
        !(seq![' '] + s).contains(sep),
        trim(seq![' '] + s) == s,
        trim(s) == s,
{
    let t = seq![' '] + s;
    if t.contains(sep) {
        let i = choose|i: int| 0 <= i < t.len() && t[i] == sep;
        assert(s[i - 1] == sep);
    }
    let none = Seq::<char>::empty();
    assert(t + none =~= t);
    law_trimming(seq![' '], s, none);
}

proof fn lemma_number_field(n: nat, sep: char)
    requires
        sep == ',' || sep == '|',
    ensures
        tight(decimal(n)),
        !decimal(n).contains(sep),
{
    law_numbers_read_back(n);
    let s = decimal(n);
    assert('0' <= s[0] <= '9');
    assert('0' <= s[s.len() - 1] <= '9');
    if s.contains(sep) {
        let i = choose|i: int| 0 <= i < s.len() && s[i] == sep;
        assert('0' <= s[i] <= '9');
    }
}

/// A line with the numbers of a card reads back as the card, in the order in which they
/// are asked for: its index, its name, how much it is used, its memory in use and in
/// all, and its temperature.
pub proof fn law_card_lines_read_back(
    index: u32,
    name: Seq<char>,
    usage: Seq<char>,
    used: u64,
    total: u64,
    temperature: u32,
    percent: u64,
)
    requires
        tight(name),
        !name.contains(','),
        tight(usage),
        !usage.contains(','),
    ensures
        ({
            let line = six(
                decimal(index as nat),
                seq![' '] + name,
                seq![' '] + usage,
                seq![' '] + decimal(used as nat),
                seq![' '] + decimal(total as nat),
                seq![' '] + decimal(temperature as nat),
                ',',
            );
            &&& utilization_text(line) == usage
            &&& gpu_of(line, None) is None
            &&& gpu_of(line, Some(percent)) == Some(
                GpuView {
                    index: index as nat,
                    name,
                    utilization_percent: percent,
                    memory_used_mb: used as nat,
                    memory_total_mb: total as nat,
                    temperature_c: temperature as nat,
                },
            )
        }),
{
    lemma_number_field(index as nat, ',');
    lemma_number_field(used as nat, ',');
    lemma_number_field(total as nat, ',');
    lemma_number_field(temperature as nat, ',');
    lemma_spaced(decimal(index as nat), ',');
    lemma_spaced(name, ',');
    lemma_spaced(usage, ',');
    lemma_spaced(decimal(used as nat), ',');
    lemma_spaced(decimal(total as nat), ',');
    lemma_spaced(decimal(temperature as nat), ',');
    lemma_six(
        decimal(index as nat),
        seq![' '] + name,
        seq![' '] + usage,
        seq![' '] + decimal(used as nat),
        seq![' '] + decimal(total as nat),
        seq![' '] + decimal(temperature as nat),
        ',',
    );
    law_numbers_read_back(index as nat);
    law_numbers_read_back(used as nat);
    law_numbers_read_back(total as nat);
    law_numbers_read_back(temperature as nat);
}

/// Every line that describes a card adds it behind the others; a line that does not adds
/// nothing.
pub proof fn law_cards_come_in_the_order_of_the_lines(
    ls: Seq<Seq<char>>,
    percents: Seq<Option<u64>>,
    line: Seq<char>,
    percent: Option<u64>,
)
    requires
        ls.len() == percents.len(),
    ensures
        gpus_of(ls.push(line), percents.push(percent)) == (match gpu_of(line, percent) {
            Some(g) => gpus_of(ls, percents).push(g),
            None => gpus_of(ls, percents),
        }),
        gpus_of(Seq::empty(), percents) == Seq::<GpuView>::empty(),
    decreases ls.len(),
{
    assert(ls.push(line).drop_last() =~= ls);
    lemma_longer_percents(ls, percents, percent);
}

proof fn lemma_longer_percents(ls: Seq<Seq<char>>, percents: Seq<Option<u64>>, p: Option<u64>)
    requires
        ls.len() <= percents.len(),
    ensures
        gpus_of(ls, percents.push(p)) == gpus_of(ls, percents),
    decreases ls.len(),
{
    if ls.len() > 0 {
        lemma_longer_percents(ls.drop_last(), percents, p);
    }
}

// ---------------------------------------------------------------------------
// Jobs
// ---------------------------------------------------------------------------

/// A line with the six fields of a job reads back as the job; without an identifier it is
/// none.
pub proof fn law_job_lines_read_back(j: JobView)
    requires
        tight(j.id) && !j.id.contains('|'),
        tight(j.name) && !j.name.contains('|'),
        tight(j.state) && !j.state.contains('|'),
        tight(j.reason) && !j.reason.contains('|'),
        tight(j.time_used) && !j.time_used.contains('|'),
        tight(j.time_limit) && !j.time_limit.contains('|'),
    ensures
        job_of(six(j.id, j.name, j.state, j.reason, j.time_used, j.time_limit, '|')) == (
        if j.id.len() > 0 {
            Some(j)
        } else {
            None
        }),
{
    lemma_six(j.id, j.name, j.state, j.reason, j.time_used, j.time_limit, '|');
    lemma_spaced(j.id, '|');
    lemma_spaced(j.name, '|');
    lemma_spaced(j.state, '|');
    lemma_spaced(j.reason, '|');
    lemma_spaced(j.time_used, '|');
    lemma_spaced(j.time_limit, '|');
}

/// A host that answered is running where one of its jobs is, pending where it has jobs
/// and none runs, and idle where it has none. Its jobs come in the order of the lines.
pub proof fn law_one_running_job_makes_a_running_host(h: HostConfig, out: CommandOutput)
    requires
        out.status == Some(0i32),
    ensures
        ({
            let s = jobs_state_of(h, Ok(out));
            &&& s.error is None
            &&& s.status == "running"@ <==> exists|i: int|
                0 <= i < s.jobs.len() && (#[trigger] s.jobs[i]).state == "RUNNING"@
            &&& s.status == "pending"@ <==> s.jobs.len() > 0 && forall|i: int|
                0 <= i < s.jobs.len() ==> (#[trigger] s.jobs[i]).state != "RUNNING"@
            &&& s.status == "idle"@ <==> s.jobs.len() == 0
            &&& s.jobs == jobs_of(lines(out.stdout@))
        }),
{
    reveal_strlit("running");
    reveal_strlit("pending");
    reveal_strlit("idle");
    assert("running"@[0] == 'r' && "pending"@[0] == 'p' && "idle"@[0] == 'i');
    assert("running"@ != "pending"@ && "running"@ != "idle"@ && "pending"@ != "idle"@);
    let s = jobs_state_of(h, Ok(out));
    assert(s.status == jobs_status(s.jobs));
}

/// Every line that describes a job adds it behind the others; any other adds nothing.
pub proof fn law_jobs_come_in_the_order_of_the_lines(ls: Seq<Seq<char>>, line: Seq<char>)
    ensures
        trim(line).len() > 0 && job_of(line) is Some ==> jobs_of(ls.push(line)) == jobs_of(ls).push(
            job_of(line)->0,
        ),
        trim(line).len() == 0 || job_of(line) is None ==> jobs_of(ls.push(line)) == jobs_of(ls),
        jobs_of(Seq::empty()) == Seq::<JobView>::empty(),
{
    assert(ls.push(line).drop_last() =~= ls);
}

// ---------------------------------------------------------------------------
// Hosts
// ---------------------------------------------------------------------------

/// Every state bears the name of its host, and is shown by the name that the host has for
/// that, where it has one.
pub proof fn law_states_name_their_hosts(
    h: HostConfig,
    result: Result<CommandOutput, RemoteError>,
    percents: Seq<Option<u64>>,
    elapsed_ms: u32,
)
    ensures
        ({
            let shown = match h.display_name {
                Some(d) => d@,
                None => h.name@,
            };
            let project = match h.project {
                Some(p) => Some(p@),
                None => None,
            };
            &&& gpu_state_of(h, result, percents).name == h.name@
            &&& gpu_state_of(h, result, percents).display_name == shown
            &&& gpu_state_of(h, result, percents).project == project
            &&& jobs_state_of(h, result).name == h.name@
            &&& jobs_state_of(h, result).display_name == shown
            &&& jobs_state_of(h, result).project == project
            &&& ssh_state_of(h, result, elapsed_ms).name == h.name@
            &&& ssh_state_of(h, result, elapsed_ms).display_name == shown
            &&& ssh_state_of(h, result, elapsed_ms).project == project
        }),
{
}

/// A host can be reached exactly where the command succeeded; it is then degraded where
/// that took more than a quarter of a second, and else healthy, and shows how long it
/// took.
pub proof fn law_success_means_reachable(
    h: HostConfig,
    result: Result<CommandOutput, RemoteError>,
    elapsed_ms: u32,
)
    ensures
        ({
            let s = ssh_state_of(h, result, elapsed_ms);
            let success = result is Ok && result->Ok_0.status == Some(0i32);
            &&& s.reachable == success
            &&& s.latency_ms == (if success {
                Some(elapsed_ms)
            } else {
                None
            })
            &&& s.status == (if !success {
                "offline"@
            } else if elapsed_ms > 250 {
                "degraded"@
            } else {
                "healthy"@
            })
            &&& s.error is Some == !success
        }),
{
}

/// What is shown as the error where a command failed: that it ran out of time, that the
/// program is missing, that it was killed, or what it ended with.
pub proof fn law_failures_are_named(
    h: HostConfig,
    result: Result<CommandOutput, RemoteError>,
    percents: Seq<Option<u64>>,
    elapsed_ms: u32,
)
    ensures
        ({
            let g = gpu_state_of(h, result, percents).error;
            let j = jobs_state_of(h, result).error;
            let s = ssh_state_of(h, result, elapsed_ms).error;
            match result {
                Err(RemoteError::Timeout { host }) => g == Some("timeout"@) && j == Some("timeout"@)
                    && s == Some("timeout"@),
                Err(RemoteError::Spawn { host, source }) => {
                    let words = "failed to spawn command on host "@ + host@ + ": "@ + source@;
                    g == Some(words) && j == Some(words) && s == Some(words)
                },
                Err(_) => g is Some && j is Some && s is Some,
                Ok(out) => match out.status {
                    Some(c) => {
                        &&& c == 127 ==> g == Some("nvidia-smi"@ + " not installed"@) && j == Some(
                            "squeue"@ + " not installed"@,
                        )
                        &&& c != 127 && c != 0 ==> g == Some(
                            "nvidia-smi"@ + " exit "@ + decimal_int(c as int),
                        ) && j == Some("squeue"@ + " exit "@ + decimal_int(c as int))
                        &&& c != 0 ==> s == Some("ssh exit "@ + decimal_int(c as int))
                        &&& c == 0 ==> j is None && s is None
                    },
                    None => g == Some("nvidia-smi"@ + " killed"@) && j == Some(
                        "squeue"@ + " killed"@,
                    ) && s == Some("ssh exit "@ + "?"@),
                },
            }
        }),
{
}

/// The level is the highest exactly where there are hosts and none can be reached, the
/// lowest exactly where all can, and the middle one else.
pub proof fn law_levels_are_exact(hosts: Seq<SshHostView>)
    ensures
        raw_level(hosts) == EscalationLevel::Critical <==> hosts.len() > 0 && forall|i: int|
            0 <= i < hosts.len() ==> !(#[trigger] hosts[i]).reachable,
        raw_level(hosts) == EscalationLevel::Ambient <==> forall|i: int|
            0 <= i < hosts.len() ==> (#[trigger] hosts[i]).reachable,
        raw_level(hosts) == EscalationLevel::Attention <==> (exists|i: int|
            0 <= i < hosts.len() && (#[trigger] hosts[i]).reachable) && exists|i: int|
            0 <= i < hosts.len() && !(#[trigger] hosts[i]).reachable,
{
    lemma_counts(hosts);
}

proof fn lemma_counts(hosts: Seq<SshHostView>)
    ensures
        down_count(hosts) <= hosts.len(),
        down_count(hosts) == hosts.len() <==> forall|i: int|
            0 <= i < hosts.len() ==> !(#[trigger] hosts[i]).reachable,
        down_count(hosts) == 0 <==> forall|i: int|
            0 <= i < hosts.len() ==> (#[trigger] hosts[i]).reachable,
    decreases hosts.len(),
{
    if hosts.len() > 0 {
        let t = hosts.drop_last();
        lemma_counts(t);
        assert(hosts[hosts.len() - 1] == hosts.last());
        if forall|i: int| 0 <= i < hosts.len() ==> !(#[trigger] hosts[i]).reachable {
            assert forall|i: int| 0 <= i < t.len() implies !(#[trigger] t[i]).reachable by {
                assert(!hosts[i].reachable);
            }
        }
        if forall|i: int| 0 <= i < hosts.len() ==> (#[trigger] hosts[i]).reachable {
            assert forall|i: int| 0 <= i < t.len() implies (#[trigger] t[i]).reachable by {
                assert(hosts[i].reachable);
            }
        }
        if down_count(hosts) == hosts.len() {
            assert forall|i: int| 0 <= i < hosts.len() implies !(#[trigger] hosts[i]).reachable by {
                if i < t.len() {
                    assert(t[i] == hosts[i]);
                }
            }
        }
        if down_count(hosts) == 0 {
            assert forall|i: int| 0 <= i < hosts.len() implies (#[trigger] hosts[i]).reachable by {
                if i < t.len() {
                    assert(t[i] == hosts[i]);
                }
            }
        }
    }
}

/// The cards are read from the lines that are not blank, in order.
pub proof fn law_blank_lines_are_passed_over(line: Seq<char>, rest: Seq<char>)
    requires
        !line.contains('\n'),
        line.len() > 0 ==> line.last() != '\r',
    ensures
        trim(line).len() > 0 ==> sample_lines(line + seq!['\n'] + rest) == seq![line] + sample_lines(
            rest,
        ),
        trim(line).len() == 0 ==> sample_lines(line + seq!['\n'] + rest) == sample_lines(rest),
        sample_lines(Seq::empty()).len() == 0,
{
    law_lines(line, rest);
    let p = |l: Seq<char>| trim(l).len() > 0;
    let e = Seq::<Seq<char>>::empty();
    assert(e.filter(p) =~= e) by {
        reveal(Seq::filter);
    }
    assert(e.push(line) =~= seq![line]);
    e.lemma_filter_push(line, p);
    Seq::filter_distributes_over_add(seq![line], lines(rest), p);
    if p(line) {
        assert(seq![line].filter(p) =~= seq![line]);
    } else {
        assert(seq![line].filter(p) =~= e);
        assert(e + lines(rest).filter(p) =~= lines(rest).filter(p));
    }
}

/// What the hosts are asked: for their cards with six fields, for the user's jobs with six
/// fields between bars, and for a command that does nothing.
pub proof fn law_what_hosts_are_asked(h: HostConfig)
    ensures
        gpu_argv_of() == seq![
            "nvidia-smi"@,
            "--query-gpu=index,name,utilization.gpu,memory.used,memory.total,temperature.gpu"@,
            "--format=csv,noheader,nounits"@,
        ],
        jobs_argv_of(h).len() == 4,
        jobs_argv_of(h)[0] == "squeue"@,
        jobs_argv_of(h)[1] == "-h"@,
        h.user is Some ==> jobs_argv_of(h)[2] == "--user="@ + h.user->0@,
        h.user is None ==> jobs_argv_of(h)[2] == "--user="@ + "$USER"@,
        jobs_argv_of(h)[3] == "--format="@ + "%i|%j|%T|%R|%M|%l"@,
        ssh_argv_of() == seq!["true"@],
{
}

/// A run asks a host where it is for that host and that command, and may take the seconds
/// for connecting and some more.
pub proof fn law_runs_ask(run: RunView, h: HostConfig, argv: Seq<Seq<char>>, extra: int)
    ensures
        asks(run, h, argv, extra) <==> run.host == h && run.argv == argv && run.timeout_secs == (
        if h.connect_timeout_secs == 0 {
            1
        } else {
            h.connect_timeout_secs as int
        }) + extra,
{
}

/// Each host is asked once, in order, behind what was asked before.
pub proof fn law_each_host_is_asked_once(
    before: Seq<RunView>,
    after: Seq<RunView>,
    hosts: Seq<HostConfig>,
    argv: spec_fn(HostConfig) -> Seq<Seq<char>>,
    extra: int,
    i: int,
)
    requires
        asked_each(before, after, hosts, argv, extra),
        0 <= i < hosts.len(),
    ensures
        after.len() == before.len() + hosts.len(),
        after.take(before.len() as int) == before,
        after[before.len() + i].host == hosts[i],
        after[before.len() + i].argv == argv(hosts[i]),
{
    assert(asks(after[before.len() + i], hosts[i], argv(hosts[i]), extra));
}

/// What is reported of a poll: the widget is stale where a host cannot be reached, its level
/// goes up by one at most, and an alarm is raised where it reaches the highest; it names the
/// host where there is one, and else how many there are.
pub proof fn law_reports_of_a_poll(m: SshMonitorModule, s: Seq<SshHostView>, report: SshReport)
    requires
        reports(m, s, report),
    ensures
        report.status == WidgetStatus::Stale <==> exists|i: int|
            0 <= i < s.len() && !(#[trigger] s[i]).reachable,
        report.status == WidgetStatus::Stale || report.status == WidgetStatus::Normal,
        report.level == next_level(m.escalation.level, raw_level(s)),
        report.alarm is Some <==> report.level == EscalationLevel::Critical && m.escalation.level
            != EscalationLevel::Critical,
        report.alarm is Some ==> (report.alarm.deep_view() matches Some(
            EventView::CriticalEscalation { widget_id, title, body },
        ) && widget_id == "ssh-fleet"@ && title == "SSH fleet down"@ && body == (if s.len() == 1 {
            "SSH host "@ + s[0].display_name + " unreachable"@
        } else {
            "All "@ + decimal(s.len()) + " SSH hosts unreachable"@
        })),
{
    lemma_counts(s);
    assert(report.alarm is Some <==> report.alarm.deep_view() is Some);
}

/// A host is told of where its reachability is new or differs from what was last known, and
/// what is last known is what was last seen.
pub proof fn law_changes_are_told(
    last: Map<Seq<char>, bool>,
    states: Seq<SshHostView>,
    s: SshHostView,
)
    ensures
        transitions(last, Seq::empty()).len() == 0,
        reached_after(last, Seq::empty()) == last,
        reached_after(last, states.push(s)) == reached_after(last, states).insert(
            s.name,
            s.reachable,
        ),
        ({
            let known = reached_after(last, states);
            if known.dom().contains(s.name) && known[s.name] == s.reachable {
                transitions(last, states.push(s)) == transitions(last, states)
            } else {
                transitions(last, states.push(s)) == transitions(last, states).push(
                    EventView::SshHostStatus {
                        host: s.name,
                        reachable: s.reachable,
                        latency_ms: s.latency_ms,
                    },
                )
            }
        }),
{
    assert(states.push(s).drop_last() =~= states);
}

/// The time that a host took is that between two readings of the clock, and a poll is asked
/// for by a click on `reconnect` in the widget.
pub proof fn law_times_and_clicks(from: u128, to: u128, e: EventView)
    ensures
        to < from ==> millis_between(from, to) == 0,
        from <= to && to - from <= 0xFFFF_FFFF ==> millis_between(from, to) == to - from,
        from <= to && to - from > 0xFFFF_FFFF ==> millis_between(from, to) == 0xFFFF_FFFF,
        e matches EventView::WidgetActionReceived { widget_id, action, data } ==> (asks_for_poll(e)
            <==> widget_id == "ssh-fleet"@ && action == "reconnect"@),
        !(e is WidgetActionReceived) ==> !asks_for_poll(e),
{
}

/// A host is polled for its cards where it has that role, and for its jobs where it has that
/// one, in the order of the hosts.
pub proof fn law_hosts_are_polled_by_role(
    before: HostRegistry,
    after: HostRegistry,
    h: HostConfig,
)
    requires
        after.hosts@ == before.hosts@.push(h),
    ensures
        h.roles@.contains(HostRole::Gpu) ==> gpu_hosts(after) == gpu_hosts(before).push(h),
        !h.roles@.contains(HostRole::Gpu) ==> gpu_hosts(after) == gpu_hosts(before),
        h.roles@.contains(HostRole::Jobs) ==> jobs_hosts(after) == jobs_hosts(before).push(h),
        !h.roles@.contains(HostRole::Jobs) ==> jobs_hosts(after) == jobs_hosts(before),
{
    before.hosts@.lemma_filter_push(h, |h: HostConfig| h.roles@.contains(HostRole::Gpu));
    before.hosts@.lemma_filter_push(h, |h: HostConfig| h.roles@.contains(HostRole::Jobs));
}

/// No host is polled where there are none.
pub proof fn law_no_hosts_no_polls(registry: HostRegistry)
    requires
        registry.hosts@.len() == 0,
    ensures
        gpu_hosts(registry).len() == 0,
        jobs_hosts(registry).len() == 0,
{
    reveal(Seq::filter);
}

} // verus!
