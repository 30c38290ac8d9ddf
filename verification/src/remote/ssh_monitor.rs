//! Which hosts can be reached, and how fast.

use vstd::prelude::*;

use super::host::{shown_name, HostConfig, HostRegistry, HostRole};
use super::jobs::{error_reason, error_reason_text};
use super::runner::{
    asked_each, asked_once, lemma_asked_next, CommandOutput, RemoteError, RemoteRunner, RunView,
};
use crate::escalation::{next_level, EscalationLevel, EscalationTracker};
use crate::events::{Event, EventKind, EventView, WidgetStatus};
use crate::text;
use crate::text::{decimal, decimal_int};
use crate::textmap::TextMap;

verus! {

pub const SSH_WIDGET_ID: &'static str = "ssh-fleet";

pub const SSH_WIDGET_TYPE: &'static str = "ssh_fleet";

/// The seconds between two polls.
pub const DEFAULT_POLL_INTERVAL_SECS: u64 = 30;

/// The seconds that the command may take beyond those for connecting.
pub const EXTRA_SECS: u64 = 1;

/// A host that takes longer than this many milliseconds is degraded.
pub const DEGRADED_LATENCY_MS: u32 = 250;

/// What is known of one host.
#[derive(Debug, Clone, PartialEq, Eq)]
pub struct SshHostState {
    pub name: String,
    pub display_name: String,
    pub project: Option<String>,
    pub reachable: bool,
    pub latency_ms: Option<u32>,
    /// `healthy`, `degraded` or `offline`.
    pub status: String,
    /// Why the host cannot be reached.
    pub error: Option<String>,
}

/// The contents of a [`SshHostState`].
pub struct SshHostView {
    pub name: Seq<char>,
    pub display_name: Seq<char>,
    pub project: Option<Seq<char>>,
    pub reachable: bool,
    pub latency_ms: Option<u32>,
    pub status: Seq<char>,
    pub error: Option<Seq<char>>,
}

impl DeepView for SshHostState {
    type V = SshHostView;

    open spec fn deep_view(&self) -> SshHostView {
        SshHostView {
            name: self.name@,
            display_name: self.display_name@,
            project: self.project.deep_view(),
            reachable: self.reachable,
            latency_ms: self.latency_ms,
            status: self.status@,
            error: self.error.deep_view(),
        }
    }
}

/// What is known of all hosts.
#[derive(Debug, Clone, PartialEq, Eq)]
pub struct SshFleetState {
    pub hosts: Vec<SshHostState>,
}

/// The number of hosts that cannot be reached.
pub open spec fn down_count(hosts: Seq<SshHostView>) -> nat
    decreases hosts.len(),
{
    if hosts.len() == 0 {
        0
    } else {
        down_count(hosts.drop_last()) + (if hosts.last().reachable {
            0nat
        } else {
            1nat
        })
    }
}

/// How urgent the state of the hosts is: nothing while all can be reached, the
/// highest level once none can.
pub open spec fn raw_level(hosts: Seq<SshHostView>) -> EscalationLevel {
    if hosts.len() == 0 || down_count(hosts) == 0 {
        EscalationLevel::Ambient
    } else if down_count(hosts) == hosts.len() {
        EscalationLevel::Critical
    } else {
        EscalationLevel::Attention
    }
}

/// Counts the hosts that cannot be reached.
fn count_down(hosts: &Vec<SshHostState>) -> (r: usize)
    ensures
        r == down_count(hosts.deep_view()),
        r <= hosts@.len(),
{
    let ghost hv = hosts.deep_view();
    let mut n: usize = 0;
    let mut i: usize = 0;
    assert(hv.take(0) =~= Seq::empty());
    while i < hosts.len()
        invariant
            i <= hosts@.len(),
            n <= i,
            hv == hosts.deep_view(),
            n == down_count(hv.take(i as int)),
        decreases hosts@.len() - i,
    {
        proof {
            assert(hv.take(i + 1).drop_last() =~= hv.take(i as int));
            assert(hv.take(i + 1).last() == hosts@[i as int].deep_view());
        }
        if !hosts[i].reachable {
            n += 1;
        }
        i += 1;
    }
    assert(hv.take(i as int) =~= hv);
    n
}

/// How urgent the state of the hosts is.
pub fn ssh_raw_escalation(state: &SshFleetState) -> (r: EscalationLevel)
    ensures
        r == raw_level(state.hosts.deep_view()),
{
    assert(state.hosts.deep_view().len() == state.hosts@.len());
    if state.hosts.len() == 0 {
        return EscalationLevel::Ambient;
    }
    let down = count_down(&state.hosts);
    if down == 0 {
        EscalationLevel::Ambient
    } else if down == state.hosts.len() {
        EscalationLevel::Critical
    } else {
        EscalationLevel::Attention
    }
}

/// The command line that tests whether a host can be reached.
pub open spec fn ssh_argv_of() -> Seq<Seq<char>> {
    seq!["true"@]
}

/// The command line that tests whether a host can be reached.
pub fn ssh_argv() -> (r: Vec<String>)
    ensures
        r.deep_view() == ssh_argv_of(),
{
    let mut out: Vec<String> = Vec::new();
    out.push(text::owned("true"));
    assert(out.deep_view() =~= ssh_argv_of());
    out
}

/// The state of a host, given what the command came to and how many milliseconds
/// it took.
pub open spec fn ssh_state_of(
    h: HostConfig,
    result: Result<CommandOutput, RemoteError>,
    elapsed_ms: u32,
) -> SshHostView {
    let offline = SshHostView {
        name: h.name@,
        display_name: shown_name(h),
        project: h.project.deep_view(),
        reachable: false,
        latency_ms: None,
        status: "offline"@,
        error: None,
    };
    match result {
        Ok(out) => if out.status == Some(0i32) {
            SshHostView {
                reachable: true,
                latency_ms: Some(elapsed_ms),
                status: if elapsed_ms > DEGRADED_LATENCY_MS {
                    "degraded"@
                } else {
                    "healthy"@
                },
                ..offline
            }
        } else {
            SshHostView {
                error: Some(
                    "ssh exit "@ + (match out.status {
                        Some(c) => decimal_int(c as int),
                        None => "?"@,
                    }),
                ),
                ..offline
            }
        },
        Err(e) => SshHostView { error: Some(error_reason(e)), ..offline },
    }
}

/// The milliseconds of an elapsed time, as far as they can be shown.
pub fn shown_millis(elapsed_ms: u128) -> (r: u32)
    ensures
        r as int == (if elapsed_ms <= u32::MAX {
            elapsed_ms as int
        } else {
            u32::MAX as int
        }),
{
    if elapsed_ms <= 0xFFFF_FFFF {
        elapsed_ms as u32
    } else {
        0xFFFF_FFFF
    }
}

/// The state of a host, given what the command came to and how many milliseconds
/// it took.
pub fn ssh_state(
    host: &HostConfig,
    result: &Result<CommandOutput, RemoteError>,
    elapsed_ms: u32,
) -> (r: SshHostState)
    ensures
        r.deep_view() == ssh_state_of(*host, *result, elapsed_ms),
{
    let mut reachable = false;
    let mut latency: Option<u32> = None;
    let mut status = text::owned("offline");
    let mut error: Option<String> = None;
    match result {
        Ok(out) => {
            if out.is_success() {
                reachable = true;
                latency = Some(elapsed_ms);
                status = if elapsed_ms > DEGRADED_LATENCY_MS {
                    text::owned("degraded")
                } else {
                    text::owned("healthy")
                };
            } else {
                error = Some(
                    match out.status {
                        Some(c) => text::concat2(
                            "ssh exit ",
                            &text::decimal_string_i64(c as i64),
                        ),
                        None => text::concat2("ssh exit ", "?"),
                    },
                );
            }
        },
        Err(e) => {
            error = Some(error_reason_text(e));
        },
    }
    SshHostState {
        name: host.name.clone(),
        display_name: text::owned(host.display_name()),
        project: text::clone_opt(&host.project),
        reachable,
        latency_ms: latency,
        status,
        error,
    }
}

/// Whether a state is what an answer of a host comes to, with the time that it
/// took as `clock` told it.
pub open spec fn timed_state<F: Fn() -> u128>(
    state: SshHostView,
    h: HostConfig,
    reply: Result<CommandOutput, RemoteError>,
    clock: F,
) -> bool {
    exists|from: u128, to: u128| #[trigger]
        call_ensures(clock, (), from) && #[trigger] call_ensures(clock, (), to) && state
            == ssh_state_of(h, reply, millis_between(from, to))
}

/// The milliseconds from one reading of a clock to another, as far as they can be
/// shown.
pub open spec fn millis_between(from: u128, to: u128) -> u32 {
    if to <= from {
        0
    } else if to - from <= u32::MAX {
        (to - from) as u32
    } else {
        u32::MAX
    }
}

// ---------------------------------------------------------------------------
// Reports
// ---------------------------------------------------------------------------

/// Which hosts could be reached, after the states of one poll.
pub open spec fn reached_after(last: Map<Seq<char>, bool>, states: Seq<SshHostView>) -> Map<
    Seq<char>,
    bool,
>
    decreases states.len(),
{
    if states.len() == 0 {
        last
    } else {
        reached_after(last, states.drop_last()).insert(states.last().name, states.last().reachable)
    }
}

/// The events of one poll: one for each host whose reachability is new or has
/// changed.
pub open spec fn transitions(last: Map<Seq<char>, bool>, states: Seq<SshHostView>) -> Seq<EventView>
    decreases states.len(),
{
    if states.len() == 0 {
        Seq::empty()
    } else {
        let before = transitions(last, states.drop_last());
        let known = reached_after(last, states.drop_last());
        let s = states.last();
        if known.dom().contains(s.name) && known[s.name] == s.reachable {
            before
        } else {
            before.push(
                EventView::SshHostStatus {
                    host: s.name,
                    reachable: s.reachable,
                    latency_ms: s.latency_ms,
                },
            )
        }
    }
}

/// The text of the alarm that no host can be reached.
pub open spec fn alarm_text(hosts: Seq<SshHostView>) -> Seq<char> {
    if hosts.len() == 1 {
        "SSH host "@ + hosts[0].display_name + " unreachable"@
    } else {
        "All "@ + decimal(hosts.len()) + " SSH hosts unreachable"@
    }
}

/// The alarm, where this poll raised it.
pub open spec fn alarm(prev: EscalationLevel, hosts: Seq<SshHostView>) -> Option<EventView> {
    let next = next_level(prev, raw_level(hosts));
    if next == EscalationLevel::Critical && prev != EscalationLevel::Critical {
        Some(
            EventView::CriticalEscalation {
                widget_id: SSH_WIDGET_ID@,
                title: "SSH fleet down"@,
                body: alarm_text(hosts),
            },
        )
    } else {
        None
    }
}

/// What one poll comes to. The changes are published first, then the widget is
/// updated, then the alarm is published.
pub struct SshReport {
    /// One event for each host whose reachability is new or has changed.
    pub changes: Vec<Event>,
    /// What the widget shows.
    pub state: SshFleetState,
    pub status: WidgetStatus,
    pub level: EscalationLevel,
    /// That no host can be reached any more.
    pub alarm: Option<Event>,
}

/// Whether a report is what the states of one poll come to for a module.
pub open spec fn reports(m: SshMonitorModule, s: Seq<SshHostView>, report: SshReport) -> bool {
    &&& report.status == (if down_count(s) > 0 {
        WidgetStatus::Stale
    } else {
        WidgetStatus::Normal
    })
    &&& report.level == next_level(m.escalation.level, raw_level(s))
    &&& report.changes.deep_view() == transitions(m.last_reachable@, s)
    &&& report.alarm.deep_view() == alarm(m.escalation.level, s)
}

/// Whether a module is what another becomes by taking the states of one poll in.
pub open spec fn taken_in(m: SshMonitorModule, s: Seq<SshHostView>, after: SshMonitorModule) -> bool {
    &&& after.last_reachable@ == reached_after(m.last_reachable@, s)
    &&& after.escalation.level == next_level(m.escalation.level, raw_level(s))
    &&& after.registry == m.registry
    &&& after.poll_interval_secs == m.poll_interval_secs
}

/// The module that watches the hosts.
pub struct SshMonitorModule {
    pub registry: HostRegistry,
    pub last_reachable: TextMap<bool>,
    pub poll_interval_secs: u64,
    pub escalation: EscalationTracker,
}

impl SshMonitorModule {
    pub fn new(registry: HostRegistry) -> (r: Self)
        ensures
            r.registry == registry,
            r.last_reachable@ == Map::<Seq<char>, bool>::empty(),
            r.poll_interval_secs == DEFAULT_POLL_INTERVAL_SECS,
            r.escalation.level == EscalationLevel::Ambient,
    {
        SshMonitorModule {
            registry,
            last_reachable: TextMap::new(),
            poll_interval_secs: DEFAULT_POLL_INTERVAL_SECS,
            escalation: EscalationTracker::new(),
        }
    }

    pub fn with_poll_interval(self, secs: u64) -> (r: Self)
        ensures
            r == (SshMonitorModule { poll_interval_secs: secs, ..self }),
    {
        let mut out = self;
        out.poll_interval_secs = secs;
        out
    }

    /// The hosts that are watched.
    pub fn hosts(&self) -> (r: Vec<&HostConfig>)
        ensures
            r@.map_values(|h: &HostConfig| *h) == ssh_hosts(self.registry),
    {
        self.registry.filter_by_role(HostRole::SshMonitor)
    }

    /// Takes in the states of one poll. Nothing where no host is watched.
    pub fn absorb(&mut self, states: Vec<SshHostState>) -> (r: Option<SshReport>)
        ensures
            r is Some <==> states@.len() > 0,
            r is None ==> *final(self) == *old(self),
            r is Some ==> {
                &&& r->0.state.hosts == states
                &&& reports(*old(self), states.deep_view(), r->0)
                &&& taken_in(*old(self), states.deep_view(), *final(self))
            },
    {
        if states.len() == 0 {
            return None;
        }
        let ghost last = self.last_reachable@;
        let ghost level0 = self.escalation.level;
        let ghost sv = states.deep_view();
        let mut events: Vec<Event> = Vec::new();
        let mut i: usize = 0;
        proof {
            assert(sv.take(0) =~= Seq::empty());
            assert(events.deep_view() =~= Seq::empty());
        }
        while i < states.len()
            invariant
                i <= states@.len(),
                sv == states.deep_view(),
                self.last_reachable@ == reached_after(last, sv.take(i as int)),
                self.escalation.level == level0,
                self.registry == old(self).registry,
                self.poll_interval_secs == old(self).poll_interval_secs,
                events.deep_view() == transitions(last, sv.take(i as int)),
            decreases states@.len() - i,
        {
            let ghost before = events.deep_view();
            proof {
                assert(sv.take(i + 1).drop_last() =~= sv.take(i as int));
                assert(sv.take(i + 1).last() == states@[i as int].deep_view());
            }
            let s = &states[i];
            let unchanged = match self.last_reachable.get(&s.name) {
                Some(b) => *b == s.reachable,
                None => false,
            };
            self.last_reachable.insert(s.name.clone(), s.reachable);
            if !unchanged {
                let event = Event::SshHostStatus {
                    host: s.name.clone(),
                    reachable: s.reachable,
                    latency_ms: s.latency_ms,
                };
                events.push(event);
                assert(events.deep_view() =~= before.push(event.deep_view()));
            }
            i += 1;
        }
        assert(sv.take(i as int) =~= sv);
        assert(sv.len() == states@.len());
        let state = SshFleetState { hosts: states };
        let down = count_down(&state.hosts);
        let status = if down > 0 {
            WidgetStatus::Stale
        } else {
            WidgetStatus::Normal
        };
        let outcome = self.escalation.step(ssh_raw_escalation(&state));
        let mut alarm: Option<Event> = None;
        if outcome.entered_critical {
            let body: String = if state.hosts.len() == 1 {
                assert(sv[0] == state.hosts@[0].deep_view());
                text::concat3("SSH host ", &state.hosts[0].display_name, " unreachable")
            } else {
                text::concat3(
                    "All ",
                    &text::decimal_string(state.hosts.len() as u64),
                    " SSH hosts unreachable",
                )
            };
            alarm = Some(
                Event::CriticalEscalation {
                    widget_id: text::owned(SSH_WIDGET_ID),
                    title: text::owned("SSH fleet down"),
                    body,
                },
            );
        }
        Some(SshReport { changes: events, state, status, level: outcome.level, alarm })
    }

    /// The kinds of event that the module listens to.
    pub fn subscribed_events(&self) -> (r: Vec<EventKind>)
        ensures
            r@ == seq![EventKind::WidgetActionReceived],
    {
        let r: Vec<EventKind> = vec![EventKind::WidgetActionReceived];
        assert(r@ =~= seq![EventKind::WidgetActionReceived]);
        r
    }
}

/// The hosts that are watched.
pub open spec fn ssh_hosts(registry: HostRegistry) -> Seq<HostConfig> {
    registry.hosts@.filter(|h: HostConfig| h.roles@.contains(HostRole::SshMonitor))
}

/// Whether one poll of a module came to a report, if to any, and left the module as
/// `after`: every host that is watched was asked once, in order, and the answers
/// were taken in. `before` and `log` are the runs before the poll and after it.
pub open spec fn polled<F: Fn() -> u128>(
    m: SshMonitorModule,
    before: Seq<RunView>,
    log: Seq<RunView>,
    clock: F,
    report: Option<SshReport>,
    after: SshMonitorModule,
) -> bool {
    let hosts = ssh_hosts(m.registry);
    &&& asked_each(before, log, hosts, |h: HostConfig| ssh_argv_of(), EXTRA_SECS as int)
    &&& match report {
        None => hosts.len() == 0 && after == m,
        Some(r) => {
            let s = r.state.hosts.deep_view();
            &&& hosts.len() > 0
            &&& s.len() == hosts.len()
            &&& forall|i: int|
                0 <= i < s.len() ==> timed_state(
                    #[trigger] s[i],
                    hosts[i],
                    log[before.len() + i].reply,
                    clock,
                )
            &&& reports(m, s, r)
            &&& taken_in(m, s, after)
        },
    }
}

impl SshMonitorModule {
    /// Asks one host, and measures by `clock`, which tells milliseconds, how long that
    /// takes.
    pub fn probe_host<R: RemoteRunner, F: Fn() -> u128>(
        &self,
        runner: &mut R,
        host: &HostConfig,
        clock: &F,
    ) -> (r: SshHostState)
        requires
            host.connect_timeout_secs + EXTRA_SECS <= u64::MAX,
            call_requires(clock, ()),
        ensures
            asked_once(old(runner).log(), final(runner).log(), *host, ssh_argv_of(), EXTRA_SECS as int),
            timed_state(r.deep_view(), *host, final(runner).log().last().reply, *clock),
    {
        let argv = ssh_argv();
        let ghost log0 = runner.log();
        let from: u128 = clock();
        let result = runner.run(host, &argv, host.connect_timeout() + EXTRA_SECS);
        let to: u128 = clock();
        assert(runner.log().drop_last() =~= log0);
        let elapsed: u128 = if to > from {
            to - from
        } else {
            0
        };
        let shown = shown_millis(elapsed);
        assert(shown == millis_between(from, to));
        ssh_state(host, &result, shown)
    }

    /// Asks every host that is watched, in order, and takes the answers in.
    /// Nothing where none is watched.
    pub fn run_once<R: RemoteRunner, F: Fn() -> u128>(&mut self, runner: &mut R, clock: &F) -> (r:
        Option<SshReport>)
        requires
            forall|i: int|
                0 <= i < ssh_hosts(old(self).registry).len() ==> (
                #[trigger] ssh_hosts(old(self).registry)[i]).connect_timeout_secs + EXTRA_SECS
                    <= u64::MAX,
            call_requires(clock, ()),
        ensures
            polled(
                *old(self),
                old(runner).log(),
                final(runner).log(),
                *clock,
                r,
                *final(self),
            ),
    {
        let hosts = self.hosts();
        let ghost hv = ssh_hosts(self.registry);
        let ghost log0 = runner.log();
        let ghost argv = |h: HostConfig| ssh_argv_of();
        let mut states: Vec<SshHostState> = Vec::new();
        let mut i: usize = 0;
        proof {
            assert(hosts@.map_values(|h: &HostConfig| *h).len() == hosts@.len());
            assert(log0.take(log0.len() as int) =~= log0);
            assert forall|k: int| 0 <= k < hosts@.len() implies *(#[trigger] hosts@[k]) == hv[k] by {
                assert(hosts@.map_values(|h: &HostConfig| *h)[k] == *hosts@[k]);
            }
        }
        while i < hosts.len()
            invariant
                i <= hosts@.len(),
                hosts@.len() == hv.len(),
                hv == ssh_hosts(self.registry),
                forall|k: int| 0 <= k < hosts@.len() ==> *(#[trigger] hosts@[k]) == hv[k],
                argv == (|h: HostConfig| ssh_argv_of()),
                forall|k: int|
                    0 <= k < hv.len() ==> (#[trigger] hv[k]).connect_timeout_secs + EXTRA_SECS
                        <= u64::MAX,
                call_requires(clock, ()),
                states@.len() == i,
                forall|k: int|
                    0 <= k < i ==> timed_state(
                        (#[trigger] states@[k]).deep_view(),
                        hv[k],
                        runner.log()[log0.len() + k].reply,
                        *clock,
                    ),
                asked_each(log0, runner.log(), hv.take(i as int), argv, EXTRA_SECS as int),
            decreases hosts@.len() - i,
        {
            let ghost middle = runner.log();
            assert(hv[i as int].connect_timeout_secs + EXTRA_SECS <= u64::MAX);
            let state = self.probe_host(runner, hosts[i], clock);
            states.push(state);
            proof {
                lemma_asked_next(log0, middle, runner.log(), hv, i as int, argv, EXTRA_SECS as int);
                assert forall|k: int| 0 <= k < i + 1 implies timed_state(
                    (#[trigger] states@[k]).deep_view(),
                    hv[k],
                    runner.log()[log0.len() + k].reply,
                    *clock,
                ) by {
                    if k < i {
                        assert(runner.log()[log0.len() + k] == middle[log0.len() + k]);
                    }
                }
            }
            i += 1;
        }
        assert(hv.take(i as int) =~= hv);
        let ghost sv = states.deep_view();
        assert(sv.len() == states@.len());
        assert forall|k: int| 0 <= k < sv.len() implies timed_state(
            #[trigger] sv[k],
            hv[k],
            runner.log()[log0.len() + k].reply,
            *clock,
        ) by {
            assert(sv[k] == states@[k].deep_view());
        }
        self.absorb(states)
    }
}

/// Whether an event asks for a poll right away.
pub open spec fn asks_for_poll(e: EventView) -> bool {
    e matches EventView::WidgetActionReceived { widget_id, action, data } && widget_id
        == SSH_WIDGET_ID@ && action == "reconnect"@
}

/// Whether an event asks for a poll right away: a click on `reconnect` in the
/// module's own widget.
pub fn wants_poll(event: &Event) -> (r: bool)
    ensures
        r == asks_for_poll(event.deep_view()),
{
    match event {
        Event::WidgetActionReceived { widget_id, action, data: _ } => text::same(
            widget_id,
            SSH_WIDGET_ID,
        ) && text::same(action, "reconnect"),
        _ => false,
    }
}

// ---------------------------------------------------------------------------
// Laws
// ---------------------------------------------------------------------------

/// A second poll with the same reachability publishes no transition.
pub proof fn law_events_only_on_transitions(
    last: Map<Seq<char>, bool>,
    states: Seq<SshHostView>,
)
    requires
        forall|i: int|
            0 <= i < states.len() ==> last.dom().contains((#[trigger] states[i]).name)
                && last[states[i].name] == states[i].reachable,
    ensures
        transitions(last, states).len() == 0,
        reached_after(last, states) == last,
    decreases states.len(),
{
    if states.len() > 0 {
        let t = states.drop_last();
        assert forall|i: int| 0 <= i < t.len() implies last.dom().contains((#[trigger] t[i]).name)
            && last[t[i].name] == t[i].reachable by {
            assert(t[i] == states[i]);
        }
        law_events_only_on_transitions(last, t);
        assert(states[states.len() - 1] == states.last());
        assert(last.insert(states.last().name, states.last().reachable) =~= last);
    }
}

/// What a change of a host is told as.
pub open spec fn told_as(s: SshHostView) -> EventView {
    EventView::SshHostStatus { host: s.name, reachable: s.reachable, latency_ms: s.latency_ms }
}

/// Whether the reachability of a host is new or has changed.
pub open spec fn changed(last: Map<Seq<char>, bool>, s: SshHostView) -> bool {
    !(last.dom().contains(s.name) && last[s.name] == s.reachable)
}

/// Whether no two states are of the same host.
pub open spec fn one_each(states: Seq<SshHostView>) -> bool {
    forall|i: int, j: int|
        0 <= i < j < states.len() ==> (#[trigger] states[i]).name != (#[trigger] states[j]).name
}

/// Where each host comes once, what is known of it is compared with what was known
/// before the poll.
proof fn lemma_transitions(last: Map<Seq<char>, bool>, states: Seq<SshHostView>)
    requires
        one_each(states),
    ensures
        transitions(last, states) == states.filter(|s: SshHostView| changed(last, s)).map_values(
            |s: SshHostView| told_as(s),
        ),
        forall|i: int|
            0 <= i < states.len() ==> reached_after(last, states).dom().contains(
                (#[trigger] states[i]).name,
            ) && reached_after(last, states)[states[i].name] == states[i].reachable,
        forall|name: Seq<char>|
            (forall|i: int| 0 <= i < states.len() ==> (#[trigger] states[i]).name != name) ==> (
            #[trigger] reached_after(last, states).dom().contains(name) == last.dom().contains(name)
                && (last.dom().contains(name) ==> reached_after(last, states)[name] == last[name])),
    decreases states.len(),
{
    reveal(Seq::filter);
    let f = |s: SshHostView| changed(last, s);
    let g = |s: SshHostView| told_as(s);
    if states.len() == 0 {
        assert(transitions(last, states) =~= states.filter(f).map_values(g));
    } else {
        let t = states.drop_last();
        let s = states.last();
        assert forall|i: int, j: int| 0 <= i < j < t.len() implies (#[trigger] t[i]).name != (
        #[trigger] t[j]).name by {
            assert(states[i].name != states[j].name);
        }
        lemma_transitions(last, t);
        assert forall|i: int| 0 <= i < t.len() implies (#[trigger] t[i]).name != s.name by {
            assert(states[i].name != states[states.len() - 1].name);
        }
        let known = reached_after(last, t);
        assert(known.dom().contains(s.name) == last.dom().contains(s.name));
        assert(changed(known, s) == changed(last, s));
        assert(transitions(last, states) =~= states.filter(f).map_values(g));
        assert forall|i: int| 0 <= i < states.len() implies reached_after(
            last,
            states,
        ).dom().contains((#[trigger] states[i]).name) && reached_after(last, states)[states[i].name]
            == states[i].reachable by {
            if i < t.len() {
                assert(t[i] == states[i]);
            }
        }
        assert forall|name: Seq<char>|
            (forall|i: int| 0 <= i < states.len() ==> (#[trigger] states[i]).name != name) implies (
        #[trigger] reached_after(last, states).dom().contains(name) == last.dom().contains(name) && (
        last.dom().contains(name) ==> reached_after(last, states)[name] == last[name])) by {
            assert forall|i: int| 0 <= i < t.len() implies (#[trigger] t[i]).name != name by {
                assert(states[i].name != name);
            }
            assert(known.dom().contains(name) == last.dom().contains(name));
            assert(states[states.len() - 1].name != name);
        }
    }
}

/// Whether no two hosts have the same name.
pub open spec fn hosts_distinct(hosts: Seq<HostConfig>) -> bool {
    forall|i: int, j: int|
        0 <= i < j < hosts.len() ==> (#[trigger] hosts[i]).name@ != (#[trigger] hosts[j]).name@
}

proof fn lemma_polled_names<F: Fn() -> u128>(
    m: SshMonitorModule,
    before: Seq<RunView>,
    log: Seq<RunView>,
    clock: F,
    report: SshReport,
    after: SshMonitorModule,
)
    requires
        polled(m, before, log, clock, Some(report), after),
    ensures
        forall|i: int|
            0 <= i < report.state.hosts@.len() ==> (
            #[trigger] report.state.hosts.deep_view()[i]).name == ssh_hosts(m.registry)[i].name@,
        hosts_distinct(ssh_hosts(m.registry)) ==> one_each(report.state.hosts.deep_view()),
{
    let hosts = ssh_hosts(m.registry);
    let s = report.state.hosts.deep_view();
    assert forall|i: int| 0 <= i < s.len() implies (#[trigger] s[i]).name == hosts[i].name@ by {
        assert(timed_state(s[i], hosts[i], log[before.len() + i].reply, clock));
    }
    if hosts_distinct(hosts) {
        assert forall|i: int, j: int| 0 <= i < j < s.len() implies (#[trigger] s[i]).name != (
        #[trigger] s[j]).name by {
            assert(hosts[i].name@ != hosts[j].name@);
        }
    }
}

/// One poll, where the hosts have distinct names. Each host is asked once, in order,
/// for the command `true`. A host whose reachability is new or has changed is told
/// of, each once, in order, and no other. The widget then lists every host in
/// order, whether it can be reached or not. Without a host nothing is asked, told
/// or shown.
pub proof fn law_a_poll_asks_tells_and_shows<F: Fn() -> u128>(
    m: SshMonitorModule,
    before: Seq<RunView>,
    log: Seq<RunView>,
    clock: F,
    report: Option<SshReport>,
    after: SshMonitorModule,
)
    requires
        polled(m, before, log, clock, report, after),
        hosts_distinct(ssh_hosts(m.registry)),
    ensures
        ({
            let hosts = ssh_hosts(m.registry);
            &&& report is Some <==> hosts.len() > 0
            &&& report is None ==> log == before && after == m
            &&& log.len() == before.len() + hosts.len()
            &&& log.take(before.len() as int) == before
            &&& forall|i: int|
                0 <= i < hosts.len() ==> log[before.len() + i].host == (#[trigger] hosts[i])
                    && log[before.len() + i].argv == seq!["true"@]
        }),
        report matches Some(r) ==> ({
            let hosts = ssh_hosts(m.registry);
            let s = r.state.hosts.deep_view();
            &&& s.len() == hosts.len()
            &&& forall|i: int| 0 <= i < s.len() ==> (#[trigger] s[i]).name == hosts[i].name@
            &&& r.changes.deep_view() == s.filter(
                |x: SshHostView| changed(m.last_reachable@, x),
            ).map_values(|x: SshHostView| told_as(x))
            &&& forall|i: int|
                0 <= i < s.len() ==> (r.changes.deep_view().contains(told_as(#[trigger] s[i]))
                    <==> !m.last_reachable@.dom().contains(hosts[i].name@)
                    || m.last_reachable@[hosts[i].name@] != s[i].reachable)
        }),
{
    let hosts = ssh_hosts(m.registry);
    if let Some(r) = report {
        let s = r.state.hosts.deep_view();
        let last = m.last_reachable@;
        lemma_polled_names(m, before, log, clock, r, after);
        assert(s.len() == r.state.hosts@.len());
        assert forall|i: int| 0 <= i < s.len() implies (#[trigger] s[i]).name == hosts[i].name@ by {
            assert(r.state.hosts.deep_view()[i].name == hosts[i].name@);
        }
        lemma_transitions(last, s);
        let f = |x: SshHostView| changed(last, x);
        let g = |x: SshHostView| told_as(x);
        let told = s.filter(f);
        assert forall|i: int| 0 <= i < s.len() implies (r.changes.deep_view().contains(
            told_as(#[trigger] s[i]),
        ) <==> changed(last, s[i])) by {
            let events = told.map_values(g);
            if changed(last, s[i]) {
                assert(f(s[i]));
                s.lemma_filter_contains(f, i);
                let k = choose|k: int| 0 <= k < told.len() && told[k] == s[i];
                assert(events[k] == told_as(s[i]));
            }
            if events.contains(told_as(s[i])) {
                let k = choose|k: int| 0 <= k < events.len() && events[k] == told_as(s[i]);
                s.lemma_filter_contains_rev(f, told[k]);
                assert(told.contains(told[k]));
                assert(s.contains(told[k]));
                let j = choose|j: int| 0 <= j < s.len() && s[j] == told[k];
                assert(s[j].name == s[i].name);
                if j < i {
                    assert(s[j].name != s[i].name);
                } else if i < j {
                    assert(s[i].name != s[j].name);
                }
                s.lemma_filter_pred(f, k);
            }
        }
    } else {
        assert(log =~= before);
    }
}

/// Of two polls in a row the second tells of a host exactly where its reachability
/// differs from that in the first.
pub proof fn law_the_next_poll_tells_differences<F: Fn() -> u128>(
    m: SshMonitorModule,
    log0: Seq<RunView>,
    log1: Seq<RunView>,
    first: SshReport,
    middle: SshMonitorModule,
    log2: Seq<RunView>,
    second: SshReport,
    after: SshMonitorModule,
    clock: F,
)
    requires
        hosts_distinct(ssh_hosts(m.registry)),
        polled(m, log0, log1, clock, Some(first), middle),
        polled(middle, log1, log2, clock, Some(second), after),
    ensures
        second.state.hosts@.len() == first.state.hosts@.len(),
        forall|i: int|
            0 <= i < second.state.hosts@.len() ==> (second.changes.deep_view().contains(
                told_as(#[trigger] second.state.hosts.deep_view()[i]),
            ) <==> second.state.hosts.deep_view()[i].reachable
                != first.state.hosts.deep_view()[i].reachable),
{
    let a = first.state.hosts.deep_view();
    let b = second.state.hosts.deep_view();
    assert(a.len() == first.state.hosts@.len());
    assert(b.len() == second.state.hosts@.len());
    lemma_polled_names(m, log0, log1, clock, first, middle);
    lemma_transitions(m.last_reachable@, a);
    law_a_poll_asks_tells_and_shows(middle, log1, log2, clock, Some(second), after);
    assert forall|i: int| 0 <= i < second.state.hosts@.len() implies (
    second.changes.deep_view().contains(told_as(#[trigger] second.state.hosts.deep_view()[i]))
        <==> second.state.hosts.deep_view()[i].reachable
        != first.state.hosts.deep_view()[i].reachable) by {
        assert(a[i].name == ssh_hosts(m.registry)[i].name@);
        assert(b[i].name == ssh_hosts(m.registry)[i].name@);
        assert(middle.last_reachable@.dom().contains(a[i].name));
    }
}

/// `down_count` is at most the number of hosts.
proof fn lemma_down_count(hosts: Seq<SshHostView>)
    ensures
        down_count(hosts) <= hosts.len(),
        down_count(hosts) == hosts.len() ==> forall|i: int|
            0 <= i < hosts.len() ==> !(#[trigger] hosts[i]).reachable,
        down_count(hosts) == 0 ==> forall|i: int|
            0 <= i < hosts.len() ==> (#[trigger] hosts[i]).reachable,
    decreases hosts.len(),
{
    if hosts.len() > 0 {
        lemma_down_count(hosts.drop_last());
        let t = hosts.drop_last();
        if down_count(hosts) == hosts.len() {
            assert forall|i: int| 0 <= i < hosts.len() implies !(#[trigger] hosts[i]).reachable by {
                if i < t.len() {
                    assert(t[i] == hosts[i]);
                }
            }
        }
        if down_count(hosts) == 0 {
            assert forall|i: int| 0 <= i < hosts.len() implies (#[trigger] hosts[i]).reachable by {
                if i < t.len() {
                    assert(t[i] == hosts[i]);
                }
            }
        }
    }
}

/// The highest level stands for an outage of every host, the lowest for none.
pub proof fn law_levels_mean_what_they_say(hosts: Seq<SshHostView>)
    ensures
        raw_level(hosts) == EscalationLevel::Critical ==> hosts.len() > 0 && forall|i: int|
            0 <= i < hosts.len() ==> !(#[trigger] hosts[i]).reachable,
        raw_level(hosts) == EscalationLevel::Ambient ==> forall|i: int|
            0 <= i < hosts.len() ==> (#[trigger] hosts[i]).reachable,
{
    lemma_down_count(hosts);
}

/// A reachable host has a latency and no error, an unreachable one the reverse.
pub proof fn law_latency_or_error(
    h: HostConfig,
    result: Result<CommandOutput, RemoteError>,
    elapsed_ms: u32,
)
    ensures
        ({
            let s = ssh_state_of(h, result, elapsed_ms);
            &&& s.reachable <==> s.latency_ms is Some
            &&& s.reachable <==> s.error is None
        }),
{
}

} // verus!
