//! Which projects are alive, and which deadlines come.

use vstd::prelude::*;

use crate::order::{is_sorted, lemma_sort, sort, sort_by, total_order};
use crate::palette::provider::at_most;
use crate::reference_library::count;
use crate::time::{rfc3339_text, UtcTime};

verus! {

pub const PROJECT_PULSE_WIDGET_ID: &'static str = "project-pulse";

pub const PROJECT_PULSE_WIDGET_TYPE: &'static str = "project_pulse";

/// From when on a project counts as dormant: seven days, in seconds.
pub const DORMANT_SECS: i128 = 604_800;

/// How far ahead deadlines are looked for: thirty days, in seconds.
pub const DEADLINE_SECS: i128 = 2_592_000;

/// How many deadlines are shown at most.
pub const MAX_DEADLINES: usize = 10;

/// How many tasks are looked at.
pub const TASK_LIMIT: u32 = 500;

/// How many calendar events are looked at.
pub const EVENT_LIMIT: u32 = 100;

// ---------------------------------------------------------------------------
// Projects
// ---------------------------------------------------------------------------

/// A project as the registry knows it.
#[derive(Debug, Clone, PartialEq, Eq)]
pub struct TrackedProject {
    pub name: String,
    pub status: String,
    pub last_active_at: Option<UtcTime>,
    pub focus_secs: u64,
    pub open_questions: usize,
}

/// What the shell shows of a project.
#[derive(Debug, Clone, PartialEq, Eq)]
pub struct ProjectRow {
    pub name: String,
    pub status: String,
    pub active_today: bool,
    pub dormant: bool,
    pub last_active: Option<String>,
    pub focus_secs: u64,
    pub open_questions: usize,
}

/// What a [`ProjectRow`] holds.
pub struct ProjectRowView {
    pub name: Seq<char>,
    pub status: Seq<char>,
    pub active_today: bool,
    pub dormant: bool,
    pub last_active: Option<Seq<char>>,
    pub focus_secs: u64,
    pub open_questions: usize,
}

impl DeepView for ProjectRow {
    type V = ProjectRowView;

    open spec fn deep_view(&self) -> ProjectRowView {
        ProjectRowView {
            name: self.name@,
            status: self.status@,
            active_today: self.active_today,
            dormant: self.dormant,
            last_active: self.last_active.deep_view(),
            focus_secs: self.focus_secs,
            open_questions: self.open_questions,
        }
    }
}

/// The day that a time falls on, counted from the epoch.
pub open spec fn day_of(t: UtcTime) -> int {
    t.secs as int / 86400
}

/// Whether a project was active on the day of `now`.
pub open spec fn active_on(p: TrackedProject, now: UtcTime) -> bool {
    match p.last_active_at {
        Some(t) => day_of(t) == day_of(now),
        None => false,
    }
}

/// Whether a project was not active since `cutoff`. One that never was is not.
pub open spec fn dormant_since(p: TrackedProject, cutoff: UtcTime) -> bool {
    match p.last_active_at {
        Some(t) => t.lt(cutoff),
        None => true,
    }
}

/// What is shown of a project.
pub open spec fn project_row(p: TrackedProject, now: UtcTime) -> ProjectRowView {
    ProjectRowView {
        name: p.name@,
        status: p.status@,
        active_today: active_on(p, now),
        dormant: dormant_since(p, now.shift_of(-DORMANT_SECS as int)),
        last_active: match p.last_active_at {
            Some(t) => Some(rfc3339_text(t.secs, t.nanos)),
            None => None,
        },
        focus_secs: p.focus_secs,
        open_questions: p.open_questions,
    }
}

/// Whether the times of all projects are ones that the calendar can express.
pub open spec fn projects_valid(projects: Seq<TrackedProject>) -> bool {
    forall|i: int|
        0 <= i < projects.len() ==> ((#[trigger] projects[i]).last_active_at matches Some(t)
            ==> t.valid())
}

/// What the shell shows of the projects.
#[derive(Debug, Clone, PartialEq, Eq)]
pub struct ProjectSummary {
    pub active_today: usize,
    pub dormant: usize,
    pub projects: Vec<ProjectRow>,
}

fn same_day(a: &UtcTime, b: &UtcTime) -> (r: bool)
    ensures
        r == (day_of(*a) == day_of(*b)),
{
    day_number(a) == day_number(b)
}

fn day_number(t: &UtcTime) -> (r: i64)
    ensures
        r == day_of(*t),
{
    if t.secs >= 0 {
        t.secs / 86400
    } else {
        let up: i64 = -(t.secs + 1);
        -(up / 86400) - 1
    }
}

// ---------------------------------------------------------------------------
// Deadlines
// ---------------------------------------------------------------------------

/// Where a task stands.
#[derive(Debug, Clone, Copy, PartialEq, Eq, Structural)]
pub enum TaskStatus {
    Pending,
    InProgress,
    Done,
    Cancelled,
}

/// A task of the store.
#[derive(Debug, Clone, PartialEq, Eq)]
pub struct PulseTask {
    pub title: String,
    pub status: TaskStatus,
    pub due_at: Option<UtcTime>,
}

/// A calendar event of the store.
#[derive(Debug, Clone, PartialEq, Eq)]
pub struct PulseEvent {
    pub title: String,
    pub start_at: UtcTime,
}

/// What a deadline comes from.
#[derive(Debug, Clone, Copy, PartialEq, Eq, Structural)]
pub enum DeadlineKind {
    Task,
    Event,
}

impl DeadlineKind {
    /// What the kind is called on the wire.
    pub fn wire(self) -> (r: &'static str)
        ensures
            r@ == match self {
                DeadlineKind::Task => "task"@,
                DeadlineKind::Event => "event"@,
            },
    {
        match self {
            DeadlineKind::Task => "task",
            DeadlineKind::Event => "event",
        }
    }
}

/// A deadline.
#[derive(Debug, Clone, PartialEq, Eq)]
pub struct Deadline {
    pub title: String,
    pub at: UtcTime,
    /// The time in words.
    pub due: String,
    pub kind: DeadlineKind,
    pub overdue: bool,
}

/// What a [`Deadline`] holds.
pub struct DeadlineView {
    pub title: Seq<char>,
    pub at: UtcTime,
    pub due: Seq<char>,
    pub kind: DeadlineKind,
    pub overdue: bool,
}

impl DeepView for Deadline {
    type V = DeadlineView;

    open spec fn deep_view(&self) -> DeadlineView {
        DeadlineView {
            title: self.title@,
            at: self.at,
            due: self.due@,
            kind: self.kind,
            overdue: self.overdue,
        }
    }
}

/// The deadline of a task: it has one where it is not finished and is due before
/// `horizon` or then.
pub open spec fn task_deadline(t: PulseTask, now: UtcTime, horizon: UtcTime) -> Option<
    DeadlineView,
> {
    match t.due_at {
        Some(due) if t.status != TaskStatus::Done && t.status != TaskStatus::Cancelled
            && !horizon.lt(due) => Some(
            DeadlineView {
                title: t.title@,
                at: due,
                due: rfc3339_text(due.secs, due.nanos),
                kind: DeadlineKind::Task,
                overdue: due.lt(now),
            },
        ),
        _ => None,
    }
}

/// The deadline of a calendar event.
pub open spec fn event_deadline(e: PulseEvent) -> DeadlineView {
    DeadlineView {
        title: e.title@,
        at: e.start_at,
        due: rfc3339_text(e.start_at.secs, e.start_at.nanos),
        kind: DeadlineKind::Event,
        overdue: false,
    }
}

/// The deadlines of some tasks, in their order.
pub open spec fn task_deadlines(tasks: Seq<PulseTask>, now: UtcTime, horizon: UtcTime) -> Seq<
    DeadlineView,
>
    decreases tasks.len(),
{
    if tasks.len() == 0 {
        Seq::empty()
    } else {
        match task_deadline(tasks.last(), now, horizon) {
            Some(d) => task_deadlines(tasks.drop_last(), now, horizon).push(d),
            None => task_deadlines(tasks.drop_last(), now, horizon),
        }
    }
}

/// The deadlines of tasks and calendar events: the earliest first, and not more
/// than fit. Of two at the same time a task comes before an event.
pub open spec fn upcoming(tasks: Seq<PulseTask>, events: Seq<PulseEvent>, now: UtcTime) -> Seq<
    DeadlineView,
> {
    at_most(
        sort(
            task_deadlines(tasks, now, now.shift_of(DEADLINE_SECS as int)) + events.map_values(
                |e: PulseEvent| event_deadline(e),
            ),
            |a: DeadlineView, b: DeadlineView| not_later(a, b),
        ),
        MAX_DEADLINES as int,
    )
}

/// Whether a deadline is not later than another.
pub open spec fn not_later(a: DeadlineView, b: DeadlineView) -> bool {
    !b.at.lt(a.at)
}

/// Whether the times of all tasks and events are ones that the calendar can
/// express.
pub open spec fn deadlines_valid(tasks: Seq<PulseTask>, events: Seq<PulseEvent>) -> bool {
    &&& forall|i: int|
        0 <= i < tasks.len() ==> ((#[trigger] tasks[i]).due_at matches Some(t) ==> t.valid())
    &&& forall|i: int| 0 <= i < events.len() ==> (#[trigger] events[i]).start_at.valid()
}

/// The module behind the widget.
#[derive(Debug, Clone, Copy, PartialEq, Eq)]
pub struct ProjectPulseModule;

impl ProjectPulseModule {
    pub fn new() -> (r: Self) {
        ProjectPulseModule
    }

    /// What the shell shows of the projects.
    pub fn refresh(&self, projects: &[TrackedProject], now: UtcTime) -> (r: ProjectSummary)
        requires
            now.can_shift(-DORMANT_SECS as int),
            projects_valid(projects@),
        ensures
            r.active_today == count(projects@, |p: TrackedProject| active_on(p, now)),
            r.dormant == count(
                projects@,
                |p: TrackedProject| dormant_since(p, now.shift_of(-DORMANT_SECS as int)),
            ),
            r.projects.deep_view() == projects@.map_values(
                |p: TrackedProject| project_row(p, now),
            ),
    {
        let cutoff = match now.checked_shift(-DORMANT_SECS) {
            Some(t) => t,
            None => now,
        };
        let ghost p = |x: TrackedProject| active_on(x, now);
        let ghost q = |x: TrackedProject| dormant_since(x, cutoff);
        let ghost all = projects@.map_values(|x: TrackedProject| project_row(x, now));
        let mut active_today: usize = 0;
        let mut dormant: usize = 0;
        let mut rows: Vec<ProjectRow> = Vec::new();
        let mut i: usize = 0;
        assert(rows.deep_view() =~= all.take(0));
        while i < projects.len()
            invariant
                i <= projects@.len(),
                projects_valid(projects@),
                cutoff == now.shift_of(-DORMANT_SECS as int),
                active_today <= i,
                dormant <= i,
                p == (|x: TrackedProject| active_on(x, now)),
                q == (|x: TrackedProject| dormant_since(x, cutoff)),
                all == projects@.map_values(|x: TrackedProject| project_row(x, now)),
                active_today == count(projects@.take(i as int), p),
                dormant == count(projects@.take(i as int), q),
                rows.deep_view() == all.take(i as int),
            decreases projects@.len() - i,
        {
            let ghost before = rows.deep_view();
            assert(projects@.take(i + 1).drop_last() =~= projects@.take(i as int));
            let project = &projects[i];
            let is_active = match &project.last_active_at {
                Some(t) => same_day(t, &now),
                None => false,
            };
            let is_dormant = match &project.last_active_at {
                Some(t) => t.is_before(&cutoff),
                None => true,
            };
            let last_active = match &project.last_active_at {
                Some(t) => Some(t.rfc3339()),
                None => None,
            };
            if is_active {
                active_today += 1;
            }
            if is_dormant {
                dormant += 1;
            }
            rows.push(
                ProjectRow {
                    name: project.name.clone(),
                    status: project.status.clone(),
                    active_today: is_active,
                    dormant: is_dormant,
                    last_active,
                    focus_secs: project.focus_secs,
                    open_questions: project.open_questions,
                },
            );
            assert(rows.deep_view() =~= before.push(all[i as int]));
            assert(rows.deep_view() =~= all.take(i + 1));
            i += 1;
        }
        assert(projects@.take(i as int) =~= projects@);
        assert(all.take(i as int) =~= all);
        assert(p =~= (|p: TrackedProject| active_on(p, now)));
        ProjectSummary { active_today, dormant, projects: rows }
    }

    /// The deadlines of tasks and calendar events, the earliest first.
    pub fn deadlines(&self, tasks: &[PulseTask], events: &[PulseEvent], now: UtcTime) -> (r: Vec<
        Deadline,
    >)
        requires
            now.can_shift(DEADLINE_SECS as int),
            deadlines_valid(tasks@, events@),
        ensures
            r.deep_view() == upcoming(tasks@, events@, now),
    {
        let horizon = match now.checked_shift(DEADLINE_SECS) {
            Some(t) => t,
            None => now,
        };
        let mut out: Vec<Deadline> = Vec::new();
        let mut i: usize = 0;
        assert(out.deep_view() =~= task_deadlines(tasks@.take(0), now, horizon));
        while i < tasks.len()
            invariant
                i <= tasks@.len(),
                deadlines_valid(tasks@, events@),
                out.deep_view() == task_deadlines(tasks@.take(i as int), now, horizon),
            decreases tasks@.len() - i,
        {
            let ghost before = out.deep_view();
            assert(tasks@.take(i + 1).drop_last() =~= tasks@.take(i as int));
            let task = &tasks[i];
            assert(tasks@.take(i + 1).last() == *task);
            if task.status != TaskStatus::Done && task.status != TaskStatus::Cancelled {
                if let Some(due) = task.due_at {
                    if !horizon.is_before(&due) {
                        let d = Deadline {
                            title: task.title.clone(),
                            at: due,
                            due: due.rfc3339(),
                            kind: DeadlineKind::Task,
                            overdue: due.is_before(&now),
                        };
                        out.push(d);
                        assert(out.deep_view() =~= before.push(d.deep_view()));
                    }
                }
            }
            i += 1;
        }
        assert(tasks@.take(i as int) =~= tasks@);
        let ghost own = out.deep_view();
        let ghost all = events@.map_values(|e: PulseEvent| event_deadline(e));
        let mut k: usize = 0;
        assert(own + all.take(0) =~= own);
        while k < events.len()
            invariant
                k <= events@.len(),
                deadlines_valid(tasks@, events@),
                all == events@.map_values(|e: PulseEvent| event_deadline(e)),
                out.deep_view() == own + all.take(k as int),
            decreases events@.len() - k,
        {
            let ghost before = out.deep_view();
            let event = &events[k];
            out.push(
                Deadline {
                    title: event.title.clone(),
                    at: event.start_at,
                    due: event.start_at.rfc3339(),
                    kind: DeadlineKind::Event,
                    overdue: false,
                },
            );
            assert(out.deep_view() =~= before.push(all[k as int]));
            assert(out.deep_view() =~= own + all.take(k + 1));
            k += 1;
        }
        assert(all.take(k as int) =~= all);
        let ghost key = |d: Deadline| d.deep_view();
        let ghost rel = |a: DeadlineView, b: DeadlineView| not_later(a, b);
        assert(out@.map_values(key) =~= out.deep_view());
        let le = |a: &Deadline, b: &Deadline| -> (o: bool)
            ensures
                o == not_later(a.deep_view(), b.deep_view()),
        {
            let later = b.at.is_before(&a.at);
            !later
        };
        let mut sorted = sort_by::<Deadline, DeadlineView, _>(out, le, Ghost(key), Ghost(rel));
        assert(sorted@.map_values(key) =~= sorted.deep_view());
        let ghost sv = sorted.deep_view();
        if sorted.len() > MAX_DEADLINES {
            sorted.truncate(MAX_DEADLINES);
        }
        assert(sorted.deep_view() =~= at_most(sv, MAX_DEADLINES as int));
        sorted
    }
}

// ---------------------------------------------------------------------------
// Laws
// ---------------------------------------------------------------------------

proof fn lemma_task_deadlines(tasks: Seq<PulseTask>, now: UtcTime, horizon: UtcTime)
    ensures
        forall|k: int|
            0 <= k < task_deadlines(tasks, now, horizon).len() ==> {
                let d = #[trigger] task_deadlines(tasks, now, horizon)[k];
                d.kind == DeadlineKind::Task && !horizon.lt(d.at) && d.overdue == d.at.lt(now)
            },
    decreases tasks.len(),
{
    if tasks.len() > 0 {
        lemma_task_deadlines(tasks.drop_last(), now, horizon);
        let a = task_deadlines(tasks.drop_last(), now, horizon);
        let b = task_deadlines(tasks, now, horizon);
        assert forall|k: int| 0 <= k < b.len() implies ({
            let d = #[trigger] b[k];
            d.kind == DeadlineKind::Task && !horizon.lt(d.at) && d.overdue == d.at.lt(now)
        }) by {
            if k < a.len() {
                assert(b[k] == a[k]);
            }
        }
    }
}

/// The deadlines that are shown are in the order of their times and not more than
/// fit; only tasks are overdue, and none of a task lies beyond the horizon.
pub proof fn law_deadlines_are_in_order(
    tasks: Seq<PulseTask>,
    events: Seq<PulseEvent>,
    now: UtcTime,
)
    ensures
        is_sorted(
            upcoming(tasks, events, now),
            |a: DeadlineView, b: DeadlineView| not_later(a, b),
        ),
        upcoming(tasks, events, now).len() <= MAX_DEADLINES,
        forall|k: int|
            0 <= k < upcoming(tasks, events, now).len() ==> {
                let d = #[trigger] upcoming(tasks, events, now)[k];
                &&& d.overdue ==> d.kind == DeadlineKind::Task && d.at.lt(now)
                &&& d.kind == DeadlineKind::Task ==> !now.shift_of(DEADLINE_SECS as int).lt(d.at)
            },
{
    broadcast use vstd::seq_lib::group_to_multiset_ensures;

    let le = |a: DeadlineView, b: DeadlineView| not_later(a, b);
    let horizon = now.shift_of(DEADLINE_SECS as int);
    let own = task_deadlines(tasks, now, horizon);
    let all = own + events.map_values(|e: PulseEvent| event_deadline(e));
    let full = sort(all, le);
    let out = upcoming(tasks, events, now);
    assert(total_order(le));
    lemma_sort(all, le);
    lemma_task_deadlines(tasks, now, horizon);
    assert forall|k: int| 0 <= k < out.len() implies ({
        let d = #[trigger] out[k];
        &&& d.overdue ==> d.kind == DeadlineKind::Task && d.at.lt(now)
        &&& d.kind == DeadlineKind::Task ==> !horizon.lt(d.at)
    }) by {
        assert(out[k] == full[k]);
        assert(full.contains(full[k]));
        assert(full.to_multiset().count(full[k]) > 0);
        assert(all.to_multiset().count(full[k]) > 0);
        assert(all.contains(full[k]));
        let m = choose|m: int| 0 <= m < all.len() && all[m] == full[k];
        if m < own.len() {
            assert(own[m] == full[k]);
        } else {
            assert(all[m] == event_deadline(events[m - own.len()]));
        }
    }
}

/// A project that was active today is not dormant.
pub proof fn law_active_projects_are_not_dormant(p: TrackedProject, now: UtcTime)
    requires
        now.valid(),
        now.can_shift(-DORMANT_SECS as int),
        active_on(p, now),
    ensures
        !dormant_since(p, now.shift_of(-DORMANT_SECS as int)),
{
}

/// Whether one time comes before another: by the second, and within it by the
/// nanosecond.
pub open spec fn sooner(a: UtcTime, b: UtcTime) -> bool {
    a.secs < b.secs || (a.secs == b.secs && a.nanos < b.nanos)
}

/// Whether a task is still to be done by a time within thirty days, or was to be done
/// before now.
pub open spec fn due_soon(t: PulseTask, now: UtcTime) -> bool {
    &&& t.status == TaskStatus::Pending || t.status == TaskStatus::InProgress
    &&& t.due_at matches Some(due) && !sooner(
        UtcTime { secs: (now.secs + 2_592_000) as i64, nanos: now.nanos },
        due,
    )
}

proof fn lemma_task_among(tasks: Seq<PulseTask>, now: UtcTime, horizon: UtcTime)
    ensures
        forall|i: int|
            0 <= i < tasks.len() && task_deadline(#[trigger] tasks[i], now, horizon) is Some
                ==> task_deadlines(tasks, now, horizon).contains(
                task_deadline(tasks[i], now, horizon)->0,
            ),
        forall|k: int|
            0 <= k < task_deadlines(tasks, now, horizon).len() ==> exists|i: int|
                0 <= i < tasks.len() && task_deadline(#[trigger] tasks[i], now, horizon) == Some(
                    #[trigger] task_deadlines(tasks, now, horizon)[k],
                ),
    decreases tasks.len(),
{
    if tasks.len() > 0 {
        let front = tasks.drop_last();
        let a = task_deadlines(front, now, horizon);
        let b = task_deadlines(tasks, now, horizon);
        lemma_task_among(front, now, horizon);
        assert forall|i: int|
            0 <= i < tasks.len() && task_deadline(
                #[trigger] tasks[i],
                now,
                horizon,
            ) is Some implies b.contains(task_deadline(tasks[i], now, horizon)->0) by {
            let d = task_deadline(tasks[i], now, horizon)->0;
            if i < front.len() {
                assert(front[i] == tasks[i]);
                let k = choose|k: int| 0 <= k < a.len() && a[k] == d;
                assert(b[k] == d);
            } else {
                assert(b[b.len() - 1] == d);
            }
        }
        assert forall|k: int| 0 <= k < b.len() implies exists|i: int|
            0 <= i < tasks.len() && task_deadline(#[trigger] tasks[i], now, horizon) == Some(
                #[trigger] b[k],
            ) by {
            if k < a.len() {
                assert(a[k] == b[k]);
                let i = choose|i: int|
                    0 <= i < front.len() && task_deadline(#[trigger] front[i], now, horizon)
                        == Some(a[k]);
                assert(tasks[i] == front[i]);
            } else {
                assert(tasks[tasks.len() - 1] == tasks.last());
            }
        }
    }
}

/// What is shown is the tasks that are due soon and the events, the soonest first: each
/// of them is shown, or ten others are that do not come later. Nothing else is shown. A
/// task is overdue where its time has passed; an event never is.
pub proof fn law_the_soonest_deadlines_are_shown(
    tasks: Seq<PulseTask>,
    events: Seq<PulseEvent>,
    now: UtcTime,
)
    requires
        now.nanos < 1_000_000_000,
        now.secs + 2_592_000 <= i64::MAX,
    ensures
        ({
            let out = upcoming(tasks, events, now);
            let of_task = |t: PulseTask|
                DeadlineView {
                    title: t.title@,
                    at: t.due_at->0,
                    due: rfc3339_text(t.due_at->0.secs, t.due_at->0.nanos),
                    kind: DeadlineKind::Task,
                    overdue: sooner(t.due_at->0, now),
                };
            let of_event = |e: PulseEvent|
                DeadlineView {
                    title: e.title@,
                    at: e.start_at,
                    due: rfc3339_text(e.start_at.secs, e.start_at.nanos),
                    kind: DeadlineKind::Event,
                    overdue: false,
                };
            let fits = |d: DeadlineView|
                out.contains(d) || (out.len() == 10 && forall|k: int|
                    0 <= k < out.len() ==> !sooner(d.at, (#[trigger] out[k]).at));
            &&& out.len() <= 10
            &&& forall|i: int, j: int|
                0 <= i < j < out.len() ==> !sooner((#[trigger] out[j]).at, (#[trigger] out[i]).at)
            &&& forall|i: int|
                0 <= i < tasks.len() && due_soon(#[trigger] tasks[i], now) ==> fits(
                    of_task(tasks[i]),
                )
            &&& forall|i: int| 0 <= i < events.len() ==> fits(of_event(#[trigger] events[i]))
            &&& forall|k: int|
                0 <= k < out.len() ==> (exists|i: int|
                    0 <= i < tasks.len() && due_soon(#[trigger] tasks[i], now) && of_task(tasks[i])
                        == #[trigger] out[k]) || (exists|i: int|
                    0 <= i < events.len() && of_event(#[trigger] events[i]) == out[k])
        }),
{
    broadcast use vstd::seq_lib::group_to_multiset_ensures;

    let le = |a: DeadlineView, b: DeadlineView| not_later(a, b);
    let horizon = now.shift_of(DEADLINE_SECS as int);
    assert(horizon == UtcTime { secs: (now.secs + 2_592_000) as i64, nanos: now.nanos });
    let own = task_deadlines(tasks, now, horizon);
    let others = events.map_values(|e: PulseEvent| event_deadline(e));
    let all = own + others;
    let full = sort(all, le);
    let out = upcoming(tasks, events, now);
    assert(total_order(le));
    lemma_sort(all, le);
    lemma_task_among(tasks, now, horizon);
    assert forall|d: DeadlineView| #[trigger] all.contains(d) implies out.contains(d) || (out.len()
        == 10 && forall|k: int| 0 <= k < out.len() ==> !sooner(d.at, (#[trigger] out[k]).at)) by {
        assert(all.to_multiset().count(d) > 0);
        assert(full.contains(d));
        let j = choose|j: int| 0 <= j < full.len() && full[j] == d;
        if j < out.len() {
            assert(out[j] == d);
        } else {
            assert forall|k: int| 0 <= k < out.len() implies !sooner(d.at, (#[trigger] out[k]).at) by {
                assert(out[k] == full[k]);
                assert(le(full[k], full[j]));
            }
        }
    }
    assert forall|i: int, j: int| 0 <= i < j < out.len() implies !sooner(
        (#[trigger] out[j]).at,
        (#[trigger] out[i]).at,
    ) by {
        assert(out[i] == full[i] && out[j] == full[j]);
        assert(le(full[i], full[j]));
    }
    assert forall|i: int| 0 <= i < tasks.len() && due_soon(#[trigger] tasks[i], now) implies ({
        let d = DeadlineView {
            title: tasks[i].title@,
            at: tasks[i].due_at->0,
            due: rfc3339_text(tasks[i].due_at->0.secs, tasks[i].due_at->0.nanos),
            kind: DeadlineKind::Task,
            overdue: sooner(tasks[i].due_at->0, now),
        };
        all.contains(d)
    }) by {
        let d = task_deadline(tasks[i], now, horizon)->0;
        let k = choose|k: int| 0 <= k < own.len() && own[k] == d;
        assert(all[k] == d);
    }
    assert forall|i: int| 0 <= i < events.len() implies all.contains(
        event_deadline(#[trigger] events[i]),
    ) by {
        assert(all[own.len() + i] == event_deadline(events[i]));
    }
    assert forall|k: int| 0 <= k < out.len() implies (exists|i: int|
        0 <= i < tasks.len() && due_soon(#[trigger] tasks[i], now) && task_deadline(
            tasks[i],
            now,
            horizon,
        ) == Some(#[trigger] out[k])) || (exists|i: int|
        0 <= i < events.len() && event_deadline(#[trigger] events[i]) == out[k]) by {
        assert(out[k] == full[k]);
        assert(full.contains(full[k]));
        assert(full.to_multiset().count(full[k]) > 0);
        assert(all.contains(full[k]));
        let m = choose|m: int| 0 <= m < all.len() && all[m] == full[k];
        if m < own.len() {
            assert(own[m] == full[k]);
            let i = choose|i: int|
                0 <= i < tasks.len() && task_deadline(#[trigger] tasks[i], now, horizon) == Some(
                    own[m],
                );
            assert(due_soon(tasks[i], now));
        } else {
            assert(others[m - own.len()] == full[k]);
            assert(event_deadline(events[m - own.len()]) == full[k]);
        }
    }
}

/// A project was active today where its last activity lies on the same day, and is
/// dormant where it lies more than seven days back or there was none.
pub proof fn law_projects_rest_after_a_week(p: TrackedProject, now: UtcTime)
    requires
        now.nanos < 1_000_000_000,
        now.secs >= i64::MIN + 604_800,
    ensures
        p.last_active_at is None ==> !active_on(p, now) && project_row(p, now).dormant,
        p.last_active_at matches Some(t) ==> {
            &&& active_on(p, now) <==> t.secs as int / 86400 == now.secs as int / 86400
            &&& project_row(p, now).dormant <==> sooner(
                t,
                UtcTime { secs: (now.secs - 604_800) as i64, nanos: now.nanos },
            )
        },
        project_row(p, now).active_today == active_on(p, now),
        project_row(p, now).name == p.name@,
        project_row(p, now).status == p.status@,
        project_row(p, now).focus_secs == p.focus_secs,
        project_row(p, now).open_questions == p.open_questions,
{
}

} // verus!
