//! A timer of work and break intervals.
//!
//! Work and break follow each other by themselves; every so many work intervals
//! the break is a long one. Pausing freezes the count, stopping goes back to
//! idle, skipping ends the running interval at once. Each interval is announced
//! when it starts and when it ends.

use vstd::prelude::*;

use crate::events::{Event, EventKind, EventView};
use crate::text;
use crate::textmap::TextMap;

verus! {

pub const SESSION_TIMER_WIDGET_ID: &'static str = "session-timer";

pub const SESSION_TIMER_WIDGET_TYPE: &'static str = "session_timer";

pub const MODULE_NAME: &'static str = "session-timer";

/// The lengths of the intervals.
#[derive(Debug, Clone, Copy, PartialEq, Eq, Structural)]
pub struct SessionTimerConfig {
    pub work_minutes: u64,
    pub break_minutes: u64,
    pub long_break_minutes: u64,
    pub intervals_until_long_break: u32,
}

impl Default for SessionTimerConfig {
    fn default() -> (r: Self)
        ensures
            r == (SessionTimerConfig {
                work_minutes: 25,
                break_minutes: 5,
                long_break_minutes: 15,
                intervals_until_long_break: 4,
            }),
    {
        SessionTimerConfig {
            work_minutes: 25,
            break_minutes: 5,
            long_break_minutes: 15,
            intervals_until_long_break: 4,
        }
    }
}

/// A number of minutes in seconds; none at all counts as one.
pub open spec fn seconds(minutes: u64) -> int {
    if minutes < 1 {
        60
    } else {
        minutes * 60
    }
}

impl SessionTimerConfig {
    /// Whether each length fits a number of seconds.
    pub open spec fn fits(self) -> bool {
        &&& seconds(self.work_minutes) <= u64::MAX
        &&& seconds(self.break_minutes) <= u64::MAX
        &&& seconds(self.long_break_minutes) <= u64::MAX
    }

    /// Whether each length fits a number of seconds.
    pub fn check_fits(&self) -> (r: bool)
        ensures
            r == self.fits(),
    {
        let most: u64 = u64::MAX / 60;
        self.work_minutes <= most && self.break_minutes <= most && self.long_break_minutes <= most
    }
}

/// What the timer is doing.
#[derive(Debug, Clone, Copy, PartialEq, Eq, Structural)]
pub enum Phase {
    Idle,
    Work,
    Break,
}

impl Phase {
    /// The name of the phase on the wire.
    pub open spec fn name(self) -> Seq<char> {
        match self {
            Phase::Idle => "idle"@,
            Phase::Work => "work"@,
            Phase::Break => "break"@,
        }
    }

    /// The name of the phase on the wire.
    pub fn wire(self) -> (r: &'static str)
        ensures
            r@ == self.name(),
    {
        match self {
            Phase::Idle => "idle",
            Phase::Work => "work",
            Phase::Break => "break",
        }
    }
}

/// What the widget shows.
#[derive(Debug, Clone, Copy, PartialEq, Eq, Structural)]
pub struct TimerWidget {
    pub phase: Phase,
    pub paused: bool,
    pub elapsed_secs: u64,
    pub planned_secs: u64,
    pub work_intervals: u32,
}

/// What the timer does to the outside.
#[derive(Debug, Clone, PartialEq, Eq)]
pub enum TimerEffect {
    Publish(Event),
    Show(TimerWidget),
}

/// The contents of a [`TimerEffect`].
pub enum EffectView {
    Publish(EventView),
    Show(TimerWidget),
}

impl DeepView for TimerEffect {
    type V = EffectView;

    open spec fn deep_view(&self) -> EffectView {
        match self {
            TimerEffect::Publish(e) => EffectView::Publish(e.deep_view()),
            TimerEffect::Show(w) => EffectView::Show(*w),
        }
    }
}

/// The state of the timer.
#[verifier::ext_equal]
pub struct TimerView {
    pub phase: Phase,
    pub paused: bool,
    pub elapsed: u64,
    pub planned: u64,
    pub work_done: u32,
    pub project: Option<Seq<char>>,
    pub booked: Map<Seq<char>, u64>,
}

impl TimerView {
    /// What the widget shows of the state.
    pub open spec fn widget(self) -> TimerWidget {
        TimerWidget {
            phase: self.phase,
            paused: self.paused,
            elapsed_secs: self.elapsed,
            planned_secs: self.planned,
            work_intervals: self.work_done,
        }
    }

    /// The seconds booked on a workspace.
    pub open spec fn booked_on(self, ws: Seq<char>) -> int {
        if self.booked.dom().contains(ws) {
            self.booked[ws] as int
        } else {
            0
        }
    }

    /// Whether one more work interval can be counted and booked.
    pub open spec fn has_room(self) -> bool {
        &&& self.work_done < u32::MAX
        &&& self.project is Some ==> self.booked_on(self.project->0) + self.elapsed <= u64::MAX
    }

    /// The invariant of the timer: an idle one counts nothing, a running one has
    /// not reached the end of its interval.
    pub open spec fn wf(self) -> bool {
        if self.phase == Phase::Idle {
            !self.paused && self.elapsed == 0 && self.planned == 0
        } else {
            self.elapsed < self.planned
        }
    }
}

/// The length of an interval that starts with `work_done` work intervals behind.
pub open spec fn planned_for(cfg: SessionTimerConfig, work_done: u32, phase: Phase) -> int {
    let every = if cfg.intervals_until_long_break < 1 {
        1
    } else {
        cfg.intervals_until_long_break as int
    };
    match phase {
        Phase::Idle => 0,
        Phase::Work => seconds(cfg.work_minutes),
        Phase::Break => if work_done > 0 && work_done as int % every == 0 {
            seconds(cfg.long_break_minutes)
        } else {
            seconds(cfg.break_minutes)
        },
    }
}

/// The state at the start of a phase.
pub open spec fn entered(s: TimerView, cfg: SessionTimerConfig, phase: Phase) -> TimerView {
    TimerView {
        phase,
        paused: false,
        elapsed: 0,
        planned: planned_for(cfg, s.work_done, phase) as u64,
        ..s
    }
}

/// What is announced at the start of a phase.
pub open spec fn entering(s: TimerView, cfg: SessionTimerConfig, phase: Phase) -> Seq<EffectView> {
    let next = entered(s, cfg, phase);
    let shown = seq![EffectView::Show(next.widget())];
    if phase == Phase::Idle {
        shown
    } else {
        seq![
            EffectView::Publish(
                EventView::FocusSessionStarted {
                    kind: phase.name(),
                    project: s.project,
                    planned_secs: next.planned,
                },
            ),
        ] + shown
    }
}

/// The state at the end of an interval: work is counted and booked.
pub open spec fn ended(s: TimerView) -> TimerView {
    if s.phase != Phase::Work {
        s
    } else {
        TimerView {
            work_done: (s.work_done + 1) as u32,
            booked: match s.project {
                Some(ws) => s.booked.insert(ws, (s.booked_on(ws) + s.elapsed) as u64),
                None => s.booked,
            },
            ..s
        }
    }
}

/// What is announced at the end of an interval.
pub open spec fn ending(s: TimerView) -> Seq<EffectView> {
    if s.phase == Phase::Idle {
        Seq::empty()
    } else {
        seq![
            EffectView::Publish(
                EventView::FocusSessionEnded {
                    kind: s.phase.name(),
                    project: s.project,
                    actual_secs: s.elapsed,
                },
            ),
        ]
    }
}

/// The phase that follows a running one.
pub open spec fn following(phase: Phase) -> Phase {
    match phase {
        Phase::Work => Phase::Break,
        Phase::Break => Phase::Work,
        Phase::Idle => Phase::Idle,
    }
}

/// Whether a command ends no work interval that cannot be counted and booked.
pub open spec fn command_fits(s: TimerView, action: Seq<char>) -> bool {
    s.phase == Phase::Work && (action == "stop"@ || action == "skip"@) ==> s.has_room()
}

/// Whether a second can be counted, and ends no work interval that cannot be counted
/// and booked.
pub open spec fn second_fits(s: TimerView) -> bool {
    s.phase != Phase::Idle && !s.paused ==> {
        &&& s.elapsed < u64::MAX
        &&& s.phase == Phase::Work && s.elapsed + 1 >= s.planned ==> TimerView {
            elapsed: (s.elapsed + 1) as u64,
            ..s
        }.has_room()
    }
}

/// The state and effects of a command or a second.
pub struct Outcome {
    pub state: TimerView,
    pub effects: Seq<EffectView>,
}

/// Going on to the next interval.
pub open spec fn advanced(s: TimerView, cfg: SessionTimerConfig) -> Outcome {
    if s.phase == Phase::Idle {
        Outcome { state: s, effects: Seq::empty() }
    } else {
        Outcome {
            state: entered(ended(s), cfg, following(s.phase)),
            effects: ending(s) + entering(ended(s), cfg, following(s.phase)),
        }
    }
}

/// A state that is shown and nothing else.
pub open spec fn shown(s: TimerView) -> Outcome {
    Outcome { state: s, effects: seq![EffectView::Show(s.widget())] }
}

/// Nothing happens.
pub open spec fn unchanged(s: TimerView) -> Outcome {
    Outcome { state: s, effects: Seq::empty() }
}

/// What a command does.
pub open spec fn commanded(s: TimerView, cfg: SessionTimerConfig, action: Seq<char>) -> Outcome {
    if action == "start"@ {
        if s.phase == Phase::Idle {
            let fresh = TimerView { work_done: 0, ..s };
            Outcome {
                state: entered(fresh, cfg, Phase::Work),
                effects: entering(fresh, cfg, Phase::Work),
            }
        } else if s.paused {
            shown(TimerView { paused: false, ..s })
        } else {
            unchanged(s)
        }
    } else if action == "pause"@ {
        if s.phase != Phase::Idle && !s.paused {
            shown(TimerView { paused: true, ..s })
        } else {
            unchanged(s)
        }
    } else if action == "resume"@ {
        if s.paused {
            shown(TimerView { paused: false, ..s })
        } else {
            unchanged(s)
        }
    } else if action == "stop"@ {
        if s.phase != Phase::Idle {
            let over = TimerView { work_done: 0, ..ended(s) };
            Outcome {
                state: entered(over, cfg, Phase::Idle),
                effects: ending(s) + entering(over, cfg, Phase::Idle),
            }
        } else {
            unchanged(s)
        }
    } else if action == "skip"@ {
        advanced(s, cfg)
    } else {
        unchanged(s)
    }
}

/// What a second does.
pub open spec fn ticked(s: TimerView, cfg: SessionTimerConfig) -> Outcome {
    if s.phase == Phase::Idle || s.paused {
        unchanged(s)
    } else {
        let later = TimerView { elapsed: (s.elapsed + 1) as u64, ..s };
        if later.elapsed >= later.planned {
            advanced(later, cfg)
        } else {
            shown(later)
        }
    }
}

/// The command that a click on the widget stands for.
pub open spec fn toggled(s: TimerView) -> Seq<char> {
    if s.phase == Phase::Idle {
        "start"@
    } else if s.paused {
        "resume"@
    } else {
        "pause"@
    }
}

/// What an event does.
pub open spec fn reacted(s: TimerView, cfg: SessionTimerConfig, e: EventView) -> Outcome {
    match e {
        EventView::SessionTimerCommand { action } => commanded(s, cfg, action),
        EventView::WorkspaceChanged { name, focused_window } => unchanged(
            TimerView { project: Some(name), ..s },
        ),
        EventView::WidgetActionReceived { widget_id, action, data } => if widget_id
            == SESSION_TIMER_WIDGET_ID@ && action == "toggle"@ {
            commanded(s, cfg, toggled(s))
        } else {
            unchanged(s)
        },
        _ => unchanged(s),
    }
}

/// The timer.
pub struct SessionTimerModule {
    pub cfg: SessionTimerConfig,
    pub phase: Phase,
    pub paused: bool,
    pub elapsed_secs: u64,
    pub planned_secs: u64,
    /// The work intervals since the timer was last idle.
    pub work_done: u32,
    /// The workspace that work is booked on.
    pub current_project: Option<String>,
    /// The seconds of work per workspace.
    pub per_ws_secs: TextMap<u64>,
}

impl SessionTimerModule {
    /// The state of the timer.
    pub open spec fn view(&self) -> TimerView {
        TimerView {
            phase: self.phase,
            paused: self.paused,
            elapsed: self.elapsed_secs,
            planned: self.planned_secs,
            work_done: self.work_done,
            project: self.current_project.deep_view(),
            booked: self.per_ws_secs@,
        }
    }

    pub fn new(cfg: SessionTimerConfig) -> (r: Self)
        ensures
            r.cfg == cfg,
            r@ == (TimerView {
                phase: Phase::Idle,
                paused: false,
                elapsed: 0,
                planned: 0,
                work_done: 0,
                project: None,
                booked: Map::empty(),
            }),
            r@.wf(),
    {
        SessionTimerModule {
            cfg,
            phase: Phase::Idle,
            paused: false,
            elapsed_secs: 0,
            planned_secs: 0,
            work_done: 0,
            current_project: None,
            per_ws_secs: TextMap::new(),
        }
    }

    /// What the widget shows.
    pub fn widget(&self) -> (r: TimerWidget)
        ensures
            r == self@.widget(),
    {
        TimerWidget {
            phase: self.phase,
            paused: self.paused,
            elapsed_secs: self.elapsed_secs,
            planned_secs: self.planned_secs,
            work_intervals: self.work_done,
        }
    }

    fn work_secs(&self) -> (r: u64)
        requires
            self.cfg.fits(),
        ensures
            r as int == seconds(self.cfg.work_minutes),
    {
        if self.cfg.work_minutes < 1 {
            60
        } else {
            self.cfg.work_minutes * 60
        }
    }

    fn break_secs(&self) -> (r: u64)
        requires
            self.cfg.fits(),
        ensures
            r as int == planned_for(self.cfg, self.work_done, Phase::Break),
    {
        let n: u32 = if self.cfg.intervals_until_long_break < 1 {
            1
        } else {
            self.cfg.intervals_until_long_break
        };
        let minutes: u64 = if self.work_done > 0 && self.work_done % n == 0 {
            self.cfg.long_break_minutes
        } else {
            self.cfg.break_minutes
        };
        if minutes < 1 {
            60
        } else {
            minutes * 60
        }
    }

    fn show(&self, effects: &mut Vec<TimerEffect>)
        ensures
            final(effects).deep_view() == old(effects).deep_view().push(
                EffectView::Show(self@.widget()),
            ),
    {
        let ghost before = effects.deep_view();
        effects.push(TimerEffect::Show(self.widget()));
        assert(effects.deep_view() =~= before.push(EffectView::Show(self@.widget())));
    }

    fn enter(&mut self, phase: Phase, effects: &mut Vec<TimerEffect>)
        requires
            old(self).cfg.fits(),
        ensures
            final(self).cfg == old(self).cfg,
            final(self)@ == entered(old(self)@, old(self).cfg, phase),
            final(effects).deep_view() == old(effects).deep_view() + entering(
                old(self)@,
                old(self).cfg,
                phase,
            ),
    {
        let ghost s0 = self@;
        let ghost before = effects.deep_view();
        self.phase = phase;
        self.paused = false;
        self.elapsed_secs = 0;
        self.planned_secs = match phase {
            Phase::Idle => 0,
            Phase::Work => self.work_secs(),
            Phase::Break => self.break_secs(),
        };
        if phase != Phase::Idle {
            let event = Event::FocusSessionStarted {
                kind: text::owned(phase.wire()),
                project: text::clone_opt(&self.current_project),
                planned_secs: self.planned_secs,
            };
            effects.push(TimerEffect::Publish(event));
            assert(effects.deep_view() =~= before.push(EffectView::Publish(event.deep_view())));
        }
        self.show(effects);
        proof {
            assert(self@ =~= entered(s0, self.cfg, phase));
            assert(effects.deep_view() =~= before + entering(s0, self.cfg, phase));
        }
    }

    fn end_current(&mut self, effects: &mut Vec<TimerEffect>)
        requires
            old(self).phase == Phase::Work ==> old(self)@.has_room(),
        ensures
            final(self).cfg == old(self).cfg,
            final(self)@ == ended(old(self)@),
            final(effects).deep_view() == old(effects).deep_view() + ending(old(self)@),
    {
        let ghost s0 = self@;
        let ghost before = effects.deep_view();
        if self.phase == Phase::Idle {
            assert(effects.deep_view() =~= before + ending(s0));
            return;
        }
        if self.phase == Phase::Work {
            self.work_done = self.work_done + 1;
            match &self.current_project {
                Some(ws) => {
                    let key = ws.clone();
                    let sofar: u64 = match self.per_ws_secs.get(&key) {
                        Some(n) => *n,
                        None => 0,
                    };
                    self.per_ws_secs.insert(key, sofar + self.elapsed_secs);
                },
                None => {},
            }
        }
        let event = Event::FocusSessionEnded {
            kind: text::owned(self.phase.wire()),
            project: text::clone_opt(&self.current_project),
            actual_secs: self.elapsed_secs,
        };
        effects.push(TimerEffect::Publish(event));
        proof {
            assert(effects.deep_view() =~= before.push(EffectView::Publish(event.deep_view())));
            assert(effects.deep_view() =~= before + ending(s0));
            assert(self@ =~= ended(s0));
        }
    }

    fn advance(&mut self, effects: &mut Vec<TimerEffect>)
        requires
            old(self).cfg.fits(),
            old(self).phase == Phase::Work ==> old(self)@.has_room(),
        ensures
            final(self).cfg == old(self).cfg,
            final(self)@ == advanced(old(self)@, old(self).cfg).state,
            final(effects).deep_view() == old(effects).deep_view() + advanced(
                old(self)@,
                old(self).cfg,
            ).effects,
    {
        let ghost s0 = self@;
        let ghost before = effects.deep_view();
        let next = match self.phase {
            Phase::Work => Phase::Break,
            Phase::Break => Phase::Work,
            Phase::Idle => {
                assert(effects.deep_view() =~= before + advanced(s0, self.cfg).effects);
                return;
            },
        };
        self.end_current(effects);
        self.enter(next, effects);
        assert(effects.deep_view() =~= before + advanced(s0, self.cfg).effects);
    }

    /// Carries out a command.
    pub fn handle_command(&mut self, action: &str) -> (r: Vec<TimerEffect>)
        requires
            old(self).cfg.fits(),
            command_fits(old(self)@, action@),
        ensures
            final(self).cfg == old(self).cfg,
            final(self)@ == commanded(old(self)@, old(self).cfg, action@).state,
            r.deep_view() == commanded(old(self)@, old(self).cfg, action@).effects,
            old(self)@.wf() ==> final(self)@.wf(),
    {
        let ghost s0 = self@;
        let mut effects: Vec<TimerEffect> = Vec::new();
        assert(effects.deep_view() =~= Seq::empty());
        if text::same(action, "start") {
            if self.phase == Phase::Idle {
                self.work_done = 0;
                self.enter(Phase::Work, &mut effects);
            } else if self.paused {
                self.paused = false;
                self.show(&mut effects);
            }
        } else if text::same(action, "pause") {
            if self.phase != Phase::Idle && !self.paused {
                self.paused = true;
                self.show(&mut effects);
            }
        } else if text::same(action, "resume") {
            if self.paused {
                self.paused = false;
                self.show(&mut effects);
            }
        } else if text::same(action, "stop") {
            if self.phase != Phase::Idle {
                self.end_current(&mut effects);
                self.work_done = 0;
                self.enter(Phase::Idle, &mut effects);
            }
        } else if text::same(action, "skip") {
            if self.phase != Phase::Idle {
                self.advance(&mut effects);
            }
        }
        assert(effects.deep_view() =~= commanded(s0, self.cfg, action@).effects);
        assert(self@ =~= commanded(s0, self.cfg, action@).state);
        effects
    }

    /// One second of real time.
    pub fn advance_one_second(&mut self) -> (r: Vec<TimerEffect>)
        requires
            old(self).cfg.fits(),
            second_fits(old(self)@),
        ensures
            final(self).cfg == old(self).cfg,
            final(self)@ == ticked(old(self)@, old(self).cfg).state,
            r.deep_view() == ticked(old(self)@, old(self).cfg).effects,
            old(self)@.wf() ==> final(self)@.wf(),
    {
        let ghost s0 = self@;
        let mut effects: Vec<TimerEffect> = Vec::new();
        assert(effects.deep_view() =~= Seq::empty());
        if self.phase == Phase::Idle || self.paused {
            return effects;
        }
        self.elapsed_secs = self.elapsed_secs + 1;
        if self.elapsed_secs >= self.planned_secs {
            self.advance(&mut effects);
        } else {
            self.show(&mut effects);
        }
        assert(effects.deep_view() =~= ticked(s0, self.cfg).effects);
        effects
    }

    /// Handles an event.
    pub fn on_event(&mut self, event: &Event) -> (r: Vec<TimerEffect>)
        requires
            old(self).cfg.fits(),
            event.deep_view() matches EventView::SessionTimerCommand { action } ==> command_fits(
                old(self)@,
                action,
            ),
        ensures
            final(self).cfg == old(self).cfg,
            final(self)@ == reacted(old(self)@, old(self).cfg, event.deep_view()).state,
            r.deep_view() == reacted(old(self)@, old(self).cfg, event.deep_view()).effects,
            old(self)@.wf() ==> final(self)@.wf(),
    {
        let nothing: Vec<TimerEffect> = Vec::new();
        assert(nothing.deep_view() =~= Seq::empty());
        match event {
            Event::SessionTimerCommand { action } => self.handle_command(action),
            Event::WorkspaceChanged { name, focused_window: _ } => {
                self.current_project = Some(name.clone());
                nothing
            },
            Event::WidgetActionReceived { widget_id, action, data: _ } => {
                if text::same(widget_id, SESSION_TIMER_WIDGET_ID) && text::same(action, "toggle") {
                    let resolved = if self.phase == Phase::Idle {
                        "start"
                    } else if self.paused {
                        "resume"
                    } else {
                        "pause"
                    };
                    proof {
                        reveal_strlit("start");
                        reveal_strlit("resume");
                        reveal_strlit("pause");
                        reveal_strlit("stop");
                        reveal_strlit("skip");
                        assert(resolved@.len() >= 5);
                    }
                    self.handle_command(resolved)
                } else {
                    nothing
                }
            },
            _ => nothing,
        }
    }

    /// The kinds of event that the module listens to.
    pub fn subscribed_events(&self) -> (r: Vec<EventKind>)
        ensures
            r@ == seq![
                EventKind::SessionTimerCommand,
                EventKind::WorkspaceChanged,
                EventKind::WidgetActionReceived,
            ],
    {
        let r: Vec<EventKind> = vec![
            EventKind::SessionTimerCommand,
            EventKind::WorkspaceChanged,
            EventKind::WidgetActionReceived,
        ];
        assert(r@ =~= seq![
            EventKind::SessionTimerCommand,
            EventKind::WorkspaceChanged,
            EventKind::WidgetActionReceived,
        ]);
        r
    }
}

// ---------------------------------------------------------------------------
// Laws
// ---------------------------------------------------------------------------

/// A paused timer does not move.
pub proof fn law_pause_freezes(s: TimerView, cfg: SessionTimerConfig)
    requires
        s.phase != Phase::Idle,
    ensures
        commanded(s, cfg, "pause"@).state.paused,
        ticked(commanded(s, cfg, "pause"@).state, cfg).state == commanded(s, cfg, "pause"@).state,
        ticked(commanded(s, cfg, "pause"@).state, cfg).effects.len() == 0,
{
    reveal_strlit("start");
    reveal_strlit("pause");
    assert("start"@[0] != "pause"@[0]);
}

/// Pausing and resuming a running timer gives back the state it was in.
pub proof fn law_resume_undoes_pause(s: TimerView, cfg: SessionTimerConfig)
    requires
        s.phase != Phase::Idle,
        !s.paused,
    ensures
        commanded(commanded(s, cfg, "pause"@).state, cfg, "resume"@).state == s,
{
    reveal_strlit("start");
    reveal_strlit("pause");
    reveal_strlit("resume");
    assert("start"@[0] != "pause"@[0]);
    assert("start"@[0] != "resume"@[0]);
    assert("pause"@[0] != "resume"@[0]);
    assert(commanded(commanded(s, cfg, "pause"@).state, cfg, "resume"@).state =~= s);
}

/// Whether an effect announces the start of an interval.
pub open spec fn is_start(e: EffectView) -> bool {
    e matches EffectView::Publish(ev) && ev is FocusSessionStarted
}

/// Whether an effect announces the end of an interval.
pub open spec fn is_end(e: EffectView) -> bool {
    e matches EffectView::Publish(ev) && ev is FocusSessionEnded
}

/// How many of some effects satisfy a predicate.
pub open spec fn count(effects: Seq<EffectView>, p: spec_fn(EffectView) -> bool) -> int
    decreases effects.len(),
{
    if effects.len() == 0 {
        0
    } else {
        count(effects.drop_last(), p) + (if p(effects.last()) {
            1int
        } else {
            0int
        })
    }
}

proof fn lemma_count_add(
    a: Seq<EffectView>,
    b: Seq<EffectView>,
    p: spec_fn(EffectView) -> bool,
)
    ensures
        count(a + b, p) == count(a, p) + count(b, p),
    decreases b.len(),
{
    if b.len() == 0 {
        assert(a + b =~= a);
    } else {
        assert((a + b).drop_last() =~= a + b.drop_last());
        assert((a + b).last() == b.last());
        lemma_count_add(a, b.drop_last(), p);
    }
}

/// The running intervals of a state: one unless idle.
pub open spec fn running(s: TimerView) -> int {
    if s.phase == Phase::Idle {
        0
    } else {
        1
    }
}

proof fn lemma_balance_entering(s: TimerView, cfg: SessionTimerConfig, phase: Phase)
    ensures
        count(entering(s, cfg, phase), |e: EffectView| is_start(e)) == (if phase == Phase::Idle {
            0int
        } else {
            1int
        }),
        count(entering(s, cfg, phase), |e: EffectView| is_end(e)) == 0,
{
    let p = |e: EffectView| is_start(e);
    let q = |e: EffectView| is_end(e);
    let shown = seq![EffectView::Show(entered(s, cfg, phase).widget())];
    assert(shown.drop_last() =~= Seq::empty());
    assert(count(shown, p) == 0) by {
        reveal_with_fuel(count, 2);
    }
    assert(count(shown, q) == 0) by {
        reveal_with_fuel(count, 2);
    }
    if phase != Phase::Idle {
        let head = seq![entering(s, cfg, phase)[0]];
        assert(entering(s, cfg, phase) =~= head + shown);
        lemma_count_add(head, shown, p);
        lemma_count_add(head, shown, q);
        assert(head.drop_last() =~= Seq::empty());
        assert(count(head, p) == 1) by {
            reveal_with_fuel(count, 2);
        }
        assert(count(head, q) == 0) by {
            reveal_with_fuel(count, 2);
        }
    }
}

proof fn lemma_balance_ending(s: TimerView)
    ensures
        count(ending(s), |e: EffectView| is_start(e)) == 0,
        count(ending(s), |e: EffectView| is_end(e)) == running(s),
{
    if s.phase != Phase::Idle {
        assert(ending(s).drop_last() =~= Seq::empty());
        reveal_with_fuel(count, 2);
    }
}

proof fn lemma_balance_advanced(s: TimerView, cfg: SessionTimerConfig)
    ensures
        count(advanced(s, cfg).effects, |e: EffectView| is_start(e)) - count(
            advanced(s, cfg).effects,
            |e: EffectView| is_end(e),
        ) == running(advanced(s, cfg).state) - running(s),
{
    let p = |e: EffectView| is_start(e);
    let q = |e: EffectView| is_end(e);
    if s.phase != Phase::Idle {
        let b = entering(ended(s), cfg, following(s.phase));
        lemma_count_add(ending(s), b, p);
        lemma_count_add(ending(s), b, q);
        lemma_balance_ending(s);
        lemma_balance_entering(ended(s), cfg, following(s.phase));
    }
}

proof fn lemma_balance_shown(s: TimerView)
    ensures
        count(shown(s).effects, |e: EffectView| is_start(e)) == 0,
        count(shown(s).effects, |e: EffectView| is_end(e)) == 0,
{
    assert(shown(s).effects.drop_last() =~= Seq::empty());
    reveal_with_fuel(count, 2);
}

/// Starts and ends pair up: over any command, the starts announced exceed the
/// ends announced by exactly the change in the number of running intervals.
pub proof fn law_starts_and_ends_pair_up(s: TimerView, cfg: SessionTimerConfig, action: Seq<char>)
    ensures
        count(commanded(s, cfg, action).effects, |e: EffectView| is_start(e)) - count(
            commanded(s, cfg, action).effects,
            |e: EffectView| is_end(e),
        ) == running(commanded(s, cfg, action).state) - running(s),
{
    let p = |e: EffectView| is_start(e);
    let q = |e: EffectView| is_end(e);
    lemma_balance_advanced(s, cfg);
    lemma_balance_shown(TimerView { paused: false, ..s });
    lemma_balance_shown(TimerView { paused: true, ..s });
    lemma_balance_entering(TimerView { work_done: 0, ..s }, cfg, Phase::Work);
    let over = TimerView { work_done: 0, ..ended(s) };
    lemma_balance_ending(s);
    lemma_balance_entering(over, cfg, Phase::Idle);
    lemma_count_add(ending(s), entering(over, cfg, Phase::Idle), p);
    lemma_count_add(ending(s), entering(over, cfg, Phase::Idle), q);
}

/// The same holds of a second.
pub proof fn law_a_second_pairs_up(s: TimerView, cfg: SessionTimerConfig)
    ensures
        count(ticked(s, cfg).effects, |e: EffectView| is_start(e)) - count(
            ticked(s, cfg).effects,
            |e: EffectView| is_end(e),
        ) == running(ticked(s, cfg).state) - running(s),
{
    let later = TimerView { elapsed: (s.elapsed + 1) as u64, ..s };
    lemma_balance_advanced(later, cfg);
    lemma_balance_shown(later);
}

/// Every Nth work interval is followed by the long break, every other one by
/// the short break.
pub proof fn law_long_break_every_nth(s: TimerView, cfg: SessionTimerConfig)
    requires
        s.phase == Phase::Work,
        s.work_done < u32::MAX,
        cfg.fits(),
        cfg.intervals_until_long_break >= 1,
    ensures
        advanced(s, cfg).state.phase == Phase::Break,
        advanced(s, cfg).state.planned as int == (if (s.work_done + 1)
            % (cfg.intervals_until_long_break as int) == 0 {
            seconds(cfg.long_break_minutes)
        } else {
            seconds(cfg.break_minutes)
        }),
{
}

/// Stopping forgets the count of work intervals and leaves the timer idle.
pub proof fn law_stop_goes_idle(s: TimerView, cfg: SessionTimerConfig)
    requires
        s.phase != Phase::Idle,
    ensures
        commanded(s, cfg, "stop"@).state.phase == Phase::Idle,
        commanded(s, cfg, "stop"@).state.work_done == 0,
        commanded(s, cfg, "stop"@).state.elapsed == 0,
{
    reveal_strlit("start");
    reveal_strlit("stop");
    reveal_strlit("pause");
    reveal_strlit("resume");
    assert("start"@.len() != "stop"@.len());
    assert("pause"@[0] != "stop"@[0]);
    assert("resume"@[0] != "stop"@[0]);
}

/// How many seconds an interval of so many minutes lasts, at least one minute.
pub open spec fn lasting(minutes: u64) -> int {
    60 * (if minutes == 0 {
        1
    } else {
        minutes as int
    })
}

/// What the widget shows of a state.
pub open spec fn seen(s: TimerView) -> EffectView {
    EffectView::Show(
        TimerWidget {
            phase: s.phase,
            paused: s.paused,
            elapsed_secs: s.elapsed,
            planned_secs: s.planned,
            work_intervals: s.work_done,
        },
    )
}

/// Whether the end of an interval of so many seconds leads to the next one. Work is
/// counted and booked on the workspace, and a break follows; it is a long one where the
/// count is a multiple of the configured number. Work follows a break. The end and the
/// start are published, and then the widget is shown.
pub open spec fn goes_over(s: TimerView, secs: u64, cfg: SessionTimerConfig, o: Outcome) -> bool {
    let every = if cfg.intervals_until_long_break == 0 {
        1
    } else {
        cfg.intervals_until_long_break as int
    };
    let n = o.state;
    &&& !n.paused
    &&& n.elapsed == 0
    &&& n.project == s.project
    &&& s.phase == Phase::Work ==> {
        &&& n.phase == Phase::Break
        &&& n.work_done == s.work_done + 1
        &&& n.planned == (if (s.work_done + 1) % every == 0 {
            lasting(cfg.long_break_minutes)
        } else {
            lasting(cfg.break_minutes)
        })
        &&& s.project is None ==> n.booked == s.booked
        &&& s.project matches Some(ws) ==> n.booked == s.booked.insert(
            ws,
            ((if s.booked.dom().contains(ws) {
                s.booked[ws] as int
            } else {
                0
            }) + secs) as u64,
        )
    }
    &&& s.phase == Phase::Break ==> {
        &&& n.phase == Phase::Work
        &&& n.work_done == s.work_done
        &&& n.planned == lasting(cfg.work_minutes)
        &&& n.booked == s.booked
    }
    &&& o.effects =~= seq![
        EffectView::Publish(
            EventView::FocusSessionEnded {
                kind: if s.phase == Phase::Work {
                    "work"@
                } else {
                    "break"@
                },
                project: s.project,
                actual_secs: secs,
            },
        ),
        EffectView::Publish(
            EventView::FocusSessionStarted {
                kind: if s.phase == Phase::Work {
                    "break"@
                } else {
                    "work"@
                },
                project: s.project,
                planned_secs: n.planned,
            },
        ),
        seen(n),
    ]
}

/// Whether the numbers of a state and of the settings stay within their limits for one
/// step.
pub open spec fn small(s: TimerView, cfg: SessionTimerConfig) -> bool {
    &&& lasting(cfg.work_minutes) <= u64::MAX
    &&& lasting(cfg.break_minutes) <= u64::MAX
    &&& lasting(cfg.long_break_minutes) <= u64::MAX
    &&& s.elapsed < u64::MAX
    &&& s.work_done < u32::MAX
    &&& s.project matches Some(ws) ==> s.booked.dom().contains(ws) ==> s.booked[ws] + s.elapsed + 1
        <= u64::MAX
}

/// What a second does: nothing while idle or paused; else one more second is counted and
/// shown, and where that fills the interval, the next one begins.
pub proof fn law_seconds_add_up(s: TimerView, cfg: SessionTimerConfig)
    requires
        small(s, cfg),
    ensures
        s.phase == Phase::Idle || s.paused ==> ticked(s, cfg).state == s && ticked(
            s,
            cfg,
        ).effects.len() == 0,
        s.phase != Phase::Idle && !s.paused && s.elapsed + 1 < s.planned ==> {
            let n = ticked(s, cfg).state;
            &&& n == TimerView { elapsed: (s.elapsed + 1) as u64, ..s }
            &&& ticked(s, cfg).effects =~= seq![seen(n)]
        },
        s.phase != Phase::Idle && !s.paused && s.elapsed + 1 >= s.planned ==> goes_over(
            s,
            (s.elapsed + 1) as u64,
            cfg,
            ticked(s, cfg),
        ),
{
    assert(seconds(cfg.work_minutes) == lasting(cfg.work_minutes));
    assert(seconds(cfg.break_minutes) == lasting(cfg.break_minutes));
    assert(seconds(cfg.long_break_minutes) == lasting(cfg.long_break_minutes));
}

/// What the commands do. `start` begins work with the count at nothing, or goes on where
/// it was paused; `pause` and `resume` do what they say; `skip` goes to the next
/// interval; `stop` ends all, with the work that was done booked. Any other word does
/// nothing.
pub proof fn law_commands_do_what_they_say(
    s: TimerView,
    cfg: SessionTimerConfig,
    action: Seq<char>,
)
    requires
        small(s, cfg),
    ensures
        ({
            let o = commanded(s, cfg, action);
            let n = o.state;
            let idle = s.phase == Phase::Idle;
            let nothing = n == s && o.effects.len() == 0;
            &&& action == "start"@ && idle ==> n == (TimerView {
                phase: Phase::Work,
                paused: false,
                elapsed: 0,
                planned: lasting(cfg.work_minutes) as u64,
                work_done: 0,
                ..s
            }) && o.effects =~= seq![
                EffectView::Publish(
                    EventView::FocusSessionStarted {
                        kind: "work"@,
                        project: s.project,
                        planned_secs: n.planned,
                    },
                ),
                seen(n),
            ]
            &&& action == "start"@ && !idle && s.paused ==> n == (TimerView { paused: false, ..s })
                && o.effects =~= seq![seen(n)]
            &&& action == "start"@ && !idle && !s.paused ==> nothing
            &&& action == "pause"@ && !idle && !s.paused ==> n == (TimerView { paused: true, ..s })
                && o.effects =~= seq![seen(n)]
            &&& action == "pause"@ && (idle || s.paused) ==> nothing
            &&& action == "resume"@ && s.paused ==> n == (TimerView { paused: false, ..s })
                && o.effects =~= seq![seen(n)]
            &&& action == "resume"@ && !s.paused ==> nothing
            &&& action == "skip"@ && idle ==> nothing
            &&& action == "skip"@ && !idle ==> goes_over(s, s.elapsed, cfg, o)
            &&& action == "stop"@ && idle ==> nothing
            &&& action == "stop"@ && !idle ==> {
                &&& n.phase == Phase::Idle && !n.paused && n.elapsed == 0 && n.planned == 0
                &&& n.work_done == 0 && n.project == s.project
                &&& s.phase == Phase::Break || s.project is None ==> n.booked == s.booked
                &&& s.phase == Phase::Work ==> (s.project matches Some(ws) ==> n.booked
                    == s.booked.insert(
                    ws,
                    ((if s.booked.dom().contains(ws) {
                        s.booked[ws] as int
                    } else {
                        0
                    }) + s.elapsed) as u64,
                ))
                &&& o.effects =~= seq![
                    EffectView::Publish(
                        EventView::FocusSessionEnded {
                            kind: if s.phase == Phase::Work {
                                "work"@
                            } else {
                                "break"@
                            },
                            project: s.project,
                            actual_secs: s.elapsed,
                        },
                    ),
                    seen(n),
                ]
            }
            &&& action != "start"@ && action != "pause"@ && action != "resume"@ && action != "skip"@
                && action != "stop"@ ==> nothing
        }),
{
    reveal_strlit("start");
    reveal_strlit("pause");
    reveal_strlit("resume");
    reveal_strlit("stop");
    reveal_strlit("skip");
    assert("start"@[2] == 'a' && "pause"@[2] == 'u' && "stop"@[2] == 'o' && "skip"@[2] == 'i');
    assert("start"@ != "pause"@ && "start"@ != "resume"@ && "start"@ != "stop"@ && "start"@
        != "skip"@);
    assert("pause"@ != "resume"@ && "pause"@ != "stop"@ && "pause"@ != "skip"@);
    assert("resume"@ != "stop"@ && "resume"@ != "skip"@ && "stop"@ != "skip"@);
    assert(seconds(cfg.work_minutes) == lasting(cfg.work_minutes));
    assert(seconds(cfg.break_minutes) == lasting(cfg.break_minutes));
    assert(seconds(cfg.long_break_minutes) == lasting(cfg.long_break_minutes));
}

/// A change of the workspace is noted and nothing else. A click on the widget starts an
/// idle timer, pauses one that runs and resumes one that is paused.
pub proof fn law_the_timer_listens(s: TimerView, cfg: SessionTimerConfig, e: EventView)
    ensures
        e matches EventView::WorkspaceChanged { name, focused_window } ==> reacted(s, cfg, e).state
            == (TimerView { project: Some(name), ..s }) && reacted(s, cfg, e).effects.len() == 0,
        e matches EventView::SessionTimerCommand { action } ==> reacted(s, cfg, e) == commanded(
            s,
            cfg,
            action,
        ),
        e matches EventView::WidgetActionReceived { widget_id, action, data } ==> (if widget_id
            == "session-timer"@ && action == "toggle"@ {
            reacted(s, cfg, e) == commanded(
                s,
                cfg,
                if s.phase == Phase::Idle {
                    "start"@
                } else if s.paused {
                    "resume"@
                } else {
                    "pause"@
                },
            )
        } else {
            reacted(s, cfg, e).state == s && reacted(s, cfg, e).effects.len() == 0
        }),
        !(e is WorkspaceChanged || e is SessionTimerCommand || e is WidgetActionReceived)
            ==> reacted(s, cfg, e).state == s && reacted(s, cfg, e).effects.len() == 0,
{
}

} // verus!
