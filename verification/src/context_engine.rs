//! The driver of the bar's layout.
//!
//! Events set signals and switch profiles. A layout that was resolved from them
//! is turned into messages for the shell: only what changed since the last one.

use vstd::prelude::*;

use crate::events::{Event, EventKind, EventView};
use crate::order::{
    law_sorting, lemma_lex_total, lemma_lex_trans, lemma_sort, lex_le, lex_lt, sort, sort_by,
    str_lt, total_order,
};
use crate::seqs::{first_where, lemma_first_where, lemma_first_where_is, lemma_first_where_none};
use crate::signals::{mirror_event, mirrored, Signals, SignalView};
use crate::text;
use crate::textmap::{distinct_keys, lemma_map_of, map_of, TextMap};

verus! {

/// The width of the bar in pixels where none is known.
pub const DEFAULT_AVAILABLE_WIDTH: u32 = 2560;

/// The gap between two widgets in pixels.
pub const DEFAULT_INTER_WIDGET_GAP: u32 = 8;

/// The time between two ticks, in milliseconds.
pub const DEFAULT_TICK_MILLIS: u64 = 500;

/// How much of a widget is shown.
#[derive(Debug, Clone, Copy, PartialEq, Eq, Structural)]
pub enum Prominence {
    Hidden,
    Badge,
    IconOnly,
    Compact,
    Visible,
    Expanded,
}

/// The width that a widget is taken to have.
pub open spec fn width_of(p: Prominence) -> u32 {
    match p {
        Prominence::Hidden => 0,
        Prominence::Badge => 16,
        Prominence::IconOnly => 32,
        Prominence::Compact => 96,
        Prominence::Visible => 160,
        Prominence::Expanded => 220,
    }
}

/// The width that a widget is taken to have, whichever it is.
pub fn heuristic_width(_widget_id: &str, p: Prominence) -> (r: u32)
    ensures
        r == width_of(p),
{
    match p {
        Prominence::Hidden => 0,
        Prominence::Badge => 16,
        Prominence::IconOnly => 32,
        Prominence::Compact => 96,
        Prominence::Visible => 160,
        Prominence::Expanded => 220,
    }
}

/// A part of the bar.
#[derive(Debug, Clone, Copy, PartialEq, Eq, Structural)]
pub enum Zone {
    Left,
    Center,
    Right,
}

/// A widget as the layout knows it.
#[derive(Debug, Clone, PartialEq, Eq)]
pub struct WidgetDef {
    pub id: String,
    pub widget_type: String,
    pub default_prominence: Prominence,
    pub priority: i32,
    pub zone: Zone,
}

/// The contents of a [`WidgetDef`].
pub struct WidgetDefView {
    pub id: Seq<char>,
    pub widget_type: Seq<char>,
    pub default_prominence: Prominence,
    pub priority: i32,
    pub zone: Zone,
}

impl DeepView for WidgetDef {
    type V = WidgetDefView;

    open spec fn deep_view(&self) -> WidgetDefView {
        WidgetDefView {
            id: self.id@,
            widget_type: self.widget_type@,
            default_prominence: self.default_prominence,
            priority: self.priority,
            zone: self.zone,
        }
    }
}

/// A widget definition in one line.
pub open spec fn widget_def(
    id: Seq<char>,
    widget_type: Seq<char>,
    default_prominence: Prominence,
    priority: i32,
    zone: Zone,
) -> WidgetDefView {
    WidgetDefView { id, widget_type, default_prominence, priority, zone }
}

fn define(
    id: &str,
    widget_type: &str,
    default_prominence: Prominence,
    priority: i32,
    zone: Zone,
) -> (r: WidgetDef)
    ensures
        r.deep_view() == widget_def(id@, widget_type@, default_prominence, priority, zone),
{
    WidgetDef {
        id: text::owned(id),
        widget_type: text::owned(widget_type),
        default_prominence,
        priority,
        zone,
    }
}

/// The widgets that the built-in modules feed.
pub open spec fn built_in_widgets() -> Seq<WidgetDefView> {
    seq![
        widget_def(
            "workspace-indicator"@,
            "workspace_indicator"@,
            Prominence::Visible,
            100,
            Zone::Left,
        ),
        widget_def("interruption-cost"@, "interruption_cost"@, Prominence::Visible, 95, Zone::Left),
        widget_def("clock"@, "clock"@, Prominence::Visible, 90, Zone::Center),
        widget_def("cpu"@, "cpu"@, Prominence::Compact, 40, Zone::Right),
        widget_def("memory"@, "memory"@, Prominence::Compact, 45, Zone::Right),
        widget_def("network"@, "network"@, Prominence::IconOnly, 55, Zone::Right),
        widget_def("battery"@, "battery"@, Prominence::IconOnly, 60, Zone::Right),
        widget_def("notifications"@, "notifications"@, Prominence::IconOnly, 20, Zone::Right),
        widget_def("control-center"@, "control_center"@, Prominence::IconOnly, 25, Zone::Right),
        widget_def("system-tray"@, "system_tray"@, Prominence::IconOnly, 22, Zone::Right),
    ]
}

/// The widgets that the built-in modules feed.
pub fn default_widgets() -> (r: Vec<WidgetDef>)
    ensures
        r.deep_view() == built_in_widgets(),
{
    let mut out: Vec<WidgetDef> = Vec::new();
    out.push(
        define(
            "workspace-indicator",
            "workspace_indicator",
            Prominence::Visible,
            100,
            Zone::Left,
        ),
    );
    out.push(
        define("interruption-cost", "interruption_cost", Prominence::Visible, 95, Zone::Left),
    );
    out.push(define("clock", "clock", Prominence::Visible, 90, Zone::Center));
    out.push(define("cpu", "cpu", Prominence::Compact, 40, Zone::Right));
    out.push(define("memory", "memory", Prominence::Compact, 45, Zone::Right));
    out.push(define("network", "network", Prominence::IconOnly, 55, Zone::Right));
    out.push(define("battery", "battery", Prominence::IconOnly, 60, Zone::Right));
    out.push(define("notifications", "notifications", Prominence::IconOnly, 20, Zone::Right));
    out.push(define("control-center", "control_center", Prominence::IconOnly, 25, Zone::Right));
    out.push(define("system-tray", "system_tray", Prominence::IconOnly, 22, Zone::Right));
    assert(out.deep_view() =~= built_in_widgets());
    out
}

/// Which widgets stand where, by id.
#[derive(Debug, Clone, PartialEq, Eq)]
pub struct BarLayout {
    pub left: Vec<String>,
    pub center: Vec<String>,
    pub right: Vec<String>,
}

/// The contents of a [`BarLayout`].
pub struct LayoutView {
    pub left: Seq<Seq<char>>,
    pub center: Seq<Seq<char>>,
    pub right: Seq<Seq<char>>,
}

impl DeepView for BarLayout {
    type V = LayoutView;

    open spec fn deep_view(&self) -> LayoutView {
        LayoutView {
            left: self.left.deep_view(),
            center: self.center.deep_view(),
            right: self.right.deep_view(),
        }
    }
}

/// How dense the bar is.
#[derive(Debug, Clone, Copy, PartialEq, Eq, Structural)]
pub enum BarDensity {
    Full,
    Compact,
    Hidden,
}

/// A message to the shell.
#[derive(Debug, Clone, PartialEq, Eq)]
pub enum ContextMessage {
    BarLayout(BarLayout),
    WidgetVisibility { widget_id: String, visible: bool, prominence: Prominence },
    BarDensityState { mode: BarDensity },
}

/// The contents of a [`ContextMessage`].
pub enum MessageView {
    BarLayout(LayoutView),
    WidgetVisibility { widget_id: Seq<char>, visible: bool, prominence: Prominence },
    BarDensityState { mode: BarDensity },
}

impl DeepView for ContextMessage {
    type V = MessageView;

    open spec fn deep_view(&self) -> MessageView {
        match self {
            ContextMessage::BarLayout(l) => MessageView::BarLayout(l.deep_view()),
            ContextMessage::WidgetVisibility { widget_id, visible, prominence } => {
                MessageView::WidgetVisibility {
                    widget_id: widget_id@,
                    visible: *visible,
                    prominence: *prominence,
                }
            },
            ContextMessage::BarDensityState { mode } => MessageView::BarDensityState {
                mode: *mode,
            },
        }
    }
}

/// The layout that was published last.
pub struct PublishedSnapshot {
    pub layout: BarLayout,
    pub prominences: TextMap<Prominence>,
}

// ---------------------------------------------------------------------------
// Publishing what changed
// ---------------------------------------------------------------------------

/// The message that a widget is shown with a prominence.
pub open spec fn visibility(id: Seq<char>, p: Prominence) -> MessageView {
    MessageView::WidgetVisibility {
        widget_id: id,
        visible: p != Prominence::Hidden,
        prominence: p,
    }
}

/// Whether a widget's prominence differs from what was published.
pub open spec fn differs(
    prev: Option<Map<Seq<char>, Prominence>>,
    id: Seq<char>,
    p: Prominence,
) -> bool {
    !(prev is Some && prev->0.dom().contains(id) && prev->0[id] == p)
}

/// Whether a list of messages shows exactly the widgets whose prominence is new
/// or has changed, each once, in some order.
pub open spec fn shows_changes(
    prev: Option<Map<Seq<char>, Prominence>>,
    cur: Map<Seq<char>, Prominence>,
    msgs: Seq<MessageView>,
) -> bool {
    &&& msgs.no_duplicates()
    &&& forall|m: MessageView|
        #[trigger] msgs.contains(m) <==> (m matches MessageView::WidgetVisibility {
            widget_id,
            visible,
            prominence,
        } && cur.dom().contains(widget_id) && m == visibility(widget_id, cur[widget_id]) && differs(
            prev,
            widget_id,
            cur[widget_id],
        ))
}

/// Whether a list of messages hides exactly the widgets that are gone, each
/// once, in some order.
pub open spec fn hides_gone(
    prev: Option<Map<Seq<char>, Prominence>>,
    cur: Map<Seq<char>, Prominence>,
    msgs: Seq<MessageView>,
) -> bool {
    &&& msgs.no_duplicates()
    &&& forall|m: MessageView|
        #[trigger] msgs.contains(m) <==> (m matches MessageView::WidgetVisibility {
            widget_id,
            visible,
            prominence,
        } && m == visibility(widget_id, Prominence::Hidden) && prev is Some
            && prev->0.dom().contains(widget_id) && !cur.dom().contains(widget_id))
}

/// The layout message, where the layout is the first or has changed.
pub open spec fn layout_part(prev: Option<LayoutView>, layout: LayoutView) -> Seq<MessageView> {
    if prev == Some(layout) {
        Seq::empty()
    } else {
        seq![MessageView::BarLayout(layout)]
    }
}

/// Whether a list of messages is what publishing a layout comes to: the layout,
/// then the widgets that changed, then those that are gone.
pub open spec fn is_delta(
    prev_layout: Option<LayoutView>,
    prev: Option<Map<Seq<char>, Prominence>>,
    layout: LayoutView,
    cur: Map<Seq<char>, Prominence>,
    msgs: Seq<MessageView>,
) -> bool {
    exists|shown: Seq<MessageView>, hidden: Seq<MessageView>|
        #![trigger shows_changes(prev, cur, shown), hides_gone(prev, cur, hidden)]
        msgs == layout_part(prev_layout, layout) + shown + hidden && shows_changes(prev, cur, shown)
            && hides_gone(prev, cur, hidden)
}

fn same_strings(a: &Vec<String>, b: &Vec<String>) -> (r: bool)
    ensures
        r == (a.deep_view() == b.deep_view()),
{
    if a.len() != b.len() {
        assert(a.deep_view().len() != b.deep_view().len());
        return false;
    }
    let mut i: usize = 0;
    while i < a.len()
        invariant
            i <= a@.len(),
            a@.len() == b@.len(),
            forall|k: int| 0 <= k < i ==> a@[k]@ == b@[k]@,
        decreases a@.len() - i,
    {
        if !text::same(&a[i], &b[i]) {
            assert(a.deep_view()[i as int] != b.deep_view()[i as int]);
            return false;
        }
        i += 1;
    }
    assert(a.deep_view() =~= b.deep_view());
    true
}

fn same_layout(a: &BarLayout, b: &BarLayout) -> (r: bool)
    ensures
        r == (a.deep_view() == b.deep_view()),
{
    same_strings(&a.left, &b.left) && same_strings(&a.center, &b.center) && same_strings(
        &a.right,
        &b.right,
    )
}

fn clone_layout(l: &BarLayout) -> (r: BarLayout)
    ensures
        r.deep_view() == l.deep_view(),
{
    BarLayout {
        left: text::clone_strings(&l.left),
        center: text::clone_strings(&l.center),
        right: text::clone_strings(&l.right),
    }
}

/// The widgets of `entries` that differ from what was published, as messages.
fn changed_widgets(prev: &Option<PublishedSnapshot>, cur: &TextMap<Prominence>) -> (r: Vec<
    ContextMessage,
>)
    ensures
        shows_changes(
            (match prev {
                Some(p) => Some(p.prominences@),
                None => None,
            }),
            cur@,
            r.deep_view(),
        ),
{
    let ghost pv: Option<Map<Seq<char>, Prominence>> = match prev {
        Some(p) => Some(p.prominences@),
        None => None,
    };
    let entries = cur.entries();
    let ghost es = entries@;
    let mut out: Vec<ContextMessage> = Vec::new();
    let mut k: usize = 0;
    proof {
        lemma_map_of(es);
        assert(out.deep_view() =~= Seq::empty());
    }
    while k < entries.len()
        invariant
            k <= es.len(),
            es == entries@,
            distinct_keys(es),
            pv == (match prev {
                Some(p) => Some(p.prominences@),
                None => None,
            }),
            out.deep_view().no_duplicates(),
            forall|m: MessageView|
                #[trigger] out.deep_view().contains(m) ==> exists|j: int|
                    0 <= j < k && m == visibility((#[trigger] es[j]).0@, es[j].1) && differs(
                        pv,
                        es[j].0@,
                        es[j].1,
                    ),
            forall|j: int|
                0 <= j < k && differs(pv, (#[trigger] es[j]).0@, es[j].1)
                    ==> out.deep_view().contains(visibility(es[j].0@, es[j].1)),
        decreases es.len() - k,
    {
        let ghost before = out.deep_view();
        let id = &entries[k].0;
        let p = entries[k].1;
        let unchanged = match prev {
            Some(s) => match s.prominences.get(id) {
                Some(q) => *q == p,
                None => false,
            },
            None => false,
        };
        if !unchanged {
            let ghost m = visibility(id@, p);
            out.push(
                ContextMessage::WidgetVisibility {
                    widget_id: id.clone(),
                    visible: p != Prominence::Hidden,
                    prominence: p,
                },
            );
            proof {
                assert(out.deep_view() =~= before.push(m));
                assert(!before.contains(m)) by {
                    if before.contains(m) {
                        let j = choose|j: int|
                            0 <= j < k && m == visibility((#[trigger] es[j]).0@, es[j].1)
                                && differs(pv, es[j].0@, es[j].1);
                        assert(es[j].0@ != es[k as int].0@);
                    }
                }
                let after = out.deep_view();
                assert(after[before.len() as int] == m);
                assert forall|x: MessageView| #[trigger] after.contains(x) implies exists|j: int|
                    0 <= j < k + 1 && x == visibility((#[trigger] es[j]).0@, es[j].1) && differs(
                        pv,
                        es[j].0@,
                        es[j].1,
                    ) by {
                    let i = choose|i: int| 0 <= i < after.len() && after[i] == x;
                    if i < before.len() {
                        assert(before[i] == x);
                        assert(before.contains(x));
                    } else {
                        assert(es[k as int].0@ == id@);
                    }
                }
                assert forall|j: int|
                    0 <= j < k + 1 && differs(pv, (#[trigger] es[j]).0@, es[j].1) implies after.contains(
                    visibility(es[j].0@, es[j].1),
                ) by {
                    if j < k {
                        let i = choose|i: int|
                            0 <= i < before.len() && before[i] == visibility(es[j].0@, es[j].1);
                        assert(after[i] == visibility(es[j].0@, es[j].1));
                    }
                }
            }
        }
        k += 1;
    }
    proof {
        let m1 = map_of(es);
        assert forall|m: MessageView| #[trigger] out.deep_view().contains(m) <==> (
        m matches MessageView::WidgetVisibility { widget_id, visible, prominence }
            && m1.dom().contains(widget_id) && m == visibility(widget_id, m1[widget_id]) && differs(
            pv,
            widget_id,
            m1[widget_id],
        )) by {
            if out.deep_view().contains(m) {
                let j = choose|j: int|
                    0 <= j < k && m == visibility((#[trigger] es[j]).0@, es[j].1) && differs(
                        pv,
                        es[j].0@,
                        es[j].1,
                    );
                assert(m1[es[j].0@] == es[j].1);
            }
            if m matches MessageView::WidgetVisibility { widget_id, visible, prominence }
                && m1.dom().contains(widget_id) && m == visibility(widget_id, m1[widget_id])
                && differs(pv, widget_id, m1[widget_id]) {
                let widget_id = m->WidgetVisibility_widget_id;
                let j = choose|j: int| 0 <= j < es.len() && (#[trigger] es[j]).0@ == widget_id;
                assert(m1[es[j].0@] == es[j].1);
            }
        }
    }
    out
}

/// The widgets that were published and are gone, as messages that hide them.
fn gone_widgets(prev: &Option<PublishedSnapshot>, cur: &TextMap<Prominence>) -> (r: Vec<
    ContextMessage,
>)
    ensures
        hides_gone(
            (match prev {
                Some(p) => Some(p.prominences@),
                None => None,
            }),
            cur@,
            r.deep_view(),
        ),
{
    let mut out: Vec<ContextMessage> = Vec::new();
    let snapshot = match prev {
        Some(s) => s,
        None => {
            assert(out.deep_view() =~= Seq::empty());
            return out;
        },
    };
    let entries = snapshot.prominences.entries();
    let ghost es = entries@;
    let mut k: usize = 0;
    proof {
        lemma_map_of(es);
        assert(out.deep_view() =~= Seq::empty());
    }
    while k < entries.len()
        invariant
            k <= es.len(),
            es == entries@,
            distinct_keys(es),
            out.deep_view().no_duplicates(),
            forall|m: MessageView|
                #[trigger] out.deep_view().contains(m) ==> exists|j: int|
                    0 <= j < k && m == visibility((#[trigger] es[j]).0@, Prominence::Hidden)
                        && !cur@.dom().contains(es[j].0@),
            forall|j: int|
                0 <= j < k && !cur@.dom().contains((#[trigger] es[j]).0@)
                    ==> out.deep_view().contains(visibility(es[j].0@, Prominence::Hidden)),
        decreases es.len() - k,
    {
        let ghost before = out.deep_view();
        let id = &entries[k].0;
        if !cur.contains_key(id) {
            let ghost m = visibility(id@, Prominence::Hidden);
            out.push(
                ContextMessage::WidgetVisibility {
                    widget_id: id.clone(),
                    visible: false,
                    prominence: Prominence::Hidden,
                },
            );
            proof {
                assert(out.deep_view() =~= before.push(m));
                assert(!before.contains(m)) by {
                    if before.contains(m) {
                        let j = choose|j: int|
                            0 <= j < k && m == visibility((#[trigger] es[j]).0@, Prominence::Hidden)
                                && !cur@.dom().contains(es[j].0@);
                        assert(es[j].0@ != es[k as int].0@);
                    }
                }
                let after = out.deep_view();
                assert(after[before.len() as int] == m);
                assert forall|x: MessageView| #[trigger] after.contains(x) implies exists|j: int|
                    0 <= j < k + 1 && x == visibility((#[trigger] es[j]).0@, Prominence::Hidden)
                        && !cur@.dom().contains(es[j].0@) by {
                    let i = choose|i: int| 0 <= i < after.len() && after[i] == x;
                    if i < before.len() {
                        assert(before[i] == x);
                        assert(before.contains(x));
                    } else {
                        assert(es[k as int].0@ == id@);
                    }
                }
                assert forall|j: int|
                    0 <= j < k + 1 && !cur@.dom().contains((#[trigger] es[j]).0@) implies after.contains(
                    visibility(es[j].0@, Prominence::Hidden),
                ) by {
                    if j < k {
                        let i = choose|i: int|
                            0 <= i < before.len() && before[i] == visibility(
                                es[j].0@,
                                Prominence::Hidden,
                            );
                        assert(after[i] == visibility(es[j].0@, Prominence::Hidden));
                    }
                }
            }
        }
        k += 1;
    }
    proof {
        let m0 = map_of(es);
        assert forall|m: MessageView| #[trigger] out.deep_view().contains(m) <==> (
        m matches MessageView::WidgetVisibility { widget_id, visible, prominence } && m
            == visibility(widget_id, Prominence::Hidden) && m0.dom().contains(widget_id)
            && !cur@.dom().contains(widget_id)) by {
            if out.deep_view().contains(m) {
                let j = choose|j: int|
                    0 <= j < k && m == visibility((#[trigger] es[j]).0@, Prominence::Hidden)
                        && !cur@.dom().contains(es[j].0@);
                assert(m0.dom().contains(es[j].0@));
            }
            if m matches MessageView::WidgetVisibility { widget_id, visible, prominence } && m
                == visibility(widget_id, Prominence::Hidden) && m0.dom().contains(widget_id)
                && !cur@.dom().contains(widget_id) {
                let widget_id = m->WidgetVisibility_widget_id;
                let j = choose|j: int| 0 <= j < es.len() && (#[trigger] es[j]).0@ == widget_id;
                assert(!cur@.dom().contains(es[j].0@));
            }
        }
    }
    out
}

fn append_messages(out: &mut Vec<ContextMessage>, more: Vec<ContextMessage>)
    ensures
        final(out).deep_view() == old(out).deep_view() + more.deep_view(),
{
    let ghost before = out.deep_view();
    let ghost mv = more.deep_view();
    let mut more = more;
    out.append(&mut more);
    assert(out.deep_view() =~= before + mv);
}

// ---------------------------------------------------------------------------
// Signals and profiles
// ---------------------------------------------------------------------------

/// The density mode that a request comes to: `cycle` goes on from the current
/// one, anything else stands for itself.
pub open spec fn resolved_density(
    signals: Map<Seq<char>, SignalView>,
    mode: Seq<char>,
) -> Seq<char> {
    if mode == "cycle"@ {
        let current = if signals.dom().contains("bar.density"@) && signals["bar.density"@] is Text {
            signals["bar.density"@]->Text_0
        } else {
            "full"@
        };
        if current == "full"@ {
            "compact"@
        } else if current == "compact"@ {
            "hidden"@
        } else {
            "full"@
        }
    } else {
        mode
    }
}

/// The density that a mode stands for.
pub open spec fn density_of(mode: Seq<char>) -> BarDensity {
    if mode == "compact"@ {
        BarDensity::Compact
    } else if mode == "hidden"@ {
        BarDensity::Hidden
    } else {
        BarDensity::Full
    }
}

/// What an event does to the signals.
pub open spec fn signals_after(
    signals: Map<Seq<char>, SignalView>,
    e: EventView,
) -> Map<Seq<char>, SignalView> {
    match e {
        EventView::BarDensityRequested { mode } => signals.insert(
            "bar.density"@,
            SignalView::Text(resolved_density(signals, mode)),
        ),
        EventView::FocusSessionStarted { kind, project, planned_secs } => signals.insert(
            "focus_session.active"@,
            SignalView::Flag(true),
        ).insert("focus_session.on_break"@, SignalView::Flag(kind == "break"@)).insert(
            "focus_session.kind"@,
            SignalView::Text(kind),
        ),
        EventView::FocusSessionEnded { kind, project, actual_secs } => signals.insert(
            "focus_session.active"@,
            SignalView::Flag(false),
        ).insert("focus_session.on_break"@, SignalView::Flag(false)).insert(
            "focus_session.kind"@,
            SignalView::Text("idle"@),
        ),
        _ => mirrored(signals, e),
    }
}

/// What the shell is told at once of an event.
pub open spec fn told_at_once(
    signals: Map<Seq<char>, SignalView>,
    e: EventView,
) -> Seq<MessageView> {
    match e {
        EventView::BarDensityRequested { mode } => seq![
            MessageView::BarDensityState { mode: density_of(resolved_density(signals, mode)) },
        ],
        _ => Seq::empty(),
    }
}

/// The profile names in the order of cycling.
pub open spec fn cycle_order(names: Seq<Seq<char>>) -> Seq<Seq<char>> {
    sort(names, |a: Seq<char>, b: Seq<char>| lex_le(a, b))
}

/// The profile that follows in the order of cycling: the first where none is
/// active, or the active one is unknown.
pub open spec fn next_profile(names: Seq<Seq<char>>, active: Option<Seq<char>>) -> Seq<char> {
    let order = cycle_order(names);
    match active {
        None => order[0],
        Some(current) => {
            let i = match first_where(order, |n: Seq<char>| n == current) {
                Some(i) => i,
                None => order.len() - 1,
            };
            order[(i + 1) % (order.len() as int)]
        },
    }
}

/// The active profile after an action.
pub open spec fn profile_after(
    names: Seq<Seq<char>>,
    active: Option<Seq<char>>,
    action: Seq<char>,
    name: Option<Seq<char>>,
) -> Option<Seq<char>> {
    if action == "activate"@ {
        if name is Some && names.contains(name->0) {
            name
        } else {
            active
        }
    } else if action == "deactivate"@ {
        if name is None || name == active {
            None
        } else {
            active
        }
    } else if action == "cycle"@ {
        if names.len() == 0 {
            active
        } else {
            Some(next_profile(names, active))
        }
    } else {
        active
    }
}

/// The state of the driver. `profiles` holds the names of the profiles.
pub struct ContextEngineModule {
    pub widgets: Vec<WidgetDef>,
    pub profiles: Vec<String>,
    pub active_profile: Option<String>,
    pub signals: Signals,
    pub last_published: Option<PublishedSnapshot>,
    pub available_width: u32,
    pub inter_widget_gap: u32,
}

impl ContextEngineModule {
    /// The layout that was published last.
    pub open spec fn published_layout(&self) -> Option<LayoutView> {
        match self.last_published {
            Some(p) => Some(p.layout.deep_view()),
            None => None,
        }
    }

    /// The prominences that were published last.
    pub open spec fn published(&self) -> Option<Map<Seq<char>, Prominence>> {
        match self.last_published {
            Some(p) => Some(p.prominences@),
            None => None,
        }
    }

    pub fn new() -> (r: Self)
        ensures
            r.widgets@.len() == 0,
            r.profiles@.len() == 0,
            r.active_profile is None,
            r.signals@ == Map::<Seq<char>, SignalView>::empty(),
            r.last_published is None,
            r.available_width == DEFAULT_AVAILABLE_WIDTH,
            r.inter_widget_gap == DEFAULT_INTER_WIDGET_GAP,
    {
        ContextEngineModule {
            widgets: Vec::new(),
            profiles: Vec::new(),
            active_profile: None,
            signals: Signals::new(),
            last_published: None,
            available_width: DEFAULT_AVAILABLE_WIDTH,
            inter_widget_gap: DEFAULT_INTER_WIDGET_GAP,
        }
    }

    pub fn with_widgets(self, widgets: Vec<WidgetDef>) -> (r: Self)
        ensures
            r == (ContextEngineModule { widgets, ..self }),
    {
        let mut out = self;
        out.widgets = widgets;
        out
    }

    pub fn with_profiles(self, profiles: Vec<String>) -> (r: Self)
        ensures
            r == (ContextEngineModule { profiles, ..self }),
    {
        let mut out = self;
        out.profiles = profiles;
        out
    }

    pub fn with_available_width(self, width: u32) -> (r: Self)
        ensures
            r == (ContextEngineModule { available_width: width, ..self }),
    {
        let mut out = self;
        out.available_width = width;
        out
    }

    /// Makes a profile the active one. Whether it exists is not looked at.
    pub fn with_active_profile(self, name: String) -> (r: Self)
        ensures
            r == (ContextEngineModule { active_profile: Some(name), ..self }),
    {
        let mut out = self;
        out.active_profile = Some(name);
        out
    }

    /// The active profile, where a profile of that name exists.
    pub fn active_profile_snapshot(&self) -> (r: Option<usize>)
        ensures
            r is Some <==> self.active_profile is Some && self.profiles.deep_view().contains(
                self.active_profile->0@,
            ),
            r is Some ==> r->0 < self.profiles@.len() && first_where(
                self.profiles.deep_view(),
                |n: Seq<char>| n == self.active_profile->0@,
            ) == Some(r->0 as int),
    {
        let name = match &self.active_profile {
            Some(n) => n,
            None => {
                return None;
            },
        };
        let ghost names = self.profiles.deep_view();
        let ghost p = |n: Seq<char>| n == name@;
        let mut i: usize = 0;
        while i < self.profiles.len()
            invariant
                i <= self.profiles@.len(),
                names == self.profiles.deep_view(),
                self.active_profile == Some(*name),
                p == (|n: Seq<char>| n == name@),
                forall|k: int| 0 <= k < i ==> !p(#[trigger] names[k]),
            decreases self.profiles@.len() - i,
        {
            if text::same(&self.profiles[i], name) {
                proof {
                    assert(names[i as int] == name@);
                    lemma_first_where_is(names, p, i as int);
                }
                return Some(i);
            }
            i += 1;
        }
        None
    }

    /// Publishes a resolved layout: the messages for the shell. `committed`
    /// holds the prominence of each widget.
    pub fn publish_layout(&mut self, layout: BarLayout, committed: TextMap<Prominence>) -> (r: Vec<
        ContextMessage,
    >)
        ensures
            is_delta(
                old(self).published_layout(),
                old(self).published(),
                layout.deep_view(),
                committed@,
                r.deep_view(),
            ),
            final(self).published_layout() == Some(layout.deep_view()),
            final(self).published() == Some(committed@),
            final(self).widgets == old(self).widgets,
            final(self).profiles == old(self).profiles,
            final(self).active_profile == old(self).active_profile,
            final(self).signals == old(self).signals,
            final(self).available_width == old(self).available_width,
            final(self).inter_widget_gap == old(self).inter_widget_gap,
    {
        let mut out: Vec<ContextMessage> = Vec::new();
        let unchanged = match &self.last_published {
            Some(p) => same_layout(&p.layout, &layout),
            None => false,
        };
        if !unchanged {
            out.push(ContextMessage::BarLayout(clone_layout(&layout)));
        }
        assert(out.deep_view() =~= layout_part(self.published_layout(), layout.deep_view()));
        let shown = changed_widgets(&self.last_published, &committed);
        let hidden = gone_widgets(&self.last_published, &committed);
        let ghost sv = shown.deep_view();
        let ghost hv = hidden.deep_view();
        append_messages(&mut out, shown);
        append_messages(&mut out, hidden);
        proof {
            assert(shows_changes(self.published(), committed@, sv));
            assert(hides_gone(self.published(), committed@, hv));
        }
        self.last_published = Some(PublishedSnapshot { layout, prominences: committed });
        out
    }

    /// Carries out a profile action.
    pub fn apply_profile_action(&mut self, action: &str, name: &Option<String>)
        ensures
            final(self).active_profile.deep_view() == profile_after(
                old(self).profiles.deep_view(),
                old(self).active_profile.deep_view(),
                action@,
                name.deep_view(),
            ),
            final(self).signals == old(self).signals,
            final(self).profiles == old(self).profiles,
            final(self).widgets == old(self).widgets,
            final(self).last_published == old(self).last_published,
            final(self).available_width == old(self).available_width,
            final(self).inter_widget_gap == old(self).inter_widget_gap,
    {
        if text::same(action, "activate") {
            match name {
                Some(target) => {
                    if text::strings_contain(&self.profiles, target) {
                        self.active_profile = Some(target.clone());
                    }
                },
                None => {},
            }
        } else if text::same(action, "deactivate") {
            match name {
                Some(target) => {
                    let matches_active = match &self.active_profile {
                        Some(active) => text::same(active, target),
                        None => false,
                    };
                    if matches_active {
                        self.active_profile = None;
                    }
                },
                None => {
                    self.active_profile = None;
                },
            }
        } else if text::same(action, "cycle") {
            if self.profiles.len() > 0 {
                let next = cycle_next(&self.profiles, &self.active_profile);
                self.active_profile = Some(next);
            }
        }
    }

    /// Folds an event into the state. What the shell is told at once.
    pub fn apply_event(&mut self, event: &Event) -> (r: Vec<ContextMessage>)
        ensures
            final(self).signals@ == signals_after(old(self).signals@, event.deep_view()),
            final(self).active_profile.deep_view() == (match event.deep_view() {
                EventView::ProfileActionRequested { action, name } => profile_after(
                    old(self).profiles.deep_view(),
                    old(self).active_profile.deep_view(),
                    action,
                    name,
                ),
                _ => old(self).active_profile.deep_view(),
            }),
            r.deep_view() == told_at_once(old(self).signals@, event.deep_view()),
            final(self).profiles == old(self).profiles,
            final(self).widgets == old(self).widgets,
            final(self).last_published == old(self).last_published,
            final(self).available_width == old(self).available_width,
            final(self).inter_widget_gap == old(self).inter_widget_gap,
    {
        let mut out: Vec<ContextMessage> = Vec::new();
        let ghost s0 = self.signals@;
        match event {
            Event::BarDensityRequested { mode } => {
                let resolved: String = if text::same(mode, "cycle") {
                    let current = match self.signals.get_text("bar.density") {
                        Some(t) => t,
                        None => "full",
                    };
                    if text::same(current, "full") {
                        text::owned("compact")
                    } else if text::same(current, "compact") {
                        text::owned("hidden")
                    } else {
                        text::owned("full")
                    }
                } else {
                    mode.clone()
                };
                self.signals.set_text("bar.density", &resolved);
                let density = if text::same(&resolved, "compact") {
                    BarDensity::Compact
                } else if text::same(&resolved, "hidden") {
                    BarDensity::Hidden
                } else {
                    BarDensity::Full
                };
                out.push(ContextMessage::BarDensityState { mode: density });
            },
            Event::ProfileActionRequested { action, name } => {
                self.apply_profile_action(action, name);
            },
            Event::FocusSessionStarted { kind, project: _, planned_secs: _ } => {
                self.signals.set_flag("focus_session.active", true);
                self.signals.set_flag("focus_session.on_break", text::same(kind, "break"));
                self.signals.set_text("focus_session.kind", kind);
            },
            Event::FocusSessionEnded { kind: _, project: _, actual_secs: _ } => {
                self.signals.set_flag("focus_session.active", false);
                self.signals.set_flag("focus_session.on_break", false);
                self.signals.set_text("focus_session.kind", "idle");
            },
            _ => {
                mirror_event(&mut self.signals, event);
            },
        }
        assert(out.deep_view() =~= told_at_once(s0, event.deep_view()));
        out
    }

    /// The kinds of event that the module listens to.
    pub fn subscribed_events(&self) -> (r: Vec<EventKind>)
        ensures
            r@ == seq![
                EventKind::WorkspaceChanged,
                EventKind::WindowFocused,
                EventKind::PowerStateChanged,
                EventKind::BarDensityRequested,
                EventKind::ProfileActionRequested,
                EventKind::FocusSessionStarted,
                EventKind::FocusSessionEnded,
            ],
    {
        let r: Vec<EventKind> = vec![
            EventKind::WorkspaceChanged,
            EventKind::WindowFocused,
            EventKind::PowerStateChanged,
            EventKind::BarDensityRequested,
            EventKind::ProfileActionRequested,
            EventKind::FocusSessionStarted,
            EventKind::FocusSessionEnded,
        ];
        assert(r@ =~= seq![
            EventKind::WorkspaceChanged,
            EventKind::WindowFocused,
            EventKind::PowerStateChanged,
            EventKind::BarDensityRequested,
            EventKind::ProfileActionRequested,
            EventKind::FocusSessionStarted,
            EventKind::FocusSessionEnded,
        ]);
        r
    }
}

/// The profile that follows in the order of cycling.
fn cycle_next(profiles: &Vec<String>, active: &Option<String>) -> (r: String)
    requires
        profiles@.len() > 0,
    ensures
        r@ == next_profile(profiles.deep_view(), active.deep_view()),
{
    let names = text::clone_strings(profiles);
    let ghost all = names@;
    let ghost key = |s: String| s@;
    let ghost rel = |a: Seq<char>, b: Seq<char>| lex_le(a, b);
    let le = |a: &String, b: &String| -> (o: bool)
        ensures
            o == lex_le(a@, b@),
    {
        let after = str_lt(b, a);
        !after
    };
    let sorted = sort_by::<String, Seq<char>, _>(names, le, Ghost(key), Ghost(rel));
    let ghost order = cycle_order(profiles.deep_view());
    proof {
        assert(all.map_values(key) =~= profiles.deep_view());
        assert(sorted@.map_values(key) =~= sorted.deep_view());
        assert(sorted.deep_view() == order);
        crate::order::lemma_sort_len(profiles.deep_view(), rel);
    }
    match active {
        None => {
            let first = sorted[0].clone();
            assert(sorted.deep_view()[0] == first@);
            first
        },
        Some(current) => {
            let ghost wanted = current@;
            let ghost p = |n: Seq<char>| n == wanted;
            let mut i: usize = 0;
            while i < sorted.len() && !text::same(&sorted[i], current)
                invariant
                    i <= sorted@.len(),
                    order == sorted.deep_view(),
                    wanted == current@,
                    p == (|n: Seq<char>| n == wanted),
                    forall|k: int| 0 <= k < i ==> !p(#[trigger] order[k]),
                decreases sorted@.len() - i,
            {
                assert(order[i as int] == sorted@[i as int]@);
                i += 1;
            }
            let at: usize = if i < sorted.len() {
                proof {
                    assert(order[i as int] == sorted@[i as int]@);
                    lemma_first_where_is(order, p, i as int);
                }
                i
            } else {
                proof {
                    lemma_first_where_none(order, p);
                }
                sorted.len() - 1
            };
            let next: usize = if at + 1 == sorted.len() {
                0
            } else {
                at + 1
            };
            proof {
                assert(next as int == (at + 1) % (order.len() as int)) by {
                    if at + 1 == sorted@.len() {
                        vstd::arithmetic::div_mod::lemma_mod_self_0(order.len() as int);
                    } else {
                        vstd::arithmetic::div_mod::lemma_small_mod(
                            (at + 1) as nat,
                            order.len() as nat,
                        );
                    }
                }
            }
            let name = sorted[next].clone();
            proof {
                assert(order[next as int] == name@);
                assert(next_profile(profiles.deep_view(), Some(wanted)) == order[(at + 1) % (
                order.len() as int)]);
            }
            name
        },
    }
}

/// A monitor: whether it is on, and its width in pixels.
#[derive(Debug, Clone, Copy, PartialEq, Eq, Structural)]
pub struct Output {
    pub active: bool,
    pub width: i32,
}

/// The width of the widest active output, where it is above zero.
pub fn primary_output_width(outputs: &[Output]) -> (r: Option<u32>)
    ensures
        r is Some ==> r->0 > 0 && exists|i: int|
            0 <= i < outputs@.len() && (#[trigger] outputs@[i]).active && outputs@[i].width == r->0,
        r is Some ==> forall|i: int|
            0 <= i < outputs@.len() && (#[trigger] outputs@[i]).active ==> outputs@[i].width <= r->0,
        r is None ==> forall|i: int|
            0 <= i < outputs@.len() && (#[trigger] outputs@[i]).active ==> outputs@[i].width <= 0,
{
    let mut best: u32 = 0;
    let mut i: usize = 0;
    while i < outputs.len()
        invariant
            i <= outputs@.len(),
            forall|k: int|
                0 <= k < i && (#[trigger] outputs@[k]).active ==> outputs@[k].width <= best,
            best > 0 ==> exists|k: int|
                0 <= k < i && (#[trigger] outputs@[k]).active && outputs@[k].width == best,
        decreases outputs@.len() - i,
    {
        let o = outputs[i];
        if o.active && o.width > 0 && o.width as u32 > best {
            best = o.width as u32;
            assert(outputs@[i as int].active && outputs@[i as int].width == best);
        }
        i += 1;
    }
    if best > 0 {
        Some(best)
    } else {
        None
    }
}

// ---------------------------------------------------------------------------
// Laws
// ---------------------------------------------------------------------------

/// Publishing the same layout again says nothing.
pub proof fn law_unchanged_layout_is_silent(
    layout: LayoutView,
    cur: Map<Seq<char>, Prominence>,
    msgs: Seq<MessageView>,
)
    requires
        is_delta(Some(layout), Some(cur), layout, cur, msgs),
    ensures
        msgs.len() == 0,
{
    let (shown, hidden) = choose|shown: Seq<MessageView>, hidden: Seq<MessageView>|
        #![trigger shows_changes(Some(cur), cur, shown), hides_gone(Some(cur), cur, hidden)]
        msgs == layout_part(Some(layout), layout) + shown + hidden && shows_changes(
            Some(cur),
            cur,
            shown,
        ) && hides_gone(Some(cur), cur, hidden);
    if shown.len() > 0 {
        assert(shown.contains(shown[0]));
    }
    if hidden.len() > 0 {
        assert(hidden.contains(hidden[0]));
    }
}

/// What the shell shows of a widget: one that it was never told of is hidden.
pub open spec fn shell_shows(state: Map<Seq<char>, Prominence>, id: Seq<char>) -> Prominence {
    if state.dom().contains(id) {
        state[id]
    } else {
        Prominence::Hidden
    }
}

/// The messages bring the shell up to date: a widget either keeps its prominence,
/// or a message gives the new one; and no message says anything else.
pub proof fn law_messages_bring_the_shell_up_to_date(
    layout: LayoutView,
    new_layout: LayoutView,
    prev: Map<Seq<char>, Prominence>,
    cur: Map<Seq<char>, Prominence>,
    msgs: Seq<MessageView>,
    id: Seq<char>,
)
    requires
        is_delta(Some(layout), Some(prev), new_layout, cur, msgs),
    ensures
        shell_shows(prev, id) == shell_shows(cur, id) || msgs.contains(
            visibility(id, shell_shows(cur, id)),
        ),
        forall|p: Prominence, v: bool|
            #[trigger] msgs.contains(
                MessageView::WidgetVisibility { widget_id: id, visible: v, prominence: p },
            ) ==> p == shell_shows(cur, id) && v == (p != Prominence::Hidden),
        layout != new_layout ==> msgs.contains(MessageView::BarLayout(new_layout)),
{
    let (shown, hidden) = choose|shown: Seq<MessageView>, hidden: Seq<MessageView>|
        #![trigger shows_changes(Some(prev), cur, shown), hides_gone(Some(prev), cur, hidden)]
        msgs == layout_part(Some(layout), new_layout) + shown + hidden && shows_changes(
            Some(prev),
            cur,
            shown,
        ) && hides_gone(Some(prev), cur, hidden);
    let head = layout_part(Some(layout), new_layout);
    if shell_shows(prev, id) != shell_shows(cur, id) {
        let m = visibility(id, shell_shows(cur, id));
        if cur.dom().contains(id) {
            assert(shown.contains(m));
            let k = choose|k: int| 0 <= k < shown.len() && shown[k] == m;
            assert(msgs[head.len() + k] == m);
        } else {
            assert(hidden.contains(m));
            let k = choose|k: int| 0 <= k < hidden.len() && hidden[k] == m;
            assert(msgs[head.len() + shown.len() + k] == m);
        }
    }
    assert forall|p: Prominence, v: bool|
        #[trigger] msgs.contains(
            MessageView::WidgetVisibility { widget_id: id, visible: v, prominence: p },
        ) implies p == shell_shows(cur, id) && v == (p != Prominence::Hidden) by {
        let m = MessageView::WidgetVisibility { widget_id: id, visible: v, prominence: p };
        let k = choose|k: int| 0 <= k < msgs.len() && msgs[k] == m;
        if k < head.len() {
            assert(head[k] == m);
        } else if k < head.len() + shown.len() {
            assert(shown[k - head.len()] == m);
            assert(shown.contains(m));
        } else {
            assert(hidden[k - head.len() - shown.len()] == m);
            assert(hidden.contains(m));
        }
    }
    if layout != new_layout {
        assert(msgs[0] == MessageView::BarLayout(new_layout));
    }
}

/// The order of cycling holds every profile, each once.
proof fn lemma_cycle_order(names: Seq<Seq<char>>)
    requires
        names.no_duplicates(),
    ensures
        cycle_order(names).len() == names.len(),
        cycle_order(names).no_duplicates(),
        forall|x: Seq<char>| #[trigger] cycle_order(names).contains(x) <==> names.contains(x),
{
    broadcast use vstd::seq_lib::group_to_multiset_ensures;

    let le = |a: Seq<char>, b: Seq<char>| lex_le(a, b);
    let order = cycle_order(names);
    assert(total_order(le)) by {
        assert forall|a: Seq<char>, b: Seq<char>| #[trigger] le(a, b) || le(b, a) by {
            lemma_lex_total(a, b);
        }
        assert forall|a: Seq<char>, b: Seq<char>, c: Seq<char>| #[trigger]
            le(a, b) && #[trigger] le(b, c) implies le(a, c) by {
            lemma_lex_trans(a, b, c);
        }
    }
    lemma_sort(names, le);
    names.lemma_multiset_has_no_duplicates();
    order.lemma_multiset_has_no_duplicates_conv();
    assert forall|x: Seq<char>| #[trigger] order.contains(x) <==> names.contains(x) by {
        assert(order.to_multiset().count(x) == names.to_multiset().count(x));
    }
}

/// The profile after the one at `i` in the order of cycling.
proof fn lemma_next_profile(names: Seq<Seq<char>>, i: int)
    requires
        0 <= i < names.len(),
        names.no_duplicates(),
    ensures
        next_profile(names, Some(cycle_order(names)[i])) == cycle_order(names)[(i + 1)
            % (names.len() as int)],
{
    let order = cycle_order(names);
    lemma_cycle_order(names);
    let current = order[i];
    let p = |n: Seq<char>| n == current;
    lemma_first_where_is(order, p, i);
}

/// The active profile after `n` actions that ask for the next one.
pub open spec fn cycled(names: Seq<Seq<char>>, active: Option<Seq<char>>, n: nat) -> Option<
    Seq<char>,
>
    decreases n,
{
    if n == 0 {
        active
    } else {
        profile_after(names, cycled(names, active, (n - 1) as nat), "cycle"@, None)
    }
}

/// Where cycling goes first: the first profile where none is active or the active
/// one is unknown, else the one after it.
proof fn lemma_first_cycled(names: Seq<Seq<char>>, active: Option<Seq<char>>) -> (start: int)
    requires
        names.len() > 0,
        names.no_duplicates(),
    ensures
        0 <= start < names.len(),
        cycled(names, active, 1) == Some(cycle_order(names)[start]),
        active is Some && names.contains(active->0) ==> exists|i: int|
            0 <= i < names.len() && #[trigger] cycle_order(names)[i] == active->0 && start == (i + 1)
                % (names.len() as int),
{
    reveal_strlit("activate");
    reveal_strlit("deactivate");
    reveal_strlit("cycle");
    assert("cycle"@.len() != "activate"@.len());
    assert("cycle"@.len() != "deactivate"@.len());
    let order = cycle_order(names);
    lemma_cycle_order(names);
    assert(cycled(names, active, 0) == active);
    match active {
        None => 0,
        Some(current) => {
            let p = |n: Seq<char>| n == current;
            if order.contains(current) {
                let i = choose|i: int| 0 <= i < order.len() && order[i] == current;
                lemma_next_profile(names, i);
                assert(order[i] == current);
                (i + 1) % (names.len() as int)
            } else {
                assert forall|k: int| 0 <= k < order.len() implies !p(#[trigger] order[k]) by {
                    if p(order[k]) {
                        assert(order.contains(current));
                    }
                }
                lemma_first_where_none(order, p);
                vstd::arithmetic::div_mod::lemma_mod_self_0(order.len() as int);
                0
            }
        },
    }
}

proof fn lemma_cycled(names: Seq<Seq<char>>, active: Option<Seq<char>>, start: int, n: nat)
    requires
        0 <= start < names.len(),
        names.no_duplicates(),
        cycled(names, active, 1) == Some(cycle_order(names)[start]),
        n >= 1,
    ensures
        cycled(names, active, n) == Some(
            cycle_order(names)[(start + (n - 1)) % (names.len() as int)],
        ),
    decreases n,
{
    let len = names.len() as int;
    if n == 1 {
        vstd::arithmetic::div_mod::lemma_small_mod(start as nat, names.len());
    } else {
        reveal_strlit("activate");
        reveal_strlit("deactivate");
        reveal_strlit("cycle");
        assert("cycle"@.len() != "activate"@.len());
        assert("cycle"@.len() != "deactivate"@.len());
        lemma_cycled(names, active, start, (n - 1) as nat);
        let i = (start + (n - 2)) % len;
        vstd::arithmetic::div_mod::lemma_mod_bound(start + (n - 2), len);
        lemma_next_profile(names, i);
        vstd::arithmetic::div_mod::lemma_add_mod_noop(start + (n - 2), 1, len);
        vstd::arithmetic::div_mod::lemma_add_mod_noop(i, 1, len);
        vstd::arithmetic::div_mod::lemma_mod_twice(start + (n - 2), len);
        assert((i + 1) % len == (start + (n - 1)) % len);
    }
}

/// The place in the order of cycling that the `k`-th step leads to, where the first
/// leads to `start`.
spec fn step_place(start: int, k: int, len: int) -> int {
    if start + (k - 1) < len {
        start + (k - 1)
    } else {
        start + (k - 1) - len
    }
}

proof fn lemma_cycled_place(names: Seq<Seq<char>>, active: Option<Seq<char>>, start: int, k: nat)
    requires
        0 <= start < names.len(),
        names.no_duplicates(),
        cycled(names, active, 1) == Some(cycle_order(names)[start]),
        1 <= k <= names.len(),
    ensures
        cycled(names, active, k) == Some(
            cycle_order(names)[step_place(start, k as int, names.len() as int)],
        ),
{
    let len = names.len() as int;
    lemma_cycled(names, active, start, k);
    if start + (k - 1) < len {
        vstd::arithmetic::div_mod::lemma_small_mod((start + (k - 1)) as nat, names.len());
    } else {
        vstd::arithmetic::div_mod::lemma_mod_sub_multiples_vanish(start + (k - 1), len);
        vstd::arithmetic::div_mod::lemma_small_mod((start + (k - 1) - len) as nat, names.len());
    }
}

proof fn lemma_next_place(names: Seq<Seq<char>>, i: int)
    requires
        0 <= i < names.len(),
        names.no_duplicates(),
    ensures
        next_profile(names, Some(cycle_order(names)[i])) == cycle_order(names)[if i + 1
            == names.len() {
            0
        } else {
            i + 1
        }],
{
    lemma_next_profile(names, i);
    if i + 1 == names.len() {
        vstd::arithmetic::div_mod::lemma_mod_self_0(names.len() as int);
    } else {
        vstd::arithmetic::div_mod::lemma_small_mod((i + 1) as nat, names.len());
    }
}

proof fn lemma_back_again(names: Seq<Seq<char>>, active: Option<Seq<char>>, start: int)
    requires
        names.len() > 0,
        names.no_duplicates(),
        0 <= start < names.len(),
        cycled(names, active, 1) == Some(cycle_order(names)[start]),
        exists|i: int|
            0 <= i < names.len() && #[trigger] cycle_order(names)[i] == active->0 && start == (i + 1)
                % (names.len() as int),
        active is Some,
    ensures
        cycled(names, active, names.len()) == active,
{
    let order = cycle_order(names);
    let len = names.len() as int;
    let i = choose|i: int|
        0 <= i < names.len() && #[trigger] order[i] == active->0 && start == (i + 1) % len;
    if i + 1 == len {
        vstd::arithmetic::div_mod::lemma_mod_self_0(len);
    } else {
        vstd::arithmetic::div_mod::lemma_small_mod((i + 1) as nat, names.len());
    }
    lemma_cycled_place(names, active, start, names.len());
}

/// Cycling goes through the profiles in order, and from the last one back to the
/// first. As many steps as there are profiles make every profile the active one,
/// each once, from wherever they start; and they lead back to a profile that was
/// active at first.
pub proof fn law_cycling_goes_round(names: Seq<Seq<char>>, active: Option<Seq<char>>)
    requires
        names.len() > 0,
        names.no_duplicates(),
    ensures
        forall|i: int|
            0 <= i < names.len() ==> next_profile(
                names,
                Some(#[trigger] cycle_order(names)[i]),
            ) == cycle_order(names)[if i + 1 == names.len() {
                0
            } else {
                i + 1
            }],
        forall|k: nat|
            1 <= k <= names.len() ==> (#[trigger] cycled(names, active, k) is Some)
                && names.contains(cycled(names, active, k)->0),
        forall|j: nat, k: nat|
            1 <= j < k <= names.len() ==> #[trigger] cycled(names, active, j) != #[trigger] cycled(
                names,
                active,
                k,
            ),
        forall|x: Seq<char>|
            names.contains(x) ==> exists|k: nat|
                1 <= k <= names.len() && #[trigger] cycled(names, active, k) == Some(x),
        active is Some && names.contains(active->0) ==> cycled(names, active, names.len())
            == active,
{
    let order = cycle_order(names);
    let len = names.len() as int;
    lemma_cycle_order(names);
    assert forall|i: int| 0 <= i < names.len() implies next_profile(
        names,
        Some(#[trigger] order[i]),
    ) == order[if i + 1 == names.len() {
        0
    } else {
        i + 1
    }] by {
        lemma_next_place(names, i);
    }
    let start = lemma_first_cycled(names, active);
    assert forall|k: nat| 1 <= k <= names.len() implies (#[trigger] cycled(names, active, k) is Some)
        && names.contains(cycled(names, active, k)->0) by {
        lemma_cycled_place(names, active, start, k);
        assert(order.contains(order[step_place(start, k as int, len)]));
    }
    assert forall|j: nat, k: nat| 1 <= j < k <= names.len() implies #[trigger] cycled(
        names,
        active,
        j,
    ) != #[trigger] cycled(names, active, k) by {
        lemma_cycled_place(names, active, start, j);
        lemma_cycled_place(names, active, start, k);
        assert(order[step_place(start, j as int, len)] != order[step_place(start, k as int, len)]);
    }
    assert forall|x: Seq<char>| names.contains(x) implies exists|k: nat|
        1 <= k <= names.len() && #[trigger] cycled(names, active, k) == Some(x) by {
        assert(order.contains(x));
        let i = choose|i: int| 0 <= i < order.len() && order[i] == x;
        let k: nat = if i >= start {
            (i - start + 1) as nat
        } else {
            (i - start + 1 + len) as nat
        };
        lemma_cycled_place(names, active, start, k);
        assert(step_place(start, k as int, len) == i);
    }
    if active is Some && names.contains(active->0) {
        lemma_back_again(names, active, start);
    }
}

/// An activation that names no profile, and a deactivation that names another
/// than the active one, change nothing.
pub proof fn law_foreign_profile_actions_are_ignored(
    names: Seq<Seq<char>>,
    active: Option<Seq<char>>,
    name: Seq<char>,
)
    ensures
        !names.contains(name) ==> profile_after(names, active, "activate"@, Some(name)) == active,
        active != Some(name) ==> profile_after(names, active, "deactivate"@, Some(name)) == active,
{
    reveal_strlit("activate");
    reveal_strlit("deactivate");
    assert("activate"@.len() != "deactivate"@.len());
}

/// A focus session that ends leaves the signals of an idle desktop, whatever
/// went before.
pub proof fn law_ended_session_is_idle(
    signals: Map<Seq<char>, SignalView>,
    kind: Seq<char>,
    project: Option<Seq<char>>,
    actual_secs: u64,
)
    ensures
        ({
            let s = signals_after(
                signals,
                EventView::FocusSessionEnded { kind, project, actual_secs },
            );
            s["focus_session.active"@] == SignalView::Flag(false) && s["focus_session.on_break"@]
                == SignalView::Flag(false) && s["focus_session.kind"@] == SignalView::Text("idle"@)
        }),
{
    reveal_strlit("focus_session.active");
    reveal_strlit("focus_session.on_break");
    reveal_strlit("focus_session.kind");
    assert("focus_session.active"@.len() != "focus_session.on_break"@.len());
    assert("focus_session.active"@.len() != "focus_session.kind"@.len());
    assert("focus_session.kind"@.len() != "focus_session.on_break"@.len());
}

/// What an action does to the active profile: a known one is activated, the named one or
/// any is given up, the next one in the order of the names is taken, and nothing else
/// happens.
pub proof fn law_profile_actions(
    names: Seq<Seq<char>>,
    active: Option<Seq<char>>,
    action: Seq<char>,
    name: Option<Seq<char>>,
)
    ensures
        action == "activate"@ ==> profile_after(names, active, action, name) == (if name is Some
            && names.contains(name->0) {
            name
        } else {
            active
        }),
        action == "deactivate"@ ==> profile_after(names, active, action, name) == (if name is None
            || name == active {
            None
        } else {
            active
        }),
        action == "cycle"@ && names.len() == 0 ==> profile_after(names, active, action, name)
            == active,
        action == "cycle"@ && names.len() > 0 ==> profile_after(names, active, action, name) is Some,
        action != "activate"@ && action != "deactivate"@ && action != "cycle"@ ==> profile_after(
            names,
            active,
            action,
            name,
        ) == active,
{
    reveal_strlit("activate");
    reveal_strlit("deactivate");
    reveal_strlit("cycle");
    assert("activate"@.len() == 8 && "deactivate"@.len() == 10 && "cycle"@.len() == 5);
}

/// Cycling goes through the names in their order as texts, from the first where no profile
/// is active or the active one is not known.
pub proof fn law_cycling_goes_by_name(names: Seq<Seq<char>>, active: Option<Seq<char>>)
    requires
        names.len() > 0,
    ensures
        ({
            let order = cycle_order(names);
            &&& order.to_multiset() == names.to_multiset()
            &&& order.len() == names.len()
            &&& forall|i: int, j: int|
                0 <= i < j < order.len() ==> !lex_lt(#[trigger] order[j], #[trigger] order[i])
            &&& active is None || !names.contains(active->0) ==> next_profile(names, active)
                == order[0]
        }),
{
    broadcast use vstd::seq_lib::group_to_multiset_ensures;

    let le = |a: Seq<char>, b: Seq<char>| lex_le(a, b);
    let order = cycle_order(names);
    assert forall|a: Seq<char>, b: Seq<char>| #[trigger] le(a, b) || le(b, a) by {
        lemma_lex_total(a, b);
    }
    assert forall|a: Seq<char>, b: Seq<char>, c: Seq<char>| #[trigger]
        le(a, b) && #[trigger] le(b, c) implies le(a, c) by {
        lemma_lex_trans(a, b, c);
    }
    law_sorting(names, le);
    assert forall|i: int, j: int| 0 <= i < j < order.len() implies !lex_lt(
        #[trigger] order[j],
        #[trigger] order[i],
    ) by {
        assert(le(order[i], order[j]));
    }
    if active is Some && !names.contains(active->0) {
        let current = active->0;
        let p = |n: Seq<char>| n == current;
        lemma_first_where(order, p);
        if first_where(order, p) is Some {
            let i = first_where(order, p)->0;
            assert(order.contains(current));
            assert(order.to_multiset().count(current) > 0);
        }
        assert(first_where(order, p) is None);
        assert((order.len() - 1 + 1) % (order.len() as int) == 0) by (nonlinear_arith)
            requires
                order.len() > 0,
        ;
    }
}

/// The density that is asked for is taken and told. `cycle` asks for the next one: compact
/// after full, hidden after compact, and full after any other. Without one it is full.
pub proof fn law_densities(signals: Map<Seq<char>, SignalView>, mode: Seq<char>)
    ensures
        ({
            let e = EventView::BarDensityRequested { mode };
            let known = signals.dom().contains("bar.density"@) && signals["bar.density"@] is Text;
            let current = signals["bar.density"@]->Text_0;
            let next = if mode != "cycle"@ {
                mode
            } else if !known || current == "full"@ {
                "compact"@
            } else if current == "compact"@ {
                "hidden"@
            } else {
                "full"@
            };
            &&& signals_after(signals, e) == signals.insert("bar.density"@, SignalView::Text(next))
            &&& told_at_once(signals, e) =~= seq![
                MessageView::BarDensityState {
                    mode: if next == "compact"@ {
                        BarDensity::Compact
                    } else if next == "hidden"@ {
                        BarDensity::Hidden
                    } else {
                        BarDensity::Full
                    },
                },
            ]
        }),
{
}

/// A session that begins is told by three signals, whether it is a break and of what kind
/// it is; one that has ended leaves them idle. Only the density is told at once.
pub proof fn law_sessions_are_signals(signals: Map<Seq<char>, SignalView>, e: EventView)
    ensures
        e matches EventView::FocusSessionStarted { kind, project, planned_secs } ==> signals_after(
            signals,
            e,
        ) == signals.insert("focus_session.active"@, SignalView::Flag(true)).insert(
            "focus_session.on_break"@,
            SignalView::Flag(kind == "break"@),
        ).insert("focus_session.kind"@, SignalView::Text(kind)),
        e matches EventView::FocusSessionEnded { kind, project, actual_secs } ==> signals_after(
            signals,
            e,
        ) == signals.insert("focus_session.active"@, SignalView::Flag(false)).insert(
            "focus_session.on_break"@,
            SignalView::Flag(false),
        ).insert("focus_session.kind"@, SignalView::Text("idle"@)),
        !(e is BarDensityRequested) ==> told_at_once(signals, e).len() == 0,
{
}

/// What is published: the layout where it is new, and then a message for each widget whose
/// prominence is new and one that hides each widget that is gone, once each and no others.
pub proof fn law_differences_are_published(
    prev_layout: Option<LayoutView>,
    prev: Option<Map<Seq<char>, Prominence>>,
    layout: LayoutView,
    cur: Map<Seq<char>, Prominence>,
    msgs: Seq<MessageView>,
)
    requires
        is_delta(prev_layout, prev, layout, cur, msgs),
    ensures
        prev_layout != Some(layout) ==> msgs.len() > 0 && msgs[0] == MessageView::BarLayout(layout),
        forall|m: MessageView| #[trigger]
            msgs.contains(m) <==> (match m {
                MessageView::BarLayout(l) => l == layout && prev_layout != Some(layout),
                MessageView::WidgetVisibility { widget_id, visible, prominence } => {
                    &&& visible == (prominence != Prominence::Hidden)
                    &&& if cur.dom().contains(widget_id) {
                        prominence == cur[widget_id] && !(prev is Some && prev->0.dom().contains(
                            widget_id,
                        ) && prev->0[widget_id] == prominence)
                    } else {
                        prominence == Prominence::Hidden && prev is Some && prev->0.dom().contains(
                            widget_id,
                        )
                    }
                },
                MessageView::BarDensityState { mode } => false,
            }),
        msgs.no_duplicates(),
{
    let (shown, hidden) = choose|shown: Seq<MessageView>, hidden: Seq<MessageView>|
        #![trigger shows_changes(prev, cur, shown), hides_gone(prev, cur, hidden)]
        msgs == layout_part(prev_layout, layout) + shown + hidden && shows_changes(prev, cur, shown)
            && hides_gone(prev, cur, hidden);
    let head = layout_part(prev_layout, layout);
    assert forall|m: MessageView| #[trigger] msgs.contains(m) <==> head.contains(m)
        || shown.contains(m) || hidden.contains(m) by {
        if msgs.contains(m) {
            let i = choose|i: int| 0 <= i < msgs.len() && msgs[i] == m;
            if i < head.len() {
                assert(head[i] == m);
            } else if i < head.len() + shown.len() {
                assert(shown[i - head.len()] == m);
            } else {
                assert(hidden[i - head.len() - shown.len()] == m);
            }
        }
        if head.contains(m) {
            let i = choose|i: int| 0 <= i < head.len() && head[i] == m;
            assert(msgs[i] == m);
        }
        if shown.contains(m) {
            let i = choose|i: int| 0 <= i < shown.len() && shown[i] == m;
            assert(msgs[head.len() + i] == m);
        }
        if hidden.contains(m) {
            let i = choose|i: int| 0 <= i < hidden.len() && hidden[i] == m;
            assert(msgs[head.len() + shown.len() + i] == m);
        }
    }
    assert(head.contains(MessageView::BarLayout(layout)) <==> prev_layout != Some(layout)) by {
        if prev_layout != Some(layout) {
            assert(head[0] == MessageView::BarLayout(layout));
        }
    }
    assert forall|i: int, j: int| 0 <= i < j < msgs.len() implies msgs[i] != msgs[j] by {
        let (a, b) = (head.len() as int, (head.len() + shown.len()) as int);
        if i >= a {
            if i < b {
                assert(shown.contains(msgs[i])) by {
                    assert(shown[i - a] == msgs[i]);
                }
                if j < b {
                    assert(shown[i - a] != shown[j - a]);
                } else {
                    assert(hidden[j - b] == msgs[j]);
                    assert(hidden.contains(msgs[j]));
                }
            } else {
                assert(hidden[i - b] != hidden[j - b]);
            }
        } else {
            assert(msgs[i] is BarLayout);
            if j < b {
                assert(shown[j - a] == msgs[j]);
                assert(shown.contains(msgs[j]));
            } else {
                assert(hidden[j - b] == msgs[j]);
                assert(hidden.contains(msgs[j]));
            }
        }
    }
}

/// The more prominent a widget, the more room it takes; a hidden one takes none.
pub proof fn law_prominent_widgets_are_wider()
    ensures
        width_of(Prominence::Hidden) == 0,
        width_of(Prominence::Hidden) < width_of(Prominence::Badge) < width_of(Prominence::IconOnly)
            < width_of(Prominence::Compact) < width_of(Prominence::Visible) < width_of(
            Prominence::Expanded,
        ),
        width_of(Prominence::IconOnly) == 2 * width_of(Prominence::Badge),
        width_of(Prominence::Compact) == 3 * width_of(Prominence::IconOnly),
        width_of(Prominence::Visible) == 5 * width_of(Prominence::IconOnly),
        width_of(Prominence::Badge) == 16,
        width_of(Prominence::Expanded) == 220,
{
}

/// The widgets that are there from the start: where each stands, how much room it has, and
/// how much it matters.
pub proof fn law_built_in_widgets()
    ensures
        built_in_widgets().len() == 10,
        ({
            let w = built_in_widgets()[0];
            w.id == "workspace-indicator"@ && w.widget_type == "workspace_indicator"@ && w.default_prominence
                == Prominence::Visible && w.priority == 100 && w.zone == Zone::Left
        }),
        ({
            let w = built_in_widgets()[1];
            w.id == "interruption-cost"@ && w.widget_type == "interruption_cost"@ && w.default_prominence
                == Prominence::Visible && w.priority == 95 && w.zone == Zone::Left
        }),
        ({
            let w = built_in_widgets()[2];
            w.id == "clock"@ && w.widget_type == "clock"@ && w.default_prominence
                == Prominence::Visible && w.priority == 90 && w.zone == Zone::Center
        }),
        ({
            let w = built_in_widgets()[3];
            w.id == "cpu"@ && w.widget_type == "cpu"@ && w.default_prominence
                == Prominence::Compact && w.priority == 40 && w.zone == Zone::Right
        }),
        ({
            let w = built_in_widgets()[4];
            w.id == "memory"@ && w.widget_type == "memory"@ && w.default_prominence
                == Prominence::Compact && w.priority == 45 && w.zone == Zone::Right
        }),
        ({
            let w = built_in_widgets()[5];
            w.id == "network"@ && w.widget_type == "network"@ && w.default_prominence
                == Prominence::IconOnly && w.priority == 55 && w.zone == Zone::Right
        }),
        ({
            let w = built_in_widgets()[6];
            w.id == "battery"@ && w.widget_type == "battery"@ && w.default_prominence
                == Prominence::IconOnly && w.priority == 60 && w.zone == Zone::Right
        }),
        ({
            let w = built_in_widgets()[7];
            w.id == "notifications"@ && w.widget_type == "notifications"@ && w.default_prominence
                == Prominence::IconOnly && w.priority == 20 && w.zone == Zone::Right
        }),
        ({
            let w = built_in_widgets()[8];
            w.id == "control-center"@ && w.widget_type == "control_center"@ && w.default_prominence
                == Prominence::IconOnly && w.priority == 25 && w.zone == Zone::Right
        }),
        ({
            let w = built_in_widgets()[9];
            w.id == "system-tray"@ && w.widget_type == "system_tray"@ && w.default_prominence
                == Prominence::IconOnly && w.priority == 22 && w.zone == Zone::Right
        }),
{
}

} // verus!
