//! Named signals that predicates look at.

use vstd::prelude::*;

use crate::events::{Event, EventView};
use crate::text;
use crate::textmap::TextMap;

verus! {

/// The value of a signal.
#[derive(Debug, Clone, PartialEq, Eq)]
pub enum SignalValue {
    Text(String),
    Flag(bool),
}

/// The contents of a [`SignalValue`].
pub enum SignalView {
    Text(Seq<char>),
    Flag(bool),
}

impl DeepView for SignalValue {
    type V = SignalView;

    open spec fn deep_view(&self) -> SignalView {
        match self {
            SignalValue::Text(s) => SignalView::Text(s@),
            SignalValue::Flag(b) => SignalView::Flag(*b),
        }
    }
}

/// The signals that are set.
pub struct Signals {
    map: TextMap<SignalValue>,
}

impl Signals {
    /// The signals by name.
    pub closed spec fn view(&self) -> Map<Seq<char>, SignalView> {
        self.map@.map_values(|v: SignalValue| v.deep_view())
    }

    pub fn new() -> (r: Self)
        ensures
            r@ == Map::<Seq<char>, SignalView>::empty(),
    {
        let r = Signals { map: TextMap::new() };
        assert(r@ =~= Map::<Seq<char>, SignalView>::empty());
        r
    }

    /// Sets a signal to a text.
    pub fn set_text(&mut self, name: &str, value: &str)
        ensures
            final(self)@ == old(self)@.insert(name@, SignalView::Text(value@)),
    {
        self.map.insert(text::owned(name), SignalValue::Text(text::owned(value)));
        assert(self@ =~= old(self)@.insert(name@, SignalView::Text(value@)));
    }

    /// Sets a signal to a flag.
    pub fn set_flag(&mut self, name: &str, value: bool)
        ensures
            final(self)@ == old(self)@.insert(name@, SignalView::Flag(value)),
    {
        self.map.insert(text::owned(name), SignalValue::Flag(value));
        assert(self@ =~= old(self)@.insert(name@, SignalView::Flag(value)));
    }

    /// Clears a signal.
    pub fn remove(&mut self, name: &str)
        ensures
            final(self)@ == old(self)@.remove(name@),
    {
        self.map.remove(name);
        assert(self@ =~= old(self)@.remove(name@));
    }

    /// The value of a signal.
    pub fn get(&self, name: &str) -> (r: Option<&SignalValue>)
        ensures
            r is Some <==> self@.dom().contains(name@),
            r is Some ==> r->0.deep_view() == self@[name@],
    {
        self.map.get(name)
    }

    /// The text of a signal, where it is set to a text.
    pub fn get_text(&self, name: &str) -> (r: Option<&str>)
        ensures
            r is Some <==> self@.dom().contains(name@) && self@[name@] is Text,
            r is Some ==> r->0@ == self@[name@]->Text_0,
    {
        match self.get(name) {
            Some(SignalValue::Text(s)) => Some(s.as_str()),
            _ => None,
        }
    }
}

/// What an event about the desktop does to the signals.
pub open spec fn mirrored(signals: Map<Seq<char>, SignalView>, e: EventView) -> Map<
    Seq<char>,
    SignalView,
> {
    match e {
        EventView::WorkspaceChanged { name, focused_window } => {
            let s = signals.insert("workspace.name"@, SignalView::Text(name));
            match focused_window {
                Some(title) => s.insert("workspace.focused_window"@, SignalView::Text(title)),
                None => s.remove("workspace.focused_window"@),
            }
        },
        EventView::WindowFocused { app_id, title } => {
            let s = match app_id {
                Some(id) => signals.insert("focused.app_id"@, SignalView::Text(id)),
                None => signals.remove("focused.app_id"@),
            };
            s.insert("focused.title"@, SignalView::Text(title))
        },
        EventView::PowerStateChanged { on_battery } => signals.insert(
            "power.on_battery"@,
            SignalView::Flag(on_battery),
        ),
        _ => signals,
    }
}

/// Folds an event about the desktop into the signals.
pub fn mirror_event(signals: &mut Signals, event: &Event)
    ensures
        final(signals)@ == mirrored(old(signals)@, event.deep_view()),
{
    match event {
        Event::WorkspaceChanged { name, focused_window } => {
            signals.set_text("workspace.name", name);
            match focused_window {
                Some(title) => signals.set_text("workspace.focused_window", title),
                None => signals.remove("workspace.focused_window"),
            }
        },
        Event::WindowFocused { app_id, title } => {
            match app_id {
                Some(id) => signals.set_text("focused.app_id", id),
                None => signals.remove("focused.app_id"),
            }
            signals.set_text("focused.title", title);
        },
        Event::PowerStateChanged { on_battery } => {
            signals.set_flag("power.on_battery", *on_battery);
        },
        _ => {},
    }
}

/// Folding the same event in twice is folding it in once.
pub proof fn law_mirroring_is_idempotent(signals: Map<Seq<char>, SignalView>, e: EventView)
    ensures
        mirrored(mirrored(signals, e), e) == mirrored(signals, e),
{
    reveal_strlit("workspace.name");
    reveal_strlit("workspace.focused_window");
    reveal_strlit("focused.app_id");
    reveal_strlit("focused.title");
    assert("workspace.name"@.len() != "workspace.focused_window"@.len());
    assert("focused.app_id"@.len() != "focused.title"@.len());
    assert(mirrored(mirrored(signals, e), e) =~= mirrored(signals, e));
}

/// Which signals an event sets, clears and leaves.
pub proof fn law_events_set_their_signals(signals: Map<Seq<char>, SignalView>, e: EventView)
    ensures
        e matches EventView::WorkspaceChanged { name, focused_window } ==> {
            let n = mirrored(signals, e);
            &&& n.dom().contains("workspace.name"@)
            &&& n["workspace.name"@] == SignalView::Text(name)
            &&& focused_window is None ==> !n.dom().contains("workspace.focused_window"@)
            &&& focused_window matches Some(t) ==> n.dom().contains("workspace.focused_window"@)
                && n["workspace.focused_window"@] == SignalView::Text(t)
            &&& forall|k: Seq<char>|
                k != "workspace.name"@ && k != "workspace.focused_window"@ ==> (
                #[trigger] n.dom().contains(k) <==> signals.dom().contains(k)) && (
                n.dom().contains(k) ==> n[k] == signals[k])
        },
        e matches EventView::WindowFocused { app_id, title } ==> {
            let n = mirrored(signals, e);
            &&& n.dom().contains("focused.title"@)
            &&& n["focused.title"@] == SignalView::Text(title)
            &&& app_id is None ==> !n.dom().contains("focused.app_id"@)
            &&& app_id matches Some(t) ==> n.dom().contains("focused.app_id"@)
                && n["focused.app_id"@] == SignalView::Text(t)
            &&& forall|k: Seq<char>|
                k != "focused.title"@ && k != "focused.app_id"@ ==> (#[trigger] n.dom().contains(k)
                    <==> signals.dom().contains(k)) && (n.dom().contains(k) ==> n[k] == signals[k])
        },
        e matches EventView::PowerStateChanged { on_battery } ==> mirrored(signals, e)
            == signals.insert("power.on_battery"@, SignalView::Flag(on_battery)),
        !(e is WorkspaceChanged || e is WindowFocused || e is PowerStateChanged) ==> mirrored(
            signals,
            e,
        ) == signals,
{
    reveal_strlit("workspace.name");
    reveal_strlit("workspace.focused_window");
    reveal_strlit("focused.app_id");
    reveal_strlit("focused.title");
    assert("workspace.name"@.len() != "workspace.focused_window"@.len());
    assert("focused.app_id"@.len() != "focused.title"@.len());
}

} // verus!
