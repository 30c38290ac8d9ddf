//! Telling the user: in the shell, and on the desktop.
//!
//! A critical escalation and a nudge go to the shell and to the desktop's
//! notification service; a notification that was asked for by hand goes to the
//! desktop alone. A failure of the desktop is no failure of the module.

use vstd::prelude::*;

use crate::events::{Event, EventKind, EventView};
use crate::text;

verus! {

/// The desktop's notification service.
pub trait NotificationSender: Sized {
    fn send_critical(&mut self, widget_id: &str, title: &str, body: &str) -> (r: Result<
        (),
        String,
    >);

    /// Shows a nudge, with normal urgency.
    fn send_nudge(&mut self, kind: &str, title: &str) -> (r: Result<(), String>);

    /// Shows a notification that was asked for by hand. A sender may leave this out:
    /// it then succeeds and does nothing.
    fn send_notify(&mut self, _urgency: &str, _title: &str, _body: &str) -> (r: Result<(), String>)
        default_ensures
            r is Ok,
            *final(self) == *old(self),
    {
        Ok(())
    }
}

/// Whether a call of the notification service may take a sender to where `sender`
/// ends, with this answer: what the sender itself says of its method.
pub open spec fn calls<S: NotificationSender>(
    sender: &mut S,
    call: DesktopCallView,
    answer: Result<(), String>,
) -> bool {
    match call {
        DesktopCallView::Critical { widget_id, title, body } => exists|w: &str, t: &str, b: &str|
            w@ == widget_id && t@ == title && b@ == body && #[trigger] call_ensures(
                S::send_critical,
                (sender, w, t, b),
                answer,
            ),
        DesktopCallView::Nudge { kind, title } => exists|k: &str, t: &str|
            k@ == kind && t@ == title && #[trigger] call_ensures(
                S::send_nudge,
                (sender, k, t),
                answer,
            ),
        DesktopCallView::Notify { urgency, title, body } => exists|u: &str, t: &str, b: &str|
            u@ == urgency && t@ == title && b@ == body && #[trigger] call_ensures(
                S::send_notify,
                (sender, u, t, b),
                answer,
            ),
    }
}

/// How urgent a desktop notification is.
#[derive(Debug, Clone, Copy, PartialEq, Eq, Structural)]
pub enum Urgency {
    Low,
    Normal,
    Critical,
}

/// A notification as the desktop shows it.
#[derive(Debug, Clone, PartialEq, Eq)]
pub struct DesktopNotification {
    pub summary: String,
    pub body: String,
    pub urgency: Urgency,
}

/// A message to the shell.
#[derive(Debug, Clone, PartialEq, Eq)]
pub enum ShellMessage {
    CriticalEscalation { widget_id: String, title: String, body: String },
    Nudge { kind: String, title: String },
}

/// The contents of a [`ShellMessage`].
pub enum ShellMessageView {
    CriticalEscalation { widget_id: Seq<char>, title: Seq<char>, body: Seq<char> },
    Nudge { kind: Seq<char>, title: Seq<char> },
}

impl DeepView for ShellMessage {
    type V = ShellMessageView;

    open spec fn deep_view(&self) -> ShellMessageView {
        match self {
            ShellMessage::CriticalEscalation { widget_id, title, body } => {
                ShellMessageView::CriticalEscalation {
                    widget_id: widget_id@,
                    title: title@,
                    body: body@,
                }
            },
            ShellMessage::Nudge { kind, title } => ShellMessageView::Nudge {
                kind: kind@,
                title: title@,
            },
        }
    }
}

/// A call of the notification service.
#[derive(Debug, Clone, PartialEq, Eq)]
pub enum DesktopCall {
    Critical { widget_id: String, title: String, body: String },
    Nudge { kind: String, title: String },
    Notify { urgency: String, title: String, body: String },
}

/// The contents of a [`DesktopCall`].
pub enum DesktopCallView {
    Critical { widget_id: Seq<char>, title: Seq<char>, body: Seq<char> },
    Nudge { kind: Seq<char>, title: Seq<char> },
    Notify { urgency: Seq<char>, title: Seq<char>, body: Seq<char> },
}

impl DeepView for DesktopCall {
    type V = DesktopCallView;

    open spec fn deep_view(&self) -> DesktopCallView {
        match self {
            DesktopCall::Critical { widget_id, title, body } => DesktopCallView::Critical {
                widget_id: widget_id@,
                title: title@,
                body: body@,
            },
            DesktopCall::Nudge { kind, title } => DesktopCallView::Nudge {
                kind: kind@,
                title: title@,
            },
            DesktopCall::Notify { urgency, title, body } => DesktopCallView::Notify {
                urgency: urgency@,
                title: title@,
                body: body@,
            },
        }
    }
}

/// What the shell is told of an event.
pub open spec fn shell_message_for(e: EventView) -> Option<ShellMessageView> {
    match e {
        EventView::CriticalEscalation { widget_id, title, body } => Some(
            ShellMessageView::CriticalEscalation { widget_id, title, body },
        ),
        EventView::NudgeDelivered { project_id, kind, title } => Some(
            ShellMessageView::Nudge { kind, title },
        ),
        _ => None,
    }
}

/// How the notification service is called for an event.
pub open spec fn desktop_call_for(e: EventView) -> Option<DesktopCallView> {
    match e {
        EventView::CriticalEscalation { widget_id, title, body } => Some(
            DesktopCallView::Critical { widget_id, title, body },
        ),
        EventView::NudgeDelivered { project_id, kind, title } => Some(
            DesktopCallView::Nudge { kind, title },
        ),
        EventView::NotifyRequested { title, body, urgency } => Some(
            DesktopCallView::Notify { urgency, title, body },
        ),
        _ => None,
    }
}

/// What an event leads to: a message to the shell, a call of the notification
/// service, or neither.
pub fn route(event: &Event) -> (r: (Option<ShellMessage>, Option<DesktopCall>))
    ensures
        r.0.deep_view() == shell_message_for(event.deep_view()),
        r.1.deep_view() == desktop_call_for(event.deep_view()),
{
    match event {
        Event::CriticalEscalation { widget_id, title, body } => (
            Some(
                ShellMessage::CriticalEscalation {
                    widget_id: widget_id.clone(),
                    title: title.clone(),
                    body: body.clone(),
                },
            ),
            Some(
                DesktopCall::Critical {
                    widget_id: widget_id.clone(),
                    title: title.clone(),
                    body: body.clone(),
                },
            ),
        ),
        Event::NudgeDelivered { project_id: _, kind, title } => (
            Some(ShellMessage::Nudge { kind: kind.clone(), title: title.clone() }),
            Some(DesktopCall::Nudge { kind: kind.clone(), title: title.clone() }),
        ),
        Event::NotifyRequested { title, body, urgency } => (
            None,
            Some(
                DesktopCall::Notify {
                    urgency: urgency.clone(),
                    title: title.clone(),
                    body: body.clone(),
                },
            ),
        ),
        _ => (None, None),
    }
}

/// Hands a call to the notification service: that call, once, and no other.
pub fn deliver<S: NotificationSender>(sender: &mut S, call: &DesktopCall) -> (r: Result<(), String>)
    ensures
        exists|s: &mut S|
            *s == *old(sender) && *final(s) == *final(sender) && #[trigger] calls(
                s,
                call.deep_view(),
                r,
            ),
{
    match call {
        DesktopCall::Critical { widget_id, title, body } => {
            let r = sender.send_critical(widget_id.as_str(), title.as_str(), body.as_str());
            assert forall|s: &mut S, w: &str, t: &str, b: &str|
                w@ == widget_id@ && t@ == title@ && b@ == body@ && #[trigger] call_ensures(
                    S::send_critical,
                    (s, w, t, b),
                    r,
                ) implies calls(s, call.deep_view(), r) by {}
            r
        },
        DesktopCall::Nudge { kind, title } => {
            let r = sender.send_nudge(kind.as_str(), title.as_str());
            assert forall|s: &mut S, k: &str, t: &str|
                k@ == kind@ && t@ == title@ && #[trigger] call_ensures(
                    S::send_nudge,
                    (s, k, t),
                    r,
                ) implies calls(s, call.deep_view(), r) by {}
            r
        },
        DesktopCall::Notify { urgency, title, body } => {
            let r = sender.send_notify(urgency.as_str(), title.as_str(), body.as_str());
            assert forall|s: &mut S, u: &str, t: &str, b: &str|
                u@ == urgency@ && t@ == title@ && b@ == body@ && #[trigger] call_ensures(
                    S::send_notify,
                    (s, u, t, b),
                    r,
                ) implies calls(s, call.deep_view(), r) by {}
            r
        },
    }
}

/// The module that turns events into notifications.
pub struct NotificationsModule<S: NotificationSender> {
    pub sender: S,
}

impl<S: NotificationSender> NotificationsModule<S> {
    pub fn new(sender: S) -> (r: Self)
        ensures
            r.sender == sender,
    {
        NotificationsModule { sender }
    }

    /// Handles an event: calls the notification service where the event asks for
    /// it, once, and returns what to tell the shell. The service's failure, the
    /// second part of the result, changes nothing else.
    pub fn on_event(&mut self, event: &Event) -> (r: (
        Option<ShellMessage>,
        Option<Result<(), String>>,
    ))
        ensures
            r.0.deep_view() == shell_message_for(event.deep_view()),
            r.1 is Some <==> desktop_call_for(event.deep_view()) is Some,
            desktop_call_for(event.deep_view()) matches Some(call) ==> exists|s: &mut S|
                *s == old(self).sender && *final(s) == final(self).sender && #[trigger] calls(
                    s,
                    call,
                    r.1->0,
                ),
            desktop_call_for(event.deep_view()) is None ==> *final(self) == *old(self),
    {
        let (shell, desktop) = route(event);
        match desktop {
            Some(call) => {
                let ghost before = self.sender;
                let answer = deliver(&mut self.sender, &call);
                let r = (shell, Some(answer));
                assert(r.1->0 == answer);
                assert(desktop_call_for(event.deep_view())->0 == call.deep_view());
                assert(exists|s: &mut S|
                    *s == before && *final(s) == self.sender && #[trigger] calls(
                        s,
                        desktop_call_for(event.deep_view())->0,
                        r.1->0,
                    ));
                r
            },
            None => (shell, None),
        }
    }

    /// The kinds of event that the module listens to.
    pub fn subscribed_events(&self) -> (r: Vec<EventKind>)
        ensures
            r@ == seq![
                EventKind::CriticalEscalation,
                EventKind::NudgeDelivered,
                EventKind::NotifyRequested,
            ],
    {
        let r: Vec<EventKind> = vec![
            EventKind::CriticalEscalation,
            EventKind::NudgeDelivered,
            EventKind::NotifyRequested,
        ];
        assert(r@ =~= seq![
            EventKind::CriticalEscalation,
            EventKind::NudgeDelivered,
            EventKind::NotifyRequested,
        ]);
        r
    }
}

/// The urgency that a word stands for; an unknown word stands for normal.
pub open spec fn urgency_of(word: Seq<char>) -> Urgency {
    if word == "low"@ {
        Urgency::Low
    } else if word == "critical"@ {
        Urgency::Critical
    } else {
        Urgency::Normal
    }
}

/// How the desktop shows a call.
pub open spec fn shown(call: DesktopCallView) -> (Seq<char>, Seq<char>, Urgency) {
    match call {
        DesktopCallView::Critical { widget_id, title, body } => (title, body, Urgency::Critical),
        DesktopCallView::Nudge { kind, title } => (title, "Ideation · "@ + kind, Urgency::Normal),
        DesktopCallView::Notify { urgency, title, body } => (title, body, urgency_of(urgency)),
    }
}

/// The notification that the desktop shows for a call.
pub fn render(call: &DesktopCall) -> (r: DesktopNotification)
    ensures
        (r.summary@, r.body@, r.urgency) == shown(call.deep_view()),
{
    match call {
        DesktopCall::Critical { widget_id: _, title, body } => DesktopNotification {
            summary: title.clone(),
            body: body.clone(),
            urgency: Urgency::Critical,
        },
        DesktopCall::Nudge { kind, title } => DesktopNotification {
            summary: title.clone(),
            body: text::concat2("Ideation · ", kind),
            urgency: Urgency::Normal,
        },
        DesktopCall::Notify { urgency, title, body } => {
            let u = if text::same(urgency, "low") {
                Urgency::Low
            } else if text::same(urgency, "critical") {
                Urgency::Critical
            } else {
                Urgency::Normal
            };
            DesktopNotification { summary: title.clone(), body: body.clone(), urgency: u }
        },
    }
}

/// Whatever reaches the shell reaches the desktop too.
pub proof fn law_shell_messages_are_notified(e: EventView)
    ensures
        shell_message_for(e) is Some ==> desktop_call_for(e) is Some,
{
}

/// Where events go: a critical escalation and a nudge to the shell and to the desktop, a
/// notice that was asked for to the desktop alone, and nothing else anywhere.
pub proof fn law_where_events_go(e: EventView)
    ensures
        e matches EventView::CriticalEscalation { widget_id, title, body } ==> shell_message_for(e)
            == Some(ShellMessageView::CriticalEscalation { widget_id, title, body })
            && desktop_call_for(e) == Some(DesktopCallView::Critical { widget_id, title, body }),
        e matches EventView::NudgeDelivered { project_id, kind, title } ==> shell_message_for(e)
            == Some(ShellMessageView::Nudge { kind, title }) && desktop_call_for(e) == Some(
            DesktopCallView::Nudge { kind, title },
        ),
        e matches EventView::NotifyRequested { title, body, urgency } ==> shell_message_for(e) is None
            && desktop_call_for(e) == Some(DesktopCallView::Notify { urgency, title, body }),
        !(e is CriticalEscalation || e is NudgeDelivered || e is NotifyRequested)
            ==> shell_message_for(e) is None && desktop_call_for(e) is None,
{
}

/// How the desktop shows a call: an escalation as critical, a nudge as normal with its kind,
/// and a notice with the urgency that it was asked for with, normal where that is unknown.
pub proof fn law_how_calls_are_shown(call: DesktopCallView)
    ensures
        call matches DesktopCallView::Critical { widget_id, title, body } ==> shown(call) == (
            title,
            body,
            Urgency::Critical,
        ),
        call matches DesktopCallView::Nudge { kind, title } ==> shown(call) == (
            title,
            "Ideation · "@ + kind,
            Urgency::Normal,
        ),
        call matches DesktopCallView::Notify { urgency, title, body } ==> shown(call) == (
            title,
            body,
            if urgency == "low"@ {
                Urgency::Low
            } else if urgency == "critical"@ {
                Urgency::Critical
            } else {
                Urgency::Normal
            },
        ),
{
}

} // verus!
