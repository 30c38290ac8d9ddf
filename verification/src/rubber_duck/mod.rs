//! The rubber duck: a conversation with a model that helps to say what is
//! unclear.
//!
//! The model is asked outside. Here stands what is asked, what is kept of the
//! conversation, and what the shell is told.

pub mod client;
pub mod config;
pub mod stream;

use vstd::prelude::*;

use self::client::{client_message, ChatMessage, ChatView, ClientError, TokenDelta, TokenView};
use self::config::{ConfigView, RubberDuckConfig};
use crate::events::{Event, EventKind, EventView};
use crate::text;
use crate::text::blank;

verus! {

/// How many messages a conversation may hold before it starts afresh.
pub const MAX_MESSAGES: usize = 128;

/// What the shell is told of the model.
#[derive(Debug, Clone, PartialEq, Eq)]
pub struct DuckStatus {
    pub enabled: bool,
    pub reachable: bool,
    pub endpoint: String,
    pub model: String,
    pub detail: String,
}

/// What a [`DuckStatus`] holds.
pub struct StatusView {
    pub enabled: bool,
    pub reachable: bool,
    pub endpoint: Seq<char>,
    pub model: Seq<char>,
    pub detail: Seq<char>,
}

impl DeepView for DuckStatus {
    type V = StatusView;

    open spec fn deep_view(&self) -> StatusView {
        StatusView {
            enabled: self.enabled,
            reachable: self.reachable,
            endpoint: self.endpoint@,
            model: self.model@,
            detail: self.detail@,
        }
    }
}

/// A message to the shell.
#[derive(Debug, Clone, PartialEq, Eq)]
pub enum DuckMessage {
    Open,
    Close,
    Reset,
    Token(TokenDelta),
    Status(DuckStatus),
}

/// The contents of a [`DuckMessage`].
pub enum DuckMessageView {
    Open,
    Close,
    Reset,
    Token(TokenView),
    Status(StatusView),
}

impl DeepView for DuckMessage {
    type V = DuckMessageView;

    open spec fn deep_view(&self) -> DuckMessageView {
        match self {
            DuckMessage::Open => DuckMessageView::Open,
            DuckMessage::Close => DuckMessageView::Close,
            DuckMessage::Reset => DuckMessageView::Reset,
            DuckMessage::Token(t) => DuckMessageView::Token(t.deep_view()),
            DuckMessage::Status(s) => DuckMessageView::Status(s.deep_view()),
        }
    }
}

/// What an event leads to.
#[derive(Debug, Clone, PartialEq, Eq)]
pub enum DuckStep {
    /// The shell is to be told.
    Tell(Vec<DuckMessage>),
    /// The model is to be asked.
    Ask(Vec<ChatMessage>),
}

/// The contents of a [`DuckStep`].
pub enum DuckStepView {
    Tell(Seq<DuckMessageView>),
    Ask(Seq<ChatView>),
}

impl DeepView for DuckStep {
    type V = DuckStepView;

    open spec fn deep_view(&self) -> DuckStepView {
        match self {
            DuckStep::Tell(v) => DuckStepView::Tell(v.deep_view()),
            DuckStep::Ask(v) => DuckStepView::Ask(v.deep_view()),
        }
    }
}

/// What the shell is told of the model under a configuration.
pub open spec fn status_of(cfg: ConfigView, reachable: bool, detail: Seq<char>) -> DuckMessageView {
    DuckMessageView::Status(
        StatusView {
            enabled: cfg.enabled,
            reachable,
            endpoint: cfg.endpoint,
            model: cfg.model,
            detail,
        },
    )
}

/// A message of the user.
pub open spec fn user_turn(text: Seq<char>) -> ChatView {
    ChatView { role: "user"@, content: text }
}

/// A message of the model.
pub open spec fn assistant_turn(text: Seq<char>) -> ChatView {
    ChatView { role: "assistant"@, content: text }
}

/// What the model is asked: the prompt, then the conversation.
pub open spec fn request(cfg: ConfigView, conversation: Seq<ChatView>) -> Seq<ChatView> {
    seq![ChatView { role: "system"@, content: cfg.system_prompt }] + conversation
}

/// The conversation after the user said something, and what that leads to.
pub open spec fn after_saying(cfg: ConfigView, conversation: Seq<ChatView>, text: Seq<char>) -> (
    Seq<ChatView>,
    DuckStepView,
) {
    if !cfg.enabled {
        (conversation, DuckStepView::Tell(seq![status_of(cfg, false, "disabled in config"@)]))
    } else if blank(text) {
        (conversation, DuckStepView::Tell(Seq::empty()))
    } else if conversation.len() >= MAX_MESSAGES {
        (Seq::empty(), DuckStepView::Tell(seq![DuckMessageView::Reset]))
    } else {
        let longer = conversation.push(user_turn(text));
        (longer, DuckStepView::Ask(request(cfg, longer)))
    }
}

/// The conversation after an action, and what that leads to. A duck that is turned
/// off does not open: the shell is told why instead.
pub open spec fn after_action(cfg: ConfigView, conversation: Seq<ChatView>, action: Seq<char>) -> (
    Seq<ChatView>,
    DuckStepView,
) {
    if action == "open"@ && !cfg.enabled {
        (conversation, DuckStepView::Tell(seq![status_of(cfg, false, "disabled in config"@)]))
    } else if action == "open"@ {
        (
            conversation,
            DuckStepView::Tell(seq![DuckMessageView::Open, status_of(cfg, true, Seq::empty())]),
        )
    } else if action == "close"@ {
        (conversation, DuckStepView::Tell(seq![DuckMessageView::Close]))
    } else if action == "reset"@ {
        (Seq::empty(), DuckStepView::Tell(seq![DuckMessageView::Reset]))
    } else {
        (conversation, DuckStepView::Tell(Seq::empty()))
    }
}

/// The conversation after an event, and what that leads to.
pub open spec fn after_event(cfg: ConfigView, conversation: Seq<ChatView>, event: EventView) -> (
    Seq<ChatView>,
    DuckStepView,
) {
    match event {
        EventView::DuckActionRequested { action } => after_action(cfg, conversation, action),
        EventView::DuckUserMessage { text } => after_saying(cfg, conversation, text),
        _ => (conversation, DuckStepView::Tell(Seq::empty())),
    }
}

/// The conversation after the model replied. A reply that says nothing is not
/// kept.
pub open spec fn after_reply(conversation: Seq<ChatView>, text: Seq<char>) -> Seq<ChatView> {
    if text.len() == 0 {
        conversation
    } else {
        conversation.push(assistant_turn(text))
    }
}

/// What the shell is told when there is no reply: a last piece, so that it does
/// not wait, and the reason.
pub open spec fn failure_messages(cfg: ConfigView, reason: Seq<char>) -> Seq<DuckMessageView> {
    seq![
        DuckMessageView::Token(
            TokenView {
                role: "assistant"@,
                delta: "(rubber-duck error: "@ + reason + ")"@,
                done: true,
            },
        ),
        status_of(cfg, false, reason),
    ]
}

/// The module behind the duck.
#[derive(Debug, Clone, PartialEq, Eq)]
pub struct RubberDuckModule {
    pub config: RubberDuckConfig,
    pub conversation: Vec<ChatMessage>,
}

impl RubberDuckModule {
    pub fn new() -> (r: Self)
        ensures
            r.config.deep_view() == config::default_config(),
            r.conversation@.len() == 0,
    {
        Self::with_config(RubberDuckConfig::default())
    }

    pub fn with_config(config: RubberDuckConfig) -> (r: Self)
        ensures
            r.config == config,
            r.conversation@.len() == 0,
    {
        RubberDuckModule { config, conversation: Vec::new() }
    }

    fn status_msg(&self, reachable: bool, detail: String) -> (r: DuckMessage)
        ensures
            r.deep_view() == status_of(self.config.deep_view(), reachable, detail@),
    {
        DuckMessage::Status(
            DuckStatus {
                enabled: self.config.enabled,
                reachable,
                endpoint: self.config.endpoint.clone(),
                model: self.config.model.clone(),
                detail,
            },
        )
    }

    /// Forgets the conversation.
    pub fn reset_conversation(&mut self)
        ensures
            final(self).config == old(self).config,
            final(self).conversation@.len() == 0,
    {
        self.conversation = Vec::new();
    }

    /// Adds what the user said, and gives what the model is to be asked: nothing,
    /// with nothing added, where the conversation is full.
    pub fn push_user(&mut self, text: String) -> (r: Option<Vec<ChatMessage>>)
        ensures
            final(self).config == old(self).config,
            old(self).conversation@.len() >= MAX_MESSAGES ==> r is None && final(self).conversation
                == old(self).conversation,
            old(self).conversation@.len() < MAX_MESSAGES ==> {
                let longer = old(self).conversation.deep_view().push(user_turn(text@));
                &&& final(self).conversation.deep_view() == longer
                &&& r matches Some(v) && v.deep_view() == request(
                    old(self).config.deep_view(),
                    longer,
                )
            },
    {
        if self.conversation.len() >= MAX_MESSAGES {
            return None;
        }
        let ghost before = self.conversation.deep_view();
        let turn = ChatMessage::new("user", text);
        self.conversation.push(turn);
        assert(self.conversation.deep_view() =~= before.push(turn.deep_view()));
        let ghost all = self.conversation.deep_view();
        let first = ChatMessage::new("system", self.config.system_prompt.clone());
        let mut full: Vec<ChatMessage> = Vec::new();
        full.push(first);
        let mut i: usize = 0;
        assert(full.deep_view() =~= request(self.config.deep_view(), all.take(0)));
        while i < self.conversation.len()
            invariant
                i <= self.conversation@.len(),
                all == self.conversation.deep_view(),
                full.deep_view() == request(self.config.deep_view(), all.take(i as int)),
            decreases self.conversation@.len() - i,
        {
            let ghost known = full.deep_view();
            let m = self.conversation[i].copied();
            full.push(m);
            assert(full.deep_view() =~= known.push(m.deep_view()));
            assert(m.deep_view() == all[i as int]);
            assert(full.deep_view() =~= request(self.config.deep_view(), all.take(i + 1)));
            i += 1;
        }
        assert(all.take(i as int) =~= all);
        Some(full)
    }

    /// Handles what the user said.
    pub fn handle_user_message(&mut self, text: String) -> (r: DuckStep)
        ensures
            final(self).config == old(self).config,
            (final(self).conversation.deep_view(), r.deep_view()) == after_saying(
                old(self).config.deep_view(),
                old(self).conversation.deep_view(),
                text@,
            ),
    {
        if !self.config.enabled {
            let msg = self.status_msg(false, text::owned("disabled in config"));
            let mut out: Vec<DuckMessage> = Vec::new();
            out.push(msg);
            assert(out.deep_view() =~= seq![msg.deep_view()]);
            return DuckStep::Tell(out);
        }
        if text::is_blank(&text) {
            let out: Vec<DuckMessage> = Vec::new();
            assert(out.deep_view() =~= Seq::<DuckMessageView>::empty());
            return DuckStep::Tell(out);
        }
        match self.push_user(text) {
            Some(messages) => DuckStep::Ask(messages),
            None => {
                self.reset_conversation();
                let mut out: Vec<DuckMessage> = Vec::new();
                out.push(DuckMessage::Reset);
                proof {
                    assert(self.conversation.deep_view() =~= Seq::<ChatView>::empty());
                    assert(out.deep_view() =~= seq![DuckMessageView::Reset]);
                }
                DuckStep::Tell(out)
            },
        }
    }

    /// Handles an action.
    pub fn handle_action(&mut self, action: &str) -> (r: DuckStep)
        ensures
            final(self).config == old(self).config,
            (final(self).conversation.deep_view(), r.deep_view()) == after_action(
                old(self).config.deep_view(),
                old(self).conversation.deep_view(),
                action@,
            ),
    {
        let mut out: Vec<DuckMessage> = Vec::new();
        if text::same(action, "open") && !self.config.enabled {
            let status = self.status_msg(false, text::owned("disabled in config"));
            out.push(status);
            assert(out.deep_view() =~= seq![status.deep_view()]);
        } else if text::same(action, "open") {
            let status = self.status_msg(true, String::new());
            out.push(DuckMessage::Open);
            out.push(status);
            assert(out.deep_view() =~= seq![DuckMessageView::Open, status.deep_view()]);
        } else if text::same(action, "close") {
            out.push(DuckMessage::Close);
            assert(out.deep_view() =~= seq![DuckMessageView::Close]);
        } else if text::same(action, "reset") {
            self.reset_conversation();
            out.push(DuckMessage::Reset);
            assert(self.conversation.deep_view() =~= Seq::<ChatView>::empty());
            assert(out.deep_view() =~= seq![DuckMessageView::Reset]);
        } else {
            assert(out.deep_view() =~= Seq::<DuckMessageView>::empty());
        }
        DuckStep::Tell(out)
    }

    /// Handles an event.
    pub fn on_event(&mut self, event: &Event) -> (r: DuckStep)
        ensures
            final(self).config == old(self).config,
            (final(self).conversation.deep_view(), r.deep_view()) == after_event(
                old(self).config.deep_view(),
                old(self).conversation.deep_view(),
                event.deep_view(),
            ),
    {
        match event {
            Event::DuckActionRequested { action } => self.handle_action(action),
            Event::DuckUserMessage { text } => self.handle_user_message(text.clone()),
            _ => {
                let out: Vec<DuckMessage> = Vec::new();
                assert(out.deep_view() =~= Seq::<DuckMessageView>::empty());
                DuckStep::Tell(out)
            },
        }
    }

    /// Takes what came of asking the model: the whole reply, or why there is
    /// none. Gives what the shell is to be told.
    pub fn finished(&mut self, reply: Result<String, ClientError>) -> (r: Vec<DuckMessage>)
        ensures
            final(self).config == old(self).config,
            match reply {
                Ok(text) => final(self).conversation.deep_view() == after_reply(
                    old(self).conversation.deep_view(),
                    text@,
                ) && r.deep_view() == seq![
                    status_of(old(self).config.deep_view(), true, Seq::empty()),
                ],
                Err(e) => final(self).conversation == old(self).conversation && r.deep_view()
                    == failure_messages(
                    old(self).config.deep_view(),
                    client_message(e.deep_view()),
                ),
            },
    {
        let mut out: Vec<DuckMessage> = Vec::new();
        match reply {
            Ok(text) => {
                let cs = text::chars(&text);
                if cs.len() > 0 {
                    let ghost before = self.conversation.deep_view();
                    let turn = ChatMessage::new("assistant", text);
                    self.conversation.push(turn);
                    assert(self.conversation.deep_view() =~= before.push(turn.deep_view()));
                }
                let status = self.status_msg(true, String::new());
                out.push(status);
                assert(out.deep_view() =~= seq![status.deep_view()]);
            },
            Err(e) => {
                let reason = e.message();
                let token = TokenDelta {
                    role: text::owned("assistant"),
                    delta: text::concat3("(rubber-duck error: ", &reason, ")"),
                    done: true,
                };
                let status = self.status_msg(false, reason);
                out.push(DuckMessage::Token(token));
                out.push(status);
                assert(out.deep_view() =~= seq![
                    DuckMessageView::Token(token.deep_view()),
                    status.deep_view(),
                ]);
            },
        }
        out
    }

    /// The kinds of event that the module listens to.
    pub fn subscribed_events(&self) -> (r: Vec<EventKind>)
        ensures
            r@ == seq![EventKind::DuckActionRequested, EventKind::DuckUserMessage],
    {
        let r: Vec<EventKind> = vec![EventKind::DuckActionRequested, EventKind::DuckUserMessage];
        assert(r@ =~= seq![EventKind::DuckActionRequested, EventKind::DuckUserMessage]);
        r
    }
}

// ---------------------------------------------------------------------------
// Laws
// ---------------------------------------------------------------------------

/// Whenever the model is asked, the prompt comes first and what the user just
/// said comes last, with the kept conversation between.
pub proof fn law_requests_carry_the_conversation(
    cfg: ConfigView,
    conversation: Seq<ChatView>,
    text: Seq<char>,
)
    ensures
        after_saying(cfg, conversation, text).1 matches DuckStepView::Ask(messages) ==> {
            &&& messages.len() == conversation.len() + 2
            &&& messages[0] == (ChatView { role: "system"@, content: cfg.system_prompt })
            &&& messages.last() == user_turn(text)
            &&& messages.subrange(1, messages.len() - 1) == conversation
        },
{
    if after_saying(cfg, conversation, text).1 is Ask {
        let messages = request(cfg, conversation.push(user_turn(text)));
        assert(messages.subrange(1, messages.len() - 1) =~= conversation);
    }
}

/// A duck that is turned off keeps nothing, asks nothing and does not open; the
/// shell is told that it is turned off.
pub proof fn law_a_disabled_duck_keeps_nothing(
    cfg: ConfigView,
    conversation: Seq<ChatView>,
    text: Seq<char>,
)
    requires
        !cfg.enabled,
    ensures
        after_saying(cfg, conversation, text).0 == conversation,
        after_saying(cfg, conversation, text).1 == DuckStepView::Tell(
            seq![status_of(cfg, false, "disabled in config"@)],
        ),
        after_action(cfg, conversation, "open"@) == (
            conversation,
            DuckStepView::Tell(seq![status_of(cfg, false, "disabled in config"@)]),
        ),
{
}

/// A conversation that is full starts afresh: the shell is told, and the next
/// thing said is asked with nothing before it but the prompt.
pub proof fn law_full_conversations_start_afresh(
    cfg: ConfigView,
    conversation: Seq<ChatView>,
    first: Seq<char>,
    second: Seq<char>,
)
    requires
        cfg.enabled,
        conversation.len() >= MAX_MESSAGES,
        !blank(first),
        !blank(second),
    ensures
        ({
            let (left, told) = after_saying(cfg, conversation, first);
            let (_, asked) = after_saying(cfg, left, second);
            &&& told == DuckStepView::Tell(seq![DuckMessageView::Reset])
            &&& asked == DuckStepView::Ask(
                seq![ChatView { role: "system"@, content: cfg.system_prompt }, user_turn(second)],
            )
        }),
{
    let longer = Seq::<ChatView>::empty().push(user_turn(second));
    assert(request(cfg, longer) =~= seq![
        ChatView { role: "system"@, content: cfg.system_prompt },
        user_turn(second),
    ]);
}

/// A conversation in which each reply comes before the user speaks again never
/// outgrows its limit by more than the last reply.
pub proof fn law_conversations_stay_bounded(
    cfg: ConfigView,
    conversation: Seq<ChatView>,
    text: Seq<char>,
    reply: Seq<char>,
)
    requires
        conversation.len() <= MAX_MESSAGES + 1,
    ensures
        after_saying(cfg, conversation, text).0.len() <= MAX_MESSAGES + 1,
        after_saying(cfg, conversation, text).1 is Ask ==> after_reply(
            after_saying(cfg, conversation, text).0,
            reply,
        ).len() <= MAX_MESSAGES + 1,
{
}

/// What saying something comes to. A duck that is turned off only tells so; blank text is
/// passed over; a conversation of 128 messages starts afresh and says so; and else the
/// text is kept and the model is asked with the system's prompt and all of the
/// conversation.
pub proof fn law_saying_something(cfg: ConfigView, conversation: Seq<ChatView>, text: Seq<char>)
    ensures
        ({
            let (left, step) = after_saying(cfg, conversation, text);
            let said = ChatView { role: "user"@, content: text };
            let nothing = forall|i: int| 0 <= i < text.len() ==> crate::text::is_white(#[trigger] text[i]);
            if !cfg.enabled {
                left == conversation && step is Tell
            } else if nothing {
                left == conversation && (step matches DuckStepView::Tell(m) && m.len() == 0)
            } else if conversation.len() >= 128 {
                left.len() == 0 && (step matches DuckStepView::Tell(m) && m =~= seq![
                    DuckMessageView::Reset,
                ])
            } else {
                left == conversation.push(said) && (step matches DuckStepView::Ask(m) && m =~= seq![
                    ChatView { role: "system"@, content: cfg.system_prompt },
                ] + conversation.push(said))
            }
        }),
{
}

/// What the actions do: opening tells that the duck is there, closing closes it, and a
/// reset forgets the conversation. Any other word does nothing.
pub proof fn law_actions_of_the_duck(
    cfg: ConfigView,
    conversation: Seq<ChatView>,
    action: Seq<char>,
)
    ensures
        ({
            let (left, step) = after_action(cfg, conversation, action);
            &&& action == "open"@ && cfg.enabled ==> left == conversation && (step matches
                DuckStepView::Tell(m) && m.len() == 2 && m[0] == DuckMessageView::Open && (m[1]
                matches DuckMessageView::Status(s) && s.enabled && s.reachable && s.detail.len() == 0
                && s.endpoint == cfg.endpoint && s.model == cfg.model))
            &&& action == "open"@ && !cfg.enabled ==> left == conversation && (step matches
                DuckStepView::Tell(m) && m.len() == 1 && (m[0] matches DuckMessageView::Status(s)
                && !s.enabled && !s.reachable && s.detail == "disabled in config"@))
            &&& action == "close"@ ==> left == conversation && (step matches DuckStepView::Tell(m)
                && m =~= seq![DuckMessageView::Close])
            &&& action == "reset"@ ==> left.len() == 0 && (step matches DuckStepView::Tell(m) && m
                =~= seq![DuckMessageView::Reset])
            &&& action != "open"@ && action != "close"@ && action != "reset"@ ==> left
                == conversation && (step matches DuckStepView::Tell(m) && m.len() == 0)
        }),
{
    reveal_strlit("open");
    reveal_strlit("close");
    reveal_strlit("reset");
    assert("open"@.len() == 4 && "close"@.len() == 5 && "reset"@.len() == 5);
    assert("close"@[0] == 'c' && "reset"@[0] == 'r');
}

/// An answer that says something is kept as the assistant's turn. A failure is told as the
/// last piece of the answer, with its reason, and as the status.
pub proof fn law_answers_and_failures(
    cfg: ConfigView,
    conversation: Seq<ChatView>,
    text: Seq<char>,
    event: EventView,
)
    ensures
        text.len() > 0 ==> after_reply(conversation, text) == conversation.push(
            ChatView { role: "assistant"@, content: text },
        ),
        text.len() == 0 ==> after_reply(conversation, text) == conversation,
        failure_messages(cfg, text).len() == 2,
        failure_messages(cfg, text)[0] == DuckMessageView::Token(
            TokenView {
                role: "assistant"@,
                delta: "(rubber-duck error: "@ + text + ")"@,
                done: true,
            },
        ),
        failure_messages(cfg, text)[1] matches DuckMessageView::Status(s) && !s.reachable && s.detail
            == text && s.enabled == cfg.enabled && s.endpoint == cfg.endpoint && s.model == cfg.model,
        event matches EventView::DuckActionRequested { action } ==> after_event(
            cfg,
            conversation,
            event,
        ) == after_action(cfg, conversation, action),
        event matches EventView::DuckUserMessage { text: said } ==> after_event(
            cfg,
            conversation,
            event,
        ) == after_saying(cfg, conversation, said),
        !(event is DuckActionRequested || event is DuckUserMessage) ==> after_event(
            cfg,
            conversation,
            event,
        ).0 == conversation && (after_event(cfg, conversation, event).1 matches DuckStepView::Tell(
            m,
        ) && m.len() == 0),
{
}

} // verus!
