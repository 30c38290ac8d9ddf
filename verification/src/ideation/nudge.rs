//! What the ideation engine suggests.

use vstd::prelude::*;

verus! {

/// The three kinds of suggestion.
#[derive(Debug, Clone, Copy, PartialEq, Eq, Hash, Structural)]
pub enum NudgeKind {
    /// One of a project's open questions.
    OpenQuestion,
    /// A recent note or reference that touches a project other than its own.
    CrossConnection,
    /// A project that is blocked or has gone quiet.
    BlockedEscalation,
}

impl NudgeKind {
    /// The name of the kind on the wire.
    pub open spec fn wire(self) -> Seq<char> {
        match self {
            NudgeKind::OpenQuestion => "open_question"@,
            NudgeKind::CrossConnection => "cross_connection"@,
            NudgeKind::BlockedEscalation => "blocked_escalation"@,
        }
    }

    /// The name of the kind on the wire.
    pub fn as_str(self) -> (r: &'static str)
        ensures
            r@ == self.wire(),
    {
        match self {
            NudgeKind::OpenQuestion => "open_question",
            NudgeKind::CrossConnection => "cross_connection",
            NudgeKind::BlockedEscalation => "blocked_escalation",
        }
    }
}

/// One suggestion to the user.
#[derive(Debug, Clone, PartialEq, Eq)]
pub struct Nudge {
    pub project_id: u128,
    pub kind: NudgeKind,
    /// The name of the project.
    pub title: String,
    pub body: String,
}

/// The contents of a [`Nudge`].
pub struct NudgeView {
    pub project_id: u128,
    pub kind: NudgeKind,
    pub title: Seq<char>,
    pub body: Seq<char>,
}

impl DeepView for Nudge {
    type V = NudgeView;

    open spec fn deep_view(&self) -> NudgeView {
        NudgeView {
            project_id: self.project_id,
            kind: self.kind,
            title: self.title@,
            body: self.body@,
        }
    }
}

/// The wire names tell the kinds apart.
pub proof fn law_wire_names_are_distinct(a: NudgeKind, b: NudgeKind)
    ensures
        a.wire() == b.wire() ==> a == b,
{
    reveal_strlit("open_question");
    reveal_strlit("cross_connection");
    reveal_strlit("blocked_escalation");
    if a != b {
        assert(a.wire()[0] != b.wire()[0]);
    }
}

} // verus!
