//! The conversation with the model: what is sent to it, and how its reply is put
//! together.
//!
//! A reply comes as lines of JSON, one object each, in pieces of bytes that are
//! cut anywhere. The bytes are fetched, and each line is read, outside; here they
//! are cut into lines, and the objects make the reply.

use vstd::prelude::*;
use vstd::utf8::{decode_utf8, valid_utf8};

use super::config::RubberDuckConfig;
use crate::stdtext::from_utf8;
use crate::text;
use crate::text::{decimal, trim};

verus! {

/// A message of the conversation.
#[derive(Debug, Clone, PartialEq, Eq)]
pub struct ChatMessage {
    /// `system`, `user` or `assistant`.
    pub role: String,
    pub content: String,
}

/// What a [`ChatMessage`] holds.
pub struct ChatView {
    pub role: Seq<char>,
    pub content: Seq<char>,
}

impl DeepView for ChatMessage {
    type V = ChatView;

    open spec fn deep_view(&self) -> ChatView {
        ChatView { role: self.role@, content: self.content@ }
    }
}

impl ChatMessage {
    pub fn new(role: &str, content: String) -> (r: Self)
        ensures
            r.deep_view() == (ChatView { role: role@, content: content@ }),
    {
        ChatMessage { role: text::owned(role), content }
    }

    /// A copy.
    pub fn copied(&self) -> (r: Self)
        ensures
            r.deep_view() == self.deep_view(),
    {
        ChatMessage { role: self.role.clone(), content: self.content.clone() }
    }
}

/// A piece of a reply.
#[derive(Debug, Clone, PartialEq, Eq)]
pub struct TokenDelta {
    pub role: String,
    /// What is appended to the reply.
    pub delta: String,
    /// Whether this is the last piece.
    pub done: bool,
}

/// What a [`TokenDelta`] holds.
pub struct TokenView {
    pub role: Seq<char>,
    pub delta: Seq<char>,
    pub done: bool,
}

impl DeepView for TokenDelta {
    type V = TokenView;

    open spec fn deep_view(&self) -> TokenView {
        TokenView { role: self.role@, delta: self.delta@, done: self.done }
    }
}

/// Why there is no reply.
#[derive(Debug, Clone, PartialEq, Eq)]
pub enum ClientError {
    /// The request failed.
    Http(String),
    /// The server refused.
    Status { status: u16, body: String },
    /// A line of the reply cannot be read, for the reason given.
    BadLine { line: String, source: String },
}

/// The contents of a [`ClientError`].
pub enum ClientErrorView {
    Http(Seq<char>),
    Status { status: u16, body: Seq<char> },
    BadLine { line: Seq<char>, source: Seq<char> },
}

impl DeepView for ClientError {
    type V = ClientErrorView;

    open spec fn deep_view(&self) -> ClientErrorView {
        match self {
            ClientError::Http(e) => ClientErrorView::Http(e@),
            ClientError::Status { status, body } => ClientErrorView::Status {
                status: *status,
                body: body@,
            },
            ClientError::BadLine { line, source } => ClientErrorView::BadLine {
                line: line@,
                source: source@,
            },
        }
    }
}

/// What a [`ClientError`] is shown as.
pub open spec fn client_message(e: ClientErrorView) -> Seq<char> {
    match e {
        ClientErrorView::Http(s) => "http error: "@ + s,
        ClientErrorView::Status { status, body } => "ollama returned HTTP "@ + decimal(
            status as nat,
        ) + ": "@ + body,
        ClientErrorView::BadLine { line, .. } => "malformed NDJSON line from ollama: "@ + line,
    }
}

impl ClientError {
    pub fn message(&self) -> (r: String)
        ensures
            r@ == client_message(self.deep_view()),
    {
        match self {
            ClientError::Http(e) => text::concat2("http error: ", e),
            ClientError::Status { status, body } => text::concat2(
                &text::concat3(
                    "ollama returned HTTP ",
                    &text::decimal_string(*status as u64),
                    ": ",
                ),
                body,
            ),
            ClientError::BadLine { line, .. } => text::concat2(
                "malformed NDJSON line from ollama: ",
                line,
            ),
        }
    }
}

// ---------------------------------------------------------------------------
// The request
// ---------------------------------------------------------------------------

/// A text without the slashes at its end.
pub open spec fn without_slashes(s: Seq<char>) -> Seq<char>
    decreases s.len(),
{
    if s.len() > 0 && s.last() == '/' {
        without_slashes(s.drop_last())
    } else {
        s
    }
}

/// Where a request is sent.
pub fn chat_url(cfg: &RubberDuckConfig) -> (r: String)
    ensures
        r@ == without_slashes(cfg.endpoint@) + "/api/chat"@,
{
    let mut cs = text::chars(&cfg.endpoint);
    while cs.len() > 0 && cs[cs.len() - 1] == '/'
        invariant
            without_slashes(cs@) == without_slashes(cfg.endpoint@),
        decreases cs@.len(),
    {
        assert(cs@.drop_last() =~= cs@.take(cs@.len() - 1));
        cs.pop();
    }
    text::concat2(&text::string(&cs), "/api/chat")
}

/// How many seconds a complete reply may take: one at least.
pub fn timeout_secs(cfg: &RubberDuckConfig) -> (r: u64)
    ensures
        r == if cfg.timeout_secs == 0 {
            1
        } else {
            cfg.timeout_secs
        },
{
    if cfg.timeout_secs == 0 {
        1
    } else {
        cfg.timeout_secs
    }
}

/// Whether the server agreed, by the status of its answer.
pub fn accepted(status: u16, body: String) -> (r: Result<(), ClientError>)
    ensures
        r is Ok <==> 200 <= status < 300,
        r matches Err(e) ==> e.deep_view() == (ClientErrorView::Status { status, body: body@ }),
{
    if 200 <= status && status < 300 {
        Ok(())
    } else {
        Err(ClientError::Status { status, body })
    }
}

// ---------------------------------------------------------------------------
// Lines
// ---------------------------------------------------------------------------

/// The complete lines of some bytes, without their ends, and the bytes behind
/// the last of them.
pub open spec fn cut(bytes: Seq<u8>) -> (Seq<Seq<u8>>, Seq<u8>)
    decreases bytes.len(),
{
    if bytes.len() == 0 {
        (Seq::empty(), Seq::empty())
    } else {
        let (complete, rest) = cut(bytes.drop_last());
        if bytes.last() == 10 {
            (complete.push(rest), Seq::empty())
        } else {
            (complete, rest.push(bytes.last()))
        }
    }
}

/// The text of a line, without the space around it: nothing for a line that is
/// no UTF-8.
pub open spec fn line_text(line: Seq<u8>) -> Seq<char> {
    if valid_utf8(line) {
        trim(decode_utf8(line))
    } else {
        Seq::empty()
    }
}

/// The texts of some lines. Empty ones are skipped.
pub open spec fn line_texts(lines: Seq<Seq<u8>>) -> Seq<Seq<char>>
    decreases lines.len(),
{
    if lines.len() == 0 {
        Seq::empty()
    } else {
        let texts = line_texts(lines.drop_last());
        let last = line_text(lines.last());
        if last.len() == 0 {
            texts
        } else {
            texts.push(last)
        }
    }
}

/// Whether some bytes hold no end of a line.
pub open spec fn unbroken(bytes: Seq<u8>) -> bool {
    forall|i: int| 0 <= i < bytes.len() ==> #[trigger] bytes[i] != 10
}

/// Bytes without an end of a line are all left.
pub(super) proof fn lemma_cut_unbroken(bytes: Seq<u8>)
    requires
        unbroken(bytes),
    ensures
        cut(bytes) == (Seq::<Seq<u8>>::empty(), bytes),
    decreases bytes.len(),
{
    if bytes.len() > 0 {
        assert forall|i: int| 0 <= i < bytes.drop_last().len() implies #[trigger]
            bytes.drop_last()[i] != 10 by {
            assert(bytes[i] != 10);
        }
        lemma_cut_unbroken(bytes.drop_last());
        assert(bytes.last() != 10);
        assert(bytes.drop_last().push(bytes.last()) =~= bytes);
    } else {
        assert(bytes =~= Seq::empty());
    }
}

/// What is left holds no end of a line.
pub(super) proof fn lemma_rest_unbroken(bytes: Seq<u8>)
    ensures
        unbroken(cut(bytes).1),
    decreases bytes.len(),
{
    if bytes.len() > 0 {
        lemma_rest_unbroken(bytes.drop_last());
    }
}

/// The texts of lines that follow each other are the texts of each.
pub(super) proof fn lemma_line_texts_add(a: Seq<Seq<u8>>, b: Seq<Seq<u8>>)
    ensures
        line_texts(a + b) == line_texts(a) + line_texts(b),
    decreases b.len(),
{
    if b.len() == 0 {
        assert(a + b =~= a);
        assert(line_texts(a) + line_texts(b) =~= line_texts(a));
    } else {
        lemma_line_texts_add(a, b.drop_last());
        assert((a + b).drop_last() =~= a + b.drop_last());
        assert(line_texts(a + b) =~= line_texts(a) + line_texts(b));
    }
}

/// Cutting in two pieces: what is left of the first goes before the second.
pub(super) proof fn lemma_cut_add(a: Seq<u8>, b: Seq<u8>)
    ensures
        cut(a + b).0 == cut(a).0 + cut(cut(a).1 + b).0,
        cut(a + b).1 == cut(cut(a).1 + b).1,
    decreases b.len(),
{
    let rest = cut(a).1;
    if b.len() == 0 {
        assert(a + b =~= a);
        assert(rest + b =~= rest);
        lemma_rest_unbroken(a);
        lemma_cut_unbroken(rest);
        assert(cut(a).0 + Seq::<Seq<u8>>::empty() =~= cut(a).0);
    } else {
        lemma_cut_add(a, b.drop_last());
        assert((a + b).drop_last() =~= a + b.drop_last());
        assert((rest + b).drop_last() =~= rest + b.drop_last());
        assert(cut(a + b).0 =~= cut(a).0 + cut(rest + b).0);
    }
}

fn text_of(line: &[u8]) -> (r: String)
    ensures
        r@ == line_text(line@),
{
    match from_utf8(line) {
        Some(s) => text::trimmed(&s),
        None => String::new(),
    }
}

/// Cuts bytes into lines as they come.
#[derive(Debug, Clone, PartialEq, Eq)]
pub struct LineReader {
    /// The bytes behind the last complete line.
    pub rest: Vec<u8>,
}

impl LineReader {
    pub fn new() -> (r: Self)
        ensures
            r.rest@ == Seq::<u8>::empty(),
    {
        LineReader { rest: Vec::new() }
    }

    /// Whether what is left over is no complete line.
    pub open spec fn valid(&self) -> bool {
        unbroken(self.rest@)
    }

    /// Takes more bytes, and gives the lines that they complete.
    pub fn absorb(&mut self, chunk: &[u8]) -> (r: Vec<String>)
        requires
            old(self).valid(),
        ensures
            final(self).valid(),
            r.deep_view() == line_texts(cut(old(self).rest@ + chunk@).0),
            final(self).rest@ == cut(old(self).rest@ + chunk@).1,
    {
        let ghost before = self.rest@;
        let mut out: Vec<String> = Vec::new();
        let mut i: usize = 0;
        proof {
            assert(chunk@.take(0) =~= Seq::empty());
            assert(before + chunk@.take(0) =~= before);
            lemma_cut_unbroken(before);
            assert(out.deep_view() =~= line_texts(cut(before).0));
        }
        while i < chunk.len()
            invariant
                i <= chunk@.len(),
                out.deep_view() == line_texts(cut(before + chunk@.take(i as int)).0),
                self.rest@ == cut(before + chunk@.take(i as int)).1,
            decreases chunk@.len() - i,
        {
            let ghost done = before + chunk@.take(i as int);
            let ghost more = before + chunk@.take(i + 1);
            assert(more.drop_last() =~= done);
            assert(more.last() == chunk@[i as int]);
            let b: u8 = chunk[i];
            if b == 10 {
                let ghost known = out.deep_view();
                let s = text_of(&self.rest);
                self.rest = Vec::new();
                proof {
                    assert(cut(more).0.drop_last() =~= cut(done).0);
                    assert(cut(more).0.last() == cut(done).1);
                }
                let cs = text::chars(&s);
                if cs.len() > 0 {
                    out.push(s);
                    assert(out.deep_view() =~= known.push(s@));
                }
            } else {
                self.rest.push(b);
            }
            i += 1;
        }
        assert(chunk@.take(i as int) =~= chunk@);
        proof {
            lemma_rest_unbroken(before + chunk@);
        }
        out
    }
}

/// The lines that some pieces of bytes complete, taken one after the other, and the
/// bytes that are left over. `rest` is what was left over before them.
pub open spec fn fed(rest: Seq<u8>, pieces: Seq<Seq<u8>>) -> (Seq<Seq<char>>, Seq<u8>)
    decreases pieces.len(),
{
    if pieces.len() == 0 {
        (Seq::empty(), rest)
    } else {
        let (complete, left) = cut(rest + pieces[0]);
        let (later, end) = fed(left, pieces.drop_first());
        (line_texts(complete) + later, end)
    }
}

/// Where the bytes of a reply are cut makes no difference: in however many pieces
/// they come, they give the same lines, and leave the same over, as in one.
pub proof fn law_pieces_make_no_difference(rest: Seq<u8>, pieces: Seq<Seq<u8>>)
    requires
        unbroken(rest),
    ensures
        fed(rest, pieces) == (
            line_texts(cut(rest + pieces.flatten()).0),
            cut(rest + pieces.flatten()).1,
        ),
        unbroken(fed(rest, pieces).1),
    decreases pieces.len(),
{
    if pieces.len() == 0 {
        assert(rest + pieces.flatten() =~= rest);
        lemma_cut_unbroken(rest);
        assert(line_texts(Seq::<Seq<u8>>::empty()) =~= Seq::empty());
    } else {
        let first = rest + pieces[0];
        let (complete, left) = cut(first);
        let more = pieces.drop_first();
        lemma_rest_unbroken(first);
        law_pieces_make_no_difference(left, more);
        lemma_cut_add(first, more.flatten());
        lemma_line_texts_add(complete, cut(left + more.flatten()).0);
        assert(pieces.flatten() == pieces[0] + more.flatten());
        assert(rest + pieces.flatten() =~= first + more.flatten());
    }
}

// ---------------------------------------------------------------------------
// The reply
// ---------------------------------------------------------------------------

/// An object of the reply.
#[derive(Debug, Clone, PartialEq, Eq)]
pub struct Frame {
    pub message: Option<ChatMessage>,
    pub done: bool,
}

/// What a line was read as.
pub enum FrameView {
    /// An object.
    Frame { message: Option<ChatView>, done: bool },
    /// Nothing that can be used; the line, and the reason.
    Bad { line: Seq<char>, source: Seq<char> },
}

/// What a line was read as.
pub open spec fn frame_view(line: Seq<char>, frame: Result<Frame, String>) -> FrameView {
    match frame {
        Ok(f) => FrameView::Frame { message: f.message.deep_view(), done: f.done },
        Err(source) => FrameView::Bad { line, source: source@ },
    }
}

/// How far a reply has come.
#[derive(Debug, Clone, PartialEq, Eq)]
pub enum Progress {
    Streaming,
    Done,
    Failed { line: String, source: String },
}

/// The contents of a [`Progress`].
pub enum ProgressView {
    Streaming,
    Done,
    Failed { line: Seq<char>, source: Seq<char> },
}

impl DeepView for Progress {
    type V = ProgressView;

    open spec fn deep_view(&self) -> ProgressView {
        match self {
            Progress::Streaming => ProgressView::Streaming,
            Progress::Done => ProgressView::Done,
            Progress::Failed { line, source } => ProgressView::Failed {
                line: line@,
                source: source@,
            },
        }
    }
}

/// A reply as far as it has come.
#[derive(Debug, Clone, PartialEq, Eq)]
pub struct Reply {
    pub text: String,
    pub progress: Progress,
}

/// What a [`Reply`] holds.
pub struct ReplyView {
    pub text: Seq<char>,
    pub progress: ProgressView,
}

impl DeepView for Reply {
    type V = ReplyView;

    open spec fn deep_view(&self) -> ReplyView {
        ReplyView { text: self.text@, progress: self.progress.deep_view() }
    }
}

/// The piece that an object stands for.
pub open spec fn token_of(message: Option<ChatView>, done: bool) -> TokenView {
    match message {
        Some(m) => TokenView { role: m.role, delta: m.content, done },
        None => TokenView { role: "assistant"@, delta: Seq::empty(), done },
    }
}

/// The piece that ends a reply whose end was not said.
pub open spec fn closing_token() -> TokenView {
    TokenView { role: "assistant"@, delta: Seq::empty(), done: true }
}

/// A reply that nothing has come of.
pub open spec fn no_reply() -> ReplyView {
    ReplyView { text: Seq::empty(), progress: ProgressView::Streaming }
}

/// A reply after one more line, and the piece that is passed on. Behind the end
/// or a bad line nothing counts.
pub open spec fn heard(reply: ReplyView, frame: FrameView) -> (ReplyView, Option<TokenView>) {
    if reply.progress !is Streaming {
        (reply, None)
    } else {
        match frame {
            FrameView::Frame { message, done } => {
                let token = token_of(message, done);
                (
                    ReplyView {
                        text: reply.text + token.delta,
                        progress: if done {
                            ProgressView::Done
                        } else {
                            ProgressView::Streaming
                        },
                    },
                    Some(token),
                )
            },
            FrameView::Bad { line, source } => (
                ReplyView { text: reply.text, progress: ProgressView::Failed { line, source } },
                None,
            ),
        }
    }
}

impl Reply {
    pub fn new() -> (r: Self)
        ensures
            r.deep_view() == no_reply(),
    {
        Reply { text: String::new(), progress: Progress::Streaming }
    }

    /// Takes a line of the reply and what it was read as, and gives the piece
    /// that is to be passed on.
    pub fn consume(&mut self, line: &str, frame: Result<Frame, String>) -> (r: Option<TokenDelta>)
        ensures
            final(self).deep_view() == heard(old(self).deep_view(), frame_view(line@, frame)).0,
            r.deep_view() == heard(old(self).deep_view(), frame_view(line@, frame)).1,
    {
        match &self.progress {
            Progress::Streaming => {},
            _ => {
                return None;
            },
        }
        match frame {
            Ok(f) => {
                let done = f.done;
                let (role, delta) = match f.message {
                    Some(m) => (m.role, m.content),
                    None => (text::owned("assistant"), String::new()),
                };
                self.text = text::concat2(&self.text, &delta);
                if done {
                    self.progress = Progress::Done;
                }
                Some(TokenDelta { role, delta, done })
            },
            Err(source) => {
                self.progress = Progress::Failed { line: text::owned(line), source };
                None
            },
        }
    }

    /// Whether nothing more of the reply counts.
    pub fn is_over(&self) -> (r: bool)
        ensures
            r == (self.deep_view().progress !is Streaming),
    {
        match &self.progress {
            Progress::Streaming => false,
            _ => true,
        }
    }

    /// Ends the reply, when nothing more comes: the piece that is to be passed
    /// on, where the end was not said, and what came of it.
    pub fn finish(self) -> (r: (Option<TokenDelta>, Result<String, ClientError>))
        ensures
            match self.deep_view().progress {
                ProgressView::Streaming => r.0.deep_view() == Some(closing_token()) && (r.1
                    matches Ok(s) && s@ == self.deep_view().text),
                ProgressView::Done => r.0 is None && (r.1 matches Ok(s) && s@
                    == self.deep_view().text),
                ProgressView::Failed { line, source } => r.0 is None && (r.1 matches Err(e)
                    && e.deep_view() == (ClientErrorView::BadLine { line, source })),
            },
    {
        match self.progress {
            Progress::Streaming => (
                Some(
                    TokenDelta {
                        role: text::owned("assistant"),
                        delta: String::new(),
                        done: true,
                    },
                ),
                Ok(self.text),
            ),
            Progress::Done => (None, Ok(self.text)),
            Progress::Failed { line, source } => (None, Err(ClientError::BadLine { line, source })),
        }
    }
}

/// A reply after some more lines, and the pieces that were passed on.
pub open spec fn heard_from(reply: ReplyView, frames: Seq<FrameView>) -> (
    ReplyView,
    Seq<TokenView>,
)
    decreases frames.len(),
{
    if frames.len() == 0 {
        (reply, Seq::empty())
    } else {
        let (so_far, tokens) = heard_from(reply, frames.drop_last());
        let (next, token) = heard(so_far, frames.last());
        (
            next,
            match token {
                Some(t) => tokens.push(t),
                None => tokens,
            },
        )
    }
}

/// A reply after some lines, and the pieces that were passed on.
pub open spec fn heard_all(frames: Seq<FrameView>) -> (ReplyView, Seq<TokenView>) {
    heard_from(no_reply(), frames)
}

/// All pieces of a reply that has ended.
pub open spec fn all_tokens(frames: Seq<FrameView>) -> Seq<TokenView> {
    let (reply, tokens) = heard_all(frames);
    if reply.progress is Streaming {
        tokens.push(closing_token())
    } else {
        tokens
    }
}

/// What some pieces say.
pub open spec fn said(tokens: Seq<TokenView>) -> Seq<char>
    decreases tokens.len(),
{
    if tokens.len() == 0 {
        Seq::empty()
    } else {
        said(tokens.drop_last()) + tokens.last().delta
    }
}

/// Whether none but the last of some pieces is marked as the last.
pub open spec fn ends_only_last(tokens: Seq<TokenView>) -> bool {
    forall|i: int| 0 <= i < tokens.len() - 1 ==> !(#[trigger] tokens[i]).done
}

pub(super) proof fn lemma_heard_all(frames: Seq<FrameView>)
    ensures
        said(heard_all(frames).1) == heard_all(frames).0.text,
        ends_only_last(heard_all(frames).1),
        heard_all(frames).0.progress is Done ==> heard_all(frames).1.len() > 0
            && heard_all(frames).1.last().done,
        heard_all(frames).0.progress !is Done ==> (forall|i: int|
            0 <= i < heard_all(frames).1.len() ==> !(#[trigger] heard_all(frames).1[i]).done),
    decreases frames.len(),
{
    if frames.len() > 0 {
        let before = heard_all(frames.drop_last());
        let after = heard_all(frames);
        lemma_heard_all(frames.drop_last());
        match heard(before.0, frames.last()).1 {
            Some(t) => {
                assert(after.1 == before.1.push(t));
                assert(after.1.drop_last() =~= before.1);
                assert forall|i: int| 0 <= i < after.1.len() - 1 implies !(#[trigger]
                after.1[i]).done by {
                    assert(after.1[i] == before.1[i]);
                }
            },
            None => {},
        }
    }
}

/// However a reply comes, it ends exactly once: the last piece that is passed on
/// is marked as the last, and no other. Where a line cannot be read, no piece is.
/// The pieces together say the reply.
pub proof fn law_replies_end_once(frames: Seq<FrameView>)
    ensures
        ends_only_last(all_tokens(frames)),
        heard_all(frames).0.progress is Failed <==> (all_tokens(frames).len() == 0 || !all_tokens(
            frames,
        ).last().done),
        said(all_tokens(frames)) == heard_all(frames).0.text,
{
    lemma_heard_all(frames);
    let (reply, tokens) = heard_all(frames);
    if reply.progress is Streaming {
        let all = all_tokens(frames);
        assert(all.drop_last() =~= tokens);
        assert forall|i: int| 0 <= i < all.len() - 1 implies !(#[trigger] all[i]).done by {
            assert(all[i] == tokens[i]);
        }
        assert(said(all) =~= said(tokens));
    }
}

/// Bytes are cut at the ends of lines: what stands before the first end is the first line.
pub proof fn law_lines_of_bytes(line: Seq<u8>, rest: Seq<u8>)
    requires
        forall|i: int| 0 <= i < line.len() ==> #[trigger] line[i] != 10,
    ensures
        cut(line) == (Seq::<Seq<u8>>::empty(), line),
        cut(line + seq![10u8] + rest).0 == seq![line] + cut(rest).0,
        cut(line + seq![10u8] + rest).1 == cut(rest).1,
{
    lemma_cut_unbroken(line);
    let a = line + seq![10u8];
    assert(a.drop_last() =~= line);
    assert(a.last() == 10);
    assert(cut(a).0 =~= seq![line]);
    assert(cut(a).1 =~= Seq::empty());
    lemma_cut_add(a, rest);
    assert(cut(a).1 + rest =~= rest);
}

/// A line that is UTF-8 is read as its text without the space around it; one that is not is
/// passed over, as is a blank one.
pub proof fn law_texts_of_lines(lines: Seq<Seq<u8>>, line: Seq<u8>)
    ensures
        valid_utf8(line) ==> line_text(line) == trim(decode_utf8(line)),
        !valid_utf8(line) ==> line_text(line).len() == 0,
        line_text(line).len() == 0 ==> line_texts(lines.push(line)) == line_texts(lines),
        line_text(line).len() > 0 ==> line_texts(lines.push(line)) == line_texts(lines).push(
            line_text(line),
        ),
        line_texts(Seq::empty()).len() == 0,
{
    assert(lines.push(line).drop_last() =~= lines);
}

/// What an object stands for: its message, or nothing said by the assistant; the end that is
/// added says nothing either.
pub proof fn law_objects_stand_for_pieces(message: Option<ChatView>, done: bool)
    ensures
        token_of(message, done).done == done,
        message is Some ==> token_of(message, done).role == message->0.role && token_of(
            message,
            done,
        ).delta == message->0.content,
        message is None ==> token_of(message, done).role == "assistant"@ && token_of(
            message,
            done,
        ).delta.len() == 0,
        closing_token().done && closing_token().role == "assistant"@ && closing_token().delta.len()
            == 0,
{
}

/// What pieces say together is what each says, in order.
pub proof fn law_pieces_say_together(tokens: Seq<TokenView>, t: TokenView)
    ensures
        said(Seq::empty()).len() == 0,
        said(tokens.push(t)) == said(tokens) + t.delta,
{
    assert(tokens.push(t).drop_last() =~= tokens);
}

/// Slashes at the end of the endpoint make no difference.
pub proof fn law_slashes_are_dropped(s: Seq<char>, slashes: nat)
    requires
        s.len() > 0 ==> s.last() != '/',
    ensures
        without_slashes(s + Seq::new(slashes, |i: int| '/')) == s,
    decreases slashes,
{
    let t = s + Seq::new(slashes, |i: int| '/');
    if slashes == 0 {
        assert(t =~= s);
    } else {
        assert(t.last() == '/');
        assert(t.drop_last() =~= s + Seq::new((slashes - 1) as nat, |i: int| '/'));
        law_slashes_are_dropped(s, (slashes - 1) as nat);
    }
}

/// What an error is shown as.
pub proof fn law_errors_in_words(e: ClientErrorView)
    ensures
        e matches ClientErrorView::Http(s) ==> client_message(e) == "http error: "@ + s,
        e matches ClientErrorView::Status { status, body } ==> client_message(e)
            == "ollama returned HTTP "@ + decimal(status as nat) + ": "@ + body,
        e matches ClientErrorView::BadLine { line, source } ==> client_message(e)
            == "malformed NDJSON line from ollama: "@ + line,
{
}

/// A reply that goes on grows by what is said, and ends with the piece that ends it; one that
/// has ended, or failed, stays as it is.
pub proof fn law_replies_grow(reply: ReplyView, message: Option<ChatView>, done: bool, f: FrameView)
    ensures
        reply.progress is Streaming ==> ({
            let (next, token) = heard(reply, FrameView::Frame { message, done });
            next.text == reply.text + (if message is Some {
                message->0.content
            } else {
                Seq::empty()
            }) && (next.progress is Done <==> done) && (next.progress is Streaming <==> !done)
                && token == Some(token_of(message, done))
        }),
        reply.progress is Streaming ==> (f matches FrameView::Bad { line, source } ==> heard(
            reply,
            f,
        ).0.text == reply.text && heard(reply, f).0.progress == (ProgressView::Failed {
            line,
            source,
        }) && heard(reply, f).1 is None),
        !(reply.progress is Streaming) ==> heard(reply, f).0 == reply && heard(reply, f).1 is None,
{
    assert(""@ =~= Seq::<char>::empty()) by {
        reveal_strlit("");
    }
}

} // verus!
