//! A reply as it comes from the model's server: bytes in pieces, which make lines,
//! which make the pieces of the answer.

use vstd::prelude::*;

use super::client::{
    all_tokens, closing_token, cut, ends_only_last, frame_view, heard_all, heard_from,
    law_replies_end_once, lemma_cut_add, lemma_heard_all, lemma_line_texts_add,
    lemma_rest_unbroken, line_texts, no_reply, said, token_of, unbroken, ChatView, ClientError,
    ClientErrorView, Frame, FrameView, LineReader, ProgressView, Reply, ReplyView, TokenDelta,
    TokenView,
};

verus! {

/// What a line says: an object's message and whether it is the last, or why it cannot
/// be read.
pub type Reading = Result<(Option<ChatView>, bool), Seq<char>>;

/// The line with what it says.
pub open spec fn frame_of(line: Seq<char>, reading: Reading) -> FrameView {
    match reading {
        Ok((message, done)) => FrameView::Frame { message, done },
        Err(source) => FrameView::Bad { line, source },
    }
}

/// Some lines with what they say.
pub open spec fn frames_of(
    lines: Seq<Seq<char>>,
    how: spec_fn(Seq<char>) -> Reading,
) -> Seq<FrameView> {
    lines.map_values(|line: Seq<char>| frame_of(line, how(line)))
}

/// Whether lines are read in this way.
pub open spec fn reads<F: Fn(&str) -> Result<Frame, String>>(
    read: F,
    how: spec_fn(Seq<char>) -> Reading,
) -> bool {
    forall|line: &str, f: Result<Frame, String>| #[trigger]
        call_ensures(read, (line,), f) ==> frame_view(line@, f) == frame_of(line@, how(line@))
}

/// What a [`ChatStream`] holds.
pub struct StreamView {
    pub rest: Seq<u8>,
    pub reply: ReplyView,
}

/// A stream that nothing has come of.
pub open spec fn no_stream() -> StreamView {
    StreamView { rest: Seq::empty(), reply: no_reply() }
}

/// A stream after one more piece of bytes, and the pieces of the answer that were
/// passed on.
pub open spec fn absorbed(
    stream: StreamView,
    piece: Seq<u8>,
    how: spec_fn(Seq<char>) -> Reading,
) -> (StreamView, Seq<TokenView>) {
    let (complete, rest) = cut(stream.rest + piece);
    let (reply, tokens) = heard_from(stream.reply, frames_of(line_texts(complete), how));
    (StreamView { rest, reply }, tokens)
}

/// What comes of a reply when nothing more of it comes.
pub open spec fn outcome(reply: ReplyView) -> Result<Seq<char>, ClientErrorView> {
    match reply.progress {
        ProgressView::Failed { line, source } => Err(ClientErrorView::BadLine { line, source }),
        _ => Ok(reply.text),
    }
}

/// A reply as it comes.
#[derive(Debug, Clone, PartialEq, Eq)]
pub struct ChatStream {
    pub lines: LineReader,
    pub reply: Reply,
}

impl DeepView for ChatStream {
    type V = StreamView;

    open spec fn deep_view(&self) -> StreamView {
        StreamView { rest: self.lines.rest@, reply: self.reply.deep_view() }
    }
}

impl ChatStream {
    pub fn new() -> (r: Self)
        ensures
            r.valid(),
            r.deep_view() == no_stream(),
    {
        ChatStream { lines: LineReader::new(), reply: Reply::new() }
    }

    /// Whether what is left over is no complete line.
    pub open spec fn valid(&self) -> bool {
        self.lines.valid()
    }

    /// Takes more bytes, and gives the pieces of the answer that are to be passed on.
    /// Lines are read by `read`, but none behind the end or behind a line that cannot
    /// be read.
    pub fn absorb<F: Fn(&str) -> Result<Frame, String>>(&mut self, chunk: &[u8], read: F) -> (r:
        Vec<TokenDelta>)
        requires
            old(self).valid(),
            forall|line: &str| call_requires(read, (line,)),
        ensures
            final(self).valid(),
            forall|how: spec_fn(Seq<char>) -> Reading| #[trigger]
                reads(read, how) ==> (final(self).deep_view(), r.deep_view()) == absorbed(
                    old(self).deep_view(),
                    chunk@,
                    how,
                ),
    {
        let ghost before = self.reply.deep_view();
        let lines = self.lines.absorb(chunk);
        let ghost lv = lines.deep_view();
        let mut out: Vec<TokenDelta> = Vec::new();
        let mut i: usize = 0;
        assert forall|how: spec_fn(Seq<char>) -> Reading| #[trigger] reads(read, how) implies (
            self.reply.deep_view(),
            out.deep_view(),
        ) == heard_from(before, frames_of(lv.take(0), how)) by {
            assert(out.deep_view() =~= Seq::empty());
        }
        while i < lines.len() && !self.reply.is_over()
            invariant
                i <= lines@.len(),
                lv == lines.deep_view(),
                forall|line: &str| call_requires(read, (line,)),
                forall|how: spec_fn(Seq<char>) -> Reading| #[trigger]
                    reads(read, how) ==> (self.reply.deep_view(), out.deep_view()) == heard_from(
                        before,
                        frames_of(lv.take(i as int), how),
                    ),
                self.lines.valid(),
                self.lines.rest@ == cut(old(self).lines.rest@ + chunk@).1,
            decreases lines@.len() - i,
        {
            let ghost reply0 = self.reply.deep_view();
            let ghost out0 = out.deep_view();
            let line = lines[i].as_str();
            let frame = read(line);
            let ghost fv = frame_view(line@, frame);
            let token = self.reply.consume(line, frame);
            let ghost tv = token.deep_view();
            match token {
                Some(t) => {
                    out.push(t);
                    assert(out.deep_view() =~= out0.push(tv->0));
                },
                None => {},
            }
            assert forall|how: spec_fn(Seq<char>) -> Reading| #[trigger] reads(read, how) implies (
                self.reply.deep_view(),
                out.deep_view(),
            ) == heard_from(before, frames_of(lv.take(i + 1), how)) by {
                let next = frames_of(lv.take(i + 1), how);
                assert(next.drop_last() =~= frames_of(lv.take(i as int), how));
                assert(next.last() == fv);
            }
            i += 1;
        }
        assert forall|how: spec_fn(Seq<char>) -> Reading| #[trigger] reads(read, how) implies (
            self.deep_view(),
            out.deep_view(),
        ) == absorbed(old(self).deep_view(), chunk@, how) by {
            let known = frames_of(lv.take(i as int), how);
            let more = frames_of(lv.skip(i as int), how);
            assert(frames_of(lv, how) =~= known + more);
            lemma_heard_from_add(before, known, more);
            if self.reply.deep_view().progress is Streaming {
                assert(more =~= Seq::empty());
            } else {
                lemma_nothing_counts(self.reply.deep_view(), more);
            }
            assert(out.deep_view() + Seq::<TokenView>::empty() =~= out.deep_view());
        }
        out
    }

    /// Whether nothing more of the reply counts.
    pub fn is_over(&self) -> (r: bool)
        ensures
            r == (self.deep_view().reply.progress !is Streaming),
    {
        self.reply.is_over()
    }

    /// Ends the stream, when nothing more comes: the piece that is to be passed on,
    /// where the end was not said, and what came of it.
    pub fn finish(self) -> (r: (Option<TokenDelta>, Result<String, ClientError>))
        ensures
            r.0.deep_view() == (if self.deep_view().reply.progress is Streaming {
                Some(closing_token())
            } else {
                None
            }),
            match outcome(self.deep_view().reply) {
                Ok(s) => r.1 matches Ok(x) && x@ == s,
                Err(e) => r.1 matches Err(x) && x.deep_view() == e,
            },
    {
        self.reply.finish()
    }
}

/// More lines after some others.
proof fn lemma_heard_from_add(reply: ReplyView, a: Seq<FrameView>, b: Seq<FrameView>)
    ensures
        heard_from(reply, a + b).0 == heard_from(heard_from(reply, a).0, b).0,
        heard_from(reply, a + b).1 == heard_from(reply, a).1 + heard_from(
            heard_from(reply, a).0,
            b,
        ).1,
    decreases b.len(),
{
    let first = heard_from(reply, a);
    if b.len() == 0 {
        assert(a + b =~= a);
        assert(first.1 + Seq::<TokenView>::empty() =~= first.1);
    } else {
        lemma_heard_from_add(reply, a, b.drop_last());
        assert((a + b).drop_last() =~= a + b.drop_last());
        assert(heard_from(reply, a + b).1 =~= first.1 + heard_from(first.0, b).1);
    }
}

/// Behind the end nothing counts.
proof fn lemma_nothing_counts(reply: ReplyView, frames: Seq<FrameView>)
    requires
        reply.progress !is Streaming,
    ensures
        heard_from(reply, frames) == (reply, Seq::<TokenView>::empty()),
    decreases frames.len(),
{
    if frames.len() > 0 {
        lemma_nothing_counts(reply, frames.drop_last());
    }
}

// ---------------------------------------------------------------------------
// The whole stream
// ---------------------------------------------------------------------------

/// A stream after some pieces of bytes, taken one after the other, and the pieces of
/// the answer that were passed on.
pub open spec fn streamed(pieces: Seq<Seq<u8>>, how: spec_fn(Seq<char>) -> Reading) -> (
    StreamView,
    Seq<TokenView>,
)
    decreases pieces.len(),
{
    if pieces.len() == 0 {
        (no_stream(), Seq::empty())
    } else {
        let (stream, tokens) = streamed(pieces.drop_last(), how);
        let (next, more) = absorbed(stream, pieces.last(), how);
        (next, tokens + more)
    }
}

/// All that is passed on of a stream that has ended, and what came of it.
pub open spec fn answered(pieces: Seq<Seq<u8>>, how: spec_fn(Seq<char>) -> Reading) -> (
    Seq<TokenView>,
    Result<Seq<char>, ClientErrorView>,
) {
    let (stream, tokens) = streamed(pieces, how);
    (
        if stream.reply.progress is Streaming {
            tokens.push(closing_token())
        } else {
            tokens
        },
        outcome(stream.reply),
    )
}

/// Whether a line is neither the last nor one that cannot be read.
pub open spec fn goes_on(frame: FrameView) -> bool {
    frame matches FrameView::Frame { done, .. } && !done
}

/// How many lines stand before the first that does not go on.
pub open spec fn lead(frames: Seq<FrameView>) -> int
    decreases frames.len(),
{
    if frames.len() == 0 {
        0
    } else {
        let n = lead(frames.drop_last());
        if n == frames.len() - 1 && goes_on(frames.last()) {
            n + 1
        } else {
            n
        }
    }
}

/// The pieces of the answer that some lines stand for, one each. Only lines that can be
/// read stand for one.
pub open spec fn tokens_of(frames: Seq<FrameView>) -> Seq<TokenView> {
    frames.map_values(
        |f: FrameView|
            match f {
                FrameView::Frame { message, done } => token_of(message, done),
                FrameView::Bad { .. } => closing_token(),
            },
    )
}

/// What is passed on of some lines, and what comes of them. Each line up to the first
/// that is the last stands for a piece. Where no line is the last, a piece that ends
/// the answer is added. A line that cannot be read stops it, after the pieces of the
/// lines before.
pub open spec fn answer_of(frames: Seq<FrameView>) -> (
    Seq<TokenView>,
    Result<Seq<char>, ClientErrorView>,
) {
    let n = lead(frames);
    if n == frames.len() {
        (tokens_of(frames).push(closing_token()), Ok(said(tokens_of(frames))))
    } else {
        match frames[n] {
            FrameView::Frame { .. } => (
                tokens_of(frames.take(n + 1)),
                Ok(said(tokens_of(frames.take(n + 1)))),
            ),
            FrameView::Bad { line, source } => (
                tokens_of(frames.take(n)),
                Err(ClientErrorView::BadLine { line, source }),
            ),
        }
    }
}

/// The lines before the first that does not go on all go on.
proof fn lemma_lead(frames: Seq<FrameView>)
    ensures
        0 <= lead(frames) <= frames.len(),
        forall|i: int| 0 <= i < lead(frames) ==> goes_on(#[trigger] frames[i]),
        lead(frames) < frames.len() ==> !goes_on(frames[lead(frames)]),
    decreases frames.len(),
{
    if frames.len() > 0 {
        let front = frames.drop_last();
        lemma_lead(front);
        assert forall|i: int| 0 <= i < lead(frames) implies goes_on(#[trigger] frames[i]) by {
            if i < front.len() {
                assert(goes_on(front[i]));
            }
        }
    }
}

/// What was heard of some lines.
proof fn lemma_heard_lead(frames: Seq<FrameView>)
    ensures
        ({
            let n = lead(frames);
            let (reply, tokens) = heard_all(frames);
            if n == frames.len() {
                &&& tokens == tokens_of(frames)
                &&& reply.progress is Streaming
            } else {
                match frames[n] {
                    FrameView::Frame { .. } => {
                        &&& tokens == tokens_of(frames.take(n + 1))
                        &&& reply.progress is Done
                    },
                    FrameView::Bad { line, source } => {
                        &&& tokens == tokens_of(frames.take(n))
                        &&& reply.progress == (ProgressView::Failed { line, source })
                    },
                }
            }
        }),
    decreases frames.len(),
{
    lemma_lead(frames);
    let n = lead(frames);
    let tokens = heard_all(frames).1;
    if frames.len() == 0 {
        assert(tokens =~= tokens_of(frames));
    } else {
        let front = frames.drop_last();
        lemma_lead(front);
        lemma_heard_lead(front);
        let m = lead(front);
        if m < front.len() {
            assert(front.take(m) =~= frames.take(m));
            assert(front.take(m + 1) =~= frames.take(m + 1));
        } else {
            assert(front.take(m) =~= front);
            assert(frames.take(m) =~= front);
            assert(frames.take(m + 1) =~= frames);
            assert(frames =~= front.push(frames.last()));
            if frames.last() is Frame {
                assert(tokens =~= tokens_of(frames));
            }
        }
    }
}

/// Pieces of bytes, taken one after the other, come to the same as all of them at
/// once.
proof fn lemma_streamed(pieces: Seq<Seq<u8>>, how: spec_fn(Seq<char>) -> Reading)
    ensures
        streamed(pieces, how) == absorbed(no_stream(), pieces.flatten(), how),
        unbroken(streamed(pieces, how).0.rest),
    decreases pieces.len(),
{
    let flat = pieces.flatten();
    assert(no_stream().rest + flat =~= flat);
    lemma_rest_unbroken(flat);
    if pieces.len() == 0 {
        assert(flat =~= Seq::empty());
        assert(frames_of(line_texts(cut(flat).0), how) =~= Seq::empty());
    } else {
        let front = pieces.drop_last();
        let before = front.flatten();
        let piece = pieces.last();
        lemma_streamed(front, how);
        assert(no_stream().rest + before =~= before);
        assert(pieces =~= front.push(piece));
        front.lemma_flatten_push(piece);
        lemma_cut_add(before, piece);
        let a = cut(before).0;
        let b = cut(cut(before).1 + piece).0;
        lemma_line_texts_add(a, b);
        assert(frames_of(line_texts(a) + line_texts(b), how) =~= frames_of(line_texts(a), how)
            + frames_of(line_texts(b), how));
        lemma_heard_from_add(
            no_reply(),
            frames_of(line_texts(a), how),
            frames_of(line_texts(b), how),
        );
    }
}

/// What is passed on of a reply, and what comes of it, depends on its bytes alone, not
/// on the pieces that they come in. There is one piece of the answer for each line that
/// is not blank and has its end, in order, up to the first that says that it is the
/// last. The first line that cannot be read, where it comes before that, is the error,
/// behind the pieces of the lines before it.
pub proof fn law_a_stream_is_its_bytes(
    pieces: Seq<Seq<u8>>,
    how: spec_fn(Seq<char>) -> Reading,
)
    ensures
        answered(pieces, how) == answer_of(
            frames_of(line_texts(cut(pieces.flatten()).0), how),
        ),
        ({
            let frames = frames_of(line_texts(cut(pieces.flatten()).0), how);
            &&& 0 <= lead(frames) <= frames.len()
            &&& forall|i: int| 0 <= i < lead(frames) ==> goes_on(#[trigger] frames[i])
            &&& lead(frames) < frames.len() ==> !goes_on(frames[lead(frames)])
        }),
{
    let flat = pieces.flatten();
    let frames = frames_of(line_texts(cut(flat).0), how);
    lemma_streamed(pieces, how);
    assert(no_stream().rest + flat =~= flat);
    lemma_lead(frames);
    lemma_heard_lead(frames);
    lemma_heard_all(frames);
}

/// However its bytes are cut, a reply ends once: where it succeeds, exactly one piece of
/// the answer is marked as the last, and it is the last; where it fails, none is. The
/// pieces together say the answer.
pub proof fn law_a_stream_ends_once(pieces: Seq<Seq<u8>>, how: spec_fn(Seq<char>) -> Reading)
    ensures
        answered(pieces, how).1 matches Ok(text) ==> {
            let tokens = answered(pieces, how).0;
            &&& tokens.len() > 0
            &&& tokens.last().done
            &&& ends_only_last(tokens)
            &&& text == said(tokens)
        },
        answered(pieces, how).1 is Err ==> forall|i: int|
            0 <= i < answered(pieces, how).0.len() ==> !(#[trigger] answered(
                pieces,
                how,
            ).0[i]).done,
{
    let frames = frames_of(line_texts(cut(pieces.flatten()).0), how);
    lemma_streamed(pieces, how);
    assert(no_stream().rest + pieces.flatten() =~= pieces.flatten());
    law_replies_end_once(frames);
    assert(answered(pieces, how).0 == all_tokens(frames));
}

} // verus!
