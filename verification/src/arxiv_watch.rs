//! Watching for new papers.
//!
//! The feed is fetched outside. Here stands what is asked for, what a feed says,
//! which of its papers are new, and what the shell is told.

use vstd::prelude::*;
use vstd::slice::slice_subrange;
use vstd::string::StringExecFns;

use crate::events::{Event, EventKind, EventView};
use crate::json::{read_strings, string_at, string_field, strings_in, strings_text, write_strings};
use crate::paths::{joined, path_join};
use crate::text;
use crate::text::{decimal, find, join, pieces_after, replace, rows, trim, words};

verus! {

pub const ARXIV_WIDGET_ID: &'static str = "arxiv-watch";

pub const ARXIV_WIDGET_TYPE: &'static str = "arxiv_watch";

/// How many seen papers are kept across restarts.
pub const MAX_SEEN: usize = 2000;

/// The minutes between two polls where none are configured.
pub const DEFAULT_POLL_MINUTES: u64 = 60;

/// How many papers are asked for where it is not configured.
pub const DEFAULT_MAX_RESULTS: u32 = 20;

/// How many characters of a summary are kept.
pub const SUMMARY_CHARS: usize = 280;

// ---------------------------------------------------------------------------
// What is asked for
// ---------------------------------------------------------------------------

/// What to watch for. Without keywords and authors nothing is watched for.
#[derive(Debug, Clone, PartialEq, Eq)]
pub struct ArxivConfig {
    pub keywords: Vec<String>,
    pub authors: Vec<String>,
    pub poll_minutes: Option<u64>,
    pub max_results: Option<u32>,
}

impl Default for ArxivConfig {
    fn default() -> (r: Self)
        ensures
            r.keywords@.len() == 0,
            r.authors@.len() == 0,
            r.poll_minutes is None,
            r.max_results is None,
    {
        ArxivConfig {
            keywords: Vec::new(),
            authors: Vec::new(),
            poll_minutes: None,
            max_results: None,
        }
    }
}

/// A phrase of a query: in encoded quotes, with plus signs for spaces.
pub open spec fn quoted(s: Seq<char>) -> Seq<char> {
    "%22"@ + replace(trim(s), " "@, "+"@) + "%22"@
}

/// The terms of a query: one for each keyword, then one for each author.
pub open spec fn terms(keywords: Seq<Seq<char>>, authors: Seq<Seq<char>>) -> Seq<Seq<char>> {
    keywords.map_values(|k: Seq<char>| "all:"@ + quoted(k)) + authors.map_values(
        |a: Seq<char>| "au:"@ + quoted(a),
    )
}

/// The query for what is watched for.
pub open spec fn query_text(keywords: Seq<Seq<char>>, authors: Seq<Seq<char>>) -> Seq<char> {
    join(terms(keywords, authors), "+OR+"@)
}

fn quote(s: &str) -> (r: String)
    ensures
        r@ == quoted(s@),
{
    proof {
        reveal_strlit(" ");
    }
    let plain = text::replaced(&text::trimmed(s), " ", "+");
    text::concat3("%22", &plain, "%22")
}

fn push_terms(out: &mut Vec<String>, head: &str, items: &[String])
    ensures
        final(out).deep_view() == old(out).deep_view() + items.deep_view().map_values(
            |k: Seq<char>| head@ + quoted(k),
        ),
{
    let ghost before = out.deep_view();
    let ghost hv = head@;
    let ghost all = items.deep_view().map_values(|k: Seq<char>| hv + quoted(k));
    let mut i: usize = 0;
    assert(before + all.take(0) =~= before);
    while i < items.len()
        invariant
            i <= items@.len(),
            hv == head@,
            all == items.deep_view().map_values(|k: Seq<char>| hv + quoted(k)),
            out.deep_view() == before + all.take(i as int),
        decreases items@.len() - i,
    {
        let ghost now = out.deep_view();
        out.push(text::concat2(head, &quote(&items[i])));
        assert(out.deep_view() =~= now.push(all[i as int]));
        assert(out.deep_view() =~= before + all.take(i + 1));
        i += 1;
    }
    assert(all.take(i as int) =~= all);
}

impl ArxivConfig {
    /// Whether nothing is watched for.
    pub fn dormant(&self) -> (r: bool)
        ensures
            r == (self.keywords@.len() == 0 && self.authors@.len() == 0),
    {
        self.keywords.len() == 0 && self.authors.len() == 0
    }

    /// The query for what is watched for.
    pub fn query(&self) -> (r: String)
        ensures
            r@ == query_text(self.keywords.deep_view(), self.authors.deep_view()),
    {
        let mut out: Vec<String> = Vec::new();
        push_terms(&mut out, "all:", &self.keywords);
        push_terms(&mut out, "au:", &self.authors);
        assert(out.deep_view() =~= terms(self.keywords.deep_view(), self.authors.deep_view()));
        text::join_strings(&out, "+OR+")
    }

    /// How many papers are asked for.
    pub open spec fn limit(&self) -> u32 {
        match self.max_results {
            Some(n) => n,
            None => DEFAULT_MAX_RESULTS,
        }
    }

    /// The address of the feed.
    pub fn url(&self) -> (r: String)
        ensures
            r@ == "http://export.arxiv.org/api/query?search_query="@ + query_text(
                self.keywords.deep_view(),
                self.authors.deep_view(),
            ) + "&sortBy=submittedDate&sortOrder=descending&max_results="@ + decimal(
                self.limit() as nat,
            ),
    {
        let limit: u32 = match self.max_results {
            Some(n) => n,
            None => DEFAULT_MAX_RESULTS,
        };
        let mut out = text::concat3(
            "http://export.arxiv.org/api/query?search_query=",
            &self.query(),
            "&sortBy=submittedDate&sortOrder=descending&max_results=",
        );
        out.append(&text::decimal_string(limit as u64));
        out
    }

    /// The minutes between two polls.
    pub open spec fn minutes(&self) -> u64 {
        match self.poll_minutes {
            Some(m) => m,
            None => DEFAULT_POLL_MINUTES,
        }
    }

    /// The seconds between two polls.
    pub fn interval_secs(&self) -> (r: u64)
        requires
            self.minutes() * 60 <= u64::MAX,
        ensures
            r == self.minutes() * 60,
    {
        let m: u64 = match self.poll_minutes {
            Some(m) => m,
            None => DEFAULT_POLL_MINUTES,
        };
        m * 60
    }
}

/// The file of the papers that were seen, below the state directory of the user.
pub open spec fn seen_file(
    xdg_state_home: Option<Seq<char>>,
    home: Option<Seq<char>>,
    temp_dir: Seq<char>,
) -> Seq<char> {
    let base = match (xdg_state_home, home) {
        (Some(s), _) => s,
        (None, Some(h)) => joined(h, ".local/state"@),
        (None, None) => temp_dir,
    };
    joined(joined(base, "levshell"@), "arxiv_seen.json"@)
}

/// The file of the papers that were seen.
pub fn default_seen_path(xdg_state_home: &Option<String>, home: &Option<String>, temp_dir: &str) -> (r:
    String)
    ensures
        r@ == seen_file(xdg_state_home.deep_view(), home.deep_view(), temp_dir@),
{
    let base = match (xdg_state_home, home) {
        (Some(s), _) => text::owned(s),
        (None, Some(h)) => path_join(h, ".local/state"),
        (None, None) => text::owned(temp_dir),
    };
    path_join(&path_join(&base, "levshell"), "arxiv_seen.json")
}

// ---------------------------------------------------------------------------
// What a feed says
// ---------------------------------------------------------------------------

/// A paper of a feed.
#[derive(Debug, Clone, PartialEq, Eq)]
pub struct Paper {
    pub id: String,
    pub title: String,
    pub summary: String,
    /// Where its PDF is.
    pub url: String,
    pub published: String,
}

/// What a [`Paper`] holds.
pub struct PaperView {
    pub id: Seq<char>,
    pub title: Seq<char>,
    pub summary: Seq<char>,
    pub url: Seq<char>,
    pub published: Seq<char>,
}

impl DeepView for Paper {
    type V = PaperView;

    open spec fn deep_view(&self) -> PaperView {
        PaperView {
            id: self.id@,
            title: self.title@,
            summary: self.summary@,
            url: self.url@,
            published: self.published@,
        }
    }
}

/// What stands in the first element of a name.
pub open spec fn element(block: Seq<char>, name: Seq<char>) -> Option<Seq<char>> {
    let open = "<"@ + name + ">"@;
    let close = "</"@ + name + ">"@;
    match find(block, open) {
        Some(i) => {
            let rest = block.skip(i + open.len());
            match find(rest, close) {
                Some(j) => Some(rest.take(j)),
                None => None,
            }
        },
        None => None,
    }
}

/// A text with the entities of XML replaced, one after the other, and with single
/// spaces between its words.
pub open spec fn unescaped(s: Seq<char>) -> Seq<char> {
    let a = replace(s, "&amp;"@, "&"@);
    let b = replace(a, "&lt;"@, "<"@);
    let c = replace(b, "&gt;"@, ">"@);
    let d = replace(c, "&quot;"@, "\""@);
    let e = replace(d, "&#39;"@, "'"@);
    let f = replace(e, "&apos;"@, "'"@);
    join(words(f), " "@)
}

/// The first characters of a text.
pub open spec fn shortened(s: Seq<char>, n: int) -> Seq<char> {
    if s.len() <= n {
        s
    } else {
        s.take(n)
    }
}

/// The paper of an entry, where the entry is closed and has an identifier.
pub open spec fn paper_of(chunk: Seq<char>) -> Option<PaperView> {
    match find(chunk, "</entry>"@) {
        Some(end) => {
            let block = chunk.take(end);
            match element(block, "id"@) {
                Some(raw) => {
                    let id = trim(raw);
                    Some(
                        PaperView {
                            id,
                            title: match element(block, "title"@) {
                                Some(t) => unescaped(t),
                                None => Seq::empty(),
                            },
                            summary: match element(block, "summary"@) {
                                Some(t) => shortened(unescaped(t), SUMMARY_CHARS as int),
                                None => Seq::empty(),
                            },
                            url: replace(id, "/abs/"@, "/pdf/"@),
                            published: match element(block, "published"@) {
                                Some(t) => trim(t),
                                None => Seq::empty(),
                            },
                        },
                    )
                },
                None => None,
            }
        },
        None => None,
    }
}

/// The papers of some entries, in their order.
pub open spec fn papers_of(chunks: Seq<Seq<char>>) -> Seq<PaperView>
    decreases chunks.len(),
{
    if chunks.len() == 0 {
        Seq::empty()
    } else {
        match paper_of(chunks.last()) {
            Some(p) => papers_of(chunks.drop_last()).push(p),
            None => papers_of(chunks.drop_last()),
        }
    }
}

/// The papers of a feed.
pub open spec fn papers_in(xml: Seq<char>) -> Seq<PaperView> {
    papers_of(pieces_after(xml, "<entry>"@))
}

fn replaced_in(s: &[char], pat: &str, with: &str) -> (r: Vec<char>)
    requires
        pat@.len() > 0,
    ensures
        r@ == replace(s@, pat@, with@),
{
    let p = text::chars(pat);
    let w = text::chars(with);
    text::replace_chars(s, &p, &w)
}

/// A text with the entities of XML replaced and with single spaces between its
/// words.
pub fn unescape(s: &[char]) -> (r: String)
    ensures
        r@ == unescaped(s@),
{
    proof {
        reveal_strlit("&amp;");
        reveal_strlit("&lt;");
        reveal_strlit("&gt;");
        reveal_strlit("&quot;");
        reveal_strlit("&#39;");
        reveal_strlit("&apos;");
    }
    let a = replaced_in(s, "&amp;", "&");
    let b = replaced_in(&a, "&lt;", "<");
    let c = replaced_in(&b, "&gt;", ">");
    let d = replaced_in(&c, "&quot;", "\"");
    let e = replaced_in(&d, "&#39;", "'");
    let f = replaced_in(&e, "&apos;", "'");
    let parts = text::words_chars(&f);
    let ghost wv = rows(parts@);
    let mut out: Vec<String> = Vec::new();
    let mut i: usize = 0;
    assert(out.deep_view() =~= wv.take(0));
    while i < parts.len()
        invariant
            i <= parts@.len(),
            wv == rows(parts@),
            out.deep_view() == wv.take(i as int),
        decreases parts@.len() - i,
    {
        let ghost before = out.deep_view();
        out.push(text::string(&parts[i]));
        assert(out.deep_view() =~= before.push(wv[i as int]));
        assert(out.deep_view() =~= wv.take(i + 1));
        i += 1;
    }
    assert(wv.take(i as int) =~= wv);
    text::join_strings(&out, " ")
}

fn tag<'a>(block: &'a [char], name: &str) -> (r: Option<&'a [char]>)
    ensures
        match (r, element(block@, name@)) {
            (Some(x), Some(y)) => x@ == y,
            (None, None) => true,
            _ => false,
        },
{
    let open = text::chars(&text::concat3("<", name, ">"));
    let close = text::chars(&text::concat3("</", name, ">"));
    let len: usize = block.len();
    match text::find_chars(block, &open) {
        Some(i) => {
            let rest = slice_subrange(block, i + open.len(), len);
            assert(rest@ =~= block@.skip(i + open@.len()));
            match text::find_chars(rest, &close) {
                Some(j) => {
                    let inner = slice_subrange(rest, 0, j);
                    assert(inner@ =~= rest@.take(j as int));
                    Some(inner)
                },
                None => None,
            }
        },
        None => None,
    }
}

fn first_chars(s: &str, n: usize) -> (r: String)
    ensures
        r@ == shortened(s@, n as int),
{
    let cs = text::chars(s);
    if cs.len() <= n {
        text::owned(s)
    } else {
        let part = slice_subrange(&cs, 0, n);
        assert(part@ =~= s@.take(n as int));
        text::string(part)
    }
}

fn read_paper(chunk: &[char]) -> (r: Option<Paper>)
    ensures
        r.deep_view() == paper_of(chunk@),
{
    let close = text::chars("</entry>");
    let end: usize = match text::find_chars(chunk, &close) {
        Some(i) => i,
        None => {
            return None;
        },
    };
    let block = slice_subrange(chunk, 0, end);
    assert(block@ =~= chunk@.take(end as int));
    let id = match tag(block, "id") {
        Some(raw) => text::string(text::trim_chars(raw)),
        None => {
            return None;
        },
    };
    proof {
        reveal_strlit("/abs/");
    }
    let url = text::replaced(&id, "/abs/", "/pdf/");
    let title = match tag(block, "title") {
        Some(t) => unescape(t),
        None => String::new(),
    };
    let summary = match tag(block, "summary") {
        Some(t) => first_chars(&unescape(t), SUMMARY_CHARS),
        None => String::new(),
    };
    let published = match tag(block, "published") {
        Some(t) => text::string(text::trim_chars(t)),
        None => String::new(),
    };
    Some(Paper { id, title, summary, url, published })
}

/// The papers of a feed. An entry that is not closed, or has no identifier, is
/// passed over.
pub fn parse_atom(xml: &str) -> (r: Vec<Paper>)
    ensures
        r.deep_view() == papers_in(xml@),
{
    let cs = text::chars(xml);
    let pattern = text::chars("<entry>");
    proof {
        reveal_strlit("<entry>");
    }
    let chunks = text::find_pieces(&cs, &pattern);
    let ghost cv = rows(chunks@);
    let mut out: Vec<Paper> = Vec::new();
    let mut i: usize = 0;
    assert(out.deep_view() =~= papers_of(cv.take(0)));
    while i < chunks.len()
        invariant
            i <= chunks@.len(),
            cv == rows(chunks@),
            out.deep_view() == papers_of(cv.take(i as int)),
        decreases chunks@.len() - i,
    {
        let ghost before = out.deep_view();
        assert(cv.take(i + 1).drop_last() =~= cv.take(i as int));
        assert(cv.take(i + 1).last() == chunks@[i as int]@);
        if let Some(p) = read_paper(&chunks[i]) {
            out.push(p);
            assert(out.deep_view() =~= before.push(p.deep_view()));
        }
        i += 1;
    }
    assert(cv.take(i as int) =~= cv);
    out
}

// ---------------------------------------------------------------------------
// What is new
// ---------------------------------------------------------------------------

/// The papers that were not seen.
pub open spec fn fresh(papers: Seq<PaperView>, seen: Seq<Seq<char>>) -> Seq<PaperView> {
    papers.filter(|p: PaperView| !seen.contains(p.id))
}

/// The identifiers that were seen, and behind them those of some papers.
pub open spec fn with_ids(seen: Seq<Seq<char>>, papers: Seq<PaperView>) -> Seq<Seq<char>>
    decreases papers.len(),
{
    if papers.len() == 0 {
        seen
    } else {
        let before = with_ids(seen, papers.drop_last());
        if before.contains(papers.last().id) {
            before
        } else {
            before.push(papers.last().id)
        }
    }
}

/// Each text once, in the order in which they first come.
pub open spec fn each_once(items: Seq<Seq<char>>) -> Seq<Seq<char>>
    decreases items.len(),
{
    if items.len() == 0 {
        Seq::empty()
    } else {
        let before = each_once(items.drop_last());
        if before.contains(items.last()) {
            before
        } else {
            before.push(items.last())
        }
    }
}

/// The last elements of a list.
pub open spec fn last_of(items: Seq<Seq<char>>, n: int) -> Seq<Seq<char>> {
    if items.len() <= n {
        items
    } else {
        items.skip(items.len() - n)
    }
}

/// The state of the watcher.
pub struct WatchView {
    /// The papers that were seen, each once, in the order in which they were.
    pub seen: Seq<Seq<char>>,
    /// The new papers that the shell shows.
    pub last_new: Seq<PaperView>,
}

/// The state after a poll that gave a feed.
pub open spec fn polled(s: WatchView, xml: Seq<char>) -> WatchView {
    let news = fresh(papers_in(xml), s.seen);
    WatchView {
        seen: with_ids(s.seen, news),
        last_new: if news.len() > 0 {
            news
        } else {
            s.last_new
        },
    }
}

/// What comes of an event.
#[derive(Debug, Clone, PartialEq, Eq)]
pub enum WatchStep {
    /// Nothing.
    Ignore,
    /// A page is to be opened.
    Open(String),
    /// The papers that are shown are to be published.
    Publish,
}

/// The contents of a [`WatchStep`].
pub enum WatchStepView {
    Ignore,
    Open(Seq<char>),
    Publish,
}

impl DeepView for WatchStep {
    type V = WatchStepView;

    open spec fn deep_view(&self) -> WatchStepView {
        match self {
            WatchStep::Ignore => WatchStepView::Ignore,
            WatchStep::Open(url) => WatchStepView::Open(url@),
            WatchStep::Publish => WatchStepView::Publish,
        }
    }
}

/// What an action of the widget leads to, given the address that its data names.
pub open spec fn acted(s: WatchView, action: Seq<char>, url: Option<Seq<char>>) -> (
    WatchView,
    WatchStepView,
) {
    if action == "open"@ {
        match url {
            Some(u) => (s, WatchStepView::Open(u)),
            None => (s, WatchStepView::Ignore),
        }
    } else if action == "ack"@ {
        (WatchView { last_new: Seq::empty(), ..s }, WatchStepView::Publish)
    } else {
        (s, WatchStepView::Ignore)
    }
}

/// The watcher.
pub struct ArxivWatchModule {
    pub cfg: ArxivConfig,
    pub seen: Vec<String>,
    pub last_new: Vec<Paper>,
}

impl ArxivWatchModule {
    /// The state of the watcher.
    pub open spec fn state(&self) -> WatchView {
        WatchView { seen: self.seen.deep_view(), last_new: self.last_new.deep_view() }
    }

    /// A watcher. `saved` is what was kept of the papers that were seen.
    pub fn new(cfg: ArxivConfig, saved: Option<&str>) -> (r: Self)
        ensures
            r.cfg == cfg,
            r.state() == (WatchView {
                seen: match saved {
                    Some(t) => match strings_in(t@) {
                        Some(items) => each_once(items),
                        None => Seq::empty(),
                    },
                    None => Seq::empty(),
                },
                last_new: Seq::empty(),
            }),
    {
        let mut seen: Vec<String> = Vec::new();
        let last_new: Vec<Paper> = Vec::new();
        assert(seen.deep_view() =~= Seq::empty());
        assert(last_new.deep_view() =~= Seq::empty());
        if let Some(t) = saved {
            if let Some(items) = read_strings(t) {
                seen = once(&items);
            }
        }
        ArxivWatchModule { cfg, seen, last_new }
    }

    /// What is kept of the papers that were seen: the last of them. Reading it
    /// gives them back.
    pub fn persist_seen(&self) -> (r: String)
        ensures
            r@ == strings_text(last_of(self.state().seen, MAX_SEEN as int)),
            strings_in(r@) == Some(last_of(self.state().seen, MAX_SEEN as int)),
    {
        let len: usize = self.seen.len();
        if len <= MAX_SEEN {
            return write_strings(&self.seen);
        }
        let kept = slice_subrange(self.seen.as_slice(), len - MAX_SEEN, len);
        assert(kept.deep_view() =~= last_of(self.state().seen, MAX_SEEN as int));
        write_strings(kept)
    }

    /// Takes what a poll gave: the feed, or nothing where it failed. Tells whether
    /// there are papers to keep, and whether the shell is to be told.
    pub fn poll(&mut self, xml: Option<&str>) -> (r: (bool, bool))
        ensures
            final(self).cfg == old(self).cfg,
            ({
                let dormant = old(self).cfg.keywords@.len() == 0 && old(self).cfg.authors@.len()
                    == 0;
                match xml {
                    Some(feed) if !dormant => {
                        &&& final(self).state() == polled(old(self).state(), feed@)
                        &&& r.0 == (fresh(papers_in(feed@), old(self).state().seen).len() > 0)
                        &&& r.1
                    },
                    _ => {
                        &&& final(self).state() == old(self).state()
                        &&& !r.0
                        &&& !r.1
                    },
                }
            }),
    {
        if self.cfg.dormant() {
            return (false, false);
        }
        let feed = match xml {
            Some(x) => x,
            None => {
                return (false, false);
            },
        };
        let papers = parse_atom(feed);
        let news = keep_fresh(papers, &self.seen);
        let any = news.len() > 0;
        add_ids(&mut self.seen, &news);
        if any {
            self.last_new = news;
        }
        (any, true)
    }

    /// Carries out an action of the widget, given the address that its data names.
    pub fn apply_action(&mut self, action: &str, url: Option<String>) -> (r: WatchStep)
        ensures
            final(self).cfg == old(self).cfg,
            final(self).state() == acted(old(self).state(), action@, url.deep_view()).0,
            r.deep_view() == acted(old(self).state(), action@, url.deep_view()).1,
    {
        if text::same(action, "open") {
            match url {
                Some(u) => WatchStep::Open(u),
                None => WatchStep::Ignore,
            }
        } else if text::same(action, "ack") {
            self.last_new = Vec::new();
            assert(self.last_new.deep_view() =~= Seq::empty());
            WatchStep::Publish
        } else {
            WatchStep::Ignore
        }
    }

    /// Handles an event.
    pub fn on_event(&mut self, event: &Event) -> (r: WatchStep)
        ensures
            final(self).cfg == old(self).cfg,
            match event.deep_view() {
                EventView::WidgetActionReceived { widget_id, action, data } if widget_id
                    == "arxiv-watch"@ => {
                    let out = acted(old(self).state(), action, string_at(data, "url"@));
                    final(self).state() == out.0 && r.deep_view() == out.1
                },
                _ => final(self).state() == old(self).state() && r.deep_view()
                    == WatchStepView::Ignore,
            },
    {
        match event {
            Event::WidgetActionReceived { widget_id, action, data } => {
                if text::same(widget_id, ARXIV_WIDGET_ID) {
                    let url = string_field(data, "url");
                    self.apply_action(action, url)
                } else {
                    WatchStep::Ignore
                }
            },
            _ => WatchStep::Ignore,
        }
    }

    /// The kinds of event that the module listens to.
    pub fn subscribed_events(&self) -> (r: Vec<EventKind>)
        ensures
            r@ == seq![EventKind::WidgetActionReceived],
    {
        let r: Vec<EventKind> = vec![EventKind::WidgetActionReceived];
        assert(r@ =~= seq![EventKind::WidgetActionReceived]);
        r
    }
}

fn once(items: &[String]) -> (r: Vec<String>)
    ensures
        r.deep_view() == each_once(items.deep_view()),
{
    let ghost iv = items.deep_view();
    let mut out: Vec<String> = Vec::new();
    let mut i: usize = 0;
    assert(out.deep_view() =~= each_once(iv.take(0)));
    while i < items.len()
        invariant
            i <= items@.len(),
            iv == items.deep_view(),
            out.deep_view() == each_once(iv.take(i as int)),
        decreases items@.len() - i,
    {
        let ghost before = out.deep_view();
        assert(iv.take(i + 1).drop_last() =~= iv.take(i as int));
        assert(iv.take(i + 1).last() == items@[i as int]@);
        if !text::strings_contain(&out, &items[i]) {
            out.push(items[i].clone());
            assert(out.deep_view() =~= before.push(iv[i as int]));
        }
        i += 1;
    }
    assert(iv.take(i as int) =~= iv);
    out
}

fn keep_fresh(papers: Vec<Paper>, seen: &[String]) -> (r: Vec<Paper>)
    ensures
        r.deep_view() == fresh(papers.deep_view(), seen.deep_view()),
{
    let ghost pv = papers.deep_view();
    let ghost sv = seen.deep_view();
    let ghost p = |x: PaperView| !sv.contains(x.id);
    assert(p =~= (|p: PaperView| !sv.contains(p.id)));
    let mut rest = papers;
    let mut out: Vec<Paper> = Vec::new();
    let ghost mut n: int = 0;
    assert(pv.take(0).filter(p) =~= Seq::empty()) by {
        reveal(Seq::filter);
    }
    assert(out.deep_view() =~= pv.take(0).filter(p));
    assert(pv.skip(0) =~= pv);
    while rest.len() > 0
        invariant
            0 <= n <= pv.len(),
            sv == seen.deep_view(),
            p == (|x: PaperView| !sv.contains(x.id)),
            rest.deep_view() == pv.skip(n),
            out.deep_view() == pv.take(n).filter(p),
        decreases rest@.len(),
    {
        let ghost before = out.deep_view();
        let ghost r0 = rest.deep_view();
        let paper = rest.remove(0);
        proof {
            assert(r0.len() > 0);
            assert(paper.deep_view() == r0[0]);
            assert(rest.deep_view() =~= r0.skip(1));
            assert(r0.skip(1) =~= pv.skip(n + 1));
            assert(pv.take(n + 1) =~= pv.take(n).push(pv[n]));
            pv.take(n).lemma_filter_push(pv[n], p);
            n = n + 1;
        }
        if !text::strings_contain(seen, &paper.id) {
            out.push(paper);
            assert(out.deep_view() =~= before.push(pv[n - 1]));
        }
    }
    assert(pv.take(n) =~= pv);
    out
}

fn add_ids(seen: &mut Vec<String>, papers: &[Paper])
    ensures
        final(seen).deep_view() == with_ids(old(seen).deep_view(), papers.deep_view()),
{
    let ghost s0 = seen.deep_view();
    let ghost pv = papers.deep_view();
    let mut i: usize = 0;
    assert(with_ids(s0, pv.take(0)) == s0);
    while i < papers.len()
        invariant
            i <= papers@.len(),
            pv == papers.deep_view(),
            seen.deep_view() == with_ids(s0, pv.take(i as int)),
        decreases papers@.len() - i,
    {
        let ghost before = seen.deep_view();
        assert(pv.take(i + 1).drop_last() =~= pv.take(i as int));
        assert(pv.take(i + 1).last() == papers@[i as int].deep_view());
        if !text::strings_contain(seen, &papers[i].id) {
            seen.push(papers[i].id.clone());
            assert(seen.deep_view() =~= before.push(pv[i as int].id));
        }
        i += 1;
    }
    assert(pv.take(i as int) =~= pv);
}

// ---------------------------------------------------------------------------
// Laws
// ---------------------------------------------------------------------------

proof fn lemma_with_ids(seen: Seq<Seq<char>>, papers: Seq<PaperView>)
    ensures
        seen.no_duplicates() ==> with_ids(seen, papers).no_duplicates(),
        forall|x: Seq<char>| #[trigger] seen.contains(x) ==> with_ids(seen, papers).contains(x),
        forall|k: int|
            0 <= k < papers.len() ==> with_ids(seen, papers).contains((#[trigger] papers[k]).id),
    decreases papers.len(),
{
    if papers.len() > 0 {
        let t = papers.drop_last();
        lemma_with_ids(seen, t);
        let a = with_ids(seen, t);
        let b = with_ids(seen, papers);
        assert forall|x: Seq<char>| a.contains(x) implies #[trigger] b.contains(x) by {
            let m = choose|m: int| 0 <= m < a.len() && a[m] == x;
            assert(b[m] == x);
        }
        if !a.contains(papers.last().id) {
            assert(b[a.len() as int] == papers.last().id);
        }
        assert forall|k: int| 0 <= k < papers.len() implies b.contains(
            (#[trigger] papers[k]).id,
        ) by {
            if k < t.len() {
                assert(t[k] == papers[k]);
                assert(a.contains(t[k].id));
            }
        }
        assert forall|x: Seq<char>| #[trigger] seen.contains(x) implies b.contains(x) by {
            assert(a.contains(x));
        }
    }
}

/// A paper that was new in one poll is never new again, whatever the later feeds
/// say; and what is called new was not seen before.
pub proof fn law_papers_are_new_once(s: WatchView, xml: Seq<char>, later: Seq<char>)
    ensures
        forall|k: int|
            0 <= k < fresh(papers_in(xml), s.seen).len() ==> !s.seen.contains(
                (#[trigger] fresh(papers_in(xml), s.seen)[k]).id,
            ) && polled(s, xml).seen.contains(fresh(papers_in(xml), s.seen)[k].id),
        forall|i: int|
            0 <= i < fresh(papers_in(later), polled(s, xml).seen).len() ==> !s.seen.contains(
                (#[trigger] fresh(papers_in(later), polled(s, xml).seen)[i]).id,
            ),
        forall|i: int, k: int|
            0 <= i < fresh(papers_in(later), polled(s, xml).seen).len() && 0 <= k < fresh(
                papers_in(xml),
                s.seen,
            ).len() ==> (#[trigger] fresh(papers_in(later), polled(s, xml).seen)[i]).id != (
            #[trigger] fresh(papers_in(xml), s.seen)[k]).id,
{
    let news = fresh(papers_in(xml), s.seen);
    let after = polled(s, xml).seen;
    let more = fresh(papers_in(later), after);
    lemma_with_ids(s.seen, news);
    let p = |x: PaperView| !s.seen.contains(x.id);
    let q = |x: PaperView| !after.contains(x.id);
    assert(p =~= (|p: PaperView| !s.seen.contains(p.id)));
    assert(q =~= (|p: PaperView| !after.contains(p.id)));
    assert forall|k: int| 0 <= k < news.len() implies !s.seen.contains((#[trigger] news[k]).id)
        && after.contains(news[k].id) by {
        papers_in(xml).lemma_filter_pred(p, k);
    }
    assert forall|i: int| 0 <= i < more.len() implies !s.seen.contains((#[trigger] more[i]).id) by {
        papers_in(later).lemma_filter_pred(q, i);
        if s.seen.contains(more[i].id) {
            assert(after.contains(more[i].id));
        }
    }
    assert forall|i: int, k: int| 0 <= i < more.len() && 0 <= k < news.len() implies (
    #[trigger] more[i]).id != (#[trigger] news[k]).id by {
        papers_in(later).lemma_filter_pred(q, i);
    }
}

/// No paper is kept twice among those that were seen, whatever is polled.
pub proof fn law_seen_papers_are_kept_once(s: WatchView, xml: Seq<char>)
    requires
        s.seen.no_duplicates(),
    ensures
        polled(s, xml).seen.no_duplicates(),
        forall|x: Seq<char>| #[trigger] s.seen.contains(x) ==> polled(s, xml).seen.contains(x),
{
    lemma_with_ids(s.seen, fresh(papers_in(xml), s.seen));
}

/// What was saved is read back with every text once.
pub proof fn law_loaded_papers_are_distinct(items: Seq<Seq<char>>)
    ensures
        each_once(items).no_duplicates(),
        forall|x: Seq<char>| #[trigger] each_once(items).contains(x) <==> items.contains(x),
    decreases items.len(),
{
    if items.len() > 0 {
        let t = items.drop_last();
        law_loaded_papers_are_distinct(t);
        let a = each_once(t);
        let b = each_once(items);
        assert forall|x: Seq<char>| #[trigger] b.contains(x) <==> items.contains(x) by {
            if b.contains(x) {
                let m = choose|m: int| 0 <= m < b.len() && b[m] == x;
                if m < a.len() {
                    assert(a[m] == x);
                    assert(a.contains(x));
                    let j = choose|j: int| 0 <= j < t.len() && t[j] == x;
                    assert(items[j] == x);
                } else {
                    assert(items[items.len() - 1] == x);
                }
            }
            if items.contains(x) {
                let j = choose|j: int| 0 <= j < items.len() && items[j] == x;
                if j < t.len() {
                    assert(t[j] == x);
                    assert(a.contains(x));
                    let m = choose|m: int| 0 <= m < a.len() && a[m] == x;
                    assert(b[m] == x);
                } else if a.contains(x) {
                    let m = choose|m: int| 0 <= m < a.len() && a[m] == x;
                    assert(b[m] == x);
                } else {
                    assert(b[a.len() as int] == x);
                }
            }
        }
    } else {
        assert(each_once(items) =~= items);
    }
}

} // verus!
