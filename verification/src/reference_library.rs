//! The state of the reference library: how much there is, how much is unread,
//! and what was touched last.

use vstd::prelude::*;

use crate::events::{Event, EventKind, EventView};
use crate::json::{string_at, string_field};
use crate::palette::score::{is_number, less, rank};
use crate::projects::EntityType;
use crate::text;
use crate::time::UtcTime;

verus! {

pub const REF_LIBRARY_WIDGET_ID: &'static str = "reference-library";

pub const REF_LIBRARY_WIDGET_TYPE: &'static str = "reference_library";

/// How many references are looked at.
pub const SCAN_LIMIT: u32 = 5000;

/// How many references are listed.
pub const RECENT: usize = 8;

/// For how long a reference counts as added recently: fourteen days, in seconds.
pub const RECENT_SECS: i128 = 1_209_600;

/// A reference of the library.
#[derive(Debug, Clone, PartialEq, Eq)]
pub struct LibraryReference {
    pub title: String,
    pub citekey: String,
    pub year: Option<i32>,
    /// How much was read, as the bit pattern of a double.
    pub reading_progress: Option<u64>,
    pub created_at: UtcTime,
}

/// A reference that is listed.
#[derive(Debug, Clone, PartialEq, Eq)]
pub struct RecentReference {
    pub title: String,
    pub citekey: String,
    pub year: Option<i32>,
    /// How many notes are related to it.
    pub linked_notes: usize,
}

/// What a [`RecentReference`] holds.
pub struct RecentView {
    pub title: Seq<char>,
    pub citekey: Seq<char>,
    pub year: Option<i32>,
    pub linked_notes: int,
}

impl DeepView for RecentReference {
    type V = RecentView;

    open spec fn deep_view(&self) -> RecentView {
        RecentView {
            title: self.title@,
            citekey: self.citekey@,
            year: self.year,
            linked_notes: self.linked_notes as int,
        }
    }
}

/// What the shell shows of the library.
#[derive(Debug, Clone, PartialEq, Eq)]
pub struct LibraryState {
    pub total: usize,
    pub unread: usize,
    pub recent_count: usize,
    pub recent: Vec<RecentReference>,
}

/// Whether nothing was read of a reference: no progress is recorded, or none
/// above zero.
pub open spec fn is_unread(r: LibraryReference) -> bool {
    match r.reading_progress {
        Some(p) => is_number(p) && rank(p) <= 0,
        None => true,
    }
}

/// Whether a reference was added at a time or later.
pub open spec fn added_since(r: LibraryReference, cutoff: UtcTime) -> bool {
    !r.created_at.lt(cutoff)
}

/// How many elements satisfy `p`.
pub open spec fn count<T>(s: Seq<T>, p: spec_fn(T) -> bool) -> nat
    decreases s.len(),
{
    if s.len() == 0 {
        0
    } else {
        count(s.drop_last(), p) + if p(s.last()) {
            1nat
        } else {
            0nat
        }
    }
}

/// How many notes there are among related entities; none where the relations
/// could not be read.
pub open spec fn notes_among(related: Option<Seq<EntityType>>) -> int {
    match related {
        Some(types) => count(types, |t: EntityType| t == EntityType::Note) as int,
        None => 0,
    }
}

/// The references that are listed: the first ones, which were touched last.
pub open spec fn listed(
    refs: Seq<LibraryReference>,
    related: Seq<Option<Vec<EntityType>>>,
) -> Seq<RecentView> {
    Seq::new(
        if refs.len() <= RECENT {
            refs.len()
        } else {
            RECENT as nat
        },
        |i: int|
            RecentView {
                title: refs[i].title@,
                citekey: refs[i].citekey@,
                year: refs[i].year,
                linked_notes: if i < related.len() {
                    notes_among(
                        match related[i] {
                            Some(v) => Some(v@),
                            None => None,
                        },
                    )
                } else {
                    0
                },
            },
    )
}

fn unread(r: &LibraryReference) -> (b: bool)
    ensures
        b == is_unread(*r),
{
    match r.reading_progress {
        Some(p) => {
            let number = p <= 0x7FF0_0000_0000_0000 || (0x8000_0000_0000_0000 <= p && p
                <= 0xFFF0_0000_0000_0000);
            number && !less(0, p)
        },
        None => true,
    }
}

/// How many of some related entities are notes.
pub fn count_notes(related: &[EntityType]) -> (r: usize)
    ensures
        r == count(related@, |t: EntityType| t == EntityType::Note),
{
    let ghost p = |t: EntityType| t == EntityType::Note;
    let mut n: usize = 0;
    let mut i: usize = 0;
    while i < related.len()
        invariant
            i <= related@.len(),
            n <= i,
            p == (|t: EntityType| t == EntityType::Note),
            n == count(related@.take(i as int), p),
        decreases related@.len() - i,
    {
        assert(related@.take(i + 1).drop_last() =~= related@.take(i as int));
        if related[i] == EntityType::Note {
            n += 1;
        }
        i += 1;
    }
    assert(related@.take(i as int) =~= related@);
    n
}

/// The text that goes to the clipboard where a row is clicked, given the citation
/// key that the data names.
pub fn citation(key: Option<String>) -> (r: Option<String>)
    ensures
        match (r, key) {
            (Some(c), Some(k)) => c@ == "@"@ + k@,
            (None, None) => true,
            _ => false,
        },
{
    match key {
        Some(k) => Some(text::concat2("@", &k)),
        None => None,
    }
}

/// The module behind the widget of the library.
#[derive(Debug, Clone, Copy, PartialEq, Eq)]
pub struct ReferenceLibraryModule;

impl ReferenceLibraryModule {
    pub fn new() -> (r: Self) {
        ReferenceLibraryModule
    }

    /// The state of the library. `refs` come with the last touched first;
    /// `related` are the types of what the first ones are related to, or nothing
    /// where that could not be read.
    pub fn refresh(
        &self,
        refs: &[LibraryReference],
        related: &[Option<Vec<EntityType>>],
        now: UtcTime,
    ) -> (r: LibraryState)
        requires
            now.can_shift(-RECENT_SECS as int),
        ensures
            r.total == refs@.len(),
            r.unread == count(refs@, |x: LibraryReference| is_unread(x)),
            r.recent_count == count(
                refs@,
                |x: LibraryReference| added_since(x, now.shift_of(-RECENT_SECS as int)),
            ),
            r.recent.deep_view() == listed(refs@, related@),
    {
        let cutoff = match now.checked_shift(-RECENT_SECS) {
            Some(t) => t,
            None => now,
        };
        let ghost p = |x: LibraryReference| is_unread(x);
        let ghost q = |x: LibraryReference| added_since(x, cutoff);
        let mut n: usize = 0;
        let mut m: usize = 0;
        let mut i: usize = 0;
        while i < refs.len()
            invariant
                i <= refs@.len(),
                n <= i,
                m <= i,
                p == (|x: LibraryReference| is_unread(x)),
                q == (|x: LibraryReference| added_since(x, cutoff)),
                n == count(refs@.take(i as int), p),
                m == count(refs@.take(i as int), q),
            decreases refs@.len() - i,
        {
            assert(refs@.take(i + 1).drop_last() =~= refs@.take(i as int));
            if unread(&refs[i]) {
                n += 1;
            }
            if !refs[i].created_at.is_before(&cutoff) {
                m += 1;
            }
            i += 1;
        }
        assert(refs@.take(i as int) =~= refs@);
        let ghost all = listed(refs@, related@);
        let mut recent: Vec<RecentReference> = Vec::new();
        let mut k: usize = 0;
        assert(recent.deep_view() =~= all.take(0));
        while k < refs.len() && k < RECENT
            invariant
                k <= refs@.len(),
                k <= RECENT,
                all == listed(refs@, related@),
                recent.deep_view() == all.take(k as int),
            decreases refs@.len() - k,
        {
            let ghost before = recent.deep_view();
            let linked_notes: usize = if k < related.len() {
                match &related[k] {
                    Some(types) => count_notes(types),
                    None => 0,
                }
            } else {
                0
            };
            recent.push(
                RecentReference {
                    title: refs[k].title.clone(),
                    citekey: refs[k].citekey.clone(),
                    year: refs[k].year,
                    linked_notes,
                },
            );
            assert(recent.deep_view() =~= before.push(all[k as int]));
            assert(recent.deep_view() =~= all.take(k + 1));
            k += 1;
        }
        assert(all.take(k as int) =~= all);
        LibraryState { total: refs.len(), unread: n, recent_count: m, recent }
    }

    /// The text that goes to the clipboard on an event, if one does.
    pub fn on_event(&self, event: &Event) -> (r: Option<String>)
        ensures
            r.deep_view() == copied(event.deep_view()),
    {
        match event {
            Event::WidgetActionReceived { widget_id, action, data } => {
                if text::same(widget_id, REF_LIBRARY_WIDGET_ID) && text::same(action, "copy") {
                    citation(string_field(data, "citekey"))
                } else {
                    None
                }
            },
            _ => None,
        }
    }

    /// The kinds of event that the module listens to.
    pub fn subscribed_events(&self) -> (r: Vec<EventKind>)
        ensures
            r@ == seq![EventKind::WidgetActionReceived],
    {
        let r: Vec<EventKind> = vec![EventKind::WidgetActionReceived];
        assert(r@ =~= seq![EventKind::WidgetActionReceived]);
        r
    }
}

/// The text that goes to the clipboard on an event.
pub open spec fn copied(event: EventView) -> Option<Seq<char>> {
    match event {
        EventView::WidgetActionReceived { widget_id, action, data } if widget_id
            == "reference-library"@ && action == "copy"@ => match string_at(data, "citekey"@) {
            Some(k) => Some("@"@ + k),
            None => None,
        },
        _ => None,
    }
}

/// Not more elements satisfy a predicate than there are.
proof fn lemma_count<T>(s: Seq<T>, p: spec_fn(T) -> bool)
    ensures
        count(s, p) <= s.len(),
    decreases s.len(),
{
    if s.len() > 0 {
        lemma_count(s.drop_last(), p);
    }
}

/// The counts are of the library: there are no more unread or recent references
/// than there are references, and no more are listed than there are or fit.
pub proof fn law_counts_are_of_the_library(
    refs: Seq<LibraryReference>,
    related: Seq<Option<Vec<EntityType>>>,
    cutoff: UtcTime,
)
    ensures
        count(refs, |x: LibraryReference| is_unread(x)) <= refs.len(),
        count(refs, |x: LibraryReference| added_since(x, cutoff)) <= refs.len(),
        listed(refs, related).len() <= refs.len(),
        listed(refs, related).len() <= RECENT,
{
    lemma_count(refs, |x: LibraryReference| is_unread(x));
    lemma_count(refs, |x: LibraryReference| added_since(x, cutoff));
}

/// A reference is unread where no progress is recorded, or none above zero. It was added
/// recently where that is fourteen days ago or less.
pub proof fn law_unread_and_recent(r: LibraryReference, now: UtcTime)
    requires
        now.nanos < 1_000_000_000,
        now.secs >= i64::MIN + 1_209_600,
    ensures
        r.reading_progress is None ==> is_unread(r),
        r.reading_progress matches Some(bits) ==> {
            &&& bits == 0 ==> is_unread(r)
            &&& 0 < bits <= 0x7FF0_0000_0000_0000 ==> !is_unread(r)
            &&& 0x8000_0000_0000_0000 <= bits <= 0xFFF0_0000_0000_0000 ==> is_unread(r)
        },
        added_since(r, now.shift_of(-RECENT_SECS as int)) <==> r.created_at.secs > now.secs
            - 1_209_600 || (r.created_at.secs == now.secs - 1_209_600 && r.created_at.nanos
            >= now.nanos),
{
}

/// A count goes up by one for each element that is meant, and for no other.
pub proof fn law_counting<T>(s: Seq<T>, x: T, p: spec_fn(T) -> bool)
    ensures
        count(Seq::<T>::empty(), p) == 0,
        p(x) ==> count(s.push(x), p) == count(s, p) + 1,
        !p(x) ==> count(s.push(x), p) == count(s, p),
{
    assert(s.push(x).drop_last() =~= s);
}

/// The first eight references are listed, as they come, each with how many of its related
/// entities are notes.
pub proof fn law_the_first_are_listed(
    refs: Seq<LibraryReference>,
    related: Seq<Option<Vec<EntityType>>>,
    i: int,
)
    requires
        0 <= i < refs.len(),
    ensures
        listed(refs, related).len() == (if refs.len() < 8 {
            refs.len()
        } else {
            8
        }),
        i < 8 ==> {
            let row = listed(refs, related)[i];
            &&& row.title == refs[i].title@
            &&& row.citekey == refs[i].citekey@
            &&& row.year == refs[i].year
            &&& i >= related.len() || related[i] is None ==> row.linked_notes == 0
            &&& i < related.len() && related[i] is Some ==> row.linked_notes == related[i]->0@.filter(
                |t: EntityType| t == EntityType::Note,
            ).len()
        },
{
    if i < 8 && i < related.len() && related[i] is Some {
        lemma_count_filter(related[i]->0@, |t: EntityType| t == EntityType::Note);
    }
}

proof fn lemma_count_filter<T>(s: Seq<T>, p: spec_fn(T) -> bool)
    ensures
        count(s, p) == s.filter(p).len(),
    decreases s.len(),
{
    reveal(Seq::filter);
    if s.len() > 0 {
        lemma_count_filter(s.drop_last(), p);
    }
}

/// A citation is what is copied by `copy` in the widget: the key behind an `@`; nothing else
/// copies anything.
pub proof fn law_citations_are_copied(e: EventView)
    ensures
        e matches EventView::WidgetActionReceived { widget_id, action, data } ==> {
            if widget_id == "reference-library"@ && action == "copy"@ {
                match string_at(data, "citekey"@) {
                    Some(key) => copied(e) is Some && copied(e)->0.len() == key.len() + 1
                        && copied(e)->0[0] == '@' && copied(e)->0.skip(1) == key,
                    None => copied(e) is None,
                }
            } else {
                copied(e) is None
            }
        },
        !(e is WidgetActionReceived) ==> copied(e) is None,
{
    reveal_strlit("@");
    if let Some(k) = copied(e) {
        if let EventView::WidgetActionReceived { widget_id, action, data } = e {
            assert(k.skip(1) =~= string_at(data, "citekey"@)->0);
        }
    }
}

/// Of what a reference is related to, each note counts.
pub proof fn law_related_notes_count(types: Seq<EntityType>, t: EntityType)
    ensures
        notes_among(None) == 0,
        notes_among(Some(Seq::<EntityType>::empty())) == 0,
        t == EntityType::Note ==> notes_among(Some(types.push(t))) == notes_among(Some(types)) + 1,
        t != EntityType::Note ==> notes_among(Some(types.push(t))) == notes_among(Some(types)),
{
    law_counting(types, t, |x: EntityType| x == EntityType::Note);
}

} // verus!
