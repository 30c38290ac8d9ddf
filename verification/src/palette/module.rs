//! The module behind the palette.
//!
//! The module holds what the shell shows and decides what an event leads to.
//! Asking the providers and executing an item is done outside; the results come
//! back through [`PaletteModule::absorb_results`] and [`PaletteModule::executed`].

use vstd::prelude::*;

use super::provider::{
    closed_state, merge_results, merged, PaletteItem, PaletteState, StateView,
};
use crate::events::{Event, EventKind, EventView};
use crate::seqs::{first_where, lemma_first_where, lemma_first_where_is, lemma_first_where_none};
use crate::text;

verus! {

pub const PALETTE_WIDGET_ID: &'static str = "command-palette";

pub const PALETTE_WIDGET_TYPE: &'static str = "command_palette";

/// How many results are shown at most.
pub const MAX_RESULTS: usize = 256;

/// What an event leads to.
#[derive(Debug, Clone, PartialEq, Eq)]
pub enum PaletteStep {
    /// Nothing: the event is none of the palette's.
    Ignore,
    /// The state is to be published.
    Publish,
    /// Every provider is to be asked, the results are to be absorbed, and the
    /// state is to be published.
    Search { query: String },
    /// A provider is to execute an item, that is to be told, and the state is to
    /// be published.
    Execute { provider: usize, item_id: String },
}

/// The contents of a [`PaletteStep`].
pub enum StepView {
    Ignore,
    Publish,
    Search { query: Seq<char> },
    Execute { provider: int, item_id: Seq<char> },
}

impl DeepView for PaletteStep {
    type V = StepView;

    open spec fn deep_view(&self) -> StepView {
        match self {
            PaletteStep::Ignore => StepView::Ignore,
            PaletteStep::Publish => StepView::Publish,
            PaletteStep::Search { query } => StepView::Search { query: query@ },
            PaletteStep::Execute { provider, item_id } => StepView::Execute {
                provider: *provider as int,
                item_id: item_id@,
            },
        }
    }
}

/// A state and what is to be done next.
pub struct Outcome {
    pub state: StateView,
    pub step: StepView,
}

/// Looking for new results: there are none where there are no providers.
pub open spec fn refreshing(s: StateView, providers: Seq<Seq<char>>) -> Outcome {
    if providers.len() == 0 {
        Outcome { state: StateView { results: Seq::empty(), ..s }, step: StepView::Publish }
    } else {
        Outcome { state: s, step: StepView::Search { query: s.query } }
    }
}

/// A new query: looked for where the palette is open.
pub open spec fn querying(s: StateView, providers: Seq<Seq<char>>, query: Seq<char>) -> Outcome {
    let t = StateView { query, ..s };
    if t.open {
        refreshing(t, providers)
    } else {
        Outcome { state: t, step: StepView::Publish }
    }
}

/// What an action leads to.
pub open spec fn acted(
    s: StateView,
    providers: Seq<Seq<char>>,
    action: Seq<char>,
    seed: Option<Seq<char>>,
) -> Outcome {
    let same = Outcome { state: s, step: StepView::Publish };
    if action == "open"@ {
        let query = match seed {
            Some(q) => q,
            None => s.query,
        };
        refreshing(StateView { open: true, query, ..s }, providers)
    } else if action == "close"@ {
        Outcome { state: closed_state(), step: StepView::Publish }
    } else if action == "toggle"@ {
        if s.open {
            Outcome { state: closed_state(), step: StepView::Publish }
        } else {
            refreshing(StateView { open: true, ..s }, providers)
        }
    } else if action == "query"@ {
        match seed {
            Some(q) => querying(s, providers, q),
            None => same,
        }
    } else {
        same
    }
}

/// Whether a name is the given one.
pub open spec fn is_named(name: Seq<char>) -> spec_fn(Seq<char>) -> bool {
    |x: Seq<char>| x == name
}

/// What the choice of an item leads to: an item of a provider that is not there
/// closes the palette.
pub open spec fn selected(
    s: StateView,
    providers: Seq<Seq<char>>,
    provider: Seq<char>,
    item_id: Seq<char>,
) -> Outcome {
    match first_where(providers, is_named(provider)) {
        Some(i) => Outcome { state: s, step: StepView::Execute { provider: i, item_id } },
        None => Outcome { state: closed_state(), step: StepView::Publish },
    }
}

/// What an event leads to.
pub open spec fn reacted(s: StateView, providers: Seq<Seq<char>>, event: EventView) -> Outcome {
    match event {
        EventView::PaletteActionRequested { action, query } => acted(s, providers, action, query),
        EventView::CommandPaletteQueryReceived { query } => querying(s, providers, query),
        EventView::CommandPaletteSelectReceived { provider, item_id } => selected(
            s,
            providers,
            provider,
            item_id,
        ),
        _ => Outcome { state: s, step: StepView::Ignore },
    }
}

/// The palette.
#[derive(Debug, Clone, PartialEq, Eq)]
pub struct PaletteModule {
    /// The names of the providers, in the order in which they are asked.
    pub providers: Vec<String>,
    pub state: PaletteState,
}

impl PaletteModule {
    /// A closed palette without providers.
    pub fn new() -> (r: Self)
        ensures
            r.providers.deep_view() == Seq::<Seq<char>>::empty(),
            r.state.deep_view() == closed_state(),
    {
        let providers: Vec<String> = Vec::new();
        assert(providers.deep_view() =~= Seq::empty());
        PaletteModule { providers, state: PaletteState::default() }
    }

    pub fn with_provider(self, provider: String) -> (r: Self)
        ensures
            r.providers.deep_view() == self.providers.deep_view().push(provider@),
            r.state == self.state,
    {
        let mut out = self;
        out.providers.push(provider);
        assert(out.providers.deep_view() =~= self.providers.deep_view().push(provider@));
        out
    }

    pub fn with_providers(self, providers: Vec<String>) -> (r: Self)
        ensures
            r.providers.deep_view() == self.providers.deep_view() + providers.deep_view(),
            r.state == self.state,
    {
        let mut out = self;
        let mut more = providers;
        out.providers.append(&mut more);
        assert(out.providers.deep_view() =~= self.providers.deep_view() + providers.deep_view());
        out
    }

    fn close(&mut self)
        ensures
            final(self).providers == old(self).providers,
            final(self).state.deep_view() == closed_state(),
    {
        self.state = PaletteState::default();
    }

    fn refresh(&mut self) -> (r: PaletteStep)
        ensures
            final(self).providers == old(self).providers,
            final(self).state.deep_view() == refreshing(
                old(self).state.deep_view(),
                old(self).providers.deep_view(),
            ).state,
            r.deep_view() == refreshing(
                old(self).state.deep_view(),
                old(self).providers.deep_view(),
            ).step,
    {
        if self.providers.len() == 0 {
            self.state.results = Vec::new();
            assert(self.state.results.deep_view() =~= Seq::empty());
            PaletteStep::Publish
        } else {
            PaletteStep::Search { query: self.state.query.clone() }
        }
    }

    /// Carries out an action; `query_seed` is the query that comes with it.
    pub fn apply_palette_action(&mut self, action: &str, query_seed: Option<String>) -> (r:
        PaletteStep)
        ensures
            final(self).providers == old(self).providers,
            final(self).state.deep_view() == acted(
                old(self).state.deep_view(),
                old(self).providers.deep_view(),
                action@,
                query_seed.deep_view(),
            ).state,
            r.deep_view() == acted(
                old(self).state.deep_view(),
                old(self).providers.deep_view(),
                action@,
                query_seed.deep_view(),
            ).step,
    {
        if text::same(action, "open") {
            self.state.open = true;
            if let Some(q) = query_seed {
                self.state.query = q;
            }
            self.refresh()
        } else if text::same(action, "close") {
            self.close();
            PaletteStep::Publish
        } else if text::same(action, "toggle") {
            if self.state.open {
                self.close();
                PaletteStep::Publish
            } else {
                self.state.open = true;
                self.refresh()
            }
        } else if text::same(action, "query") {
            match query_seed {
                Some(q) => self.apply_query(q),
                None => PaletteStep::Publish,
            }
        } else {
            PaletteStep::Publish
        }
    }

    /// Takes a new query.
    pub fn apply_query(&mut self, query: String) -> (r: PaletteStep)
        ensures
            final(self).providers == old(self).providers,
            final(self).state.deep_view() == querying(
                old(self).state.deep_view(),
                old(self).providers.deep_view(),
                query@,
            ).state,
            r.deep_view() == querying(
                old(self).state.deep_view(),
                old(self).providers.deep_view(),
                query@,
            ).step,
    {
        self.state.query = query;
        if self.state.open {
            self.refresh()
        } else {
            PaletteStep::Publish
        }
    }

    /// The first provider of a name.
    fn provider_named(&self, provider: &str) -> (r: Option<usize>)
        ensures
            match (r, first_where(self.providers.deep_view(), is_named(provider@))) {
                (Some(i), Some(k)) => i == k,
                (None, None) => true,
                _ => false,
            },
    {
        let ghost pv = self.providers.deep_view();
        let ghost p = is_named(provider@);
        let mut i: usize = 0;
        while i < self.providers.len()
            invariant
                i <= self.providers@.len(),
                pv == self.providers.deep_view(),
                p == is_named(provider@),
                forall|k: int| 0 <= k < i ==> !p(#[trigger] pv[k]),
            decreases self.providers@.len() - i,
        {
            assert(pv[i as int] == self.providers@[i as int]@);
            if text::same(&self.providers[i], provider) {
                proof {
                    assert(p(pv[i as int]));
                    lemma_first_where_is(pv, p, i as int);
                }
                return Some(i);
            }
            assert(!p(pv[i as int]));
            i += 1;
        }
        proof {
            lemma_first_where_none(pv, p);
        }
        None
    }

    /// Takes the choice of an item. Where its provider is gone, the palette closes.
    pub fn apply_select(&mut self, provider: &str, item_id: &str) -> (r: PaletteStep)
        ensures
            final(self).providers == old(self).providers,
            final(self).state.deep_view() == selected(
                old(self).state.deep_view(),
                old(self).providers.deep_view(),
                provider@,
                item_id@,
            ).state,
            r.deep_view() == selected(
                old(self).state.deep_view(),
                old(self).providers.deep_view(),
                provider@,
                item_id@,
            ).step,
    {
        match self.provider_named(provider) {
            Some(i) => PaletteStep::Execute { provider: i, item_id: text::owned(item_id) },
            None => {
                self.close();
                PaletteStep::Publish
            },
        }
    }

    /// Handles an event.
    pub fn on_event(&mut self, event: &Event) -> (r: PaletteStep)
        ensures
            final(self).providers == old(self).providers,
            final(self).state.deep_view() == reacted(
                old(self).state.deep_view(),
                old(self).providers.deep_view(),
                event.deep_view(),
            ).state,
            r.deep_view() == reacted(
                old(self).state.deep_view(),
                old(self).providers.deep_view(),
                event.deep_view(),
            ).step,
    {
        match event {
            Event::PaletteActionRequested { action, query } => {
                let seed = text::clone_opt(query);
                self.apply_palette_action(action, seed)
            },
            Event::CommandPaletteQueryReceived { query } => self.apply_query(query.clone()),
            Event::CommandPaletteSelectReceived { provider, item_id } => self.apply_select(
                provider,
                item_id,
            ),
            _ => PaletteStep::Ignore,
        }
    }

    /// Takes what the providers found, one list for each.
    pub fn absorb_results(&mut self, buckets: Vec<Vec<PaletteItem>>)
        ensures
            final(self).providers == old(self).providers,
            final(self).state.deep_view() == (StateView {
                results: merged(buckets.deep_view(), MAX_RESULTS as int),
                ..old(self).state.deep_view()
            }),
    {
        self.state.results = merge_results(buckets, MAX_RESULTS);
    }

    /// Takes note that an item was executed, or could not be: the palette closes
    /// either way.
    pub fn executed(&mut self)
        ensures
            final(self).providers == old(self).providers,
            final(self).state.deep_view() == closed_state(),
    {
        self.close();
    }

    /// The kinds of event that the module listens to.
    pub fn subscribed_events(&self) -> (r: Vec<EventKind>)
        ensures
            r@ == seq![
                EventKind::PaletteActionRequested,
                EventKind::CommandPaletteQueryReceived,
                EventKind::CommandPaletteSelectReceived,
            ],
    {
        let r: Vec<EventKind> = vec![
            EventKind::PaletteActionRequested,
            EventKind::CommandPaletteQueryReceived,
            EventKind::CommandPaletteSelectReceived,
        ];
        assert(r@ =~= seq![
            EventKind::PaletteActionRequested,
            EventKind::CommandPaletteQueryReceived,
            EventKind::CommandPaletteSelectReceived,
        ]);
        r
    }
}

// ---------------------------------------------------------------------------
// Laws
// ---------------------------------------------------------------------------

/// Whether a palette that is closed shows nothing.
pub open spec fn tidy(s: StateView) -> bool {
    !s.open ==> s.results.len() == 0
}

/// A closed palette shows no results, whatever happens: every event keeps it so.
pub proof fn law_closed_palettes_are_empty(
    s: StateView,
    providers: Seq<Seq<char>>,
    event: EventView,
)
    requires
        tidy(s),
    ensures
        tidy(reacted(s, providers, event).state),
        tidy(closed_state()),
        reacted(s, providers, event).step is Search ==> reacted(s, providers, event).state.open,
{
}

/// Toggling opens a closed palette and closes an open one.
pub proof fn law_toggling_alternates(
    s: StateView,
    providers: Seq<Seq<char>>,
    seed: Option<Seq<char>>,
)
    ensures
        acted(s, providers, "toggle"@, seed).state.open == !s.open,
        acted(
            acted(s, providers, "toggle"@, seed).state,
            providers,
            "toggle"@,
            seed,
        ).state.open == s.open,
{
    reveal_strlit("toggle");
    reveal_strlit("open");
    reveal_strlit("close");
    assert("toggle"@.len() != "open"@.len());
    assert("toggle"@.len() != "close"@.len());
}

/// Closing and opening again without a query begins with an empty one.
pub proof fn law_reopening_forgets_the_query(s: StateView, providers: Seq<Seq<char>>)
    ensures
        acted(
            acted(s, providers, "close"@, None).state,
            providers,
            "open"@,
            None,
        ).state.query == Seq::<char>::empty(),
{
    reveal_strlit("open");
    reveal_strlit("close");
    assert("close"@.len() != "open"@.len());
}

/// The item that is chosen goes to the first provider of the name that it came
/// with, and to no other; where there is none, the palette closes.
pub proof fn law_items_go_back_to_their_provider(
    s: StateView,
    providers: Seq<Seq<char>>,
    provider: Seq<char>,
    item_id: Seq<char>,
)
    ensures
        providers.contains(provider) <==> selected(s, providers, provider, item_id).step is Execute,
        selected(s, providers, provider, item_id).step matches StepView::Execute {
            provider: i,
            item_id: id,
        } ==> 0 <= i < providers.len() && providers[i] == provider && id == item_id,
        !providers.contains(provider) ==> selected(s, providers, provider, item_id).state
            == closed_state(),
{
    let p = is_named(provider);
    lemma_first_where(providers, p);
    if providers.contains(provider) {
        let k = choose|k: int| 0 <= k < providers.len() && providers[k] == provider;
        assert(p(providers[k]));
    }
}

/// What the palette does on its actions. To search, it asks its providers with the query;
/// without a provider it shows no results. Only an open palette searches.
pub proof fn law_palette_actions(
    s: StateView,
    providers: Seq<Seq<char>>,
    action: Seq<char>,
    seed: Option<Seq<char>>,
)
    ensures
        ({
            let o = acted(s, providers, action, seed);
            let closed = o.state == (StateView {
                open: false,
                query: Seq::empty(),
                results: Seq::empty(),
            }) && o.step is Publish;
            let searched = |q: Seq<char>|
                if providers.len() == 0 {
                    o.state == (StateView { open: true, query: q, results: Seq::empty() })
                        && o.step is Publish
                } else {
                    o.state == (StateView { open: true, query: q, results: s.results }) && o.step
                        == (StepView::Search { query: q })
                };
            &&& action == "open"@ ==> searched(
                if seed is Some {
                    seed->0
                } else {
                    s.query
                },
            )
            &&& action == "close"@ ==> closed
            &&& action == "toggle"@ && s.open ==> closed
            &&& action == "toggle"@ && !s.open ==> searched(s.query)
            &&& action == "query"@ && seed is Some && s.open ==> searched(seed->0)
            &&& action == "query"@ && seed is Some && !s.open ==> o.state == (StateView {
                query: seed->0,
                ..s
            }) && o.step is Publish
            &&& action == "query"@ && seed is None ==> o.state == s && o.step is Publish
            &&& action != "open"@ && action != "close"@ && action != "toggle"@ && action != "query"@
                ==> o.state == s && o.step is Publish
        }),
{
    reveal_strlit("open");
    reveal_strlit("close");
    reveal_strlit("toggle");
    reveal_strlit("query");
    assert("open"@.len() == 4 && "close"@.len() == 5 && "toggle"@.len() == 6 && "query"@.len() == 5);
    assert("close"@[0] == 'c' && "query"@[0] == 'q');
}

/// What the palette does on an event: a query from the shell is the same as one that was
/// asked for, a choice goes to the first provider of its name, and other events are
/// ignored.
pub proof fn law_palette_events(s: StateView, providers: Seq<Seq<char>>, event: EventView)
    ensures
        event matches EventView::PaletteActionRequested { action, query } ==> reacted(
            s,
            providers,
            event,
        ) == acted(s, providers, action, query),
        event matches EventView::CommandPaletteQueryReceived { query } ==> reacted(
            s,
            providers,
            event,
        ) == acted(s, providers, "query"@, Some(query)),
        event matches EventView::CommandPaletteSelectReceived { provider, item_id } ==> {
            let o = reacted(s, providers, event);
            &&& providers.contains(provider) ==> o.state == s && (o.step matches StepView::Execute {
                provider: i,
                item_id: id,
            } && id == item_id && 0 <= i < providers.len() && providers[i] == provider && forall|j: int|
                0 <= j < i ==> providers[j] != provider)
            &&& !providers.contains(provider) ==> o.step is Publish && !o.state.open
        },
        !(event is PaletteActionRequested || event is CommandPaletteQueryReceived
            || event is CommandPaletteSelectReceived) ==> reacted(s, providers, event).state == s
            && reacted(s, providers, event).step is Ignore,
{
    law_palette_actions(s, providers, "query"@, None);
    reveal_strlit("open");
    reveal_strlit("close");
    reveal_strlit("toggle");
    reveal_strlit("query");
    assert("open"@.len() == 4 && "close"@.len() == 5 && "toggle"@.len() == 6 && "query"@.len() == 5);
    assert("close"@[0] == 'c' && "query"@[0] == 'q');
    if let EventView::CommandPaletteSelectReceived { provider, item_id } = event {
        let f = is_named(provider);
        crate::seqs::lemma_first_where(providers, f);
        match first_where(providers, f) {
            Some(i) => {
                assert(f(providers[i]));
                assert forall|j: int| 0 <= j < i implies providers[j] != provider by {
                    assert(!f(providers[j]));
                }
            },
            None => {
                if providers.contains(provider) {
                    let k = choose|k: int| 0 <= k < providers.len() && providers[k] == provider;
                    assert(f(providers[k]));
                }
            },
        }
    }
}

} // verus!
