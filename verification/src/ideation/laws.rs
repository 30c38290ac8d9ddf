//! Which nudges there can be.

use vstd::prelude::*;

use super::config::NudgeWeights;
use super::nudge::{NudgeKind, NudgeView};
use super::selector::{
    attempt_order_of, crossing_links, graph_pairs, link_target, needs_unblocking, outcome, question_pairs,
    ranked, shares_tags, tag_indices, weighted_kinds, GraphLink, NudgeContext, RecentEntity,
};
use crate::order::lemma_sort;
use crate::projects::{EntityType, ProjectEntry, ProjectStatus};
use crate::seqs::{lemma_first_where, lemma_indices_where};
use crate::text::join;
use crate::time::{date_text, UtcTime};

verus! {

/// Whether one time comes before another.
pub open spec fn sooner(a: UtcTime, b: UtcTime) -> bool {
    a.secs < b.secs || (a.secs == b.secs && a.nanos < b.nanos)
}

/// Whether a project is still worked on.
pub open spec fn open_project(ctx: &NudgeContext<'_>, p: int) -> bool {
    0 <= p < ctx.projects@.len() && ctx.projects@[p].status != ProjectStatus::Complete
}

// ---------------------------------------------------------------------------
// Questions
// ---------------------------------------------------------------------------

proof fn lemma_questions(projects: Seq<ProjectEntry>, p: int, q: int)
    ensures
        question_pairs(projects).contains((p, q)) <==> 0 <= p < projects.len() && projects[p].status
            != ProjectStatus::Complete && 0 <= q < projects[p].open_questions@.len(),
    decreases projects.len(),
{
    if projects.len() > 0 {
        let front = projects.drop_last();
        let last = projects.last();
        let n = projects.len() - 1;
        let before = question_pairs(front);
        let own = Seq::new(last.open_questions@.len(), |k: int| (n, k));
        lemma_questions(front, p, q);
        let all = question_pairs(projects);
        if last.status != ProjectStatus::Complete {
            assert(all == before + own);
            if before.contains((p, q)) {
                let k = choose|k: int| 0 <= k < before.len() && before[k] == (p, q);
                assert(all[k] == (p, q));
            }
            if p == n && 0 <= q < last.open_questions@.len() {
                assert(own[q] == (p, q));
                assert(all[before.len() + q] == (p, q));
            }
            if all.contains((p, q)) {
                let k = choose|k: int| 0 <= k < all.len() && all[k] == (p, q);
                if k < before.len() {
                    assert(before[k] == (p, q));
                } else {
                    assert(own[k - before.len()] == (p, q));
                }
            }
        }
        if 0 <= p < front.len() {
            assert(front[p] == projects[p]);
        }
    }
}

/// Any open question of a project that is not complete can be the nudge, and nothing
/// else: it bears the project's name, and the question is its text.
pub proof fn law_every_open_question_counts(ctx: &NudgeContext<'_>, n: NudgeView)
    ensures
        ctx.possible(NudgeKind::OpenQuestion, n) <==> exists|p: int, q: int|
            #![trigger ctx.projects@[p].open_questions@[q]]
            open_project(ctx, p) && 0 <= q < ctx.projects@[p].open_questions@.len() && n == (
            NudgeView {
                project_id: ctx.projects@[p].id,
                kind: NudgeKind::OpenQuestion,
                title: ctx.projects@[p].name@,
                body: ctx.projects@[p].open_questions@[q]@,
            }),
        ctx.has(NudgeKind::OpenQuestion) <==> exists|p: int|
            #[trigger] open_project(ctx, p) && ctx.projects@[p].open_questions@.len() > 0,
{
    let all = question_pairs(ctx.projects@);
    if ctx.possible(NudgeKind::OpenQuestion, n) {
        let k = choose|k: int| 0 <= k < all.len() && n == #[trigger] ctx.question_at(k);
        let (p, q) = all[k];
        assert(all.contains((p, q)));
        lemma_questions(ctx.projects@, p, q);
        assert(open_project(ctx, p));
        assert(n.body == ctx.projects@[p].open_questions@[q]@);
    }
    if exists|p: int, q: int|
        #![trigger ctx.projects@[p].open_questions@[q]]
        open_project(ctx, p) && 0 <= q < ctx.projects@[p].open_questions@.len() && n == (NudgeView {
            project_id: ctx.projects@[p].id,
            kind: NudgeKind::OpenQuestion,
            title: ctx.projects@[p].name@,
            body: ctx.projects@[p].open_questions@[q]@,
        }) {
        let (p, q) = choose|p: int, q: int|
            #![trigger ctx.projects@[p].open_questions@[q]]
            open_project(ctx, p) && 0 <= q < ctx.projects@[p].open_questions@.len() && n == (
            NudgeView {
                project_id: ctx.projects@[p].id,
                kind: NudgeKind::OpenQuestion,
                title: ctx.projects@[p].name@,
                body: ctx.projects@[p].open_questions@[q]@,
            });
        lemma_questions(ctx.projects@, p, q);
        let k = choose|k: int| 0 <= k < all.len() && all[k] == (p, q);
        assert(n == ctx.question_at(k));
    }
    if ctx.has(NudgeKind::OpenQuestion) {
        let (p, q) = all[0];
        assert(all.contains((p, q)));
        lemma_questions(ctx.projects@, p, q);
        assert(open_project(ctx, p));
    }
    if exists|p: int| #[trigger] open_project(ctx, p) && ctx.projects@[p].open_questions@.len() > 0 {
        let p = choose|p: int|
            #[trigger] open_project(ctx, p) && ctx.projects@[p].open_questions@.len() > 0;
        lemma_questions(ctx.projects@, p, 0);
    }
}

// ---------------------------------------------------------------------------
// Blocked projects
// ---------------------------------------------------------------------------

/// The times that count as recent and as long ago lie the configured hours back, and at
/// least one.
pub proof fn law_times_lie_hours_back(ctx: &NudgeContext<'_>)
    requires
        ctx.now.nanos < 1_000_000_000,
        0 <= ctx.now.secs,
        ctx.config.recent_seed_hours <= 0x1_0000_0000,
        ctx.config.stale_project_hours <= 0x1_0000_0000,
    ensures
        ctx.horizon() == (UtcTime {
            secs: (ctx.now.secs - 3600 * (if ctx.config.recent_seed_hours == 0 {
                1
            } else {
                ctx.config.recent_seed_hours as int
            })) as i64,
            nanos: ctx.now.nanos,
        }),
        ctx.stale_cutoff() == (UtcTime {
            secs: (ctx.now.secs - 3600 * (if ctx.config.stale_project_hours == 0 {
                1
            } else {
                ctx.config.stale_project_hours as int
            })) as i64,
            nanos: ctx.now.nanos,
        }),
{
}

/// Any project that is blocked, or was not touched for long, can be the nudge, unless it
/// is complete.
pub proof fn law_blocked_and_quiet_projects_count(ctx: &NudgeContext<'_>, n: NudgeView)
    ensures
        ctx.possible(NudgeKind::BlockedEscalation, n) <==> exists|p: int|
            #[trigger] open_project(ctx, p) && (ctx.projects@[p].status == ProjectStatus::Blocked
                || sooner(ctx.projects@[p].updated_at, ctx.stale_cutoff())) && n == (NudgeView {
                project_id: ctx.projects@[p].id,
                kind: NudgeKind::BlockedEscalation,
                title: ctx.projects@[p].name@,
                body: if ctx.projects@[p].status == ProjectStatus::Blocked {
                    "This project is marked blocked. What's the smallest concrete next step you could take right now?"@
                } else {
                    "This project has gone quiet since "@ + date_text(
                        ctx.projects@[p].updated_at.secs,
                        ctx.projects@[p].updated_at.nanos,
                    ) + ". What's the smallest concrete next step you could take right now?"@
                },
            }),
        ctx.has(NudgeKind::BlockedEscalation) <==> exists|p: int|
            #[trigger] open_project(ctx, p) && (ctx.projects@[p].status == ProjectStatus::Blocked
                || sooner(ctx.projects@[p].updated_at, ctx.stale_cutoff())),
{
    let f = |p: ProjectEntry| needs_unblocking(p, ctx.stale_cutoff());
    let all = ctx.blocked_indices();
    lemma_indices_where(ctx.projects@, f);
    assert forall|p: int| #[trigger] all.contains(p) <==> open_project(ctx, p) && (
    ctx.projects@[p].status == ProjectStatus::Blocked || sooner(
        ctx.projects@[p].updated_at,
        ctx.stale_cutoff(),
    )) by {
        if all.contains(p) {
            let k = choose|k: int| 0 <= k < all.len() && all[k] == p;
            assert(f(ctx.projects@[all[k]]));
        }
        if open_project(ctx, p) && (ctx.projects@[p].status == ProjectStatus::Blocked || sooner(
            ctx.projects@[p].updated_at,
            ctx.stale_cutoff(),
        )) {
            assert(f(ctx.projects@[p]));
        }
    }
    if ctx.possible(NudgeKind::BlockedEscalation, n) {
        let k = choose|k: int| 0 <= k < all.len() && n == #[trigger] ctx.blocked_at(k);
        assert(all.contains(all[k]));
        assert(open_project(ctx, all[k]));
    }
    if ctx.has(NudgeKind::BlockedEscalation) {
        assert(all.contains(all[0]));
        assert(open_project(ctx, all[0]));
    }
    assert forall|p: int| #[trigger] open_project(ctx, p) && (ctx.projects@[p].status
        == ProjectStatus::Blocked || sooner(
        ctx.projects@[p].updated_at,
        ctx.stale_cutoff(),
    )) implies exists|k: int| 0 <= k < all.len() && #[trigger] all[k] == p by {
        assert(all.contains(p));
    }
    if exists|p: int|
        #[trigger] open_project(ctx, p) && (ctx.projects@[p].status == ProjectStatus::Blocked
            || sooner(ctx.projects@[p].updated_at, ctx.stale_cutoff())) && n == (NudgeView {
            project_id: ctx.projects@[p].id,
            kind: NudgeKind::BlockedEscalation,
            title: ctx.projects@[p].name@,
            body: if ctx.projects@[p].status == ProjectStatus::Blocked {
                "This project is marked blocked. What's the smallest concrete next step you could take right now?"@
            } else {
                "This project has gone quiet since "@ + date_text(
                    ctx.projects@[p].updated_at.secs,
                    ctx.projects@[p].updated_at.nanos,
                ) + ". What's the smallest concrete next step you could take right now?"@
            },
        }) {
        let p = choose|p: int|
            #[trigger] open_project(ctx, p) && (ctx.projects@[p].status == ProjectStatus::Blocked
                || sooner(ctx.projects@[p].updated_at, ctx.stale_cutoff())) && n == (NudgeView {
                project_id: ctx.projects@[p].id,
                kind: NudgeKind::BlockedEscalation,
                title: ctx.projects@[p].name@,
                body: if ctx.projects@[p].status == ProjectStatus::Blocked {
                    "This project is marked blocked. What's the smallest concrete next step you could take right now?"@
                } else {
                    "This project has gone quiet since "@ + date_text(
                        ctx.projects@[p].updated_at.secs,
                        ctx.projects@[p].updated_at.nanos,
                    ) + ". What's the smallest concrete next step you could take right now?"@
                },
            });
        let k = choose|k: int| 0 <= k < all.len() && #[trigger] all[k] == p;
        assert(n == ctx.blocked_at(k));
    }
}

// ---------------------------------------------------------------------------
// Connections
// ---------------------------------------------------------------------------

/// Whether a link of an entity leads to a project that is not the entity's own and not
/// complete: the first in the list with that number.
pub open spec fn crosses(
    projects: Seq<ProjectEntry>,
    entity: RecentEntity,
    l: int,
    p: int,
) -> bool {
    &&& 0 <= l < entity.graph_links@.len()
    &&& 0 <= p < projects.len()
    &&& entity.graph_links@[l].neighbour_project == Some(projects[p].id)
    &&& entity.project_id != Some(projects[p].id)
    &&& projects[p].status != ProjectStatus::Complete
    &&& forall|j: int|
        0 <= j < p ==> (#[trigger] projects[j]).id != projects[p].id || projects[j].status
            == ProjectStatus::Complete
}

proof fn lemma_target(projects: Seq<ProjectEntry>, entity: RecentEntity, l: int, p: int)
    requires
        0 <= l < entity.graph_links@.len(),
    ensures
        link_target(projects, entity, entity.graph_links@[l]) == Some(p) <==> crosses(
            projects,
            entity,
            l,
            p,
        ),
{
    let link = entity.graph_links@[l];
    if link.neighbour_project is Some {
        let f = |x: ProjectEntry|
            x.status != ProjectStatus::Complete && x.id == link.neighbour_project->0;
        let g = |x: ProjectEntry|
            super::selector::eligible(x) && x.id == link.neighbour_project->0;
        lemma_first_where(projects, g);
        assert forall|x: ProjectEntry| f(x) == #[trigger] g(x) by {}
        if crosses(projects, entity, l, p) {
            assert(g(projects[p]));
            assert forall|j: int| 0 <= j < p implies !g(#[trigger] projects[j]) by {}
        }
        if link_target(projects, entity, link) == Some(p) {
            assert(g(projects[p]));
            assert forall|j: int| 0 <= j < p implies (#[trigger] projects[j]).id != projects[p].id
                || projects[j].status == ProjectStatus::Complete by {
                assert(!g(projects[j]));
            }
        }
    }
}

proof fn lemma_crossing(projects: Seq<ProjectEntry>, entity: RecentEntity, n: int, p: int, l: int)
    requires
        0 <= n <= entity.graph_links@.len(),
    ensures
        crossing_links(projects, entity, entity.graph_links@.take(n)).contains((p, l)) <==> l < n
            && crosses(projects, entity, l, p),
    decreases n,
{
    let links = entity.graph_links@.take(n);
    if n > 0 {
        assert(links.drop_last() =~= entity.graph_links@.take(n - 1));
        lemma_crossing(projects, entity, n - 1, p, l);
        let before = crossing_links(projects, entity, links.drop_last());
        let all = crossing_links(projects, entity, links);
        assert(links.last() == entity.graph_links@[n - 1]);
        match link_target(projects, entity, links.last()) {
            Some(t) => {
                lemma_target(projects, entity, n - 1, t);
                assert(all == before.push((t, n - 1)));
                if before.contains((p, l)) {
                    let k = choose|k: int| 0 <= k < before.len() && before[k] == (p, l);
                    assert(all[k] == (p, l));
                }
                if l == n - 1 && crosses(projects, entity, l, p) {
                    lemma_target(projects, entity, l, p);
                    assert(all[before.len() as int] == (p, l));
                }
                if all.contains((p, l)) {
                    let k = choose|k: int| 0 <= k < all.len() && all[k] == (p, l);
                    if k < before.len() {
                        assert(before[k] == (p, l));
                    }
                }
            },
            None => {
                if l == n - 1 && crosses(projects, entity, l, p) {
                    lemma_target(projects, entity, l, p);
                }
            },
        }
    }
}

/// The links that lead out of an entity's project are the ones that count.
pub proof fn law_links_that_cross_count(
    projects: Seq<ProjectEntry>,
    entity: RecentEntity,
    p: int,
    l: int,
)
    ensures
        graph_pairs(projects, entity).contains((p, l)) <==> crosses(projects, entity, l, p),
{
    let n = entity.graph_links@.len() as int;
    assert(entity.graph_links@.take(n) =~= entity.graph_links@);
    lemma_crossing(projects, entity, n, p, l);
}

/// The projects that share a tag with an entity are the ones that count, but for its own
/// and complete ones.
pub proof fn law_shared_tags_count(projects: Seq<ProjectEntry>, entity: RecentEntity, p: int)
    ensures
        tag_indices(projects, entity).contains(p) <==> 0 <= p < projects.len() && projects[p].status
            != ProjectStatus::Complete && entity.project_id != Some(projects[p].id) && exists|i: int, j: int|
            0 <= i < projects[p].tags@.len() && 0 <= j < entity.tags@.len()
                && (#[trigger] projects[p].tags@[i])@ == (#[trigger] entity.tags@[j])@,
{
    let f = |x: ProjectEntry| shares_tags(x, entity);
    lemma_indices_where(projects, f);
    let all = tag_indices(projects, entity);
    if 0 <= p < projects.len() {
        let own = projects[p].tags.deep_view();
        let others = entity.tags.deep_view();
        let shared = |t: Seq<char>| others.contains(t);
        assert(own.filter(shared).len() > 0 <==> exists|i: int, j: int|
            0 <= i < projects[p].tags@.len() && 0 <= j < entity.tags@.len()
                && (#[trigger] projects[p].tags@[i])@ == (#[trigger] entity.tags@[j])@) by {
            if own.filter(shared).len() > 0 {
                let t = own.filter(shared)[0];
                assert(own.filter(shared).contains(t));
                own.lemma_filter_contains_rev(shared, t);
                own.lemma_filter_pred(shared, 0);
                let i = choose|i: int| 0 <= i < own.len() && own[i] == t;
                let j = choose|j: int| 0 <= j < others.len() && others[j] == t;
                assert(projects[p].tags@[i]@ == entity.tags@[j]@);
            }
            if exists|i: int, j: int|
                0 <= i < projects[p].tags@.len() && 0 <= j < entity.tags@.len()
                    && (#[trigger] projects[p].tags@[i])@ == (#[trigger] entity.tags@[j])@ {
                let (i, j) = choose|i: int, j: int|
                    0 <= i < projects[p].tags@.len() && 0 <= j < entity.tags@.len()
                        && (#[trigger] projects[p].tags@[i])@ == (#[trigger] entity.tags@[j])@;
                assert(own[i] == others[j]);
                assert(others.contains(own[i]));
                own.lemma_filter_contains(shared, i);
            }
        }
        assert(f(projects[p]) <==> shares_tags(projects[p], entity));
    }
    if all.contains(p) {
        let k = choose|k: int| 0 <= k < all.len() && all[k] == p;
        assert(f(projects[all[k]]));
    }
}

/// A connection is mined from the links of recent entities, and from shared tags only
/// where no link crosses. An entity is recent where it was changed at the horizon or
/// later.
pub proof fn law_links_go_before_tags(ctx: &NudgeContext<'_>, n: NudgeView)
    ensures
        forall|i: int| #[trigger]
            ctx.fresh(i) <==> 0 <= i < ctx.recent_entities@.len() && !sooner(
                ctx.recent_entities@[i].updated_at,
                ctx.horizon(),
            ),
        ctx.has_graph() <==> exists|i: int, p: int, l: int|
            ctx.fresh(i) && #[trigger] crosses(ctx.projects@, ctx.recent_entities@[i], l, p),
        ctx.has(NudgeKind::CrossConnection) <==> ctx.has_graph() || ctx.has_tags(),
        ctx.possible(NudgeKind::CrossConnection, n) ==> (if ctx.has_graph() {
            exists|i: int, p: int, l: int|
                ctx.fresh(i) && #[trigger] crosses(ctx.projects@, ctx.recent_entities@[i], l, p) && n
                    == linked(ctx, i, p, l)
        } else {
            exists|i: int, p: int|
                ctx.fresh(i) && #[trigger] tag_indices(
                    ctx.projects@,
                    ctx.recent_entities@[i],
                ).contains(p) && n == tagged(ctx, i, p)
        }),
{
    if ctx.has_graph() {
        let i = choose|i: int|
            #[trigger] ctx.fresh(i) && graph_pairs(ctx.projects@, ctx.recent_entities@[i]).len() > 0;
        let e = ctx.recent_entities@[i];
        let (p, l) = graph_pairs(ctx.projects@, e)[0];
        assert(graph_pairs(ctx.projects@, e).contains((p, l)));
        law_links_that_cross_count(ctx.projects@, e, p, l);
    }
    if exists|i: int, p: int, l: int|
        ctx.fresh(i) && #[trigger] crosses(ctx.projects@, ctx.recent_entities@[i], l, p) {
        let (i, p, l) = choose|i: int, p: int, l: int|
            ctx.fresh(i) && #[trigger] crosses(ctx.projects@, ctx.recent_entities@[i], l, p);
        law_links_that_cross_count(ctx.projects@, ctx.recent_entities@[i], p, l);
        assert(ctx.fresh(i));
    }
    if ctx.possible(NudgeKind::CrossConnection, n) {
        if ctx.has_graph() {
            let (i, k) = choose|i: int, k: int|
                #![trigger ctx.graph_at(i, k)]
                ctx.fresh(i) && 0 <= k < graph_pairs(ctx.projects@, ctx.recent_entities@[i]).len()
                    && n == ctx.graph_at(i, k);
            let e = ctx.recent_entities@[i];
            let (p, l) = graph_pairs(ctx.projects@, e)[k];
            assert(graph_pairs(ctx.projects@, e).contains((p, l)));
            law_links_that_cross_count(ctx.projects@, e, p, l);
            assert(crosses(ctx.projects@, ctx.recent_entities@[i], l, p));
        } else {
            let (i, k) = choose|i: int, k: int|
                #![trigger ctx.tag_at(i, k)]
                ctx.fresh(i) && 0 <= k < tag_indices(ctx.projects@, ctx.recent_entities@[i]).len()
                    && n == ctx.tag_at(i, k);
            let all = tag_indices(ctx.projects@, ctx.recent_entities@[i]);
            assert(all.contains(all[k]));
        }
    }
}

/// What a nudge about a link says.
pub open spec fn linked(ctx: &NudgeContext<'_>, i: int, p: int, l: int) -> NudgeView {
    let e = ctx.recent_entities@[i];
    let link = e.graph_links@[l];
    NudgeView {
        project_id: ctx.projects@[p].id,
        kind: NudgeKind::CrossConnection,
        title: ctx.projects@[p].name@,
        body: "Recent "@ + (if e.entity_type == EntityType::Reference {
            "reference"@
        } else {
            "note"@
        }) + " \""@ + e.title@ + "\" is linked ("@ + link.kind@ + ") to \""@ + link.neighbour_label@
            + "\" in this project — surface the connection?"@,
    }
}

/// What a nudge about shared tags says.
pub open spec fn tagged(ctx: &NudgeContext<'_>, i: int, p: int) -> NudgeView {
    let e = ctx.recent_entities@[i];
    let tags = ctx.projects@[p].tags.deep_view().filter(
        |t: Seq<char>| e.tags.deep_view().contains(t),
    );
    NudgeView {
        project_id: ctx.projects@[p].id,
        kind: NudgeKind::CrossConnection,
        title: ctx.projects@[p].name@,
        body: "Recent "@ + (if e.entity_type == EntityType::Reference {
            "reference"@
        } else {
            "note"@
        }) + " \""@ + e.title@ + "\" shares tags ["@ + join(tags, ", "@) + "] with this project."@,
    }
}

// ---------------------------------------------------------------------------
// The order of the kinds
// ---------------------------------------------------------------------------

/// Every kind with a weight above zero is ranked, and no other; the heaviest first.
pub proof fn law_weighted_kinds_are_ranked(w: NudgeWeights, k: NudgeKind)
    ensures
        ({
            let weight = match k {
                NudgeKind::OpenQuestion => w.open_question,
                NudgeKind::CrossConnection => w.cross_connection,
                NudgeKind::BlockedEscalation => w.blocked,
            };
            &&& ranked(w).contains((k, weight)) <==> 0 < weight <= 0x7FF0_0000_0000_0000
            &&& forall|i: int| 0 <= i < ranked(w).len() && (#[trigger] ranked(w)[i]).0 == k ==> ranked(w)[i].1
                == weight
        }),
        forall|i: int, j: int|
            0 <= i < j < ranked(w).len() ==> (#[trigger] ranked(w)[i]).1 >= (#[trigger] ranked(w)[j]).1,
        ranked(w).len() <= 3,
{
    broadcast use vstd::seq_lib::group_to_multiset_ensures;

    let all = seq![
        (NudgeKind::OpenQuestion, w.open_question),
        (NudgeKind::CrossConnection, w.cross_connection),
        (NudgeKind::BlockedEscalation, w.blocked),
    ];
    let f = |x: (NudgeKind, u64)| super::config::positive(x.1);
    let le = |a: (NudgeKind, u64), b: (NudgeKind, u64)| a.1 >= b.1;
    let kinds = weighted_kinds(w);
    lemma_sort(kinds, le);
    let r = ranked(w);
    assert forall|x: (NudgeKind, u64)| #[trigger] r.contains(x) <==> all.contains(x) && f(x) by {
        assert(r.contains(x) <==> r.to_multiset().count(x) > 0);
        assert(kinds.contains(x) <==> kinds.to_multiset().count(x) > 0);
        if kinds.contains(x) {
            let m = choose|m: int| 0 <= m < kinds.len() && kinds[m] == x;
            all.lemma_filter_pred(f, m);
            all.lemma_filter_contains_rev(f, x);
        }
        if all.contains(x) && f(x) {
            let m = choose|m: int| 0 <= m < all.len() && all[m] == x;
            all.lemma_filter_contains(f, m);
        }
    }
    assert(all[0] == (NudgeKind::OpenQuestion, w.open_question));
    assert(all[1] == (NudgeKind::CrossConnection, w.cross_connection));
    assert(all[2] == (NudgeKind::BlockedEscalation, w.blocked));
    all.lemma_filter_len(f);
    assert forall|i: int| 0 <= i < r.len() implies all.contains(#[trigger] r[i]) by {
        assert(r.contains(r[i]));
    }
    assert forall|i: int, j: int| 0 <= i < j < r.len() implies (#[trigger] r[i]).1 >= (
    #[trigger] r[j]).1 by {
        assert(le(r[i], r[j]));
    }
}

/// The kind that was rolled is tried first, or the heaviest where the roll is beyond them;
/// then the others, in their order.
pub proof fn law_the_rolled_kind_goes_first(rs: Seq<(NudgeKind, u64)>, rolled: int)
    requires
        rs.len() > 0,
    ensures
        ({
            let order = attempt_order_of(rs, rolled);
            let first = if 0 <= rolled < rs.len() {
                rs[rolled].0
            } else {
                rs[0].0
            };
            &&& order.len() > 0
            &&& order[0] == first
            &&& order.skip(1) == rs.map_values(|x: (NudgeKind, u64)| x.0).filter(
                |k: NudgeKind| k != first,
            )
        }),
{
    let order = attempt_order_of(rs, rolled);
    let first = order[0];
    let rest = rs.map_values(|x: (NudgeKind, u64)| x.0).filter(|k: NudgeKind| k != first);
    assert(order.skip(1) =~= rest);
}

/// Of the kinds, in the order in which they are tried, the first that has a candidate
/// gives the nudge; where none has, there is no nudge.
pub proof fn law_the_first_kind_with_a_candidate_wins(
    ctx: &NudgeContext<'_>,
    kinds: Seq<NudgeKind>,
    r: Option<NudgeView>,
)
    requires
        outcome(ctx, kinds, r),
    ensures
        r is None <==> forall|i: int| 0 <= i < kinds.len() ==> !ctx.has(#[trigger] kinds[i]),
        r matches Some(n) ==> exists|i: int|
            0 <= i < kinds.len() && ctx.has(#[trigger] kinds[i]) && ctx.possible(kinds[i], n) && (
            forall|j: int| 0 <= j < i ==> !ctx.has(#[trigger] kinds[j])),
    decreases kinds.len(),
{
    if kinds.len() > 0 && !ctx.has(kinds[0]) {
        let rest = kinds.skip(1);
        law_the_first_kind_with_a_candidate_wins(ctx, rest, r);
        if r is None {
            assert forall|i: int| 0 <= i < kinds.len() implies !ctx.has(#[trigger] kinds[i]) by {
                if i > 0 {
                    assert(rest[i - 1] == kinds[i]);
                }
            }
        } else {
            let n = r->0;
            let i = choose|i: int|
                0 <= i < rest.len() && ctx.has(#[trigger] rest[i]) && ctx.possible(rest[i], n) && (
                forall|j: int| 0 <= j < i ==> !ctx.has(#[trigger] rest[j]));
            assert(kinds[i + 1] == rest[i]);
            assert forall|j: int| 0 <= j < i + 1 implies !ctx.has(#[trigger] kinds[j]) by {
                if j > 0 {
                    assert(rest[j - 1] == kinds[j]);
                }
            }
        }
    }
}

} // verus!
