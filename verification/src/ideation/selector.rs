//! Picking a suggestion.
//!
//! A kind is rolled by weight. Where it has a candidate, one is picked at
//! random; else the other kinds are tried from the heaviest down.
//!
//! A cross-connection rests on an edge of the relation graph into another
//! active project where there is one, and on shared tags otherwise. Either way
//! it is addressed to a project that the note or reference does not belong to.

use rand::rngs::StdRng;
use vstd::prelude::*;
use vstd::string::StringExecFns;

use super::config::{at_least_one, positive, IdeationConfig, NudgeWeights, INFINITY_BITS};
use super::nudge::{Nudge, NudgeKind, NudgeView};
use crate::order::{sort, sort_by};
use crate::projects::{EntityType, ProjectEntry, ProjectStatus};
use crate::random::{choose_one, shuffle};
use crate::seqs::{as_ints, first_where, indices_where, lemma_first_where, lemma_indices_where};
use crate::text;
use crate::text::join;
use crate::time::{date_text, UtcTime};

verus! {

/// What the selector looks at.
pub struct NudgeContext<'a> {
    pub projects: &'a [ProjectEntry],
    pub recent_entities: &'a [RecentEntity],
    pub now: UtcTime,
    pub config: &'a IdeationConfig,
}

/// A note or reference that changed not long ago.
#[derive(Debug, Clone, PartialEq, Eq)]
pub struct RecentEntity {
    pub id: u128,
    pub entity_type: EntityType,
    pub title: String,
    /// The project that it belongs to, if any.
    pub project_id: Option<u128>,
    pub tags: Vec<String>,
    pub updated_at: UtcTime,
    /// Its neighbours in the relation graph.
    pub graph_links: Vec<GraphLink>,
}

/// An edge of the relation graph.
#[derive(Debug, Clone, PartialEq, Eq)]
pub struct GraphLink {
    /// The kind of relation.
    pub kind: String,
    /// What the neighbour is called.
    pub neighbour_label: String,
    /// The project that the neighbour belongs to, if any.
    pub neighbour_project: Option<u128>,
}

#[derive(Debug, Clone)]
pub struct NudgeSelector;

// ---------------------------------------------------------------------------
// Candidates
// ---------------------------------------------------------------------------

/// Whether a project may be nudged about at all.
pub open spec fn eligible(p: ProjectEntry) -> bool {
    p.status != ProjectStatus::Complete
}

/// The open questions of eligible projects, as pairs of a project's and a
/// question's index.
pub open spec fn question_pairs(projects: Seq<ProjectEntry>) -> Seq<(int, int)>
    decreases projects.len(),
{
    if projects.len() == 0 {
        Seq::empty()
    } else {
        let before = question_pairs(projects.drop_last());
        let p = projects.last();
        if eligible(p) {
            before + Seq::new(p.open_questions@.len(), |q: int| (projects.len() - 1, q))
        } else {
            before
        }
    }
}

/// The nudge for an open question.
pub open spec fn question_nudge(p: ProjectEntry, q: int) -> NudgeView {
    NudgeView {
        project_id: p.id,
        kind: NudgeKind::OpenQuestion,
        title: p.name@,
        body: p.open_questions@[q]@,
    }
}

/// Whether a project calls for an unblocking nudge.
pub open spec fn needs_unblocking(p: ProjectEntry, cutoff: UtcTime) -> bool {
    eligible(p) && (p.status == ProjectStatus::Blocked || p.updated_at.lt(cutoff))
}

/// The nudge for a blocked or quiet project.
pub open spec fn blocked_nudge(p: ProjectEntry) -> NudgeView {
    NudgeView {
        project_id: p.id,
        kind: NudgeKind::BlockedEscalation,
        title: p.name@,
        body: if p.status == ProjectStatus::Blocked {
            "This project is marked blocked. What's the smallest concrete next step you could take right now?"@
        } else {
            "This project has gone quiet since "@ + date_text(p.updated_at.secs, p.updated_at.nanos)
                + ". What's the smallest concrete next step you could take right now?"@
        },
    }
}

/// The word for an entity in a nudge.
pub open spec fn entity_label_text(ty: EntityType) -> Seq<char> {
    match ty {
        EntityType::Reference => "reference"@,
        _ => "note"@,
    }
}

/// The eligible project that a graph link of an entity leads to, where it leads
/// into another project than the entity's own.
pub open spec fn link_target(
    projects: Seq<ProjectEntry>,
    entity: RecentEntity,
    link: GraphLink,
) -> Option<int> {
    if link.neighbour_project is None || link.neighbour_project == entity.project_id {
        None
    } else {
        first_where(
            projects,
            |p: ProjectEntry| eligible(p) && p.id == link.neighbour_project->0,
        )
    }
}

/// The links of an entity that cross into another eligible project, as pairs of
/// the project's and the link's index. `links` is a prefix of the entity's.
pub open spec fn crossing_links(
    projects: Seq<ProjectEntry>,
    entity: RecentEntity,
    links: Seq<GraphLink>,
) -> Seq<(int, int)>
    decreases links.len(),
{
    if links.len() == 0 {
        Seq::empty()
    } else {
        let before = crossing_links(projects, entity, links.drop_last());
        match link_target(projects, entity, links.last()) {
            Some(p) => before.push((p, links.len() - 1)),
            None => before,
        }
    }
}

/// The graph candidates of an entity.
pub open spec fn graph_pairs(projects: Seq<ProjectEntry>, entity: RecentEntity) -> Seq<(int, int)> {
    crossing_links(projects, entity, entity.graph_links@)
}

/// The nudge for a graph link.
pub open spec fn graph_nudge(p: ProjectEntry, entity: RecentEntity, link: GraphLink) -> NudgeView {
    NudgeView {
        project_id: p.id,
        kind: NudgeKind::CrossConnection,
        title: p.name@,
        body: "Recent "@ + entity_label_text(entity.entity_type) + " \""@ + entity.title@
            + "\" is linked ("@ + link.kind@ + ") to \""@ + link.neighbour_label@
            + "\" in this project — surface the connection?"@,
    }
}

/// The tags of a project that an entity has too, in the project's order.
pub open spec fn common_tags(tags: Seq<Seq<char>>, entity_tags: Seq<Seq<char>>) -> Seq<Seq<char>> {
    tags.filter(|t: Seq<char>| entity_tags.contains(t))
}

/// Whether a project shares a tag with an entity that does not belong to it.
pub open spec fn shares_tags(p: ProjectEntry, entity: RecentEntity) -> bool {
    &&& eligible(p)
    &&& entity.project_id != Some(p.id)
    &&& common_tags(p.tags.deep_view(), entity.tags.deep_view()).len() > 0
}

/// The tag candidates of an entity.
pub open spec fn tag_indices(projects: Seq<ProjectEntry>, entity: RecentEntity) -> Seq<int> {
    indices_where(projects, |p: ProjectEntry| shares_tags(p, entity))
}

/// The nudge for shared tags.
pub open spec fn tag_nudge(p: ProjectEntry, entity: RecentEntity) -> NudgeView {
    NudgeView {
        project_id: p.id,
        kind: NudgeKind::CrossConnection,
        title: p.name@,
        body: "Recent "@ + entity_label_text(entity.entity_type) + " \""@ + entity.title@
            + "\" shares tags ["@ + join(
            common_tags(p.tags.deep_view(), entity.tags.deep_view()),
            ", "@,
        ) + "] with this project."@,
    }
}

impl NudgeContext<'_> {
    /// From when on an entity counts as recent.
    pub open spec fn horizon(&self) -> UtcTime {
        self.now.back(at_least_one(self.config.recent_seed_hours))
    }

    /// Before when a project counts as quiet.
    pub open spec fn stale_cutoff(&self) -> UtcTime {
        self.now.back(at_least_one(self.config.stale_project_hours))
    }

    /// Whether the two points in time exist, and every project's time can be
    /// written as a date.
    pub open spec fn valid(&self) -> bool {
        &&& self.now.fits_back(at_least_one(self.config.recent_seed_hours))
        &&& self.now.fits_back(at_least_one(self.config.stale_project_hours))
        &&& forall|i: int| 0 <= i < self.projects@.len() ==> (#[trigger] self.projects@[i]).updated_at.valid()
    }

    /// Whether an entity is recent.
    pub open spec fn fresh(&self, i: int) -> bool {
        0 <= i < self.recent_entities@.len() && !self.recent_entities@[i].updated_at.lt(
            self.horizon(),
        )
    }

    /// Whether a recent entity has a graph candidate.
    pub open spec fn has_graph(&self) -> bool {
        exists|i: int|
            #[trigger] self.fresh(i) && graph_pairs(
                self.projects@,
                self.recent_entities@[i],
            ).len() > 0
    }

    /// Whether a recent entity has a tag candidate.
    pub open spec fn has_tags(&self) -> bool {
        exists|i: int|
            #[trigger] self.fresh(i) && tag_indices(
                self.projects@,
                self.recent_entities@[i],
            ).len() > 0
    }

    /// Whether a nudge names a graph candidate of a recent entity.
    pub open spec fn is_graph(&self, n: NudgeView) -> bool {
        exists|i: int, k: int|
            #![trigger self.graph_at(i, k)]
            self.fresh(i) && 0 <= k < graph_pairs(self.projects@, self.recent_entities@[i]).len()
                && n == self.graph_at(i, k)
    }

    /// Whether a nudge names a tag candidate of a recent entity.
    pub open spec fn is_tag(&self, n: NudgeView) -> bool {
        exists|i: int, k: int|
            #![trigger self.tag_at(i, k)]
            self.fresh(i) && 0 <= k < tag_indices(self.projects@, self.recent_entities@[i]).len()
                && n == self.tag_at(i, k)
    }

    /// The nudge of one graph candidate of one entity.
    pub open spec fn graph_at(&self, i: int, k: int) -> NudgeView {
        let e = self.recent_entities@[i];
        let (p, l) = graph_pairs(self.projects@, e)[k];
        graph_nudge(self.projects@[p], e, e.graph_links@[l])
    }

    /// The nudge of one tag candidate of one entity.
    pub open spec fn tag_at(&self, i: int, k: int) -> NudgeView {
        let e = self.recent_entities@[i];
        tag_nudge(self.projects@[tag_indices(self.projects@, e)[k]], e)
    }

    /// The projects that call for an unblocking nudge.
    pub open spec fn blocked_indices(&self) -> Seq<int> {
        indices_where(
            self.projects@,
            |p: ProjectEntry| needs_unblocking(p, self.stale_cutoff()),
        )
    }

    /// Whether a kind has a candidate.
    pub open spec fn has(&self, kind: NudgeKind) -> bool {
        match kind {
            NudgeKind::OpenQuestion => question_pairs(self.projects@).len() > 0,
            NudgeKind::CrossConnection => self.has_graph() || self.has_tags(),
            NudgeKind::BlockedEscalation => self.blocked_indices().len() > 0,
        }
    }

    /// Whether a nudge is one of those that a kind may come to: for a
    /// cross-connection, tags only count where no graph candidate exists.
    pub open spec fn possible(&self, kind: NudgeKind, n: NudgeView) -> bool {
        match kind {
            NudgeKind::OpenQuestion => exists|k: int|
                0 <= k < question_pairs(self.projects@).len() && n == #[trigger] self.question_at(k),
            NudgeKind::CrossConnection => if self.has_graph() {
                self.is_graph(n)
            } else {
                self.is_tag(n)
            },
            NudgeKind::BlockedEscalation => exists|k: int|
                0 <= k < self.blocked_indices().len() && n == #[trigger] self.blocked_at(k),
        }
    }

    /// The nudge of one open question.
    pub open spec fn question_at(&self, k: int) -> NudgeView {
        let (p, q) = question_pairs(self.projects@)[k];
        question_nudge(self.projects@[p], q)
    }

    /// The nudge of one project that calls for unblocking.
    pub open spec fn blocked_at(&self, k: int) -> NudgeView {
        blocked_nudge(self.projects@[self.blocked_indices()[k]])
    }
}

// ---------------------------------------------------------------------------
// Lists of candidates
// ---------------------------------------------------------------------------

/// Pairs of indices as mathematical numbers.
pub open spec fn as_int_pairs(v: Seq<(usize, usize)>) -> Seq<(int, int)> {
    v.map_values(|x: (usize, usize)| (x.0 as int, x.1 as int))
}

/// Lists the open questions of eligible projects.
pub fn open_question_candidates(projects: &[ProjectEntry]) -> (r: Vec<(usize, usize)>)
    ensures
        as_int_pairs(r@) == question_pairs(projects@),
        forall|k: int|
            0 <= k < r@.len() ==> (#[trigger] r@[k]).0 < projects@.len() && r@[k].1
                < projects@[r@[k].0 as int].open_questions@.len() && eligible(
                projects@[r@[k].0 as int],
            ),
{
    let mut out: Vec<(usize, usize)> = Vec::new();
    let mut i: usize = 0;
    assert(projects@.take(0) =~= Seq::empty());
    assert(as_int_pairs(out@) =~= question_pairs(projects@.take(0)));
    while i < projects.len()
        invariant
            i <= projects@.len(),
            as_int_pairs(out@) == question_pairs(projects@.take(i as int)),
            forall|k: int|
                0 <= k < out@.len() ==> (#[trigger] out@[k]).0 < projects@.len() && out@[k].1
                    < projects@[out@[k].0 as int].open_questions@.len() && eligible(
                    projects@[out@[k].0 as int],
                ),
        decreases projects@.len() - i,
    {
        let ghost before = out@;
        proof {
            assert(projects@.take(i + 1).drop_last() =~= projects@.take(i as int));
            assert(projects@.take(i + 1).last() == projects@[i as int]);
        }
        if projects[i].status != ProjectStatus::Complete {
            let n: usize = projects[i].open_questions.len();
            let mut q: usize = 0;
            assert(out@ =~= before + Seq::new(0, |x: int| (i, x as usize)));
            while q < n
                invariant
                    q <= n,
                    i < projects@.len(),
                    n == projects@[i as int].open_questions@.len(),
                    eligible(projects@[i as int]),
                    out@ == before + Seq::new(q as nat, |x: int| (i, x as usize)),
                    forall|k: int|
                        0 <= k < out@.len() ==> (#[trigger] out@[k]).0 < projects@.len() && out@[k].1
                            < projects@[out@[k].0 as int].open_questions@.len() && eligible(
                            projects@[out@[k].0 as int],
                        ),
                decreases n - q,
            {
                out.push((i, q));
                q += 1;
                assert(out@ =~= before + Seq::new(q as nat, |x: int| (i, x as usize)));
            }
            assert(as_int_pairs(out@) =~= as_int_pairs(before) + Seq::new(
                n as nat,
                |x: int| (i as int, x),
            ));
            assert(as_int_pairs(out@) =~= question_pairs(projects@.take(i + 1)));
        }
        i += 1;
    }
    assert(projects@.take(i as int) =~= projects@);
    out
}

/// Lists the projects that call for an unblocking nudge.
pub fn blocked_candidates(projects: &[ProjectEntry], cutoff: UtcTime) -> (r: Vec<usize>)
    ensures
        as_ints(r@) == indices_where(
            projects@,
            |p: ProjectEntry| needs_unblocking(p, cutoff),
        ),
{
    let mut out: Vec<usize> = Vec::new();
    let ghost pred = |p: ProjectEntry| needs_unblocking(p, cutoff);
    let mut i: usize = 0;
    assert(projects@.take(0) =~= Seq::empty());
    assert(as_ints(out@) =~= indices_where(projects@.take(0), pred));
    while i < projects.len()
        invariant
            i <= projects@.len(),
            pred == (|p: ProjectEntry| needs_unblocking(p, cutoff)),
            as_ints(out@) == indices_where(projects@.take(i as int), pred),
        decreases projects@.len() - i,
    {
        let ghost before = out@;
        proof {
            assert(projects@.take(i + 1).drop_last() =~= projects@.take(i as int));
            assert(projects@.take(i + 1).last() == projects@[i as int]);
        }
        let p = &projects[i];
        if p.status != ProjectStatus::Complete && (p.status == ProjectStatus::Blocked
            || p.updated_at.is_before(&cutoff)) {
            out.push(i);
            assert(as_ints(out@) =~= as_ints(before).push(i as int));
        }
        i += 1;
    }
    assert(projects@.take(i as int) =~= projects@);
    out
}

/// The first eligible project with an id.
fn find_eligible(projects: &[ProjectEntry], id: u128) -> (r: Option<usize>)
    ensures
        r is Some <==> first_where(projects@, |p: ProjectEntry| eligible(p) && p.id == id) is Some,
        r is Some ==> r->0 < projects@.len() && first_where(
            projects@,
            |p: ProjectEntry| eligible(p) && p.id == id,
        ) == Some(r->0 as int),
{
    let ghost pred = |p: ProjectEntry| eligible(p) && p.id == id;
    let mut i: usize = 0;
    while i < projects.len()
        invariant
            i <= projects@.len(),
            pred == (|p: ProjectEntry| eligible(p) && p.id == id),
            forall|k: int| 0 <= k < i ==> !pred(#[trigger] projects@[k]),
        decreases projects@.len() - i,
    {
        if projects[i].status != ProjectStatus::Complete && projects[i].id == id {
            proof {
                crate::seqs::lemma_first_where_is(projects@, pred, i as int);
            }
            return Some(i);
        }
        i += 1;
    }
    proof {
        crate::seqs::lemma_first_where_none(projects@, pred);
    }
    None
}

/// Lists the links of an entity that cross into another eligible project.
pub fn graph_candidates(projects: &[ProjectEntry], entity: &RecentEntity) -> (r: Vec<
    (usize, usize),
>)
    ensures
        as_int_pairs(r@) == graph_pairs(projects@, *entity),
        forall|k: int|
            0 <= k < r@.len() ==> (#[trigger] r@[k]).0 < projects@.len() && r@[k].1
                < entity.graph_links@.len(),
{
    let mut out: Vec<(usize, usize)> = Vec::new();
    let ghost links = entity.graph_links@;
    let mut i: usize = 0;
    assert(links.take(0) =~= Seq::empty());
    assert(as_int_pairs(out@) =~= crossing_links(projects@, *entity, links.take(0)));
    while i < entity.graph_links.len()
        invariant
            i <= links.len(),
            links == entity.graph_links@,
            as_int_pairs(out@) == crossing_links(projects@, *entity, links.take(i as int)),
            forall|k: int|
                0 <= k < out@.len() ==> (#[trigger] out@[k]).0 < projects@.len() && out@[k].1
                    < links.len(),
        decreases links.len() - i,
    {
        let ghost before = out@;
        proof {
            assert(links.take(i + 1).drop_last() =~= links.take(i as int));
            assert(links.take(i + 1).last() == links[i as int]);
        }
        match entity.graph_links[i].neighbour_project {
            Some(np) => {
                let own = match entity.project_id {
                    Some(id) => id == np,
                    None => false,
                };
                if !own {
                    match find_eligible(projects, np) {
                        Some(p) => {
                            out.push((p, i));
                            assert(as_int_pairs(out@) =~= as_int_pairs(before).push(
                                (p as int, i as int),
                            ));
                        },
                        None => {},
                    }
                }
            },
            None => {},
        }
        i += 1;
    }
    assert(links.take(i as int) =~= links);
    out
}

/// The tags that two lists share, in the order of the first.
fn shared_tags(tags: &[String], entity_tags: &[String]) -> (r: Vec<String>)
    ensures
        r.deep_view() == common_tags(tags.deep_view(), entity_tags.deep_view()),
{
    let ghost tv = tags.deep_view();
    let ghost ev = entity_tags.deep_view();
    let ghost pred = |t: Seq<char>| ev.contains(t);
    let mut out: Vec<String> = Vec::new();
    let mut i: usize = 0;
    assert(tv.take(0) =~= Seq::empty());
    assert(out.deep_view() =~= tv.take(0).filter(pred)) by {
        reveal(Seq::filter);
    }
    while i < tags.len()
        invariant
            i <= tags@.len(),
            tv == tags.deep_view(),
            ev == entity_tags.deep_view(),
            pred == (|t: Seq<char>| ev.contains(t)),
            out.deep_view() == tv.take(i as int).filter(pred),
        decreases tags@.len() - i,
    {
        let ghost before = out.deep_view();
        proof {
            assert(tv.take(i + 1) =~= tv.take(i as int).push(tv[i as int]));
            tv.take(i as int).lemma_filter_push(tv[i as int], pred);
        }
        if text::strings_contain(entity_tags, &tags[i]) {
            out.push(tags[i].clone());
            assert(out.deep_view() =~= before.push(tv[i as int]));
        }
        i += 1;
    }
    assert(tv.take(i as int) =~= tv);
    out
}

/// Lists the projects that share a tag with an entity that does not belong to
/// them.
pub fn tag_candidates(projects: &[ProjectEntry], entity: &RecentEntity) -> (r: Vec<usize>)
    ensures
        as_ints(r@) == tag_indices(projects@, *entity),
{
    let mut out: Vec<usize> = Vec::new();
    let ghost pred = |p: ProjectEntry| shares_tags(p, *entity);
    let mut i: usize = 0;
    assert(projects@.take(0) =~= Seq::empty());
    assert(as_ints(out@) =~= indices_where(projects@.take(0), pred));
    while i < projects.len()
        invariant
            i <= projects@.len(),
            pred == (|p: ProjectEntry| shares_tags(p, *entity)),
            as_ints(out@) == indices_where(projects@.take(i as int), pred),
        decreases projects@.len() - i,
    {
        let ghost before = out@;
        proof {
            assert(projects@.take(i + 1).drop_last() =~= projects@.take(i as int));
            assert(projects@.take(i + 1).last() == projects@[i as int]);
        }
        let p = &projects[i];
        let own = match entity.project_id {
            Some(id) => id == p.id,
            None => false,
        };
        if p.status != ProjectStatus::Complete && !own {
            let common = shared_tags(&p.tags, &entity.tags);
            assert(common@.len() == common.deep_view().len());
            if common.len() > 0 {
                out.push(i);
                assert(as_ints(out@) =~= as_ints(before).push(i as int));
            }
        }
        i += 1;
    }
    assert(projects@.take(i as int) =~= projects@);
    out
}

/// Lists the recent entities.
fn fresh_entities(ctx: &NudgeContext<'_>, horizon: UtcTime) -> (r: Vec<usize>)
    requires
        horizon == ctx.horizon(),
    ensures
        forall|k: int| 0 <= k < r@.len() ==> ctx.fresh(#[trigger] r@[k] as int),
        forall|i: int| #[trigger] ctx.fresh(i) ==> r@.contains(i as usize),
{
    let mut out: Vec<usize> = Vec::new();
    let mut i: usize = 0;
    while i < ctx.recent_entities.len()
        invariant
            i <= ctx.recent_entities@.len(),
            horizon == ctx.horizon(),
            forall|k: int| 0 <= k < out@.len() ==> ctx.fresh(#[trigger] out@[k] as int),
            forall|j: int| 0 <= j < i && #[trigger] ctx.fresh(j) ==> out@.contains(j as usize),
        decreases ctx.recent_entities@.len() - i,
    {
        let ghost before = out@;
        if !ctx.recent_entities[i].updated_at.is_before(&horizon) {
            out.push(i);
            proof {
                assert(ctx.fresh(i as int));
                assert(out@[before.len() as int] == i);
                assert forall|j: int| 0 <= j < i + 1 && #[trigger] ctx.fresh(j) implies out@.contains(
                    j as usize,
                ) by {
                    if j < i {
                        let k = choose|k: int| 0 <= k < before.len() && before[k] == j as usize;
                        assert(out@[k] == j as usize);
                    }
                }
            }
        }
        i += 1;
    }
    out
}

// ---------------------------------------------------------------------------
// Nudges
// ---------------------------------------------------------------------------

/// The nudge for an open question.
pub fn open_question_nudge(p: &ProjectEntry, q: usize) -> (r: Nudge)
    requires
        q < p.open_questions@.len(),
    ensures
        r.deep_view() == question_nudge(*p, q as int),
{
    Nudge {
        project_id: p.id,
        kind: NudgeKind::OpenQuestion,
        title: p.name.clone(),
        body: p.open_questions[q].clone(),
    }
}

/// The nudge for a blocked or quiet project.
pub fn blocked_escalation_nudge(p: &ProjectEntry) -> (r: Nudge)
    requires
        p.updated_at.valid(),
    ensures
        r.deep_view() == blocked_nudge(*p),
{
    let body: String = if p.status == ProjectStatus::Blocked {
        text::owned(
            "This project is marked blocked. What's the smallest concrete next step you could take right now?",
        )
    } else {
        text::concat3(
            "This project has gone quiet since ",
            &p.updated_at.date(),
            ". What's the smallest concrete next step you could take right now?",
        )
    };
    Nudge { project_id: p.id, kind: NudgeKind::BlockedEscalation, title: p.name.clone(), body }
}

fn entity_label(ty: EntityType) -> (r: &'static str)
    ensures
        r@ == entity_label_text(ty),
{
    match ty {
        EntityType::Reference => "reference",
        _ => "note",
    }
}

/// The nudge for a graph link.
pub fn graph_link_nudge(p: &ProjectEntry, entity: &RecentEntity, link: &GraphLink) -> (r: Nudge)
    ensures
        r.deep_view() == graph_nudge(*p, *entity, *link),
{
    let mut body = text::concat3("Recent ", entity_label(entity.entity_type), " \"");
    body.append(&entity.title);
    body.append("\" is linked (");
    body.append(&link.kind);
    body.append(") to \"");
    body.append(&link.neighbour_label);
    body.append("\" in this project — surface the connection?");
    Nudge { project_id: p.id, kind: NudgeKind::CrossConnection, title: p.name.clone(), body }
}

/// The nudge for shared tags.
pub fn tag_overlap_nudge(p: &ProjectEntry, entity: &RecentEntity) -> (r: Nudge)
    ensures
        r.deep_view() == tag_nudge(*p, *entity),
{
    let common = shared_tags(&p.tags, &entity.tags);
    let mut body = text::concat3("Recent ", entity_label(entity.entity_type), " \"");
    body.append(&entity.title);
    body.append("\" shares tags [");
    body.append(&text::join_strings(&common, ", "));
    body.append("] with this project.");
    Nudge { project_id: p.id, kind: NudgeKind::CrossConnection, title: p.name.clone(), body }
}

// ---------------------------------------------------------------------------
// Picking
// ---------------------------------------------------------------------------

fn pick_open_question(ctx: &NudgeContext<'_>, rng: &mut StdRng) -> (r: Option<Nudge>)
    ensures
        r is Some <==> ctx.has(NudgeKind::OpenQuestion),
        r is Some ==> ctx.possible(NudgeKind::OpenQuestion, r->0.deep_view()),
{
    let candidates = open_question_candidates(ctx.projects);
    proof {
        assert(candidates@.len() == question_pairs(ctx.projects@).len());
    }
    match choose_one(rng, &candidates) {
        Some(pair) => {
            let (p, q) = *pair;
            let ghost k = choose|k: int| 0 <= k < candidates@.len() && candidates@[k] == (p, q);
            assert(as_int_pairs(candidates@)[k] == (p as int, q as int));
            let nudge = open_question_nudge(&ctx.projects[p], q);
            assert(nudge.deep_view() == ctx.question_at(k));
            Some(nudge)
        },
        None => None,
    }
}

fn pick_blocked_escalation(ctx: &NudgeContext<'_>, rng: &mut StdRng) -> (r: Option<Nudge>)
    requires
        ctx.valid(),
    ensures
        r is Some <==> ctx.has(NudgeKind::BlockedEscalation),
        r is Some ==> ctx.possible(NudgeKind::BlockedEscalation, r->0.deep_view()),
{
    let hours: u64 = if ctx.config.stale_project_hours < 1 {
        1
    } else {
        ctx.config.stale_project_hours
    };
    let cutoff = ctx.now.checked_hours_back(hours).unwrap();
    let candidates = blocked_candidates(ctx.projects, cutoff);
    proof {
        assert(as_ints(candidates@) == ctx.blocked_indices());
        assert(candidates@.len() == ctx.blocked_indices().len());
        lemma_indices_where(ctx.projects@, |p: ProjectEntry| needs_unblocking(p, cutoff));
    }
    match choose_one(rng, &candidates) {
        Some(index) => {
            let p: usize = *index;
            let ghost k = choose|k: int| 0 <= k < candidates@.len() && candidates@[k] == p;
            assert(ctx.blocked_indices()[k] == p as int);
            let nudge = blocked_escalation_nudge(&ctx.projects[p]);
            assert(nudge.deep_view() == ctx.blocked_at(k));
            Some(nudge)
        },
        None => None,
    }
}

/// Two lists with the same elements hold the same indices.
proof fn lemma_same_members(a: Seq<usize>, b: Seq<usize>)
    requires
        a.to_multiset() == b.to_multiset(),
    ensures
        forall|x: usize| a.contains(x) <==> b.contains(x),
{
    broadcast use vstd::seq_lib::group_to_multiset_ensures;

    assert forall|x: usize| a.contains(x) <==> b.contains(x) by {
        assert(a.contains(x) <==> a.to_multiset().count(x) > 0);
        assert(b.contains(x) <==> b.to_multiset().count(x) > 0);
    }
}

fn pick_cross_connection(ctx: &NudgeContext<'_>, rng: &mut StdRng) -> (r: Option<Nudge>)
    requires
        ctx.valid(),
    ensures
        r is Some <==> ctx.has(NudgeKind::CrossConnection),
        r is Some ==> ctx.possible(NudgeKind::CrossConnection, r->0.deep_view()),
{
    let hours: u64 = if ctx.config.recent_seed_hours < 1 {
        1
    } else {
        ctx.config.recent_seed_hours
    };
    let horizon = ctx.now.checked_hours_back(hours).unwrap();
    let total: usize = ctx.recent_entities.len();
    let mut order = fresh_entities(ctx, horizon);
    let ghost fresh = order@;
    shuffle(rng, &mut order);
    proof {
        lemma_same_members(fresh, order@);
        assert forall|k: int| 0 <= k < order@.len() implies ctx.fresh(#[trigger] order@[k] as int) by {
            assert(order@.contains(order@[k]));
            let j = choose|j: int| 0 <= j < fresh.len() && fresh[j] == order@[k];
            assert(ctx.fresh(fresh[j] as int));
        }
        assert forall|i: int| #[trigger] ctx.fresh(i) implies order@.contains(i as usize) by {
            assert(fresh.contains(i as usize));
        }
    }
    let mut n: usize = 0;
    while n < order.len()
        invariant
            n <= order@.len(),
            forall|k: int| 0 <= k < order@.len() ==> ctx.fresh(#[trigger] order@[k] as int),
            forall|k: int|
                0 <= k < n ==> graph_pairs(
                    ctx.projects@,
                    ctx.recent_entities@[#[trigger] order@[k] as int],
                ).len() == 0,
        decreases order@.len() - n,
    {
        let i: usize = order[n];
        assert(ctx.fresh(i as int));
        let entity = &ctx.recent_entities[i];
        let candidates = graph_candidates(ctx.projects, entity);
        proof {
            assert(candidates@.len() == graph_pairs(ctx.projects@, *entity).len());
        }
        match choose_one(rng, &candidates) {
            Some(pair) => {
                let (p, l) = *pair;
                let ghost k = choose|k: int| 0 <= k < candidates@.len() && candidates@[k] == (p, l);
                assert(as_int_pairs(candidates@)[k] == (p as int, l as int));
                let nudge = graph_link_nudge(&ctx.projects[p], entity, &entity.graph_links[l]);
                assert(nudge.deep_view() == ctx.graph_at(i as int, k));
                return Some(nudge);
            },
            None => {},
        }
        n += 1;
    }
    proof {
        assert(!ctx.has_graph()) by {
            if ctx.has_graph() {
                let i = choose|i: int|
                    #[trigger] ctx.fresh(i) && graph_pairs(
                        ctx.projects@,
                        ctx.recent_entities@[i],
                    ).len() > 0;
                assert(i < total);
                assert(order@.contains(i as usize));
                let k = choose|k: int| 0 <= k < order@.len() && order@[k] == i as usize;
                assert(order@[k] as int == i);
            }
        }
    }
    let mut m: usize = 0;
    while m < order.len()
        invariant
            m <= order@.len(),
            !ctx.has_graph(),
            forall|k: int| 0 <= k < order@.len() ==> ctx.fresh(#[trigger] order@[k] as int),
            forall|k: int|
                0 <= k < m ==> tag_indices(
                    ctx.projects@,
                    ctx.recent_entities@[#[trigger] order@[k] as int],
                ).len() == 0,
        decreases order@.len() - m,
    {
        let i: usize = order[m];
        assert(ctx.fresh(i as int));
        let entity = &ctx.recent_entities[i];
        let candidates = tag_candidates(ctx.projects, entity);
        proof {
            assert(candidates@.len() == tag_indices(ctx.projects@, *entity).len());
            lemma_indices_where(ctx.projects@, |p: ProjectEntry| shares_tags(p, *entity));
        }
        match choose_one(rng, &candidates) {
            Some(index) => {
                let p: usize = *index;
                let ghost k = choose|k: int| 0 <= k < candidates@.len() && candidates@[k] == p;
                assert(tag_indices(ctx.projects@, *entity)[k] == p as int);
                let nudge = tag_overlap_nudge(&ctx.projects[p], entity);
                assert(nudge.deep_view() == ctx.tag_at(i as int, k));
                return Some(nudge);
            },
            None => {},
        }
        m += 1;
    }
    proof {
        assert(!ctx.has_tags()) by {
            if ctx.has_tags() {
                let i = choose|i: int|
                    #[trigger] ctx.fresh(i) && tag_indices(
                        ctx.projects@,
                        ctx.recent_entities@[i],
                    ).len() > 0;
                assert(i < total);
                assert(order@.contains(i as usize));
                let k = choose|k: int| 0 <= k < order@.len() && order@[k] == i as usize;
                assert(order@[k] as int == i);
            }
        }
    }
    None
}

// ---------------------------------------------------------------------------
// Kinds by weight
// ---------------------------------------------------------------------------

/// The kinds that are turned on, with their weights.
pub open spec fn weighted_kinds(w: NudgeWeights) -> Seq<(NudgeKind, u64)> {
    seq![
        (NudgeKind::OpenQuestion, w.open_question),
        (NudgeKind::CrossConnection, w.cross_connection),
        (NudgeKind::BlockedEscalation, w.blocked),
    ].filter(|k: (NudgeKind, u64)| positive(k.1))
}

/// The kinds that are turned on, from the heaviest down.
pub open spec fn ranked(w: NudgeWeights) -> Seq<(NudgeKind, u64)> {
    sort(weighted_kinds(w), |a: (NudgeKind, u64), b: (NudgeKind, u64)| a.1 >= b.1)
}

/// The kinds in the order in which they are tried: the rolled one first, then
/// the others from the heaviest down. A roll past the end stands for the
/// heaviest.
pub open spec fn attempt_order_of(ranked: Seq<(NudgeKind, u64)>, rolled: int) -> Seq<NudgeKind> {
    if ranked.len() == 0 {
        Seq::empty()
    } else {
        let first = if 0 <= rolled < ranked.len() {
            ranked[rolled].0
        } else {
            ranked[0].0
        };
        seq![first] + ranked.map_values(|k: (NudgeKind, u64)| k.0).filter(
            |k: NudgeKind| k != first,
        )
    }
}

fn push_if_positive(out: &mut Vec<(NudgeKind, u64)>, kind: NudgeKind, weight: u64)
    ensures
        final(out)@ == (if positive(weight) {
            old(out)@.push((kind, weight))
        } else {
            old(out)@
        }),
{
    if weight > 0 && weight <= INFINITY_BITS {
        out.push((kind, weight));
    }
}

/// The kinds that are turned on with their weights, from the heaviest down.
pub fn ranked_kinds(w: &NudgeWeights) -> (r: Vec<(NudgeKind, u64)>)
    ensures
        r@ == ranked(*w),
{
    let mut out: Vec<(NudgeKind, u64)> = Vec::new();
    push_if_positive(&mut out, NudgeKind::OpenQuestion, w.open_question);
    push_if_positive(&mut out, NudgeKind::CrossConnection, w.cross_connection);
    push_if_positive(&mut out, NudgeKind::BlockedEscalation, w.blocked);
    proof {
        let a = (NudgeKind::OpenQuestion, w.open_question);
        let b = (NudgeKind::CrossConnection, w.cross_connection);
        let c = (NudgeKind::BlockedEscalation, w.blocked);
        let p = |k: (NudgeKind, u64)| positive(k.1);
        let e = Seq::<(NudgeKind, u64)>::empty();
        e.lemma_filter_push(a, p);
        e.push(a).lemma_filter_push(b, p);
        e.push(a).push(b).lemma_filter_push(c, p);
        assert(e.filter(p) =~= e) by {
            reveal(Seq::filter);
        }
        assert(e.push(a).push(b).push(c) =~= seq![a, b, c]);
        assert(out@ =~= weighted_kinds(*w));
    }
    let le = |a: &(NudgeKind, u64), b: &(NudgeKind, u64)| -> (o: bool)
        ensures
            o == (a.1 >= b.1),
    {
        a.1 >= b.1
    };
    let ghost key = |k: (NudgeKind, u64)| k;
    let ghost rel = |a: (NudgeKind, u64), b: (NudgeKind, u64)| a.1 >= b.1;
    let ghost all = out@;
    let sorted = sort_by::<(NudgeKind, u64), (NudgeKind, u64), _>(out, le, Ghost(key), Ghost(rel));
    proof {
        assert(all.map_values(key) =~= all);
        assert(sorted@.map_values(key) =~= sorted@);
    }
    sorted
}

/// The kinds in the order in which they are tried.
pub fn attempt_order(ranked: &[(NudgeKind, u64)], rolled: usize) -> (r: Vec<NudgeKind>)
    ensures
        r@ == attempt_order_of(ranked@, rolled as int),
{
    let mut out: Vec<NudgeKind> = Vec::new();
    if ranked.len() == 0 {
        assert(out@ =~= attempt_order_of(ranked@, rolled as int));
        return out;
    }
    let first: NudgeKind = if rolled < ranked.len() {
        ranked[rolled].0
    } else {
        ranked[0].0
    };
    out.push(first);
    let ghost kinds = ranked@.map_values(|k: (NudgeKind, u64)| k.0);
    let ghost p = |k: NudgeKind| k != first;
    let mut i: usize = 0;
    assert(kinds.take(0).filter(p) =~= Seq::empty()) by {
        reveal(Seq::filter);
    }
    assert(out@ =~= seq![first] + kinds.take(0).filter(p));
    while i < ranked.len()
        invariant
            i <= ranked@.len(),
            kinds == ranked@.map_values(|k: (NudgeKind, u64)| k.0),
            p == (|k: NudgeKind| k != first),
            out@ == seq![first] + kinds.take(i as int).filter(p),
        decreases ranked@.len() - i,
    {
        let ghost before = out@;
        let k = ranked[i].0;
        proof {
            assert(kinds.take(i + 1) =~= kinds.take(i as int).push(k));
            kinds.take(i as int).lemma_filter_push(k, p);
        }
        if k != first {
            out.push(k);
        }
        assert(out@ =~= seq![first] + kinds.take(i + 1).filter(p));
        i += 1;
    }
    assert(kinds.take(i as int) =~= kinds);
    out
}

/// What trying the kinds in order may come to: a nudge of the first kind with a
/// candidate, and nothing where none has one.
pub open spec fn outcome(
    ctx: &NudgeContext<'_>,
    kinds: Seq<NudgeKind>,
    r: Option<NudgeView>,
) -> bool
    decreases kinds.len(),
{
    if kinds.len() == 0 {
        r is None
    } else if ctx.has(kinds[0]) {
        r is Some && ctx.possible(kinds[0], r->0)
    } else {
        outcome(ctx, kinds.skip(1), r)
    }
}

impl NudgeSelector {
    pub fn new() -> (r: Self) {
        NudgeSelector
    }

    /// Picks a nudge. `rolled` is the place of the rolled kind in the ranked
    /// list of kinds.
    pub fn select(&self, ctx: &NudgeContext<'_>, rolled: usize, rng: &mut StdRng) -> (r: Option<
        Nudge,
    >)
        requires
            ctx.valid(),
        ensures
            outcome(
                ctx,
                attempt_order_of(ranked(ctx.config.weights), rolled as int),
                r.deep_view(),
            ),
    {
        let kinds = ranked_kinds(&ctx.config.weights);
        let order = attempt_order(&kinds, rolled);
        let mut i: usize = 0;
        assert(order@.skip(0) =~= order@);
        while i < order.len()
            invariant
                i <= order@.len(),
                order@ == attempt_order_of(ranked(ctx.config.weights), rolled as int),
                ctx.valid(),
                forall|x: Option<NudgeView>|
                    outcome(ctx, order@.skip(i as int), x) ==> #[trigger] outcome(ctx, order@, x),
            decreases order@.len() - i,
        {
            let kind: NudgeKind = order[i];
            let ghost rest = order@.skip(i as int);
            assert(rest[0] == kind);
            let picked = match kind {
                NudgeKind::OpenQuestion => pick_open_question(ctx, rng),
                NudgeKind::CrossConnection => pick_cross_connection(ctx, rng),
                NudgeKind::BlockedEscalation => pick_blocked_escalation(ctx, rng),
            };
            if picked.is_some() {
                assert(outcome(ctx, rest, picked.deep_view()));
                return picked;
            }
            proof {
                assert(rest.skip(1) =~= order@.skip(i + 1));
                assert forall|x: Option<NudgeView>| outcome(
                    ctx,
                    order@.skip(i + 1),
                    x,
                ) implies #[trigger] outcome(ctx, order@, x) by {
                    assert(outcome(ctx, rest, x));
                }
            }
            i += 1;
        }
        let none: Option<Nudge> = None;
        assert(outcome(ctx, order@.skip(i as int), none.deep_view()));
        none
    }
}

// ---------------------------------------------------------------------------
// Laws
// ---------------------------------------------------------------------------

/// A question candidate belongs to an eligible project.
proof fn lemma_question_pairs(projects: Seq<ProjectEntry>)
    ensures
        forall|k: int|
            0 <= k < question_pairs(projects).len() ==> {
                let (p, q) = #[trigger] question_pairs(projects)[k];
                0 <= p < projects.len() && eligible(projects[p]) && 0 <= q
                    < projects[p].open_questions@.len()
            },
    decreases projects.len(),
{
    if projects.len() > 0 {
        lemma_question_pairs(projects.drop_last());
        let before = question_pairs(projects.drop_last());
        assert forall|k: int| 0 <= k < question_pairs(projects).len() implies {
            let (p, q) = #[trigger] question_pairs(projects)[k];
            0 <= p < projects.len() && eligible(projects[p]) && 0 <= q
                < projects[p].open_questions@.len()
        } by {
            if k < before.len() {
                assert(question_pairs(projects)[k] == before[k]);
            }
        }
    }
}

/// A graph candidate leads into an eligible project other than the entity's own.
proof fn lemma_crossing_links(
    projects: Seq<ProjectEntry>,
    entity: RecentEntity,
    links: Seq<GraphLink>,
)
    ensures
        forall|k: int|
            0 <= k < crossing_links(projects, entity, links).len() ==> {
                let (p, l) = #[trigger] crossing_links(projects, entity, links)[k];
                0 <= p < projects.len() && 0 <= l < links.len() && eligible(projects[p])
                    && entity.project_id != Some(projects[p].id)
            },
    decreases links.len(),
{
    if links.len() > 0 {
        let before = crossing_links(projects, entity, links.drop_last());
        lemma_crossing_links(projects, entity, links.drop_last());
        let link = links.last();
        if link.neighbour_project is Some {
            lemma_first_where(
                projects,
                |p: ProjectEntry| eligible(p) && p.id == link.neighbour_project->0,
            );
        }
        assert forall|k: int| 0 <= k < crossing_links(projects, entity, links).len() implies {
            let (p, l) = #[trigger] crossing_links(projects, entity, links)[k];
            0 <= p < projects.len() && 0 <= l < links.len() && eligible(projects[p])
                && entity.project_id != Some(projects[p].id)
        } by {
            if k < before.len() {
                assert(crossing_links(projects, entity, links)[k] == before[k]);
            }
        }
    }
}

/// No nudge is ever about a completed project.
pub proof fn law_complete_projects_are_left_alone(
    ctx: &NudgeContext<'_>,
    kind: NudgeKind,
    n: NudgeView,
)
    requires
        ctx.possible(kind, n),
    ensures
        exists|p: int|
            0 <= p < ctx.projects@.len() && eligible(#[trigger] ctx.projects@[p])
                && ctx.projects@[p].id == n.project_id && ctx.projects@[p].name@ == n.title,
{
    match kind {
        NudgeKind::OpenQuestion => {
            lemma_question_pairs(ctx.projects@);
            let k = choose|k: int|
                0 <= k < question_pairs(ctx.projects@).len() && n == #[trigger] ctx.question_at(k);
            let (p, q) = question_pairs(ctx.projects@)[k];
            assert(eligible(ctx.projects@[p]));
        },
        NudgeKind::CrossConnection => {
            law_cross_connections_leave_the_own_project(ctx, n);
        },
        NudgeKind::BlockedEscalation => {
            let k = choose|k: int|
                0 <= k < ctx.blocked_indices().len() && n == #[trigger] ctx.blocked_at(k);
            lemma_indices_where(
                ctx.projects@,
                |p: ProjectEntry| needs_unblocking(p, ctx.stale_cutoff()),
            );
            assert(eligible(ctx.projects@[ctx.blocked_indices()[k]]));
        },
    }
}

/// A cross-connection is about a recent entity, and addressed to an eligible
/// project that the entity does not belong to.
pub proof fn law_cross_connections_leave_the_own_project(ctx: &NudgeContext<'_>, n: NudgeView)
    requires
        ctx.possible(NudgeKind::CrossConnection, n),
    ensures
        exists|i: int|
            #[trigger] ctx.fresh(i) && ctx.recent_entities@[i].project_id != Some(n.project_id),
        exists|p: int|
            0 <= p < ctx.projects@.len() && eligible(#[trigger] ctx.projects@[p])
                && ctx.projects@[p].id == n.project_id && ctx.projects@[p].name@ == n.title,
{
    if ctx.has_graph() {
        let (i, k) = choose|i: int, k: int|
            #![trigger ctx.graph_at(i, k)]
            ctx.fresh(i) && 0 <= k < graph_pairs(ctx.projects@, ctx.recent_entities@[i]).len() && n
                == ctx.graph_at(i, k);
        let e = ctx.recent_entities@[i];
        lemma_crossing_links(ctx.projects@, e, e.graph_links@);
        let (p, l) = graph_pairs(ctx.projects@, e)[k];
        assert(eligible(ctx.projects@[p]));
        assert(ctx.fresh(i));
    } else {
        let (i, k) = choose|i: int, k: int|
            #![trigger ctx.tag_at(i, k)]
            ctx.fresh(i) && 0 <= k < tag_indices(ctx.projects@, ctx.recent_entities@[i]).len() && n
                == ctx.tag_at(i, k);
        let e = ctx.recent_entities@[i];
        lemma_indices_where(ctx.projects@, |p: ProjectEntry| shares_tags(p, e));
        assert(shares_tags(ctx.projects@[tag_indices(ctx.projects@, e)[k]], e));
        assert(ctx.fresh(i));
    }
}

/// A kind that is turned off never produces a nudge: every kind that is tried
/// has a weight above zero.
pub proof fn law_disabled_kinds_are_never_tried(w: NudgeWeights, rolled: int, k: int)
    requires
        0 <= k < attempt_order_of(ranked(w), rolled).len(),
    ensures
        match attempt_order_of(ranked(w), rolled)[k] {
            NudgeKind::OpenQuestion => positive(w.open_question),
            NudgeKind::CrossConnection => positive(w.cross_connection),
            NudgeKind::BlockedEscalation => positive(w.blocked),
        },
{
    let r = ranked(w);
    let kinds = r.map_values(|x: (NudgeKind, u64)| x.0);
    let order = attempt_order_of(r, rolled);
    let first = order[0];
    let p = |x: NudgeKind| x != first;
    assert(r.len() > 0);
    assert(kinds.contains(order[k])) by {
        if k == 0 {
            if 0 <= rolled < r.len() {
                assert(kinds[rolled] == order[0]);
            } else {
                assert(kinds[0] == order[0]);
            }
        } else {
            kinds.lemma_filter_contains_rev(p, order[k]);
            assert(kinds.filter(p)[k - 1] == order[k]);
            assert(kinds.filter(p).contains(order[k]));
        }
    }
    let j = choose|j: int| 0 <= j < kinds.len() && kinds[j] == order[k];
    lemma_ranked_members(w, j);
}

/// Every ranked kind comes with its own weight, which is above zero.
proof fn lemma_ranked_members(w: NudgeWeights, j: int)
    requires
        0 <= j < ranked(w).len(),
    ensures
        positive(ranked(w)[j].1),
        match ranked(w)[j].0 {
            NudgeKind::OpenQuestion => ranked(w)[j].1 == w.open_question,
            NudgeKind::CrossConnection => ranked(w)[j].1 == w.cross_connection,
            NudgeKind::BlockedEscalation => ranked(w)[j].1 == w.blocked,
        },
{
    broadcast use vstd::seq_lib::group_to_multiset_ensures;

    let all = seq![
        (NudgeKind::OpenQuestion, w.open_question),
        (NudgeKind::CrossConnection, w.cross_connection),
        (NudgeKind::BlockedEscalation, w.blocked),
    ];
    let p = |k: (NudgeKind, u64)| positive(k.1);
    let le = |a: (NudgeKind, u64), b: (NudgeKind, u64)| a.1 >= b.1;
    crate::order::lemma_sort(weighted_kinds(w), le);
    let x = ranked(w)[j];
    assert(ranked(w).contains(x));
    assert(ranked(w).to_multiset().count(x) > 0);
    assert(weighted_kinds(w).contains(x));
    let m = choose|m: int| 0 <= m < weighted_kinds(w).len() && weighted_kinds(w)[m] == x;
    all.lemma_filter_pred(p, m);
    all.lemma_filter_contains_rev(p, x);
    assert(all.contains(x));
}

/// The kinds are ranked from the heaviest down.
pub proof fn law_kinds_are_ranked_by_weight(w: NudgeWeights, i: int, j: int)
    requires
        0 <= i < j < ranked(w).len(),
    ensures
        ranked(w)[i].1 >= ranked(w)[j].1,
{
    let le = |a: (NudgeKind, u64), b: (NudgeKind, u64)| a.1 >= b.1;
    crate::order::lemma_sort(weighted_kinds(w), le);
    assert(le(ranked(w)[i], ranked(w)[j]));
}

} // verus!
