//! Following the relations between entities.
//!
//! A query picks one entity, the anchor; the items are what it is related to.

use vstd::arithmetic::power2::{lemma2_to64, lemma2_to64_rest};
use vstd::prelude::*;
use vstd::slice::slice_subrange;
use vstd::string::StringExecFns;

use super::provider::{at_most, ItemView, PaletteItem, ProviderError, ProviderResult};
use super::ref_search::{Jump, JumpView};
use super::score::{clamped, is_number, near};
use crate::ids::{format_uuid, parse_uuid, uuid_in, uuid_text};
use crate::projects::EntityType;
use crate::text;
use crate::text::{index_of, lemma_index_from};

verus! {

/// The name of the provider.
pub const LINKS_PROVIDER: &'static str = "links";

/// How many candidates for the anchor are asked for.
pub const MAX_HITS: u32 = 5;

/// How many related entities are shown at most.
pub const MAX_NEIGHBOURS: usize = 12;

/// Which way a relation goes.
#[derive(Debug, Clone, Copy, PartialEq, Eq, Structural)]
pub enum RelationDirection {
    Outgoing,
    Incoming,
}

/// An entity that the anchor is related to.
#[derive(Debug, Clone, PartialEq, Eq)]
pub struct Neighbour {
    pub id: u128,
    pub entity_type: EntityType,
    /// What the type is called in identifiers.
    pub type_tag: String,
    /// What the relation is called.
    pub kind: String,
    pub label: String,
    pub direction: RelationDirection,
}

/// An entity of which only the identity and the title matter.
#[derive(Debug, Clone, PartialEq, Eq)]
pub struct Titled {
    pub id: u128,
    pub title: String,
}

/// The entity that the relations are followed from.
#[derive(Debug, Clone, PartialEq, Eq)]
pub struct Anchor {
    pub entity_type: EntityType,
    pub id: u128,
    pub title: String,
}

/// The first note that was found, else the first reference. A search that failed
/// found nothing.
pub fn best_anchor(notes: &[Titled], references: &[Titled]) -> (r: Option<Anchor>)
    ensures
        match r {
            Some(a) => {
                &&& notes@.len() > 0 ==> a.entity_type == EntityType::Note && a.id == notes@[0].id
                    && a.title@ == notes@[0].title@
                &&& notes@.len() == 0 ==> references@.len() > 0 && a.entity_type
                    == EntityType::Reference && a.id == references@[0].id && a.title@
                    == references@[0].title@
            },
            None => notes@.len() == 0 && references@.len() == 0,
        },
{
    if notes.len() > 0 {
        return Some(
            Anchor {
                entity_type: EntityType::Note,
                id: notes[0].id,
                title: notes[0].title.clone(),
            },
        );
    }
    if references.len() > 0 {
        return Some(
            Anchor {
                entity_type: EntityType::Reference,
                id: references[0].id,
                title: references[0].title.clone(),
            },
        );
    }
    None
}

// ---------------------------------------------------------------------------
// Identifiers of items
// ---------------------------------------------------------------------------

/// The identifier of the item of an entity: its type and its UUID with a bar
/// between them.
pub open spec fn item_id_text(type_tag: Seq<char>, id: u128) -> Seq<char> {
    type_tag + "|"@ + uuid_text(id)
}

/// The type that a name stands for. `others` are the names of the types that
/// nothing is done for.
pub open spec fn type_named(name: Seq<char>, others: Seq<Seq<char>>) -> Option<EntityType> {
    if name == "note"@ {
        Some(EntityType::Note)
    } else if name == "ref"@ {
        Some(EntityType::Reference)
    } else if others.contains(name) {
        Some(EntityType::Other)
    } else {
        None
    }
}

/// The entity that an item identifier stands for, if it stands for one.
pub open spec fn item_id_parsed(s: Seq<char>, others: Seq<Seq<char>>) -> Option<(EntityType, u128)> {
    match index_of(s, '|') {
        Some(i) => match (type_named(s.take(i), others), uuid_in(s.skip(i + 1))) {
            (Some(ty), Ok(id)) => Some((ty, id)),
            _ => None,
        },
        None => None,
    }
}

/// The identifier of the item of an entity. Reading it gives the entity back,
/// where its type is one that is known by a name without a bar.
pub fn make_item_id(type_tag: &str, id: u128) -> (r: String)
    ensures
        r@ == item_id_text(type_tag@, id),
        forall|others: Seq<Seq<char>>|
            type_named(type_tag@, others) is Some && !type_tag@.contains('|') ==> (
            #[trigger] item_id_parsed(r@, others)) == Some((type_named(type_tag@, others)->0, id)),
{
    let uuid = format_uuid(id);
    proof {
        assert forall|others: Seq<Seq<char>>|
            type_named(type_tag@, others) is Some && !type_tag@.contains('|') implies (
        #[trigger] item_id_parsed(item_id_text(type_tag@, id), others)) == Some(
            (type_named(type_tag@, others)->0, id),
        ) by {
            lemma_item_id_reads_back(type_tag@, id, others);
        }
    }
    text::concat3(type_tag, "|", &uuid)
}

/// The entity that an item identifier stands for.
pub fn parse_item_id(s: &str, others: &[String]) -> (r: Option<(EntityType, u128)>)
    ensures
        r == item_id_parsed(s@, others.deep_view()),
{
    let cs = text::chars(s);
    let len: usize = cs.len();
    match text::index_chars_from(&cs, '|', 0) {
        Some(i) => {
            let left = slice_subrange(&cs, 0, i);
            let right = slice_subrange(&cs, i + 1, len);
            proof {
                assert(left@ =~= s@.take(i as int));
                assert(right@ =~= s@.skip(i + 1));
            }
            let name = text::string(left);
            let ty = if text::same(&name, "note") {
                EntityType::Note
            } else if text::same(&name, "ref") {
                EntityType::Reference
            } else if text::strings_contain(others, &name) {
                EntityType::Other
            } else {
                return None;
            };
            match parse_uuid(&text::string(right)) {
                Ok(id) => Some((ty, id)),
                Err(_) => None,
            }
        },
        None => None,
    }
}

/// An item identifier is read as the entity that it was made for, where its UUID
/// is read as the one that it is.
proof fn lemma_item_id_reads_back(type_tag: Seq<char>, id: u128, others: Seq<Seq<char>>)
    requires
        uuid_in(uuid_text(id)) is Ok && uuid_in(uuid_text(id))->Ok_0 == id,
        type_named(type_tag, others) is Some,
        !type_tag.contains('|'),
    ensures
        item_id_parsed(item_id_text(type_tag, id), others) == Some(
            (type_named(type_tag, others)->0, id),
        ),
{
    reveal_strlit("|");
    let s = item_id_text(type_tag, id);
    let n = type_tag.len() as int;
    lemma_index_from(s, '|', 0);
    assert(s[n] == '|');
    let i = index_of(s, '|')->0;
    if i < n {
        assert(type_tag[i] == '|');
        assert(type_tag.contains('|'));
    }
    assert(i == n);
    assert(s.take(n) =~= type_tag);
    assert(s.skip(n + 1) =~= uuid_text(id));
}

// ---------------------------------------------------------------------------
// Items
// ---------------------------------------------------------------------------

/// The glyph of an entity by its type.
pub open spec fn glyph(ty: EntityType) -> Seq<char> {
    match ty {
        EntityType::Note => "note"@,
        EntityType::Reference => "ref"@,
        EntityType::Other => "link"@,
    }
}

/// The arrow of a relation.
pub open spec fn arrow(d: RelationDirection) -> Seq<char> {
    match d {
        RelationDirection::Outgoing => "→ "@,
        RelationDirection::Incoming => "← "@,
    }
}

/// The score of a related entity by its place, as a bit pattern: 0.5, and 0.02
/// less for each place, but not below 0.3.
pub open spec fn link_score(place: int) -> u64 {
    if place == 0 {
        0x3FE0_0000_0000_0000
    } else if place == 1 {
        0x3FDE_B851_EB85_1EB8
    } else if place == 2 {
        0x3FDD_70A3_D70A_3D71
    } else if place == 3 {
        0x3FDC_28F5_C28F_5C29
    } else if place == 4 {
        0x3FDA_E147_AE14_7AE1
    } else if place == 5 {
        0x3FD9_9999_9999_999A
    } else if place == 6 {
        0x3FD8_51EB_851E_B852
    } else if place == 7 {
        0x3FD7_0A3D_70A3_D70A
    } else if place == 8 {
        0x3FD5_C28F_5C28_F5C2
    } else if place == 9 {
        0x3FD4_7AE1_47AE_147B
    } else {
        0x3FD3_3333_3333_3333
    }
}

/// The item of a related entity.
pub open spec fn link_item(n: Neighbour, place: int, anchor_title: Seq<char>) -> ItemView {
    ItemView {
        id: item_id_text(n.type_tag@, n.id),
        provider: "links"@,
        title: n.label@,
        subtitle: Some(arrow(n.direction) + n.kind@ + " · from “"@ + anchor_title + "”"@),
        icon: Some(glyph(n.entity_type)),
        icon_path: None,
        score: clamped(link_score(place)),
    }
}

/// The items of all related entities, one for each.
pub open spec fn link_items(all: Seq<Neighbour>, anchor_title: Seq<char>) -> Seq<ItemView> {
    Seq::new(all.len(), |i: int| link_item(all[i], i, anchor_title))
}

fn score_of_place(place: usize) -> (r: u64)
    ensures
        r == link_score(place as int),
{
    match place {
        0 => 0x3FE0_0000_0000_0000,
        1 => 0x3FDE_B851_EB85_1EB8,
        2 => 0x3FDD_70A3_D70A_3D71,
        3 => 0x3FDC_28F5_C28F_5C29,
        4 => 0x3FDA_E147_AE14_7AE1,
        5 => 0x3FD9_9999_9999_999A,
        6 => 0x3FD8_51EB_851E_B852,
        7 => 0x3FD7_0A3D_70A3_D70A,
        8 => 0x3FD5_C28F_5C28_F5C2,
        9 => 0x3FD4_7AE1_47AE_147B,
        _ => 0x3FD3_3333_3333_3333,
    }
}

fn neighbour_icon(ty: EntityType) -> (r: &'static str)
    ensures
        r@ == glyph(ty),
{
    match ty {
        EntityType::Note => "note",
        EntityType::Reference => "ref",
        EntityType::Other => "link",
    }
}

fn item_of(n: &Neighbour, place: usize, anchor_title: &str) -> (r: PaletteItem)
    ensures
        r.deep_view() == link_item(*n, place as int, anchor_title@),
{
    let head = match n.direction {
        RelationDirection::Outgoing => "→ ",
        RelationDirection::Incoming => "← ",
    };
    let mut subtitle = text::concat3(head, &n.kind, " · from “");
    subtitle.append(anchor_title);
    subtitle.append("”");
    PaletteItem::new(
        LINKS_PROVIDER,
        make_item_id(&n.type_tag, n.id),
        n.label.clone(),
    ).with_subtitle(subtitle).with_icon(neighbour_icon(n.entity_type)).with_score(
        score_of_place(place),
    )
}

/// What choosing an item leads to.
#[derive(Debug, Clone, Copy, PartialEq, Eq, Structural)]
pub enum LinkTarget {
    /// The note is to be looked up; then see [`jump_to_found_note`].
    Note(u128),
    /// The reference is to be looked up; then see
    /// [`jump_to_found`](super::ref_search::jump_to_found).
    Reference(u128),
    /// Nothing is done for entities of this type.
    Nothing,
}

/// What choosing a note does: a link to it goes to the clipboard.
pub fn jump_to_note(title: &str) -> (r: Jump)
    ensures
        r.deep_view() == JumpView::Copy("[["@ + title@ + "]]"@),
{
    Jump::Copy(text::concat3("[[", title, "]]"))
}

/// What choosing a note does, given what looking up its title gave. A note that
/// is gone leads nowhere.
pub fn jump_to_found_note(title: Result<Option<String>, String>) -> (r: ProviderResult<Option<Jump>>)
    ensures
        match title {
            Ok(Some(t)) => r matches Ok(Some(j)) && j.deep_view() == JumpView::Copy(
                "[["@ + t@ + "]]"@,
            ),
            Ok(None) => r matches Ok(None),
            Err(why) => r matches Err(ProviderError::ExecuteFailed(e)) && e@ == "get_note: "@
                + why@,
        },
{
    match title {
        Ok(Some(t)) => Ok(Some(jump_to_note(&t))),
        Ok(None) => Ok(None),
        Err(why) => Err(ProviderError::ExecuteFailed(text::concat2("get_note: ", &why))),
    }
}

/// The provider of related entities.
#[derive(Debug, Clone, PartialEq, Eq)]
pub struct LinksProvider {
    /// The names of the types that nothing is done for.
    pub other_types: Vec<String>,
}

impl LinksProvider {
    pub fn new(other_types: Vec<String>) -> (r: Self)
        ensures
            r.other_types == other_types,
    {
        LinksProvider { other_types }
    }

    /// The items of what the anchor is related to, at most [`MAX_NEIGHBOURS`].
    pub fn items(&self, neighbours: &[Neighbour], anchor_title: &str) -> (r: Vec<PaletteItem>)
        ensures
            r.deep_view() == at_most(
                link_items(neighbours@, anchor_title@),
                MAX_NEIGHBOURS as int,
            ),
    {
        let ghost all = link_items(neighbours@, anchor_title@);
        let mut out: Vec<PaletteItem> = Vec::new();
        let mut i: usize = 0;
        assert(out.deep_view() =~= all.take(0));
        while i < neighbours.len() && i < MAX_NEIGHBOURS
            invariant
                i <= neighbours@.len(),
                i <= MAX_NEIGHBOURS,
                all == link_items(neighbours@, anchor_title@),
                out.deep_view() == all.take(i as int),
            decreases neighbours@.len() - i,
        {
            let ghost before = out.deep_view();
            out.push(item_of(&neighbours[i], i, anchor_title));
            assert(out.deep_view() =~= before.push(all[i as int]));
            assert(out.deep_view() =~= all.take(i + 1));
            i += 1;
        }
        assert(out.deep_view() =~= at_most(all, MAX_NEIGHBOURS as int));
        out
    }

    /// What choosing an item leads to.
    pub fn target(&self, item_id: &str) -> (r: ProviderResult<LinkTarget>)
        ensures
            match item_id_parsed(item_id@, self.other_types.deep_view()) {
                Some((ty, id)) => r is Ok && r->Ok_0 == (match ty {
                    EntityType::Note => LinkTarget::Note(id),
                    EntityType::Reference => LinkTarget::Reference(id),
                    EntityType::Other => LinkTarget::Nothing,
                }),
                None => r is Err && r->Err_0 is UnknownItem && (r->Err_0)->UnknownItem_0@
                    == item_id@,
            },
    {
        match parse_item_id(item_id, &self.other_types) {
            Some((EntityType::Note, id)) => Ok(LinkTarget::Note(id)),
            Some((EntityType::Reference, id)) => Ok(LinkTarget::Reference(id)),
            Some((EntityType::Other, _)) => Ok(LinkTarget::Nothing),
            None => Err(ProviderError::UnknownItem(text::owned(item_id))),
        }
    }
}

/// What is shown of the relations scores below every note and reference that a
/// search finds at the same place, and falls from place to place.
pub proof fn law_link_scores_fall(a: int, b: int)
    requires
        0 <= a <= b,
    ensures
        link_score(b) <= link_score(a),
        is_number(link_score(a)),
        clamped(link_score(a)) == link_score(a),
        link_score(a) < super::note_search::note_score(a),
        link_score(a) < super::ref_search::reference_score(a),
{
}

/// The first neighbour is scored 0.5, and each further one 0.02 less, but none below 0.3.
pub proof fn law_link_scores_go_down_by_steps(place: int)
    requires
        0 <= place,
    ensures
        near(
            link_score(place),
            50 - 2 * (if place < 10 {
                place
            } else {
                10
            }),
            100,
        ),
{
    lemma2_to64();
    lemma2_to64_rest();
    assert(near(0x3FE0_0000_0000_0000, 50, 100));
    assert(near(0x3FDE_B851_EB85_1EB8, 48, 100));
    assert(near(0x3FDD_70A3_D70A_3D71, 46, 100));
    assert(near(0x3FDC_28F5_C28F_5C29, 44, 100));
    assert(near(0x3FDA_E147_AE14_7AE1, 42, 100));
    assert(near(0x3FD9_9999_9999_999A, 40, 100));
    assert(near(0x3FD8_51EB_851E_B852, 38, 100));
    assert(near(0x3FD7_0A3D_70A3_D70A, 36, 100));
    assert(near(0x3FD5_C28F_5C28_F5C2, 34, 100));
    assert(near(0x3FD4_7AE1_47AE_147B, 32, 100));
    assert(near(0x3FD3_3333_3333_3333, 30, 100));
}

/// What is shown of a neighbour: its label, how it is linked and which way, and from what;
/// with a picture for its kind.
pub proof fn law_neighbours_are_shown(n: Neighbour, place: int, anchor_title: Seq<char>)
    requires
        0 <= place,
    ensures
        ({
            let i = link_item(n, place, anchor_title);
            &&& i.title == n.label@
            &&& i.provider == "links"@
            &&& i.id == n.type_tag@ + "|"@ + uuid_text(n.id)
            &&& n.direction == RelationDirection::Outgoing ==> i.subtitle == Some(
                "→ "@ + n.kind@ + " · from “"@ + anchor_title + "”"@,
            )
            &&& n.direction == RelationDirection::Incoming ==> i.subtitle == Some(
                "← "@ + n.kind@ + " · from “"@ + anchor_title + "”"@,
            )
            &&& n.entity_type == EntityType::Note ==> i.icon == Some("note"@)
            &&& n.entity_type == EntityType::Reference ==> i.icon == Some("ref"@)
            &&& n.entity_type == EntityType::Other ==> i.icon == Some("link"@)
        }),
{
}

/// The name of a type is read as the type; other names are read as other types where they
/// are known.
pub proof fn law_names_of_types(name: Seq<char>, others: Seq<Seq<char>>)
    ensures
        name == "note"@ ==> type_named(name, others) == Some(EntityType::Note),
        name == "ref"@ ==> type_named(name, others) == Some(EntityType::Reference),
        name != "note"@ && name != "ref"@ ==> type_named(name, others) == (if others.contains(name) {
            Some(EntityType::Other)
        } else {
            None
        }),
{
    reveal_strlit("note");
    reveal_strlit("ref");
    assert("note"@.len() == 4 && "ref"@.len() == 3);
}

} // verus!
