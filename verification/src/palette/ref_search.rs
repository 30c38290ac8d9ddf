//! Searching references.

use vstd::arithmetic::power2::{lemma2_to64, lemma2_to64_rest};
use vstd::prelude::*;

use super::provider::{ItemView, PaletteItem, ProviderError, ProviderResult};
use super::score::{clamped, is_number, near};
use crate::ids::{format_uuid, parse_uuid, uuid_in, uuid_text};
use crate::stdtext::{debug_string, debug_text};
use crate::text;

verus! {

/// The name of the provider.
pub const REF_SEARCH_PROVIDER: &'static str = "ref-search";

/// How many references are asked for.
pub const MAX_HITS: u32 = 10;

/// A reference that was found.
#[derive(Debug, Clone, PartialEq, Eq)]
pub struct ReferenceSearchHit {
    pub id: u128,
    pub title: String,
    pub citekey: String,
    pub snippet: String,
}

/// What choosing an entity does.
#[derive(Debug, Clone, PartialEq, Eq)]
pub enum Jump {
    /// A file is opened.
    Open(String),
    /// A text is put on the clipboard.
    Copy(String),
}

/// The contents of a [`Jump`].
pub enum JumpView {
    Open(Seq<char>),
    Copy(Seq<char>),
}

impl DeepView for Jump {
    type V = JumpView;

    open spec fn deep_view(&self) -> JumpView {
        match self {
            Jump::Open(path) => JumpView::Open(path@),
            Jump::Copy(what) => JumpView::Copy(what@),
        }
    }
}

impl Jump {
    /// The program that carries it out, and its argument.
    pub fn command(&self) -> (r: (&'static str, String))
        ensures
            match self.deep_view() {
                JumpView::Open(path) => r.0@ == "xdg-open"@ && r.1@ == path,
                JumpView::Copy(what) => r.0@ == "wl-copy"@ && r.1@ == what,
            },
    {
        match self {
            Jump::Open(path) => ("xdg-open", path.clone()),
            Jump::Copy(what) => ("wl-copy", what.clone()),
        }
    }

    /// The error where the program could not be started.
    pub fn failed(&self, why: &str) -> (r: ProviderError)
        ensures
            r is ExecuteFailed,
            r->ExecuteFailed_0@ == (match self.deep_view() {
                JumpView::Open(_) => "open pdf: "@,
                JumpView::Copy(_) => "wl-copy: "@,
            }) + why@,
    {
        match self {
            Jump::Open(_) => ProviderError::ExecuteFailed(text::concat2("open pdf: ", why)),
            Jump::Copy(_) => ProviderError::ExecuteFailed(text::concat2("wl-copy: ", why)),
        }
    }
}

/// What choosing a reference does: its PDF is opened where it has one, else its
/// citation key goes to the clipboard.
pub open spec fn reference_jump(pdf_path: Option<Seq<char>>, citekey: Seq<char>) -> JumpView {
    match pdf_path {
        Some(path) if path.len() > 0 => JumpView::Open(path),
        _ => JumpView::Copy("@"@ + citekey),
    }
}

/// What choosing a reference does.
pub fn jump_to_reference(pdf_path: &Option<String>, citekey: &str) -> (r: Jump)
    ensures
        r.deep_view() == reference_jump(pdf_path.deep_view(), citekey@),
{
    if let Some(path) = pdf_path {
        let cs = text::chars(path);
        if cs.len() > 0 {
            return Jump::Open(path.clone());
        }
    }
    Jump::Copy(text::concat2("@", citekey))
}

/// A reference as it is stored, as far as choosing it needs.
#[derive(Debug, Clone, PartialEq, Eq)]
pub struct StoredReference {
    pub pdf_path: Option<String>,
    pub citekey: String,
}

/// What choosing a reference does, given what looking it up gave. A reference
/// that is gone leads nowhere.
pub fn jump_to_found(reference: Result<Option<StoredReference>, String>) -> (r: ProviderResult<
    Option<Jump>,
>)
    ensures
        match reference {
            Ok(Some(x)) => r matches Ok(Some(j)) && j.deep_view() == reference_jump(
                x.pdf_path.deep_view(),
                x.citekey@,
            ),
            Ok(None) => r matches Ok(None),
            Err(why) => r matches Err(ProviderError::ExecuteFailed(e)) && e@ == "get_reference: "@
                + why@,
        },
{
    match reference {
        Ok(Some(x)) => Ok(Some(jump_to_reference(&x.pdf_path, &x.citekey))),
        Ok(None) => Ok(None),
        Err(why) => Err(ProviderError::ExecuteFailed(text::concat2("get_reference: ", &why))),
    }
}

/// The score of a hit by its rank, as a bit pattern: 0.72, and 0.03 less for each
/// rank, but not below 0.42.
pub open spec fn reference_score(rank: int) -> u64 {
    if rank == 0 {
        0x3FE7_0A3D_70A3_D70A
    } else if rank == 1 {
        0x3FE6_147A_E147_AE14
    } else if rank == 2 {
        0x3FE5_1EB8_51EB_851E
    } else if rank == 3 {
        0x3FE4_28F5_C28F_5C29
    } else if rank == 4 {
        0x3FE3_3333_3333_3333
    } else if rank == 5 {
        0x3FE2_3D70_A3D7_0A3D
    } else if rank == 6 {
        0x3FE1_47AE_147A_E148
    } else if rank == 7 {
        0x3FE0_51EB_851E_B852
    } else if rank == 8 {
        0x3FDE_B851_EB85_1EB8
    } else if rank == 9 {
        0x3FDC_CCCC_CCCC_CCCC
    } else {
        0x3FDA_E147_AE14_7AE1
    }
}

/// The item of a hit.
pub open spec fn reference_item(hit: ReferenceSearchHit, rank: int) -> ItemView {
    ItemView {
        id: uuid_text(hit.id),
        provider: "ref-search"@,
        title: hit.title@,
        subtitle: Some("@"@ + hit.citekey@ + "  "@ + hit.snippet@),
        icon: Some("ref"@),
        icon_path: None,
        score: clamped(reference_score(rank)),
    }
}

fn score_of_rank(rank: usize) -> (r: u64)
    ensures
        r == reference_score(rank as int),
{
    match rank {
        0 => 0x3FE7_0A3D_70A3_D70A,
        1 => 0x3FE6_147A_E147_AE14,
        2 => 0x3FE5_1EB8_51EB_851E,
        3 => 0x3FE4_28F5_C28F_5C29,
        4 => 0x3FE3_3333_3333_3333,
        5 => 0x3FE2_3D70_A3D7_0A3D,
        6 => 0x3FE1_47AE_147A_E148,
        7 => 0x3FE0_51EB_851E_B852,
        8 => 0x3FDE_B851_EB85_1EB8,
        9 => 0x3FDC_CCCC_CCCC_CCCC,
        _ => 0x3FDA_E147_AE14_7AE1,
    }
}

/// The item of a hit.
pub fn hit_to_item(hit: &ReferenceSearchHit, rank: usize) -> (r: PaletteItem)
    ensures
        r.deep_view() == reference_item(*hit, rank as int),
{
    let head = text::concat3("@", &hit.citekey, "  ");
    PaletteItem::new(
        REF_SEARCH_PROVIDER,
        format_uuid(hit.id),
        hit.title.clone(),
    ).with_subtitle(text::concat2(&head, &hit.snippet)).with_icon("ref").with_score(
        score_of_rank(rank),
    )
}

/// The provider of references.
#[derive(Debug, Clone, Copy, PartialEq, Eq)]
pub struct RefSearchProvider;

impl RefSearchProvider {
    pub fn new() -> (r: Self) {
        RefSearchProvider
    }

    /// The items of the hits, which come in the order of their relevance.
    pub fn items(&self, hits: &[ReferenceSearchHit]) -> (r: Vec<PaletteItem>)
        ensures
            r.deep_view() == Seq::new(hits@.len(), |i: int| reference_item(hits@[i], i)),
    {
        let mut out: Vec<PaletteItem> = Vec::new();
        let ghost all = Seq::new(hits@.len(), |i: int| reference_item(hits@[i], i));
        let mut i: usize = 0;
        assert(out.deep_view() =~= all.take(0));
        while i < hits.len()
            invariant
                i <= hits@.len(),
                all == Seq::new(hits@.len(), |i: int| reference_item(hits@[i], i)),
                out.deep_view() == all.take(i as int),
            decreases hits@.len() - i,
        {
            let ghost before = out.deep_view();
            out.push(hit_to_item(&hits[i], i));
            assert(out.deep_view() =~= before.push(all[i as int]));
            assert(out.deep_view() =~= all.take(i + 1));
            i += 1;
        }
        assert(all.take(i as int) =~= all);
        out
    }

    /// The reference that an item stands for.
    pub fn reference_of(&self, item_id: &str) -> (r: ProviderResult<u128>)
        ensures
            match uuid_in(item_id@) {
                Ok(id) => r is Ok && r->Ok_0 == id,
                Err(why) => r is Err && r->Err_0 is ExecuteFailed && (
                r->Err_0)->ExecuteFailed_0@ == "bad ref id "@ + debug_text(item_id@) + ": "@ + why,
            },
    {
        match parse_uuid(item_id) {
            Ok(id) => Ok(id),
            Err(why) => {
                let head = text::concat3("bad ref id ", &debug_string(item_id), ": ");
                Err(ProviderError::ExecuteFailed(text::concat2(&head, &why)))
            },
        }
    }
}

/// A hit that ranks lower scores no higher.
pub proof fn law_reference_scores_fall(a: int, b: int)
    requires
        0 <= a <= b,
    ensures
        reference_score(b) <= reference_score(a),
        is_number(reference_score(a)),
        clamped(reference_score(a)) == reference_score(a),
{
}

/// The first reference is scored 0.72, and each further one 0.03 less, but none below 0.42.
pub proof fn law_reference_scores_go_down_by_steps(place: int)
    requires
        0 <= place,
    ensures
        near(
            reference_score(place),
            72 - 3 * (if place < 10 {
                place
            } else {
                10
            }),
            100,
        ),
{
    lemma2_to64();
    lemma2_to64_rest();
    assert(near(0x3FE7_0A3D_70A3_D70A, 72, 100));
    assert(near(0x3FE6_147A_E147_AE14, 69, 100));
    assert(near(0x3FE5_1EB8_51EB_851E, 66, 100));
    assert(near(0x3FE4_28F5_C28F_5C29, 63, 100));
    assert(near(0x3FE3_3333_3333_3333, 60, 100));
    assert(near(0x3FE2_3D70_A3D7_0A3D, 57, 100));
    assert(near(0x3FE1_47AE_147A_E148, 54, 100));
    assert(near(0x3FE0_51EB_851E_B852, 51, 100));
    assert(near(0x3FDE_B851_EB85_1EB8, 48, 100));
    assert(near(0x3FDC_CCCC_CCCC_CCCC, 45, 100));
    assert(near(0x3FDA_E147_AE14_7AE1, 42, 100));
}

/// A reference with a file is opened; one without is copied by its key.
pub proof fn law_references_are_opened_or_copied(pdf_path: Option<Seq<char>>, citekey: Seq<char>)
    ensures
        pdf_path is Some && pdf_path->0.len() > 0 ==> reference_jump(pdf_path, citekey)
            == JumpView::Open(pdf_path->0),
        pdf_path is None || pdf_path->0.len() == 0 ==> reference_jump(pdf_path, citekey)
            == JumpView::Copy("@"@ + citekey),
{
}

/// A hit is shown by its title, below it the key behind an `@` and what was found; it goes by
/// its own identifier.
pub proof fn law_references_are_shown(hit: ReferenceSearchHit, rank: int)
    ensures
        reference_item(hit, rank).id == uuid_text(hit.id),
        reference_item(hit, rank).title == hit.title@,
        reference_item(hit, rank).subtitle == Some("@"@ + hit.citekey@ + "  "@ + hit.snippet@),
        reference_item(hit, rank).provider == "ref-search"@,
        reference_item(hit, rank).icon == Some("ref"@),
        reference_item(hit, rank).icon_path is None,
{
}

} // verus!
