//! Searching notes.

use vstd::arithmetic::power2::{lemma2_to64, lemma2_to64_rest};
use vstd::prelude::*;
use vstd::string::StringExecFns;

use super::provider::{ItemView, PaletteItem, ProviderError, ProviderResult};
use super::score::{clamped, is_number, near};
use crate::ids::{format_uuid, parse_uuid, uuid_in, uuid_text};
use crate::paths::{joined, path_join};
use crate::stdtext::{debug_string, debug_text};
use crate::text;

verus! {

/// The name of the provider.
pub const NOTE_SEARCH_PROVIDER: &'static str = "note-search";

/// How many notes are asked for.
pub const MAX_HITS: u32 = 10;

/// A note that was found.
#[derive(Debug, Clone, PartialEq, Eq)]
pub struct NoteSearchHit {
    pub id: u128,
    pub title: String,
    pub snippet: String,
}

/// A note as it is stored.
#[derive(Debug, Clone, PartialEq, Eq)]
pub struct NoteText {
    pub title: String,
    pub content: String,
}

/// A step of showing a note.
#[derive(Debug, Clone, PartialEq, Eq)]
pub enum OpenStep {
    /// Making this directory.
    Create(String),
    /// Writing this file.
    Write(String),
    /// Starting the program that shows it.
    Launch,
}

/// The score of a hit by its rank, as a bit pattern: 0.75, and 0.03 less for each
/// rank, but not below 0.45.
pub open spec fn note_score(rank: int) -> u64 {
    if rank == 0 {
        0x3FE8_0000_0000_0000
    } else if rank == 1 {
        0x3FE7_0A3D_70A3_D70A
    } else if rank == 2 {
        0x3FE6_147A_E147_AE14
    } else if rank == 3 {
        0x3FE5_1EB8_51EB_851F
    } else if rank == 4 {
        0x3FE4_28F5_C28F_5C29
    } else if rank == 5 {
        0x3FE3_3333_3333_3333
    } else if rank == 6 {
        0x3FE2_3D70_A3D7_0A3E
    } else if rank == 7 {
        0x3FE1_47AE_147A_E148
    } else if rank == 8 {
        0x3FE0_51EB_851E_B852
    } else if rank == 9 {
        0x3FDE_B851_EB85_1EB8
    } else {
        0x3FDC_CCCC_CCCC_CCCD
    }
}

/// The item of a hit.
pub open spec fn note_item(hit: NoteSearchHit, rank: int) -> ItemView {
    ItemView {
        id: uuid_text(hit.id),
        provider: "note-search"@,
        title: hit.title@,
        subtitle: Some(hit.snippet@),
        icon: Some("note"@),
        icon_path: None,
        score: clamped(note_score(rank)),
    }
}

fn score_of_rank(rank: usize) -> (r: u64)
    ensures
        r == note_score(rank as int),
{
    match rank {
        0 => 0x3FE8_0000_0000_0000,
        1 => 0x3FE7_0A3D_70A3_D70A,
        2 => 0x3FE6_147A_E147_AE14,
        3 => 0x3FE5_1EB8_51EB_851F,
        4 => 0x3FE4_28F5_C28F_5C29,
        5 => 0x3FE3_3333_3333_3333,
        6 => 0x3FE2_3D70_A3D7_0A3E,
        7 => 0x3FE1_47AE_147A_E148,
        8 => 0x3FE0_51EB_851E_B852,
        9 => 0x3FDE_B851_EB85_1EB8,
        _ => 0x3FDC_CCCC_CCCC_CCCD,
    }
}

/// The item of a hit.
pub fn hit_to_item(hit: &NoteSearchHit, rank: usize) -> (r: PaletteItem)
    ensures
        r.deep_view() == note_item(*hit, rank as int),
{
    PaletteItem::new(
        NOTE_SEARCH_PROVIDER,
        format_uuid(hit.id),
        hit.title.clone(),
    ).with_subtitle(hit.snippet.clone()).with_icon("note").with_score(score_of_rank(rank))
}

/// The file that a note is shown in.
pub open spec fn note_file(runtime_dir: Seq<char>, id: u128) -> Seq<char> {
    joined(joined(runtime_dir, "levshell"@), "note-"@ + uuid_text(id) + ".md"@)
}

/// What is written to the file.
pub open spec fn note_body(title: Seq<char>, content: Seq<char>) -> Seq<char> {
    "# "@ + title + "\n\n"@ + content + "\n"@
}

/// The provider of notes.
#[derive(Debug, Clone, Copy, PartialEq, Eq)]
pub struct NoteSearchProvider;

impl NoteSearchProvider {
    pub fn new() -> (r: Self) {
        NoteSearchProvider
    }

    /// The items of the hits, which come in the order of their relevance.
    pub fn items(&self, hits: &[NoteSearchHit]) -> (r: Vec<PaletteItem>)
        ensures
            r.deep_view() == Seq::new(hits@.len(), |i: int| note_item(hits@[i], i)),
    {
        let mut out: Vec<PaletteItem> = Vec::new();
        let ghost all = Seq::new(hits@.len(), |i: int| note_item(hits@[i], i));
        let mut i: usize = 0;
        assert(out.deep_view() =~= all.take(0));
        while i < hits.len()
            invariant
                i <= hits@.len(),
                all == Seq::new(hits@.len(), |i: int| note_item(hits@[i], i)),
                out.deep_view() == all.take(i as int),
            decreases hits@.len() - i,
        {
            let ghost before = out.deep_view();
            out.push(hit_to_item(&hits[i], i));
            assert(out.deep_view() =~= before.push(all[i as int]));
            assert(out.deep_view() =~= all.take(i + 1));
            i += 1;
        }
        assert(all.take(i as int) =~= all);
        out
    }

    /// The note that an item stands for.
    pub fn note_of(&self, item_id: &str) -> (r: ProviderResult<u128>)
        ensures
            match uuid_in(item_id@) {
                Ok(id) => r is Ok && r->Ok_0 == id,
                Err(why) => r is Err && r->Err_0 is ExecuteFailed && (
                r->Err_0)->ExecuteFailed_0@ == "bad note id "@ + debug_text(item_id@) + ": "@ + why,
            },
    {
        match parse_uuid(item_id) {
            Ok(id) => Ok(id),
            Err(why) => {
                let head = text::concat3("bad note id ", &debug_string(item_id), ": ");
                Err(ProviderError::ExecuteFailed(text::concat2(&head, &why)))
            },
        }
    }

    /// The file that a note is shown in, below the runtime directory, and what is
    /// written to it.
    pub fn rendered(&self, runtime_dir: &str, id: u128, title: &str, content: &str) -> (r: (
        String,
        String,
    ))
        ensures
            r.0@ == note_file(runtime_dir@, id),
            r.1@ == note_body(title@, content@),
    {
        let dir = path_join(runtime_dir, "levshell");
        let file = text::concat3("note-", &format_uuid(id), ".md");
        let mut body = text::concat3("# ", title, "\n\n");
        body.append(content);
        body.append("\n");
        (path_join(&dir, &file), body)
    }

    /// What is shown of a note that was looked up: a file and what is written to
    /// it. A note that is gone is not shown.
    pub fn open_note(
        &self,
        runtime_dir: &str,
        id: u128,
        note: Result<Option<NoteText>, String>,
    ) -> (r: ProviderResult<Option<(String, String)>>)
        ensures
            match note {
                Ok(Some(n)) => r matches Ok(Some((path, body))) && path@ == note_file(
                    runtime_dir@,
                    id,
                ) && body@ == note_body(n.title@, n.content@),
                Ok(None) => r matches Ok(None),
                Err(why) => r matches Err(ProviderError::ExecuteFailed(e)) && e@ == "get_note: "@
                    + why@,
            },
    {
        match note {
            Ok(Some(n)) => Ok(Some(self.rendered(runtime_dir, id, &n.title, &n.content))),
            Ok(None) => Ok(None),
            Err(why) => Err(ProviderError::ExecuteFailed(text::concat2("get_note: ", &why))),
        }
    }

    /// The error where a step of showing a note failed.
    pub fn failed(&self, step: &OpenStep, why: &str) -> (r: ProviderError)
        ensures
            r is ExecuteFailed,
            r->ExecuteFailed_0@ == (match step {
                OpenStep::Create(dir) => "create "@ + dir@ + ": "@ + why@,
                OpenStep::Write(path) => "write "@ + path@ + ": "@ + why@,
                OpenStep::Launch => "spawn xdg-open: "@ + why@,
            }),
    {
        let head = match step {
            OpenStep::Create(dir) => text::concat3("create ", dir, ": "),
            OpenStep::Write(path) => text::concat3("write ", path, ": "),
            OpenStep::Launch => text::owned("spawn xdg-open: "),
        };
        ProviderError::ExecuteFailed(text::concat2(&head, why))
    }
}

/// A hit that ranks lower scores no higher.
pub proof fn law_note_scores_fall(a: int, b: int)
    requires
        0 <= a <= b,
    ensures
        note_score(b) <= note_score(a),
        is_number(note_score(a)),
        clamped(note_score(a)) == note_score(a),
{
}

/// The first note is scored 0.75, and each further one 0.03 less, but none below 0.45.
pub proof fn law_note_scores_go_down_by_steps(place: int)
    requires
        0 <= place,
    ensures
        near(
            note_score(place),
            75 - 3 * (if place < 10 {
                place
            } else {
                10
            }),
            100,
        ),
{
    lemma2_to64();
    lemma2_to64_rest();
    assert(near(0x3FE8_0000_0000_0000, 75, 100));
    assert(near(0x3FE7_0A3D_70A3_D70A, 72, 100));
    assert(near(0x3FE6_147A_E147_AE14, 69, 100));
    assert(near(0x3FE5_1EB8_51EB_851F, 66, 100));
    assert(near(0x3FE4_28F5_C28F_5C29, 63, 100));
    assert(near(0x3FE3_3333_3333_3333, 60, 100));
    assert(near(0x3FE2_3D70_A3D7_0A3E, 57, 100));
    assert(near(0x3FE1_47AE_147A_E148, 54, 100));
    assert(near(0x3FE0_51EB_851E_B852, 51, 100));
    assert(near(0x3FDE_B851_EB85_1EB8, 48, 100));
    assert(near(0x3FDC_CCCC_CCCC_CCCD, 45, 100));
}

/// A note is shown by its title and where it was found, and opened as a text with its title
/// above it.
pub proof fn law_notes_are_shown(hit: NoteSearchHit, place: int, content: Seq<char>)
    ensures
        note_item(hit, place).title == hit.title@,
        note_item(hit, place).subtitle == Some(hit.snippet@),
        note_item(hit, place).id == uuid_text(hit.id),
        note_item(hit, place).provider == "note-search"@,
        note_body(hit.title@, content) == "# "@ + hit.title@ + "\n\n"@ + content + "\n"@,
{
}

} // verus!
