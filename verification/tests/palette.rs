use levshell_modules::events::Event;
use levshell_modules::palette::calc::convert::{
    parse_conversion, Conversion, ConversionRule, Scale,
};
use levshell_modules::palette::calc::expr::{parse_arith, Expr};
use levshell_modules::palette::calc::{shorten_decimals, AnswerKind, CalcProvider, Question};
use levshell_modules::palette::links::{
    best_anchor, jump_to_found_note, jump_to_note, make_item_id, parse_item_id, LinkTarget,
    LinksProvider, Neighbour, RelationDirection, Titled, LINKS_PROVIDER,
};
use levshell_modules::palette::module::{PaletteModule, PaletteStep, PALETTE_WIDGET_ID};
use levshell_modules::palette::note_search::{
    hit_to_item as note_item, NoteSearchHit, NoteSearchProvider, NoteText, OpenStep,
};
use levshell_modules::palette::provider::{
    merge_results, PaletteItem, ProviderError,
};
use levshell_modules::palette::query::sanitize_query;
use levshell_modules::palette::recent_docs::{
    attr, parse_xbel, percent_decode, xbel_path, RecentDoc, RecentDocsProvider,
};
use levshell_modules::palette::ref_search::{
    hit_to_item, jump_to_found, jump_to_reference, Jump, RefSearchProvider, ReferenceSearchHit,
    StoredReference, REF_SEARCH_PROVIDER,
};
use levshell_modules::palette::score::{clamp, less};
use levshell_modules::palette::unicode::UnicodeProvider;
use levshell_modules::palette::workspace_switcher::{ListedWorkspace, WorkspaceSwitcherProvider};
use levshell_modules::projects::EntityType;

fn score(item: &PaletteItem) -> f64 {
    f64::from_bits(item.score)
}

// ---------------------------------------------------------------------------
// Calculating
// ---------------------------------------------------------------------------

fn value(e: &Expr) -> Option<f64> {
    let v = match e {
        Expr::Number(s) => s.parse::<f64>().ok()?,
        Expr::Negated(a) => -value(a)?,
        Expr::Sum(a, b) => value(a)? + value(b)?,
        Expr::Difference(a, b) => value(a)? - value(b)?,
        Expr::Product(a, b) => value(a)? * value(b)?,
        Expr::Quotient(a, b) => {
            let (x, d) = (value(a)?, value(b)?);
            if d == 0.0 {
                return None;
            }
            x / d
        }
        Expr::Remainder(a, b) => {
            let (x, d) = (value(a)?, value(b)?);
            if d == 0.0 {
                return None;
            }
            x % d
        }
        Expr::Power(a, b) => value(a)?.powf(value(b)?),
    };
    Some(v)
}

fn eval_arith(src: &str) -> Option<f64> {
    let v = value(&parse_arith(src)?)?;
    if v.is_finite() {
        Some(v)
    } else {
        None
    }
}

fn converted(c: &Conversion) -> (f64, String) {
    let x: f64 = c.value.parse().unwrap();
    let y = match c.rule {
        ConversionRule::Linear { from, to } => x * f64::from_bits(from) / f64::from_bits(to),
        ConversionRule::Temperature { from, to } => {
            let celsius = match from {
                Scale::Celsius => x,
                Scale::Fahrenheit => (x - 32.0) * 5.0 / 9.0,
                Scale::Kelvin => x - 273.15,
            };
            match to {
                Scale::Celsius => celsius,
                Scale::Fahrenheit => celsius * 9.0 / 5.0 + 32.0,
                Scale::Kelvin => celsius + 273.15,
            }
        }
    };
    (y, c.unit.clone())
}

fn eval_conversion(src: &str) -> Option<(f64, String)> {
    parse_conversion(src).expect("the separator has a place").map(|c| converted(&c))
}

fn calc_search(p: &CalcProvider, query: &str) -> Vec<PaletteItem> {
    match p.question(query) {
        Question::Arithmetic(e) => match value(&e) {
            Some(v) => vec![p.answer(query, &format!("{}", v as i64), AnswerKind::Arithmetic)],
            None => Vec::new(),
        },
        _ => Vec::new(),
    }
}

#[test]
fn arithmetic() {
    assert_eq!(eval_arith("2 + 2"), Some(4.0));
    assert_eq!(eval_arith("(3.5 * 4) ^ 2"), Some(196.0));
    assert_eq!(eval_arith("17 % 5"), Some(2.0));
    assert_eq!(eval_arith("-2 ^ 10"), Some(-1024.0));
    assert_eq!(eval_arith("2 ^ 3 ^ 2"), Some(512.0));
    assert_eq!(eval_arith("10 / 4"), Some(2.5));
}

#[test]
fn non_math_is_rejected() {
    assert_eq!(eval_arith("firefox"), None);
    assert_eq!(eval_arith("2 + 2 foo"), None);
    assert_eq!(eval_arith("1 / 0"), None);
    assert_eq!(eval_arith(""), None);
}

#[test]
fn expressions_associate_to_the_left() {
    assert_eq!(eval_arith("10 - 4 - 3"), Some(3.0));
    assert_eq!(eval_arith("100 / 5 / 2"), Some(10.0));
    assert_eq!(eval_arith("2 ^ -1"), Some(0.5));
    assert_eq!(eval_arith("1.2.3"), None);
    assert_eq!(eval_arith("(1"), None);
}

#[test]
fn conversions() {
    assert_eq!(eval_conversion("10 km to mi").map(|(v, _)| v.round()), Some(6.0));
    let (c, u) = eval_conversion("212 f in c").unwrap();
    assert!((c - 100.0).abs() < 1e-9);
    assert_eq!(u, "c");
    let (g, _) = eval_conversion("2 gib to mib").unwrap();
    assert!((g - 2048.0).abs() < 1e-6);
    assert!(eval_conversion("10 km to kg").is_none());
}

#[test]
fn conversions_go_both_ways() {
    let (mi, _) = eval_conversion("10 km to mi").unwrap();
    let (km, _) = eval_conversion(&format!("{mi} mi to km")).unwrap();
    assert!((km - 10.0).abs() < 1e-9);
    assert!(eval_conversion("3 oz to g").is_some() && eval_conversion("3 g to oz").is_some());
}

#[test]
fn search_emits_single_top_ranked_item() {
    let p = CalcProvider::new();
    let items = calc_search(&p, "2+2*3");
    assert_eq!(items.len(), 1);
    assert_eq!(items[0].title, "8");
    assert!(score(&items[0]) > 0.9);
    assert_eq!(score(&items[0]), 0.99);
    assert_eq!(items[0].subtitle.as_deref(), Some("result  ·  2+2*3"));
    assert!(calc_search(&p, "just words").is_empty());
    assert!(matches!(p.question("  "), Question::Nothing));
    assert!(matches!(p.question("1.5GiB to MiB"), Question::Conversion(_)));
}

#[test]
fn decimals_are_shortened() {
    assert_eq!(shorten_decimals("6.213700"), "6.2137");
    assert_eq!(shorten_decimals("2.500000"), "2.5");
    assert_eq!(shorten_decimals("3.000000"), "3");
}

// ---------------------------------------------------------------------------
// Links
// ---------------------------------------------------------------------------

const ID: u128 = 0x0190_5c1e_7a7b_7cde_8a12_34567890abcd;

fn others() -> Vec<String> {
    vec!["task".into(), "event".into()]
}

#[test]
fn item_id_round_trips() {
    let s = make_item_id("ref", ID);
    assert_eq!(s, "ref|01905c1e-7a7b-7cde-8a12-34567890abcd");
    assert_eq!(parse_item_id(&s, &others()), Some((EntityType::Reference, ID)));
    let n = make_item_id("note", ID);
    assert_eq!(parse_item_id(&n, &others()), Some((EntityType::Note, ID)));
    let t = make_item_id("task", ID);
    assert_eq!(parse_item_id(&t, &others()), Some((EntityType::Other, ID)));
}

#[test]
fn parse_item_id_rejects_garbage() {
    assert_eq!(parse_item_id("nope", &others()), None);
    assert_eq!(parse_item_id("note|not-a-uuid", &others()), None);
    assert_eq!(parse_item_id("bogus|", &others()), None);
    assert_eq!(parse_item_id(&make_item_id("bogus", ID), &others()), None);
}

#[test]
fn sanitize_appends_prefix_star() {
    assert_eq!(sanitize_query("  attention model "), Some("attention* model*".into()));
    assert_eq!(sanitize_query("   "), None);
}

#[test]
fn search_surfaces_the_anchor_neighbours() {
    let note = Titled { id: 1, title: "Sparse Attention reading".into() };
    let anchor = best_anchor(&[note], &[]).unwrap();
    assert_eq!(anchor.entity_type, EntityType::Note);
    let p = LinksProvider::new(others());
    let neighbours = vec![Neighbour {
        id: ID,
        entity_type: EntityType::Reference,
        type_tag: "ref".into(),
        kind: "scaffolded_from".into(),
        label: "@vaswani2017 Attention Is All You Need".into(),
        direction: RelationDirection::Outgoing,
    }];
    let items = p.items(&neighbours, &anchor.title);
    assert_eq!(items.len(), 1);
    assert_eq!(items[0].title, "@vaswani2017 Attention Is All You Need");
    assert_eq!(items[0].provider, LINKS_PROVIDER);
    assert_eq!(parse_item_id(&items[0].id, &others()), Some((EntityType::Reference, ID)));
    let sub = items[0].subtitle.as_deref().unwrap();
    assert!(sub.contains("scaffolded_from"), "subtitle names the edge: {sub}");
    assert!(sub.contains('→'), "outgoing arrow from the note");
}

#[test]
fn empty_query_and_no_match_are_silent() {
    assert!(sanitize_query("").is_none());
    assert!(best_anchor(&[], &[]).is_none());
    assert!(LinksProvider::new(others()).items(&[], "anything").is_empty());
}

#[test]
fn execute_unknown_item_errors() {
    let p = LinksProvider::new(others());
    let err = p.target("garbage").unwrap_err();
    assert!(matches!(err, ProviderError::UnknownItem(_)));
}

#[test]
fn links_lead_to_notes_and_references() {
    let p = LinksProvider::new(others());
    assert!(matches!(p.target(&make_item_id("note", 7)), Ok(LinkTarget::Note(7))));
    assert!(matches!(p.target(&make_item_id("ref", 8)), Ok(LinkTarget::Reference(8))));
    assert!(matches!(p.target(&make_item_id("task", 9)), Ok(LinkTarget::Nothing)));
    assert_eq!(jump_to_note("Title").command(), ("wl-copy", "[[Title]]".to_string()));
}

#[test]
fn link_scores_fall_with_the_rank() {
    let neighbour = |id: u128| Neighbour {
        id,
        entity_type: EntityType::Note,
        type_tag: "note".into(),
        kind: "k".into(),
        label: "l".into(),
        direction: RelationDirection::Incoming,
    };
    let many: Vec<Neighbour> = (0..20).map(neighbour).collect();
    let items = LinksProvider::new(others()).items(&many, "a");
    assert_eq!(items.len(), 12);
    assert!(items.windows(2).all(|w| score(&w[0]) >= score(&w[1])));
    assert!(items[0].subtitle.as_deref().unwrap().contains('←'));
}

#[test]
fn uuids_read_back() {
    let p = NoteSearchProvider::new();
    assert_eq!(p.note_of("00000000-0000-0000-0000-000000000000"), Ok(0));
    assert_eq!(p.note_of("01905c1e-7a7b-7cde-8a12-34567890abcd"), Ok(ID));
    assert_eq!(p.note_of("01905C1E7A7B7CDE8A1234567890ABCD"), Ok(ID));
    assert!(p.note_of("zzz").is_err());
}

// ---------------------------------------------------------------------------
// The module
// ---------------------------------------------------------------------------

fn items_of(provider: &str, items: &[(&str, &str)]) -> Vec<PaletteItem> {
    items
        .iter()
        .map(|(id, title)| {
            PaletteItem::new(provider, id.to_string(), title.to_string())
                .with_score(0.8f64.to_bits())
        })
        .collect()
}

fn palette_action(action: &str) -> Event {
    Event::PaletteActionRequested { action: action.into(), query: None }
}

/// Carries out what a step asks for, with one provider that finds the same items
/// for every query.
fn settle(module: &mut PaletteModule, step: PaletteStep, items: &[(&str, &str)]) {
    match step {
        PaletteStep::Search { .. } => module.absorb_results(vec![items_of("apps", items)]),
        PaletteStep::Execute { .. } => module.executed(),
        PaletteStep::Publish | PaletteStep::Ignore => {}
    }
}

#[test]
fn start_publishes_closed_palette_state() {
    let module = PaletteModule::new();
    assert_eq!(PALETTE_WIDGET_ID, "command-palette");
    assert!(!module.state.open);
    assert!(module.state.results.is_empty());
}

#[test]
fn palette_action_open_populates_results_from_providers() {
    let mut module = PaletteModule::new().with_providers(vec!["apps".into()]);
    let step = module.on_event(&palette_action("open"));
    assert_eq!(step, PaletteStep::Search { query: String::new() });
    settle(&mut module, step, &[("firefox", "Firefox"), ("gedit", "Text Editor")]);
    assert!(module.state.open);
    assert_eq!(module.state.results.len(), 2);
}

#[test]
fn query_event_refreshes_results_when_open() {
    let items = [("firefox", "Firefox"), ("gedit", "Text Editor")];
    let mut module = PaletteModule::new().with_provider("apps".into());
    let step = module.on_event(&palette_action("open"));
    settle(&mut module, step, &items);
    let step = module.on_event(&Event::CommandPaletteQueryReceived { query: "fire".into() });
    assert_eq!(step, PaletteStep::Search { query: "fire".into() });
    settle(&mut module, step, &items);
    assert_eq!(module.state.query, "fire");
    assert_eq!(module.state.results.len(), 2);
}

#[test]
fn close_event_clears_state() {
    let mut module = PaletteModule::new().with_provider("apps".into());
    let step = module.on_event(&palette_action("open"));
    settle(&mut module, step, &[("firefox", "Firefox")]);
    let step = module.on_event(&palette_action("close"));
    assert_eq!(step, PaletteStep::Publish);
    assert!(!module.state.open);
    assert!(module.state.results.is_empty());
}

#[test]
fn toggle_event_opens_then_closes() {
    let mut module = PaletteModule::new().with_provider("apps".into());
    let step = module.on_event(&palette_action("toggle"));
    settle(&mut module, step, &[("a", "Alpha")]);
    assert!(module.state.open);
    let step = module.on_event(&palette_action("toggle"));
    settle(&mut module, step, &[("a", "Alpha")]);
    assert!(!module.state.open);
}

#[test]
fn select_event_closes_palette_after_dispatch() {
    let mut module = PaletteModule::new().with_provider("apps".into());
    let step = module.on_event(&palette_action("open"));
    settle(&mut module, step, &[("firefox", "Firefox")]);
    let step = module.on_event(&Event::CommandPaletteSelectReceived {
        provider: "apps".into(),
        item_id: "firefox".into(),
    });
    assert_eq!(step, PaletteStep::Execute { provider: 0, item_id: "firefox".into() });
    settle(&mut module, step, &[]);
    assert!(!module.state.open);
}

#[test]
fn items_go_back_to_their_provider() {
    let mut module = PaletteModule::new().with_provider("a".into()).with_provider("b".into());
    module.on_event(&palette_action("open"));
    let select = |p: &str| Event::CommandPaletteSelectReceived {
        provider: p.into(),
        item_id: "x".into(),
    };
    assert_eq!(
        module.on_event(&select("b")),
        PaletteStep::Execute { provider: 1, item_id: "x".into() }
    );
    assert_eq!(module.on_event(&palette_action("dance")), PaletteStep::Publish);
    assert!(module.state.open);
}

#[test]
fn items_of_a_provider_that_is_gone_close_the_palette() {
    let mut module = PaletteModule::new().with_provider("a".into());
    module.on_event(&palette_action("open"));
    module.on_event(&Event::CommandPaletteQueryReceived { query: "fire".into() });
    module.absorb_results(vec![items_of("a", &[("1", "Firefox")])]);
    let step = module.on_event(&Event::CommandPaletteSelectReceived {
        provider: "gone".into(),
        item_id: "1".into(),
    });
    assert_eq!(step, PaletteStep::Publish);
    assert!(!module.state.open);
    assert_eq!(module.state.query, "");
    assert!(module.state.results.is_empty());
}

#[test]
fn reopening_forgets_the_query() {
    let mut module = PaletteModule::new();
    module.on_event(&palette_action("open"));
    module.on_event(&Event::CommandPaletteQueryReceived { query: "fire".into() });
    module.on_event(&palette_action("close"));
    module.on_event(&palette_action("open"));
    assert_eq!(module.state.query, "");
}

// ---------------------------------------------------------------------------
// Searching notes and references
// ---------------------------------------------------------------------------

#[test]
fn sanitize_strips_punctuation() {
    assert_eq!(sanitize_query("firefox!"), Some("firefox*".to_string()));
    assert_eq!(sanitize_query("hello (world)"), Some("hello* world*".to_string()));
}

#[test]
fn sanitize_empty_returns_none() {
    assert!(sanitize_query("").is_none());
    assert!(sanitize_query("   ").is_none());
    assert!(sanitize_query("!!!").is_none());
}

#[test]
fn sanitize_adds_prefix_glob_per_term() {
    assert_eq!(sanitize_query("rust async trait"), Some("rust* async* trait*".to_string()));
}

#[test]
fn sanitize_prefix_globs_each_term() {
    assert_eq!(sanitize_query("attention is all"), Some("attention* is* all*".to_string()));
    assert!(sanitize_query("  ").is_none());
}

#[test]
fn hit_subtitle_carries_citekey() {
    let item = hit_to_item(
        &ReferenceSearchHit {
            id: 0,
            title: "Attention Is All You Need".into(),
            citekey: "vaswani2017".into(),
            snippet: "…transformer…".into(),
        },
        0,
    );
    assert!(item.subtitle.unwrap().starts_with("@vaswani2017"));
    assert_eq!(item.provider, REF_SEARCH_PROVIDER);
}

#[test]
fn note_hits_are_ranked_and_found_again() {
    let hit = NoteSearchHit { id: ID, title: "T".into(), snippet: "s".into() };
    let p = NoteSearchProvider::new();
    let items = p.items(&[hit.clone(), hit.clone(), hit.clone()]);
    assert!(score(&items[0]) > score(&items[2]));
    assert_eq!(items[0], note_item(&hit, 0));
    assert_eq!(p.note_of(&items[0].id), Ok(ID));
    match p.note_of("zzz") {
        Err(ProviderError::ExecuteFailed(why)) => {
            assert!(why.starts_with("bad note id \"zzz\": "), "{why}")
        }
        other => panic!("expected a failure, got {other:?}"),
    }
    let (path, body) = p.rendered("/run", 0, "Title", "Text");
    assert_eq!(path, "/run/levshell/note-00000000-0000-0000-0000-000000000000.md");
    assert_eq!(body, "# Title\n\nText\n");
}

#[test]
fn references_open_their_pdf_or_copy_their_key() {
    assert_eq!(jump_to_reference(&Some("/p.pdf".into()), "k"), Jump::Open("/p.pdf".into()));
    let copy = jump_to_reference(&None, "k");
    assert_eq!(copy.command(), ("wl-copy", "@k".to_string()));
    assert_eq!(
        copy.failed("gone").message(),
        ProviderError::ExecuteFailed("wl-copy: gone".into()).message()
    );
    let p = RefSearchProvider::new();
    assert_eq!(p.reference_of("00000000-0000-0000-0000-000000000005"), Ok(5));
    assert!(matches!(p.reference_of("no"), Err(ProviderError::ExecuteFailed(_))));
}

// ---------------------------------------------------------------------------
// Merging
// ---------------------------------------------------------------------------

fn scored(provider: &str, id: &str, title: &str, s: f64) -> PaletteItem {
    PaletteItem::new(provider, id.into(), title.into()).with_score(s.to_bits())
}

#[test]
fn merge_sorts_by_descending_score() {
    let buckets = vec![
        vec![scored("a", "1", "Alpha", 0.3), scored("a", "2", "Beta", 0.9)],
        vec![scored("b", "3", "Gamma", 0.7)],
    ];
    let merged = merge_results(buckets, 10);
    assert_eq!(merged[0].title, "Beta");
    assert_eq!(merged[1].title, "Gamma");
    assert_eq!(merged[2].title, "Alpha");
}

#[test]
fn merge_breaks_ties_stably_on_provider_then_title() {
    let buckets = vec![
        vec![scored("z-prov", "1", "Aaa", 0.5), scored("z-prov", "2", "Bbb", 0.5)],
        vec![scored("a-prov", "3", "Ccc", 0.5)],
    ];
    let merged = merge_results(buckets, 10);
    assert_eq!(merged[0].provider, "a-prov");
    assert_eq!(merged[1].title, "Aaa");
    assert_eq!(merged[2].title, "Bbb");
}

#[test]
fn merge_truncates_to_limit() {
    let items: Vec<PaletteItem> =
        (0..20).map(|i| scored("p", &i.to_string(), &format!("item {i}"), 0.5)).collect();
    let merged = merge_results(vec![items], 5);
    assert_eq!(merged.len(), 5);
}

#[test]
fn score_is_clamped_to_unit_range() {
    let over = scored("p", "1", "x", 5.0);
    assert_eq!(score(&over), 1.0);
    let under = scored("p", "2", "y", -0.5);
    assert_eq!(score(&under), 0.0);
}

#[test]
fn bit_patterns_order_as_the_doubles() {
    let values = [-2.0f64, -0.5, -0.0, 0.0, 1e-300, 0.25, 0.9, 1.0, 7.5];
    for a in values {
        for b in values {
            assert_eq!(less(a.to_bits(), b.to_bits()), a < b, "{a} {b}");
        }
        assert_eq!(f64::from_bits(clamp(a.to_bits())), a.clamp(0.0, 1.0));
    }
}

#[test]
fn merging_keeps_the_best() {
    let merged = merge_results(
        vec![vec![scored("p", "1", "low", 0.1)], vec![scored("p", "2", "high", 0.8)]],
        1,
    );
    assert_eq!(merged.len(), 1);
    assert_eq!(merged[0].title, "high");
    assert_eq!(ProviderError::UnknownItem("x".into()).message(), "item id not recognized: x");
}

// ---------------------------------------------------------------------------
// Recent documents, symbols, workspaces
// ---------------------------------------------------------------------------

#[test]
fn percent_decode_handles_spaces_and_utf8() {
    assert_eq!(percent_decode("/home/u/My%20Paper.pdf"), "/home/u/My Paper.pdf");
    assert_eq!(percent_decode("/a/plain/path"), "/a/plain/path");
}

#[test]
fn percent_decode_joins_bytes() {
    assert_eq!(percent_decode("/%C3%A4"), "/ä");
    assert_eq!(percent_decode("100%"), "100%");
    assert_eq!(percent_decode("%zz"), "%zz");
    assert_eq!(percent_decode("%FF"), "\u{FFFD}");
}

const XBEL: &str = r#"<?xml version="1.0"?>
<xbel>
 <bookmark href="file:///tmp/old.txt" modified="2024-01-01T00:00:00Z"/>
 <bookmark href="file:///tmp/new%20file.pdf" modified="2025-06-01T12:00:00Z"/>
</xbel>"#;

#[test]
fn parse_xbel_extracts_newest_first() {
    let e = parse_xbel(XBEL);
    assert_eq!(e.len(), 2);
    assert_eq!(e[0].path, "/tmp/new file.pdf");
    assert_eq!(e[1].path, "/tmp/old.txt");
}

fn attr_of(tag: &str, name: &str) -> Option<String> {
    let cs: Vec<char> = tag.chars().collect();
    attr(&cs, name)
}

#[test]
fn attr_missing_is_none() {
    assert_eq!(attr_of("href=\"x\"", "modified"), None);
    assert_eq!(attr_of("href=\"x\" modified=\"y\"", "modified").as_deref(), Some("y"));
}

#[test]
fn offered_documents_exist() {
    let docs = parse_xbel(XBEL);
    let p = RecentDocsProvider::new();
    let existing = vec!["/tmp/new file.pdf".to_string()];
    let items = p.search("FILE", &docs, &existing);
    assert_eq!(items.len(), 1);
    assert_eq!(items[0].id, "/tmp/new file.pdf");
    assert_eq!(items[0].title, "new file.pdf");
    assert!(p.search("old", &docs, &existing).is_empty());
    assert_eq!(
        xbel_path(&None, &Some("/home/u".into())).as_deref(),
        Some("/home/u/.local/share/recently-used.xbel")
    );
}

#[test]
fn matches_name_and_keyword() {
    let p = UnicodeProvider::new();
    let lam = p.search("lambda");
    assert!(lam.iter().any(|i| i.id == "λ"));
    let sum = p.search("sum");
    assert!(sum.iter().any(|i| i.id == "∑" || i.id == "Σ"));
}

#[test]
fn single_char_query_is_ignored() {
    assert!(UnicodeProvider::new().search("a").is_empty());
}

#[test]
fn workspaces_are_found_by_name() {
    let ws = |name: &str, focused: bool| ListedWorkspace {
        name: name.into(),
        output: "eDP-1".into(),
        focused,
    };
    let p = WorkspaceSwitcherProvider::new();
    let all = vec![ws("1:web", true), ws("2:code", false)];
    let hits = p.search("code", &all);
    assert_eq!(hits.len(), 1);
    assert_eq!(hits[0].id, "2:code");
    assert_eq!(p.command("it's"), "workspace 'it'\\''s'");
}

// ---------------------------------------------------------------------------
// Scores by rank
// ---------------------------------------------------------------------------

#[test]
fn note_scores_follow_the_rank() {
    let hit = NoteSearchHit { id: ID, title: "T".into(), snippet: "s".into() };
    for rank in 0..14usize {
        let expected = 0.75 - (rank as f64 * 0.03).min(0.3);
        assert_eq!(note_item(&hit, rank).score, expected.to_bits(), "rank {rank}");
    }
}

#[test]
fn reference_scores_follow_the_rank() {
    let hit = ReferenceSearchHit {
        id: ID,
        title: "T".into(),
        citekey: "k".into(),
        snippet: "s".into(),
    };
    for rank in 0..14usize {
        let expected = 0.72 - (rank as f64 * 0.03).min(0.3);
        assert_eq!(hit_to_item(&hit, rank).score, expected.to_bits(), "rank {rank}");
    }
}

#[test]
fn link_scores_follow_the_place() {
    let neighbour = |id: u128| Neighbour {
        id,
        entity_type: EntityType::Note,
        type_tag: "note".into(),
        kind: "k".into(),
        label: "l".into(),
        direction: RelationDirection::Outgoing,
    };
    let all: Vec<Neighbour> = (0..12).map(neighbour).collect();
    for (i, item) in LinksProvider::new(others()).items(&all, "a").iter().enumerate() {
        let expected = 0.5 - (i as f64 * 0.02).min(0.2);
        assert_eq!(item.score, expected.to_bits(), "place {i}");
    }
}

#[test]
fn document_scores_follow_the_place_in_the_list() {
    let doc = |i: usize| RecentDoc { modified: String::new(), path: format!("/d/{i:02}.txt") };
    let docs: Vec<RecentDoc> = (0..20).map(doc).collect();
    // Every other document is gone: the others keep their places.
    let existing: Vec<String> = docs.iter().step_by(2).map(|d| d.path.clone()).collect();
    let items = RecentDocsProvider::new().matching("", &docs, &existing);
    assert_eq!(items.len(), 10);
    for (i, item) in items.iter().enumerate() {
        let expected = 0.68 - ((2 * i) as f64 * 0.02).min(0.3);
        assert_eq!(item.score, expected.to_bits(), "document {i}");
        assert_eq!(item.subtitle.as_deref(), Some("/d"));
    }
    let all: Vec<String> = docs.iter().map(|d| d.path.clone()).collect();
    assert_eq!(RecentDocsProvider::new().matching("", &docs, &all).len(), 12);
}

#[test]
fn symbol_scores_follow_the_position() {
    let p = UnicodeProvider::new();
    let texts = [("α", "alpha greek"), ("λ", "lambda greek"), ("∑", "summation sum sigma")];
    for q in ["alpha", "lambda", "greek", "summation", "sigma", "ma", "upper", "change"] {
        for item in p.search(q) {
            for (symbol, text) in texts {
                if item.id == symbol {
                    let expected = 0.70 - (text.find(q).unwrap() as f64 * 0.01).min(0.25);
                    assert_eq!(item.score, expected.to_bits(), "{symbol} for {q}");
                }
            }
        }
    }
    assert_eq!(p.search("greek").len(), 12);
    let alpha = &p.search("alpha")[0];
    assert_eq!(alpha.title, "α  alpha");
    assert_eq!(alpha.subtitle.as_deref(), Some("U+03B1  ·  copy"));
}

#[test]
fn workspace_scores_follow_the_match() {
    let ws = |name: &str| ListedWorkspace {
        name: name.into(),
        output: "eDP-1".into(),
        focused: false,
    };
    let all = [ws("code"), ws("Codex"), ws("2:code"), ws("web")];
    let p = WorkspaceSwitcherProvider::new();
    let scores: Vec<f64> = p.search("CODE", &all).iter().map(score).collect();
    assert_eq!(scores, vec![1.0, 0.85, 0.65]);
    let neutral: Vec<f64> = p.search("", &all).iter().map(score).collect();
    assert_eq!(neutral, vec![0.5; 4]);
}

// ---------------------------------------------------------------------------
// What choosing an item comes to
// ---------------------------------------------------------------------------

fn failure<T: std::fmt::Debug>(r: Result<T, ProviderError>) -> String {
    match r {
        Err(ProviderError::ExecuteFailed(why)) => why,
        other => panic!("expected a failure, got {other:?}"),
    }
}

#[test]
fn notes_are_shown_in_a_file() {
    let p = NoteSearchProvider::new();
    let note = NoteText { title: "Title".into(), content: "Text".into() };
    let shown = p.open_note("/run", 5, Ok(Some(note))).unwrap();
    assert_eq!(
        shown,
        Some((
            "/run/levshell/note-00000000-0000-0000-0000-000000000005.md".to_string(),
            "# Title\n\nText\n".to_string(),
        ))
    );
    assert_eq!(p.open_note("/run", 5, Ok(None)), Ok(None));
    assert_eq!(failure(p.open_note("/run", 5, Err("locked".into()))), "get_note: locked");
    let step = |s: OpenStep| p.failed(&s, "denied").message();
    let said = |why: &str| ProviderError::ExecuteFailed(why.into()).message();
    assert_eq!(step(OpenStep::Create("/run/levshell".into())), said("create /run/levshell: denied"));
    assert_eq!(step(OpenStep::Write("/run/n.md".into())), said("write /run/n.md: denied"));
    assert_eq!(step(OpenStep::Launch), said("spawn xdg-open: denied"));
}

#[test]
fn references_that_are_gone_lead_nowhere() {
    let stored = |pdf: Option<&str>| StoredReference {
        pdf_path: pdf.map(|p| p.to_string()),
        citekey: "doe2020".into(),
    };
    assert_eq!(jump_to_found(Ok(None)), Ok(None));
    assert_eq!(
        jump_to_found(Ok(Some(stored(Some("/p.pdf"))))),
        Ok(Some(Jump::Open("/p.pdf".into())))
    );
    let copied = Ok(Some(Jump::Copy("@doe2020".into())));
    assert_eq!(jump_to_found(Ok(Some(stored(None)))), copied);
    assert_eq!(jump_to_found(Ok(Some(stored(Some(""))))), copied);
    assert_eq!(failure(jump_to_found(Err("locked".into()))), "get_reference: locked");
    assert_eq!(
        Jump::Open("/p.pdf".into()).failed("gone").message(),
        ProviderError::ExecuteFailed("open pdf: gone".into()).message()
    );
}

#[test]
fn links_to_notes_copy_a_wiki_link() {
    assert_eq!(
        jump_to_found_note(Ok(Some("Ideas".into()))),
        Ok(Some(Jump::Copy("[[Ideas]]".into())))
    );
    assert_eq!(jump_to_found_note(Ok(None)), Ok(None));
    assert_eq!(failure(jump_to_found_note(Err("locked".into()))), "get_note: locked");
}

#[test]
fn documents_that_vanished_are_not_opened() {
    let p = RecentDocsProvider::new();
    assert_eq!(p.chosen("/tmp/a.txt", true).as_deref(), Some("/tmp/a.txt"));
    assert_eq!(p.chosen("/tmp/a.txt", false), None);
    assert_eq!(
        p.failed("not found").message(),
        ProviderError::ExecuteFailed("xdg-open: not found".into()).message()
    );
}

#[test]
fn documents_are_called_by_the_last_part_of_their_paths() {
    let p = RecentDocsProvider::new();
    for (path, name) in [
        ("/d/a.txt", "a.txt"),
        ("/d//a.txt/", "a.txt"),
        ("/d/a.txt/./", "a.txt"),
        ("./a", "a"),
        ("/d/..", ""),
        ("/", ""),
        (".", ""),
        ("", ""),
    ] {
        let docs = vec![RecentDoc { modified: "2024".into(), path: path.into() }];
        let items = p.matching("", &docs, &[path.to_string()]);
        assert_eq!(items[0].title, name, "{path}");
    }
}

#[test]
fn switching_without_a_compositor_does_nothing() {
    let p = WorkspaceSwitcherProvider::new();
    assert_eq!(p.executed(&None), Ok(()));
    assert_eq!(p.executed(&Some(Ok(()))), Ok(()));
    assert_eq!(failure(p.executed(&Some(Err("odd".into())))), "run_command failed: odd");
}

#[test]
fn queries_are_lowered_and_names_are_not() {
    let p = UnicodeProvider::new();
    let ids = |q: &str| p.search(q).into_iter().map(|i| i.id).collect::<Vec<String>>();
    assert_eq!(ids("Gamma"), vec!["γ"]);
    assert_eq!(ids("gamma"), vec!["γ"]);
    assert_eq!(ids("amma"), vec!["γ", "Γ"]);
    assert_eq!(ids("OHM"), vec!["Ω"]);
}

#[test]
fn scores_that_are_no_number_are_kept() {
    let odd = scored("a", "1", "Odd", f64::NAN);
    assert!(score(&odd).is_nan());
    let merged = merge_results(vec![vec![odd], vec![scored("b", "2", "Plain", 0.5)]], 10);
    assert_eq!(merged.len(), 2);
    assert!(score(&scored("a", "1", "High", f64::INFINITY)) == 1.0);
    assert!(score(&scored("a", "1", "Low", f64::NEG_INFINITY)) == 0.0);
}

#[test]
fn escaped_paths_read_back() {
    let path = "/home/ü/100% ∑ \u{1F680}.pdf";
    let upper: String = path.bytes().map(|b| format!("%{b:02X}")).collect();
    let lower: String = path.bytes().map(|b| format!("%{b:02x}")).collect();
    assert_eq!(percent_decode(&upper), path);
    assert_eq!(percent_decode(&lower), path);
    assert_eq!(percent_decode(&path.replace('%', "%25")), path);
    assert_eq!(percent_decode("100%"), "100%");
    assert_eq!(percent_decode("a%FF"), "a\u{FFFD}");
}
