use levshell_modules::order::str_lt;
use levshell_modules::palette::app_launcher::entry::{
    scan_desktop_entries, DesktopEntry, DesktopFile,
};
use levshell_modules::palette::app_launcher::history::{
    age_seconds, default_launches_path, LaunchHistory,
};
use levshell_modules::palette::app_launcher::icons::{
    candidate_subdirs, extensions_for_subdir, icon_name_fallbacks, strip_known_extension,
};
use levshell_modules::palette::app_launcher::resolver::{directories_to_test, IconResolver};
use levshell_modules::palette::app_launcher::themes::{
    build_theme_chain, detect_primary_icon_theme, parse_theme_inherits,
    read_icon_theme_from_settings, settings_files, themes_to_read, ThemeIndex,
};
use levshell_modules::palette::app_launcher::{
    default_icon_search_roots, default_search_paths, score_entry, AppLauncherProvider, AppMatch,
};
use levshell_modules::palette::provider::ProviderError;

const SAMPLE: &str = "[Desktop Entry]
Version=1.0
Type=Application
Name=Firefox
GenericName=Web Browser
Comment=Browse the World Wide Web
Exec=firefox %u
Icon=firefox
Terminal=false
Categories=Network;WebBrowser;
";

const DAY: i64 = 86_400;

fn entry(id: &str, name: &str, command: &str) -> DesktopEntry {
    DesktopEntry {
        id: id.into(),
        name: name.into(),
        exec_line: command.into(),
        comment: None,
        icon_name: None,
        icon_path: None,
    }
}

fn test_entry(id: &str, name: &str) -> DesktopEntry {
    entry(id, name, id)
}

fn base(how: AppMatch) -> f64 {
    match how {
        AppMatch::Neutral => 0.4,
        AppMatch::Exact => 1.0,
        AppMatch::Prefix => 0.9,
        AppMatch::Inside { query_bytes, name_bytes } => {
            0.6 + 0.2 * (query_bytes as f64 / name_bytes as f64)
        }
        AppMatch::Command => 0.4,
    }
}

fn boost(age: Option<u64>) -> f64 {
    match age {
        Some(secs) => 0.1 * (-(secs as f64 / DAY as f64) / 7.0).exp(),
        None => 0.0,
    }
}

fn rate(how: AppMatch, age: Option<u64>) -> u64 {
    (base(how) + boost(age)).to_bits()
}

fn recency_boost(history: &LaunchHistory, id: &str, now: i64) -> f64 {
    boost(history.last_launch(id).map(|last| age_seconds(last, now)))
}

fn scored_with_recency(
    entry: &DesktopEntry,
    query: &str,
    history: &LaunchHistory,
    now: i64,
) -> Option<f64> {
    let how = score_entry(entry, query)?;
    Some(base(how) + recency_boost(history, &entry.id, now))
}

/// The directories above some files.
fn dirs_above(files: &[String]) -> Vec<String> {
    let mut out: Vec<String> = Vec::new();
    for f in files {
        let mut rest = f.as_str();
        while let Some(i) = rest.rfind('/') {
            rest = &rest[..i];
            if rest.is_empty() {
                break;
            }
            if !out.contains(&rest.to_string()) {
                out.push(rest.to_string());
            }
        }
    }
    out
}

fn strings(v: &[&str]) -> Vec<String> {
    v.iter().map(|s| s.to_string()).collect()
}

fn resolve(files: &[&str], roots: &[&str], chain: &[&str], name: &str) -> Option<String> {
    let files = strings(files);
    let resolver = IconResolver::from_parts(&strings(roots), &strings(chain), &dirs_above(&files));
    resolver.resolve(name, &files)
}

// ---------------------------------------------------------------------------
// Entries
// ---------------------------------------------------------------------------

#[test]
fn parses_sample_firefox_entry() {
    let e = DesktopEntry::parse(SAMPLE, "firefox").unwrap();
    assert_eq!(e.id, "firefox");
    assert_eq!(e.name, "Firefox");
    assert_eq!(e.exec_line, "firefox %u");
    assert_eq!(e.comment.as_deref(), Some("Browse the World Wide Web"));
    assert_eq!(e.icon_name.as_deref(), Some("firefox"));
    assert!(e.icon_path.is_none());
}

#[test]
fn parses_entry_without_icon_field() {
    let text = "[Desktop Entry]\nName=Plain\nExec=plain\n";
    let e = DesktopEntry::parse(text, "plain").unwrap();
    assert!(e.icon_name.is_none());
}

#[test]
fn parses_entry_with_reverse_dns_icon_name() {
    let text = "[Desktop Entry]\nName=Thing\nExec=thing\nIcon=org.kde.thing\n";
    let e = DesktopEntry::parse(text, "org.kde.thing").unwrap();
    assert_eq!(e.icon_name.as_deref(), Some("org.kde.thing"));
}

#[test]
fn skips_entries_with_nodisplay_true() {
    let text = "[Desktop Entry]\nName=Hidden\nExec=hidden\nNoDisplay=true\n";
    assert!(DesktopEntry::parse(text, "hidden").is_none());
}

#[test]
fn skips_entries_with_hidden_true() {
    let text = "[Desktop Entry]\nName=Gone\nExec=gone\nHidden=true\n";
    assert!(DesktopEntry::parse(text, "gone").is_none());
}

#[test]
fn skips_terminal_applications() {
    let text = "[Desktop Entry]\nName=Vim\nExec=vim\nTerminal=true\n";
    assert!(DesktopEntry::parse(text, "vim").is_none());
}

#[test]
fn rejects_entries_without_name_or_exec() {
    assert!(DesktopEntry::parse("[Desktop Entry]\nName=Foo\n", "x").is_none());
    assert!(DesktopEntry::parse("[Desktop Entry]\nExec=foo\n", "x").is_none());
}

#[test]
fn ignores_non_desktop_entry_sections() {
    let text = "[Desktop Action new-window]
Name=New Window
Exec=firefox --new-window
[Desktop Entry]
Name=Firefox
Exec=firefox
";
    let e = DesktopEntry::parse(text, "firefox").unwrap();
    assert_eq!(e.name, "Firefox");
    assert_eq!(e.exec_line, "firefox");
}

#[test]
fn resolved_exec_strips_field_codes() {
    let e = entry("x", "X", "firefox %u --kiosk");
    let (prog, args) = e.resolved_exec().unwrap();
    assert_eq!(prog, "firefox");
    assert_eq!(args, vec!["--kiosk".to_string()]);
}

#[test]
fn resolved_exec_of_field_codes_alone_is_nothing() {
    assert!(entry("x", "X", "%u %F").resolved_exec().is_none());
    assert!(entry("x", "X", "   ").resolved_exec().is_none());
}

#[test]
fn scan_reads_desktop_files_in_order() {
    let file = |name: &str, text: &str| DesktopFile { name: name.into(), text: text.into() };
    let found = scan_desktop_entries(&[
        file("b.desktop", "[Desktop Entry]\nName=Beta\nExec=b\n"),
        file("a.desktop", "[Desktop Entry]\nName=alpha\nExec=a\n"),
        file("b.desktop", "[Desktop Entry]\nName=Other\nExec=other\n"),
        file("notes.txt", "[Desktop Entry]\nName=Text\nExec=t\n"),
    ]);
    let names: Vec<&str> = found.iter().map(|e| e.name.as_str()).collect();
    assert_eq!(names, vec!["Beta", "alpha", "Other"]);
    assert_eq!(found[0].id, "b");
}

// ---------------------------------------------------------------------------
// Scores
// ---------------------------------------------------------------------------

#[test]
fn score_entry_empty_query_is_neutral() {
    let e = entry("f", "Firefox", "firefox");
    assert_eq!(score_entry(&e, "").map(base), Some(0.4));
}

#[test]
fn score_entry_exact_name_match_is_max() {
    let e = entry("f", "Firefox", "firefox");
    assert_eq!(score_entry(&e, "firefox").map(base), Some(1.0));
}

#[test]
fn score_entry_prefix_ranks_above_substring() {
    let e = entry("x", "Firefox", "firefox");
    let prefix = base(score_entry(&e, "fire").unwrap());
    let substring = base(score_entry(&e, "fox").unwrap());
    assert!(prefix > substring, "prefix {prefix} > substring {substring}");
}

#[test]
fn score_entry_returns_none_for_no_match() {
    let e = entry("x", "Firefox", "firefox");
    assert!(score_entry(&e, "supercalifragilistic").is_none());
}

#[test]
fn score_entry_tells_how_a_name_matches() {
    let e = entry("x", "Firefox", "browser %u");
    assert_eq!(score_entry(&e, "fox"), Some(AppMatch::Inside { query_bytes: 3, name_bytes: 7 }));
    assert_eq!(score_entry(&e, "FIRE"), Some(AppMatch::Prefix));
    assert_eq!(score_entry(&e, "browser"), Some(AppMatch::Command));
    let umlaut = entry("y", "ÄÖÜ", "x");
    assert_eq!(score_entry(&umlaut, "Ö"), Some(AppMatch::Inside { query_bytes: 2, name_bytes: 6 }));
}

#[test]
fn search_filters_by_query() {
    let provider = AppLauncherProvider::from_entries(vec![
        entry("firefox", "Firefox", "firefox"),
        entry("gedit", "Text Editor", "gedit"),
    ]);
    let hits = provider.search("fire", 0, rate);
    assert_eq!(hits.len(), 1);
    assert_eq!(hits[0].title, "Firefox");
}

#[test]
fn execute_unknown_id_returns_error() {
    let provider = AppLauncherProvider::from_entries(vec![]);
    let result = provider.launch_command("does-not-exist");
    assert!(matches!(result, Err(ProviderError::UnknownItem(_))));
}

#[test]
fn only_matching_apps_are_shown() {
    let provider = AppLauncherProvider::from_entries(vec![
        entry("a", "Alpha", "one"),
        entry("b", "Beta", "two"),
        entry("c", "Alphabet", "three"),
    ]);
    let hits = provider.search("alpha", 0, rate);
    let ids: Vec<&str> = hits.iter().map(|h| h.id.as_str()).collect();
    assert_eq!(ids, vec!["a", "c"]);
    assert_eq!(f64::from_bits(hits[0].score), 1.0);
    assert_eq!(f64::from_bits(hits[1].score), 0.9);
    assert_eq!(hits[0].provider, "app-launcher");
}

#[test]
fn launching_is_recorded_where_it_succeeds() {
    let mut provider = AppLauncherProvider::from_entries(vec![entry("a", "Alpha", "one %u two")]);
    let (program, args) = provider.launch_command("a").unwrap();
    assert_eq!((program.as_str(), args), ("one", strings(&["two"])));
    let failed = provider.launched("a", "one", Err("no such file".into()), 5);
    assert!(matches!(failed, Err(ProviderError::ExecuteFailed(_))));
    assert_eq!(provider.launches.last_launch("a"), None);
    provider.launched("a", "one", Ok(()), 7).unwrap();
    assert_eq!(provider.launches.last_launch("a"), Some(7));
}

// ---------------------------------------------------------------------------
// Icons
// ---------------------------------------------------------------------------

#[test]
fn resolver_absolute_path_returns_path_if_file_exists() {
    let icon = "/tmp/d/my-app.png";
    assert_eq!(resolve(&[icon], &[], &[], icon), Some(icon.to_string()));
}

#[test]
fn resolver_absolute_path_returns_none_if_missing() {
    assert!(resolve(&[], &[], &[], "/nonexistent/path/to/icon.png").is_none());
}

#[test]
fn resolver_empty_name_returns_none() {
    assert!(resolve(&[], &[], &[], "").is_none());
}

#[test]
fn resolver_finds_svg_in_pixmaps() {
    let svg = "/r/pixmaps/firefox.svg";
    assert_eq!(resolve(&[svg], &["/r"], &[], "firefox"), Some(svg.to_string()));
}

#[test]
fn resolver_finds_hicolor_scalable_svg() {
    let svg = "/r/icons/hicolor/scalable/apps/firefox.svg";
    assert_eq!(resolve(&[svg], &["/r"], &[], "firefox"), Some(svg.to_string()));
}

#[test]
fn resolver_prefers_pixmaps_over_hicolor() {
    let pixmaps_svg = "/r/pixmaps/foo.svg";
    let hicolor_svg = "/r/icons/hicolor/scalable/apps/foo.svg";
    assert_eq!(
        resolve(&[pixmaps_svg, hicolor_svg], &["/r"], &[], "foo"),
        Some(pixmaps_svg.to_string())
    );
}

#[test]
fn resolver_prefers_scalable_over_48px_when_both_exist() {
    let scalable = "/r/icons/hicolor/scalable/apps/foo.svg";
    let fixed = "/r/icons/hicolor/48x48/apps/foo.png";
    assert_eq!(resolve(&[scalable, fixed], &["/r"], &[], "foo"), Some(scalable.to_string()));
}

#[test]
fn resolver_falls_back_to_256_png_if_no_svg() {
    let png = "/r/icons/hicolor/256x256/apps/foo.png";
    assert_eq!(resolve(&[png], &["/r"], &[], "foo"), Some(png.to_string()));
}

#[test]
fn resolver_strips_extension_from_name() {
    let svg = "/r/pixmaps/firefox.svg";
    assert_eq!(resolve(&[svg], &["/r"], &[], "firefox.png"), Some(svg.to_string()));
}

#[test]
fn resolver_returns_none_when_nothing_found() {
    assert!(resolve(&[], &["/r"], &[], "nonexistent").is_none());
}

#[test]
fn resolver_walks_multiple_roots_in_order() {
    let icon = "/b/pixmaps/foo.svg";
    assert_eq!(resolve(&[icon], &["/a", "/b"], &[], "foo"), Some(icon.to_string()));
}

#[test]
fn resolver_walks_primary_theme_before_hicolor_fallback() {
    let papirus_icon = "/r/icons/Papirus-Dark/scalable/apps/foo.svg";
    let hicolor_icon = "/r/icons/hicolor/scalable/apps/foo.svg";
    assert_eq!(
        resolve(&[papirus_icon, hicolor_icon], &["/r"], &["Papirus-Dark"], "foo"),
        Some(papirus_icon.to_string())
    );
}

#[test]
fn resolver_falls_back_to_inherited_theme_when_primary_lacks_icon() {
    let adwaita_icon = "/r/icons/Adwaita/scalable/apps/foo.svg".to_string();
    let indexes = vec![ThemeIndex {
        theme: "Papirus-Dark".into(),
        text: "[Icon Theme]\nInherits=Adwaita\n".into(),
    }];
    let roots = strings(&["/r"]);
    let mut dirs = dirs_above(&[adwaita_icon.clone()]);
    dirs.push("/r/icons/Papirus-Dark".into());
    dirs.push("/r/icons/Papirus-Dark/scalable".into());
    dirs.push("/r/icons/Papirus-Dark/scalable/apps".into());
    let resolver = IconResolver::new(&roots, &indexes, Some("Papirus-Dark"), &dirs);
    assert_eq!(resolver.resolve("foo", &[adwaita_icon.clone()]), Some(adwaita_icon));
}

#[test]
fn resolver_handles_breeze_style_apps_subdir_layout() {
    let icon = "/r/icons/breeze/apps/48/foo.svg";
    assert_eq!(resolve(&[icon], &["/r"], &["breeze"], "foo"), Some(icon.to_string()));
}

#[test]
fn resolver_finds_reverse_dns_name_verbatim_when_theme_stores_it() {
    let icon = "/r/icons/hicolor/scalable/apps/org.kde.dolphin.svg";
    assert_eq!(resolve(&[icon], &["/r"], &[], "org.kde.dolphin"), Some(icon.to_string()));
}

#[test]
fn resolver_falls_back_to_reverse_dns_tail_when_full_name_missing() {
    let icon = "/r/icons/breeze/apps/48/dolphin.svg";
    assert_eq!(resolve(&[icon], &["/r"], &["breeze"], "org.kde.dolphin"), Some(icon.to_string()));
}

#[test]
fn resolver_walks_non_apps_contexts_for_named_icons() {
    let icon = "/r/icons/hicolor/scalable/status/network-wired.svg";
    assert_eq!(resolve(&[icon], &["/r"], &[], "network-wired"), Some(icon.to_string()));
}

#[test]
fn resolver_dash_suffix_fallback_strips_progressively() {
    let icon = "/r/icons/hicolor/scalable/apps/gnome.svg";
    assert_eq!(resolve(&[icon], &["/r"], &[], "gnome-web-browser"), Some(icon.to_string()));
}

#[test]
fn resolver_walks_loose_icons_at_root_icons_dir() {
    let icon = "/r/icons/xmaxima.png";
    assert_eq!(resolve(&[icon], &["/r"], &[], "xmaxima"), Some(icon.to_string()));
}

#[test]
fn only_tested_directories_matter() {
    let icon = "/r/icons/breeze/apps/48/foo.svg".to_string();
    let (roots, chain) = (strings(&["/r"]), strings(&["breeze"]));
    let mut dirs = dirs_above(&[icon.clone()]);
    dirs.push("/elsewhere".into());
    let tested = directories_to_test(&roots, &chain);
    let kept: Vec<String> = dirs.iter().filter(|d| tested.contains(d)).cloned().collect();
    assert!(kept.len() < dirs.len());
    let all = IconResolver::from_parts(&roots, &chain, &dirs);
    let few = IconResolver::from_parts(&roots, &chain, &kept);
    assert_eq!(all, few);
    assert_eq!(few.resolve("foo", &[icon.clone()]), Some(icon));
}

#[test]
fn icons_are_filled_in_from_the_theme() {
    let icon = "/r/pixmaps/firefox.svg".to_string();
    let files = vec![icon.clone()];
    let resolver = IconResolver::from_parts(&strings(&["/r"]), &[], &dirs_above(&files));
    let parsed = DesktopEntry::parse(SAMPLE, "firefox").unwrap();
    let provider =
        AppLauncherProvider::new(vec![parsed], &resolver, &files, LaunchHistory::in_memory());
    assert_eq!(provider.entries[0].icon_path.as_deref(), Some(icon.as_str()));
    let hits = provider.search("", 0, rate);
    assert_eq!(hits[0].icon_path.as_deref(), Some(icon.as_str()));
    assert_eq!(hits[0].subtitle.as_deref(), Some("Browse the World Wide Web"));
}

#[test]
fn icon_name_fallbacks_plain_name_has_single_candidate() {
    assert_eq!(icon_name_fallbacks("firefox"), vec!["firefox"]);
}

#[test]
fn icon_name_fallbacks_reverse_dns_adds_last_segment() {
    assert_eq!(icon_name_fallbacks("org.kde.dolphin"), vec!["org.kde.dolphin", "dolphin"]);
}

#[test]
fn icon_name_fallbacks_dash_suffix_strips_progressively() {
    assert_eq!(
        icon_name_fallbacks("gnome-web-browser"),
        vec!["gnome-web-browser", "gnome-web", "gnome"]
    );
}

#[test]
fn icon_name_fallbacks_mixed_reverse_dns_and_dash() {
    let result = icon_name_fallbacks("org.kde.dolphin-view");
    assert!(result.contains(&"org.kde.dolphin-view".to_string()));
    assert!(result.contains(&"dolphin-view".to_string()));
    assert!(result.contains(&"org.kde.dolphin".to_string()));
    assert!(result.contains(&"dolphin".to_string()));
}

#[test]
fn icon_name_fallbacks_deduplicates() {
    assert_eq!(icon_name_fallbacks("foo.foo"), vec!["foo.foo", "foo"]);
}

#[test]
fn strip_known_extension_removes_png() {
    assert_eq!(strip_known_extension("firefox.png"), "firefox");
}

#[test]
fn strip_known_extension_removes_svg() {
    assert_eq!(strip_known_extension("firefox.svg"), "firefox");
}

#[test]
fn strip_known_extension_preserves_reverse_dns_names() {
    assert_eq!(strip_known_extension("org.kde.dolphin"), "org.kde.dolphin");
}

#[test]
fn strip_known_extension_preserves_dotted_name_without_image_ext() {
    assert_eq!(strip_known_extension("com.example.app"), "com.example.app");
}

#[test]
fn scalable_directories_prefer_svg() {
    let subdirs = candidate_subdirs();
    assert!(subdirs.contains(&"scalable/apps".to_string()));
    assert_eq!(extensions_for_subdir("scalable/apps")[0], "svg");
    assert_eq!(extensions_for_subdir("48x48/apps")[0], "png");
}

// ---------------------------------------------------------------------------
// Themes
// ---------------------------------------------------------------------------

#[test]
fn parse_theme_inherits_captures_comma_separated_list() {
    assert_eq!(
        parse_theme_inherits("[Icon Theme]\nName=Test\nInherits=Papirus,Adwaita,hicolor\n"),
        vec!["Papirus", "Adwaita", "hicolor"]
    );
}

#[test]
fn parse_theme_inherits_ignores_non_icon_theme_sections() {
    assert_eq!(
        parse_theme_inherits("[16x16/apps]\nInherits=nope\n[Icon Theme]\nInherits=yes\n"),
        vec!["yes"]
    );
}

#[test]
fn parse_theme_inherits_trims_whitespace_and_skips_empty_entries() {
    assert_eq!(parse_theme_inherits("[Icon Theme]\nInherits= A , B ,, C \n"), vec!["A", "B", "C"]);
}

#[test]
fn parse_theme_inherits_missing_file_returns_empty() {
    // A theme without an index inherits nothing.
    assert!(parse_theme_inherits("").is_empty());
    assert_eq!(build_theme_chain(&[], Some("Lone")), vec!["Lone", "hicolor"]);
}

#[test]
fn parse_theme_inherits_no_inherits_line_returns_empty() {
    assert!(parse_theme_inherits("[Icon Theme]\nName=Loner\n").is_empty());
}

#[test]
fn read_icon_theme_from_settings_parses_gtk4_style() {
    assert_eq!(
        read_icon_theme_from_settings(
            "[Settings]\ngtk-theme-name=Adwaita-dark\ngtk-icon-theme-name=Papirus-Dark\n"
        ),
        Some("Papirus-Dark".into())
    );
}

#[test]
fn read_icon_theme_from_settings_strips_surrounding_quotes() {
    assert_eq!(
        read_icon_theme_from_settings("[Settings]\ngtk-icon-theme-name=\"Breeze\"\n"),
        Some("Breeze".into())
    );
}

#[test]
fn read_icon_theme_from_settings_missing_file_returns_none() {
    assert!(detect_primary_icon_theme(&[None, None]).is_none());
}

#[test]
fn read_icon_theme_from_settings_key_in_wrong_section_returns_none() {
    assert!(read_icon_theme_from_settings(
        "[Other]\ngtk-icon-theme-name=Wrong\n[Settings]\ngtk-font-name=Sans\n"
    )
    .is_none());
}

#[test]
fn first_settings_file_with_a_theme_decides() {
    let files = settings_files(&None, &Some("/home/u".into()));
    assert_eq!(files[0], "/home/u/.config/gtk-4.0/settings.ini");
    let texts = vec![
        Some("[Settings]\ngtk-font-name=Sans\n".to_string()),
        Some("[Settings]\ngtk-icon-theme-name=Three\n".to_string()),
    ];
    assert_eq!(detect_primary_icon_theme(&texts), Some("Three".into()));
}

fn index(theme: &str, text: &str) -> ThemeIndex {
    ThemeIndex { theme: theme.into(), text: text.into() }
}

#[test]
fn build_theme_chain_walks_inheritance_transitively() {
    let indexes = vec![
        index("A", "[Icon Theme]\nInherits=B\n"),
        index("B", "[Icon Theme]\nInherits=C\n"),
        index("C", "[Icon Theme]\nName=C\n"),
    ];
    assert_eq!(build_theme_chain(&indexes, Some("A")), vec!["A", "B", "C", "hicolor"]);
}

#[test]
fn themes_are_read_until_the_chain_is_known() {
    let names = |v: &[&str]| v.iter().map(|s| s.to_string()).collect::<Vec<String>>();
    let mut indexes = Vec::new();
    assert_eq!(themes_to_read(&indexes, Some("A"), &[]), vec!["A", "hicolor"]);
    indexes.push(index("A", "[Icon Theme]\nInherits=B,A\n"));
    assert_eq!(themes_to_read(&indexes, Some("A"), &names(&["A", "hicolor"])), vec!["B"]);
    assert!(themes_to_read(&indexes, Some("A"), &names(&["A", "hicolor", "B"])).is_empty());
}

#[test]
fn build_theme_chain_detects_cycles() {
    let indexes = vec![
        index("X", "[Icon Theme]\nInherits=Y\n"),
        index("Y", "[Icon Theme]\nInherits=X\n"),
    ];
    assert_eq!(build_theme_chain(&indexes, Some("X")), vec!["X", "Y", "hicolor"]);
}

#[test]
fn build_theme_chain_without_primary_is_just_hicolor() {
    assert_eq!(build_theme_chain(&[], None), vec!["hicolor"]);
}

#[test]
fn build_theme_chain_primary_named_hicolor_yields_single_entry() {
    assert_eq!(build_theme_chain(&[], Some("hicolor")), vec!["hicolor"]);
}

#[test]
fn build_theme_chain_missing_index_theme_still_includes_primary() {
    assert_eq!(build_theme_chain(&[], Some("MysteryTheme")), vec!["MysteryTheme", "hicolor"]);
}

// ---------------------------------------------------------------------------
// History
// ---------------------------------------------------------------------------

#[test]
fn launch_history_load_missing_file_returns_empty() {
    let history = LaunchHistory::load("/d/launches.json".into(), None);
    assert!(history.last_launch("firefox").is_none());
}

#[test]
fn launch_history_load_malformed_file_returns_empty() {
    let history = LaunchHistory::load("/d/launches.json".into(), Some("not json at all"));
    assert!(history.last_launch("firefox").is_none());
}

#[test]
fn launch_history_record_persists_and_roundtrips() {
    let mut history = LaunchHistory::load("/d/launches.json".into(), None);
    history.record("firefox", 1234);
    history.record("a\"b", -5);
    let (path, text) = history.persist().unwrap();
    let reloaded = LaunchHistory::load(path, Some(&text));
    assert_eq!(reloaded.last_launch("firefox"), Some(1234));
    assert_eq!(reloaded.last_launch("a\"b"), Some(-5));
    assert!(reloaded.last_launch("gedit").is_none());
}

#[test]
fn launch_history_record_creates_parent_directory() {
    // What is to be written goes to the path that the history was loaded from.
    let path = "/d/nested/state/levshell/launches.json";
    let mut history = LaunchHistory::load(path.into(), None);
    history.record("firefox", 1);
    assert_eq!(history.persist().map(|(p, _)| p), Some(path.to_string()));
}

#[test]
fn launch_history_in_memory_skips_persistence() {
    let mut history = LaunchHistory::in_memory();
    history.record("firefox", 1);
    assert!(history.last_launch("firefox").is_some());
    assert!(history.persist().is_none());
}

#[test]
fn recency_boost_for_never_launched_entry_is_zero() {
    let history = LaunchHistory::in_memory();
    assert_eq!(recency_boost(&history, "firefox", 1000), 0.0);
}

#[test]
fn recency_boost_at_age_zero_is_max() {
    let mut history = LaunchHistory::in_memory();
    history.set_launch_time("firefox", 1000);
    let boost = recency_boost(&history, "firefox", 1000);
    assert!((boost - 0.1).abs() < 1e-9, "boost={boost}");
}

#[test]
fn recency_boost_decays_at_half_life() {
    let mut history = LaunchHistory::in_memory();
    history.set_launch_time("firefox", 0);
    let boost = recency_boost(&history, "firefox", 7 * DAY);
    let expected = 0.1 / std::f64::consts::E;
    assert!((boost - expected).abs() < 1e-6, "boost={boost} expected={expected}");
}

#[test]
fn recency_boost_decays_aggressively_after_a_month() {
    let mut history = LaunchHistory::in_memory();
    history.set_launch_time("firefox", 0);
    let boost = recency_boost(&history, "firefox", 30 * DAY);
    assert!(boost < 0.005, "boost={boost}");
}

#[test]
fn recency_boost_clamps_future_timestamps_to_zero_age() {
    let mut history = LaunchHistory::in_memory();
    history.set_launch_time("firefox", 1_000_000);
    let boost = recency_boost(&history, "firefox", 0);
    assert!((boost - 0.1).abs() < 1e-9, "boost={boost}");
    assert_eq!(age_seconds(1_000_000, 0), 0);
    assert_eq!(age_seconds(10, 25), 15);
}

#[test]
fn scored_with_recency_returns_none_for_non_matching_entry() {
    let e = test_entry("firefox", "Firefox");
    let mut history = LaunchHistory::in_memory();
    history.set_launch_time("firefox", 0);
    assert!(scored_with_recency(&e, "supercalifragilistic", &history, 0).is_none());
}

#[test]
fn scored_with_recency_empty_query_adds_boost_to_base() {
    let e = test_entry("firefox", "Firefox");
    let mut history = LaunchHistory::in_memory();
    history.set_launch_time("firefox", 100);
    let score = scored_with_recency(&e, "", &history, 100).unwrap();
    assert!((score - 0.5).abs() < 1e-9, "score={score}");
}

#[test]
fn scored_with_recency_recent_launch_ranks_above_cold_entry() {
    let recent = test_entry("firefox", "Firefox");
    let cold = test_entry("gedit", "Text Editor");
    let mut history = LaunchHistory::in_memory();
    history.set_launch_time("firefox", 0);
    let recent_score = scored_with_recency(&recent, "", &history, 0).unwrap();
    let cold_score = scored_with_recency(&cold, "", &history, 0).unwrap();
    assert!(recent_score > cold_score, "recent={recent_score} cold={cold_score}");
}

#[test]
fn scored_with_recency_exact_name_match_still_tops_recent_prefix_match() {
    let exact = test_entry("a", "foo");
    let prefix = test_entry("b", "foobar");
    let mut history = LaunchHistory::in_memory();
    history.set_launch_time("b", 0);
    let exact_score = scored_with_recency(&exact, "foo", &history, 0).unwrap();
    let prefix_score = scored_with_recency(&prefix, "foo", &history, 0).unwrap();
    assert!(exact_score >= prefix_score, "exact={exact_score} prefix={prefix_score}");
    assert!(str_lt("foo", "foobar"));
}

#[test]
fn search_ranks_recent_launches_first_for_empty_query() {
    let mut history = LaunchHistory::in_memory();
    let now = 1_700_000_000;
    history.set_launch_time("gedit", now - 180);
    let provider = AppLauncherProvider::from_entries_with_history(
        vec![test_entry("firefox", "Firefox"), test_entry("gedit", "Text Editor")],
        history,
    );
    let hits = provider.search("", now, rate);
    assert_eq!(hits.len(), 2);
    assert_eq!(hits[0].id, "gedit");
    assert_eq!(hits[1].id, "firefox");
}

#[test]
fn default_launches_path_uses_xdg_state_home_when_set() {
    let with = default_launches_path(&Some("/state".into()), &Some("/home/u".into()));
    assert_eq!(with, "/state/levshell/launches.json");
    let without = default_launches_path(&None, &Some("/home/u".into()));
    assert!(without.ends_with("levshell/launches.json"), "unexpected path: {without}");
    assert_eq!(without, "/home/u/.local/state/levshell/launches.json");
}

#[test]
fn search_directories_follow_the_environment() {
    let home = Some("/home/u".to_string());
    let dirs = Some(strings(&["/usr/share"]));
    let apps = default_search_paths(&None, &home, &dirs);
    assert_eq!(apps, strings(&["/home/u/.local/share/applications", "/usr/share/applications"]));
    let roots = default_icon_search_roots(&Some("/data".into()), &home, &dirs);
    assert_eq!(roots[0], "/data");
    assert!(roots.contains(&"/usr/share".to_string()));
}
