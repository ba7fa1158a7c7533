use cosmic_wanderer::entries::DesktopEntryManager;
use cosmic_wanderer::entries::NormalDesktopEntry;
use cosmic_wanderer::history::HistoryMap;
use cosmic_wanderer::history::increment_usage;
use cosmic_wanderer::rank::rank_entries;
use cosmic_wanderer::rank::sort_ranked;
use cosmic_wanderer::rank::sorted_entries_by_usage;

fn entry(name: &str, appid: &str) -> NormalDesktopEntry {
    NormalDesktopEntry {
        app_name: name.to_string(),
        comment: String::new(),
        appid: appid.to_string(),
        exec_template: String::new(),
        icon: String::new(),
    }
}

#[test]
fn fuzzy_keeps_only_matches_and_ranks_them_first() {
    let entries = vec![
        entry("GIMP", ""),
        entry("Firefox", ""),
        entry("Krusader", ""),
    ];
    let out = DesktopEntryManager::filter_and_sort_entries("fx", &entries);
    assert_eq!(out.len(), 1);
    assert_eq!(out[0].app_name, "Firefox");
}

#[test]
fn fuzzy_no_match_yields_empty() {
    let entries = vec![entry("GIMP", ""), entry("Krusader", "")];
    let out = DesktopEntryManager::filter_and_sort_entries("zzq", &entries);
    assert!(out.is_empty());
}

#[test]
fn fuzzy_searches_comment_and_identity_too() {
    let mut e = entry("Editor", "org.gnome.TextEditor");
    e.comment = "write plain text".to_string();
    let entries = vec![entry("GIMP", "org.gimp.GIMP"), e];
    let out = DesktopEntryManager::filter_and_sort_entries("plain", &entries);
    assert_eq!(out.len(), 1);
    assert_eq!(out[0].app_name, "Editor");
}

#[test]
fn equal_scores_put_shorter_name_first() {
    // two entries with identical fuzzy score: "Code" (length 4) must
    // rank before "VSCodium" (length 8)
    let mut v = vec![(10, "VSCodium".len(), 1), (10, "Code".len(), 0), (12, 2, 2)];
    sort_ranked(&mut v);
    assert_eq!(v, vec![(12, 2, 2), (10, 4, 0), (10, 8, 1)]);
}

#[test]
fn sort_is_by_score_descending() {
    let mut v = vec![(1, 0, 0), (5, 0, 1), (3, 0, 2)];
    sort_ranked(&mut v);
    assert_eq!(v, vec![(5, 0, 1), (3, 0, 2), (1, 0, 0)]);
}

#[test]
fn usage_order_puts_frequent_first_and_keeps_order_of_rest() {
    let entries = vec![entry("A", "a"), entry("B", "b"), entry("C", "c")];
    let mut history = HistoryMap::new();
    for _ in 0..5 {
        increment_usage(&mut history, "a");
    }
    increment_usage(&mut history, "b");
    let out = sorted_entries_by_usage(&entries, &history);
    let names: Vec<&str> = out.iter().map(|e| e.app_name.as_str()).collect();
    assert_eq!(names, vec!["A", "B", "C"]);
}

#[test]
fn usage_order_is_stable_for_zero_counts() {
    let entries = vec![entry("X", "x"), entry("Y", "y"), entry("Z", "z")];
    let history = HistoryMap::new();
    let out = sorted_entries_by_usage(&entries, &history);
    let names: Vec<&str> = out.iter().map(|e| e.app_name.as_str()).collect();
    assert_eq!(names, vec!["X", "Y", "Z"]);
}

#[test]
fn usage_order_overrides_catalog_order() {
    let entries = vec![entry("A", "a"), entry("B", "b"), entry("C", "c")];
    let mut history = HistoryMap::new();
    increment_usage(&mut history, "c");
    let out = sorted_entries_by_usage(&entries, &history);
    let names: Vec<&str> = out.iter().map(|e| e.app_name.as_str()).collect();
    assert_eq!(names, vec!["C", "A", "B"]);
}

#[test]
fn empty_query_ranks_by_usage_and_other_queries_fuzzy_match() {
    let entries = vec![entry("Firefox", "ff"), entry("GIMP", "gimp")];
    let mut history = HistoryMap::new();
    increment_usage(&mut history, "gimp");

    let by_usage = rank_entries("", &entries, &history);
    assert_eq!(by_usage[0].app_name, "GIMP");
    assert_eq!(by_usage.len(), 2);

    let by_query = rank_entries("fx", &entries, &history);
    assert_eq!(by_query.len(), 1);
    assert_eq!(by_query[0].app_name, "Firefox");
}
