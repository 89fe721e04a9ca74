use xtap_search::engine::{complete_search, native_query_for, AppCache, RESULT_LIMIT};
use xtap_search::history::ClickHistory;
use xtap_search::index::WalkOutput;
use xtap_search::query::QueryTerms;
use xtap_search::result::SearchResult;
use xtap_search::strategy::TypeFilter;

fn cache_with_index(paths: &[&str]) -> AppCache {
    let mut cache = AppCache::new();
    let mut printed = String::new();
    for path in paths {
        printed.push_str(path);
        printed.push('\n');
    }
    cache.index.finish_scan(&vec![WalkOutput { root: "/".to_string(), printed }]);
    cache
}

fn summary(results: &Vec<SearchResult>) -> Vec<(String, String, i128)> {
    results.iter().map(|r| (r.path.clone(), r.name.clone(), r.score)).collect()
}

fn row(path: &str, name: &str, score: i128) -> (String, String, i128) {
    (path.to_string(), name.to_string(), score)
}

#[test]
fn new_cache_knows_the_builtin_aliases_and_nothing_else() {
    let cache = AppCache::new();
    assert_eq!(cache.mapping.resolve("ps"), Some(&"photoshop".to_string()));
    assert_eq!(cache.mapping.len(), 99);
    assert!(cache.click_history.records().is_empty());
    assert!(cache.index.files().is_empty());
    assert!(!cache.get_indexing_status());
}

#[test]
fn application_ranks_before_a_desktop_file_of_the_same_word() {
    let cache = cache_with_index(&[
        "/Users/u/Desktop/code-notes.txt",
        "/Applications/Visual Studio Code.app",
    ]);
    let results = cache.search_files("code", "all", &Vec::new(), &Vec::new());
    assert_eq!(
        summary(&results),
        vec![
            row("/Applications/Visual Studio Code.app", "Visual Studio Code.app", 25000),
            row("/Users/u/Desktop/code-notes.txt", "code-notes.txt", 15750),
        ]
    );
}

#[test]
fn search_for_an_alias_finds_the_application() {
    let cache = cache_with_index(&[
        "/Applications/Safari.app",
        "/Applications/Adobe Photoshop 2024.app",
        "/Users/u/caps.txt",
    ]);
    let results = cache.search_files("PS", "all", &Vec::new(), &Vec::new());
    assert_eq!(
        summary(&results),
        vec![
            row("/Applications/Adobe Photoshop 2024.app", "Adobe Photoshop 2024.app", 25000),
            row("/Users/u/caps.txt", "caps.txt", 10000 - 200),
        ]
    );
}

#[test]
fn search_for_initials_finds_the_application() {
    let mut cache = cache_with_index(&["/Applications/Disk Inventory X.app"]);
    cache.update(&Vec::new());
    let results = cache.search_files("dix", "app", &Vec::new(), &Vec::new());
    assert_eq!(
        summary(&results),
        vec![row("/Applications/Disk Inventory X.app", "Disk Inventory X.app", 35000)]
    );
}

#[test]
fn blank_keyword_finds_nothing() {
    let cache = cache_with_index(&["/Users/u/a.txt"]);
    let native = vec!["/Users/u/b.txt\n".to_string()];
    assert!(cache.search_files("", "all", &Vec::new(), &native).is_empty());
    assert!(cache.search_files("   ", "all", &Vec::new(), &native).is_empty());
    assert!(cache.search_files("\t\n", "image", &Vec::new(), &native).is_empty());
    assert_eq!(cache.native_query("", "all"), None);
    assert_eq!(cache.native_query(" \u{3000} ", "pdf"), None);
}

#[test]
fn native_query_is_built_from_the_lowercased_words_and_the_alias() {
    let cache = AppCache::new();
    assert_eq!(
        cache.native_query("Tax  Report", "pdf"),
        Some(
            "((kMDItemFSName == '*tax*'cd && kMDItemFSName == '*report*'cd)) && (kMDItemContentTypeTree == 'com.adobe.pdf')"
                .to_string()
        )
    );
    assert_eq!(
        cache.native_query("PS", "all"),
        Some("((kMDItemFSName == '*ps*'cd) || kMDItemFSName == '*photoshop*'cd)".to_string())
    );
    assert_eq!(cache.native_query("zebra", "all"), Some("kMDItemFSName == '*zebra*'cd".to_string()));
    let terms = QueryTerms::new("a b", TypeFilter::Folder, None);
    assert_eq!(
        native_query_for(&terms),
        "((kMDItemFSName == '*a*'cd && kMDItemFSName == '*b*'cd)) && (kMDItemContentTypeTree == 'public.folder')"
    );
}

#[test]
fn alias_is_resolved_for_the_keyword_as_a_whole() {
    let cache = AppCache::new();
    assert_eq!(
        cache.native_query("ps cc", "all"),
        Some("(kMDItemFSName == '*ps*'cd && kMDItemFSName == '*cc*'cd)".to_string())
    );
    assert_eq!(
        cache.native_query(" ps", "all"),
        Some("kMDItemFSName == '*ps*'cd".to_string())
    );
}

#[test]
fn path_found_by_both_branches_comes_back_once() {
    let cache = cache_with_index(&["/Users/u/report.txt", "/Users/u/x/report.txt"]);
    let native = vec![
        "/Users/u/x/report.txt\n/Users/u/y/report.txt\n".to_string(),
        "/Users/u/y/report.txt\n".to_string(),
    ];
    let results = cache.search_files("report", "all", &Vec::new(), &native);
    assert_eq!(
        summary(&results),
        vec![
            row("/Users/u/report.txt", "report.txt", 15000 - 200),
            row("/Users/u/x/report.txt", "report.txt", 15000 - 250),
            row("/Users/u/y/report.txt", "report.txt", 15000 - 250),
        ]
    );
}

#[test]
fn native_results_come_first_among_equal_scores() {
    let cache = cache_with_index(&["/a/report 1.txt", "/a/report 2.txt"]);
    let native = vec!["/a/report 3.txt\n/a/report 2.txt\n".to_string()];
    let results = cache.search_files("report", "all", &Vec::new(), &native);
    let paths: Vec<&str> = results.iter().map(|r| r.path.as_str()).collect();
    assert_eq!(paths, vec!["/a/report 3.txt", "/a/report 2.txt", "/a/report 1.txt"]);
}

#[test]
fn native_results_are_not_held_to_the_type_filter_or_the_volumes() {
    let cache = cache_with_index(&["/Volumes/USB/a.txt", "/Users/u/a.txt"]);
    let native = vec!["/Volumes/Other/a.png\n".to_string()];
    let results = cache.search_files("a", "doc", &Vec::new(), &native);
    let paths: Vec<&str> = results.iter().map(|r| r.path.as_str()).collect();
    assert_eq!(paths, vec!["/Volumes/Other/a.png", "/Users/u/a.txt"]);
}

#[test]
fn search_returns_at_most_a_hundred_results() {
    let paths: Vec<String> = (0..250).map(|i| format!("/Users/u/report {i}.txt")).collect();
    let refs: Vec<&str> = paths.iter().map(|p| p.as_str()).collect();
    let mut cache = cache_with_index(&refs);
    cache.record_click("/Users/u/report 200.txt");
    let results = cache.search_files("report", "all", &Vec::new(), &Vec::new());
    assert_eq!(results.len(), RESULT_LIMIT);
    assert_eq!(RESULT_LIMIT, 100);
    assert_eq!(results[0].path, "/Users/u/report 200.txt");
    for k in 1..100 {
        assert_eq!(results[k].path, format!("/Users/u/report {}.txt", k - 1));
    }
}

#[test]
fn clicked_result_moves_up() {
    let mut cache = cache_with_index(&["/Applications/Notes.app", "/Users/u/deep/down/notes.txt"]);
    let before = cache.search_files("notes", "all", &Vec::new(), &Vec::new());
    assert_eq!(before[0].path, "/Applications/Notes.app");
    assert_eq!(before[0].score, 25000);
    assert_eq!(before[1].score, 20000 - 300);
    assert!(cache.record_click("/Users/u/deep/down/notes.txt"));
    assert!(cache.record_click("/Users/u/deep/down/notes.txt"));
    assert!(cache.record_click("/Users/u/deep/down/notes.txt"));
    let after = cache.search_files("notes", "all", &Vec::new(), &Vec::new());
    assert_eq!(after[0].path, "/Users/u/deep/down/notes.txt");
    assert_eq!(after[0].score, 20000 - 300 + 15000);
    assert_eq!(after[1].path, "/Applications/Notes.app");
}

#[test]
fn search_is_reproducible() {
    let mut cache = cache_with_index(&[
        "/Users/u/b report.txt",
        "/Users/u/report a.txt",
        "/Applications/Report.app",
        "/Volumes/USB/report.txt",
    ]);
    cache.record_click("/Users/u/b report.txt");
    let volumes = vec!["/Volumes/USB".to_string()];
    let native = vec!["/Users/u/z/report.pdf\n".to_string()];
    let first = cache.search_files("report", "all", &volumes, &native);
    let second = cache.search_files("report", "all", &volumes, &native);
    assert_eq!(summary(&first), summary(&second));
    assert_eq!(first.len(), 5);
}

#[test]
fn path_on_an_unmounted_volume_is_left_out() {
    let cache = cache_with_index(&["/Volumes/USB/report.txt", "/Users/u/report.txt"]);
    let mounted = vec!["/Volumes/USB".to_string()];
    let with = cache.search_files("report", "all", &mounted, &Vec::new());
    assert_eq!(with.len(), 2);
    let without = cache.search_files("report", "all", &Vec::new(), &Vec::new());
    assert_eq!(summary(&without), vec![row("/Users/u/report.txt", "report.txt", 15000 - 200)]);
}

#[test]
fn update_replaces_the_alias_table() {
    let mut cache = cache_with_index(&["/Applications/Disk Inventory X.app"]);
    assert_eq!(cache.mapping.resolve("disk inventory x"), None);
    cache.update(&vec!["Disk Inventory X.app".to_string()]);
    assert_eq!(cache.mapping.resolve("dix"), Some(&"disk inventory x".to_string()));
    cache.update(&Vec::new());
    assert_eq!(cache.mapping.resolve("dix"), None);
    assert_eq!(cache.index.files().len(), 1);
}

#[test]
fn load_click_history_takes_over_a_stored_history() {
    let mut cache = AppCache::new();
    cache.record_click("/old");
    assert!(cache.load_click_history("{\"/a\": 4}"));
    assert_eq!(cache.click_history.count("/a"), 4);
    assert_eq!(cache.click_history.count("/old"), 0);
    assert!(!cache.load_click_history("not json"));
    assert_eq!(cache.click_history.count("/a"), 4);
}

#[test]
fn save_click_history_writes_what_load_reads() {
    let mut cache = AppCache::new();
    cache.record_click("/a");
    cache.record_click("/a");
    cache.record_click("/b");
    let stored = cache.save_click_history().expect("a history can be written");
    assert_eq!(stored, "{\"/a\":2,\"/b\":1}");
    let mut other = AppCache::new();
    assert!(other.load_click_history(&stored));
    assert_eq!(other.click_history.count("/a"), 2);
    assert_eq!(other.click_history.count("/b"), 1);
}

#[test]
fn trigger_index_update_makes_the_next_poll_scan() {
    let mut cache = AppCache::new();
    assert_eq!(cache.index.poll(Vec::new(), 0), None);
    cache.trigger_index_update();
    assert!(!cache.get_indexing_status());
    assert!(cache.index.poll(Vec::new(), 1).is_some());
    assert!(cache.get_indexing_status());
    cache.index.finish_scan(&Vec::new());
    assert!(!cache.get_indexing_status());
}

#[test]
fn complete_search_takes_every_input_as_given() {
    let terms = QueryTerms::new("Report", TypeFilter::All, None);
    let index = vec!["/Users/u/report.txt".to_string()];
    let native = vec!["/Users/u/other report.txt\n".to_string()];
    let mut history = ClickHistory::new();
    history.record_click("/Users/u/other report.txt");
    let results = complete_search(&terms, &index, &Vec::new(), &native, &history);
    assert_eq!(
        summary(&results),
        vec![
            row("/Users/u/other report.txt", "other report.txt", 10000 - 200 + 5000),
            row("/Users/u/report.txt", "report.txt", 15000 - 200),
        ]
    );
}

#[test]
fn keyword_that_is_blank_as_typed_finds_nothing() {
    let cache = cache_with_index(&["/Users/u/a.txt", "/Users/u/ .txt"]);
    for keyword in ["", " ", "\u{a0}", "\u{2003}\u{3000}", "\r\n\t"] {
        assert!(cache.search_files(keyword, "all", &Vec::new(), &Vec::new()).is_empty());
        assert_eq!(cache.native_query(keyword, "all"), None);
    }
    assert_eq!(cache.search_files(" a ", "all", &Vec::new(), &Vec::new()).len(), 1);
    assert!(cache.native_query(" a ", "all").is_some());
}

#[test]
fn plan_search_makes_the_query_or_nothing() {
    let table = xtap_search::alias::AliasTable::builtin();
    assert!(xtap_search::engine::plan_search("", "all", &table).is_none());
    assert!(xtap_search::engine::plan_search(" \t", "app", &table).is_none());
    let terms = xtap_search::engine::plan_search(" PS ", "app", &table).expect("a keyword");
    assert_eq!(terms.keyword(), &" ps ".chars().collect::<Vec<char>>());
    assert_eq!(terms.words(), &vec!["ps".chars().collect::<Vec<char>>()]);
    assert_eq!(terms.filter(), TypeFilter::App);
    assert_eq!(terms.alias(), &None);
    let alias = xtap_search::engine::plan_search("PS", "app", &table).expect("a keyword");
    assert_eq!(alias.alias(), &Some("photoshop".chars().collect::<Vec<char>>()));
}
