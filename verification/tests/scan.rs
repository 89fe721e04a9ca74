use xtap_search::alias::AliasTable;
use xtap_search::query::QueryTerms;
use xtap_search::result::SearchResult;
use xtap_search::scan::{
    judge, scan_index, Verdict, FALLBACK_LIMIT, STRONG_LIMIT, THIN_RESULT,
};
use xtap_search::strategy::TypeFilter;

fn list(items: &[&str]) -> Vec<String> {
    items.iter().map(|s| s.to_string()).collect()
}

fn found_paths(results: &Vec<SearchResult>) -> Vec<String> {
    results.iter().map(|r| r.path.clone()).collect()
}

fn scan(index: &[&str], keyword: &str, filter: &str, volumes: &[&str]) -> Vec<String> {
    let terms =
        QueryTerms::resolve(keyword, TypeFilter::from_name(filter), &AliasTable::builtin());
    found_paths(&scan_index(&list(index), &terms, &list(volumes)))
}

#[test]
fn limits_of_the_scan() {
    assert_eq!(STRONG_LIMIT, 1000);
    assert_eq!(THIN_RESULT, 20);
    assert_eq!(FALLBACK_LIMIT, 50);
}

#[test]
fn scan_names_each_result_by_the_last_piece_of_its_path() {
    let terms = QueryTerms::new("notes", TypeFilter::All, None);
    let results = scan_index(
        &list(&["/Users/u/Desktop/Code-Notes.txt", "/Users/u/notes/"]),
        &terms,
        &Vec::new(),
    );
    assert_eq!(results.len(), 2);
    assert_eq!(results[0].path, "/Users/u/Desktop/Code-Notes.txt");
    assert_eq!(results[0].name, "Code-Notes.txt");
    assert_eq!(results[0].score, 0);
    assert_eq!(results[1].path, "/Users/u/notes/");
    assert_eq!(results[1].name, "");
}

#[test]
fn scan_matches_whatever_the_case() {
    assert_eq!(
        scan(&["/Users/u/README.md", "/Users/u/other.md"], "ReadMe", "all", &[]),
        list(&["/Users/u/README.md"])
    );
}

#[test]
fn scan_finds_a_word_in_the_path_as_well_as_in_the_name() {
    assert_eq!(
        scan(
            &["/Users/u/Projects/report.txt", "/Users/u/Desktop/projects.txt", "/Users/u/x.txt"],
            "projects",
            "all",
            &[]
        ),
        list(&["/Users/u/Projects/report.txt", "/Users/u/Desktop/projects.txt"])
    );
}

#[test]
fn scan_asks_for_every_word() {
    assert_eq!(
        scan(
            &[
                "/Users/u/tax report 2024.pdf",
                "/Users/u/2024/tax.pdf",
                "/Users/u/report 2023.pdf",
            ],
            "  Tax   2024 ",
            "all",
            &[]
        ),
        list(&["/Users/u/tax report 2024.pdf", "/Users/u/2024/tax.pdf"])
    );
}

#[test]
fn single_word_that_is_not_found_is_no_fallback() {
    assert_eq!(scan(&["/Users/u/report.pdf"], "tax", "all", &[]), Vec::<String>::new());
}

#[test]
fn alias_promotes_a_name_that_does_not_hold_the_keyword() {
    assert_eq!(
        scan(
            &["/Applications/Adobe Photoshop 2024.app", "/Applications/Safari.app"],
            "ps",
            "all",
            &[]
        ),
        list(&["/Applications/Adobe Photoshop 2024.app"])
    );
    let without_alias = QueryTerms::new("ps", TypeFilter::All, None);
    assert!(scan_index(
        &list(&["/Applications/Adobe Photoshop 2024.app"]),
        &without_alias,
        &Vec::new()
    )
    .is_empty());
}

#[test]
fn alias_must_be_in_the_name_not_only_in_the_path() {
    assert_eq!(
        scan(&["/Users/u/photoshop/brush.abr"], "ps", "all", &[]),
        Vec::<String>::new()
    );
}

#[test]
fn initials_promote_a_name_without_any_literal_overlap() {
    let terms = QueryTerms::new("dpp", TypeFilter::All, None);
    let results = scan_index(
        &list(&[
            "/Applications/Digital Photo Professional.app",
            "/Applications/Digital Photo.app",
        ]),
        &terms,
        &Vec::new(),
    );
    assert_eq!(found_paths(&results), list(&["/Applications/Digital Photo Professional.app"]));
}

#[test]
fn initials_are_taken_at_every_character_that_is_no_letter_or_digit() {
    let terms = QueryTerms::new("mfn", TypeFilter::All, None);
    let results = scan_index(
        &list(&["/Users/u/my_file-name.txt", "/Users/u/myfilename.txt"]),
        &terms,
        &Vec::new(),
    );
    assert_eq!(found_paths(&results), list(&["/Users/u/my_file-name.txt"]));
    let inside = QueryTerms::new("fnt", TypeFilter::All, None);
    assert_eq!(
        found_paths(&scan_index(&list(&["/Users/u/my_file-name.txt"]), &inside, &Vec::new())),
        list(&["/Users/u/my_file-name.txt"])
    );
}

#[test]
fn scan_returns_only_paths_that_satisfy_the_type_filter() {
    let index = [
        "/Users/u/holiday.JPG",
        "/Users/u/holiday.mov",
        "/Users/u/holiday.mp3",
        "/Users/u/holiday.pdf",
        "/Users/u/holiday.docx",
        "/Users/u/holiday",
        "/Applications/Holiday.app",
        "/Applications/Holiday.app/Contents/Info.plist.holiday",
    ];
    assert_eq!(scan(&index, "holiday", "image", &[]), list(&["/Users/u/holiday.JPG"]));
    assert_eq!(scan(&index, "holiday", "video", &[]), list(&["/Users/u/holiday.mov"]));
    assert_eq!(scan(&index, "holiday", "audio", &[]), list(&["/Users/u/holiday.mp3"]));
    assert_eq!(scan(&index, "holiday", "pdf", &[]), list(&["/Users/u/holiday.pdf"]));
    assert_eq!(
        scan(&index, "holiday", "doc", &[]),
        list(&["/Users/u/holiday.pdf", "/Users/u/holiday.docx"])
    );
    assert_eq!(
        scan(&index, "holiday", "folder", &[]),
        list(&["/Users/u/holiday", "/Applications/Holiday.app"])
    );
    assert_eq!(scan(&index, "holiday", "app", &[]), list(&["/Applications/Holiday.app"]));
    assert_eq!(scan(&index, "holiday", "all", &[]), list(&index));
    assert_eq!(scan(&index, "holiday", "unknown", &[]), list(&index));
}

#[test]
fn folder_is_a_path_without_a_dot_or_a_bundle() {
    assert_eq!(
        scan(
            &["/Users/u/docs", "/Users/u/v1.2/docs", "/Users/u/docs.d", "/Users/u/docs.app"],
            "docs",
            "folder",
            &[]
        ),
        list(&["/Users/u/docs", "/Users/u/docs.app"])
    );
}

#[test]
fn scan_skips_paths_on_volumes_that_are_not_mounted() {
    let index = [
        "/Volumes/USB/report.txt",
        "/Volumes/Backup/old/report.txt",
        "/Users/u/report.txt",
        "/Volumes/report.txt",
        "/Volumes/",
    ];
    assert_eq!(
        scan(&index, "report", "all", &["/Volumes/USB"]),
        list(&["/Volumes/USB/report.txt", "/Users/u/report.txt"])
    );
    assert_eq!(scan(&index, "report", "all", &[]), list(&["/Users/u/report.txt"]));
    assert_eq!(
        scan(&index, "report", "all", &["/Volumes/Backup", "/Volumes/report.txt"]),
        list(&["/Volumes/Backup/old/report.txt", "/Users/u/report.txt", "/Volumes/report.txt"])
    );
}

#[test]
fn volume_is_known_by_its_whole_root() {
    assert_eq!(
        scan(&["/Volumes/USB2/a.txt", "/volumes/USB/a.txt"], "a.txt", "all", &["/Volumes/USB"]),
        list(&["/volumes/USB/a.txt"])
    );
}

#[test]
fn fallback_candidates_follow_when_strong_results_are_few() {
    let index = [
        "/Users/u/alpha.txt",
        "/Users/u/alpha beta.txt",
        "/Users/u/gamma.txt",
        "/Users/u/beta.txt",
        "/Users/u/beta alpha.txt",
    ];
    assert_eq!(
        scan(&index, "alpha beta", "all", &[]),
        list(&[
            "/Users/u/alpha beta.txt",
            "/Users/u/beta alpha.txt",
            "/Users/u/alpha.txt",
            "/Users/u/beta.txt",
        ])
    );
}

#[test]
fn at_most_fifty_fallback_candidates_follow() {
    let mut index: Vec<String> = Vec::new();
    for i in 0..70 {
        index.push(format!("/Users/u/alpha {i}.txt"));
    }
    for i in 0..19 {
        index.push(format!("/Users/u/alpha beta {i}.txt"));
    }
    let terms = QueryTerms::new("alpha beta", TypeFilter::All, None);
    let results = found_paths(&scan_index(&index, &terms, &Vec::new()));
    assert_eq!(results.len(), 19 + 50);
    assert_eq!(results[..19], index[70..]);
    assert_eq!(results[19..], index[..50]);
}

#[test]
fn no_fallback_candidates_follow_twenty_strong_results() {
    let mut index: Vec<String> = Vec::new();
    for i in 0..30 {
        index.push(format!("/Users/u/alpha {i}.txt"));
    }
    for i in 0..20 {
        index.push(format!("/Users/u/alpha beta {i}.txt"));
    }
    let terms = QueryTerms::new("alpha beta", TypeFilter::All, None);
    let results = found_paths(&scan_index(&index, &terms, &Vec::new()));
    assert_eq!(results, index[30..]);
}

#[test]
fn scan_stops_at_a_thousand_strong_results() {
    let mut index: Vec<String> = Vec::new();
    for i in 0..2500 {
        if i % 2 == 0 {
            index.push(format!("/Users/u/report {i}.txt"));
        } else {
            index.push(format!("/Users/u/other {i}.txt"));
        }
    }
    let terms = QueryTerms::new("report", TypeFilter::All, None);
    let results = found_paths(&scan_index(&index, &terms, &Vec::new()));
    assert_eq!(results.len(), 1000);
    let expected: Vec<String> = (0..1000).map(|k| format!("/Users/u/report {}.txt", 2 * k)).collect();
    assert_eq!(results, expected);
}

#[test]
fn scan_of_exactly_a_thousand_matches_returns_them_all() {
    let index: Vec<String> = (0..1000).map(|i| format!("/Users/u/report {i}.txt")).collect();
    let terms = QueryTerms::new("report", TypeFilter::All, None);
    assert_eq!(found_paths(&scan_index(&index, &terms, &Vec::new())), index);
}

#[test]
fn scan_of_an_empty_index_finds_nothing() {
    assert_eq!(scan(&[], "report", "all", &[]), Vec::<String>::new());
}

#[test]
fn judge_goes_by_the_lowercased_name_and_path_it_is_given() {
    let chars = |s: &str| s.chars().collect::<Vec<char>>();
    let one = QueryTerms::new("report", TypeFilter::All, None);
    assert_eq!(judge(&one, &chars("report.txt"), &chars("/u/report.txt")), Verdict::Strong);
    assert_eq!(judge(&one, &chars("x.txt"), &chars("/report/x.txt")), Verdict::Strong);
    assert_eq!(judge(&one, &chars("Report.txt"), &chars("/u/Report.txt")), Verdict::Skip);
    assert_eq!(judge(&one, &chars("x.txt"), &chars("/u/x.txt")), Verdict::Skip);
    let two = QueryTerms::new("tax report", TypeFilter::All, None);
    assert_eq!(judge(&two, &chars("tax.txt"), &chars("/report/tax.txt")), Verdict::Strong);
    assert_eq!(judge(&two, &chars("tax.txt"), &chars("/u/tax.txt")), Verdict::Fallback);
    assert_eq!(judge(&two, &chars("x.txt"), &chars("/u/x.txt")), Verdict::Skip);
    assert_eq!(judge(&two, &chars("the annual x"), &chars("")), Verdict::Skip);
    let initials = QueryTerms::new("tax", TypeFilter::All, None);
    assert_eq!(judge(&initials, &chars("the annual x"), &chars("")), Verdict::Strong);
    let photoshop = "photoshop".to_string();
    let alias = QueryTerms::new("ps", TypeFilter::All, Some(&photoshop));
    assert_eq!(judge(&alias, &chars("adobe photoshop.app"), &chars("")), Verdict::Strong);
    assert_eq!(judge(&alias, &chars("adobe.app"), &chars("/photoshop/adobe.app")), Verdict::Skip);
}

#[test]
fn application_filter_lets_preference_panes_through() {
    let index = [
        "/Users/u/Downloads/Displays.prefPane",
        "/Applications/Displays.app",
        "/Users/u/Downloads/Displays.txt",
        "/Users/u/Downloads/DISPLAYS.PREFPANE",
    ];
    assert_eq!(
        scan(&index, "displays", "app", &[]),
        list(&[
            "/Users/u/Downloads/Displays.prefPane",
            "/Applications/Displays.app",
            "/Users/u/Downloads/DISPLAYS.PREFPANE",
        ])
    );
}
