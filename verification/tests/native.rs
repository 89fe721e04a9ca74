use xtap_search::native::{
    read_output, read_outputs, report, sub_queries, HOME_TIMEOUT_MILLIS, VOLUMES_TIMEOUT_MILLIS,
};
use xtap_search::result::SearchResult;

fn paths_and_names(results: &Vec<SearchResult>) -> Vec<(String, String, i128)> {
    results.iter().map(|r| (r.path.clone(), r.name.clone(), r.score)).collect()
}

fn entry(path: &str, name: &str) -> (String, String, i128) {
    (path.to_string(), name.to_string(), 0)
}

#[test]
fn read_output_takes_one_path_from_each_line() {
    let mut out = Vec::new();
    read_output(&mut out, "/Users/u/a.txt\n/Applications/Safari.app\n");
    assert_eq!(
        paths_and_names(&out),
        vec![entry("/Users/u/a.txt", "a.txt"), entry("/Applications/Safari.app", "Safari.app")]
    );
}

#[test]
fn read_output_trims_lines_and_skips_blank_ones() {
    let mut out = Vec::new();
    read_output(&mut out, "  /Users/u/a b.txt \t\r\n\n   \n/Users/u/c\n\n");
    assert_eq!(
        paths_and_names(&out),
        vec![entry("/Users/u/a b.txt", "a b.txt"), entry("/Users/u/c", "c")]
    );
}

#[test]
fn read_output_leaves_out_bundle_executables_and_library_directories() {
    let mut out = Vec::new();
    read_output(
        &mut out,
        "/Applications/X.app/Contents/MacOS/X\n\
         /Users/u/Library/Caches/y\n\
         /Library/Fonts/z.ttf\n\
         /Applications/X.app/Contents/Resources/icon.png\n\
         /Users/u/library/notes.txt\n\
         /Users/u/MyLibrary/book.pdf\n",
    );
    assert_eq!(
        paths_and_names(&out),
        vec![
            entry("/Applications/X.app/Contents/Resources/icon.png", "icon.png"),
            entry("/Users/u/library/notes.txt", "notes.txt"),
            entry("/Users/u/MyLibrary/book.pdf", "book.pdf"),
        ]
    );
}

#[test]
fn read_output_appends_to_what_is_there() {
    let mut out = vec![SearchResult { path: "/x".to_string(), name: "x".to_string(), score: 5 }];
    read_output(&mut out, "/y/z");
    assert_eq!(paths_and_names(&out), vec![("/x".to_string(), "x".to_string(), 5), entry("/y/z", "z")]);
    read_output(&mut out, "");
    assert_eq!(out.len(), 2);
}

#[test]
fn name_of_a_path_that_ends_in_a_slash_is_empty() {
    let mut out = Vec::new();
    read_output(&mut out, "/Users/u/dir/\nplain\n");
    assert_eq!(paths_and_names(&out), vec![entry("/Users/u/dir/", ""), entry("plain", "plain")]);
}

#[test]
fn read_outputs_reads_one_output_after_the_other() {
    let outputs = vec![
        "/Users/u/a.txt\n/Users/u/b.txt\n".to_string(),
        String::new(),
        "/Volumes/USB/a.txt\n/Users/u/a.txt\n".to_string(),
    ];
    assert_eq!(
        paths_and_names(&read_outputs(&outputs)),
        vec![
            entry("/Users/u/a.txt", "a.txt"),
            entry("/Users/u/b.txt", "b.txt"),
            entry("/Volumes/USB/a.txt", "a.txt"),
            entry("/Users/u/a.txt", "a.txt"),
        ]
    );
    assert!(read_outputs(&Vec::new()).is_empty());
}

#[test]
fn sub_queries_look_at_home_and_applications_and_at_the_volumes() {
    let calls = sub_queries("/Users/u", "kMDItemFSName == '*a*'cd");
    assert_eq!(calls.len(), 2);
    assert_eq!(
        calls[0].arguments,
        vec!["-onlyin", "/Users/u", "-onlyin", "/Applications", "kMDItemFSName == '*a*'cd"]
    );
    assert_eq!(calls[0].timeout_millis, 3_000);
    assert_eq!(calls[1].arguments, vec!["-onlyin", "/Volumes", "kMDItemFSName == '*a*'cd"]);
    assert_eq!(calls[1].timeout_millis, 4_000);
    assert_eq!(HOME_TIMEOUT_MILLIS, 3_000);
    assert_eq!(VOLUMES_TIMEOUT_MILLIS, 4_000);
}

#[test]
fn report_takes_a_path_as_it_is() {
    let chars = |s: &str| s.chars().collect::<Vec<char>>();
    let kept = report(&chars(" /Users/u/a b.txt ")).expect("a path outside any library");
    assert_eq!(kept.path, " /Users/u/a b.txt ");
    assert_eq!(kept.name, "a b.txt ");
    assert_eq!(kept.score, 0);
    assert!(report(&chars("")).is_none());
    assert!(report(&chars("/Library/x")).is_none());
    assert!(report(&chars("/A.app/Contents/MacOS/a")).is_none());
    assert!(report(&chars("/A.app/Contents/MacOS")).is_some());
}
