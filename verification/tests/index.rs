use xtap_search::index::{
    arguments_of_walk, roots_to_scan, GlobalIndex, RescanReason, WalkOutput, POLL_EVERY_MILLIS,
    RESCAN_AFTER_MILLIS,
};

fn strings(items: &[&str]) -> Vec<String> {
    items.iter().map(|s| s.to_string()).collect()
}

#[test]
fn thresholds_are_ten_minutes_and_thirty_seconds() {
    assert_eq!(RESCAN_AFTER_MILLIS, 600 * 1000);
    assert_eq!(POLL_EVERY_MILLIS, 30 * 1000);
}

#[test]
fn new_index_is_empty_and_idle() {
    let index = GlobalIndex::new();
    assert!(index.files().is_empty());
    assert!(!index.is_indexing());
}

#[test]
fn first_poll_with_a_volume_scans_because_the_volumes_changed() {
    let mut index = GlobalIndex::new();
    let due = index.poll(strings(&["/Volumes/Macintosh HD"]), 0);
    assert_eq!(due, Some(RescanReason::VolumesChanged));
    assert!(index.is_indexing());
}

#[test]
fn first_poll_without_volumes_waits() {
    let mut index = GlobalIndex::new();
    assert_eq!(index.poll(Vec::new(), 0), None);
    assert_eq!(index.poll(Vec::new(), RESCAN_AFTER_MILLIS), None);
    assert!(!index.is_indexing());
}

#[test]
fn poll_scans_when_the_last_scan_is_older_than_the_threshold() {
    let mut index = GlobalIndex::new();
    assert_eq!(index.poll(Vec::new(), 600_000), None);
    assert_eq!(index.poll(Vec::new(), 600_001), Some(RescanReason::Periodic));
    index.finish_scan(&Vec::new());
    assert_eq!(index.poll(Vec::new(), 1_200_001), None);
    assert_eq!(index.poll(Vec::new(), 1_200_002), Some(RescanReason::Periodic));
}

#[test]
fn poll_with_a_clock_that_went_back_waits() {
    let mut index = GlobalIndex::new();
    assert_eq!(index.poll(Vec::new(), 700_000), Some(RescanReason::Periodic));
    index.finish_scan(&Vec::new());
    assert_eq!(index.poll(Vec::new(), 5), None);
}

#[test]
fn poll_scans_when_asked_for_and_forgets_the_request() {
    let mut index = GlobalIndex::new();
    index.force_update();
    assert_eq!(index.poll(Vec::new(), 1), Some(RescanReason::Forced));
    index.finish_scan(&Vec::new());
    assert_eq!(index.poll(Vec::new(), 2), None);
}

#[test]
fn a_request_comes_before_the_other_reasons() {
    let mut index = GlobalIndex::new();
    index.force_update();
    assert_eq!(
        index.poll(strings(&["/Volumes/USB"]), 10_000_000),
        Some(RescanReason::Forced)
    );
}

#[test]
fn changed_volumes_come_before_the_age_of_the_last_scan() {
    let mut index = GlobalIndex::new();
    assert_eq!(
        index.poll(strings(&["/Volumes/USB"]), 10_000_000),
        Some(RescanReason::VolumesChanged)
    );
}

#[test]
fn poll_holds_volumes_against_those_of_the_last_scan() {
    let mut index = GlobalIndex::new();
    assert_eq!(
        index.poll(strings(&["/Volumes/A", "/Volumes/B"]), 0),
        Some(RescanReason::VolumesChanged)
    );
    index.finish_scan(&Vec::new());
    assert_eq!(index.poll(strings(&["/Volumes/B", "/Volumes/A"]), 1), None);
    assert_eq!(index.poll(strings(&["/Volumes/B", "/Volumes/A", "/Volumes/A"]), 2), None);
    assert_eq!(index.poll(strings(&["/Volumes/A"]), 3), Some(RescanReason::VolumesChanged));
    index.finish_scan(&Vec::new());
    assert_eq!(
        index.poll(strings(&["/Volumes/A", "/Volumes/C"]), 4),
        Some(RescanReason::VolumesChanged)
    );
    index.finish_scan(&Vec::new());
    assert_eq!(index.poll(Vec::new(), 5), Some(RescanReason::VolumesChanged));
}

#[test]
fn poll_that_waits_remembers_nothing() {
    let mut index = GlobalIndex::new();
    assert_eq!(index.poll(Vec::new(), 400_000), None);
    assert_eq!(index.poll(Vec::new(), 600_001), Some(RescanReason::Periodic));
}

#[test]
fn finish_scan_replaces_the_index_and_ends_the_scan() {
    let mut index = GlobalIndex::from_cache("/old/a\n/old/b\n");
    index.force_update();
    assert_eq!(index.poll(Vec::new(), 0), Some(RescanReason::Forced));
    assert!(index.is_indexing());
    assert_eq!(index.files(), &strings(&["/old/a", "/old/b"]));
    let cache = index.finish_scan(&vec![
        WalkOutput {
            root: "/Users/u/Desktop".to_string(),
            printed: "/Users/u/Desktop\n/Users/u/Desktop/a.txt\n/Users/u/Desktop/dir\n"
                .to_string(),
        },
        WalkOutput {
            root: "/Applications".to_string(),
            printed: "/Applications\r\n/Applications/Safari.app\r\n\r\nrelative/path\n"
                .to_string(),
        },
    ]);
    assert!(!index.is_indexing());
    assert_eq!(
        index.files(),
        &strings(&["/Users/u/Desktop/a.txt", "/Users/u/Desktop/dir", "/Applications/Safari.app"])
    );
    assert_eq!(cache, "/Users/u/Desktop/a.txt\n/Users/u/Desktop/dir\n/Applications/Safari.app\n");
}

#[test]
fn finish_scan_without_output_publishes_an_empty_index() {
    let mut index = GlobalIndex::from_cache("/old/a\n");
    let cache = index.finish_scan(&Vec::new());
    assert!(index.files().is_empty());
    assert_eq!(cache, "");
}

#[test]
fn from_cache_reads_one_path_from_each_line() {
    let index = GlobalIndex::from_cache("/a/b\n/c d/e.txt\r\n\nnot absolute\n/f");
    assert_eq!(index.files(), &strings(&["/a/b", "/c d/e.txt", "/f"]));
    assert!(!index.is_indexing());
    assert!(GlobalIndex::from_cache("").files().is_empty());
}

#[test]
fn written_cache_reads_back() {
    let mut index = GlobalIndex::new();
    let cache = index.finish_scan(&vec![WalkOutput {
        root: "/r".to_string(),
        printed: "/r/a\n/r/b c\n/r/微信.app\n".to_string(),
    }]);
    let read = GlobalIndex::from_cache(&cache);
    assert_eq!(read.files(), index.files());
}

#[test]
fn roots_to_scan_lists_the_user_directories_and_the_applications() {
    assert_eq!(
        roots_to_scan("/Users/u", false),
        strings(&["/Users/u/Desktop", "/Users/u/Downloads", "/Users/u/Documents", "/Applications"])
    );
    assert_eq!(
        roots_to_scan("/", true),
        strings(&["//Desktop", "//Downloads", "//Documents", "/Applications", "/Volumes"])
    );
}

#[test]
fn arguments_of_walk_prune_what_is_not_indexed() {
    assert_eq!(
        arguments_of_walk("/Users/u/Desktop"),
        strings(&[
            "/Users/u/Desktop",
            "(",
            "-path",
            "*/node_modules/*",
            "-o",
            "-path",
            "*/.git/*",
            "-o",
            "-path",
            "*/Library/*",
            "-o",
            "-path",
            "*/Contents/MacOS/*",
            "-o",
            "-name",
            ".*",
            ")",
            "-prune",
            "-o",
            "-print",
        ])
    );
}
