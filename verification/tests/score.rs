use xtap_search::alias::AliasTable;
use xtap_search::history::ClickHistory;
use xtap_search::query::QueryTerms;
use xtap_search::result::SearchResult;
use xtap_search::score::{match_points, path_points, score, score_all};
use xtap_search::strategy::TypeFilter;
use xtap_search::text::chars_of;

fn plain(keyword: &str) -> QueryTerms {
    QueryTerms::new(keyword, TypeFilter::All, None)
}

fn name_of(path: &str) -> &str {
    path.rsplit('/').next().unwrap_or(path)
}

fn points(terms: &QueryTerms, path: &str, clicks: u32) -> i128 {
    score(terms, path, name_of(path), clicks)
}

#[test]
fn exact_name_scores_twenty_thousand() {
    assert_eq!(match_points(&plain("README"), &chars_of("readme"), &chars_of("/tmp/readme")), 20000);
    assert_eq!(points(&plain("README"), "/tmp/readme", 0), 20000 - 150);
}

#[test]
fn alias_match_scores_twenty_thousand() {
    let alias = "photoshop".to_string();
    let terms = QueryTerms::new("ps", TypeFilter::All, Some(&alias));
    assert_eq!(
        match_points(
            &terms,
            &chars_of("adobe photoshop 2024.app"),
            &chars_of("/applications/adobe photoshop 2024.app")
        ),
        20000
    );
    assert_eq!(points(&terms, "/Applications/Adobe Photoshop 2024.app", 0), 25000);
}

#[test]
fn alias_match_counts_even_when_the_words_are_in_the_name() {
    let alias = "visual studio code".to_string();
    let terms = QueryTerms::new("code", TypeFilter::All, Some(&alias));
    assert_eq!(
        match_points(&terms, &chars_of("visual studio code.app"), &chars_of("")),
        20000
    );
    assert_eq!(match_points(&terms, &chars_of("code.txt"), &chars_of("")), 15000);
}

#[test]
fn acronym_match_scores_twenty_thousand() {
    assert_eq!(
        match_points(
            &plain("dpp"),
            &chars_of("digital photo professional.app"),
            &chars_of("/applications/digital photo professional.app")
        ),
        20000
    );
}

#[test]
fn acronym_counts_only_where_the_words_are_not_in_the_name() {
    assert_eq!(
        match_points(&plain("dp"), &chars_of("a dp digital photo"), &chars_of("")),
        10000
    );
}

#[test]
fn words_in_order_score_ten_thousand_and_five_thousand_more_at_the_start() {
    assert_eq!(
        match_points(&plain("code notes"), &chars_of("my code notes.txt"), &chars_of("")),
        10000
    );
    assert_eq!(
        match_points(&plain("code notes"), &chars_of("code-notes.txt"), &chars_of("")),
        15000
    );
    assert_eq!(match_points(&plain("code"), &chars_of("code-notes.txt"), &chars_of("")), 15000);
    assert_eq!(match_points(&plain("notes"), &chars_of("code-notes.txt"), &chars_of("")), 10000);
}

#[test]
fn words_out_of_order_score_five_thousand() {
    assert_eq!(
        match_points(&plain("notes code"), &chars_of("code notes.txt"), &chars_of("")),
        5000
    );
}

#[test]
fn words_in_order_may_not_overlap() {
    assert_eq!(match_points(&plain("aba bab"), &chars_of("abab"), &chars_of("")), 5000);
    assert_eq!(match_points(&plain("aba bab"), &chars_of("ababab"), &chars_of("")), 15000);
    assert_eq!(match_points(&plain("ab ab"), &chars_of("xab"), &chars_of("")), 5000);
    assert_eq!(match_points(&plain("ab ab"), &chars_of("xabab"), &chars_of("")), 10000);
}

#[test]
fn words_in_the_path_alone_score_two_thousand() {
    assert_eq!(
        match_points(
            &plain("desktop file"),
            &chars_of("file.txt"),
            &chars_of("/users/u/desktop/file.txt")
        ),
        2000
    );
    assert_eq!(points(&plain("desktop"), "/Users/u/Desktop/file.txt", 0), 2000 - 250 + 1000);
}

#[test]
fn no_match_scores_nothing() {
    assert_eq!(match_points(&plain("zzz"), &chars_of("file.txt"), &chars_of("/a/file.txt")), 0);
    assert_eq!(points(&plain("zzz"), "/a/file.txt", 0), -150);
}

#[test]
fn bundle_scores_ten_thousand_when_applications_are_asked_for() {
    assert_eq!(path_points(TypeFilter::App, &chars_of("/Applications/Safari.app")), 15000);
    assert_eq!(path_points(TypeFilter::App, &chars_of("/Applications/Safari.app/")), 15000);
    assert_eq!(path_points(TypeFilter::All, &chars_of("/Applications/Safari.app")), 5000);
    assert_eq!(path_points(TypeFilter::App, &chars_of("/Applications/Safari.APP")), 5000);
    assert_eq!(path_points(TypeFilter::App, &chars_of("/Applications/Safari.app/x")), 5000);
    assert_eq!(path_points(TypeFilter::App, &chars_of("/opt/Tool.app")), 10000 - 150);
}

#[test]
fn bundle_inside_the_contents_of_another_gets_no_bonus() {
    let nested = chars_of("/Applications/X.app/Contents/Helpers/Y.app");
    assert_eq!(path_points(TypeFilter::App, &nested), 5000 - 10000);
    assert_eq!(path_points(TypeFilter::All, &nested), 5000 - 10000);
    let beside = chars_of("/Applications/X.app/Helpers/Y.app");
    assert_eq!(path_points(TypeFilter::App, &beside), 5000 + 10000);
    let outside = chars_of("/opt/X.app/Contents/Y.app/");
    assert_eq!(path_points(TypeFilter::App, &outside), -10000 - 50 * 6);
}

#[test]
fn path_inside_a_bundle_loses_ten_thousand() {
    assert_eq!(
        path_points(TypeFilter::All, &chars_of("/Applications/X.app/Contents/Resources/a.png")),
        5000 - 10000
    );
    assert_eq!(
        path_points(TypeFilter::All, &chars_of("/opt/X.app/Contents/a.png")),
        -10000 - 50 * 5
    );
    assert_eq!(
        path_points(TypeFilter::All, &chars_of("/Applications/X.app/contents/a.png")),
        5000
    );
}

#[test]
fn path_outside_the_applications_loses_fifty_for_each_piece() {
    assert_eq!(path_points(TypeFilter::All, &chars_of("/a")), -100);
    assert_eq!(path_points(TypeFilter::All, &chars_of("/a/b/c/d")), -250);
    assert_eq!(path_points(TypeFilter::All, &chars_of("a")), -50);
    assert_eq!(path_points(TypeFilter::All, &chars_of("")), -50);
    assert_eq!(path_points(TypeFilter::All, &chars_of("/a/b/")), -200);
}

#[test]
fn applications_score_five_thousand_and_desktop_one_thousand() {
    assert_eq!(path_points(TypeFilter::All, &chars_of("/Applications")), 5000);
    assert_eq!(path_points(TypeFilter::All, &chars_of("/Applications/Desktop/x")), 5000);
    assert_eq!(path_points(TypeFilter::All, &chars_of("/ApplicationsOld/x")), 5000);
    assert_eq!(path_points(TypeFilter::All, &chars_of("/Users/u/Desktop/x")), 1000 - 250);
    assert_eq!(path_points(TypeFilter::All, &chars_of("/Users/u/DesktopPictures/x")), 1000 - 250);
    assert_eq!(path_points(TypeFilter::All, &chars_of("/Users/u/desktop/x")), -250);
    assert_eq!(path_points(TypeFilter::All, &chars_of("/x/Applications/y")), -200);
}

#[test]
fn every_click_scores_five_thousand() {
    let terms = plain("report");
    let base = points(&terms, "/Users/u/report.txt", 0);
    assert_eq!(base, 15000 - 200);
    assert_eq!(points(&terms, "/Users/u/report.txt", 1), base + 5000);
    assert_eq!(points(&terms, "/Users/u/report.txt", 7), base + 35000);
    assert_eq!(
        points(&terms, "/Users/u/report.txt", u32::MAX),
        base + 5000 * (u32::MAX as i128)
    );
}

#[test]
fn more_clicks_always_score_higher() {
    let terms = plain("report");
    let mut last = points(&terms, "/Users/u/x/report.txt", 0);
    for clicks in 1..50u32 {
        let next = points(&terms, "/Users/u/x/report.txt", clicks);
        assert!(next > last);
        last = next;
    }
}

#[test]
fn clicks_outweigh_a_better_match() {
    let terms = plain("report");
    assert_eq!(points(&terms, "/Applications/report", 0), 25000);
    assert_eq!(points(&terms, "/Users/u/deep/down/my report.txt", 3), 10000 - 300 + 15000);
    assert_eq!(points(&terms, "/Users/u/deep/down/my report.txt", 4), 10000 - 300 + 20000);
}

#[test]
fn score_adds_up_all_terms() {
    let terms = QueryTerms::resolve("Safari", TypeFilter::App, &AliasTable::builtin());
    assert_eq!(
        score(&terms, "/Applications/Safari.app", "Safari.app", 3),
        20000 + 10000 + 15000 + 5000
    );
    let nested = plain("bar");
    assert_eq!(
        score(&nested, "/Applications/Foo.app/Contents/Resources/bar.txt", "bar.txt", 0),
        15000 - 10000 + 5000
    );
}

#[test]
fn score_goes_by_the_name_it_is_given() {
    let terms = plain("report");
    assert_eq!(score(&terms, "/a/report.txt", "report.txt", 0), 15000 - 150);
    assert_eq!(score(&terms, "/a/report.txt", "other", 0), 2000 - 150);
}

#[test]
fn score_all_scores_each_result_with_its_own_clicks() {
    let mut history = ClickHistory::new();
    history.record_click("/Users/u/b report.txt");
    history.record_click("/Users/u/b report.txt");
    let results = vec![
        SearchResult {
            path: "/Users/u/report.txt".to_string(),
            name: "report.txt".to_string(),
            score: 77,
        },
        SearchResult {
            path: "/Users/u/b report.txt".to_string(),
            name: "b report.txt".to_string(),
            score: 0,
        },
    ];
    let scored = score_all(&results, &plain("report"), &history);
    assert_eq!(scored.len(), 2);
    assert_eq!(scored[0].path, "/Users/u/report.txt");
    assert_eq!(scored[0].name, "report.txt");
    assert_eq!(scored[0].score, 15000 - 200);
    assert_eq!(scored[1].path, "/Users/u/b report.txt");
    assert_eq!(scored[1].score, 10000 - 200 + 10000);
}

fn expected_match_points(
    keyword: &str,
    alias: Option<&str>,
    name: &str,
    path: &str,
    shortest_acronym: usize,
) -> i128 {
    let keyword = keyword.to_lowercase();
    let name = name.to_lowercase();
    let path = path.to_lowercase();
    let words: Vec<&str> = keyword.split_whitespace().collect();
    let by_words = words.iter().all(|w| name.contains(w));
    let by_alias = alias.map_or(false, |a| name.contains(a));
    let initials: String = name
        .split(|c: char| !c.is_alphanumeric())
        .filter(|s| !s.is_empty())
        .map(|s| s.chars().next().unwrap())
        .collect();
    let by_acronym = !by_words
        && !by_alias
        && keyword.len() >= shortest_acronym
        && initials.contains(&keyword);
    if by_words || by_alias || by_acronym {
        if by_alias || by_acronym || name == keyword {
            return 20000;
        }
        let mut rest: &str = &name;
        let mut in_order = true;
        for word in &words {
            match rest.find(word) {
                Some(at) => rest = &rest[at + word.len()..],
                None => {
                    in_order = false;
                    break;
                }
            }
        }
        if !in_order {
            5000
        } else if !words.is_empty() && name.starts_with(words[0]) {
            15000
        } else {
            10000
        }
    } else if words.iter().all(|w| path.contains(w)) {
        2000
    } else {
        0
    }
}

fn expected_path_points(app: bool, path: &str) -> i128 {
    let mut points = 0;
    let nested = path.contains(".app/Contents/");
    if app && !nested && (path.ends_with(".app") || path.ends_with(".app/")) {
        points += 10000;
    }
    if nested {
        points -= 10000;
    }
    if path.starts_with("/Applications") {
        points += 5000;
    } else {
        points -= 50 * path.split('/').count() as i128;
        if path.contains("/Desktop") {
            points += 1000;
        }
    }
    points
}

struct Dice(u64);

impl Dice {
    fn roll(&mut self, sides: usize) -> usize {
        self.0 = self.0.wrapping_mul(6364136223846793005).wrapping_add(1442695040888963407);
        ((self.0 >> 33) % sides as u64) as usize
    }

    fn text(&mut self, alphabet: &[&str], longest: usize) -> String {
        let mut out = String::new();
        for _ in 0..self.roll(longest + 1) {
            out.push_str(alphabet[self.roll(alphabet.len())]);
        }
        out
    }
}

#[test]
fn match_points_agree_with_a_direct_computation() {
    let mut dice = Dice(7);
    let letters = ["a", "b", "A", "B", " ", "-", ".", "ab", "ba", "É", "微"];
    let mut seen = std::collections::BTreeSet::new();
    for _ in 0..4000 {
        let keyword = dice.text(&letters, 4);
        let name = dice.text(&letters, 6);
        let path = format!("/{}/{}", dice.text(&letters, 4), name);
        let alias = if dice.roll(3) == 0 { Some(dice.text(&["a", "b", " "], 2)) } else { None };
        let terms = QueryTerms::new(&keyword, TypeFilter::All, alias.as_ref());
        let expected = expected_match_points(&keyword, alias.as_deref(), &name, &path, 0);
        // A keyword of a single byte that the initials hold is in the name
        // as well, so it makes no difference whether initials are looked at
        // for such a keyword.
        assert_eq!(expected, expected_match_points(&keyword, alias.as_deref(), &name, &path, 2));
        let actual = match_points(
            &terms,
            &chars_of(&name.to_lowercase()),
            &chars_of(&path.to_lowercase()),
        );
        assert_eq!(actual, expected, "keyword {keyword:?} alias {alias:?} name {name:?}");
        seen.insert(actual);
    }
    assert_eq!(seen.into_iter().collect::<Vec<i128>>(), vec![0, 2000, 5000, 10000, 15000, 20000]);
}

#[test]
fn path_points_agree_with_a_direct_computation() {
    let mut dice = Dice(11);
    let pieces =
        ["/", "/Applications", "/Desktop", ".app", ".app/", "Contents/", "x", "/Users", ".", "/y"];
    let mut seen = std::collections::BTreeSet::new();
    for _ in 0..4000 {
        let path = dice.text(&pieces, 5);
        for (filter, app) in [(TypeFilter::App, true), (TypeFilter::All, false)] {
            let actual = path_points(filter, &chars_of(&path));
            assert_eq!(actual, expected_path_points(app, &path), "path {path:?}");
            seen.insert(actual);
        }
    }
    assert!(seen.len() > 20);
}

#[test]
fn terms_from_parts_are_taken_as_they_are() {
    let terms = QueryTerms::from_parts(
        chars_of("x y"),
        vec![chars_of("code"), chars_of("notes")],
        TypeFilter::All,
        Some(chars_of("vs")),
    );
    assert_eq!(terms.keyword(), &chars_of("x y"));
    assert_eq!(terms.words(), &vec![chars_of("code"), chars_of("notes")]);
    assert_eq!(terms.filter(), TypeFilter::All);
    assert_eq!(terms.alias(), &Some(chars_of("vs")));
    assert_eq!(match_points(&terms, &chars_of("code notes"), &chars_of("")), 15000);
    assert_eq!(match_points(&terms, &chars_of("notes code"), &chars_of("")), 5000);
    assert_eq!(match_points(&terms, &chars_of("x y"), &chars_of("code notes")), 2000);
    assert_eq!(match_points(&terms, &chars_of("x y"), &chars_of("code")), 0);
    assert_eq!(match_points(&terms, &chars_of("CODE NOTES"), &chars_of("code notes")), 2000);
    assert_eq!(match_points(&terms, &chars_of("my vs"), &chars_of("")), 20000);
}

#[test]
fn terms_hold_the_lowercased_keyword_and_its_words() {
    let alias = "Name".to_string();
    let terms = QueryTerms::new("  Visual\tSTUDIO  Code ", TypeFilter::App, Some(&alias));
    assert_eq!(terms.keyword(), &chars_of("  visual\tstudio  code "));
    assert_eq!(terms.words(), &vec![chars_of("visual"), chars_of("studio"), chars_of("code")]);
    assert_eq!(terms.filter(), TypeFilter::App);
    assert_eq!(terms.alias(), &Some(chars_of("Name")));
    let resolved = QueryTerms::resolve("PS", TypeFilter::All, &AliasTable::builtin());
    assert_eq!(resolved.keyword(), &chars_of("ps"));
    assert_eq!(resolved.alias(), &Some(chars_of("photoshop")));
    let unknown = QueryTerms::resolve("p s", TypeFilter::All, &AliasTable::builtin());
    assert_eq!(unknown.alias(), &None);
}

#[test]
fn terms_from_a_lowered_keyword_take_it_as_it_is() {
    let terms = QueryTerms::from_lowered("Tax  Report", TypeFilter::Pdf, None);
    assert_eq!(terms.keyword(), &chars_of("Tax  Report"));
    assert_eq!(terms.words(), &vec![chars_of("Tax"), chars_of("Report")]);
    assert_eq!(terms.filter(), TypeFilter::Pdf);
    assert_eq!(terms.alias(), &None);
}
