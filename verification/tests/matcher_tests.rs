use sf_search::matcher::PatternMatcher;
use sf_search::request::{KindFilter, OutputMode, SearchError, SearchRequest};
use sf_search::stats::{tally_line, u64_to_decimal, SearchStats};
use sf_search::text::extension_matches;

fn strings(items: &[&str]) -> Vec<String> {
    items.iter().map(|s| s.to_string()).collect()
}

fn matcher(includes: &[&str], excludes: &[&str], ci: bool) -> PatternMatcher {
    PatternMatcher::new(strings(includes), strings(excludes), ci).unwrap()
}

#[test]
fn substring_match_case_sensitive() {
    let m = matcher(&["report"], &[], false);
    assert!(m.matches("old_report.txt"));
    assert!(m.matches("report"));
    assert!(!m.matches("REPORT.csv"));
    assert!(!m.matches("repo_rt"));
}

#[test]
fn case_insensitive_matching_folds_ascii() {
    let m = matcher(&["report"], &[], true);
    assert!(m.matches("REPORT.csv"));
    assert!(m.matches("RePoRt"));
    assert!(m.matches("report.txt"));
    assert!(!m.matches("rep_ort"));
}

#[test]
fn case_changes_of_the_name_do_not_change_the_answer() {
    let m = matcher(&["log"], &["old"], true);
    let variants = ["my_log.txt", "MY_LOG.TXT", "My_Log.Txt"];
    for v in variants {
        assert!(m.matches(v));
    }
    let excluded = ["old_log", "OLD_LOG", "oLd_LoG"];
    for v in excluded {
        assert!(!m.matches(v));
    }
}

#[test]
fn exclude_set_takes_precedence() {
    let m = matcher(&["log"], &["old"], false);
    assert!(m.matches("log1.txt"));
    assert!(!m.matches("old_log.txt"));
}

#[test]
fn several_include_patterns_searched_at_once() {
    let m = matcher(&["alpha", "beta"], &[], false);
    assert!(m.matches("the_alpha_file"));
    assert!(m.matches("some_beta"));
    assert!(!m.matches("gamma"));
}

#[test]
fn construction_succeeds_on_valid_patterns() {
    let m = PatternMatcher::new(strings(&["log"]), strings(&["old"]), true).unwrap();
    assert_eq!(m.includes, strings(&["log"]));
    assert_eq!(m.excludes, strings(&["old"]));
    assert!(m.case_insensitive);
}

#[test]
fn request_construction_succeeds_and_carries_arguments() {
    let r = SearchRequest::new(
        strings(&["report"]),
        strings(&["tmp"]),
        false,
        KindFilter::FilesOnly,
        strings(&["txt"]),
        true,
        true,
        7,
        OutputMode::CountOnly,
    )
    .unwrap();
    assert_eq!(r.matcher.includes, strings(&["report"]));
    assert_eq!(r.matcher.excludes, strings(&["tmp"]));
    assert_eq!(r.kind_filter, KindFilter::FilesOnly);
    assert_eq!(r.extensions, strings(&["txt"]));
    assert!(r.suppress_hidden);
    assert!(r.hidden_prunes_subtree);
    assert_eq!(r.max_depth, 7);
    assert_eq!(r.mode, OutputMode::CountOnly);
}

#[test]
fn empty_include_set_is_invalid() {
    let r = PatternMatcher::new(Vec::new(), Vec::new(), false);
    assert_eq!(r.err(), Some(SearchError::InvalidPattern));
}

#[test]
fn empty_include_pattern_is_invalid() {
    let r = PatternMatcher::new(strings(&["ok", ""]), Vec::new(), false);
    assert_eq!(r.err(), Some(SearchError::InvalidPattern));
}

#[test]
fn empty_exclude_pattern_is_invalid() {
    let r = PatternMatcher::new(strings(&["ok"]), strings(&[""]), false);
    assert_eq!(r.err(), Some(SearchError::InvalidPattern));
}

#[test]
fn request_construction_rejects_empty_patterns() {
    let r = SearchRequest::new(
        Vec::new(),
        Vec::new(),
        false,
        KindFilter::Any,
        Vec::new(),
        false,
        true,
        250,
        OutputMode::Verbose,
    );
    assert_eq!(r.err(), Some(SearchError::InvalidPattern));
}

#[test]
fn highlight_splits_around_first_occurrence() {
    let m = matcher(&["report"], &[], false);
    let spans = m.highlight("old_report.txt");
    let parts: Vec<(String, bool)> = spans.iter().map(|s| (s.text.clone(), s.is_match)).collect();
    assert_eq!(
        parts,
        vec![
            ("old_".to_string(), false),
            ("report".to_string(), true),
            (".txt".to_string(), false),
        ]
    );
}

#[test]
fn highlight_folds_case_but_keeps_the_name() {
    let m = matcher(&["report"], &[], true);
    let spans = m.highlight("old_REPORT.txt");
    let parts: Vec<(String, bool)> = spans.iter().map(|s| (s.text.clone(), s.is_match)).collect();
    assert_eq!(
        parts,
        vec![
            ("old_".to_string(), false),
            ("REPORT".to_string(), true),
            (".txt".to_string(), false),
        ]
    );
}

#[test]
fn highlight_without_occurrence_returns_name_whole() {
    let m = matcher(&["zzz"], &[], false);
    let spans = m.highlight("plain.txt");
    let parts: Vec<(String, bool)> = spans.iter().map(|s| (s.text.clone(), s.is_match)).collect();
    assert_eq!(parts, vec![("plain.txt".to_string(), false)]);
}

#[test]
fn highlight_prefers_earliest_position_then_first_pattern() {
    let m = matcher(&["txt", "rep"], &[], false);
    let spans = m.highlight("report.txt");
    let parts: Vec<(String, bool)> = spans.iter().map(|s| (s.text.clone(), s.is_match)).collect();
    assert_eq!(
        parts,
        vec![
            ("".to_string(), false),
            ("rep".to_string(), true),
            ("ort.txt".to_string(), false),
        ]
    );
    let m2 = matcher(&["abc", "ab"], &[], false);
    let spans2 = m2.highlight("zabcd");
    let parts2: Vec<(String, bool)> =
        spans2.iter().map(|s| (s.text.clone(), s.is_match)).collect();
    assert_eq!(
        parts2,
        vec![
            ("z".to_string(), false),
            ("abc".to_string(), true),
            ("d".to_string(), false),
        ]
    );
}

#[test]
fn decimal_rendering_is_exact() {
    assert_eq!(u64_to_decimal(0), "0");
    assert_eq!(u64_to_decimal(7), "7");
    assert_eq!(u64_to_decimal(10), "10");
    assert_eq!(u64_to_decimal(12345), "12345");
    assert_eq!(u64_to_decimal(u64::MAX), "18446744073709551615");
}

#[test]
fn tally_uses_singular_exactly_for_one() {
    assert_eq!(tally_line(0), "found 0 matches");
    assert_eq!(tally_line(1), "found 1 match");
    assert_eq!(tally_line(2), "found 2 matches");
}

#[test]
fn summary_lists_entries_tally_and_elapsed() {
    let stats = SearchStats { entries: 3, hits: 1 };
    assert_eq!(stats.summary(42), "3 entries searched\nfound 1 match\n42 ms");
}

#[test]
fn extension_is_text_after_last_dot() {
    assert_eq!(extension_matches("a.txt", &strings(&["txt"])), true);
    assert_eq!(extension_matches("a.tar.gz", &strings(&["gz"])), true);
    assert_eq!(extension_matches("a.tar.gz", &strings(&["tar"])), false);
    assert_eq!(extension_matches("noext", &strings(&["noext"])), false);
    assert_eq!(extension_matches(".secret", &strings(&["secret"])), false);
    assert_eq!(extension_matches(".secret.txt", &strings(&["txt"])), true);
}
