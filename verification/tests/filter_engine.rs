use logview_core::CoreError;
use logview_core::FilterEngine;
use logview_core::LogFilter;

fn filter(id: &str, pattern: &str, is_include: bool) -> LogFilter {
    LogFilter {
        id: id.to_string(),
        pattern: pattern.to_string(),
        is_include,
        is_enabled: true,
        color: None,
        text_color: None,
    }
}

fn strings(lines: &[&str]) -> Vec<String> {
    lines.iter().map(|l| l.to_string()).collect()
}

#[test]
fn filter_include_keeps_matching_lines() {
    let engine = FilterEngine::new(vec![filter("f1", "^ERROR", true)]).unwrap();
    let lines = strings(&["ERROR a", "INFO b", "ERROR c"]);
    assert_eq!(engine.filter_indices(&lines), vec![0, 2]);
    let counts = engine.get_match_counts(&lines);
    assert_eq!(counts.len(), 1);
    assert_eq!(counts[0].0, "f1");
    assert_eq!(counts[0].1, 2);
}

#[test]
fn exclude_beats_include() {
    let engine =
        FilterEngine::new(vec![filter("inc", "^ERROR", true), filter("exc", "c$", false)])
            .unwrap();
    let lines = strings(&["ERROR a", "INFO b", "ERROR c"]);
    assert_eq!(engine.filter_indices(&lines), vec![0]);
}

#[test]
fn search_overlay_is_case_insensitive() {
    let mut engine = FilterEngine::new(Vec::new()).unwrap();
    engine.set_search_query("foo").unwrap();
    let lines = strings(&["foo", "FooBar", "baz"]);
    assert_eq!(engine.filter_indices(&lines), vec![0, 1]);
    assert_eq!(engine.get_match_color("foo"), Some("#fa5feb".to_string()));
    assert_eq!(engine.get_match_color("FooBar"), Some("#fa5feb".to_string()));
    assert_eq!(engine.get_match_color("baz"), None);
}

#[test]
fn no_filters_accept_everything_without_color() {
    let engine = FilterEngine::new(Vec::new()).unwrap();
    assert!(engine.matches("anything"));
    assert_eq!(engine.get_match_color("anything"), None);
}

#[test]
fn first_matching_include_decides_the_color() {
    let mut red = filter("red", "ERROR", true);
    red.color = Some("#f00".to_string());
    let mut blue = filter("blue", "ERR", true);
    blue.color = Some("#00f".to_string());
    let engine = FilterEngine::new(vec![red, blue]).unwrap();
    assert_eq!(engine.get_match_color("an ERROR line"), Some("#f00".to_string()));
    assert_eq!(engine.get_match_color("an ERR line"), Some("#00f".to_string()));
}

#[test]
fn include_without_color_paints_the_sentinel() {
    let engine = FilterEngine::new(vec![filter("inc", "WARN", true)]).unwrap();
    assert_eq!(engine.get_match_color("a WARN line"), Some("#fa5feb".to_string()));
}

#[test]
fn disabled_and_empty_filters_are_dropped() {
    let mut disabled = filter("off", "ERROR", true);
    disabled.is_enabled = false;
    let empty = filter("empty", "", true);
    let engine = FilterEngine::new(vec![disabled, empty]).unwrap();
    // With both filters dropped, every line passes and no counts appear.
    assert!(engine.matches("anything"));
    assert!(engine.get_match_counts(&strings(&["a", "b"])).is_empty());
}

#[test]
fn counts_cover_exclusion_filters_too() {
    let engine =
        FilterEngine::new(vec![filter("inc", "ERROR", true), filter("exc", "noise", false)])
            .unwrap();
    let lines = strings(&["ERROR noise", "ERROR clean", "just noise"]);
    // Each filter is counted alone, not under the composite rule.
    let counts = engine.get_match_counts(&lines);
    assert_eq!(counts, vec![("inc".to_string(), 2), ("exc".to_string(), 2)]);
    // The composite rule keeps only the clean error line.
    assert_eq!(engine.filter_indices(&lines), vec![1]);
}

#[test]
fn composition_needs_search_and_include_and_no_exclude() {
    let mut engine =
        FilterEngine::new(vec![filter("inc", "ERROR", true), filter("exc", "drop", false)])
            .unwrap();
    engine.set_search_query("server").unwrap();
    // Passes every gate.
    assert!(engine.matches("ERROR on server one"));
    // Fails the search gate.
    assert!(!engine.matches("ERROR elsewhere"));
    // Fails the inclusion gate.
    assert!(!engine.matches("a quiet server line"));
    // The exclusion gate rejects first.
    assert!(!engine.matches("ERROR on server, drop it"));
}

#[test]
fn color_agrees_with_acceptance() {
    let mut engine = FilterEngine::new(vec![filter("inc", "ERROR", true)]).unwrap();
    engine.set_search_query("srv").unwrap();
    for line in ["ERROR srv", "ERROR other", "srv only", "neither"] {
        assert_eq!(engine.get_match_color(line).is_some(), engine.matches(line));
    }
}

#[test]
fn invalid_filter_pattern_is_reported_with_its_id() {
    match FilterEngine::new(vec![filter("bad", "(", true)]) {
        Err(CoreError::InvalidFilterRegex { id, reason }) => {
            assert_eq!(id, "bad");
            assert!(!reason.is_empty());
        },
        Err(other) => panic!("unexpected error: {:?}", other),
        Ok(_) => panic!("an invalid pattern must not compile"),
    }
}

#[test]
fn invalid_search_pattern_is_reported() {
    let mut engine = FilterEngine::new(Vec::new()).unwrap();
    let err = engine.set_search_query("(").unwrap_err();
    assert!(matches!(err, CoreError::InvalidSearchRegex { .. }));
    // The engine still works, with no search in force.
    assert!(engine.matches("anything"));
}

#[test]
fn clearing_the_search_restores_acceptance() {
    let mut engine = FilterEngine::new(Vec::new()).unwrap();
    engine.set_search_query("needle").unwrap();
    assert!(!engine.matches("hay"));
    engine.set_search_query("").unwrap();
    assert!(engine.matches("hay"));
}
