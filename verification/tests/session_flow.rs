use logview_core::CoreError;
use logview_core::LogFilter;
use logview_core::Session;
use logview_core::should_flush;

fn make_map(bytes: &[u8]) -> memmap2::Mmap {
    let mut map = memmap2::MmapOptions::new().len(bytes.len()).map_anon().unwrap();
    map.copy_from_slice(bytes);
    map.make_read_only().unwrap()
}

fn filter(id: &str, pattern: &str, is_include: bool) -> LogFilter {
    LogFilter {
        id: id.to_string(),
        pattern: pattern.to_string(),
        is_include,
        is_enabled: true,
        color: None,
        text_color: None,
    }
}

#[test]
fn fresh_session_has_no_source() {
    let mut session = Session::new();
    assert!(matches!(session.get_log_lines(0, 10), Err(CoreError::NoSource)));
    assert!(matches!(
        session.apply_filters(Vec::new(), ""),
        Err(CoreError::NoSource)
    ));
    assert!(matches!(
        session.get_minimap_data(Vec::new(), "", 4),
        Err(CoreError::NoSource)
    ));
}

#[test]
fn open_file_reports_the_line_count() {
    let mut session = Session::new();
    let count = session.open_file("a.log".to_string(), make_map(b"A\nBB\r\nCCC"));
    assert_eq!(count, 3);
    let lines = session.get_log_lines(0, 10).unwrap();
    assert_eq!(lines, vec!["A".to_string(), "BB".to_string(), "CCC".to_string()]);
}

#[test]
fn get_log_lines_stops_at_the_end() {
    let mut session = Session::new();
    session.open_file("a.log".to_string(), make_map(b"a\nb\nc\n"));
    assert_eq!(session.get_log_lines(1, 10).unwrap(), vec!["b".to_string(), "c".to_string()]);
    assert_eq!(session.get_log_lines(2, 1).unwrap(), vec!["c".to_string()]);
    assert!(session.get_log_lines(3, 5).unwrap().is_empty());
    assert!(session.get_log_lines(100, 5).unwrap().is_empty());
}

#[test]
fn apply_filters_installs_a_filtered_view() {
    let mut session = Session::new();
    session.open_file("a.log".to_string(), make_map(b"ERROR a\nINFO b\nERROR c\n"));
    let result = session.apply_filters(vec![filter("f", "^ERROR", true)], "").unwrap();
    assert_eq!(result.visible_count, 2);
    assert_eq!(result.filter_counts, vec![("f".to_string(), 2)]);
    let lines = session.get_log_lines(0, 10).unwrap();
    assert_eq!(lines, vec!["ERROR a".to_string(), "ERROR c".to_string()]);
}

#[test]
fn exclude_beats_include_in_file_mode() {
    let mut session = Session::new();
    session.open_file("a.log".to_string(), make_map(b"ERROR a\nINFO b\nERROR c"));
    let result = session
        .apply_filters(vec![filter("inc", "^ERROR", true), filter("exc", "c$", false)], "")
        .unwrap();
    assert_eq!(result.visible_count, 1);
    assert_eq!(session.get_log_lines(0, 10).unwrap(), vec!["ERROR a".to_string()]);
}

#[test]
fn clearing_filters_restores_the_full_view() {
    let mut session = Session::new();
    session.open_file("a.log".to_string(), make_map(b"ERROR a\nINFO b\n"));
    session.apply_filters(vec![filter("f", "^ERROR", true)], "").unwrap();
    assert_eq!(session.get_log_lines(0, 10).unwrap().len(), 1);
    let cleared = session.apply_filters(Vec::new(), "").unwrap();
    assert_eq!(cleared.visible_count, 2);
    assert!(cleared.filter_counts.is_empty());
    assert_eq!(session.get_log_lines(0, 10).unwrap().len(), 2);
}

#[test]
fn invalid_filter_makes_no_state_change() {
    let mut session = Session::new();
    session.open_file("a.log".to_string(), make_map(b"ERROR a\nINFO b\n"));
    session.apply_filters(vec![filter("f", "^ERROR", true)], "").unwrap();
    let err = session.apply_filters(vec![filter("bad", "(", true)], "").unwrap_err();
    assert!(matches!(err, CoreError::InvalidFilterRegex { .. }));
    // The old filtered view still serves reads.
    assert_eq!(session.get_log_lines(0, 10).unwrap(), vec!["ERROR a".to_string()]);
}

#[test]
fn search_query_filters_the_file_view() {
    let mut session = Session::new();
    session.open_file("a.log".to_string(), make_map(b"foo\nFooBar\nbaz\n"));
    let result = session.apply_filters(Vec::new(), "foo").unwrap();
    assert_eq!(result.visible_count, 2);
    assert_eq!(
        session.get_log_lines(0, 10).unwrap(),
        vec!["foo".to_string(), "FooBar".to_string()]
    );
    let err = session.apply_filters(Vec::new(), "(").unwrap_err();
    assert!(matches!(err, CoreError::InvalidSearchRegex { .. }));
}

#[test]
fn stream_ingests_only_accepted_lines() {
    let mut session = Session::new();
    session.start_stream(vec![filter("f", "^ERROR", true)], "").unwrap();
    assert!(session.is_stream_active());
    assert!(session.ingest_line("ERROR one".to_string()));
    assert!(!session.ingest_line("INFO two".to_string()));
    assert!(session.ingest_line("ERROR three".to_string()));
    let lines = session.get_log_lines(0, 10).unwrap();
    assert_eq!(lines, vec!["ERROR one".to_string(), "ERROR three".to_string()]);
}

#[test]
fn stream_buffer_only_grows_while_active() {
    let mut session = Session::new();
    session.start_stream(Vec::new(), "").unwrap();
    let mut seen: Vec<String> = Vec::new();
    for i in 0..5 {
        let line = format!("line {}", i);
        session.ingest_line(line.clone());
        seen.push(line);
        let now = session.get_log_lines(0, 100).unwrap();
        // Non-decreasing, and everything appended earlier is unchanged.
        assert_eq!(now, seen);
    }
}

#[test]
fn stopping_the_stream_keeps_the_buffer() {
    let mut session = Session::new();
    session.start_stream(Vec::new(), "").unwrap();
    session.ingest_line("kept".to_string());
    session.stop_stream();
    assert!(!session.is_stream_active());
    // Reads still serve the buffer, but nothing new is ingested.
    assert!(!session.ingest_line("dropped".to_string()));
    assert_eq!(session.get_log_lines(0, 10).unwrap(), vec!["kept".to_string()]);
    // Filter queries need a running source.
    assert!(matches!(
        session.apply_filters(Vec::new(), ""),
        Err(CoreError::NoSource)
    ));
}

#[test]
fn starting_a_stream_again_clears_the_buffer() {
    let mut session = Session::new();
    session.start_stream(Vec::new(), "").unwrap();
    session.ingest_line("old".to_string());
    session.start_stream(Vec::new(), "").unwrap();
    assert!(session.get_log_lines(0, 10).unwrap().is_empty());
}

#[test]
fn opening_a_file_stops_the_stream() {
    let mut session = Session::new();
    session.start_stream(Vec::new(), "").unwrap();
    session.ingest_line("streamed".to_string());
    session.open_file("a.log".to_string(), make_map(b"from file\n"));
    assert!(!session.is_stream_active());
    assert!(!session.ingest_line("late".to_string()));
    assert_eq!(session.get_log_lines(0, 10).unwrap(), vec!["from file".to_string()]);
}

#[test]
fn stream_filters_are_counted_not_refiltered() {
    let mut session = Session::new();
    session.start_stream(Vec::new(), "").unwrap();
    session.ingest_line("ERROR one".to_string());
    session.ingest_line("INFO two".to_string());
    let result = session.apply_filters(vec![filter("f", "^ERROR", true)], "").unwrap();
    // The buffer keeps every ingested line; only the counts reflect the
    // new filters.
    assert_eq!(result.visible_count, 2);
    assert_eq!(result.filter_counts, vec![("f".to_string(), 1)]);
}

#[test]
fn invalid_stream_filter_fails_the_start() {
    let mut session = Session::new();
    let err = session.start_stream(vec![filter("bad", "(", true)], "").unwrap_err();
    assert!(matches!(err, CoreError::InvalidFilterRegex { .. }));
    assert!(!session.is_stream_active());
}

#[test]
fn stream_minimap_covers_the_buffer() {
    let mut session = Session::new();
    session.start_stream(Vec::new(), "").unwrap();
    for i in 0..8 {
        let tag = if i % 2 == 0 { "ERROR" } else { "INFO" };
        session.ingest_line(format!("{} line {}", tag, i));
    }
    let mut colored = filter("f", "ERROR", true);
    colored.color = Some("#abc".to_string());
    let data = session.get_minimap_data(vec![colored], "", 2).unwrap();
    assert_eq!(data.len(), 2);
    assert_eq!(data[0].span, 4);
    assert_eq!(data[0].count, 2);
    assert_eq!(data[0].color, Some("#abc".to_string()));
    let total: usize = data.iter().map(|b| b.count).sum();
    assert!(total <= 8);
}

#[test]
fn stream_minimap_of_empty_buffer_is_empty() {
    let mut session = Session::new();
    session.start_stream(Vec::new(), "").unwrap();
    assert!(session.get_minimap_data(Vec::new(), "", 4).unwrap().is_empty());
}

#[test]
fn file_minimap_uses_the_filtered_view() {
    let mut session = Session::new();
    session.open_file("a.log".to_string(), make_map(b"ERROR a\nINFO b\nERROR c\n"));
    session.apply_filters(vec![filter("f", "ERROR", true)], "").unwrap();
    let data = session.get_minimap_data(vec![filter("f", "ERROR", true)], "", 1).unwrap();
    assert_eq!(data.len(), 1);
    assert_eq!(data[0].span, 2);
    assert_eq!(data[0].count, 2);
}

#[test]
fn adb_line_carries_content_and_timestamp() {
    let line = logview_core::AdbLine { content: "ERROR x".to_string(), timestamp: 17 };
    let copy = line.clone();
    assert_eq!(copy.content, "ERROR x");
    assert_eq!(copy.timestamp, 17);
}

#[test]
fn flush_on_a_full_batch_or_elapsed_time() {
    assert!(should_flush(100, 0));
    assert!(should_flush(250, 0));
    assert!(!should_flush(99, 99));
    assert!(should_flush(1, 100));
    assert!(should_flush(99, 250));
    assert!(!should_flush(0, 250));
    assert!(!should_flush(0, 0));
}
