use logview_core::FilterEngine;
use logview_core::Indexer;
use logview_core::LogFilter;

fn make_map(bytes: &[u8]) -> memmap2::Mmap {
    let mut map = memmap2::MmapOptions::new().len(bytes.len()).map_anon().unwrap();
    map.copy_from_slice(bytes);
    map.make_read_only().unwrap()
}

fn make_indexer(bytes: &[u8]) -> Indexer {
    let mut indexer = Indexer::new("test.log".to_string(), make_map(bytes));
    indexer.index();
    indexer
}

fn filter(id: &str, pattern: &str, is_include: bool) -> LogFilter {
    LogFilter {
        id: id.to_string(),
        pattern: pattern.to_string(),
        is_include,
        is_enabled: true,
        color: None,
        text_color: None,
    }
}

#[test]
fn index_and_read_lines() {
    let indexer = make_indexer(b"A\nBB\r\nCCC");
    assert_eq!(indexer.line_count(), 3);
    assert_eq!(indexer.get_line(0), Some("A".to_string()));
    assert_eq!(indexer.get_line(1), Some("BB".to_string()));
    assert_eq!(indexer.get_line(2), Some("CCC".to_string()));
    assert_eq!(indexer.get_line(3), None);
}

#[test]
fn trailing_newline_adds_no_line() {
    let indexer = make_indexer(b"x\ny\n");
    assert_eq!(indexer.line_count(), 2);
    assert_eq!(indexer.get_line(1), Some("y".to_string()));
}

#[test]
fn empty_file_has_no_lines() {
    let indexer = make_indexer(b"");
    assert_eq!(indexer.line_count(), 0);
    assert_eq!(indexer.get_line(0), None);
}

#[test]
fn empty_lines_are_kept() {
    let indexer = make_indexer(b"a\n\nb");
    assert_eq!(indexer.line_count(), 3);
    assert_eq!(indexer.get_line(1), Some(String::new()));
}

#[test]
fn file_path_is_kept() {
    let indexer = make_indexer(b"x");
    assert_eq!(indexer.file_path().as_str(), "test.log");
}

#[test]
fn filtered_offsets_read_by_forward_scan() {
    let indexer = make_indexer(b"ERROR one\nINFO two\nERROR three\n");
    let engine = FilterEngine::new(vec![filter("f", "^ERROR", true)]).unwrap();
    let offsets = indexer.apply_filters(&engine);
    assert_eq!(offsets, vec![0, 19]);
    // The offsets are not contiguous: each line end must come from a scan.
    assert_eq!(indexer.get_line_from_offsets(&offsets, 0), Some("ERROR one".to_string()));
    assert_eq!(indexer.get_line_from_offsets(&offsets, 1), Some("ERROR three".to_string()));
    assert_eq!(indexer.get_line_from_offsets(&offsets, 2), None);
}

#[test]
fn raw_line_keeps_the_carriage_return() {
    let indexer = make_indexer(b"BB\r\nx");
    assert_eq!(indexer.get_line_at_offset_raw(0), "BB\r".to_string());
    assert_eq!(indexer.get_line(0), Some("BB".to_string()));
}

#[test]
fn lossy_decoding_never_fails() {
    let indexer = make_indexer(b"ok\n\xff\xfe bad");
    assert_eq!(indexer.line_count(), 2);
    let line = indexer.get_line(1).unwrap();
    assert!(line.contains('\u{fffd}'));
}

#[test]
fn minimap_of_uniform_matches_is_saturated() {
    let mut content = String::new();
    for i in 0..100 {
        content.push_str(&format!("ERROR line {}\n", i));
    }
    let indexer = make_indexer(content.as_bytes());
    let mut with_color = filter("f", "ERROR", true);
    with_color.color = Some("#abc".to_string());
    let engine = FilterEngine::new(vec![with_color]).unwrap();
    let data = indexer.get_minimap_data(&engine, 4, None);
    assert_eq!(data.len(), 4);
    for bucket in &data {
        assert_eq!(bucket.count, 25);
        assert_eq!(bucket.span, 25);
        assert_eq!(bucket.color, Some("#abc".to_string()));
        let intensity = bucket.count as f32 / bucket.span as f32;
        assert_eq!(intensity, 1.0);
    }
}

#[test]
fn minimap_counts_only_matching_lines() {
    let indexer = make_indexer(b"ERROR a\nINFO b\nERROR c\nINFO d\n");
    let engine = FilterEngine::new(vec![filter("f", "ERROR", true)]).unwrap();
    let data = indexer.get_minimap_data(&engine, 2, None);
    assert_eq!(data.len(), 2);
    assert_eq!(data[0].count, 1);
    assert_eq!(data[0].span, 2);
    assert_eq!(data[1].count, 1);
    let total: usize = data.iter().map(|b| b.count).sum();
    assert!(total <= indexer.line_count());
}

#[test]
fn minimap_over_filtered_offsets() {
    let indexer = make_indexer(b"ERROR a\nINFO b\nERROR c\n");
    let engine = FilterEngine::new(vec![filter("f", "ERROR", true)]).unwrap();
    let offsets = indexer.apply_filters(&engine);
    let data = indexer.get_minimap_data(&engine, 1, Some(&offsets));
    assert_eq!(data.len(), 1);
    assert_eq!(data[0].count, 2);
    assert_eq!(data[0].span, 2);
}

#[test]
fn file_of_only_newlines_has_empty_lines() {
    let indexer = make_indexer(b"\n\n");
    assert_eq!(indexer.line_count(), 2);
    assert_eq!(indexer.get_line(0), Some(String::new()));
    assert_eq!(indexer.get_line(1), Some(String::new()));
    assert_eq!(indexer.get_line(2), None);
}

#[test]
fn last_bucket_takes_the_remainder() {
    let indexer = make_indexer(b"a\nb\nc\nd\ne\n");
    let engine = FilterEngine::new(Vec::new()).unwrap();
    let data = indexer.get_minimap_data(&engine, 2, None);
    // Five lines over two buckets: ceiling size three, then the rest.
    assert_eq!(data.len(), 2);
    assert_eq!(data[0].span, 3);
    assert_eq!(data[1].span, 2);
}

#[test]
fn more_buckets_than_lines_leave_empty_buckets() {
    let indexer = make_indexer(b"a\nb\n");
    let engine = FilterEngine::new(Vec::new()).unwrap();
    let data = indexer.get_minimap_data(&engine, 4, None);
    assert_eq!(data.len(), 4);
    assert_eq!(data[0].span, 1);
    assert_eq!(data[1].span, 1);
    assert_eq!(data[2].span, 0);
    assert_eq!(data[2].count, 0);
    assert_eq!(data[2].color, None);
    assert_eq!(data[3].span, 0);
}

#[test]
fn minimap_without_buckets_is_empty() {
    let indexer = make_indexer(b"a\nb\n");
    let engine = FilterEngine::new(Vec::new()).unwrap();
    assert!(indexer.get_minimap_data(&engine, 0, None).is_empty());
}

#[test]
fn counts_from_offsets_count_each_filter_alone() {
    let indexer = make_indexer(b"ERROR a\nINFO b\nERROR c\n");
    let engine =
        FilterEngine::new(vec![filter("e", "ERROR", true), filter("i", "INFO", true)]).unwrap();
    let offsets = indexer.apply_filters(&engine);
    assert_eq!(offsets.len(), 3);
    let counts = engine.get_match_counts_from_offsets(&indexer, &offsets);
    assert_eq!(counts.len(), 2);
    assert_eq!(counts[0], ("e".to_string(), 2));
    assert_eq!(counts[1], ("i".to_string(), 1));
}

#[test]
fn reading_every_line_reproduces_the_file() {
    let bytes = b"alpha\nbeta\r\n\ngamma";
    let indexer = make_indexer(bytes);
    // An accept-all engine keeps every offset of the table.
    let engine = FilterEngine::new(Vec::new()).unwrap();
    let offsets = indexer.apply_filters(&engine);
    assert_eq!(offsets.len(), indexer.line_count());
    let mut rebuilt = String::new();
    for (i, offset) in offsets.iter().enumerate() {
        // Raw lines keep the carriage return; the separators put the
        // newlines back. The file does not end in a newline, so the last
        // line gets none.
        rebuilt.push_str(&indexer.get_line_at_offset_raw(*offset));
        if i + 1 < offsets.len() {
            rebuilt.push('\n');
        }
    }
    assert_eq!(rebuilt.as_bytes(), bytes);
}
