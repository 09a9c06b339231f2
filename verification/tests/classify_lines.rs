use tengok::Config;
use tengok::DEFAULT_MAX_LINE_BYTES;
use tengok::LineCounter;
use tengok::count_lines_bytes;
use tengok::should_count_lines;

fn config(skip: bool, force: bool, max: u64) -> Config {
    Config {
        root: String::from("."),
        plain: true,
        skip_lines: skip,
        force_lines: force,
        max_line_bytes: max,
    }
}

#[test]
fn counts_terminated_lines_exactly() {
    assert_eq!(count_lines_bytes(b"one\ntwo\nthree\n"), 3);
}

#[test]
fn counts_trailing_unterminated_content_as_one_line() {
    assert_eq!(count_lines_bytes(b"one\ntwo\nthree"), 3);
    assert_eq!(count_lines_bytes(b"no newline at all"), 1);
}

#[test]
fn counts_empty_data_as_zero_lines() {
    assert_eq!(count_lines_bytes(b""), 0);
}

#[test]
fn chunked_feeding_matches_whole_counting() {
    let mut counter = LineCounter::new();
    counter.feed(b"alpha\nbe");
    counter.feed(b"ta\ngam");
    counter.feed(b"");
    counter.feed(b"ma");
    assert_eq!(counter.finish(), count_lines_bytes(b"alpha\nbeta\ngamma"));
    assert_eq!(counter.finish(), 3);
}

#[test]
fn skip_lines_wins_over_everything() {
    assert!(!should_count_lines("a.txt", 1, &config(true, false, DEFAULT_MAX_LINE_BYTES)));
    assert!(!should_count_lines("a.txt", 1, &config(true, true, DEFAULT_MAX_LINE_BYTES)));
}

#[test]
fn force_lines_wins_over_size_and_extension() {
    assert!(should_count_lines("huge.png", u64::MAX, &config(false, true, 10)));
}

#[test]
fn size_ceiling_boundary_is_strict() {
    let c = config(false, false, 100);
    assert!(should_count_lines("a.txt", 100, &c));
    assert!(!should_count_lines("a.txt", 101, &c));
}

#[test]
fn zero_ceiling_disables_the_size_rule() {
    let c = config(false, false, 0);
    assert!(should_count_lines("a.txt", u64::MAX, &c));
}

#[test]
fn binary_extensions_are_skipped_case_insensitively() {
    let c = config(false, false, DEFAULT_MAX_LINE_BYTES);
    assert!(!should_count_lines("img.png", 10, &c));
    assert!(!should_count_lines("img.PNG", 10, &c));
    assert!(!should_count_lines("dir.png/../img.JpEg", 10, &c));
    assert!(!should_count_lines("archive.tar.gz", 10, &c));
    assert!(should_count_lines("notes.txt", 10, &c));
    assert!(should_count_lines("README", 10, &c));
}

#[test]
fn classifier_counter_and_aggregator_compose() {
    // Two in-memory "files" processed the way a worker would: classify,
    // count lines if asked, then fold the records.
    let cfg = config(false, false, DEFAULT_MAX_LINE_BYTES);
    let files: Vec<(&str, &[u8])> = vec![
        ("tree/a.txt", b"one\ntwo\nthree\n"),
        ("tree/img.png", &[0u8; 1000]),
    ];
    let mut agg = tengok::Aggregator::new();
    for (path, content) in files {
        let size = content.len() as u64;
        let lines = if should_count_lines(path, size, &cfg) {
            tengok::count_lines_bytes(content)
        } else {
            0
        };
        agg.fold(tengok::FileRecord {
            path: String::from(path),
            parent: String::from("tree"),
            size,
            lines,
        });
    }
    let s = agg.finish();
    assert_eq!(s.total_files, 2);
    assert_eq!(s.total_size, 1014);
    assert_eq!(s.total_lines, 3);
    assert_eq!(s.max_lines_file.unwrap().path, "tree/a.txt");
    assert_eq!(s.largest_dir.unwrap(), (String::from("tree"), 1014));
}

#[test]
fn hidden_files_have_no_extension() {
    let c = config(false, false, DEFAULT_MAX_LINE_BYTES);
    assert!(should_count_lines(".gitignore", 10, &c));
    assert!(should_count_lines("sub.png/.hidden", 10, &c));
}
