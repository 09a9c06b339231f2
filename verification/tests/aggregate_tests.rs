use tengok::Aggregator;
use tengok::FileRecord;
use tengok::Summary;

fn record(path: &str, parent: &str, size: u64, lines: u64) -> FileRecord {
    FileRecord {
        path: String::from(path),
        parent: String::from(parent),
        size,
        lines,
    }
}

fn fold_all(records: Vec<FileRecord>) -> Summary {
    let mut agg = Aggregator::new();
    for r in records {
        agg.fold(r);
    }
    agg.finish()
}

#[test]
fn empty_scan_is_all_zeroes() {
    let s = fold_all(vec![]);
    assert_eq!(s.total_files, 0);
    assert_eq!(s.total_size, 0);
    assert_eq!(s.total_lines, 0);
    assert!(s.max_lines_file.is_none());
    assert!(s.largest_dir.is_none());
}

#[test]
fn two_file_tree_with_default_settings() {
    // One text file with three lines and one image whose lines are skipped.
    let s = fold_all(vec![
        record("tree/a.txt", "tree", 30, 3),
        record("tree/img.png", "tree", 1000, 0),
    ]);
    assert_eq!(s.total_files, 2);
    assert_eq!(s.total_size, 1030);
    assert_eq!(s.total_lines, 3);
    let max = s.max_lines_file.expect("a.txt has lines");
    assert_eq!(max.path, "tree/a.txt");
    assert_eq!(max.lines, 3);
    assert_eq!(max.size, 30);
    let (dir, size) = s.largest_dir.expect("one directory was scanned");
    assert_eq!(dir, "tree");
    assert_eq!(size, 1030);
}

#[test]
fn skipped_line_counting_leaves_max_unset() {
    // The same tree scanned with line counting off: every record carries 0.
    let s = fold_all(vec![
        record("tree/a.txt", "tree", 30, 0),
        record("tree/img.png", "tree", 1000, 0),
    ]);
    assert_eq!(s.total_lines, 0);
    assert!(s.max_lines_file.is_none());
    assert_eq!(s.total_files, 2);
    assert_eq!(s.total_size, 1030);
}

#[test]
fn tie_for_max_lines_keeps_the_first_seen() {
    let s = fold_all(vec![
        record("d/first.txt", "d", 10, 5),
        record("d/second.txt", "d", 20, 5),
    ]);
    assert_eq!(s.total_lines, 10);
    let max = s.max_lines_file.expect("both have lines");
    assert_eq!(max.path, "d/first.txt");
    assert_eq!(max.lines, 5);

    let s2 = fold_all(vec![
        record("d/second.txt", "d", 20, 5),
        record("d/first.txt", "d", 10, 5),
    ]);
    let max2 = s2.max_lines_file.expect("both have lines");
    assert_eq!(max2.path, "d/second.txt");
    assert_eq!(max2.lines, 5);
}

#[test]
fn arrival_order_does_not_change_the_aggregates() {
    let a = fold_all(vec![
        record("x/a", "x", 1, 2),
        record("y/b", "y", 70, 0),
        record("x/c", "x", 40, 9),
        record("z/d", "z", 30, 4),
    ]);
    let b = fold_all(vec![
        record("z/d", "z", 30, 4),
        record("x/c", "x", 40, 9),
        record("x/a", "x", 1, 2),
        record("y/b", "y", 70, 0),
    ]);
    assert_eq!(a.total_files, b.total_files);
    assert_eq!(a.total_size, b.total_size);
    assert_eq!(a.total_lines, b.total_lines);
    assert_eq!(a.largest_dir, b.largest_dir);
    assert_eq!(
        a.max_lines_file.as_ref().map(|f| f.lines),
        b.max_lines_file.as_ref().map(|f| f.lines)
    );
}

#[test]
fn largest_dir_tie_prefers_lexicographically_smaller_path() {
    let a = fold_all(vec![
        record("beta/a", "beta", 50, 0),
        record("alpha/b", "alpha", 50, 0),
    ]);
    let (dir, size) = a.largest_dir.expect("two directories");
    assert_eq!(dir, "alpha");
    assert_eq!(size, 50);

    let b = fold_all(vec![
        record("alpha/b", "alpha", 50, 0),
        record("beta/a", "beta", 50, 0),
    ]);
    assert_eq!(b.largest_dir, Some((String::from("alpha"), 50)));
}

#[test]
fn directory_totals_do_not_recurse_into_subdirectories() {
    let s = fold_all(vec![
        record("a/f1", "a", 10, 0),
        record("a/sub/f2", "a/sub", 100, 0),
        record("a/f3", "a", 20, 0),
    ]);
    assert_eq!(s.total_size, 130);
    let (dir, size) = s.largest_dir.expect("directories were scanned");
    assert_eq!(dir, "a/sub");
    assert_eq!(size, 100);
}

#[test]
fn batch_summarizing_matches_incremental_folding() {
    let records = || {
        vec![
            record("x/a", "x", 1, 2),
            record("y/b", "y", 70, 0),
            record("x/c", "x", 40, 9),
        ]
    };
    let batch = tengok::summarize_records(records());
    let folded = fold_all(records());
    assert_eq!(batch.total_files, folded.total_files);
    assert_eq!(batch.total_size, folded.total_size);
    assert_eq!(batch.total_lines, folded.total_lines);
    assert_eq!(batch.largest_dir, folded.largest_dir);
    assert_eq!(batch.max_lines_file.map(|f| f.path), folded.max_lines_file.map(|f| f.path));
}

#[test]
fn running_totals_are_observable_mid_stream() {
    let mut agg = Aggregator::new();
    agg.fold(record("d/a", "d", 7, 2));
    assert_eq!(agg.files_so_far(), 1);
    assert_eq!(agg.size_so_far(), 7);
    assert_eq!(agg.lines_so_far(), 2);
    agg.fold(record("d/b", "d", 3, 5));
    assert_eq!(agg.files_so_far(), 2);
    assert_eq!(agg.size_so_far(), 10);
    assert_eq!(agg.lines_so_far(), 7);
}
