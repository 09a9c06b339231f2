use tengok::Config;
use tengok::FileStat;
use tengok::Summary;
use tengok::build_report;
use tengok::line_padding;

fn config(root: &str) -> Config {
    Config {
        root: String::from(root),
        plain: true,
        skip_lines: false,
        force_lines: false,
        max_line_bytes: 0,
    }
}

fn summary() -> Summary {
    Summary {
        total_files: 2,
        total_size: 1030,
        total_lines: 3,
        max_lines_file: Some(FileStat {
            path: String::from("tree/a.txt"),
            size: 30,
            lines: 3,
        }),
        largest_dir: Some((String::from("tree"), 1030)),
    }
}

#[test]
fn report_rows_carry_the_formatted_values() {
    let layout = build_report(&config("tree"), &summary(), None);
    assert_eq!(layout.rows.len(), 5);
    assert_eq!(layout.rows[0].label, "[F]   ");
    assert_eq!(layout.rows[0].value.trim_start(), "2 Files");
    assert_eq!(layout.rows[1].value.trim_start(), "1.03 kB");
    assert_eq!(layout.rows[2].value.trim_start(), "3 Lines");
    assert_eq!(layout.rows[3].value.trim_start(), ". (1.03 kB)");
    assert_eq!(layout.rows[4].value.trim_start(), "a.txt (3 lines, 30 B)");
    assert_eq!(layout.title, "Folder Summary: tree");
}

#[test]
fn value_field_obeys_the_minimum_width() {
    let layout = build_report(&config("tree"), &summary(), None);
    // Every value here is narrower than the minimum field width of 24.
    assert_eq!(layout.inner_width, 6 + 3 + 24);
    for row in &layout.rows {
        assert_eq!(row.value.chars().count(), 24);
        assert_eq!(row.label.chars().count(), 6);
    }
    assert_eq!(layout.horizontal.chars().count(), layout.inner_width + 2);
    assert!(layout.horizontal.chars().all(|c| c == '─'));
}

#[test]
fn narrow_terminals_shrink_the_value_field() {
    let layout = build_report(&config("tree"), &summary(), Some(30));
    // 30 columns leave 27 inner columns and 18 for the value field.
    assert_eq!(layout.inner_width, 6 + 3 + 18);
    assert_eq!(layout.rows[4].value.chars().count(), 18);
    // The widest value no longer fits and is middle-ellipsized.
    assert_eq!(layout.rows[4].value, "a.txt (3…es, 30 B)");
}

#[test]
fn empty_summary_renders_dashes() {
    let empty = Summary {
        total_files: 0,
        total_size: 0,
        total_lines: 0,
        max_lines_file: None,
        largest_dir: None,
    };
    let layout = build_report(&config("."), &empty, None);
    assert_eq!(layout.rows[3].value.trim_start(), "-");
    assert_eq!(layout.rows[4].value.trim_start(), "-");
    assert_eq!(layout.rows[0].value.trim_start(), "0 Files");
}

#[test]
fn line_padding_fills_to_the_inner_width() {
    assert_eq!(line_padding("abc", 10), "       ");
    assert_eq!(line_padding("abcdefghij", 10), "");
    assert_eq!(line_padding("abcdefghijk", 10), "");
}
