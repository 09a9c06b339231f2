use tengok::Config;
use tengok::DEFAULT_MAX_LINE_BYTES;
use tengok::parse_args;
use tengok::parse_u64;
use tengok::usage;

fn args(list: &[&str]) -> Vec<String> {
    list.iter().map(|s| String::from(*s)).collect()
}

fn parsed(list: &[&str]) -> Config {
    parse_args(&args(list)).expect("arguments should parse")
}

#[test]
fn no_arguments_gives_the_defaults() {
    let c = parsed(&[]);
    assert_eq!(c.root, ".");
    assert!(!c.plain);
    assert!(!c.skip_lines);
    assert!(!c.force_lines);
    assert_eq!(c.max_line_bytes, DEFAULT_MAX_LINE_BYTES);
    assert_eq!(c.max_line_bytes, 5 * 1024 * 1024);
}

#[test]
fn positional_path_becomes_the_root() {
    let c = parsed(&["some/dir"]);
    assert_eq!(c.root, "some/dir");
    let last_wins = parsed(&["first", "second"]);
    assert_eq!(last_wins.root, "second");
}

#[test]
fn plain_and_no_colors_are_synonyms() {
    assert!(parsed(&["--plain"]).plain);
    assert!(parsed(&["--no-colors"]).plain);
}

#[test]
fn no_lines_sets_skip() {
    let c = parsed(&["--no-lines"]);
    assert!(c.skip_lines);
    assert!(!c.force_lines);
}

#[test]
fn force_lines_clears_a_prior_skip() {
    let c = parsed(&["--no-lines", "--force-lines"]);
    assert!(c.force_lines);
    assert!(!c.skip_lines);
    let c2 = parsed(&["--force-lines", "--no-lines"]);
    assert!(c2.force_lines);
    assert!(c2.skip_lines);
}

#[test]
fn max_line_bytes_with_separate_value() {
    let c = parsed(&["--max-line-bytes", "123"]);
    assert_eq!(c.max_line_bytes, 123);
}

#[test]
fn max_line_bytes_with_equals_value() {
    let c = parsed(&["--max-line-bytes=456", "dir"]);
    assert_eq!(c.max_line_bytes, 456);
    assert_eq!(c.root, "dir");
}

#[test]
fn max_line_bytes_requires_a_value() {
    let err = parse_args(&args(&["--max-line-bytes"])).unwrap_err();
    assert_eq!(err, "--max-line-bytes requires a numeric value");
}

#[test]
fn unparsable_max_line_bytes_is_an_error() {
    let err = parse_args(&args(&["--max-line-bytes", "12x"])).unwrap_err();
    assert_eq!(err, "Unable to parse --max-line-bytes");
    let err2 = parse_args(&args(&["--max-line-bytes=oops"])).unwrap_err();
    assert_eq!(err2, "Unable to parse --max-line-bytes");
}

#[test]
fn unknown_flags_are_echoed() {
    let err = parse_args(&args(&["--frobnicate"])).unwrap_err();
    assert_eq!(err, "Unknown flag: --frobnicate");
    let err2 = parse_args(&args(&["-x"])).unwrap_err();
    assert_eq!(err2, "Unknown flag: -x");
}

#[test]
fn parse_u64_accepts_digit_runs_only() {
    assert_eq!(parse_u64("0"), Some(0));
    assert_eq!(parse_u64("5242880"), Some(5242880));
    assert_eq!(parse_u64("18446744073709551615"), Some(u64::MAX));
    assert_eq!(parse_u64("18446744073709551616"), None);
    assert_eq!(parse_u64(""), None);
    assert_eq!(parse_u64("12a"), None);
    assert_eq!(parse_u64("-3"), None);
}

#[test]
fn parse_u64_accepts_one_leading_plus() {
    assert_eq!(parse_u64("+123"), Some(123));
    assert_eq!(parse_u64("+"), None);
    assert_eq!(parse_u64("++1"), None);
    assert_eq!(parse_u64("1+2"), None);
}

#[test]
fn usage_names_every_flag() {
    let u = usage();
    assert!(u.starts_with("Usage: tengok"));
    assert!(u.contains("--plain"));
    assert!(u.contains("--no-lines"));
    assert!(u.contains("--force-lines"));
    assert!(u.contains("--max-line-bytes"));
}
