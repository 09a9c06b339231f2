use tengok::display_relative_path;
use tengok::ellipsize_middle;
use tengok::format_num;
use tengok::truncate;

#[test]
fn ellipsize_leaves_short_strings_alone() {
    assert_eq!(ellipsize_middle("short.txt", 20), "short.txt");
}

#[test]
fn ellipsize_compacts_middle_and_keeps_ends() {
    let original = "somefilenameisverylong.txt";
    assert_eq!(ellipsize_middle(original, 20), "somefilen…rylong.txt");
}

#[test]
fn ellipsize_degenerate_widths() {
    assert_eq!(ellipsize_middle("abcdef", 0), "");
    assert_eq!(ellipsize_middle("abcdef", 1), "…");
    assert_eq!(ellipsize_middle("abcdef", 6), "abcdef");
    assert_eq!(ellipsize_middle("abcdefg", 6), "ab…efg");
}

#[test]
fn truncate_keeps_short_and_cuts_long() {
    assert_eq!(truncate("abc", 6), "abc");
    assert_eq!(truncate("abcdef", 6), "abcdef");
    assert_eq!(truncate("abcdefg", 6), "abcde…");
    assert_eq!(truncate("", 1), "");
}

#[test]
fn format_num_groups_thousands() {
    assert_eq!(format_num(0), "0");
    assert_eq!(format_num(999), "999");
    assert_eq!(format_num(1000), "1,000");
    assert_eq!(format_num(1234567), "1,234,567");
    assert_eq!(format_num(18446744073709551615), "18,446,744,073,709,551,615");
}

#[test]
fn relative_path_strips_root() {
    assert_eq!(display_relative_path("root/sub/f.txt", "root"), "sub/f.txt");
    assert_eq!(display_relative_path("root", "root"), ".");
    assert_eq!(display_relative_path("elsewhere/f.txt", "root"), "elsewhere/f.txt");
    assert_eq!(display_relative_path("rooted/f.txt", "root"), "rooted/f.txt");
}
