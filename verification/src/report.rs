use vstd::prelude::*;

use crate::aggregate::Summary;
use crate::chars::string_of_chars;
use crate::classify::Config;
use crate::textutil::spec_format_num;
use crate::textutil::spec_truncate;
use crate::textutil::spec_ellipsize_middle;
use crate::textutil::spec_display_relative_path;
use crate::textutil::format_num;
use crate::textutil::truncate;
use crate::textutil::ellipsize_middle;
use crate::textutil::display_relative_path;

verus! {

/// What `humansize::format_size` prints for a byte count, with decimal units.
pub uninterp spec fn human_size_of(n: u64) -> Seq<char>;

/// Relies on `humansize::format_size` with the `DECIMAL` options: the text
/// depends on the byte count alone.
#[verifier::external_body]
pub(crate) fn human_size(n: u64) -> (r: String)
    ensures
        r@ == human_size_of(n),
{
    humansize::format_size(n, humansize::DECIMAL)
}

/// The number of terminal columns a string occupies.
pub uninterp spec fn display_width_of(s: Seq<char>) -> nat;

/// Relies on `unicode_width::UnicodeWidthStr::width`: the displayed column
/// count depends on the characters alone.
#[verifier::external_body]
pub(crate) fn display_width(s: &str) -> (r: usize)
    ensures
        r == display_width_of(s@),
{
    unicode_width::UnicodeWidthStr::width(s)
}

/// `n` copies of `c`.
pub open spec fn char_repeat(c: char, n: int) -> Seq<char>
    decreases n,
{
    if n <= 0 {
        Seq::empty()
    } else {
        char_repeat(c, n - 1).push(c)
    }
}

/// `n` spaces.
pub open spec fn spaces(n: int) -> Seq<char> {
    char_repeat(' ', n)
}

fn make_repeat(c: char, n: usize) -> (r: String)
    ensures
        r@ == char_repeat(c, n as int),
{
    let mut out: Vec<char> = Vec::new();
    let mut i: usize = 0;
    while i < n
        invariant
            i <= n,
            out@ == char_repeat(c, i as int),
        decreases n - i,
    {
        out.push(c);
        i += 1;
    }
    string_of_chars(&out)
}

/// `s` left-justified in a field of `w` characters.
pub open spec fn pad_right(s: Seq<char>, w: int) -> Seq<char> {
    s + spaces(w - s.len())
}

/// `s` right-justified in a field of `w` characters.
pub open spec fn pad_left(s: Seq<char>, w: int) -> Seq<char> {
    spaces(w - s.len()) + s
}

fn pad_right_exec(s: &str, w: usize) -> (r: String)
    ensures
        r@ == pad_right(s@, w as int),
{
    let n = s.unicode_len();
    let fill = if n < w {
        make_repeat(' ', w - n)
    } else {
        proof {
            assert(spaces(w - s@.len()) =~= Seq::<char>::empty());
        }
        String::new()
    };
    let base = String::from_str(s);
    base.concat(fill.as_str())
}

fn pad_left_exec(s: &str, w: usize) -> (r: String)
    ensures
        r@ == pad_left(s@, w as int),
{
    let n = s.unicode_len();
    let fill = if n < w {
        make_repeat(' ', w - n)
    } else {
        proof {
            assert(spaces(w - s@.len()) =~= Seq::<char>::empty());
        }
        String::new()
    };
    fill.concat(s)
}

/// One body row of the report box, both cells already padded to their field
/// widths.
pub struct ReportRow {
    pub label: String,
    pub value: String,
}

/// The plain text of the finished report box: the title line, the five body
/// rows, the width of a body line between the borders, and the horizontal
/// border run.
pub struct ReportLayout {
    pub title: String,
    pub rows: Vec<ReportRow>,
    pub inner_width: usize,
    pub horizontal: String,
}

/// Width of the label field.
pub const LABEL_WIDTH: usize = 6;

/// The value field never shrinks below this many columns.
pub const MIN_VALUE_WIDTH: usize = 24;

/// The value field never grows beyond this many columns.
pub const MAX_VALUE_WIDTH: usize = 96;

pub open spec fn spec_title(root: Seq<char>) -> Seq<char> {
    "Folder Summary: "@ + root
}

pub open spec fn spec_files_value(n: u64) -> Seq<char> {
    spec_format_num(n as int) + " Files"@
}

pub open spec fn spec_lines_value(n: u64) -> Seq<char> {
    spec_format_num(n as int) + " Lines"@
}

pub open spec fn spec_largest_dir_value(s: Summary, root: Seq<char>) -> Seq<char> {
    match s.largest_dir {
        Some((d, t)) => spec_display_relative_path(d@, root) + " ("@ + human_size_of(t) + ")"@,
        None => "-"@,
    }
}

pub open spec fn spec_max_file_value(s: Summary, root: Seq<char>) -> Seq<char> {
    match s.max_lines_file {
        Some(f) => spec_display_relative_path(f.path@, root) + " ("@ + spec_format_num(
            f.lines as int,
        ) + " lines, "@ + human_size_of(f.size) + ")"@,
        None => "-"@,
    }
}

pub open spec fn spec_max2(a: int, b: int) -> int {
    if a >= b {
        a
    } else {
        b
    }
}

pub open spec fn spec_clamp(x: int, lo: int, hi: int) -> int {
    if x < lo {
        lo
    } else if x > hi {
        hi
    } else {
        x
    }
}

/// The width of the value field: the widest of the five values, clamped to
/// the fixed bounds, then shrunk so a body line still fits the terminal.
pub open spec fn spec_value_width(s: Summary, root: Seq<char>, term_cols: Option<u16>) -> int {
    let widest = spec_max2(
        display_width_of(spec_files_value(s.total_files)) as int,
        spec_max2(
            display_width_of(human_size_of(s.total_size)) as int,
            spec_max2(
                display_width_of(spec_lines_value(s.total_lines)) as int,
                spec_max2(
                    display_width_of(spec_largest_dir_value(s, root)) as int,
                    display_width_of(spec_max_file_value(s, root)) as int,
                ),
            ),
        ),
    );
    let vw = spec_clamp(widest, MIN_VALUE_WIDTH as int, MAX_VALUE_WIDTH as int);
    match term_cols {
        Some(cols) => {
            let max_inner = if cols >= 3 {
                cols - 3
            } else {
                0int
            };
            if max_inner > LABEL_WIDTH + 3 {
                let max_value = max_inner - (LABEL_WIDTH + 3);
                if vw > max_value {
                    max_value
                } else {
                    vw
                }
            } else {
                vw
            }
        },
        None => vw,
    }
}

/// A label cell: the label, shortened if ever needed, left-justified in its
/// field.
pub open spec fn spec_label_cell(l: Seq<char>) -> Seq<char> {
    pad_right(spec_truncate(l, LABEL_WIDTH as int), LABEL_WIDTH as int)
}

/// A value cell: the value, middle-ellipsized to the field, right-justified.
pub open spec fn spec_value_cell(v: Seq<char>, w: int) -> Seq<char> {
    pad_left(spec_ellipsize_middle(v, w), w)
}

fn exec_max2(a: usize, b: usize) -> (r: usize)
    ensures
        r == spec_max2(a as int, b as int),
{
    if a >= b {
        a
    } else {
        b
    }
}

fn label_cell(l: &str) -> (r: String)
    ensures
        r@ == spec_label_cell(l@),
{
    let t = truncate(l, LABEL_WIDTH);
    pad_right_exec(t.as_str(), LABEL_WIDTH)
}

fn value_cell(v: &str, w: usize) -> (r: String)
    ensures
        r@ == spec_value_cell(v@, w as int),
{
    let e = ellipsize_middle(v, w);
    pad_left_exec(e.as_str(), w)
}

/// Lay out the report box for a finished summary: compose the five values,
/// size the value field to the widest one within the fixed bounds and the
/// terminal width, and pad every cell to its field.
pub fn build_report(config: &Config, summary: &Summary, term_cols: Option<u16>) -> (r:
    ReportLayout)
    ensures
        r.inner_width == LABEL_WIDTH + 3 + spec_value_width(*summary, config.root@, term_cols),
        r.title@ == spec_truncate(spec_title(config.root@), r.inner_width as int),
        r.horizontal@ == char_repeat('\u{2500}', r.inner_width + 2),
        r.rows@.len() == 5,
        r.rows@[0].label@ == spec_label_cell("[F]"@),
        r.rows@[0].value@ == spec_value_cell(
            spec_files_value(summary.total_files),
            spec_value_width(*summary, config.root@, term_cols),
        ),
        r.rows@[1].label@ == spec_label_cell("[B]"@),
        r.rows@[1].value@ == spec_value_cell(
            human_size_of(summary.total_size),
            spec_value_width(*summary, config.root@, term_cols),
        ),
        r.rows@[2].label@ == spec_label_cell("[L]"@),
        r.rows@[2].value@ == spec_value_cell(
            spec_lines_value(summary.total_lines),
            spec_value_width(*summary, config.root@, term_cols),
        ),
        r.rows@[3].label@ == spec_label_cell("[D\u{2191}]"@),
        r.rows@[3].value@ == spec_value_cell(
            spec_largest_dir_value(*summary, config.root@),
            spec_value_width(*summary, config.root@, term_cols),
        ),
        r.rows@[4].label@ == spec_label_cell("[L\u{2191}]"@),
        r.rows@[4].value@ == spec_value_cell(
            spec_max_file_value(*summary, config.root@),
            spec_value_width(*summary, config.root@, term_cols),
        ),
{
    let files_value = format_num(summary.total_files).concat(" Files");
    let size_value = human_size(summary.total_size);
    let lines_value = format_num(summary.total_lines).concat(" Lines");

    let largest_value = match &summary.largest_dir {
        Some((d, t)) => {
            let rel = display_relative_path(d.as_str(), config.root.as_str());
            rel.concat(" (").concat(human_size(*t).as_str()).concat(")")
        },
        None => String::from_str("-"),
    };
    let max_value = match &summary.max_lines_file {
        Some(f) => {
            let rel = display_relative_path(f.path.as_str(), config.root.as_str());
            rel.concat(" (").concat(format_num(f.lines).as_str()).concat(" lines, ").concat(
                human_size(f.size).as_str(),
            ).concat(")")
        },
        None => String::from_str("-"),
    };

    let widest = exec_max2(
        display_width(files_value.as_str()),
        exec_max2(
            display_width(size_value.as_str()),
            exec_max2(
                display_width(lines_value.as_str()),
                exec_max2(
                    display_width(largest_value.as_str()),
                    display_width(max_value.as_str()),
                ),
            ),
        ),
    );
    let mut value_width = if widest < MIN_VALUE_WIDTH {
        MIN_VALUE_WIDTH
    } else if widest > MAX_VALUE_WIDTH {
        MAX_VALUE_WIDTH
    } else {
        widest
    };
    match term_cols {
        Some(cols) => {
            let cols_usize = cols as usize;
            let max_inner = if cols_usize >= 3 {
                cols_usize - 3
            } else {
                0
            };
            if max_inner > LABEL_WIDTH + 3 {
                let max_value_w = max_inner - (LABEL_WIDTH + 3);
                if value_width > max_value_w {
                    value_width = max_value_w;
                }
            }
        },
        None => {},
    }
    let inner_width = LABEL_WIDTH + 3 + value_width;

    let title_full = String::from_str("Folder Summary: ").concat(config.root.as_str());
    let title = truncate(title_full.as_str(), inner_width);
    let horizontal = make_repeat('\u{2500}', inner_width + 2);

    let mut rows: Vec<ReportRow> = Vec::new();
    rows.push(ReportRow { label: label_cell("[F]"), value: value_cell(files_value.as_str(), value_width) });
    rows.push(ReportRow { label: label_cell("[B]"), value: value_cell(size_value.as_str(), value_width) });
    rows.push(ReportRow { label: label_cell("[L]"), value: value_cell(lines_value.as_str(), value_width) });
    rows.push(
        ReportRow {
            label: label_cell("[D\u{2191}]"),
            value: value_cell(largest_value.as_str(), value_width),
        },
    );
    rows.push(
        ReportRow {
            label: label_cell("[L\u{2191}]"),
            value: value_cell(max_value.as_str(), value_width),
        },
    );

    ReportLayout { title, rows, inner_width, horizontal }
}

/// The spaces that bring a body line of the given visible width up to the
/// inner width; empty when it already fills the line.
pub fn line_padding(plain: &str, inner_width: usize) -> (r: String)
    ensures
        r@ == spaces(inner_width - display_width_of(plain@)),
{
    let w = display_width(plain);
    if w < inner_width {
        make_repeat(' ', inner_width - w)
    } else {
        proof {
            assert(spaces(inner_width - display_width_of(plain@)) =~= Seq::<char>::empty());
        }
        String::new()
    }
}

} // verus!
