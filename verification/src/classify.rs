use vstd::prelude::*;

use crate::chars::chars_of;
use crate::chars::chars_eq_str;
use crate::chars::lower_chars;
use crate::chars::lower_seq;

verus! {

/// Default ceiling, in bytes, above which line counting is skipped (about 5 MiB).
pub const DEFAULT_MAX_LINE_BYTES: u64 = 5 * 1024 * 1024;

/// Resolved options for one scan. Immutable once built; every worker reads the
/// same snapshot.
#[derive(Debug)]
pub struct Config {
    /// Root directory of the scan.
    pub root: String,
    /// Disable colors and the live progress line.
    pub plain: bool,
    /// Never count lines.
    pub skip_lines: bool,
    /// Always count lines, even for large or binary-looking files.
    pub force_lines: bool,
    /// Only count lines for files of at most this many bytes; 0 disables the ceiling.
    pub max_line_bytes: u64,
}

/// The mathematical image of a `Config`.
pub ghost struct ConfigModel {
    pub root: Seq<char>,
    pub plain: bool,
    pub skip_lines: bool,
    pub force_lines: bool,
    pub max_line_bytes: u64,
}

impl View for Config {
    type V = ConfigModel;

    open spec fn view(&self) -> ConfigModel {
        ConfigModel {
            root: self.root@,
            plain: self.plain,
            skip_lines: self.skip_lines,
            force_lines: self.force_lines,
            max_line_bytes: self.max_line_bytes,
        }
    }
}

/// The index where the file name begins: right after the last `/`, or 0 when
/// the path holds none.
pub open spec fn file_name_start(p: Seq<char>) -> int
    decreases p.len(),
{
    if p.len() == 0 {
        0
    } else if p.last() == '/' {
        p.len() as int
    } else {
        file_name_start(p.drop_last())
    }
}

/// The file name: everything after the last `/`.
pub open spec fn file_name_of(p: Seq<char>) -> Seq<char> {
    p.subrange(file_name_start(p), p.len() as int)
}

/// The index of the last `.` in the sequence, or -1 when there is none.
pub open spec fn last_dot(f: Seq<char>) -> int
    decreases f.len(),
{
    if f.len() == 0 {
        -1
    } else if f.last() == '.' {
        f.len() - 1
    } else {
        last_dot(f.drop_last())
    }
}

/// The path's extension: the part of the file name after its last `.`, absent
/// when the file name holds no `.` or only a leading one (a hidden file).
pub open spec fn spec_extension(p: Seq<char>) -> Option<Seq<char>> {
    let f = file_name_of(p);
    let d = last_dot(f);
    if d > 0 {
        Some(f.subrange(d + 1, f.len() as int))
    } else {
        None
    }
}

proof fn lemma_file_name_start_bounds(p: Seq<char>)
    ensures
        0 <= file_name_start(p) <= p.len(),
        file_name_start(p) > 0 ==> p[file_name_start(p) - 1] == '/',
        forall|j: int| file_name_start(p) <= j < p.len() ==> p[j] != '/',
    decreases p.len(),
{
    if p.len() == 0 {
    } else if p.last() == '/' {
    } else {
        lemma_file_name_start_bounds(p.drop_last());
        assert forall|j: int| file_name_start(p) <= j < p.len() implies p[j] != '/' by {
            if j < p.len() - 1 {
                assert(p.drop_last()[j] != '/');
            }
        }
    }
}

proof fn lemma_last_dot_bounds(f: Seq<char>)
    ensures
        -1 <= last_dot(f) < f.len(),
        last_dot(f) >= 0 ==> f[last_dot(f)] == '.',
        forall|j: int| last_dot(f) < j < f.len() ==> f[j] != '.',
    decreases f.len(),
{
    if f.len() == 0 {
    } else if f.last() == '.' {
    } else {
        lemma_last_dot_bounds(f.drop_last());
        assert forall|j: int| last_dot(f) < j < f.len() implies f[j] != '.' by {
            if j < f.len() - 1 {
                assert(f.drop_last()[j] != '.');
            }
        }
    }
}

/// `file_name_start` is the only index meeting its characterization, so a
/// backward scan that stops at the first `/` finds it.
proof fn lemma_file_name_start_unique(p: Seq<char>, s: int)
    requires
        0 <= s <= p.len(),
        s > 0 ==> p[s - 1] == '/',
        forall|j: int| s <= j < p.len() ==> p[j] != '/',
    ensures
        s == file_name_start(p),
{
    lemma_file_name_start_bounds(p);
    let t = file_name_start(p);
    if s < t {
        assert(p[t - 1] == '/');
    } else if t < s {
        assert(p[s - 1] == '/');
    }
}

proof fn lemma_last_dot_unique(f: Seq<char>, d: int)
    requires
        -1 <= d < f.len(),
        d >= 0 ==> f[d] == '.',
        forall|j: int| d < j < f.len() ==> f[j] != '.',
    ensures
        d == last_dot(f),
{
    lemma_last_dot_bounds(f);
    let t = last_dot(f);
    if d < t {
        assert(f[t] == '.');
    } else if t < d {
        assert(f[d] == '.');
    }
}

/// The characters of the path's extension, when it has one.
fn extension_chars(p: &Vec<char>) -> (r: Option<Vec<char>>)
    ensures
        match r {
            Some(e) => spec_extension(p@) == Some(e@),
            None => spec_extension(p@) is None,
        },
{
    let n = p.len();
    // Find the start of the file name: one past the last '/'.
    let mut s: usize = n;
    while s > 0 && p[s - 1] != '/'
        invariant
            s <= n,
            n == p@.len(),
            forall|j: int| s <= j < n ==> p@[j] != '/',
        decreases s,
    {
        s -= 1;
    }
    proof {
        lemma_file_name_start_unique(p@, s as int);
    }
    // Find the position right after the last '.' inside the file name.
    let mut d: usize = n;
    while d > s && p[d - 1] != '.'
        invariant
            s <= d <= n,
            n == p@.len(),
            forall|j: int| d <= j < n ==> p@[j] != '.',
        decreases d,
    {
        d -= 1;
    }
    proof {
        let f = file_name_of(p@);
        assert(f.len() == n - s);
        if d > s {
            assert(f[d - 1 - s] == '.');
            assert forall|j: int| d - 1 - s < j < f.len() implies f[j] != '.' by {
                assert(p@[j + s] != '.');
            }
            lemma_last_dot_unique(f, d - 1 - s);
        } else {
            assert forall|j: int| -1 < j < f.len() implies f[j] != '.' by {
                assert(p@[j + s] != '.');
            }
            lemma_last_dot_unique(f, -1);
        }
    }
    if d - s <= 1 {
        // No dot in the file name, or only a leading one.
        return None;
    }
    let mut e: Vec<char> = Vec::new();
    let mut i: usize = d;
    while i < n
        invariant
            d <= i <= n,
            n == p@.len(),
            e@ == p@.subrange(d as int, i as int),
        decreases n - i,
    {
        e.push(p[i]);
        proof {
            assert(e@ =~= p@.subrange(d as int, i + 1));
        }
        i += 1;
    }
    proof {
        let f = file_name_of(p@);
        assert(e@ =~= f.subrange(d - s as int, f.len() as int));
    }
    Some(e)
}

/// Extensions treated as binary content: images, archives, audio/video,
/// fonts, executables and libraries. Line counting is skipped for these.
pub open spec fn is_binary_ext(e: Seq<char>) -> bool {
    ||| e == "png"@
    ||| e == "jpg"@
    ||| e == "jpeg"@
    ||| e == "gif"@
    ||| e == "bmp"@
    ||| e == "webp"@
    ||| e == "ico"@
    ||| e == "svg"@
    ||| e == "tif"@
    ||| e == "tiff"@
    ||| e == "pdf"@
    ||| e == "zip"@
    ||| e == "gz"@
    ||| e == "bz2"@
    ||| e == "xz"@
    ||| e == "7z"@
    ||| e == "tar"@
    ||| e == "rar"@
    ||| e == "mp4"@
    ||| e == "mov"@
    ||| e == "avi"@
    ||| e == "mkv"@
    ||| e == "mp3"@
    ||| e == "wav"@
    ||| e == "flac"@
    ||| e == "ogg"@
    ||| e == "ttf"@
    ||| e == "otf"@
    ||| e == "woff"@
    ||| e == "woff2"@
    ||| e == "exe"@
    ||| e == "dll"@
    ||| e == "so"@
    ||| e == "dylib"@
    ||| e == "class"@
    ||| e == "jar"@
    ||| e == "bin"@
}

fn is_binary_ext_exec(e: &Vec<char>) -> (r: bool)
    ensures
        r == is_binary_ext(e@),
{
    chars_eq_str(e, "png") || chars_eq_str(e, "jpg") || chars_eq_str(e, "jpeg")
        || chars_eq_str(e, "gif") || chars_eq_str(e, "bmp") || chars_eq_str(e, "webp")
        || chars_eq_str(e, "ico") || chars_eq_str(e, "svg") || chars_eq_str(e, "tif")
        || chars_eq_str(e, "tiff") || chars_eq_str(e, "pdf") || chars_eq_str(e, "zip")
        || chars_eq_str(e, "gz") || chars_eq_str(e, "bz2") || chars_eq_str(e, "xz")
        || chars_eq_str(e, "7z") || chars_eq_str(e, "tar") || chars_eq_str(e, "rar")
        || chars_eq_str(e, "mp4") || chars_eq_str(e, "mov") || chars_eq_str(e, "avi")
        || chars_eq_str(e, "mkv") || chars_eq_str(e, "mp3") || chars_eq_str(e, "wav")
        || chars_eq_str(e, "flac") || chars_eq_str(e, "ogg") || chars_eq_str(e, "ttf")
        || chars_eq_str(e, "otf") || chars_eq_str(e, "woff") || chars_eq_str(e, "woff2")
        || chars_eq_str(e, "exe") || chars_eq_str(e, "dll") || chars_eq_str(e, "so")
        || chars_eq_str(e, "dylib") || chars_eq_str(e, "class") || chars_eq_str(e, "jar")
        || chars_eq_str(e, "bin")
}

/// Whether line counting should be attempted for a file at `path` of `size`
/// bytes. The rules apply in order, first match wins: skip-lines wins over
/// everything, then force-lines, then the byte ceiling, then the binary
/// extension denylist; otherwise the file's lines are counted.
pub open spec fn spec_should_count_lines(path: Seq<char>, size: u64, c: Config) -> bool {
    if c.skip_lines {
        false
    } else if c.force_lines {
        true
    } else if c.max_line_bytes > 0 && size > c.max_line_bytes {
        false
    } else {
        match spec_extension(path) {
            Some(e) => !is_binary_ext(lower_seq(e)),
            None => true,
        }
    }
}

/// Decide whether to count lines for one file; a pure function of the path,
/// the size and the configuration.
pub fn should_count_lines(path: &str, size: u64, config: &Config) -> (r: bool)
    ensures
        r == spec_should_count_lines(path@, size, *config),
{
    if config.skip_lines {
        return false;
    }
    if config.force_lines {
        return true;
    }
    if config.max_line_bytes > 0 && size > config.max_line_bytes {
        return false;
    }
    let cs = chars_of(path);
    match extension_chars(&cs) {
        Some(e) => {
            let low = lower_chars(&e);
            !is_binary_ext_exec(&low)
        },
        None => true,
    }
}

/// The classifier's rules, each stated on its own: skipping wins over all,
/// forcing wins over the ceiling and the denylist, the ceiling rejects only
/// strictly oversized files, and a file rejected by neither rule is counted.
pub proof fn lemma_classifier_rules(path: Seq<char>, size: u64, c: Config)
    ensures
        c.skip_lines ==> !spec_should_count_lines(path, size, c),
        !c.skip_lines && c.force_lines ==> spec_should_count_lines(path, size, c),
        !c.skip_lines && !c.force_lines && c.max_line_bytes > 0 && size > c.max_line_bytes
            ==> !spec_should_count_lines(path, size, c),
        !c.skip_lines && !c.force_lines && (c.max_line_bytes == 0 || size <= c.max_line_bytes)
            && (spec_extension(path) matches Some(e) && is_binary_ext(lower_seq(e)))
            ==> !spec_should_count_lines(path, size, c),
        !c.skip_lines && !c.force_lines && (c.max_line_bytes == 0 || size <= c.max_line_bytes)
            && !(spec_extension(path) matches Some(e) && is_binary_ext(lower_seq(e)))
            ==> spec_should_count_lines(path, size, c),
{
}

} // verus!
