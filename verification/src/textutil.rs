use vstd::prelude::*;

use crate::chars::chars_of;
use crate::chars::string_of_chars;

verus! {

/// The character for one decimal digit.
pub open spec fn digit_char(d: int) -> char {
    if d == 0 {
        '0'
    } else if d == 1 {
        '1'
    } else if d == 2 {
        '2'
    } else if d == 3 {
        '3'
    } else if d == 4 {
        '4'
    } else if d == 5 {
        '5'
    } else if d == 6 {
        '6'
    } else if d == 7 {
        '7'
    } else if d == 8 {
        '8'
    } else {
        '9'
    }
}

/// The decimal digits of `n`, most significant first.
pub open spec fn spec_digits(n: int) -> Seq<char>
    decreases n,
{
    if n < 10 {
        seq![digit_char(n)]
    } else {
        spec_digits(n / 10).push(digit_char(n % 10))
    }
}

/// Digits with a `,` after every position that has a positive multiple of
/// three digits to its right.
pub open spec fn group_from(d: Seq<char>, i: int) -> Seq<char>
    decreases d.len() - i,
{
    if i < 0 || i >= d.len() {
        Seq::empty()
    } else {
        let left = d.len() - i - 1;
        seq![d[i]] + if left > 0 && left % 3 == 0 {
            seq![',']
        } else {
            Seq::empty()
        } + group_from(d, i + 1)
    }
}

/// `n` in decimal with thousand separators.
pub open spec fn spec_format_num(n: int) -> Seq<char> {
    group_from(spec_digits(n), 0)
}

fn digit_char_exec(d: u64) -> (r: char)
    requires
        d < 10,
    ensures
        r == digit_char(d as int),
{
    match d {
        0 => '0',
        1 => '1',
        2 => '2',
        3 => '3',
        4 => '4',
        5 => '5',
        6 => '6',
        7 => '7',
        8 => '8',
        _ => '9',
    }
}

fn push_digits(n: u64, out: &mut Vec<char>)
    ensures
        final(out)@ == old(out)@ + spec_digits(n as int),
    decreases n,
{
    if n < 10 {
        out.push(digit_char_exec(n));
        proof {
            assert(out@ =~= old(out)@ + spec_digits(n as int));
        }
    } else {
        push_digits(n / 10, out);
        out.push(digit_char_exec(n % 10));
        proof {
            assert(out@ =~= old(out)@ + spec_digits(n as int));
        }
    }
}

/// Format a count in decimal with a thousand separator every three digits.
pub fn format_num(n: u64) -> (r: String)
    ensures
        r@ == spec_format_num(n as int),
{
    let mut digits: Vec<char> = Vec::new();
    push_digits(n, &mut digits);
    proof {
        assert(digits@ =~= spec_digits(n as int));
    }
    let mut out: Vec<char> = Vec::new();
    let len = digits.len();
    let mut i: usize = 0;
    while i < len
        invariant
            i <= len,
            len == digits@.len(),
            out@ + group_from(digits@, i as int) == group_from(digits@, 0),
        decreases len - i,
    {
        out.push(digits[i]);
        let left = len - i - 1;
        if left > 0 && left % 3 == 0 {
            out.push(',');
        }
        proof {
            assert(out@ + group_from(digits@, i + 1) =~= group_from(digits@, 0));
        }
        i += 1;
    }
    proof {
        assert(out@ =~= group_from(digits@, 0));
    }
    string_of_chars(&out)
}

/// The ellipsis character used when text is shortened.
pub open spec fn ellipsis() -> char {
    '\u{2026}'
}

/// The first characters of `s`, with an ellipsis when it does not fit in
/// `max` characters.
pub open spec fn spec_truncate(s: Seq<char>, max: int) -> Seq<char> {
    if s.len() <= max {
        s
    } else {
        s.subrange(0, max - 1).push(ellipsis())
    }
}

/// Keep at most `max` characters, replacing the dropped tail by an ellipsis.
pub fn truncate(s: &str, max: usize) -> (r: String)
    requires
        max > 0 || s@.len() == 0,
    ensures
        r@ == spec_truncate(s@, max as int),
{
    let cs = chars_of(s);
    if cs.len() <= max {
        let r = string_of_chars(&cs);
        return r;
    }
    let mut out: Vec<char> = Vec::new();
    let keep = max - 1;
    let mut i: usize = 0;
    while i < keep
        invariant
            i <= keep,
            keep < cs@.len(),
            cs@ == s@,
            out@ == s@.subrange(0, i as int),
        decreases keep - i,
    {
        out.push(cs[i]);
        proof {
            assert(out@ =~= s@.subrange(0, i + 1));
        }
        i += 1;
    }
    out.push('\u{2026}');
    string_of_chars(&out)
}

/// The middle of `s` replaced by an ellipsis so that both ends stay visible
/// within `max` characters; text that already fits is unchanged.
pub open spec fn spec_ellipsize_middle(s: Seq<char>, max: int) -> Seq<char> {
    if max <= 0 {
        Seq::empty()
    } else if s.len() <= max {
        s
    } else if max == 1 {
        seq![ellipsis()]
    } else {
        let keep = max - 1;
        let front = keep / 2;
        let back = keep - front;
        s.subrange(0, front) + seq![ellipsis()] + s.subrange(s.len() - back, s.len() as int)
    }
}

/// Shorten `s` to at most `max` characters by dropping characters from the
/// middle, keeping both ends.
pub fn ellipsize_middle(s: &str, max: usize) -> (r: String)
    ensures
        r@ == spec_ellipsize_middle(s@, max as int),
{
    if max == 0 {
        return String::new();
    }
    let cs = chars_of(s);
    let len = cs.len();
    if len <= max {
        return string_of_chars(&cs);
    }
    if max == 1 {
        let mut out: Vec<char> = Vec::new();
        out.push('\u{2026}');
        proof {
            assert(out@ =~= seq![ellipsis()]);
        }
        return string_of_chars(&out);
    }
    let keep = max - 1;
    let front = keep / 2;
    let back = keep - front;
    let back_start = len - back;

    let mut out: Vec<char> = Vec::new();
    let mut i: usize = 0;
    while i < front
        invariant
            i <= front,
            front < cs@.len(),
            cs@ == s@,
            out@ == s@.subrange(0, i as int),
        decreases front - i,
    {
        out.push(cs[i]);
        proof {
            assert(out@ =~= s@.subrange(0, i + 1));
        }
        i += 1;
    }
    out.push('\u{2026}');
    let mut j: usize = back_start;
    while j < len
        invariant
            back_start <= j <= len,
            len == cs@.len(),
            cs@ == s@,
            front < len,
            back_start == len - back,
            out@ == s@.subrange(0, front as int) + seq![ellipsis()] + s@.subrange(
                back_start as int,
                j as int,
            ),
        decreases len - j,
    {
        out.push(cs[j]);
        proof {
            assert(out@ =~= s@.subrange(0, front as int) + seq![ellipsis()] + s@.subrange(
                back_start as int,
                j + 1,
            ));
        }
        j += 1;
    }
    string_of_chars(&out)
}

/// `p` shown relative to `root`: the root itself becomes `.`, a path under
/// the root loses the root and its separator, anything else is unchanged.
/// The root is taken without a trailing separator.
pub open spec fn spec_display_relative_path(p: Seq<char>, root: Seq<char>) -> Seq<char> {
    if p == root {
        seq!['.']
    } else if root.len() == 0 {
        p
    } else if p.len() > root.len() && p.subrange(0, root.len() as int) == root && p[root.len() as int]
        == '/' {
        p.subrange(root.len() as int + 1, p.len() as int)
    } else {
        p
    }
}

/// Show a path relative to the scan root when it lies under it.
pub fn display_relative_path(path: &str, root: &str) -> (r: String)
    ensures
        r@ == spec_display_relative_path(path@, root@),
{
    let pc = chars_of(path);
    let rc = chars_of(root);
    let plen = pc.len();
    let rlen = rc.len();

    // Does the path equal the root?
    if plen == rlen {
        let mut i: usize = 0;
        let mut eq = true;
        while i < plen && eq
            invariant
                i <= plen,
                plen == pc@.len() == rc@.len(),
                pc@ == path@,
                rc@ == root@,
                eq ==> forall|k: int| 0 <= k < i ==> pc@[k] == rc@[k],
                !eq ==> path@ != root@,
            decreases plen - i,
        {
            if pc[i] != rc[i] {
                eq = false;
            }
            i += 1;
        }
        if eq {
            proof {
                assert(path@ =~= root@);
            }
            let mut out: Vec<char> = Vec::new();
            out.push('.');
            proof {
                assert(out@ =~= seq!['.']);
            }
            return string_of_chars(&out);
        }
        return string_of_chars(&pc);
    }
    if rlen == 0 {
        return string_of_chars(&pc);
    }
    if plen <= rlen {
        proof {
            assert(path@ != root@);
        }
        return string_of_chars(&pc);
    }
    // Does the path start with the root followed by a separator?
    let mut i: usize = 0;
    let mut pref = true;
    while i < rlen && pref
        invariant
            i <= rlen,
            rlen == rc@.len(),
            rlen < pc@.len(),
            pc@ == path@,
            rc@ == root@,
            pref ==> forall|k: int| 0 <= k < i ==> pc@[k] == rc@[k],
            !pref ==> path@.subrange(0, rlen as int) != root@,
        decreases rlen - i,
    {
        if pc[i] != rc[i] {
            proof {
                assert(path@.subrange(0, rlen as int)[i as int] != root@[i as int]);
            }
            pref = false;
        }
        i += 1;
    }
    proof {
        assert(path@ != root@);
    }
    if pref && pc[rlen] == '/' {
        proof {
            assert(path@.subrange(0, rlen as int) =~= root@);
        }
        let mut out: Vec<char> = Vec::new();
        let mut j: usize = rlen + 1;
        while j < plen
            invariant
                rlen + 1 <= j <= plen,
                plen == pc@.len(),
                pc@ == path@,
                out@ == path@.subrange(rlen + 1, j as int),
            decreases plen - j,
        {
            out.push(pc[j]);
            proof {
                assert(out@ =~= path@.subrange(rlen + 1, j + 1));
            }
            j += 1;
        }
        return string_of_chars(&out);
    }
    proof {
        if pref {
            assert(path@.subrange(0, rlen as int) =~= root@);
            assert(path@[rlen as int] != '/');
        }
    }
    string_of_chars(&pc)
}

} // verus!
