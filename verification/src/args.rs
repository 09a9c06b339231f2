use vstd::prelude::*;

use crate::chars::chars_of;
use crate::chars::str_eq;
use crate::chars::str_starts_with;
use crate::chars::spec_starts_with;
use crate::classify::Config;
use crate::classify::ConfigModel;
use crate::classify::DEFAULT_MAX_LINE_BYTES;

verus! {

/// A decimal digit.
pub open spec fn is_digit(c: char) -> bool {
    '0' <= c && c <= '9'
}

pub open spec fn digit_val(c: char) -> int {
    c as u32 - '0' as u32
}

/// A non-empty run of decimal digits.
pub open spec fn is_numeric_str(s: Seq<char>) -> bool {
    s.len() > 0 && forall|i: int| 0 <= i < s.len() ==> is_digit(#[trigger] s[i])
}

/// The number the digits denote, most significant first.
pub open spec fn numeric_value(s: Seq<char>) -> int
    decreases s.len(),
{
    if s.len() == 0 {
        0
    } else {
        numeric_value(s.drop_last()) * 10 + digit_val(s.last())
    }
}

proof fn lemma_numeric_value_nonneg(s: Seq<char>)
    requires
        forall|i: int| 0 <= i < s.len() ==> is_digit(#[trigger] s[i]),
    ensures
        numeric_value(s) >= 0,
    decreases s.len(),
{
    if s.len() > 0 {
        lemma_numeric_value_nonneg(s.drop_last());
    }
}

/// A digit string's value only grows as more digits follow.
proof fn lemma_numeric_value_extend_ge(s: Seq<char>, i: int)
    requires
        forall|k: int| 0 <= k < s.len() ==> is_digit(#[trigger] s[k]),
        0 <= i <= s.len(),
    ensures
        numeric_value(s) >= numeric_value(s.subrange(0, i)),
    decreases s.len() - i,
{
    if i < s.len() {
        lemma_numeric_value_extend_ge(s, i + 1);
        let a = s.subrange(0, i);
        let b = s.subrange(0, i + 1);
        assert(b.drop_last() =~= a);
        lemma_numeric_value_nonneg(a);
        assert(numeric_value(b) == numeric_value(a) * 10 + digit_val(b.last()));
        assert(digit_val(b.last()) >= 0);
    } else {
        assert(s.subrange(0, i) =~= s);
    }
}

/// The digits of a number that may carry one leading `+` sign.
pub open spec fn digits_part(s: Seq<char>) -> Seq<char> {
    if s.len() > 0 && s[0] == '+' {
        s.skip(1)
    } else {
        s
    }
}

/// Parse a number written as decimal digits, with an optional leading `+`;
/// absent when the text is not such a number or it exceeds the `u64` range.
pub fn parse_u64(s: &str) -> (r: Option<u64>)
    ensures
        match r {
            Some(v) => is_numeric_str(digits_part(s@)) && numeric_value(digits_part(s@))
                <= u64::MAX && v == numeric_value(digits_part(s@)),
            None => !is_numeric_str(digits_part(s@)) || numeric_value(digits_part(s@)) > u64::MAX,
        },
{
    let cs = chars_of(s);
    let n = cs.len();
    let start: usize = if n > 0 && cs[0] == '+' {
        1
    } else {
        0
    };
    let ghost d = digits_part(s@);
    proof {
        assert(d =~= s@.skip(start as int));
    }
    if n == start {
        return None;
    }
    let mut v: u64 = 0;
    let mut i: usize = start;
    while i < n
        invariant
            start <= i <= n,
            n == cs@.len(),
            cs@ == s@,
            d == digits_part(s@),
            d == s@.skip(start as int),
            d.len() == n - start,
            forall|k: int| 0 <= k < i - start ==> is_digit(#[trigger] d[k]),
            v == numeric_value(d.subrange(0, i - start)),
        decreases n - i,
    {
        let c = cs[i];
        proof {
            assert(d[i - start] == s@[i as int]);
        }
        if c < '0' || c > '9' {
            proof {
                assert(!is_digit(d[i - start]));
                assert(!is_numeric_str(d));
            }
            return None;
        }
        let dgt: u64 = ((c as u32) - ('0' as u32)) as u64;
        proof {
            assert(is_digit(d[i - start]));
            assert(dgt == digit_val(d[i - start]));
        }
        let ten: u64 = 10;
        let next = match v.checked_mul(ten) {
            Some(m) => m.checked_add(dgt),
            None => None,
        };
        match next {
            Some(w) => {
                proof {
                    assert(d.subrange(0, i - start + 1).drop_last() =~= d.subrange(0, i - start));
                    assert(d.subrange(0, i - start + 1).last() == d[i - start]);
                }
                v = w;
            },
            None => {
                proof {
                    if is_numeric_str(d) {
                        assert(d.subrange(0, i - start + 1).drop_last() =~= d.subrange(
                            0,
                            i - start,
                        ));
                        assert(d.subrange(0, i - start + 1).last() == d[i - start]);
                        assert(numeric_value(d.subrange(0, i - start + 1)) > u64::MAX);
                        lemma_numeric_value_extend_ge(d, i - start + 1);
                        assert(numeric_value(d) > u64::MAX);
                    }
                    assert(!is_numeric_str(d) || numeric_value(d) > u64::MAX);
                }
                return None;
            },
        }
        i += 1;
    }
    proof {
        assert(d.subrange(0, n - start) =~= d);
    }
    Some(v)
}

/// The options gathered while walking the argument list; the root is still
/// optional here.
pub ghost struct ArgsState {
    pub root: Option<Seq<char>>,
    pub plain: bool,
    pub skip_lines: bool,
    pub force_lines: bool,
    pub max_line_bytes: u64,
}

pub open spec fn init_args_state() -> ArgsState {
    ArgsState {
        root: None,
        plain: false,
        skip_lines: false,
        force_lines: false,
        max_line_bytes: DEFAULT_MAX_LINE_BYTES,
    }
}

pub open spec fn msg_missing_value() -> Seq<char> {
    "--max-line-bytes requires a numeric value"@
}

pub open spec fn msg_unparsable() -> Seq<char> {
    "Unable to parse --max-line-bytes"@
}

pub open spec fn msg_unknown_flag(a: Seq<char>) -> Seq<char> {
    "Unknown flag: "@ + a
}

/// A numeric argument accepted for the byte ceiling.
pub open spec fn valid_u64(s: Seq<char>) -> bool {
    is_numeric_str(digits_part(s)) && numeric_value(digits_part(s)) <= u64::MAX
}

/// One pass over the remaining arguments, first match wins per argument:
/// the presentation and line-counting switches update the state (force-lines
/// clears a prior skip-lines), `--max-line-bytes` takes the following
/// argument as its value, `--max-line-bytes=N` carries its own, any other
/// argument starting with `-` is an unknown flag, and anything else names
/// the root (the last one wins).
pub open spec fn spec_parse_args_from(args: Seq<Seq<char>>, st: ArgsState) -> Result<
    ArgsState,
    Seq<char>,
>
    decreases args.len(),
{
    if args.len() == 0 {
        Ok(st)
    } else {
        let a = args.first();
        if a == "--plain"@ || a == "--no-colors"@ {
            spec_parse_args_from(args.drop_first(), ArgsState { plain: true, ..st })
        } else if a == "--no-lines"@ {
            spec_parse_args_from(args.drop_first(), ArgsState { skip_lines: true, ..st })
        } else if a == "--force-lines"@ {
            spec_parse_args_from(
                args.drop_first(),
                ArgsState { force_lines: true, skip_lines: false, ..st },
            )
        } else if a == "--max-line-bytes"@ {
            if args.len() == 1 {
                Err(msg_missing_value())
            } else if valid_u64(args[1]) {
                spec_parse_args_from(
                    args.skip(2),
                    ArgsState { max_line_bytes: numeric_value(digits_part(args[1])) as u64, ..st },
                )
            } else {
                Err(msg_unparsable())
            }
        } else if spec_starts_with(a, "--max-line-bytes="@) {
            let v = a.skip("--max-line-bytes="@.len() as int);
            if valid_u64(v) {
                spec_parse_args_from(
                    args.drop_first(),
                    ArgsState { max_line_bytes: numeric_value(digits_part(v)) as u64, ..st },
                )
            } else {
                Err(msg_unparsable())
            }
        } else if a.len() > 0 && a[0] == '-' {
            Err(msg_unknown_flag(a))
        } else {
            spec_parse_args_from(args.drop_first(), ArgsState { root: Some(a), ..st })
        }
    }
}

/// The configuration resolved from a whole argument list: the gathered
/// options, with the root defaulting to the current directory.
pub open spec fn spec_parse_args(args: Seq<Seq<char>>) -> Result<ConfigModel, Seq<char>> {
    match spec_parse_args_from(args, init_args_state()) {
        Ok(st) => Ok(
            ConfigModel {
                root: match st.root {
                    Some(r) => r,
                    None => "."@,
                },
                plain: st.plain,
                skip_lines: st.skip_lines,
                force_lines: st.force_lines,
                max_line_bytes: st.max_line_bytes,
            },
        ),
        Err(m) => Err(m),
    }
}

/// The views of an argument list.
pub open spec fn arg_views(args: Seq<String>) -> Seq<Seq<char>> {
    args.map_values(|a: String| a@)
}

/// Resolve the command-line arguments (without the program name) into a
/// `Config`, or the error message to print.
pub fn parse_args(args: &Vec<String>) -> (r: Result<Config, String>)
    ensures
        match r {
            Ok(c) => spec_parse_args(arg_views(args@)) == Ok::<ConfigModel, Seq<char>>(c@),
            Err(m) => spec_parse_args(arg_views(args@)) == Err::<ConfigModel, Seq<char>>(m@),
        },
{
    let ghost avs = arg_views(args@);
    let mut root: Option<String> = None;
    let mut plain = false;
    let mut skip_lines = false;
    let mut force_lines = false;
    let mut max_line_bytes: u64 = DEFAULT_MAX_LINE_BYTES;

    let n = args.len();
    let mut i: usize = 0;
    proof {
        assert(avs.skip(0) =~= avs);
    }
    while i < n
        invariant
            i <= n,
            n == args@.len(),
            avs == arg_views(args@),
            spec_parse_args_from(
                avs.skip(i as int),
                ArgsState {
                    root: match root {
                        Some(r) => Some(r@),
                        None => None,
                    },
                    plain,
                    skip_lines,
                    force_lines,
                    max_line_bytes,
                },
            ) == spec_parse_args_from(avs, init_args_state()),
        decreases n - i,
    {
        proof {
            assert(avs.skip(i as int).first() == avs[i as int]);
            assert(avs.skip(i as int).drop_first() =~= avs.skip(i + 1));
            assert(avs[i as int] == args@[i as int]@);
        }
        let a = &args[i];
        if str_eq(a.as_str(), "--plain") || str_eq(a.as_str(), "--no-colors") {
            plain = true;
            i += 1;
        } else if str_eq(a.as_str(), "--no-lines") {
            skip_lines = true;
            i += 1;
        } else if str_eq(a.as_str(), "--force-lines") {
            force_lines = true;
            skip_lines = false;
            i += 1;
        } else if str_eq(a.as_str(), "--max-line-bytes") {
            if i + 1 >= n {
                proof {
                    assert(avs.skip(i as int).len() == 1);
                }
                return Err(String::from_str("--max-line-bytes requires a numeric value"));
            }
            proof {
                assert(avs.skip(i as int)[1] == avs[i + 1]);
                assert(avs[i + 1] == args@[i + 1]@);
                assert(avs.skip(i as int).skip(2) =~= avs.skip(i + 2));
            }
            let value = &args[i + 1];
            match parse_u64(value.as_str()) {
                Some(v) => {
                    max_line_bytes = v;
                    i += 2;
                },
                None => {
                    return Err(String::from_str("Unable to parse --max-line-bytes"));
                },
            }
        } else if str_starts_with(a.as_str(), "--max-line-bytes=") {
            let plen = "--max-line-bytes=".unicode_len();
            let alen = a.as_str().unicode_len();
            let value = a.as_str().substring_char(plen, alen);
            proof {
                assert(value@ =~= avs[i as int].skip("--max-line-bytes="@.len() as int));
            }
            match parse_u64(value) {
                Some(v) => {
                    max_line_bytes = v;
                    i += 1;
                },
                None => {
                    return Err(String::from_str("Unable to parse --max-line-bytes"));
                },
            }
        } else if a.as_str().unicode_len() > 0 && a.as_str().get_char(0) == '-' {
            let msg = String::from_str("Unknown flag: ").concat(a.as_str());
            return Err(msg);
        } else {
            root = Some(a.clone());
            i += 1;
        }
    }
    proof {
        assert(avs.skip(n as int) =~= Seq::<Seq<char>>::empty());
    }
    let root_str = match root {
        Some(r) => r,
        None => String::from_str("."),
    };
    Ok(Config { root: root_str, plain, skip_lines, force_lines, max_line_bytes })
}

/// The usage text printed beside argument errors.
pub open spec fn spec_usage() -> Seq<char> {
    "Usage: tengok [OPTIONS] [PATH]\n\nOptions:\n  --plain, --no-colors        Disable ANSI colors in the report\n  --no-lines                  Skip line counting entirely\n  --force-lines               Always count lines (even for large/binary files)\n  --max-line-bytes <N>        Only count lines for files up to N bytes (default ~5MB)\n"@
}

pub fn usage() -> (r: &'static str)
    ensures
        r@ == spec_usage(),
{
    "Usage: tengok [OPTIONS] [PATH]\n\nOptions:\n  --plain, --no-colors        Disable ANSI colors in the report\n  --no-lines                  Skip line counting entirely\n  --force-lines               Always count lines (even for large/binary files)\n  --max-line-bytes <N>        Only count lines for files up to N bytes (default ~5MB)\n"
}

} // verus!
