//! Textual forms of Windows paths: for display and for comparison.
use vstd::prelude::*;
use crate::text::{chars_of, is_white_space, is_whitespace_char, starts_with, string_of};

verus! {

/// The result of `str::to_lowercase`: Unicode lowercase of every character.
pub uninterp spec fn unicode_lower(s: Seq<char>) -> Seq<char>;

/// Relies on `str::to_lowercase`: the result depends on the characters alone,
/// and an empty string stays empty.
#[verifier::external_body]
fn to_lowercase(s: &str) -> (r: String)
    ensures
        r@ == unicode_lower(s@),
        s@.len() == 0 ==> r@.len() == 0,
{
    s.to_lowercase()
}

/// `s` without leading and trailing whitespace.
pub open spec fn trim_ws(s: Seq<char>) -> Seq<char> {
    s.subrange(lead_ws(s, 0), trail_ws(s, s.len() as int))
}

/// Index of the first non-whitespace character from `i` on, or the length.
pub open spec fn lead_ws(s: Seq<char>, i: int) -> int
    decreases s.len() - i,
{
    if i < 0 || i >= s.len() || !is_white_space(s[i]) {
        i
    } else {
        lead_ws(s, i + 1)
    }
}

/// End of `s[..k]` once trailing whitespace is dropped, never before `lead_ws(s, 0)`.
pub open spec fn trail_ws(s: Seq<char>, k: int) -> int
    decreases k,
{
    if k <= 0 || k <= lead_ws(s, 0) || !is_white_space(s[k - 1]) {
        k
    } else {
        trail_ws(s, k - 1)
    }
}

/// `s` with every `/` turned into `\`.
pub open spec fn backslashed(s: Seq<char>) -> Seq<char> {
    s.map_values(|c: char| if c == '/' { '\\' } else { c })
}

/// `s` without a leading `\\?\` or `\??\`.
pub open spec fn strip_long_prefix(s: Seq<char>) -> Seq<char> {
    if starts_with(s, "\\\\?\\"@) || starts_with(s, "\\??\\"@) {
        s.subrange(4, s.len() as int)
    } else {
        s
    }
}

/// The comparison form of a path: trimmed, with backslashes, without a
/// long-path or NT prefix, lowercased.
pub open spec fn compare_form(s: Seq<char>) -> Seq<char> {
    unicode_lower(strip_long_prefix(backslashed(trim_ws(s))))
}

/// A path for display: `\\?\UNC\server\x` becomes `\\server\x`, and a
/// leading `\\?\` is dropped.
pub open spec fn display_form(s: Seq<char>) -> Seq<char> {
    if starts_with(s, "\\\\?\\UNC\\"@) {
        seq!['\\', '\\'] + s.subrange(8, s.len() as int)
    } else if starts_with(s, "\\\\?\\"@) {
        s.subrange(4, s.len() as int)
    } else {
        s
    }
}

fn copy_range(s: &Vec<char>, a: usize, b: usize) -> (r: Vec<char>)
    requires
        a <= b <= s.len(),
    ensures
        r@ == s@.subrange(a as int, b as int),
{
    let mut out: Vec<char> = Vec::new();
    let mut i = a;
    while i < b
        invariant
            a <= i <= b,
            b <= s.len(),
            out@ == s@.subrange(a as int, i as int),
        decreases b - i,
    {
        out.push(s[i]);
        proof {
            assert(s@.subrange(a as int, i + 1) == s@.subrange(a as int, i as int).push(s@[i as int]));
        }
        i += 1;
    }
    out
}

/// Normalizes a path for comparison: trims whitespace, turns `/` into `\`,
/// drops a leading `\\?\` or `\??\`, and lowercases.
pub fn normalize_for_compare(input: &str) -> (r: String)
    ensures
        r@ == compare_form(input@),
{
    let s = chars_of(input);
    let mut a: usize = 0;
    while a < s.len() && is_whitespace_char(s[a])
        invariant
            a <= s.len(),
            lead_ws(s@, 0) == lead_ws(s@, a as int),
        decreases s.len() - a,
    {
        a += 1;
    }
    proof {
        assert(lead_ws(s@, a as int) == a);
    }
    let mut b: usize = s.len();
    while b > a && is_whitespace_char(s[b - 1])
        invariant
            a <= b <= s.len(),
            a == lead_ws(s@, 0),
            trail_ws(s@, s@.len() as int) == trail_ws(s@, b as int),
        decreases b,
    {
        b -= 1;
    }
    let trimmed = copy_range(&s, a, b);
    let mut out: Vec<char> = Vec::new();
    let mut i: usize = 0;
    while i < trimmed.len()
        invariant
            i <= trimmed.len(),
            out@ == backslashed(trimmed@.subrange(0, i as int)),
        decreases trimmed.len() - i,
    {
        let c = trimmed[i];
        out.push(if c == '/' { '\\' } else { c });
        proof {
            assert(trimmed@.subrange(0, i + 1) == trimmed@.subrange(0, i as int).push(c));
            assert(backslashed(trimmed@.subrange(0, i + 1)) =~= backslashed(
                trimmed@.subrange(0, i as int),
            ).push(if c == '/' { '\\' } else { c }));
        }
        i += 1;
    }
    proof {
        assert(trimmed@.subrange(0, trimmed@.len() as int) == trimmed@);
        assert(trimmed@ == trim_ws(s@));
    }
    let stripped = if crate::text::starts_with_text(&out, "\\\\?\\")
        || crate::text::starts_with_text(&out, "\\??\\") {
        proof {
            reveal_strlit("\\\\?\\");
            reveal_strlit("\\??\\");
        }
        copy_range(&out, 4, out.len())
    } else {
        out
    };
    to_lowercase(string_of(&stripped).as_str())
}

/// A path as it is displayed: without the long-path prefix.
pub fn display_path(path: &str) -> (r: String)
    ensures
        r@ == display_form(path@),
{
    let s = chars_of(path);
    if crate::text::starts_with_text(&s, "\\\\?\\UNC\\") {
        proof {
            reveal_strlit("\\\\?\\UNC\\");
        }
        let mut out: Vec<char> = Vec::new();
        out.push('\\');
        out.push('\\');
        let rest = copy_range(&s, 8, s.len());
        let mut i: usize = 0;
        while i < rest.len()
            invariant
                i <= rest.len(),
                out@ == seq!['\\', '\\'] + rest@.subrange(0, i as int),
            decreases rest.len() - i,
        {
            out.push(rest[i]);
            proof {
                assert(rest@.subrange(0, i + 1) == rest@.subrange(0, i as int).push(rest@[i as int]));
            }
            i += 1;
        }
        proof {
            assert(rest@.subrange(0, rest@.len() as int) == rest@);
        }
        string_of(&out)
    } else if crate::text::starts_with_text(&s, "\\\\?\\") {
        proof {
            reveal_strlit("\\\\?\\");
        }
        string_of(&copy_range(&s, 4, s.len()))
    } else {
        path.to_owned()
    }
}

} // verus!
