//! The loader-snaps classifier: finds, in the debug text that the loader
//! prints, the DLL whose dynamic load failed.
use vstd::prelude::*;
use crate::debug_run::{RunOutcome, RuntimeEvent};
use crate::order::{chars_eq, views};
use crate::search::is_sep;
use crate::text::{
    chars_of, contains_text, has_sub, lower_chars, lower_seq, matches_at, occurs_at, starts_with,
    starts_with_text, string_of,
};

verus! {

/// An ASCII letter or digit.
pub open spec fn is_alnum(c: char) -> bool {
    ('a' <= c && c <= 'z') || ('A' <= c && c <= 'Z') || ('0' <= c && c <= '9')
}

/// A character that can be part of a path to a DLL.
pub open spec fn is_name_char(c: char) -> bool {
    is_alnum(c) || c == '_' || c == '.' || c == '-' || c == '\\' || c == '/' || c == ':'
}

/// A character that can be part of a DLL basename.
pub open spec fn is_base_char(c: char) -> bool {
    is_alnum(c) || c == '_' || c == '.' || c == '-'
}

/// Start of the run of name characters that ends at `k`.
pub open spec fn walk_left(s: Seq<char>, k: int) -> int
    decreases k,
{
    if k <= 0 {
        0
    } else if is_name_char(s[k - 1]) {
        walk_left(s, k - 1)
    } else {
        k
    }
}

/// Index just after the last separator in `t[..k]`, or 0.
pub open spec fn after_last_sep(t: Seq<char>, k: int) -> int
    decreases k,
{
    if k <= 0 {
        0
    } else if is_sep(t[k - 1]) {
        k
    } else {
        after_last_sep(t, k - 1)
    }
}

/// Number of leading characters of `t` from `i` on that are not basename characters.
pub open spec fn skip_non_base(t: Seq<char>, i: int) -> int
    decreases t.len() - i,
{
    if i < 0 || i >= t.len() || is_base_char(t[i]) {
        i
    } else {
        skip_non_base(t, i + 1)
    }
}

/// End of `t[..k]` once trailing non-basename characters are dropped.
pub open spec fn trim_end_non_base(t: Seq<char>, k: int) -> int
    decreases k,
{
    if k <= 0 || is_base_char(t[k - 1]) {
        k
    } else {
        trim_end_non_base(t, k - 1)
    }
}

/// `t` without leading and trailing non-basename characters.
pub open spec fn trim_non_base(t: Seq<char>) -> Seq<char> {
    let a = skip_non_base(t, 0);
    let b = trim_end_non_base(t, t.len() as int);
    if a < b {
        t.subrange(a, b)
    } else {
        Seq::empty()
    }
}

/// The basename of the path that ends with the `.dll` found at `p`.
pub open spec fn basename_at(s: Seq<char>, p: int) -> Seq<char> {
    let token = s.subrange(walk_left(s, p), p + 4);
    trim_non_base(token.subrange(after_last_sep(token, token.len() as int), token.len() as int))
}

/// A basename worth reporting: non-empty and ending in `.dll`.
pub open spec fn is_dll_basename(b: Seq<char>) -> bool {
    b.len() >= 4 && b.subrange(b.len() - 4, b.len() as int) == ".dll"@
}

/// DLL basenames named in `s` from index `i` on, in order, with repeats.
pub open spec fn dll_mentions(s: Seq<char>, i: int) -> Seq<Seq<char>>
    decreases s.len() - i,
{
    if i < 0 || i + 4 > s.len() {
        Seq::empty()
    } else if occurs_at(s, ".dll"@, i) {
        let b = basename_at(s, i);
        if is_dll_basename(b) {
            seq![b] + dll_mentions(s, i + 4)
        } else {
            dll_mentions(s, i + 4)
        }
    } else {
        dll_mentions(s, i + 1)
    }
}

/// `s` keeping only the first occurrence of each element.
pub open spec fn first_occurrences(s: Seq<Seq<char>>) -> Seq<Seq<char>>
    decreases s.len(),
{
    if s.len() == 0 {
        Seq::empty()
    } else if s.drop_last().contains(s.last()) {
        first_occurrences(s.drop_last())
    } else {
        first_occurrences(s.drop_last()).push(s.last())
    }
}

/// The distinct DLL basenames that `s` mentions, in order of first mention.
pub open spec fn dll_basenames(s: Seq<char>) -> Seq<Seq<char>> {
    first_occurrences(dll_mentions(s, 0))
}

proof fn lemma_first_occurrences_contains(s: Seq<Seq<char>>, x: Seq<char>)
    ensures
        first_occurrences(s).contains(x) == s.contains(x),
    decreases s.len(),
{
    if s.len() > 0 {
        let t = s.drop_last();
        lemma_first_occurrences_contains(t, x);
        lemma_first_occurrences_contains(t, s.last());
        if s.contains(x) {
            let k = choose|k: int| 0 <= k < s.len() && s[k] == x;
            if k < s.len() - 1 {
                assert(t[k] == x);
            }
        }
        if t.contains(x) {
            let k = choose|k: int| 0 <= k < t.len() && t[k] == x;
            assert(s[k] == x);
        }
        let f = first_occurrences(t);
        if !t.contains(s.last()) {
            if f.push(s.last()).contains(x) && x != s.last() {
                let k = choose|k: int| 0 <= k < f.push(s.last()).len() && f.push(s.last())[k] == x;
                assert(f[k] == x);
            }
            if x == s.last() {
                assert(f.push(s.last())[f.len() as int] == x);
            }
            if f.contains(x) {
                let k = choose|k: int| 0 <= k < f.len() && f[k] == x;
                assert(f.push(s.last())[k] == x);
            }
        }
    }
}

fn is_name_char_exec(c: char) -> (r: bool)
    ensures
        r == is_name_char(c),
{
    ('a' <= c && c <= 'z') || ('A' <= c && c <= 'Z') || ('0' <= c && c <= '9') || c == '_' || c
        == '.' || c == '-' || c == '\\' || c == '/' || c == ':'
}

fn is_base_char_exec(c: char) -> (r: bool)
    ensures
        r == is_base_char(c),
{
    ('a' <= c && c <= 'z') || ('A' <= c && c <= 'Z') || ('0' <= c && c <= '9') || c == '_' || c
        == '.' || c == '-'
}

/// The basename of the path that ends with the `.dll` found at `p`.
fn basename_at_exec(s: &Vec<char>, p: usize) -> (r: Vec<char>)
    requires
        p + 4 <= s.len(),
    ensures
        r@ == basename_at(s@, p as int),
{
    let mut start = p;
    while start > 0 && is_name_char_exec(s[start - 1])
        invariant
            start <= p,
            p + 4 <= s.len(),
            walk_left(s@, p as int) == walk_left(s@, start as int),
        decreases start,
    {
        start -= 1;
    }
    let ghost token = s@.subrange(walk_left(s@, p as int), p + 4);
    // index just after the last separator of the token
    let mut k = p + 4;
    while k > start && !(s[k - 1] == '\\' || s[k - 1] == '/')
        invariant
            start <= k <= p + 4,
            start == walk_left(s@, p as int),
            p + 4 <= s.len(),
            token == s@.subrange(start as int, p + 4),
            after_last_sep(token, token.len() as int) == after_last_sep(token, k - start),
        decreases k,
    {
        assert(token[k - start - 1] == s@[k - 1]);
        k -= 1;
    }
    proof {
        if k > start {
            assert(token[k - start - 1] == s@[k - 1]);
        }
    }
    let ghost tail = token.subrange(after_last_sep(token, token.len() as int), token.len() as int);
    assert(tail =~= s@.subrange(k as int, p + 4));
    let mut a = k;
    while a < p + 4 && !is_base_char_exec(s[a])
        invariant
            k <= a <= p + 4,
            p + 4 <= s.len(),
            tail == s@.subrange(k as int, p + 4),
            skip_non_base(tail, 0) == skip_non_base(tail, a - k),
        decreases p + 4 - a,
    {
        a += 1;
    }
    let mut b = p + 4;
    while b > a && !is_base_char_exec(s[b - 1])
        invariant
            k <= a <= b <= p + 4,
            p + 4 <= s.len(),
            tail == s@.subrange(k as int, p + 4),
            trim_end_non_base(tail, tail.len() as int) == trim_end_non_base(tail, b - k),
        decreases b,
    {
        b -= 1;
    }
    proof {
        if a < p + 4 {
            assert(tail[a - k] == s@[a as int]);
        }
        assert(skip_non_base(tail, a - k) == a - k);
        if b > a {
            assert(tail[b - k - 1] == s@[b - 1]);
            assert(trim_end_non_base(tail, b - k) == b - k);
        } else {
            assert(trim_end_non_base(tail, tail.len() as int) <= a - k) by {
                lemma_trim_end_le(tail, b - k);
            }
        }
    }
    let mut out: Vec<char> = Vec::new();
    let mut i = a;
    while i < b
        invariant
            a <= i <= b,
            b <= s@.len(),
            out@ == s@.subrange(a as int, i as int),
        decreases b - i,
    {
        out.push(s[i]);
        proof {
            assert(s@.subrange(a as int, i + 1) == s@.subrange(a as int, i as int).push(s@[i as int]));
        }
        i += 1;
    }
    proof {
        if a < b {
            assert(tail.subrange(a - k, b - k) =~= s@.subrange(a as int, b as int));
        } else {
            assert(out@ =~= Seq::<char>::empty());
        }
    }
    out
}

proof fn lemma_trim_end_le(t: Seq<char>, k: int)
    ensures
        trim_end_non_base(t, k) <= k || k <= 0,
    decreases k,
{
    if k > 0 && !is_base_char(t[k - 1]) {
        lemma_trim_end_le(t, k - 1);
    }
}

} // verus!

verus! {

fn contains_chars(v: &Vec<Vec<char>>, x: &Vec<char>) -> (r: bool)
    ensures
        r == views(v@).contains(x@),
{
    let mut i: usize = 0;
    while i < v.len()
        invariant
            i <= v.len(),
            forall|k: int| 0 <= k < i ==> v@[k]@ != x@,
        decreases v.len() - i,
    {
        if chars_eq(&v[i], x) {
            assert(views(v@)[i as int] == x@);
            return true;
        }
        i += 1;
    }
    proof {
        if views(v@).contains(x@) {
            let k = choose|k: int| 0 <= k < views(v@).len() && views(v@)[k] == x@;
            assert(v@[k]@ == x@);
        }
    }
    false
}

/// The distinct DLL basenames that `s` mentions, in order of first mention.
fn dll_basenames_chars(s: &Vec<char>) -> (r: Vec<Vec<char>>)
    ensures
        views(r@) == dll_basenames(s@),
{
    let dll = chars_of(".dll");
    let mut out: Vec<Vec<char>> = Vec::new();
    let ghost mut found: Seq<Seq<char>> = Seq::empty();
    let mut i: usize = 0;
    proof {
        assert(found + dll_mentions(s@, 0) =~= dll_mentions(s@, 0));
    }
    while i < s.len() && s.len() - i >= 4
        invariant
            dll@ == ".dll"@,
            dll_mentions(s@, 0) == found + dll_mentions(s@, i as int),
            views(out@) == first_occurrences(found),
        decreases s.len() - i,
    {
        proof {
            reveal_strlit(".dll");
        }
        if matches_at(s, &dll, i) {
            let b = basename_at_exec(s, i);
            let ghost bv = b@;
            let keep = b.len() >= 4 && b[b.len() - 4] == '.' && b[b.len() - 3] == 'd' && b[b.len()
                - 2] == 'l' && b[b.len() - 1] == 'l';
            proof {
                if is_dll_basename(bv) {
                    let t = bv.subrange(bv.len() - 4, bv.len() as int);
                    assert(t[0] == '.' && t[1] == 'd' && t[2] == 'l' && t[3] == 'l');
                }
                if keep {
                    assert(bv.subrange(bv.len() - 4, bv.len() as int) =~= ".dll"@);
                }
            }
            if keep {
                let present = contains_chars(&out, &b);
                proof {
                    lemma_first_occurrences_contains(found, bv);
                    assert(found.push(bv).drop_last() == found);
                    assert(found + (seq![bv] + dll_mentions(s@, i + 4)) =~= found.push(bv)
                        + dll_mentions(s@, i + 4));
                }
                if !present {
                    let ghost before = out@;
                    out.push(b);
                    assert(views(out@) =~= views(before).push(bv));
                }
                proof {
                    found = found.push(bv);
                }
            }
            i = i + 4;
        } else {
            i = i + 1;
        }
    }
    proof {
        assert(dll_mentions(s@, i as int) == Seq::<Seq<char>>::empty());
        assert(found + Seq::<Seq<char>>::empty() =~= found);
    }
    out
}

/// The distinct DLL basenames that `text` mentions, in order of first mention:
/// for each `.dll`, the run of path characters that ends with it, cut after
/// its last separator and trimmed to basename characters.
pub fn extract_dll_basenames(text: &str) -> (r: Vec<String>)
    ensures
        r@.map_values(|x: String| x@) == dll_basenames(text@),
{
    let s = chars_of(text);
    let names = dll_basenames_chars(&s);
    let mut out: Vec<String> = Vec::new();
    let mut i: usize = 0;
    while i < names.len()
        invariant
            i <= names.len(),
            out@.map_values(|x: String| x@) == views(names@).subrange(0, i as int),
        decreases names.len() - i,
    {
        let ghost before = out@;
        out.push(string_of(&names[i]));
        proof {
            assert(out@.map_values(|x: String| x@) =~= before.map_values(|x: String| x@).push(
                names@[i as int]@,
            ));
            assert(views(names@).subrange(0, i + 1) =~= views(names@).subrange(0, i as int).push(
                names@[i as int]@,
            ));
        }
        i += 1;
    }
    proof {
        assert(views(names@).subrange(0, names@.len() as int) == views(names@));
    }
    out
}

} // verus!

verus! {

/// A DLL that loader text mentions in passing: API-set stubs and the core
/// system libraries.
pub open spec fn noise_dll(d: Seq<char>) -> bool {
    ||| starts_with(d, "api-ms-win-"@)
    ||| starts_with(d, "ext-ms-"@)
    ||| d == "ntdll.dll"@
    ||| d == "kernel32.dll"@
    ||| d == "kernelbase.dll"@
    ||| d == "user32.dll"@
    ||| d == "gdi32.dll"@
    ||| d == "advapi32.dll"@
    ||| d == "sechost.dll"@
    ||| d == "msvcrt.dll"@
    ||| d == "ucrtbase.dll"@
}

fn is_noise_chars(d: &Vec<char>) -> (r: bool)
    ensures
        r == noise_dll(d@),
{
    starts_with_text(d, "api-ms-win-") || starts_with_text(d, "ext-ms-") || equals_text(
        d,
        "ntdll.dll",
    ) || equals_text(d, "kernel32.dll") || equals_text(d, "kernelbase.dll") || equals_text(
        d,
        "user32.dll",
    ) || equals_text(d, "gdi32.dll") || equals_text(d, "advapi32.dll") || equals_text(
        d,
        "sechost.dll",
    ) || equals_text(d, "msvcrt.dll") || equals_text(d, "ucrtbase.dll")
}

fn equals_text(d: &Vec<char>, t: &str) -> (r: bool)
    ensures
        r == (d@ == t@),
{
    chars_eq(d, &chars_of(t))
}

/// `dll_lower_basename` is noise: an API-set stub or a core system library.
pub fn is_noise_dll(dll_lower_basename: &str) -> (r: bool)
    ensures
        r == noise_dll(dll_lower_basename@),
{
    is_noise_chars(&chars_of(dll_lower_basename))
}

/// An API-set stub name (`api-ms-win-*`, `ext-ms-*`), ignoring ASCII case.
pub open spec fn api_set_dll(d: Seq<char>) -> bool {
    starts_with(lower_seq(d), "api-ms-win-"@) || starts_with(lower_seq(d), "ext-ms-"@)
}

/// `dll` names an API-set stub, which the loader redirects by definition.
pub fn is_api_set_dll(dll: &str) -> (r: bool)
    ensures
        r == api_set_dll(dll@),
{
    let lower = lower_chars(&chars_of(dll));
    starts_with_text(&lower, "api-ms-win-") || starts_with_text(&lower, "ext-ms-")
}

/// The first name of `d` that is not noise.
pub open spec fn first_non_noise(d: Seq<Seq<char>>) -> Option<Seq<char>>
    decreases d.len(),
{
    if d.len() == 0 {
        None
    } else if !noise_dll(d[0]) {
        Some(d[0])
    } else {
        first_non_noise(d.drop_first())
    }
}

fn pick_best_chars(dlls: &Vec<Vec<char>>) -> (r: Option<Vec<char>>)
    ensures
        match first_non_noise(views(dlls@)) {
            Some(d) => r matches Some(x) && x@ == d,
            None => r is None,
        },
{
    let mut i: usize = 0;
    assert(views(dlls@).subrange(0, dlls@.len() as int) == views(dlls@));
    while i < dlls.len()
        invariant
            i <= dlls.len(),
            first_non_noise(views(dlls@)) == first_non_noise(views(dlls@).subrange(
                i as int,
                dlls@.len() as int,
            )),
        decreases dlls.len() - i,
    {
        let ghost rest = views(dlls@).subrange(i as int, dlls@.len() as int);
        assert(rest[0] == dlls@[i as int]@);
        if !is_noise_chars(&dlls[i]) {
            return Some(dlls[i].clone());
        }
        assert(rest.drop_first() =~= views(dlls@).subrange(i + 1, dlls@.len() as int));
        i += 1;
    }
    None
}

/// The first of `dlls` that is not noise.
pub fn pick_best_dll(dlls: &[String]) -> (r: Option<String>)
    ensures
        match first_non_noise(dlls@.map_values(|x: String| x@)) {
            Some(d) => r matches Some(x) && x@ == d,
            None => r is None,
        },
{
    let mut i: usize = 0;
    assert(dlls@.map_values(|x: String| x@).subrange(0, dlls@.len() as int) == dlls@.map_values(
        |x: String| x@,
    ));
    while i < dlls.len()
        invariant
            i <= dlls.len(),
            first_non_noise(dlls@.map_values(|x: String| x@)) == first_non_noise(
                dlls@.map_values(|x: String| x@).subrange(i as int, dlls@.len() as int),
            ),
        decreases dlls.len() - i,
    {
        let ghost all = dlls@.map_values(|x: String| x@);
        let ghost rest = all.subrange(i as int, dlls@.len() as int);
        assert(rest[0] == dlls@[i as int]@);
        let d = chars_of(dlls[i].as_str());
        if !is_noise_chars(&d) {
            return Some(dlls[i].clone());
        }
        assert(rest.drop_first() =~= all.subrange(i + 1, dlls@.len() as int));
        i += 1;
    }
    None
}

/// A hexadecimal digit.
pub open spec fn is_hex(c: char) -> bool {
    ('0' <= c && c <= '9') || ('a' <= c && c <= 'f') || ('A' <= c && c <= 'F')
}

/// The value of a hexadecimal digit.
pub open spec fn hex_val(c: char) -> int {
    if '0' <= c && c <= '9' {
        c as int - '0' as int
    } else if 'a' <= c && c <= 'f' {
        c as int - 'a' as int + 10
    } else {
        c as int - 'A' as int + 10
    }
}

/// The value of a sequence of hexadecimal digits.
pub open spec fn hex_value(d: Seq<char>) -> int
    decreases d.len(),
{
    if d.len() == 0 {
        0
    } else {
        hex_value(d.drop_last()) * 16 + hex_val(d.last())
    }
}

/// `s[i..]` opens with `0x` and eight hexadecimal digits.
pub open spec fn hex_literal_at(s: Seq<char>, i: int) -> bool {
    0 <= i && i + 10 <= s.len() && s[i] == '0' && s[i + 1] == 'x' && forall|k: int|
        i + 2 <= k < i + 10 ==> is_hex(#[trigger] s[k])
}

/// The first `0x` with eight hexadecimal digits in `s` from `i` on, as a number.
pub open spec fn first_hex_from(s: Seq<char>, i: int) -> Option<u32>
    decreases s.len() - i,
{
    if i < 0 || i + 10 > s.len() {
        None
    } else if hex_literal_at(s, i) {
        Some(hex_value(s.subrange(i + 2, i + 10)) as u32)
    } else {
        first_hex_from(s, i + 1)
    }
}

fn is_hex_exec(c: char) -> (r: bool)
    ensures
        r == is_hex(c),
{
    ('0' <= c && c <= '9') || ('a' <= c && c <= 'f') || ('A' <= c && c <= 'F')
}

fn hex_val_exec(c: char) -> (r: u64)
    requires
        is_hex(c),
    ensures
        r == hex_val(c),
        r < 16,
{
    if '0' <= c && c <= '9' {
        (c as u32 - '0' as u32) as u64
    } else if 'a' <= c && c <= 'f' {
        (c as u32 - 'a' as u32 + 10) as u64
    } else {
        (c as u32 - 'A' as u32 + 10) as u64
    }
}

fn first_hex_chars(s: &Vec<char>) -> (r: Option<u32>)
    ensures
        r == first_hex_from(s@, 0),
{
    let mut i: usize = 0;
    while i < s.len() && s.len() - i >= 10
        invariant
            first_hex_from(s@, 0) == first_hex_from(s@, i as int),
        decreases s.len() - i,
    {
        if s[i] == '0' && s[i + 1] == 'x' {
            let mut all_hex = true;
            let mut v: u64 = 0;
            let mut k: usize = 2;
            while k < 10
                invariant
                    2 <= k <= 10,
                    i + 10 <= s.len(),
                    all_hex ==> forall|j: int| i + 2 <= j < i + k ==> is_hex(#[trigger] s@[j]),
                    all_hex ==> v == hex_value(s@.subrange(i + 2, i + k)),
                    !all_hex ==> !hex_literal_at(s@, i as int),
                    v < 0x1_0000_0000,
                    all_hex ==> v < pow16((k - 2) as nat),
                decreases 10 - k,
            {
                if all_hex {
                    if is_hex_exec(s[i + k]) {
                        let ghost prev = s@.subrange(i + 2, i + k);
                        proof {
                            assert(s@.subrange(i + 2, i + k + 1).drop_last() == prev);
                            lemma_pow16_bound((k - 2) as nat);
                        }
                        v = v * 16 + hex_val_exec(s[i + k]);
                    } else {
                        all_hex = false;
                        v = 0;
                    }
                }
                k += 1;
            }
            if all_hex {
                proof {
                    lemma_pow16_bound(8);
                }
                return Some(v as u32);
            }
        }
        i += 1;
    }
    None
}

/// 16 to the power `n`.
pub open spec fn pow16(n: nat) -> int
    decreases n,
{
    if n == 0 {
        1
    } else {
        16 * pow16((n - 1) as nat)
    }
}

proof fn lemma_pow16_bound(n: nat)
    requires
        n <= 8,
    ensures
        pow16(n) <= 0x1_0000_0000,
        n < 8 ==> pow16(n) * 16 <= 0x1_0000_0000,
{
    assert(pow16(0) == 1);
    assert(pow16(1) == 16);
    assert(pow16(2) == 256);
    assert(pow16(3) == 4096);
    assert(pow16(4) == 65536);
    assert(pow16(5) == 1048576);
    assert(pow16(6) == 16777216);
    assert(pow16(7) == 268435456);
    assert(pow16(8) == 4294967296);
}

/// The first `0x` followed by eight hexadecimal digits in `text_lower`.
pub fn extract_first_hex_u32(text_lower: &str) -> (r: Option<u32>)
    ensures
        r == first_hex_from(text_lower@, 0),
{
    first_hex_chars(&chars_of(text_lower))
}

/// The line mentions a DLL and reads as a load attempt.
pub open spec fn load_attempt_line(t: Seq<char>) -> bool {
    has_sub(t, ".dll"@) && (has_sub(t, "dll name:"@) || has_sub(t, "ldrloaddll - enter"@)
        || has_sub(t, "loadlibrary"@))
}

/// The line is one of the loader's probe traces, which fail routinely.
pub open spec fn probe_line(t: Seq<char>) -> bool {
    has_sub(t, "ldrpfindknowndll - return"@) || has_sub(t, "ldrpresolvedllname - return"@)
        || has_sub(t, "ldrpresolvefilename - return"@) || has_sub(
        t,
        "ldrpfindloadeddllinternal - return"@,
    )
}

/// The line carries one of the loader-failure status codes.
pub open spec fn loader_failure_code_line(t: Seq<char>) -> bool {
    has_sub(t, "0xc0000135"@) || has_sub(t, "0x8007007e"@) || has_sub(t, "0xc000007b"@)
        || has_sub(t, "0x800700c1"@) || has_sub(t, "0xc0000139"@) || has_sub(t, "0xc0000142"@)
}

/// How strongly a line reports a failed load; 0 for none.
pub open spec fn score_of(t: Seq<char>) -> int {
    if has_sub(t, "ldrpprocesswork - error: unable to load dll"@) {
        100
    } else if has_sub(t, "- error: unable to load dll"@) {
        95
    } else if has_sub(t, "walking the import tables"@) {
        90
    } else if has_sub(t, "process initialization failed"@) || has_sub(
        t,
        "_ldrpinitialize - error"@,
    ) {
        85
    } else if has_sub(t, "ldrloaddll"@) && has_sub(t, "failed"@) {
        80
    } else if has_sub(t, "ldrpsearchpath - return"@) && loader_failure_code_line(t) {
        70
    } else {
        0
    }
}

fn load_attempt_chars(t: &Vec<char>) -> (r: bool)
    ensures
        r == load_attempt_line(t@),
{
    contains_text(t, ".dll") && (contains_text(t, "dll name:") || contains_text(
        t,
        "ldrloaddll - enter",
    ) || contains_text(t, "loadlibrary"))
}

fn probe_chars(t: &Vec<char>) -> (r: bool)
    ensures
        r == probe_line(t@),
{
    contains_text(t, "ldrpfindknowndll - return") || contains_text(t, "ldrpresolvedllname - return")
        || contains_text(t, "ldrpresolvefilename - return") || contains_text(
        t,
        "ldrpfindloadeddllinternal - return",
    )
}

fn failure_code_chars(t: &Vec<char>) -> (r: bool)
    ensures
        r == loader_failure_code_line(t@),
{
    contains_text(t, "0xc0000135") || contains_text(t, "0x8007007e") || contains_text(
        t,
        "0xc000007b",
    ) || contains_text(t, "0x800700c1") || contains_text(t, "0xc0000139") || contains_text(
        t,
        "0xc0000142",
    )
}

fn score_chars(t: &Vec<char>) -> (r: i32)
    ensures
        r == score_of(t@),
{
    if contains_text(t, "ldrpprocesswork - error: unable to load dll") {
        100
    } else if contains_text(t, "- error: unable to load dll") {
        95
    } else if contains_text(t, "walking the import tables") {
        90
    } else if contains_text(t, "process initialization failed") || contains_text(
        t,
        "_ldrpinitialize - error",
    ) {
        85
    } else if contains_text(t, "ldrloaddll") && contains_text(t, "failed") {
        80
    } else if contains_text(t, "ldrpsearchpath - return") && failure_code_chars(t) {
        70
    } else {
        0
    }
}

/// `text_lower` mentions a DLL and reads as a load attempt.
pub fn looks_like_load_attempt(text_lower: &str) -> (r: bool)
    ensures
        r == load_attempt_line(text_lower@),
{
    load_attempt_chars(&chars_of(text_lower))
}

/// `text_lower` is a loader probe trace, which the classifier ignores.
pub fn is_ignored_probe_line(text_lower: &str) -> (r: bool)
    ensures
        r == probe_line(text_lower@),
{
    probe_chars(&chars_of(text_lower))
}

/// `text_lower` carries a loader-failure status code.
pub fn has_loader_failure_code(text_lower: &str) -> (r: bool)
    ensures
        r == loader_failure_code_line(text_lower@),
{
    failure_code_chars(&chars_of(text_lower))
}

/// How strongly `text_lower` reports a failed load; 0 for none.
pub fn failure_score(text_lower: &str) -> (r: i32)
    ensures
        r == score_of(text_lower@),
{
    score_chars(&chars_of(text_lower))
}

} // verus!

verus! {

/// Index of the first `c` in `t` from `i` on, or the length.
pub open spec fn index_of(t: Seq<char>, c: char, i: int) -> int
    decreases t.len() - i,
{
    if i < 0 || i >= t.len() {
        t.len() as int
    } else if t[i] == c {
        i
    } else {
        index_of(t, c, i + 1)
    }
}

/// `t` up to the first `c`.
pub open spec fn up_to(t: Seq<char>, c: char) -> Seq<char> {
    t.subrange(0, index_of(t, c, 0))
}

/// Index of the first non-whitespace character of `t` from `i` on, or the length.
pub open spec fn skip_ws(t: Seq<char>, i: int) -> int
    decreases t.len() - i,
{
    if i < 0 || i >= t.len() || !crate::text::is_white_space(t[i]) {
        i
    } else {
        skip_ws(t, i + 1)
    }
}

/// The DLL named by an `unable to load dll:` clause: the quoted name, or the
/// text up to the next comma, reduced to its first DLL basename.
pub open spec fn unable_to_load_name(s: Seq<char>) -> Option<Seq<char>> {
    let m = "unable to load dll:"@;
    let idx = crate::text::find_from(s, m, 0);
    if idx < 0 {
        None
    } else {
        let rest0 = s.subrange(idx + m.len(), s.len() as int);
        let rest = rest0.subrange(skip_ws(rest0, 0), rest0.len() as int);
        if rest.len() == 0 {
            None
        } else {
            let cand = if rest[0] == '"' {
                up_to(rest.drop_first(), '"')
            } else if rest[0] == '\'' {
                up_to(rest.drop_first(), '\'')
            } else {
                up_to(rest, ',')
            };
            let names = dll_basenames(cand);
            if names.len() > 0 {
                Some(names[0])
            } else {
                None
            }
        }
    }
}

/// The characters of `s` from `from` up to the first `stop` (or the end).
fn take_until(s: &Vec<char>, from: usize, stop: char) -> (r: Vec<char>)
    requires
        from <= s.len(),
    ensures
        r@ == up_to(s@.subrange(from as int, s@.len() as int), stop),
{
    let ghost t = s@.subrange(from as int, s@.len() as int);
    let mut out: Vec<char> = Vec::new();
    let mut i = from;
    while i < s.len() && s[i] != stop
        invariant
            from <= i <= s.len(),
            t == s@.subrange(from as int, s@.len() as int),
            out@ == t.subrange(0, i - from),
            index_of(t, stop, 0) == index_of(t, stop, i - from),
        decreases s.len() - i,
    {
        out.push(s[i]);
        proof {
            assert(t.subrange(0, i - from + 1) == t.subrange(0, i - from).push(t[i - from]));
        }
        i += 1;
    }
    proof {
        if i < s.len() {
            assert(t[i - from] == stop);
        }
        assert(index_of(t, stop, i - from) == i - from);
    }
    out
}

fn unable_to_load_chars(s: &Vec<char>) -> (r: Option<Vec<char>>)
    ensures
        match unable_to_load_name(s@) {
            Some(d) => r matches Some(x) && x@ == d,
            None => r is None,
        },
{
    let m = chars_of("unable to load dll:");
    let idx = match crate::text::find_chars(s, &m, 0) {
        Some(i) => i,
        None => return None,
    };
    proof {
        crate::text::lemma_find_from_bounds(s@, m@, 0);
        assert(occurs_at(s@, m@, idx as int));
        assert(idx + m@.len() <= s@.len());
    }
    assert(s@.len() == s.len());
    assert(m@.len() == m.len());
    let start = idx + m.len();
    let ghost rest0 = s@.subrange(start as int, s@.len() as int);
    let mut j = start;
    while j < s.len() && crate::text::is_whitespace_char(s[j])
        invariant
            start <= j <= s.len(),
            rest0 == s@.subrange(start as int, s@.len() as int),
            skip_ws(rest0, 0) == skip_ws(rest0, j - start),
        decreases s.len() - j,
    {
        assert(rest0[j - start] == s@[j as int]);
        j += 1;
    }
    proof {
        if j < s.len() {
            assert(rest0[j - start] == s@[j as int]);
        }
        assert(skip_ws(rest0, j - start) == j - start);
    }
    let ghost rest = rest0.subrange(j - start, rest0.len() as int);
    assert(rest =~= s@.subrange(j as int, s@.len() as int));
    if j == s.len() {
        return None;
    }
    let cand = if s[j] == '"' {
        assert(rest.drop_first() =~= s@.subrange(j + 1, s@.len() as int));
        take_until(s, j + 1, '"')
    } else if s[j] == '\'' {
        assert(rest.drop_first() =~= s@.subrange(j + 1, s@.len() as int));
        take_until(s, j + 1, '\'')
    } else {
        take_until(s, j, ',')
    };
    let names = dll_basenames_chars(&cand);
    if names.len() > 0 {
        assert(views(names@)[0] == names@[0]@);
        Some(names[0].clone())
    } else {
        None
    }
}

/// The DLL named by an `unable to load dll:` clause of `text_lower`.
pub fn extract_unable_to_load_dll(text_lower: &str) -> (r: Option<String>)
    ensures
        match unable_to_load_name(text_lower@) {
            Some(d) => r matches Some(x) && x@ == d,
            None => r is None,
        },
{
    match unable_to_load_chars(&chars_of(text_lower)) {
        Some(v) => Some(string_of(&v)),
        None => None,
    }
}

/// The reason reported for a failed load: from the status code where it is
/// a known one, else from the words of the line.
pub open spec fn reason_of(status: Option<u32>, t: Seq<char>) -> Seq<char> {
    if status == Some(0xC0000135u32) || status == Some(0x8007007Eu32) {
        "NOT_FOUND"@
    } else if status == Some(0xC000007Bu32) || status == Some(0x800700C1u32) {
        "BAD_IMAGE"@
    } else if has_sub(t, "not found"@) || has_sub(t, "could not be found"@) || has_sub(
        t,
        "file not found"@,
    ) {
        "NOT_FOUND"@
    } else if has_sub(t, "bad image"@) || has_sub(t, "invalid image"@) {
        "BAD_IMAGE"@
    } else {
        "OTHER"@
    }
}

fn reason_exec(status: Option<u32>, t: &Vec<char>) -> (r: &'static str)
    ensures
        r@ == reason_of(status, t@),
{
    match status {
        Some(v) => {
            if v == 0xC0000135u32 || v == 0x8007007Eu32 {
                return "NOT_FOUND";
            }
            if v == 0xC000007Bu32 || v == 0x800700C1u32 {
                return "BAD_IMAGE";
            }
        },
        None => {},
    }
    if contains_text(t, "not found") || contains_text(t, "could not be found") || contains_text(
        t,
        "file not found",
    ) {
        "NOT_FOUND"
    } else if contains_text(t, "bad image") || contains_text(t, "invalid image") {
        "BAD_IMAGE"
    } else {
        "OTHER"
    }
}

} // verus!

verus! {

/// A DLL whose load failed at run time, as the loader's text reports it.
pub struct DynamicMissing {
    pub dll: String,
    pub reason: &'static str,
    pub status: Option<u32>,
}

/// A finding as plain values: DLL name, reason, status code.
pub type MissingView = (Seq<char>, Seq<char>, Option<u32>);

impl DynamicMissing {
    pub open spec fn view_of(&self) -> MissingView {
        (self.dll@, self.reason@, self.status)
    }
}

/// The load candidate after line `lower`: its best DLL where the line is a
/// load attempt, else the earlier one.
pub open spec fn next_last(lower: Seq<char>, last: Option<Seq<char>>) -> Option<Seq<char>> {
    let dlls = dll_basenames(lower);
    if dlls.len() > 0 && load_attempt_line(lower) {
        match first_non_noise(dlls) {
            Some(d) => Some(d),
            None => Some(dlls[0]),
        }
    } else {
        last
    }
}

/// What line `lower` reports, with its score, given the load candidate
/// `last` in force after it; none for probe lines and lines without a failure.
pub open spec fn line_finding(lower: Seq<char>, last: Option<Seq<char>>) -> Option<(int, MissingView)> {
    let dlls = dll_basenames(lower);
    if probe_line(lower) || score_of(lower) <= 0 {
        None
    } else {
        let status = first_hex_from(lower, 0);
        let cand = match unable_to_load_name(lower) {
            Some(d) => Some(d),
            None => match first_non_noise(dlls) {
                Some(d) => Some(d),
                None => if dlls.len() > 0 {
                    Some(dlls[0])
                } else {
                    last
                },
            },
        };
        match cand {
            None => None,
            Some(dll) => {
                let chosen = if noise_dll(dll) {
                    match first_non_noise(dlls) {
                        Some(d) => d,
                        None => match last {
                            Some(l) => l,
                            None => dll,
                        },
                    }
                } else {
                    dll
                };
                Some((score_of(lower), (chosen, reason_of(status, lower), status)))
            },
        }
    }
}

/// State of the scan after the first `k` events: the load candidate and the
/// best finding so far (highest score; the later one on a tie).
pub open spec fn scan_events(ev: Seq<RuntimeEvent>, k: int) -> (Option<Seq<char>>, Option<(int, MissingView)>)
    decreases k,
{
    if k <= 0 {
        (None, None)
    } else {
        scan_step(scan_events(ev, k - 1), ev[k - 1])
    }
}

/// The scan state after event `e`, from the state `prev` before it.
pub open spec fn scan_step(prev: (Option<Seq<char>>, Option<(int, MissingView)>), e: RuntimeEvent) -> (Option<Seq<char>>, Option<(int, MissingView)>) {
    match e {
        RuntimeEvent::DebugString(d) => {
            let lower = lower_seq(d.text@);
            let last = next_last(lower, prev.0);
            let best = match line_finding(lower, last) {
                Some(f) => match prev.1 {
                    Some(b) => if f.0 >= b.0 {
                        Some(f)
                    } else {
                        Some(b)
                    },
                    None => Some(f),
                },
                None => prev.1,
            };
            (last, best)
        },
        RuntimeEvent::RuntimeLoaded(_) => prev,
    }
}

/// The dynamic-missing finding of a run's events, if any.
pub open spec fn dynamic_missing_of(ev: Seq<RuntimeEvent>) -> Option<MissingView> {
    match scan_events(ev, ev.len() as int).1 {
        Some(b) => Some(b.1),
        None => None,
    }
}

fn line_finding_exec(lower: &Vec<char>, dlls: &Vec<Vec<char>>, last: &Option<Vec<char>>) -> (r: Option<(i32, DynamicMissing)>)
    requires
        views(dlls@) == dll_basenames(lower@),
    ensures
        match line_finding(lower@, opt_view(*last)) {
            Some(f) => r matches Some(x) && x.0 == f.0 && x.1.view_of() == f.1,
            None => r is None,
        },
{
    if probe_chars(lower) {
        return None;
    }
    let score = score_chars(lower);
    if score <= 0 {
        return None;
    }
    let status = first_hex_chars(lower);
    let best_dll = pick_best_chars(dlls);
    let cand = match unable_to_load_chars(lower) {
        Some(d) => Some(d),
        None => match &best_dll {
            Some(d) => Some(d.clone()),
            None => if dlls.len() > 0 {
                assert(views(dlls@)[0] == dlls@[0]@);
                Some(dlls[0].clone())
            } else {
                match last {
                    Some(l) => Some(l.clone()),
                    None => None,
                }
            },
        },
    };
    let dll = match cand {
        Some(d) => d,
        None => return None,
    };
    let reason = reason_exec(status, lower);
    let chosen = if is_noise_chars(&dll) {
        match &best_dll {
            Some(d) => d.clone(),
            None => match last {
                Some(l) => l.clone(),
                None => dll,
            },
        }
    } else {
        dll
    };
    Some((score, DynamicMissing { dll: string_of(&chosen), reason, status }))
}

/// The view of an optional character vector.
pub open spec fn opt_view(o: Option<Vec<char>>) -> Option<Seq<char>> {
    match o {
        Some(v) => Some(v@),
        None => None,
    }
}

/// Finds the DLL whose dynamic load failed, from the loader's debug text in
/// `outcome`: the line with the highest failure score wins (the later one on
/// a tie); probe traces are ignored; the DLL is the one an `unable to load
/// dll:` clause names, else the line's first non-noise DLL, else its first
/// DLL, else the last load attempt's.
pub fn detect_dynamic_missing_from_debug_strings(outcome: &RunOutcome) -> (r: Option<DynamicMissing>)
    ensures
        match dynamic_missing_of(outcome.runtime_events@) {
            Some(m) => r matches Some(x) && x.view_of() == m,
            None => r is None,
        },
{
    let events = &outcome.runtime_events;
    let mut last: Option<Vec<char>> = None;
    let mut best: Option<(i32, DynamicMissing)> = None;
    let mut idx: usize = 0;
    while idx < events.len()
        invariant
            idx <= events.len(),
            opt_view(last) == scan_events(events@, idx as int).0,
            match scan_events(events@, idx as int).1 {
                Some(b) => best matches Some(x) && x.0 == b.0 && x.1.view_of() == b.1,
                None => best is None,
            },
        decreases events.len() - idx,
    {
        match &events[idx] {
            RuntimeEvent::DebugString(debug) => {
                let lower = lower_chars(&chars_of(debug.text.as_str()));
                let dlls = dll_basenames_chars(&lower);
                if dlls.len() > 0 && load_attempt_chars(&lower) {
                    last = match pick_best_chars(&dlls) {
                        Some(d) => Some(d),
                        None => {
                            assert(views(dlls@)[0] == dlls@[0]@);
                            Some(dlls[0].clone())
                        },
                    };
                }
                match line_finding_exec(&lower, &dlls, &last) {
                    Some(f) => {
                        let replace = match &best {
                            Some(b) => f.0 >= b.0,
                            None => true,
                        };
                        if replace {
                            best = Some(f);
                        }
                    },
                    None => {},
                }
            },
            RuntimeEvent::RuntimeLoaded(_) => {},
        }
        idx += 1;
    }
    match best {
        Some(b) => Some(b.1),
        None => None,
    }
}

/// A probe trace never becomes the finding: the best finding after it is the
/// one before it, whatever came earlier.
pub proof fn lemma_probe_line_ignored(lower: Seq<char>, last: Option<Seq<char>>)
    requires
        probe_line(lower),
    ensures
        line_finding(lower, last) is None,
{
}

} // verus!

verus! {

/// The name of a fixture DLL of the test harness (`lwtest_*`).
pub open spec fn lwtest_name(d: Seq<char>) -> bool {
    starts_with(d, "lwtest_"@)
}

/// The dynamic-missing DLL of `outcome`, where it is one of the harness's
/// `lwtest_*` fixtures.
pub fn detect_missing_lwtest_dll_from_debug_strings(outcome: &RunOutcome) -> (r: Option<String>)
    ensures
        match dynamic_missing_of(outcome.runtime_events@) {
            Some(m) => if lwtest_name(m.0) {
                r matches Some(x) && x@ == m.0
            } else {
                r is None
            },
            None => r is None,
        },
{
    match detect_dynamic_missing_from_debug_strings(outcome) {
        Some(v) => {
            if starts_with_text(&chars_of(v.dll.as_str()), "lwtest_") {
                Some(v.dll)
            } else {
                None
            }
        },
        None => None,
    }
}

/// A quote or whitespace character.
pub open spec fn quote_or_ws(c: char) -> bool {
    c == '"' || c == '\'' || crate::text::is_white_space(c)
}

/// Leading count of `t` from `i` on that satisfies `quote_or_ws`.
pub open spec fn skip_quote_ws(t: Seq<char>, i: int) -> int
    decreases t.len() - i,
{
    if i < 0 || i >= t.len() || !quote_or_ws(t[i]) {
        i
    } else {
        skip_quote_ws(t, i + 1)
    }
}

/// End of `t[..k]` once trailing quotes and whitespace are dropped.
pub open spec fn trim_end_quote_ws(t: Seq<char>, k: int) -> int
    decreases k,
{
    if k <= 0 || !quote_or_ws(t[k - 1]) {
        k
    } else {
        trim_end_quote_ws(t, k - 1)
    }
}

/// `t` without surrounding quotes and whitespace.
pub open spec fn trim_quote_ws(t: Seq<char>) -> Seq<char> {
    let a = skip_quote_ws(t, 0);
    let b = trim_end_quote_ws(t, t.len() as int);
    if a < b {
        t.subrange(a, b)
    } else {
        Seq::empty()
    }
}

/// The fixture name that `value` denotes: its basename, lowercased, where it
/// is an `lwtest_*.dll`.
pub open spec fn fixture_basename(value: Seq<char>) -> Option<Seq<char>> {
    let t = trim_quote_ws(value);
    let base = trim_non_base(t.subrange(after_last_sep(t, t.len() as int), t.len() as int));
    let lower = lower_seq(base);
    if base.len() > 0 && starts_with(lower, "lwtest_"@) && is_dll_basename(lower) {
        Some(lower)
    } else {
        None
    }
}

fn trim_quote_ws_exec(t: &Vec<char>) -> (r: Vec<char>)
    ensures
        r@ == trim_quote_ws(t@),
{
    let mut a: usize = 0;
    while a < t.len() && (t[a] == '"' || t[a] == '\'' || crate::text::is_whitespace_char(t[a]))
        invariant
            a <= t.len(),
            skip_quote_ws(t@, 0) == skip_quote_ws(t@, a as int),
        decreases t.len() - a,
    {
        a += 1;
    }
    let mut b: usize = t.len();
    while b > a && (t[b - 1] == '"' || t[b - 1] == '\'' || crate::text::is_whitespace_char(t[b - 1]))
        invariant
            a <= b <= t.len(),
            trim_end_quote_ws(t@, t@.len() as int) == trim_end_quote_ws(t@, b as int),
        decreases b,
    {
        b -= 1;
    }
    proof {
        assert(skip_quote_ws(t@, a as int) == a);
        if b <= a {
            lemma_trim_end_quote_le(t@, b as int);
        } else {
            assert(trim_end_quote_ws(t@, b as int) == b);
        }
    }
    let mut out: Vec<char> = Vec::new();
    let mut i = a;
    while i < b
        invariant
            a <= i <= b,
            b <= t@.len(),
            out@ == t@.subrange(a as int, i as int),
        decreases b - i,
    {
        out.push(t[i]);
        proof {
            assert(t@.subrange(a as int, i + 1) == t@.subrange(a as int, i as int).push(t@[i as int]));
        }
        i += 1;
    }
    proof {
        if a >= b {
            assert(out@ =~= Seq::<char>::empty());
        }
    }
    out
}

proof fn lemma_trim_end_quote_le(t: Seq<char>, k: int)
    ensures
        trim_end_quote_ws(t, k) <= k || k <= 0,
    decreases k,
{
    if k > 0 && quote_or_ws(t[k - 1]) {
        lemma_trim_end_quote_le(t, k - 1);
    }
}

/// The fixture name that `value` denotes, where it is an `lwtest_*.dll`.
pub fn normalize_dll_basename(value: &str) -> (r: Option<String>)
    ensures
        match fixture_basename(value@) {
            Some(d) => r matches Some(x) && x@ == d,
            None => r is None,
        },
{
    let t = trim_quote_ws_exec(&chars_of(value));
    // the token after the last separator
    let mut k = t.len();
    while k > 0 && !(t[k - 1] == '\\' || t[k - 1] == '/')
        invariant
            k <= t.len(),
            after_last_sep(t@, t@.len() as int) == after_last_sep(t@, k as int),
        decreases k,
    {
        k -= 1;
    }
    let ghost tail = t@.subrange(after_last_sep(t@, t@.len() as int), t@.len() as int);
    let mut a = k;
    while a < t.len() && !is_base_char_exec(t[a])
        invariant
            k <= a <= t.len(),
            tail == t@.subrange(k as int, t@.len() as int),
            skip_non_base(tail, 0) == skip_non_base(tail, a - k),
        decreases t.len() - a,
    {
        a += 1;
    }
    let mut b = t.len();
    while b > a && !is_base_char_exec(t[b - 1])
        invariant
            k <= a <= b <= t.len(),
            tail == t@.subrange(k as int, t@.len() as int),
            trim_end_non_base(tail, tail.len() as int) == trim_end_non_base(tail, b - k),
        decreases b,
    {
        b -= 1;
    }
    proof {
        if a < t.len() {
            assert(tail[a - k] == t@[a as int]);
        }
        assert(skip_non_base(tail, a - k) == a - k);
        if b > a {
            assert(tail[b - k - 1] == t@[b - 1]);
            assert(trim_end_non_base(tail, b - k) == b - k);
        } else {
            lemma_trim_end_le(tail, b - k);
        }
    }
    let mut base: Vec<char> = Vec::new();
    let mut i = a;
    while i < b
        invariant
            a <= i <= b,
            b <= t@.len(),
            base@ == t@.subrange(a as int, i as int),
        decreases b - i,
    {
        base.push(t[i]);
        proof {
            assert(t@.subrange(a as int, i + 1) == t@.subrange(a as int, i as int).push(t@[i as int]));
        }
        i += 1;
    }
    proof {
        let tb = trim_non_base(tail);
        if a < b {
            assert(tail.subrange(a - k, b - k) =~= t@.subrange(a as int, b as int));
        } else {
            assert(base@ =~= Seq::<char>::empty());
        }
        assert(base@ == tb);
    }
    if base.len() == 0 {
        return None;
    }
    let lower = lower_chars(&base);
    let n = lower.len();
    let is_dll = n >= 4 && lower[n - 4] == '.' && lower[n - 3] == 'd' && lower[n - 2] == 'l'
        && lower[n - 1] == 'l';
    proof {
        let lv = lower@;
        if is_dll_basename(lv) {
            let e = lv.subrange(lv.len() - 4, lv.len() as int);
            reveal_strlit(".dll");
            assert(e[0] == '.' && e[1] == 'd' && e[2] == 'l' && e[3] == 'l');
        }
        if is_dll {
            reveal_strlit(".dll");
            assert(lv.subrange(lv.len() - 4, lv.len() as int) =~= ".dll"@);
        }
    }
    if starts_with_text(&lower, "lwtest_") && is_dll {
        Some(string_of(&lower))
    } else {
        None
    }
}

} // verus!

verus! {

/// End of `s[..k]` once trailing separators are dropped.
pub open spec fn trim_end_seps(s: Seq<char>, k: int) -> int
    decreases k,
{
    if k <= 0 || !is_sep(s[k - 1]) {
        k
    } else {
        trim_end_seps(s, k - 1)
    }
}

} // verus!

verus! {

/// The text trims to nothing: every character is whitespace.
pub open spec fn blank(t: Seq<char>) -> bool {
    forall|i: int| 0 <= i < t.len() ==> crate::text::is_white_space(#[trigger] t[i])
}

/// A debug line that leaves the scan as it was: blank, or a probe trace that
/// is not a load attempt.
pub open spec fn quiet_event(e: RuntimeEvent) -> bool {
    match e {
        RuntimeEvent::DebugString(d) => blank(d.text@) || (probe_line(lower_seq(d.text@))
            && !load_attempt_line(lower_seq(d.text@))),
        RuntimeEvent::RuntimeLoaded(_) => false,
    }
}

proof fn lemma_blank_no_sub(t: Seq<char>, p: Seq<char>)
    requires
        blank(t),
        p.len() > 0,
        !crate::text::is_white_space(p[0]),
    ensures
        !has_sub(t, p),
{
    if has_sub(t, p) {
        let i = choose|i: int| occurs_at(t, p, i);
        assert(t.subrange(i, i + p.len())[0] == t[i]);
    }
}

proof fn lemma_blank_line(t: Seq<char>, last: Option<Seq<char>>)
    requires
        blank(t),
    ensures
        line_finding(lower_seq(t), last) is None,
        next_last(lower_seq(t), last) == last,
{
    let l = lower_seq(t);
    assert(blank(l)) by {
        assert forall|i: int| 0 <= i < l.len() implies crate::text::is_white_space(#[trigger] l[i]) by {
            assert(crate::text::is_white_space(t[i]));
        }
    }
    reveal_strlit(".dll");
    reveal_strlit("ldrpprocesswork - error: unable to load dll");
    reveal_strlit("- error: unable to load dll");
    reveal_strlit("walking the import tables");
    reveal_strlit("process initialization failed");
    reveal_strlit("_ldrpinitialize - error");
    reveal_strlit("ldrloaddll");
    reveal_strlit("ldrpsearchpath - return");
    lemma_blank_no_sub(l, ".dll"@);
    lemma_blank_no_sub(l, "ldrpprocesswork - error: unable to load dll"@);
    lemma_blank_no_sub(l, "- error: unable to load dll"@);
    lemma_blank_no_sub(l, "walking the import tables"@);
    lemma_blank_no_sub(l, "process initialization failed"@);
    lemma_blank_no_sub(l, "_ldrpinitialize - error"@);
    lemma_blank_no_sub(l, "ldrloaddll"@);
    lemma_blank_no_sub(l, "ldrpsearchpath - return"@);
    assert(score_of(l) == 0);
}

/// The events that are not quiet, in order.
pub open spec fn loud_events(s: Seq<RuntimeEvent>) -> Seq<RuntimeEvent> {
    s.filter(|e: RuntimeEvent| !quiet_event(e))
}

/// A quiet event leaves the scan state as it was.
proof fn lemma_quiet_step(prev: (Option<Seq<char>>, Option<(int, MissingView)>), e: RuntimeEvent)
    requires
        quiet_event(e),
    ensures
        scan_step(prev, e) == prev,
{
    match e {
        RuntimeEvent::DebugString(d) => {
            if blank(d.text@) {
                lemma_blank_line(d.text@, prev.0);
            } else {
                lemma_probe_line_ignored(lower_seq(d.text@), next_last(lower_seq(d.text@), prev.0));
            }
        },
        RuntimeEvent::RuntimeLoaded(_) => {},
    }
}

proof fn lemma_scan_prefix(a: Seq<RuntimeEvent>, b: Seq<RuntimeEvent>, k: int)
    requires
        0 <= k <= a.len(),
        k <= b.len(),
        a.subrange(0, k) == b.subrange(0, k),
    ensures
        scan_events(a, k) == scan_events(b, k),
    decreases k,
{
    if k > 0 {
        assert(a.subrange(0, k - 1) == a.subrange(0, k).subrange(0, k - 1));
        assert(b.subrange(0, k - 1) == b.subrange(0, k).subrange(0, k - 1));
        assert(a[k - 1] == a.subrange(0, k)[k - 1]);
        assert(b[k - 1] == b.subrange(0, k)[k - 1]);
        lemma_scan_prefix(a, b, k - 1);
    }
}

/// Scanning a run's events gives what scanning them without the quiet ones gives.
pub proof fn lemma_scan_ignores_quiet(s: Seq<RuntimeEvent>)
    ensures
        scan_events(s, s.len() as int) == scan_events(loud_events(s), loud_events(s).len() as int),
    decreases s.len(),
{
    let f = loud_events(s);
    reveal(Seq::filter);
    if s.len() > 0 {
        let t = s.drop_last();
        let e = s.last();
        let ft = loud_events(t);
        lemma_scan_ignores_quiet(t);
        assert(s.subrange(0, t.len() as int) =~= t.subrange(0, t.len() as int));
        lemma_scan_prefix(s, t, t.len() as int);
        assert(scan_events(s, s.len() as int) == scan_step(scan_events(t, t.len() as int), e));
        if quiet_event(e) {
            lemma_quiet_step(scan_events(t, t.len() as int), e);
            assert(f == ft);
        } else {
            assert(f == ft.push(e));
            assert(f.subrange(0, ft.len() as int) =~= ft.subrange(0, ft.len() as int));
            lemma_scan_prefix(f, ft, ft.len() as int);
            assert(f[ft.len() as int] == e);
        }
    } else {
        assert(f.len() == 0);
    }
}

/// Two runs whose events agree once the quiet lines (blank lines, and probe
/// traces that are not load attempts) are taken out give the same
/// dynamic-missing finding: adding such lines anywhere changes nothing.
pub proof fn lemma_quiet_lines_change_nothing(a: Seq<RuntimeEvent>, b: Seq<RuntimeEvent>)
    requires
        loud_events(a) == loud_events(b),
    ensures
        dynamic_missing_of(a) == dynamic_missing_of(b),
{
    lemma_scan_ignores_quiet(a);
    lemma_scan_ignores_quiet(b);
}

proof fn lemma_no_finding_scan(ev: Seq<RuntimeEvent>, k: int)
    requires
        0 <= k <= ev.len(),
        forall|i: int|
            0 <= i < ev.len() ==> match #[trigger] ev[i] {
                RuntimeEvent::DebugString(d) => blank(d.text@) || probe_line(lower_seq(d.text@)),
                RuntimeEvent::RuntimeLoaded(_) => true,
            },
    ensures
        scan_events(ev, k).1 is None,
    decreases k,
{
    if k > 0 {
        lemma_no_finding_scan(ev, k - 1);
        match ev[k - 1] {
            RuntimeEvent::DebugString(d) => {
                let prev = scan_events(ev, k - 1);
                let lower = lower_seq(d.text@);
                if blank(d.text@) {
                    lemma_blank_line(d.text@, prev.0);
                } else {
                    lemma_probe_line_ignored(lower, next_last(lower, prev.0));
                }
            },
            RuntimeEvent::RuntimeLoaded(_) => {},
        }
    }
}

/// Where every debug line of a run is blank or a probe trace, no
/// dynamic-missing finding is made.
pub proof fn lemma_probe_lines_alone(ev: Seq<RuntimeEvent>)
    requires
        forall|i: int|
            0 <= i < ev.len() ==> match #[trigger] ev[i] {
                RuntimeEvent::DebugString(d) => blank(d.text@) || probe_line(lower_seq(d.text@)),
                RuntimeEvent::RuntimeLoaded(_) => true,
            },
    ensures
        dynamic_missing_of(ev) is None,
{
    lemma_no_finding_scan(ev, ev.len() as int);
}

} // verus!
