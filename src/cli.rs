//! The command line: `run`, `imports` and `help`.
use vstd::prelude::*;
use crate::text::{chars_of, lower_chars, lower_seq, string_of};

verus! {

/// What the user asked for.
pub enum Command {
    Run(RunOptions),
    Imports(ImportsOptions),
    Help,
}

/// Options of `run`.
pub struct RunOptions {
    pub exe_path: String,
    pub exe_args: Vec<String>,
    pub cwd: Option<String>,
    pub timeout_ms: u32,
    pub loader_snaps: bool,
    pub verbose: bool,
}

/// Options of `imports`.
pub struct ImportsOptions {
    pub image_path: String,
    pub cwd: Option<String>,
}

/// The default time budget of a run, in milliseconds.
pub const DEFAULT_TIMEOUT_MS: u32 = 30_000;

/// The usage text.
pub open spec fn usage_text() -> Seq<char> {
    "loadwhat - diagnose Windows DLL loading failures\n\n"@ + "Usage:\n"@
        + "  loadwhat run <exe_path> [--cwd <dir>] [--timeout-ms <n>] [--loader-snaps] [-v|--verbose] [-- <args...>]\n"@
        + "  loadwhat imports <exe_or_dll> [--cwd <dir>]\n"@ + "  loadwhat help\n"@
}

/// The usage text.
pub fn usage() -> (r: String)
    ensures
        r@ == usage_text(),
{
    let mut out = "loadwhat - diagnose Windows DLL loading failures\n\n".to_owned();
    out.append("Usage:\n");
    out.append(
        "  loadwhat run <exe_path> [--cwd <dir>] [--timeout-ms <n>] [--loader-snaps] [-v|--verbose] [-- <args...>]\n",
    );
    out.append("  loadwhat imports <exe_or_dll> [--cwd <dir>]\n");
    out.append("  loadwhat help\n");
    out
}

/// `msg`, a blank line, and the usage text.
pub open spec fn with_usage(msg: Seq<char>) -> Seq<char> {
    msg + "\n\n"@ + usage_text()
}

fn error_with_usage(msg: String) -> (r: String)
    ensures
        r@ == with_usage(msg@),
{
    let mut out = msg;
    out.append("\n\n");
    let u = usage();
    out.append(u.as_str());
    out
}

/// An ASCII digit.
pub open spec fn is_digit(c: char) -> bool {
    '0' <= c && c <= '9'
}

/// The value of a sequence of decimal digits.
pub open spec fn digits_value(s: Seq<char>) -> int
    decreases s.len(),
{
    if s.len() == 0 {
        0
    } else {
        digits_value(s.drop_last()) * 10 + (s.last() as int - '0' as int)
    }
}

/// An unsigned decimal number as `u32`'s `FromStr` reads it: an optional `+`,
/// then one or more digits, with a value that fits in 32 bits.
pub open spec fn parse_u32_spec(s: Seq<char>) -> Option<u32> {
    if unsigned_part(s).len() > 0 && all_digits(unsigned_part(s)) && digits_value(unsigned_part(s))
        <= u32::MAX {
        Some(digits_value(unsigned_part(s)) as u32)
    } else {
        None
    }
}

/// `s` without one leading `+`.
pub open spec fn unsigned_part(s: Seq<char>) -> Seq<char> {
    if s.len() > 0 && s[0] == '+' {
        s.drop_first()
    } else {
        s
    }
}

/// Every character of `d` is a digit.
pub open spec fn all_digits(d: Seq<char>) -> bool {
    forall|i: int| 0 <= i < d.len() ==> is_digit(#[trigger] d[i])
}

/// Reads an unsigned 32-bit decimal number.
pub fn parse_u32(s: &str) -> (r: Option<u32>)
    ensures
        r == parse_u32_spec(s@),
{
    let c = chars_of(s);
    let start: usize = if c.len() > 0 && c[0] == '+' {
        1
    } else {
        0
    };
    let ghost d = unsigned_part(s@);
    assert(d =~= c@.subrange(start as int, c@.len() as int));
    if start >= c.len() {
        return None;
    }
    let mut v: u64 = 0;
    let mut i = start;
    while i < c.len()
        invariant
            start <= i <= c.len(),
            c@ == s@,
            d == unsigned_part(s@),
            d == c@.subrange(start as int, c@.len() as int),
            forall|k: int| start <= k < i ==> is_digit(#[trigger] c@[k]),
            v == digits_value(c@.subrange(start as int, i as int)),
            v <= u32::MAX,
        decreases c.len() - i,
    {
        let ch = c[i];
        if !('0' <= ch && ch <= '9') {
            assert(d[i - start] == c@[i as int]);
            assert(!is_digit(d[i - start]));
            assert(!all_digits(d));
            assert(parse_u32_spec(s@) is None);
            return None;
        }
        proof {
            assert(c@.subrange(start as int, i + 1).drop_last() == c@.subrange(start as int, i as int));
        }
        let digit = (ch as u32 - '0' as u32) as u64;
        v = v * 10 + digit;
        if v > 0xFFFF_FFFF {
            proof {
                assert(c@.subrange(start as int, i + 1) =~= d.subrange(0, i + 1 - start));
                if all_digits(d) {
                    lemma_digits_grow(d, i + 1 - start);
                    assert(digits_value(d) > u32::MAX);
                }
                assert(parse_u32_spec(s@) is None);
            }
            return None;
        }
        i += 1;
    }
    proof {
        assert(c@.subrange(start as int, c@.len() as int) == d);
        assert forall|k: int| 0 <= k < d.len() implies is_digit(#[trigger] d[k]) by {
            assert(d[k] == c@[start + k]);
        }
    }
    Some(v as u32)
}

/// A digit string's value is at least that of each of its prefixes.
proof fn lemma_digits_grow(d: Seq<char>, k: int)
    requires
        0 <= k <= d.len(),
        forall|i: int| 0 <= i < d.len() ==> is_digit(#[trigger] d[i]),
    ensures
        digits_value(d) >= digits_value(d.subrange(0, k)),
    decreases d.len(),
{
    if k < d.len() {
        let t = d.drop_last();
        assert forall|i: int| 0 <= i < t.len() implies is_digit(#[trigger] t[i]) by {
            assert(t[i] == d[i]);
        }
        lemma_digits_grow(t, k);
        assert(t.subrange(0, k) == d.subrange(0, k));
        lemma_digits_nonneg(t);
    } else {
        assert(d.subrange(0, k) == d);
    }
}

proof fn lemma_digits_nonneg(d: Seq<char>)
    requires
        forall|i: int| 0 <= i < d.len() ==> is_digit(#[trigger] d[i]),
    ensures
        digits_value(d) >= 0,
    decreases d.len(),
{
    if d.len() > 0 {
        let t = d.drop_last();
        assert forall|i: int| 0 <= i < t.len() implies is_digit(#[trigger] t[i]) by {
            assert(t[i] == d[i]);
        }
        lemma_digits_nonneg(t);
        assert(is_digit(d[d.len() - 1]));
    }
}

} // verus!

verus! {

/// The options of `run` read so far, as plain values.
pub struct RunFlags {
    pub cwd: Option<Seq<char>>,
    pub timeout_ms: u32,
    pub loader_snaps: bool,
    pub verbose: bool,
    pub exe_args: Seq<Seq<char>>,
}

/// A command as plain values.
pub enum CommandSpec {
    Run(Seq<char>, RunFlags),
    Imports(Seq<char>, Option<Seq<char>>),
    Help,
}

/// Reads the options of `run` from `v[i..]` on top of `st`.
pub open spec fn run_flags(v: Seq<Seq<char>>, i: int, st: RunFlags) -> Result<RunFlags, Seq<char>>
    decreases v.len() - i,
{
    if i < 0 || i >= v.len() {
        Ok(st)
    } else {
        let t = v[i];
        if t == "--"@ {
            Ok(RunFlags { exe_args: v.subrange(i + 1, v.len() as int), ..st })
        } else if t == "--cwd"@ {
            if i + 1 >= v.len() {
                Err(with_usage("--cwd requires a value"@))
            } else {
                run_flags(v, i + 2, RunFlags { cwd: Some(v[i + 1]), ..st })
            }
        } else if t == "--timeout-ms"@ {
            if i + 1 >= v.len() {
                Err(with_usage("--timeout-ms requires a value"@))
            } else {
                match parse_u32_spec(v[i + 1]) {
                    Some(n) => run_flags(v, i + 2, RunFlags { timeout_ms: n, ..st }),
                    None => Err(with_usage("invalid --timeout-ms value: "@ + v[i + 1])),
                }
            }
        } else if t == "--verbose"@ || t == "-v"@ {
            run_flags(v, i + 1, RunFlags { verbose: true, ..st })
        } else if t == "--loader-snaps"@ {
            run_flags(v, i + 1, RunFlags { loader_snaps: true, ..st })
        } else if t == "--quiet"@ {
            run_flags(v, i + 1, RunFlags { verbose: false, ..st })
        } else if t == "--strict"@ {
            run_flags(v, i + 1, st)
        } else {
            Err(with_usage("unknown run option: "@ + t))
        }
    }
}

/// Reads the options of `imports` from `v[i..]` on top of `cwd`.
pub open spec fn imports_flags(v: Seq<Seq<char>>, i: int, cwd: Option<Seq<char>>) -> Result<Option<Seq<char>>, Seq<char>>
    decreases v.len() - i,
{
    if i < 0 || i >= v.len() {
        Ok(cwd)
    } else {
        let t = v[i];
        if t == "--cwd"@ {
            if i + 1 >= v.len() {
                Err(with_usage("--cwd requires a value"@))
            } else {
                imports_flags(v, i + 2, Some(v[i + 1]))
            }
        } else if t == "--quiet"@ || t == "--verbose"@ || t == "--strict"@ {
            imports_flags(v, i + 1, cwd)
        } else {
            Err(with_usage("unknown imports option: "@ + t))
        }
    }
}

/// The options of `run` before any is read.
pub open spec fn default_flags() -> RunFlags {
    RunFlags {
        cwd: None,
        timeout_ms: DEFAULT_TIMEOUT_MS,
        loader_snaps: false,
        verbose: false,
        exe_args: Seq::empty(),
    }
}

/// The command that the arguments `args` (the program name first) ask for,
/// or the error message.
pub open spec fn parse_spec(args: Seq<Seq<char>>) -> Result<CommandSpec, Seq<char>> {
    if args.len() == 0 {
        Err(usage_text())
    } else if args.len() == 1 {
        Ok(CommandSpec::Help)
    } else {
        let sub = lower_seq(args[1]);
        let rest = args.subrange(2, args.len() as int);
        if sub == "run"@ {
            if rest.len() == 0 {
                Err(with_usage("missing <exe_path>"@))
            } else {
                match run_flags(rest, 1, default_flags()) {
                    Ok(f) => Ok(CommandSpec::Run(rest[0], f)),
                    Err(e) => Err(e),
                }
            }
        } else if sub == "imports"@ {
            if rest.len() == 0 {
                Err(with_usage("missing <exe_or_dll>"@))
            } else {
                match imports_flags(rest, 1, None) {
                    Ok(c) => Ok(CommandSpec::Imports(rest[0], c)),
                    Err(e) => Err(e),
                }
            }
        } else if sub == "-h"@ || sub == "--help"@ || sub == "help"@ {
            Ok(CommandSpec::Help)
        } else {
            Err(with_usage("unknown command: "@ + sub))
        }
    }
}

/// An optional string as plain values.
pub open spec fn opt_view(o: Option<String>) -> Option<Seq<char>> {
    match o {
        Some(s) => Some(s@),
        None => None,
    }
}

/// The strings of a vector as plain values.
pub open spec fn strs_view(v: Seq<String>) -> Seq<Seq<char>> {
    v.map_values(|s: String| s@)
}

impl Command {
    /// This command as plain values.
    pub open spec fn view_spec(&self) -> CommandSpec {
        match self {
            Command::Run(o) => CommandSpec::Run(
                o.exe_path@,
                RunFlags {
                    cwd: opt_view(o.cwd),
                    timeout_ms: o.timeout_ms,
                    loader_snaps: o.loader_snaps,
                    verbose: o.verbose,
                    exe_args: strs_view(o.exe_args@),
                },
            ),
            Command::Imports(o) => CommandSpec::Imports(o.image_path@, opt_view(o.cwd)),
            Command::Help => CommandSpec::Help,
        }
    }
}

/// `r` carries `s`: the same command, or the same message.
pub open spec fn parse_result_is(r: &Result<Command, String>, s: Result<CommandSpec, Seq<char>>) -> bool {
    match s {
        Ok(c) => r matches Ok(x) && x.view_spec() == c,
        Err(m) => r matches Err(e) && e@ == m,
    }
}

fn concat(a: &str, b: &str) -> (r: String)
    ensures
        r@ == a@ + b@,
{
    let mut s = a.to_owned();
    s.append(b);
    s
}

fn clone_strings(v: &[String], from: usize) -> (r: Vec<String>)
    requires
        from <= v.len(),
    ensures
        strs_view(r@) == strs_view(v@).subrange(from as int, v@.len() as int),
{
    let mut out: Vec<String> = Vec::new();
    let mut i = from;
    while i < v.len()
        invariant
            from <= i <= v.len(),
            strs_view(out@) == strs_view(v@).subrange(from as int, i as int),
        decreases v.len() - i,
    {
        let ghost before = out@;
        out.push(v[i].clone());
        proof {
            assert(strs_view(out@) =~= strs_view(before).push(v@[i as int]@));
            assert(strs_view(v@).subrange(from as int, i + 1) =~= strs_view(v@).subrange(
                from as int,
                i as int,
            ).push(v@[i as int]@));
        }
        i += 1;
    }
    out
}

/// Reads the options of `run`; `values[0]` is the executable.
fn parse_run(values: &[String]) -> (r: Result<Command, String>)
    ensures
        parse_result_is(
            &r,
            if values@.len() == 0 {
                Err(with_usage("missing <exe_path>"@))
            } else {
                match run_flags(strs_view(values@), 1, default_flags()) {
                    Ok(f) => Ok(CommandSpec::Run(values@[0]@, f)),
                    Err(e) => Err(e),
                }
            },
        ),
{
    if values.len() == 0 {
        return Err(error_with_usage("missing <exe_path>".to_owned()));
    }
    let ghost v = strs_view(values@);
    let exe_path = values[0].clone();
    let mut cwd: Option<String> = None;
    let mut timeout_ms: u32 = DEFAULT_TIMEOUT_MS;
    let mut loader_snaps = false;
    let mut exe_args: Vec<String> = Vec::new();
    let mut verbose = false;
    let mut i: usize = 1;
    while i < values.len()
        invariant
            1 <= i,
            v == strs_view(values@),
            exe_path@ == values@[0]@,
            exe_args@.len() == 0,
            run_flags(v, 1, default_flags()) == run_flags(
                v,
                i as int,
                RunFlags {
                    cwd: opt_view(cwd),
                    timeout_ms,
                    loader_snaps,
                    verbose,
                    exe_args: Seq::empty(),
                },
            ),
        decreases values.len() - i,
    {
        let token = values[i].as_str();
        assert(v[i as int] == token@);
        if crate::text::str_is(token, "--") {
            exe_args = clone_strings(values, i + 1);
            let opts = RunOptions { exe_path, exe_args, cwd, timeout_ms, loader_snaps, verbose };
            return Ok(Command::Run(opts));
        }
        if crate::text::str_is(token, "--cwd") {
            i += 1;
            if i >= values.len() {
                return Err(error_with_usage("--cwd requires a value".to_owned()));
            }
            cwd = Some(values[i].clone());
        } else if crate::text::str_is(token, "--timeout-ms") {
            i += 1;
            if i >= values.len() {
                return Err(error_with_usage("--timeout-ms requires a value".to_owned()));
            }
            let raw = values[i].as_str();
            match parse_u32(raw) {
                Some(n) => {
                    timeout_ms = n;
                },
                None => {
                    return Err(error_with_usage(concat("invalid --timeout-ms value: ", raw)));
                },
            }
        } else if crate::text::str_is(token, "--verbose") || crate::text::str_is(token, "-v") {
            verbose = true;
        } else if crate::text::str_is(token, "--loader-snaps") {
            loader_snaps = true;
        } else if crate::text::str_is(token, "--quiet") {
            verbose = false;
        } else if crate::text::str_is(token, "--strict") {
        } else {
            return Err(error_with_usage(concat("unknown run option: ", token)));
        }
        i += 1;
    }
    assert(strs_view(exe_args@) =~= Seq::<Seq<char>>::empty());
    Ok(Command::Run(RunOptions { exe_path, exe_args, cwd, timeout_ms, loader_snaps, verbose }))
}

/// Reads the options of `imports`; `values[0]` is the image.
fn parse_imports(values: &[String]) -> (r: Result<Command, String>)
    ensures
        parse_result_is(
            &r,
            if values@.len() == 0 {
                Err(with_usage("missing <exe_or_dll>"@))
            } else {
                match imports_flags(strs_view(values@), 1, None) {
                    Ok(c) => Ok(CommandSpec::Imports(values@[0]@, c)),
                    Err(e) => Err(e),
                }
            },
        ),
{
    if values.len() == 0 {
        return Err(error_with_usage("missing <exe_or_dll>".to_owned()));
    }
    let ghost v = strs_view(values@);
    let image_path = values[0].clone();
    let mut cwd: Option<String> = None;
    let mut i: usize = 1;
    while i < values.len()
        invariant
            1 <= i,
            v == strs_view(values@),
            image_path@ == values@[0]@,
            imports_flags(v, 1, None) == imports_flags(v, i as int, opt_view(cwd)),
        decreases values.len() - i,
    {
        let token = values[i].as_str();
        assert(v[i as int] == token@);
        if crate::text::str_is(token, "--cwd") {
            i += 1;
            if i >= values.len() {
                return Err(error_with_usage("--cwd requires a value".to_owned()));
            }
            cwd = Some(values[i].clone());
        } else if crate::text::str_is(token, "--quiet") || crate::text::str_is(token, "--verbose")
            || crate::text::str_is(token, "--strict") {
        } else {
            return Err(error_with_usage(concat("unknown imports option: ", token)));
        }
        i += 1;
    }
    Ok(Command::Imports(ImportsOptions { image_path, cwd }))
}

/// Reads the command line `args`, the program name first: no further
/// argument asks for help; the first one names the command, in any case.
pub fn parse_from(args: Vec<String>) -> (r: Result<Command, String>)
    ensures
        parse_result_is(&r, parse_spec(strs_view(args@))),
{
    if args.len() == 0 {
        return Err(usage());
    }
    if args.len() == 1 {
        return Ok(Command::Help);
    }
    let ghost a = strs_view(args@);
    let sub = string_of(&lower_chars(&chars_of(args[1].as_str())));
    let rest = clone_strings(args.as_slice(), 2);
    if crate::text::str_is(sub.as_str(), "run") {
        parse_run(rest.as_slice())
    } else if crate::text::str_is(sub.as_str(), "imports") {
        parse_imports(rest.as_slice())
    } else if crate::text::str_is(sub.as_str(), "-h") || crate::text::str_is(sub.as_str(), "--help")
        || crate::text::str_is(sub.as_str(), "help") {
        Ok(Command::Help)
    } else {
        Err(error_with_usage(concat("unknown command: ", sub.as_str())))
    }
}

} // verus!
