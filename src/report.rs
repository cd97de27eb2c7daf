//! The output lines of a diagnosis, as text.
use vstd::prelude::*;
use crate::debug_run::{RunEndKind, RunOutcome, RuntimeEvent};
use crate::emit::{dec_digits, fields_text, format_line, hex_literal, quote, quoted};
use crate::fusion::FirstIssue;
use crate::paths::{display_form, display_path};
use crate::search::{CandidateResult, ResolutionKind};
use crate::snaps::DynamicMissing;

verus! {

fn fld(key: &str, value: String) -> (r: (String, String))
    ensures
        r.0@ == key@,
        r.1@ == value@,
{
    (key.to_owned(), value)
}

/// `SEARCH_ORDER safedll=1` or `safedll=0`.
pub fn search_order_line(safedll: bool) -> (r: String)
    ensures
        r@ == "SEARCH_ORDER"@ + fields_text(seq![("safedll"@, if safedll { "1"@ } else { "0"@ })]),
{
    let mut fields: Vec<(String, String)> = Vec::new();
    fields.push(fld("safedll", if safedll { "1".to_owned() } else { "0".to_owned() }));
    proof {
        assert(crate::emit::fields_view(fields@) =~= seq![("safedll"@, if safedll { "1"@ } else { "0"@ })]);
    }
    format_line("SEARCH_ORDER", fields.as_slice())
}

/// The text of one probed path of `dll`.
pub open spec fn search_path_text(dll: Seq<char>, c: &CandidateResult) -> Seq<char> {
    "SEARCH_PATH"@ + fields_text(
        seq![
            ("dll"@, quoted(dll)),
            ("order"@, dec_digits(c.order as nat)),
            ("path"@, quoted(display_form(c.path@))),
            ("result"@, quoted(c.result@)),
        ],
    )
}

/// `SEARCH_PATH` for one probed path of `dll`.
pub fn search_path_line(dll: &str, candidate: &CandidateResult) -> (r: String)
    ensures
        r@ == search_path_text(dll@, candidate),
{
    let mut fields: Vec<(String, String)> = Vec::new();
    fields.push(fld("dll", quote(dll)));
    fields.push(fld("order", crate::emit::decimal(candidate.order as u64)));
    fields.push(fld("path", quote(display_path(candidate.path.as_str()).as_str())));
    fields.push(fld("result", quote(candidate.result)));
    proof {
        assert(crate::emit::fields_view(fields@) =~= seq![
            ("dll"@, quoted(dll@)),
            ("order"@, dec_digits(candidate.order as nat)),
            ("path"@, quoted(display_form(candidate.path@))),
            ("result"@, quoted(candidate.result@)),
        ]);
    }
    format_line("SEARCH_PATH", fields.as_slice())
}

/// The text that reports a missing (`STATIC_MISSING`, with `via` and `depth`
/// below the first level) or bad (`STATIC_BAD_IMAGE`) static import `dll` of
/// `module`.
pub open spec fn static_issue_text(
    module: Seq<char>,
    via: Seq<char>,
    dll: Seq<char>,
    kind: ResolutionKind,
    depth: u32,
) -> Seq<char> {
    if kind == ResolutionKind::BadImage {
        "STATIC_BAD_IMAGE"@ + fields_text(
            seq![("module"@, quoted(module)), ("dll"@, quoted(dll)), ("reason"@, quoted("BAD_IMAGE"@))],
        )
    } else if depth > 1 {
        "STATIC_MISSING"@ + fields_text(
            seq![
                ("module"@, quoted(module)),
                ("dll"@, quoted(dll)),
                ("reason"@, quoted("NOT_FOUND"@)),
                ("via"@, quoted(via)),
                ("depth"@, dec_digits(depth as nat)),
            ],
        )
    } else {
        "STATIC_MISSING"@ + fields_text(
            seq![("module"@, quoted(module)), ("dll"@, quoted(dll)), ("reason"@, quoted("NOT_FOUND"@))],
        )
    }
}

/// The text that reports an issue.
pub open spec fn issue_text(i: &FirstIssue) -> Seq<char> {
    static_issue_text(i.module@, i.via@, i.dll@, i.kind, i.depth)
}

/// `STATIC_MISSING` or `STATIC_BAD_IMAGE` for import `dll` of `module`, found
/// at `depth` below the target through `via`.
pub fn static_issue_line(module: &str, via: &str, dll: &str, kind: ResolutionKind, depth: u32) -> (r: String)
    ensures
        r@ == static_issue_text(module@, via@, dll@, kind, depth),
{
    let mut fields: Vec<(String, String)> = Vec::new();
    fields.push(fld("module", quote(module)));
    fields.push(fld("dll", quote(dll)));
    if kind == ResolutionKind::BadImage {
        fields.push(fld("reason", quote("BAD_IMAGE")));
        proof {
            assert(crate::emit::fields_view(fields@) =~= seq![
                ("module"@, quoted(module@)),
                ("dll"@, quoted(dll@)),
                ("reason"@, quoted("BAD_IMAGE"@)),
            ]);
        }
        return format_line("STATIC_BAD_IMAGE", fields.as_slice());
    }
    fields.push(fld("reason", quote("NOT_FOUND")));
    if depth > 1 {
        fields.push(fld("via", quote(via)));
        fields.push(fld("depth", crate::emit::decimal(depth as u64)));
        proof {
            assert(crate::emit::fields_view(fields@) =~= seq![
                ("module"@, quoted(module@)),
                ("dll"@, quoted(dll@)),
                ("reason"@, quoted("NOT_FOUND"@)),
                ("via"@, quoted(via@)),
                ("depth"@, dec_digits(depth as nat)),
            ]);
        }
    } else {
        proof {
            assert(crate::emit::fields_view(fields@) =~= seq![
                ("module"@, quoted(module@)),
                ("dll"@, quoted(dll@)),
                ("reason"@, quoted("NOT_FOUND"@)),
            ]);
        }
    }
    format_line("STATIC_MISSING", fields.as_slice())
}

/// `STATIC_MISSING` (with `via` and `depth` below the first level) or
/// `STATIC_BAD_IMAGE` for an issue.
pub fn issue_line(issue: &FirstIssue) -> (r: String)
    ensures
        r@ == issue_text(issue),
{
    static_issue_line(issue.module.as_str(), issue.via.as_str(), issue.dll.as_str(), issue.kind, issue.depth)
}

/// The line of a clean run: `SUCCESS status=` and the target's exit code.
pub fn success_line(status: u32) -> (r: String)
    ensures
        r@ == "SUCCESS"@ + fields_text(seq![("status"@, dec_digits(status as nat))]),
{
    let mut fields: Vec<(String, String)> = Vec::new();
    fields.push(fld("status", crate::emit::decimal(status as u64)));
    proof {
        assert(crate::emit::fields_view(fields@) =~= seq![("status"@, dec_digits(status as nat))]);
    }
    format_line("SUCCESS", fields.as_slice())
}

/// The text that reports a failed dynamic load.
pub open spec fn dynamic_missing_text(d: &DynamicMissing) -> Seq<char> {
    match d.status {
        Some(st) => "DYNAMIC_MISSING"@ + fields_text(
            seq![
                ("dll"@, quoted(d.dll@)),
                ("reason"@, quoted(d.reason@)),
                ("status"@, hex_literal(st as nat, 8)),
            ],
        ),
        None => "DYNAMIC_MISSING"@ + fields_text(
            seq![("dll"@, quoted(d.dll@)), ("reason"@, quoted(d.reason@))],
        ),
    }
}

/// `DYNAMIC_MISSING` for a failed dynamic load.
pub fn dynamic_missing_line(d: &DynamicMissing) -> (r: String)
    ensures
        r@ == dynamic_missing_text(d),
{
    let mut fields: Vec<(String, String)> = Vec::new();
    fields.push(fld("dll", quote(d.dll.as_str())));
    fields.push(fld("reason", quote(d.reason)));
    match d.status {
        Some(st) => {
            fields.push(fld("status", crate::emit::hex_u32(st)));
            proof {
                assert(crate::emit::fields_view(fields@) =~= seq![
                    ("dll"@, quoted(d.dll@)),
                    ("reason"@, quoted(d.reason@)),
                    ("status"@, hex_literal(st as nat, 8)),
                ]);
            }
        },
        None => {
            proof {
                assert(crate::emit::fields_view(fields@) =~= seq![
                    ("dll"@, quoted(d.dll@)),
                    ("reason"@, quoted(d.reason@)),
                ]);
            }
        },
    }
    format_line("DYNAMIC_MISSING", fields.as_slice())
}

/// The token of how a run ended.
pub open spec fn end_kind_token(k: RunEndKind) -> Seq<char> {
    match k {
        RunEndKind::ExitProcess => "EXIT_PROCESS"@,
        RunEndKind::Exception => "EXCEPTION"@,
        RunEndKind::Timeout => "TIMEOUT"@,
    }
}

/// The token of how a run ended.
pub fn end_kind_name(k: RunEndKind) -> (r: &'static str)
    ensures
        r@ == end_kind_token(k),
{
    match k {
        RunEndKind::ExitProcess => "EXIT_PROCESS",
        RunEndKind::Exception => "EXCEPTION",
        RunEndKind::Timeout => "TIMEOUT",
    }
}

/// The text of one runtime event of process `pid`.
pub open spec fn event_text(pid: u32, e: &RuntimeEvent) -> Seq<char> {
    match e {
        RuntimeEvent::RuntimeLoaded(m) => "RUNTIME_LOADED"@ + fields_text(
            seq![
                ("pid"@, dec_digits(pid as nat)),
                ("dll"@, quoted(m.dll_name@)),
                ("path"@, quoted(match m.path {
                    Some(p) => display_form(p@),
                    None => "UNKNOWN"@,
                })),
                ("base"@, hex_literal(m.base as nat, 16)),
            ],
        ),
        RuntimeEvent::DebugString(d) => "DEBUG_STRING"@ + fields_text(
            seq![
                ("pid"@, dec_digits(d.pid as nat)),
                ("tid"@, dec_digits(d.tid as nat)),
                ("source"@, quoted("OUTPUT_DEBUG_STRING_EVENT"@)),
                ("text"@, quoted(d.text@)),
            ],
        ),
    }
}

/// `RUNTIME_LOADED` or `DEBUG_STRING` for one runtime event.
pub fn event_line(pid: u32, e: &RuntimeEvent) -> (r: String)
    ensures
        r@ == event_text(pid, e),
{
    let mut fields: Vec<(String, String)> = Vec::new();
    match e {
        RuntimeEvent::RuntimeLoaded(m) => {
            fields.push(fld("pid", crate::emit::decimal(pid as u64)));
            fields.push(fld("dll", quote(m.dll_name.as_str())));
            let shown = match &m.path {
                Some(p) => display_path(p.as_str()),
                None => "UNKNOWN".to_owned(),
            };
            fields.push(fld("path", quote(shown.as_str())));
            fields.push(fld("base", crate::emit::hex_usize(m.base)));
            proof {
                assert(crate::emit::fields_view(fields@) =~= seq![
                    ("pid"@, dec_digits(pid as nat)),
                    ("dll"@, quoted(m.dll_name@)),
                    ("path"@, quoted(match m.path {
                        Some(p) => display_form(p@),
                        None => "UNKNOWN"@,
                    })),
                    ("base"@, hex_literal(m.base as nat, 16)),
                ]);
            }
            format_line("RUNTIME_LOADED", fields.as_slice())
        },
        RuntimeEvent::DebugString(d) => {
            fields.push(fld("pid", crate::emit::decimal(d.pid as u64)));
            fields.push(fld("tid", crate::emit::decimal(d.tid as u64)));
            fields.push(fld("source", quote("OUTPUT_DEBUG_STRING_EVENT")));
            fields.push(fld("text", quote(d.text.as_str())));
            proof {
                assert(crate::emit::fields_view(fields@) =~= seq![
                    ("pid"@, dec_digits(d.pid as nat)),
                    ("tid"@, dec_digits(d.tid as nat)),
                    ("source"@, quoted("OUTPUT_DEBUG_STRING_EVENT"@)),
                    ("text"@, quoted(d.text@)),
                ]);
            }
            format_line("DEBUG_STRING", fields.as_slice())
        },
    }
}

/// The code that `RUN_END` reports: the exception code, else the exit code, else 0.
pub open spec fn run_end_code(o: &RunOutcome) -> u32 {
    match o.exception_code {
        Some(c) => c,
        None => match o.exit_code {
            Some(c) => c,
            None => 0,
        },
    }
}

/// The lines of a run's trace: `RUN_START`, one line per runtime event in
/// order, and `RUN_END` with the exception code, else the exit code, else 0.
pub fn run_event_lines(exe_path: &str, cwd: &str, outcome: &RunOutcome) -> (r: Vec<String>)
    ensures
        r@.len() == outcome.runtime_events@.len() + 2,
        r@[0]@ == "RUN_START"@ + fields_text(
            seq![
                ("exe"@, quoted(display_form(exe_path@))),
                ("cwd"@, quoted(display_form(cwd@))),
                ("pid"@, dec_digits(outcome.pid as nat)),
            ],
        ),
        forall|i: int|
            0 <= i < outcome.runtime_events@.len() ==> (#[trigger] r@[i + 1])@ == event_text(
                outcome.pid,
                &outcome.runtime_events@[i],
            ),
        r@.last()@ == "RUN_END"@ + fields_text(
            seq![
                ("pid"@, dec_digits(outcome.pid as nat)),
                ("exit_kind"@, quoted(end_kind_token(outcome.end_kind))),
                ("code"@, hex_literal(run_end_code(outcome) as nat, 8)),
            ],
        ),
{
    let mut lines: Vec<String> = Vec::new();
    let mut start: Vec<(String, String)> = Vec::new();
    start.push(fld("exe", quote(display_path(exe_path).as_str())));
    start.push(fld("cwd", quote(display_path(cwd).as_str())));
    start.push(fld("pid", crate::emit::decimal(outcome.pid as u64)));
    proof {
        assert(crate::emit::fields_view(start@) =~= seq![
            ("exe"@, quoted(display_form(exe_path@))),
            ("cwd"@, quoted(display_form(cwd@))),
            ("pid"@, dec_digits(outcome.pid as nat)),
        ]);
    }
    lines.push(format_line("RUN_START", start.as_slice()));
    let mut i: usize = 0;
    while i < outcome.runtime_events.len()
        invariant
            i <= outcome.runtime_events@.len(),
            lines@.len() == i + 1,
            lines@[0]@ == "RUN_START"@ + fields_text(
                seq![
                    ("exe"@, quoted(display_form(exe_path@))),
                    ("cwd"@, quoted(display_form(cwd@))),
                    ("pid"@, dec_digits(outcome.pid as nat)),
                ],
            ),
            forall|k: int|
                0 <= k < i ==> (#[trigger] lines@[k + 1])@ == event_text(
                    outcome.pid,
                    &outcome.runtime_events@[k],
                ),
        decreases outcome.runtime_events@.len() - i,
    {
        let line = event_line(outcome.pid, &outcome.runtime_events[i]);
        let ghost before = lines@;
        lines.push(line);
        proof {
            assert forall|k: int| 0 <= k < i + 1 implies (#[trigger] lines@[k + 1])@ == event_text(
                outcome.pid,
                &outcome.runtime_events@[k],
            ) by {
                if k < i {
                    assert(lines@[k + 1] == before[k + 1]);
                }
            }
        }
        i += 1;
    }
    let code = match outcome.exception_code {
        Some(c) => c,
        None => match outcome.exit_code {
            Some(c) => c,
            None => 0,
        },
    };
    assert(code == run_end_code(outcome));
    let mut end: Vec<(String, String)> = Vec::new();
    end.push(fld("pid", crate::emit::decimal(outcome.pid as u64)));
    end.push(fld("exit_kind", quote(end_kind_name(outcome.end_kind))));
    end.push(fld("code", crate::emit::hex_u32(code)));
    proof {
        assert(crate::emit::fields_view(end@) =~= seq![
            ("pid"@, dec_digits(outcome.pid as nat)),
            ("exit_kind"@, quoted(end_kind_token(outcome.end_kind))),
            ("code"@, hex_literal(code as nat, 8)),
        ]);
    }
    let last = format_line("RUN_END", end.as_slice());
    let ghost last_view = last@;
    lines.push(last);
    assert(lines@.last()@ == last_view);
    lines
}

} // verus!

verus! {

/// `LWTEST:LOAD` for a module that is one of the harness's fixtures with a
/// known path; none for any other module.
pub open spec fn lwtest_load_text(m: &crate::debug_run::LoadedModule) -> Option<Seq<char>> {
    let name = crate::text::lower_seq(m.dll_name@);
    if crate::text::starts_with(name, "lwtest_"@) && m.path is Some {
        Some("LWTEST:LOAD"@ + fields_text(seq![("name"@, name), ("path"@, display_form(m.path->Some_0@))]))
    } else {
        None
    }
}

/// The lines of test mode: `LWTEST:LOAD` for each fixture module loaded, then
/// `LWTEST:RESULT` naming the missing DLL (lowercase) where there is one, then
/// `LWTEST:TARGET` with the target's exit code where it is known.
pub fn lwtest_lines(
    modules: &[crate::debug_run::LoadedModule],
    missing_name: Option<&str>,
    exit_code: Option<u32>,
) -> (r: Vec<String>)
    ensures
        r@.map_values(|s: String| s@) == lwtest_loads(modules@, modules@.len() as int)
            + lwtest_tail(missing_name, exit_code),
{
    let mut out: Vec<String> = Vec::new();
    let mut i: usize = 0;
    while i < modules.len()
        invariant
            i <= modules@.len(),
            out@.map_values(|s: String| s@) == lwtest_loads(modules@, i as int),
        decreases modules@.len() - i,
    {
        let m = &modules[i];
        let name = crate::text::lower_chars(&crate::text::chars_of(m.dll_name.as_str()));
        let ghost before = out@;
        if crate::text::starts_with_text(&name, "lwtest_") {
            match &m.path {
                Some(p) => {
                    let mut fields: Vec<(String, String)> = Vec::new();
                    fields.push(fld("name", crate::text::string_of(&name)));
                    fields.push(fld("path", display_path(p.as_str())));
                    proof {
                        assert(crate::emit::fields_view(fields@) =~= seq![
                            ("name"@, name@),
                            ("path"@, display_form(p@)),
                        ]);
                    }
                    out.push(format_line("LWTEST:LOAD", fields.as_slice()));
                    proof {
                        assert(out@.map_values(|s: String| s@) =~= before.map_values(|s: String| s@).push(
                            out@.last()@,
                        ));
                    }
                },
                None => {},
            }
        }
        proof {
            assert(modules@.subrange(0, i + 1).drop_last() =~= modules@.subrange(0, i as int));
        }
        i += 1;
    }
    let ghost loads = out@;
    proof {
        assert(modules@.subrange(0, modules@.len() as int) == modules@);
    }
    match missing_name {
        Some(n) => {
            let mut fields: Vec<(String, String)> = Vec::new();
            fields.push(fld("kind", "missing_dll".to_owned()));
            fields.push(fld("name", crate::text::string_of(&crate::text::lower_chars(&crate::text::chars_of(n)))));
            proof {
                assert(crate::emit::fields_view(fields@) =~= seq![
                    ("kind"@, "missing_dll"@),
                    ("name"@, crate::text::lower_seq(n@)),
                ]);
            }
            out.push(format_line("LWTEST:RESULT", fields.as_slice()));
        },
        None => {},
    }
    match exit_code {
        Some(c) => {
            let mut fields: Vec<(String, String)> = Vec::new();
            fields.push(fld("exit_code", crate::emit::decimal(c as u64)));
            proof {
                assert(crate::emit::fields_view(fields@) =~= seq![("exit_code"@, dec_digits(c as nat))]);
            }
            out.push(format_line("LWTEST:TARGET", fields.as_slice()));
        },
        None => {},
    }
    proof {
        assert(out@.map_values(|s: String| s@) =~= loads.map_values(|s: String| s@) + lwtest_tail(
            missing_name,
            exit_code,
        ));
    }
    out
}

/// The `LWTEST:LOAD` lines of the first `n` modules.
pub open spec fn lwtest_loads(modules: Seq<crate::debug_run::LoadedModule>, n: int) -> Seq<Seq<char>>
    decreases n,
{
    if n <= 0 {
        Seq::empty()
    } else {
        match lwtest_load_text(&modules[n - 1]) {
            Some(t) => lwtest_loads(modules, n - 1).push(t),
            None => lwtest_loads(modules, n - 1),
        }
    }
}

/// The `LWTEST:RESULT` and `LWTEST:TARGET` lines.
pub open spec fn lwtest_tail(missing_name: Option<&str>, exit_code: Option<u32>) -> Seq<Seq<char>> {
    let result = match missing_name {
        Some(n) => seq![
            "LWTEST:RESULT"@ + fields_text(
                seq![("kind"@, "missing_dll"@), ("name"@, crate::text::lower_seq(n@))],
            ),
        ],
        None => Seq::empty(),
    };
    let target = match exit_code {
        Some(c) => seq!["LWTEST:TARGET"@ + fields_text(seq![("exit_code"@, dec_digits(c as nat))])],
        None => Seq::empty(),
    };
    result + target
}

} // verus!

verus! {

/// The code `FIRST_BREAK` reports: the loader-failure exception code when
/// the confidence is high, else the exit code (0 where unknown).
pub open spec fn observed_code_of(o: &RunOutcome, c: crate::fusion::Confidence) -> u32 {
    if c == crate::fusion::Confidence::High {
        match o.exception_code {
            Some(x) => x,
            None => 0,
        }
    } else {
        match o.exit_code {
            Some(x) => x,
            None => 0,
        }
    }
}

/// The name of a confidence.
pub open spec fn confidence_token(c: crate::fusion::Confidence) -> Seq<char> {
    if c == crate::fusion::Confidence::High {
        "HIGH"@
    } else {
        "MEDIUM"@
    }
}

/// `FIRST_BREAK` for the first static issue of a run.
pub fn first_break_line(outcome: &RunOutcome, confidence: crate::fusion::Confidence, issue: &FirstIssue) -> (r: String)
    ensures
        r@ == "FIRST_BREAK"@ + fields_text(
            seq![
                ("observed_exit_kind"@, quoted(end_kind_token(outcome.end_kind))),
                ("observed_code"@, hex_literal(observed_code_of(outcome, confidence) as nat, 8)),
                ("diagnosis"@, quoted(issue.diagnosis@)),
                ("dll"@, quoted(issue.dll@)),
                ("confidence"@, quoted(confidence_token(confidence))),
            ],
        ),
{
    let high = confidence == crate::fusion::Confidence::High;
    let code = if high {
        match outcome.exception_code {
            Some(x) => x,
            None => 0,
        }
    } else {
        match outcome.exit_code {
            Some(x) => x,
            None => 0,
        }
    };
    let mut fields: Vec<(String, String)> = Vec::new();
    fields.push(fld("observed_exit_kind", quote(end_kind_name(outcome.end_kind))));
    fields.push(fld("observed_code", crate::emit::hex_u32(code)));
    fields.push(fld("diagnosis", quote(issue.diagnosis)));
    fields.push(fld("dll", quote(issue.dll.as_str())));
    fields.push(fld("confidence", quote(if high { "HIGH" } else { "MEDIUM" })));
    proof {
        assert(crate::emit::fields_view(fields@) =~= seq![
            ("observed_exit_kind"@, quoted(end_kind_token(outcome.end_kind))),
            ("observed_code"@, hex_literal(observed_code_of(outcome, confidence) as nat, 8)),
            ("diagnosis"@, quoted(issue.diagnosis@)),
            ("dll"@, quoted(issue.dll@)),
            ("confidence"@, quoted(confidence_token(confidence))),
        ]);
    }
    format_line("FIRST_BREAK", fields.as_slice())
}

/// `SUMMARY` of a diagnosis.
pub fn summary_line(first_break: bool, missing_static: usize, runtime_loaded: usize) -> (r: String)
    ensures
        r@ == "SUMMARY"@ + fields_text(
            seq![
                ("first_break"@, if first_break { "true"@ } else { "false"@ }),
                ("missing_static"@, dec_digits(missing_static as nat)),
                ("runtime_loaded"@, dec_digits(runtime_loaded as nat)),
                ("com_issues"@, "0"@),
            ],
        ),
{
    let mut fields: Vec<(String, String)> = Vec::new();
    fields.push(fld("first_break", if first_break { "true".to_owned() } else { "false".to_owned() }));
    fields.push(fld("missing_static", crate::emit::decimal(missing_static as u64)));
    fields.push(fld("runtime_loaded", crate::emit::decimal(runtime_loaded as u64)));
    fields.push(fld("com_issues", "0".to_owned()));
    proof {
        assert(crate::emit::fields_view(fields@) =~= seq![
            ("first_break"@, if first_break { "true"@ } else { "false"@ }),
            ("missing_static"@, dec_digits(missing_static as nat)),
            ("runtime_loaded"@, dec_digits(runtime_loaded as nat)),
            ("com_issues"@, "0"@),
        ]);
    }
    format_line("SUMMARY", fields.as_slice())
}

} // verus!
