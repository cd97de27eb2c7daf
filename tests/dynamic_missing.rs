use loadwhat::debug_run::{DebugStringEvent, LoadedModule, RunEndKind, RunOutcome, RuntimeEvent};
use loadwhat::snaps::{
    detect_dynamic_missing_from_debug_strings, detect_missing_lwtest_dll_from_debug_strings,
    extract_dll_basenames, extract_first_hex_u32, extract_unable_to_load_dll, failure_score,
    is_ignored_probe_line, is_noise_dll, looks_like_load_attempt, normalize_dll_basename,
    pick_best_dll,
};

fn outcome_with_debug_lines(lines: &[&str]) -> RunOutcome {
    let events = lines
        .iter()
        .map(|line| {
            RuntimeEvent::DebugString(DebugStringEvent {
                pid: 1,
                tid: 1,
                text: (*line).to_string(),
            })
        })
        .collect();
    RunOutcome {
        pid: 1,
        runtime_events: events,
        loaded_modules: Vec::new(),
        end_kind: RunEndKind::ExitProcess,
        exit_code: Some(0),
        exception_code: None,
        elapsed_ms: 1,
    }
}

#[test]
fn detects_dynamic_missing_on_single_failure_line() {
    let outcome = outcome_with_debug_lines(&[
        r#"LdrLoadDll failed for C:\App\foo.dll Status: 0xC0000135"#,
    ]);
    let detected =
        detect_dynamic_missing_from_debug_strings(&outcome).expect("expected dynamic missing");
    assert_eq!(detected.dll, "foo.dll");
    assert_eq!(detected.reason, "NOT_FOUND");
    assert_eq!(detected.status, Some(0xC0000135));
}

#[test]
fn uses_last_load_attempt_when_failure_line_has_no_dll() {
    let outcome = outcome_with_debug_lines(&[
        r#"LdrLoadDll - ENTER: DLL name: C:\App\bar.dll"#,
        r#"LdrpInitializeProcess - ERROR: Walking the import tables of the executable and its static imports failed with status 0xc0000135"#,
    ]);
    let detected =
        detect_dynamic_missing_from_debug_strings(&outcome).expect("expected dynamic missing");
    assert_eq!(detected.dll, "bar.dll");
    assert_eq!(detected.reason, "NOT_FOUND");
}

#[test]
fn prefers_non_noise_dll() {
    let outcome = outcome_with_debug_lines(&[
        r#"LdrLoadDll failed for api-ms-win-core-file-l1-2-0.dll while loading mydep.dll Status: 0xC0000135"#,
    ]);
    let detected =
        detect_dynamic_missing_from_debug_strings(&outcome).expect("expected dynamic missing");
    assert_eq!(detected.dll, "mydep.dll");
}

#[test]
fn transitive_terminal_failure_prefers_unable_to_load_dll_line() {
    let outcome = outcome_with_debug_lines(&[
        r#"LdrpFindKnownDll - RETURN: Status: 0xc0000135"#,
        r#"LdrpProcessWork - ERROR: Unable to load DLL: "lwtest_b.dll", Parent Module: "C:\App\lwtest_a.dll", Status: 0xc0000135"#,
    ]);
    let detected =
        detect_dynamic_missing_from_debug_strings(&outcome).expect("expected dynamic missing");
    assert_eq!(detected.dll, "lwtest_b.dll");
    assert_eq!(detected.reason, "NOT_FOUND");
    assert_eq!(detected.status, Some(0xC0000135));
}

#[test]
fn probe_lines_alone_do_not_trigger_dynamic_missing() {
    let outcome = outcome_with_debug_lines(&[
        r#"LdrpFindKnownDll - RETURN: Status: 0xc0000135"#,
        r#"LdrpFindLoadedDllInternal - RETURN: Status: 0xc0000135"#,
        r#"LdrpResolveDllName - RETURN: Status: 0xc0000135"#,
    ]);
    assert!(detect_dynamic_missing_from_debug_strings(&outcome).is_none());
}

#[test]
fn lwtest_wrapper_filters_non_fixture_dlls() {
    let outcome = outcome_with_debug_lines(&[
        r#"LdrLoadDll failed for C:\App\foo.dll Status: 0xC0000135"#,
    ]);
    assert_eq!(detect_missing_lwtest_dll_from_debug_strings(&outcome), None);

    let outcome = outcome_with_debug_lines(&[
        r#"LdrLoadDll failed for C:\App\lwtest_b.dll Status: 0xC0000135"#,
    ]);
    assert_eq!(
        detect_missing_lwtest_dll_from_debug_strings(&outcome),
        Some("lwtest_b.dll".to_string())
    );
}

#[test]
fn probe_line_among_failures_is_not_selected() {
    let outcome = outcome_with_debug_lines(&[
        r#"LdrLoadDll failed for C:\App\first.dll Status: 0xC0000135"#,
        r#"LdrpFindKnownDll - RETURN: Status: 0xc0000135 for other.dll"#,
    ]);
    let detected = detect_dynamic_missing_from_debug_strings(&outcome).unwrap();
    assert_eq!(detected.dll, "first.dll");
}

#[test]
fn later_line_wins_a_tie_and_higher_score_wins() {
    let outcome = outcome_with_debug_lines(&[
        r#"LdrLoadDll failed for C:\App\one.dll Status: 0xC000007B"#,
        r#"LdrLoadDll failed for C:\App\two.dll Status: 0xC0000135"#,
    ]);
    let detected = detect_dynamic_missing_from_debug_strings(&outcome).unwrap();
    assert_eq!(detected.dll, "two.dll");

    let outcome = outcome_with_debug_lines(&[
        r#"LdrpProcessWork - ERROR: Unable to load DLL: "high.dll", Status: 0xc000007b"#,
        r#"LdrLoadDll failed for C:\App\low.dll Status: 0xC0000135"#,
    ]);
    let detected = detect_dynamic_missing_from_debug_strings(&outcome).unwrap();
    assert_eq!(detected.dll, "high.dll");
    assert_eq!(detected.reason, "BAD_IMAGE");
}

#[test]
fn loaded_module_events_are_skipped() {
    let mut outcome = outcome_with_debug_lines(&[]);
    outcome.runtime_events.push(RuntimeEvent::RuntimeLoaded(LoadedModule {
        dll_name: "foo.dll".to_string(),
        path: None,
        base: 0,
    }));
    assert!(detect_dynamic_missing_from_debug_strings(&outcome).is_none());
}

#[test]
fn reason_falls_back_to_words() {
    let outcome =
        outcome_with_debug_lines(&["LdrLoadDll failed: file not found x.dll status 0x00000001"]);
    let detected = detect_dynamic_missing_from_debug_strings(&outcome).unwrap();
    assert_eq!(detected.reason, "NOT_FOUND");
    assert_eq!(detected.status, Some(1));
    let outcome = outcome_with_debug_lines(&["LdrLoadDll failed: invalid image y.dll"]);
    assert_eq!(detect_dynamic_missing_from_debug_strings(&outcome).unwrap().reason, "BAD_IMAGE");
    let outcome = outcome_with_debug_lines(&["LdrLoadDll failed: z.dll"]);
    let detected = detect_dynamic_missing_from_debug_strings(&outcome).unwrap();
    assert_eq!(detected.reason, "OTHER");
    assert_eq!(detected.status, None);
}

#[test]
fn basenames_are_extracted_in_order_without_repeats() {
    let got = extract_dll_basenames(r#"c:\app\a.dll, "d:/x/b.dll" c:a.dll :c.dll a.dll"#);
    assert_eq!(got, vec!["a.dll", "b.dll", "c:a.dll", "c.dll"]);
    assert!(extract_dll_basenames("no library here").is_empty());
}

#[test]
fn first_hex_needs_eight_digits() {
    assert_eq!(extract_first_hex_u32("status 0x123 then 0xc0000135"), Some(0xC0000135));
    assert_eq!(extract_first_hex_u32("0xFFFFFFFF"), Some(0xFFFF_FFFF));
    assert_eq!(extract_first_hex_u32("0x1234567"), None);
}

#[test]
fn unable_to_load_clause_forms() {
    assert_eq!(
        extract_unable_to_load_dll(r#"x unable to load dll: "c:\q\lib.dll", more"#),
        Some("lib.dll".to_string())
    );
    assert_eq!(
        extract_unable_to_load_dll("unable to load dll:   'other.dll' tail.dll"),
        Some("other.dll".to_string())
    );
    assert_eq!(
        extract_unable_to_load_dll("unable to load dll: plain.dll, second.dll"),
        Some("plain.dll".to_string())
    );
    assert_eq!(extract_unable_to_load_dll("unable to load dll:   "), None);
    assert_eq!(extract_unable_to_load_dll("nothing"), None);
}

#[test]
fn scores_and_line_kinds() {
    assert_eq!(failure_score("ldrpprocesswork - error: unable to load dll: x"), 100);
    assert_eq!(failure_score("foo - error: unable to load dll: x"), 95);
    assert_eq!(failure_score("walking the import tables failed"), 90);
    assert_eq!(failure_score("process initialization failed"), 85);
    assert_eq!(failure_score("_ldrpinitialize - error"), 85);
    assert_eq!(failure_score("ldrloaddll x failed"), 80);
    assert_eq!(failure_score("ldrpsearchpath - return: status: 0xc0000135"), 70);
    assert_eq!(failure_score("ldrpsearchpath - return: status: 0x00000000"), 0);
    assert!(is_ignored_probe_line("ldrpresolvefilename - return: x"));
    assert!(!is_ignored_probe_line("ldrloaddll failed"));
    assert!(looks_like_load_attempt("ldrloaddll - enter: dll name: a.dll"));
    assert!(!looks_like_load_attempt("dll name: nothing"));
}

#[test]
fn noise_and_best_pick() {
    assert!(is_noise_dll("kernel32.dll"));
    assert!(is_noise_dll("ext-ms-foo.dll"));
    assert!(!is_noise_dll("mine.dll"));
    let dlls = vec!["ntdll.dll".to_string(), "mine.dll".to_string()];
    assert_eq!(pick_best_dll(&dlls), Some("mine.dll".to_string()));
    assert_eq!(pick_best_dll(&dlls[..1]), None);
}

#[test]
fn fixture_basename_normalization() {
    assert_eq!(normalize_dll_basename(r#" "C:\App\LWTEST_A.DLL" "#), Some("lwtest_a.dll".to_string()));
    assert_eq!(normalize_dll_basename("other.dll"), None);
    assert_eq!(normalize_dll_basename("lwtest_a.exe"), None);
}

#[test]
fn blank_lines_and_probe_traces_change_nothing() {
    let base = outcome_with_debug_lines(&[r#"LdrLoadDll failed for C:\App\foo.dll Status: 0xC0000135"#]);
    let padded = outcome_with_debug_lines(&[
        "   \t ",
        r#"LdrpFindKnownDll - RETURN: Status: 0xc0000135"#,
        r#"LdrLoadDll failed for C:\App\foo.dll Status: 0xC0000135"#,
        "",
        r#"LdrpResolveDllName - RETURN: Status: 0xc0000135"#,
    ]);
    let a = detect_dynamic_missing_from_debug_strings(&base).unwrap();
    let b = detect_dynamic_missing_from_debug_strings(&padded).unwrap();
    assert_eq!((a.dll, a.reason, a.status), (b.dll, b.reason, b.status));
    assert!(detect_dynamic_missing_from_debug_strings(&outcome_with_debug_lines(&["  ", ""])).is_none());
}

#[test]
fn api_set_stub_prefixes() {
    assert!(loadwhat::snaps::is_api_set_dll("ext-ms-onecore-x.dll"));
    assert!(loadwhat::snaps::is_api_set_dll("API-MS-WIN-core-file-l1-2-0.dll"));
    assert!(loadwhat::snaps::is_api_set_dll("Ext-MS-Win-foo.dll"));
    assert!(!loadwhat::snaps::is_api_set_dll("extra.dll"));
}
