use std::collections::HashMap;

use loadwhat::debug_run::{DebugStringEvent, LoadedModule, RunEndKind, RunOutcome, RuntimeEvent};
use loadwhat::debug_run::RunError;
use loadwhat::fusion::{
    conclude_run, engine_error_exit_code, run_exit_code, snaps_step, static_trigger,
    test_mode_exit_code, Confidence, ImportAction, SnapsStep, StaticEmitMode, StaticReport,
    StaticWalk,
};
use loadwhat::pe::{direct_imports_from_bytes, looks_like_pe_image};
use loadwhat::report::{dynamic_missing_line, issue_line, search_path_line};
use loadwhat::search::{resolve_dll, ResolutionKind, SearchContext};
use loadwhat::snaps::detect_dynamic_missing_from_debug_strings;

fn pe_with_imports(names: &[&str]) -> Vec<u8> {
    let mut d = vec![0u8; 0x400];
    d[0] = b'M';
    d[1] = b'Z';
    d[0x3C..0x40].copy_from_slice(&0x40u32.to_le_bytes());
    let pe = 0x40;
    d[pe..pe + 4].copy_from_slice(b"PE\0\0");
    d[pe + 6..pe + 8].copy_from_slice(&1u16.to_le_bytes());
    d[pe + 20..pe + 22].copy_from_slice(&0xF0u16.to_le_bytes());
    let opt = pe + 24;
    d[opt..opt + 2].copy_from_slice(&0x20Bu16.to_le_bytes());
    let import_rva: u32 = if names.is_empty() { 0 } else { 0x1000 };
    d[opt + 120..opt + 124].copy_from_slice(&import_rva.to_le_bytes());
    let sec = opt + 0xF0;
    d[sec + 8..sec + 12].copy_from_slice(&0x200u32.to_le_bytes());
    d[sec + 12..sec + 16].copy_from_slice(&0x1000u32.to_le_bytes());
    d[sec + 16..sec + 20].copy_from_slice(&0x200u32.to_le_bytes());
    d[sec + 20..sec + 24].copy_from_slice(&0x200u32.to_le_bytes());
    let mut name_off = 0x200 + 20 * (names.len() + 1);
    for (i, name) in names.iter().enumerate() {
        let desc = 0x200 + 20 * i;
        let rva = 0x1000 + (name_off - 0x200) as u32;
        d[desc..desc + 4].copy_from_slice(&1u32.to_le_bytes());
        d[desc + 12..desc + 16].copy_from_slice(&rva.to_le_bytes());
        d[name_off..name_off + name.len()].copy_from_slice(name.as_bytes());
        name_off += name.len() + 1;
    }
    d
}

fn context() -> SearchContext {
    SearchContext {
        app_dir: r"C:\case\app".to_string(),
        cwd: r"C:\case\cwd".to_string(),
        path_dirs: Vec::new(),
        safedll: true,
        system_dir: r"C:\Windows\System32".to_string(),
        windows_dir: r"C:\Windows".to_string(),
        system16_dir: None,
    }
}

/// The static walk over an in-memory set of files.
fn walk(host: &str, files: &HashMap<String, Vec<u8>>, runtime_loaded: Vec<String>) -> StaticReport {
    let ctx = context();
    let mut walk = StaticWalk::new(
        host.to_string(),
        host.to_lowercase(),
        runtime_loaded,
        StaticEmitMode::FailuresOnly,
    );
    while let Some(node) = walk.next_node() {
        let imports = direct_imports_from_bytes(&files[&node.image_path]).unwrap();
        for dll in imports {
            if walk.import_action(&node, &dll) != ImportAction::Resolve {
                continue;
            }
            let r = resolve_dll(&dll, &ctx, |p: &str| match files.get(p) {
                Some(b) if looks_like_pe_image(b) => ResolutionKind::Found,
                Some(_) => ResolutionKind::BadImage,
                None => ResolutionKind::Missing,
            });
            let key = r.chosen.as_ref().map(|c| c.to_lowercase());
            walk.record(&node, &dll, r, key);
        }
    }
    walk.finish(ctx.safedll)
}

fn outcome(end_kind: RunEndKind, exit_code: Option<u32>, exception: Option<u32>) -> RunOutcome {
    RunOutcome {
        pid: 7,
        runtime_events: Vec::new(),
        loaded_modules: Vec::new(),
        end_kind,
        exit_code,
        exception_code: exception,
        elapsed_ms: 40,
    }
}

fn module(name: &str) -> LoadedModule {
    LoadedModule { dll_name: name.to_string(), path: None, base: 0x1000 }
}

#[test]
fn static_missing_direct() {
    let host = r"C:\case\app\host_static_imports_missing.exe";
    let mut files = HashMap::new();
    files.insert(host.to_string(), pe_with_imports(&["lwtest_a.dll", "kernel32.dll"]));
    files.insert(r"C:\Windows\System32\kernel32.dll".to_string(), pe_with_imports(&[]));
    let o = outcome(RunEndKind::Exception, Some(0xC0000135), Some(0xC0000135));
    assert_eq!(static_trigger(&o), Some(Confidence::High));
    let report = walk(host, &files, Vec::new());
    let issue = report.first_issue.as_ref().unwrap();
    assert_eq!(issue.dll, "lwtest_a.dll");
    assert_eq!(issue.depth, 1);
    assert_eq!(
        issue_line(issue),
        r#"STATIC_MISSING module="host_static_imports_missing.exe" dll="lwtest_a.dll" reason="NOT_FOUND""#
    );
    assert_eq!(
        search_path_line(&issue.dll, &issue.candidates[0]),
        r#"SEARCH_PATH dll="lwtest_a.dll" order=1 path="C:\\case\\app\\lwtest_a.dll" result="MISS""#
    );
    assert_eq!(run_exit_code(report.missing_or_bad, &o), 10);
}

#[test]
fn static_missing_transitive() {
    let host = r"C:\case\app\host_static_a_depends_on_b.exe";
    let mut files = HashMap::new();
    files.insert(host.to_string(), pe_with_imports(&["lwtest_a.dll"]));
    files.insert(r"C:\case\app\lwtest_a.dll".to_string(), pe_with_imports(&["lwtest_b.dll"]));
    let report = walk(host, &files, Vec::new());
    let issue = report.first_issue.as_ref().unwrap();
    let line = issue_line(issue);
    assert!(line.starts_with("STATIC_MISSING "));
    assert!(line.contains(r#"dll="lwtest_b.dll""#));
    assert!(line.contains(r#"via="lwtest_a.dll""#));
    assert!(line.contains("depth=2"));
    let o = outcome(RunEndKind::Exception, Some(0xC0000135), Some(0xC0000135));
    assert_eq!(run_exit_code(report.missing_or_bad, &o), 10);
}

#[test]
fn direct_failure_wins_over_transitive() {
    let host = r"C:\case\app\host.exe";
    let mut files = HashMap::new();
    files.insert(host.to_string(), pe_with_imports(&["a_dep.dll", "z_missing.dll"]));
    files.insert(r"C:\case\app\a_dep.dll".to_string(), pe_with_imports(&["b_missing.dll"]));
    files.insert(r"C:\case\app\bad.dll".to_string(), vec![1, 2, 3]);
    let report = walk(host, &files, Vec::new());
    assert_eq!(report.first_issue.as_ref().unwrap().dll, "z_missing.dll");
    assert_eq!(report.missing_or_bad, 1);

    let mut files2 = files.clone();
    files2.insert(host.to_string(), pe_with_imports(&["bad.dll", "a_dep.dll"]));
    let report = walk(host, &files2, Vec::new());
    let issue = report.first_issue.as_ref().unwrap();
    assert_eq!(issue.dll, "bad.dll");
    assert_eq!(issue.diagnosis, "BAD_STATIC_IMPORT_IMAGE");
    assert_eq!(
        issue_line(issue),
        r#"STATIC_BAD_IMAGE module="host.exe" dll="bad.dll" reason="BAD_IMAGE""#
    );
}

#[test]
fn runtime_observed_and_api_set_imports_are_not_probed() {
    let host = r"C:\case\app\host.exe";
    let mut files = HashMap::new();
    files.insert(
        host.to_string(),
        pe_with_imports(&["api-ms-win-core-file-l1-2-0.dll", "seen.dll"]),
    );
    let report = walk(host, &files, vec!["seen.dll".to_string()]);
    assert_eq!(report.missing_or_bad, 0);
    assert!(report.first_issue.is_none());
}

#[test]
fn dynamic_missing_reports_not_found() {
    let mut o = outcome(RunEndKind::ExitProcess, Some(0xC0000135), None);
    o.runtime_events.push(RuntimeEvent::DebugString(DebugStringEvent {
        pid: 7,
        tid: 8,
        text: r#"LdrLoadDll - ENTER: DLL name: lwtest_a.dll"#.to_string(),
    }));
    o.runtime_events.push(RuntimeEvent::DebugString(DebugStringEvent {
        pid: 7,
        tid: 8,
        text: r#"LdrLoadDll - RETURN: Status: 0xc0000135 ldrloaddll failed"#.to_string(),
    }));
    let dm = detect_dynamic_missing_from_debug_strings(&o).unwrap();
    assert_eq!(
        dynamic_missing_line(&dm),
        r#"DYNAMIC_MISSING dll="lwtest_a.dll" reason="NOT_FOUND" status=0xC0000135"#
    );
    assert_eq!(run_exit_code(1, &o), 10);
}

#[test]
fn dynamic_resolved_by_cwd_exits_clean() {
    let mut o = outcome(RunEndKind::ExitProcess, Some(0), None);
    o.loaded_modules.push(module("lwtest_a.dll"));
    o.runtime_events.push(RuntimeEvent::DebugString(DebugStringEvent {
        pid: 7,
        tid: 8,
        text: r#"LdrLoadDll - ENTER: DLL name: lwtest_a.dll"#.to_string(),
    }));
    o.runtime_events.push(RuntimeEvent::DebugString(DebugStringEvent {
        pid: 7,
        tid: 8,
        text: r#"LdrpLoadDllInternal - RETURN: Status: 0x00000000"#.to_string(),
    }));
    assert!(detect_dynamic_missing_from_debug_strings(&o).is_none());
    assert_eq!(static_trigger(&o), None);
    assert_eq!(run_exit_code(0, &o), 0);
}

#[test]
fn successful_static_imports() {
    let host = r"C:\case\app\host_static_imports_a.exe";
    let mut files = HashMap::new();
    files.insert(host.to_string(), pe_with_imports(&["lwtest_a.dll"]));
    files.insert(r"C:\case\app\lwtest_a.dll".to_string(), pe_with_imports(&["lwtest_b.dll"]));
    files.insert(r"C:\case\app\lwtest_b.dll".to_string(), pe_with_imports(&[]));
    let report = walk(host, &files, Vec::new());
    assert_eq!(report.missing_or_bad, 0);
    assert!(report.first_issue.is_none());
    let o = outcome(RunEndKind::ExitProcess, Some(0), None);
    assert_eq!(run_exit_code(report.missing_or_bad, &o), 0);
}

#[test]
fn timeout_with_loaded_modules_exits_clean() {
    let mut o = outcome(RunEndKind::Timeout, None, None);
    assert_eq!(run_exit_code(0, &o), 21);
    o.loaded_modules.push(module("kernel32.dll"));
    assert_eq!(run_exit_code(0, &o), 0);
    assert_eq!(test_mode_exit_code(&o, false), 3);
}

#[test]
fn early_nonzero_exit_is_medium_confidence() {
    let mut o = outcome(RunEndKind::ExitProcess, Some(1), None);
    assert_eq!(static_trigger(&o), Some(Confidence::Medium));
    for i in 0..7 {
        o.loaded_modules.push(module(&format!("m{i}.dll")));
    }
    assert_eq!(static_trigger(&o), None);
    let mut slow = outcome(RunEndKind::ExitProcess, Some(1), None);
    slow.elapsed_ms = 1500;
    assert_eq!(static_trigger(&slow), None);
    assert_eq!(run_exit_code(0, &slow), 21);
    assert_eq!(test_mode_exit_code(&slow, true), 2);
    assert_eq!(test_mode_exit_code(&outcome(RunEndKind::ExitProcess, Some(0), None), false), 0);
}

#[test]
fn loaded_names_are_compared_lowercase() {
    let mut o = outcome(RunEndKind::ExitProcess, Some(0), None);
    o.loaded_modules.push(module("KERNEL32.DLL"));
    o.loaded_modules.push(module("LwTest_A.dll"));
    assert_eq!(
        loadwhat::fusion::runtime_loaded_names(&o),
        vec!["kernel32.dll".to_string(), "lwtest_a.dll".to_string()]
    );
}

#[test]
fn success_and_issue_lines() {
    assert_eq!(loadwhat::report::success_line(0), "SUCCESS status=0");
    assert_eq!(
        loadwhat::report::static_issue_line("a.dll", "a.dll", "b.dll", ResolutionKind::Missing, 3),
        r#"STATIC_MISSING module="a.dll" dll="b.dll" reason="NOT_FOUND" via="a.dll" depth=3"#
    );
    assert_eq!(
        loadwhat::report::static_issue_line("h.exe", "h.exe", "b.dll", ResolutionKind::Missing, 1),
        r#"STATIC_MISSING module="h.exe" dll="b.dll" reason="NOT_FOUND""#
    );
}

#[test]
fn ext_ms_stubs_are_skipped_by_the_walk() {
    let host = r"C:\case\app\host.exe";
    let mut files = HashMap::new();
    files.insert(host.to_string(), pe_with_imports(&["ext-ms-onecore-appmodel-l1-1-0.dll"]));
    let report = walk(host, &files, Vec::new());
    assert_eq!(report.missing_or_bad, 0);
}

#[test]
fn dynamic_missing_concludes_with_exit_10() {
    let mut o = outcome(RunEndKind::ExitProcess, Some(0xC0000135), None);
    o.runtime_events.push(RuntimeEvent::DebugString(DebugStringEvent {
        pid: 7,
        tid: 8,
        text: r#"LdrLoadDll failed for C:\App\lwtest_a.dll Status: 0xC0000135"#.to_string(),
    }));
    let dm = detect_dynamic_missing_from_debug_strings(&o).unwrap();
    let c = conclude_run(&o, None, Some(&dm), true, false, false);
    assert!(c.report_dynamic && !c.report_static && !c.print_success);
    assert_eq!(c.missing_or_bad, 1);
    assert_eq!(c.exit_code, 10);
    let off = conclude_run(&o, None, Some(&dm), false, false, false);
    assert!(!off.report_dynamic);
    assert_eq!(off.exit_code, 21);
    let t = conclude_run(&o, None, Some(&dm), true, false, true);
    assert!(!t.report_dynamic);
    assert_eq!(t.lwtest_name.as_deref(), Some("lwtest_a.dll"));
    assert_eq!(t.exit_code, 2);
}

#[test]
fn clean_run_concludes_with_one_success_line() {
    let host = r"C:\case\app\host_static_imports_a.exe";
    let mut files = HashMap::new();
    files.insert(host.to_string(), pe_with_imports(&["lwtest_a.dll"]));
    files.insert(r"C:\case\app\lwtest_a.dll".to_string(), pe_with_imports(&[]));
    let report = walk(host, &files, Vec::new());
    let o = outcome(RunEndKind::ExitProcess, Some(0), None);
    let c = conclude_run(&o, Some(&report), None, false, false, false);
    assert!(c.print_success && !c.print_summary && !c.report_static);
    assert_eq!(c.exit_code, 0);
    let v = conclude_run(&o, Some(&report), None, false, true, false);
    assert!(!v.print_success && v.print_summary);
}

#[test]
fn static_issue_wins_over_dynamic_and_names_the_fixture() {
    let host = r"C:\case\app\host.exe";
    let mut files = HashMap::new();
    files.insert(host.to_string(), pe_with_imports(&["LWTEST_B.DLL"]));
    let report = walk(host, &files, Vec::new());
    let mut o = outcome(RunEndKind::Exception, Some(0xC0000135), Some(0xC0000135));
    o.runtime_events.push(RuntimeEvent::DebugString(DebugStringEvent {
        pid: 7,
        tid: 8,
        text: r#"LdrLoadDll failed for other.dll Status: 0xC0000135"#.to_string(),
    }));
    let dm = detect_dynamic_missing_from_debug_strings(&o).unwrap();
    let c = conclude_run(&o, Some(&report), Some(&dm), true, false, false);
    assert!(c.report_static && !c.report_dynamic);
    assert_eq!(c.exit_code, 10);
    let t = conclude_run(&o, Some(&report), Some(&dm), true, false, true);
    assert_eq!(t.lwtest_name.as_deref(), Some("lwtest_b.dll"));
    assert_eq!(t.exit_code, 2);
    let issue = report.first_issue.as_ref().unwrap();
    assert_eq!(
        loadwhat::report::first_break_line(&o, Confidence::High, issue),
        r#"FIRST_BREAK observed_exit_kind="EXCEPTION" observed_code=0xC0000135 diagnosis="MISSING_STATIC_IMPORT" dll="lwtest_b.dll" confidence="HIGH""#
    );
    assert_eq!(
        loadwhat::report::summary_line(true, 1, 4),
        "SUMMARY first_break=true missing_static=1 runtime_loaded=4 com_issues=0"
    );
}

#[test]
fn peb_failure_falls_back_to_ifeo() {
    let failed: Result<RunOutcome, RunError> = Err(RunError::PebLoaderSnapsEnableFailed(5));
    assert_eq!(snaps_step(true, &failed), SnapsStep::FallBackToIfeo(5));
    assert_eq!(snaps_step(false, &failed), SnapsStep::Done);
    let other: Result<RunOutcome, RunError> = Err(RunError::Message("x".to_string()));
    assert_eq!(snaps_step(true, &other), SnapsStep::Done);
    assert_eq!(engine_error_exit_code(false), 21);
    assert_eq!(engine_error_exit_code(true), 10);
}
