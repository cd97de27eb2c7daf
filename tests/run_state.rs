use loadwhat::debug_run::{
    build_command_line, module_name, quote_cmd_arg, RunEndKind, RunState, RuntimeEvent,
    DBG_CONTINUE, DBG_EXCEPTION_NOT_HANDLED, STATUS_BREAKPOINT, STATUS_SINGLE_STEP,
};
use loadwhat::debug_run::{bytes_before_nul, debug_string_read_len, units_before_nul, LoadedModule};
use loadwhat::report::{lwtest_lines, run_event_lines};

#[test]
fn wait_is_capped_and_the_deadline_ends_it() {
    assert_eq!(RunState::wait_ms(0, 10_000), Some(250));
    assert_eq!(RunState::wait_ms(1000, 100), Some(250));
    assert_eq!(RunState::wait_ms(1000, 900), Some(100));
    assert_eq!(RunState::wait_ms(1000, 1000), None);
}

#[test]
fn exceptions_are_classified() {
    let mut s = RunState::new();
    assert_eq!(s.on_exception(STATUS_BREAKPOINT, false), DBG_CONTINUE);
    assert_eq!(s.on_exception(STATUS_SINGLE_STEP, true), DBG_CONTINUE);
    assert_eq!(s.exception_code, None);
    assert_eq!(s.on_exception(0xC0000005, true), DBG_EXCEPTION_NOT_HANDLED);
    assert_eq!(s.exception_code, None);
    assert_eq!(s.end_kind(), RunEndKind::Timeout);
    assert_eq!(s.on_exception(0xC0000135, false), DBG_EXCEPTION_NOT_HANDLED);
    assert_eq!(s.exception_code, Some(0xC0000135));
    assert_eq!(s.end_kind(), RunEndKind::Exception);
}

#[test]
fn exit_codes_with_high_bit_become_the_exception() {
    let mut s = RunState::new();
    s.on_exit_process(0xC0000135);
    assert_eq!(s.exit_code, Some(0xC0000135));
    assert_eq!(s.exception_code, Some(0xC0000135));
    assert_eq!(s.end_kind(), RunEndKind::ExitProcess);

    let mut s = RunState::new();
    s.on_exit_process(3);
    assert_eq!(s.exception_code, None);
    let o = s.finish(42, 17);
    assert_eq!(o.end_kind, RunEndKind::ExitProcess);
    assert_eq!(o.pid, 42);
    assert_eq!(o.elapsed_ms, 17);
}

#[test]
fn timeout_and_events_are_recorded_in_order() {
    let mut s = RunState::new();
    s.on_load_dll(Some(r"C:\Windows\System32\KERNEL32.DLL".to_string()), 0x7ff0_0000);
    s.on_debug_string(1, 2, Some("hello".to_string()));
    s.on_load_dll(None, 0xAB);
    s.on_debug_string(1, 2, None);
    s.on_timeout();
    let o = s.finish(9, 5);
    assert_eq!(o.end_kind, RunEndKind::Timeout);
    assert_eq!(o.loaded_modules.len(), 2);
    assert_eq!(o.loaded_modules[0].dll_name, "KERNEL32.DLL");
    assert_eq!(o.loaded_modules[1].dll_name, "UNKNOWN_00000000000000AB");
    assert_eq!(o.runtime_events.len(), 4);
    match &o.runtime_events[3] {
        RuntimeEvent::DebugString(d) => assert_eq!(d.text, "UNREADABLE"),
        _ => panic!("expected debug text"),
    }
    let lines = run_event_lines(r"\\?\C:\app\a.exe", r"C:\w", &o);
    assert_eq!(lines.len(), 6);
    assert_eq!(lines[0], r#"RUN_START exe="C:\\app\\a.exe" cwd="C:\\w" pid=9"#);
    assert_eq!(
        lines[1],
        r#"RUNTIME_LOADED pid=9 dll="KERNEL32.DLL" path="C:\\Windows\\System32\\KERNEL32.DLL" base=0x000000007FF00000"#
    );
    assert_eq!(
        lines[2],
        r#"DEBUG_STRING pid=1 tid=2 source="OUTPUT_DEBUG_STRING_EVENT" text="hello""#
    );
    assert_eq!(lines[5], r#"RUN_END pid=9 exit_kind="TIMEOUT" code=0x00000000"#);
}

#[test]
fn module_names_come_from_the_last_segment() {
    assert_eq!(module_name(&Some(r"C:\a\b.dll\".to_string()), 1), "b.dll");
    assert_eq!(module_name(&Some("c:/x/y.dll".to_string()), 1), "y.dll");
    assert_eq!(module_name(&Some(r"C:\a\..".to_string()), 0x10), "UNKNOWN_0000000000000010");
}

#[test]
fn arguments_are_quoted_for_the_windows_parser() {
    assert_eq!(quote_cmd_arg("plain"), "plain");
    assert_eq!(quote_cmd_arg("two words"), "\"two words\"");
    assert_eq!(quote_cmd_arg(r#"say "hi""#), r#""say \"hi\"""#);
    assert_eq!(quote_cmd_arg(r"dir with\ slash\"), r#""dir with\ slash\\""#);
    assert_eq!(quote_cmd_arg(r#"a\"b c"#), r#""a\\\"b c""#);
    assert_eq!(
        build_command_line(r"C:\Program Files\t.exe", &["-x".to_string(), "y z".to_string()]),
        r#""C:\Program Files\t.exe" -x "y z""#
    );
    assert_eq!(build_command_line("t.exe", &[]), "t.exe");
}

#[test]
fn debug_text_lengths_and_terminators() {
    assert_eq!(debug_string_read_len(0), None);
    assert_eq!(debug_string_read_len(12), Some(12));
    assert_eq!(debug_string_read_len(40000), Some(16384));
    assert_eq!(units_before_nul(&[65, 66, 0, 67]), 2);
    assert_eq!(units_before_nul(&[65, 66]), 2);
    assert_eq!(bytes_before_nul(&[0, 1]), 0);
}

#[test]
fn test_mode_lines() {
    let modules = vec![
        LoadedModule { dll_name: "LWTEST_A.dll".to_string(), path: Some(r"\\?\C:\app\lwtest_a.dll".to_string()), base: 1 },
        LoadedModule { dll_name: "lwtest_b.dll".to_string(), path: None, base: 2 },
        LoadedModule { dll_name: "kernel32.dll".to_string(), path: Some(r"C:\k.dll".to_string()), base: 3 },
    ];
    let lines = lwtest_lines(&modules, Some("LWTEST_B.DLL"), Some(0));
    assert_eq!(
        lines,
        vec![
            r"LWTEST:LOAD name=lwtest_a.dll path=C:\app\lwtest_a.dll".to_string(),
            "LWTEST:RESULT kind=missing_dll name=lwtest_b.dll".to_string(),
            "LWTEST:TARGET exit_code=0".to_string(),
        ]
    );
    assert!(lwtest_lines(&[], None, None).is_empty());
}
