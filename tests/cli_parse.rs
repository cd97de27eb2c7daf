use loadwhat::cli::{parse_from, parse_u32, usage, Command};

fn args(v: &[&str]) -> Vec<String> {
    v.iter().map(|s| s.to_string()).collect()
}

#[test]
fn parses_run_with_separator() {
    let cmd = parse_from(args(&[
        "loadwhat",
        "run",
        r"C:\tool\app.exe",
        "--timeout-ms",
        "1234",
        "--",
        "--flag",
    ]))
    .ok()
    .unwrap();

    match cmd {
        Command::Run(opts) => {
            assert_eq!(opts.timeout_ms, 1234);
            assert_eq!(opts.exe_args.len(), 1);
        }
        _ => panic!("expected run command"),
    }
}

#[test]
fn parses_run_verbose_short_flag() {
    let cmd = parse_from(args(&["loadwhat", "run", "notepad.exe", "-v"])).ok().unwrap();
    match cmd {
        Command::Run(opts) => {
            assert!(opts.verbose);
        }
        _ => panic!("expected run command"),
    }
}

#[test]
fn parses_run_loader_snaps_flag() {
    let cmd = parse_from(args(&["loadwhat", "run", "notepad.exe", "--loader-snaps"])).ok().unwrap();
    match cmd {
        Command::Run(opts) => {
            assert!(opts.loader_snaps);
        }
        _ => panic!("expected run command"),
    }
}

#[test]
fn run_defaults_and_cwd() {
    match parse_from(args(&["loadwhat", "RUN", "a.exe", "--cwd", r"C:\w", "--strict"])).ok().unwrap() {
        Command::Run(opts) => {
            assert_eq!(opts.exe_path, "a.exe");
            assert_eq!(opts.cwd.as_deref(), Some(r"C:\w"));
            assert_eq!(opts.timeout_ms, 30_000);
            assert!(!opts.loader_snaps && !opts.verbose);
            assert!(opts.exe_args.is_empty());
        }
        _ => panic!("expected run command"),
    }
}

#[test]
fn imports_and_help() {
    match parse_from(args(&["loadwhat", "imports", "x.dll", "--cwd", "d", "--quiet"])).ok().unwrap() {
        Command::Imports(opts) => {
            assert_eq!(opts.image_path, "x.dll");
            assert_eq!(opts.cwd.as_deref(), Some("d"));
        }
        _ => panic!("expected imports command"),
    }
    assert!(matches!(parse_from(args(&["loadwhat"])).ok().unwrap(), Command::Help));
    assert!(matches!(parse_from(args(&["loadwhat", "--help"])).ok().unwrap(), Command::Help));
}

#[test]
fn errors_carry_the_usage() {
    let u = usage();
    assert!(u.starts_with("loadwhat - diagnose Windows DLL loading failures\n\nUsage:\n"));
    assert_eq!(parse_from(Vec::new()).err().unwrap(), u);
    assert_eq!(
        parse_from(args(&["loadwhat", "Frob"])).err().unwrap(),
        format!("unknown command: frob\n\n{u}")
    );
    assert_eq!(
        parse_from(args(&["loadwhat", "run"])).err().unwrap(),
        format!("missing <exe_path>\n\n{u}")
    );
    assert_eq!(
        parse_from(args(&["loadwhat", "run", "a.exe", "--cwd"])).err().unwrap(),
        format!("--cwd requires a value\n\n{u}")
    );
    assert_eq!(
        parse_from(args(&["loadwhat", "run", "a.exe", "--timeout-ms", "x1"])).err().unwrap(),
        format!("invalid --timeout-ms value: x1\n\n{u}")
    );
    assert_eq!(
        parse_from(args(&["loadwhat", "run", "a.exe", "--bogus"])).err().unwrap(),
        format!("unknown run option: --bogus\n\n{u}")
    );
    assert_eq!(
        parse_from(args(&["loadwhat", "imports"])).err().unwrap(),
        format!("missing <exe_or_dll>\n\n{u}")
    );
    assert_eq!(
        parse_from(args(&["loadwhat", "imports", "a", "-v"])).err().unwrap(),
        format!("unknown imports option: -v\n\n{u}")
    );
}

#[test]
fn numbers_parse_like_u32() {
    assert_eq!(parse_u32("0"), Some(0));
    assert_eq!(parse_u32("+42"), Some(42));
    assert_eq!(parse_u32("4294967295"), Some(u32::MAX));
    assert_eq!(parse_u32("4294967296"), None);
    assert_eq!(parse_u32(""), None);
    assert_eq!(parse_u32("+"), None);
    assert_eq!(parse_u32("-1"), None);
    assert_eq!(parse_u32("12a"), None);
}
