use loadwhat::search::{resolve_dll, ResolutionKind, SearchContext};

fn context(safedll: bool) -> SearchContext {
    SearchContext {
        app_dir: r"C:\App".to_string(),
        cwd: r"C:\Work".to_string(),
        path_dirs: vec![r"C:\Tools".to_string(), r"c:\app".to_string()],
        safedll,
        system_dir: r"C:\Windows\System32".to_string(),
        windows_dir: r"C:\Windows".to_string(),
        system16_dir: Some(r"C:\Windows\System".to_string()),
    }
}

#[test]
fn safe_mode_order() {
    let roots = context(true).ordered_roots();
    assert_eq!(
        roots,
        vec![
            r"C:\App",
            r"C:\Windows\System32",
            r"C:\Windows\System",
            r"C:\Windows",
            r"C:\Work",
            r"C:\Tools",
        ]
    );
}

#[test]
fn unsafe_mode_puts_cwd_after_app() {
    let roots = context(false).ordered_roots();
    assert_eq!(
        roots,
        vec![
            r"C:\App",
            r"C:\Work",
            r"C:\Windows\System32",
            r"C:\Windows\System",
            r"C:\Windows",
            r"C:\Tools",
        ]
    );
}

#[test]
fn cwd_equal_to_app_ignoring_case_is_not_repeated() {
    let mut c = context(false);
    c.cwd = r"c:\APP".to_string();
    c.system16_dir = None;
    let roots = c.ordered_roots();
    assert_eq!(roots, vec![r"C:\App", r"C:\Windows\System32", r"C:\Windows", r"C:\Tools"]);
}

#[test]
fn resolution_numbers_candidates_and_stops_at_a_hit() {
    let c = context(true);
    let r = resolve_dll("lwtest_a.dll", &c, |p: &str| {
        if p == r"C:\Windows\lwtest_a.dll" {
            ResolutionKind::Found
        } else {
            ResolutionKind::Missing
        }
    });
    assert_eq!(r.kind, ResolutionKind::Found);
    assert_eq!(r.chosen.as_deref(), Some(r"C:\Windows\lwtest_a.dll"));
    let results: Vec<&str> = r.candidates.iter().map(|c| c.result).collect();
    assert_eq!(results, vec!["MISS", "MISS", "MISS", "HIT"]);
    for (i, c) in r.candidates.iter().enumerate() {
        assert_eq!(c.order, i + 1);
    }
    assert_eq!(r.candidates[0].path, r"C:\App\lwtest_a.dll");
}

#[test]
fn bad_image_stops_the_probe() {
    let c = context(true);
    let r = resolve_dll("x.dll", &c, |p: &str| {
        if p.starts_with(r"C:\Windows\System32") {
            ResolutionKind::BadImage
        } else {
            ResolutionKind::Missing
        }
    });
    assert_eq!(r.kind, ResolutionKind::BadImage);
    assert_eq!(r.candidates.len(), 2);
    assert_eq!(r.candidates[1].result, "BAD_IMAGE");
}

#[test]
fn missing_everywhere_probes_every_root() {
    let c = context(false);
    let r = resolve_dll("gone.dll", &c, |_p: &str| ResolutionKind::Missing);
    assert_eq!(r.kind, ResolutionKind::Missing);
    assert!(r.chosen.is_none());
    assert_eq!(r.candidates.len(), 6);
    assert_eq!(r.candidates[5].path, r"C:\Tools\gone.dll");
}

#[test]
fn absolute_name_is_probed_alone() {
    let c = context(true);
    let r = resolve_dll(r"D:\libs\x.dll", &c, |_p: &str| ResolutionKind::Found);
    assert_eq!(r.candidates.len(), 1);
    assert_eq!(r.candidates[0].path, r"D:\libs\x.dll");
    assert_eq!(r.candidates[0].order, 1);
    assert_eq!(r.kind, ResolutionKind::Found);
}

#[test]
fn root_with_trailing_separator_is_joined_once() {
    let mut c = context(true);
    c.app_dir = r"C:\App\".to_string();
    let r = resolve_dll("y.dll", &c, |_p: &str| ResolutionKind::Found);
    assert_eq!(r.candidates[0].path, r"C:\App\y.dll");
}
