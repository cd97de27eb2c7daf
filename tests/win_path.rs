use loadwhat::paths::{display_path, normalize_for_compare};

#[test]
fn strips_long_path_prefix_and_normalizes_case() {
    let got = normalize_for_compare(r"\\?\C:\Foo\Bar");
    assert_eq!(got, r"c:\foo\bar");
}

#[test]
fn normalizes_slashes() {
    let got = normalize_for_compare(r"C:/Foo/Bar");
    assert_eq!(got, r"c:\foo\bar");
}

#[test]
fn strips_nt_prefix_variant() {
    let got = normalize_for_compare(r"\??\C:\Foo\Bar");
    assert_eq!(got, r"c:\foo\bar");
}

#[test]
fn compares_case_insensitive_paths() {
    let a = normalize_for_compare(r"c:\Foo\BAR");
    let b = normalize_for_compare(r"C:\foo\bar");
    assert_eq!(a, b);
}

#[test]
fn trims_surrounding_whitespace() {
    assert_eq!(normalize_for_compare("  C:\\Ä\\X \t"), "c:\\ä\\x");
}

#[test]
fn display_strips_long_prefixes() {
    assert_eq!(display_path(r"\\?\UNC\server\share\a.dll"), r"\\server\share\a.dll");
    assert_eq!(display_path(r"\\?\C:\x\a.dll"), r"C:\x\a.dll");
    assert_eq!(display_path(r"C:\x\a.dll"), r"C:\x\a.dll");
}
