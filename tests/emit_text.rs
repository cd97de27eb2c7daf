use loadwhat::emit::{decimal, field, format_line, hex_u32, hex_usize, quote};
use loadwhat::fusion::is_loader_related_code;

#[test]
fn quoting_escapes_the_five_characters() {
    assert_eq!(quote("a\\b\"c\nd\re\tf"), r#""a\\b\"c\nd\re\tf""#);
    assert_eq!(quote(""), "\"\"");
    assert_eq!(quote("ünï"), "\"ünï\"");
}

#[test]
fn hex_is_fixed_width_upper_case() {
    assert_eq!(hex_u32(0xC0000135), "0xC0000135");
    assert_eq!(hex_u32(0), "0x00000000");
    assert_eq!(hex_usize(0xabc), "0x0000000000000ABC");
    assert_eq!(decimal(0), "0");
    assert_eq!(decimal(1234567890), "1234567890");
}

#[test]
fn lines_join_fields() {
    let fields = vec![field("a", "1"), field("b", &quote("x y"))];
    assert_eq!(format_line("TOKEN", &fields), "TOKEN a=1 b=\"x y\"");
    assert_eq!(format_line("ALONE", &[]), "ALONE");
}

#[test]
fn loader_failure_codes() {
    for code in [0xC0000135u32, 0xC0000139, 0xC000007B, 0xC0000142, 0xC000001D, 0x8007007E, 0x800700C1] {
        assert!(is_loader_related_code(code));
    }
    assert!(!is_loader_related_code(0xC0000005));
}
