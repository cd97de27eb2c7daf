use loadwhat::pe::{direct_imports_from_bytes, looks_like_pe_image, parse_pe_layout, read_u16, read_u32, rva_to_offset, PeError, Section};

/// A PE32+ image with one section at RVA 0x1000 (file offset 0x200) holding
/// an import directory that names `names`.
fn pe_with_imports(names: &[&str]) -> Vec<u8> {
    let mut d = vec![0u8; 0x400];
    d[0] = b'M';
    d[1] = b'Z';
    d[0x3C..0x40].copy_from_slice(&0x40u32.to_le_bytes());
    let pe = 0x40;
    d[pe..pe + 4].copy_from_slice(b"PE\0\0");
    d[pe + 6..pe + 8].copy_from_slice(&1u16.to_le_bytes());
    d[pe + 20..pe + 22].copy_from_slice(&0xF0u16.to_le_bytes());
    let opt = pe + 24;
    d[opt..opt + 2].copy_from_slice(&0x20Bu16.to_le_bytes());
    let import_rva: u32 = if names.is_empty() { 0 } else { 0x1000 };
    d[opt + 112 + 8..opt + 112 + 12].copy_from_slice(&import_rva.to_le_bytes());
    let sec = opt + 0xF0;
    d[sec + 8..sec + 12].copy_from_slice(&0x200u32.to_le_bytes());
    d[sec + 12..sec + 16].copy_from_slice(&0x1000u32.to_le_bytes());
    d[sec + 16..sec + 20].copy_from_slice(&0x200u32.to_le_bytes());
    d[sec + 20..sec + 24].copy_from_slice(&0x200u32.to_le_bytes());
    let mut name_off = 0x200 + 20 * (names.len() + 1);
    for (i, name) in names.iter().enumerate() {
        let desc = 0x200 + 20 * i;
        let rva = 0x1000 + (name_off - 0x200) as u32;
        d[desc..desc + 4].copy_from_slice(&1u32.to_le_bytes());
        d[desc + 12..desc + 16].copy_from_slice(&rva.to_le_bytes());
        d[name_off..name_off + name.len()].copy_from_slice(name.as_bytes());
        name_off += name.len() + 1;
    }
    d
}

#[test]
fn imports_are_lowercased_sorted_and_deduplicated() {
    let d = pe_with_imports(&["KERNEL32.dll", "lwtest_b.dll", "LWTEST_A.DLL", "lwtest_b.dll"]);
    let got = direct_imports_from_bytes(&d).unwrap();
    assert_eq!(got, vec!["kernel32.dll", "lwtest_a.dll", "lwtest_b.dll"]);
}

#[test]
fn reparsing_gives_the_identical_list() {
    let d = pe_with_imports(&["z.dll", "a.dll", "m.dll"]);
    let first = direct_imports_from_bytes(&d).unwrap();
    let second = direct_imports_from_bytes(&d).unwrap();
    assert_eq!(first, second);
}

#[test]
fn image_without_import_directory_has_no_imports() {
    let d = pe_with_imports(&[]);
    assert_eq!(direct_imports_from_bytes(&d).unwrap(), Vec::<String>::new());
    assert!(looks_like_pe_image(&d));
}

#[test]
fn header_defects_are_reported() {
    assert_eq!(
        direct_imports_from_bytes(&[0u8; 10]).unwrap_err(),
        "file too small for DOS header"
    );
    let mut d = pe_with_imports(&["a.dll"]);
    d[0] = b'X';
    assert_eq!(direct_imports_from_bytes(&d).unwrap_err(), "missing MZ header");
    assert!(!looks_like_pe_image(&d));

    let mut d = pe_with_imports(&["a.dll"]);
    d[0x3C..0x40].copy_from_slice(&0x3F0u32.to_le_bytes());
    assert_eq!(direct_imports_from_bytes(&d).unwrap_err(), "invalid PE header offset");

    let mut d = pe_with_imports(&["a.dll"]);
    d[0x41] = b'X';
    assert_eq!(direct_imports_from_bytes(&d).unwrap_err(), "missing PE signature");

    let mut d = pe_with_imports(&["a.dll"]);
    d[0x58..0x5A].copy_from_slice(&0x30Bu16.to_le_bytes());
    assert_eq!(
        direct_imports_from_bytes(&d).unwrap_err(),
        "unsupported optional header format"
    );

    let mut d = pe_with_imports(&["a.dll"]);
    d[0x54..0x56].copy_from_slice(&0x40u16.to_le_bytes());
    assert_eq!(
        direct_imports_from_bytes(&d).unwrap_err(),
        "optional header missing data directories"
    );

    let mut d = pe_with_imports(&["a.dll"]);
    d[0x54..0x56].copy_from_slice(&1u16.to_le_bytes());
    assert_eq!(direct_imports_from_bytes(&d).unwrap_err(), "optional header too small");

    let mut d = pe_with_imports(&["a.dll"]);
    d[0x46..0x48].copy_from_slice(&100u16.to_le_bytes());
    assert_eq!(direct_imports_from_bytes(&d).unwrap_err(), "truncated section table");
}

#[test]
fn import_table_defects_are_reported() {
    let mut d = pe_with_imports(&["a.dll"]);
    let opt = 0x58;
    d[opt + 120..opt + 124].copy_from_slice(&0x9000u32.to_le_bytes());
    assert_eq!(direct_imports_from_bytes(&d).unwrap_err(), "invalid import table RVA");

    let mut d = pe_with_imports(&["a.dll"]);
    d[0x20C..0x210].copy_from_slice(&0x9000u32.to_le_bytes());
    assert_eq!(direct_imports_from_bytes(&d).unwrap_err(), "invalid import name RVA");

    let mut d = pe_with_imports(&["a.dll"]);
    let name = 0x200 + 40;
    d[name] = 0xC3;
    assert_eq!(
        direct_imports_from_bytes(&d).unwrap_err(),
        "import name is not valid 7-bit text"
    );

    let mut d = pe_with_imports(&["a.dll"]);
    d.truncate(0x200 + 10);
    assert_eq!(
        direct_imports_from_bytes(&d).unwrap_err(),
        "truncated import descriptor table"
    );

    let mut d = pe_with_imports(&["a.dll"]);
    d.truncate(0x200 + 30);
    assert_eq!(direct_imports_from_bytes(&d).unwrap_err(), "string offset out of bounds");

    let mut d = pe_with_imports(&["a.dll"]);
    for b in d[0x200 + 40..].iter_mut() {
        *b = b'x';
    }
    assert_eq!(direct_imports_from_bytes(&d).unwrap_err(), "unterminated import string");
}

#[test]
fn layout_and_readers() {
    let d = pe_with_imports(&["a.dll"]);
    let layout = parse_pe_layout(&d).ok().unwrap();
    assert_eq!(layout.import_rva, 0x1000);
    assert_eq!(layout.sections.len(), 1);
    assert_eq!(layout.sections[0].raw_data_ptr, 0x200);
    assert_eq!(read_u16(&d, 0), Ok(0x5A4D));
    assert_eq!(read_u32(&d, 0x3C), Ok(0x40));
    assert_eq!(read_u32(&d, d.len() - 3), Err(PeError::UnexpectedEof));
    let s = Section { virtual_address: 0x1000, virtual_size: 0x10, raw_data_ptr: 0x400, raw_data_size: 0x80 };
    assert_eq!(rva_to_offset(0x1050, &[s]), Some(0x450));
    assert_eq!(rva_to_offset(0x1080, &[s]), None);
    let top = Section { virtual_address: 0x10, virtual_size: 0x100, raw_data_ptr: u32::MAX, raw_data_size: 0 };
    assert_eq!(rva_to_offset(0x20, &[top, s]), None);
}
