use loadwhat::loader_snaps::{LoaderSnapsGuard, REG_DWORD};

#[test]
fn enable_for_image_rejects_empty_name() {
    let mut value = None;
    let result = LoaderSnapsGuard::enable_for_image("", &mut value);
    assert_eq!(result.err(), Some(87));
    assert_eq!(value, None);
}

#[test]
fn enable_then_restore_deletes_an_absent_value() {
    let mut value = None;
    let mut guard = LoaderSnapsGuard::enable_for_image("app.exe", &mut value).ok().unwrap();
    assert_eq!(value, Some((REG_DWORD, vec![2, 0, 0, 0])));
    assert!(guard.key_path().ends_with(r"Image File Execution Options\app.exe"));
    assert!(guard.restore(&mut value));
    assert_eq!(value, None);
    assert_eq!(guard.confirm_restored(Ok(())), Ok(()));
    assert!(!guard.restore(&mut value));
    assert_eq!(value, None);
}

#[test]
fn enable_keeps_other_flags_and_restore_puts_back_the_bytes() {
    let original = Some((REG_DWORD, vec![0x00, 0x01, 0x00, 0x80]));
    let mut value = original.clone();
    let mut guard = LoaderSnapsGuard::enable_for_image("app.exe", &mut value).ok().unwrap();
    assert_eq!(value, Some((REG_DWORD, vec![0x02, 0x01, 0x00, 0x80])));
    assert!(guard.restore(&mut value));
    assert_eq!(value, original);

    let odd = Some((1u32, vec![0x41, 0x00]));
    let mut value = odd.clone();
    let mut guard = LoaderSnapsGuard::enable_for_image("b.exe", &mut value).ok().unwrap();
    assert_eq!(value, Some((REG_DWORD, vec![2, 0, 0, 0])));
    guard.restore(&mut value);
    assert_eq!(value, odd);
}

#[test]
fn failed_restore_write_is_retried() {
    let mut value = Some((REG_DWORD, vec![8, 0, 0, 0]));
    let mut guard = LoaderSnapsGuard::enable_for_image("c.exe", &mut value).ok().unwrap();
    assert_eq!(value, Some((REG_DWORD, vec![10, 0, 0, 0])));
    assert!(guard.restore(&mut value));
    assert_eq!(guard.confirm_restored(Err(5)), Err(5));
    let mut current = Some((REG_DWORD, vec![10, 0, 0, 0]));
    assert!(guard.restore(&mut current));
    assert_eq!(current, Some((REG_DWORD, vec![8, 0, 0, 0])));
    assert_eq!(guard.confirm_restored(Ok(())), Ok(()));
    assert!(!guard.restore(&mut current));
}
