use smbn::autostart::{autostart_command, open_outcome, registry_outcome, wide, HKEY_CURRENT_USER};

#[test]
fn predefined_hkey_is_sign_extended() {
    assert_eq!(HKEY_CURRENT_USER as u64, 0xffff_ffff_8000_0001);
}

#[test]
fn autostart_command_quotes_the_executable() {
    assert_eq!(autostart_command(r"C:\Program Files\Smbn\smbn.exe"), "\"C:\\Program Files\\Smbn\\smbn.exe\" --minimized");
}

#[test]
fn registry_outcomes() {
    assert_eq!(registry_outcome(true, 0), Ok(()));
    assert_eq!(registry_outcome(false, 0), Ok(()));
    assert_eq!(registry_outcome(false, 2), Ok(()));
    assert_eq!(registry_outcome(true, 2), Err(2));
    assert_eq!(registry_outcome(false, 5), Err(5));
    assert_eq!(open_outcome(0), Ok(()));
    assert_eq!(open_outcome(5), Err(5));
}

#[test]
fn wide_strings_end_with_zero() {
    assert_eq!(wide("Smbn"), vec![83u16, 109, 98, 110, 0]);
    assert_eq!(wide(""), vec![0u16]);
    let expected: Vec<u16> = "运行😀".encode_utf16().chain(Some(0)).collect();
    assert_eq!(wide("运行😀"), expected);
}
