use smbn::secret::{protected_blob, protected_text, SecretTextError};

#[test]
fn blobs_are_stored_as_standard_base64() {
    assert_eq!(protected_text(&vec![]), "");
    assert_eq!(protected_text(&b"f".to_vec()), "Zg==");
    assert_eq!(protected_text(&b"foobar".to_vec()), "Zm9vYmFy");
    assert_eq!(protected_text(&vec![0xfb, 0xff]), "+/8=");
}

#[test]
fn stored_text_reads_back() {
    let blob: Vec<u8> = (0u8..=255).collect();
    let text = protected_text(&blob);
    assert_eq!(protected_blob(&text).unwrap(), blob);
    assert_ne!(protected_text(&blob), protected_text(&b"other".to_vec()));
}

#[test]
fn invalid_text_is_refused() {
    assert!(matches!(protected_blob("not base64!"), Err(SecretTextError::Base64(_))));
    assert!(matches!(protected_blob("Zg="), Err(SecretTextError::Base64(_))));
}
