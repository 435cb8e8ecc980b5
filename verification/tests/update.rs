use unkvoid::update::{is_newer, platform, signed};

/// `printf unkvoid | tauri signer sign` with the private half of the updater's key.
const SAMPLE_SIGNATURE: &str = "dW50cnVzdGVkIGNvbW1lbnQ6IHNpZ25hdHVyZSBmcm9tIHRhdXJpIHNlY3JldCBrZXkKUlVTYUdNa2tQdldiQ0hGSW5yRjYxbXFhTG1iV2M1YUVyY0xjTzBQSjBUNmpaQVVjMEhMUldScTQyelhxcmhmaS9waTExdFdFcXc4VWRLVGY2UzhFRlJvOTY1TlVJb1p5MVF3PQp0cnVzdGVkIGNvbW1lbnQ6IHRpbWVzdGFtcDoxNzkwNDM1OTM0CWZpbGU6YW1vc3RyYQpscGFIaFNVdVlIbERYcUZodDJaVDlGcENqd0IzK2VGL3A5UVZzdGJnYUoxOEZqbHh2MjdvSmJ0TTFXWWdPd1d4MXM0VGFkQ09CZXcwd2FQNElmSjBDdz09Cg==";

#[test]
fn versions_compare_by_number_and_not_by_letter() {
    assert!(is_newer("1.10.0", "1.9.3"));
    assert!(is_newer("0.0.41", "0.0.40"));
    assert!(!is_newer("0.0.40", "0.0.40"));
    assert!(!is_newer("0.9.9", "1.0.0"));
}

#[test]
fn a_beta_comes_after_the_old_versions_and_before_its_release() {
    assert!(is_newer("0.1.0-beta", "0.0.40"));
    assert!(is_newer("0.1.0", "0.1.0-beta"));
    assert!(!is_newer("0.1.0-beta", "0.1.0"));
    assert!(!is_newer("lixo", "0.0.1"));
}

#[test]
fn what_our_key_signed_passes_and_nothing_else_does() {
    assert!(signed(b"unkvoid", SAMPLE_SIGNATURE));

    assert!(!signed(b"unkvoiD", SAMPLE_SIGNATURE), "bytes trocados passaram");
    assert!(!signed(b"unkvoid", "não é base64"));
    assert!(!signed(b"unkvoid", ""));
}

#[test]
fn each_platform_reads_its_own_key_of_the_manifest() {
    assert_eq!(platform(true, false), "darwin-aarch64");
    assert_eq!(platform(false, true), "windows-x86_64-nsis");
    assert_eq!(platform(false, false), "linux-x86_64-deb");
}

#[test]
fn nothing_is_newer_than_what_is_no_version() {
    assert!(!is_newer("0.0.1", "lixo"));
    assert!(!is_newer("", ""));
}

#[test]
fn base64_that_is_no_minisign_file_is_refused() {
    // "hello" in base64: it decodes, but it is no signature.
    assert!(!signed(b"unkvoid", "aGVsbG8="));
}
