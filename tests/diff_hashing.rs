use gitsc::diff_hasher::{generate_diff_hash, hex_encode, normalize_diff};

const SHA256_ABC: &str = "ba7816bf8f01cfea414140de5dae2223b00361a396177a9cb410ff61f20015ad";
const SHA256_EMPTY: &str = "e3b0c44298fc1c149afbf4c8996fb92427ae41e4649b934ca495991b7852b855";

#[test]
fn normalize_drops_blank_lines() {
    assert_eq!(normalize_diff("a\n\n  \nb\n\t\nc\n"), "a\nb\nc");
}

#[test]
fn normalize_empty_input() {
    assert_eq!(normalize_diff(""), "");
    assert_eq!(normalize_diff("\n \n\t\n"), "");
}

#[test]
fn normalize_keeps_order_and_inner_spaces() {
    assert_eq!(normalize_diff("  x  \ny\n"), "  x  \ny");
}

#[test]
fn normalize_strips_crlf() {
    assert_eq!(normalize_diff("a\r\n\r\nb\r\n"), "a\nb");
}

#[test]
fn normalize_is_idempotent_on_example() {
    let d = "diff --git a/x b/x\n\n+added\n   \n-removed\n";
    let once = normalize_diff(d);
    assert_eq!(normalize_diff(&once), once);
}

#[test]
fn hex_encode_bytes() {
    assert_eq!(hex_encode(&[0x00, 0xff, 0x1a, 0x09]), "00ff1a09");
    assert_eq!(hex_encode(&[]), "");
}

#[test]
fn fingerprint_known_digests() {
    assert_eq!(generate_diff_hash("abc"), SHA256_ABC);
    assert_eq!(generate_diff_hash(""), SHA256_EMPTY);
    assert_eq!(generate_diff_hash("\n\n"), SHA256_EMPTY);
}

#[test]
fn fingerprint_same_for_same_normal_form() {
    assert_eq!(generate_diff_hash("abc\n\n"), SHA256_ABC);
    assert_eq!(generate_diff_hash("a\nb"), generate_diff_hash("a\n\n\nb\n"));
}

#[test]
fn fingerprint_ignores_blank_lines_between_hunks() {
    let plain = "@@ -1 +1 @@\n-a\n+b\n@@ -5 +5 @@\n-c\n+d\n";
    let noisy = "@@ -1 +1 @@\n-a\n+b\n\n   \n\n@@ -5 +5 @@\n-c\n+d\n\n";
    assert_eq!(generate_diff_hash(plain), generate_diff_hash(noisy));
}

#[test]
fn fingerprint_differs_for_different_content() {
    assert_ne!(generate_diff_hash("+a"), generate_diff_hash("+b"));
    assert_eq!(generate_diff_hash("+a").len(), 64);
}

#[test]
fn fingerprint_ignores_several_blank_lines_at_line_start() {
    let plain = "+a\n+b\n";
    let noisy = "\n \t\n\r\n+a\n\n\n  \n+b\n";
    assert_eq!(generate_diff_hash(plain), generate_diff_hash(noisy));
    assert_eq!(normalize_diff(noisy), "+a\n+b");
}

#[test]
fn fingerprint_is_64_lowercase_hex_digits() {
    for d in ["", "+x", "a\nb\n", "\u{e9}\u{1f600}"] {
        let h = generate_diff_hash(d);
        assert_eq!(h.len(), 64);
        assert!(h.chars().all(|c| c.is_ascii_digit() || ('a'..='f').contains(&c)));
    }
}
