//! Utility behaviour: validation, identifiers, hashing, base64, formatting
//! and version handling.

use umicp_core::utils::base64_decode;
use umicp_core::utils::base64_encode;
use umicp_core::utils::compare_versions;
use umicp_core::utils::format_bytes;
use umicp_core::utils::format_duration;
use umicp_core::utils::generate_hash;
use umicp_core::utils::generate_uuid;
use umicp_core::utils::get_current_timestamp;
use umicp_core::utils::is_ascii_only;
use umicp_core::utils::parse_timestamp;
use umicp_core::utils::parse_version;
use umicp_core::utils::sanitize_string;
use umicp_core::utils::truncate_string;
use umicp_core::utils::validate_index;
use umicp_core::utils::validate_non_empty;
use umicp_core::utils::validate_uuid;

#[test]
fn test_validate_non_empty_cases() {
    assert!(validate_non_empty("sender", "from").is_ok());
    assert!(validate_non_empty("", "from").is_err());
    assert!(validate_non_empty("   \t\n", "from").is_err());
}

#[test]
fn test_validate_index_cases() {
    assert!(validate_index(0, 3, "idx").is_ok());
    assert!(validate_index(2, 3, "idx").is_ok());
    assert!(validate_index(3, 3, "idx").is_err());
}

#[test]
fn test_uuid_generation_and_validation() {
    let id = generate_uuid();
    assert_eq!(id.chars().count(), 36);
    assert!(validate_uuid(&id));
    assert!(!validate_uuid("invalid-uuid"));
    assert!(validate_uuid("936da01f-9abd-4d9d-80c7-02af85c822a8"));
}

#[test]
fn test_timestamps() {
    let now = get_current_timestamp();
    assert!(!now.is_empty());
    assert!(parse_timestamp(&now).is_ok());
    assert_eq!(parse_timestamp("1970-01-01T00:01:00+00:00").unwrap(), 60);
    assert!(parse_timestamp("not a timestamp").is_err());
}

#[test]
fn test_generate_hash_known_value() {
    // SHA-256 of the empty input, in lowercase hexadecimal.
    let hash = generate_hash(b"");
    assert_eq!(hash, "e3b0c44298fc1c149afbf4c8996fb92427ae41e4649b934ca495991b7852b855");
    let hash = generate_hash(b"abc");
    assert_eq!(hash, "ba7816bf8f01cfea414140de5dae2223b00361a396177a9cb410ff61f20015ad");
}

#[test]
fn test_base64_roundtrip() {
    let data = vec![0u8, 1, 2, 250, 255];
    let encoded = base64_encode(&data);
    assert_eq!(encoded, "AAEC+v8=");
    let decoded = base64_decode(&encoded).unwrap();
    assert_eq!(decoded, data);
    assert!(base64_decode("not base64 !!!").is_err());
}

#[test]
fn test_format_bytes_values() {
    assert_eq!(format_bytes(0), "0 B");
    assert_eq!(format_bytes(512), "512 B");
    assert_eq!(format_bytes(1024), "1.00 KB");
    assert_eq!(format_bytes(1536), "1.50 KB");
    assert_eq!(format_bytes(1048576), "1.00 MB");
    assert_eq!(format_bytes(1073741824), "1.00 GB");
    assert_eq!(format_bytes(1099511627776), "1.00 TB");
    // Exact halves round to the even hundredth, as two-decimal float
    // formatting does: 1152 / 1024 = 1.125 and 1408 / 1024 = 1.375.
    assert_eq!(format_bytes(1152), "1.12 KB");
    assert_eq!(format_bytes(1408), "1.38 KB");
    assert_eq!(format!("{:.2} KB", 1152u64 as f64 / 1024.0), "1.12 KB");
    assert_eq!(format!("{:.2} KB", 1408u64 as f64 / 1024.0), "1.38 KB");
}

#[test]
fn test_format_duration_values() {
    assert_eq!(format_duration(59), "59s");
    assert_eq!(format_duration(61), "1m 1s");
    assert_eq!(format_duration(3661), "1h 1m 1s");
    assert_eq!(format_duration(90061), "1d 1h 1m 1s");
}

#[test]
fn test_sanitize_string_keeps_safe_characters() {
    assert_eq!(sanitize_string("a b!c_d-e.f"), "abc_d-e.f");
    assert_eq!(sanitize_string("hello"), "hello");
    assert_eq!(sanitize_string("!!!"), "");
}

#[test]
fn test_is_ascii_only_cases() {
    assert!(is_ascii_only("plain ascii 123"));
    assert!(!is_ascii_only("caf\u{e9}"));
}

#[test]
fn test_truncate_string_cases() {
    assert_eq!(truncate_string("hi", 10), "hi");
    assert_eq!(truncate_string("hello world", 8), "hello...");
    assert_eq!(truncate_string("hello", 2), "...");
    // Byte semantics: two characters, four bytes, limit three.
    assert_eq!(truncate_string("\u{e9}\u{e9}", 3), "...");
    // A cut inside a character moves back to the previous boundary.
    assert_eq!(truncate_string("\u{e9}\u{e9}\u{e9}", 4), "...");
    assert_eq!(truncate_string("a\u{e9}\u{e9}\u{e9}", 5), "a...");
}

#[test]
fn test_parse_version_cases() {
    assert_eq!(parse_version("1.2.3").unwrap(), (1, 2, 3));
    assert_eq!(parse_version("0.0.0").unwrap(), (0, 0, 0));
    // Unsigned integer parsing takes leading zeros and a plus sign.
    assert_eq!(parse_version("01.2.3").unwrap(), (1, 2, 3));
    assert_eq!(parse_version("+1.02.3").unwrap(), (1, 2, 3));
    assert!(parse_version("1.2").is_err());
    assert!(parse_version("1.2.3.4").is_err());
    assert!(parse_version("a.b.c").is_err());
    assert!(parse_version("4294967296.0.0").is_err());
}

#[test]
fn test_compare_versions_cases() {
    assert_eq!(compare_versions("1.2.3", "1.2.3").unwrap(), std::cmp::Ordering::Equal);
    assert_eq!(compare_versions("1.2.3", "1.10.0").unwrap(), std::cmp::Ordering::Less);
    assert_eq!(compare_versions("2.0.0", "1.10.0").unwrap(), std::cmp::Ordering::Greater);
    assert!(compare_versions("oops", "1.0.0").is_err());
}

#[test]
fn test_validation_error_messages() {
    assert_eq!(
        validate_non_empty("", "from").unwrap_err().describe(),
        "Validation error: Field 'from' cannot be empty"
    );
    assert_eq!(
        validate_index(5, 3, "idx").unwrap_err().describe(),
        "Validation error: Field 'idx' index 5 is out of bounds (max: 3)"
    );
}
