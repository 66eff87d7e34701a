//! The canonical wire form, character for character, and the decoder's
//! treatment of malformed and unknown input.

use umicp_core::Envelope;
use umicp_core::EncodingType;
use umicp_core::OperationType;
use umicp_core::PayloadHint;
use umicp_core::PayloadType;
use umicp_core::StringMap;
use umicp_core::UmicpError;

const FULL_WIRE: &str = "{\"v\":\"1.0\",\"msg_id\":\"936da01f-9abd-4d9d-80c7-02af85c822a8\",\"ts\":\"2024-01-01T00:00:00+00:00\",\"from\":\"client-001\",\"to\":\"server-001\",\"op\":\"data\",\"capabilities\":{\"priority\":\"high\"},\"schema_uri\":\"urn:example\",\"accept\":[\"application/json\",\"text/plain\"],\"payload_hint\":{\"type\":\"vector\",\"size\":3072,\"encoding\":\"float32\",\"count\":768},\"payload_refs\":[{\"part\":\"1\"},{\"part\":\"2\"}]}";

#[test]
fn test_wire_text_is_canonical() {
    // Decoding canonical text and re-encoding it reproduces it byte for byte.
    let envelope = Envelope::deserialize(FULL_WIRE).unwrap();
    let serialized = envelope.serialize().unwrap();
    assert_eq!(serialized, FULL_WIRE);

    assert_eq!(envelope.version(), "1.0");
    assert_eq!(envelope.message_id(), "936da01f-9abd-4d9d-80c7-02af85c822a8");
    assert_eq!(envelope.timestamp(), "2024-01-01T00:00:00+00:00");
    assert_eq!(envelope.from(), "client-001");
    assert_eq!(envelope.to(), "server-001");
    assert_eq!(envelope.operation(), OperationType::Data);
    assert_eq!(envelope.schema_uri().unwrap(), "urn:example");
    assert_eq!(envelope.accept().unwrap().len(), 2);
    let hint = envelope.payload_hint().unwrap();
    assert_eq!(hint.payload_type, PayloadType::Vector);
    assert_eq!(hint.size, Some(3072));
    assert_eq!(hint.encoding, Some(EncodingType::Float32));
    assert_eq!(hint.count, Some(768));
    let refs = envelope.payload_refs().unwrap();
    assert_eq!(refs.len(), 2);
    assert_eq!(refs[0].get("part").unwrap(), "1");
    assert_eq!(refs[1].get("part").unwrap(), "2");
}

#[test]
fn test_minimal_wire_text() {
    let wire = "{\"v\":\"1.0\",\"msg_id\":\"id-1\",\"ts\":\"now\",\"from\":\"a\",\"to\":\"b\",\"op\":\"ack\"}";
    let envelope = Envelope::deserialize(wire).unwrap();
    assert_eq!(envelope.operation(), OperationType::Ack);
    assert!(envelope.capabilities().is_none());
    assert!(envelope.schema_uri().is_none());
    assert!(envelope.accept().is_none());
    assert!(envelope.payload_hint().is_none());
    assert!(envelope.payload_refs().is_none());
    assert_eq!(envelope.serialize().unwrap(), wire);
}

#[test]
fn test_escaped_strings_roundtrip() {
    let envelope = Envelope::builder()
        .from("quote \" and backslash \\ here")
        .to("plain")
        .build()
        .unwrap();
    let serialized = envelope.serialize().unwrap();
    let deserialized = Envelope::deserialize(&serialized).unwrap();
    assert_eq!(deserialized.from(), "quote \" and backslash \\ here");
}

#[test]
fn test_control_characters_escaped() {
    let envelope = Envelope::builder().from("a\nb\u{1f}").to("plain").build().unwrap();
    let serialized = envelope.serialize().unwrap();
    // Control characters travel as four-digit escapes, keeping the text JSON.
    assert!(serialized.contains("a\\u000ab\\u001f"));
    assert!(!serialized.contains('\n'));
    let deserialized = Envelope::deserialize(&serialized).unwrap();
    assert_eq!(deserialized.from(), "a\nb\u{1f}");
}

#[test]
fn test_build_error_names_field() {
    let err = Envelope::builder().from("").to("receiver").build().unwrap_err();
    assert_eq!(err.describe(), "Validation error: Field 'from' cannot be empty");
    let err = Envelope::builder().from("sender").to(" ").build().unwrap_err();
    assert_eq!(err.describe(), "Validation error: Field 'to' cannot be empty");
    let err = Envelope::builder()
        .from("sender")
        .to("receiver")
        .message_id("invalid-uuid")
        .build()
        .unwrap_err();
    assert_eq!(err.describe(), "Validation error: Invalid UUID format: invalid-uuid");
}

#[test]
fn test_full_optional_roundtrip() {
    let mut caps = StringMap::new();
    caps.insert("priority", "high");
    caps.insert("mode", "batch");
    let mut part = StringMap::new();
    part.insert("uri", "mem://0");
    let hint = PayloadHint {
        payload_type: PayloadType::Binary,
        size: None,
        encoding: Some(EncodingType::Uint8),
        count: None,
    };
    let envelope = Envelope::builder()
        .from("sender")
        .to("receiver")
        .capabilities(caps)
        .schema_uri("urn:schema")
        .accept(vec!["application/json".to_string()])
        .payload_hint(hint)
        .payload_refs(vec![part])
        .build()
        .unwrap();

    let serialized = envelope.serialize().unwrap();
    let deserialized = Envelope::deserialize(&serialized).unwrap();
    assert_eq!(deserialized.capabilities(), envelope.capabilities());
    assert_eq!(deserialized.schema_uri(), envelope.schema_uri());
    assert_eq!(deserialized.accept(), envelope.accept());
    assert_eq!(deserialized.payload_hint(), envelope.payload_hint());
    assert_eq!(deserialized.payload_refs(), envelope.payload_refs());
    assert_eq!(deserialized.timestamp(), envelope.timestamp());
    assert_eq!(deserialized.serialize().unwrap(), serialized);
}

#[test]
fn test_unknown_operation_rejected() {
    let wire = "{\"v\":\"1.0\",\"msg_id\":\"id\",\"ts\":\"t\",\"from\":\"a\",\"to\":\"b\",\"op\":\"bogus\"}";
    let err = Envelope::deserialize(wire).unwrap_err();
    assert!(matches!(err, UmicpError::Validation { .. }));
}

#[test]
fn test_malformed_input_rejected() {
    assert!(Envelope::deserialize("").is_err());
    assert!(Envelope::deserialize("{").is_err());
    assert!(Envelope::deserialize("not json at all").is_err());
    // missing required members
    assert!(Envelope::deserialize("{\"v\":\"1.0\"}").is_err());
    // trailing garbage after the closing brace
    let wire = "{\"v\":\"1.0\",\"msg_id\":\"id\",\"ts\":\"t\",\"from\":\"a\",\"to\":\"b\",\"op\":\"ack\"}x";
    assert!(Envelope::deserialize(wire).is_err());
}

#[test]
fn test_unknown_payload_type_rejected() {
    let wire = "{\"v\":\"1.0\",\"msg_id\":\"id\",\"ts\":\"t\",\"from\":\"a\",\"to\":\"b\",\"op\":\"data\",\"payload_hint\":{\"type\":\"mystery\"}}";
    let err = Envelope::deserialize(wire).unwrap_err();
    assert!(matches!(err, UmicpError::Validation { .. }));
    let wire = "{\"v\":\"1.0\",\"msg_id\":\"id\",\"ts\":\"t\",\"from\":\"a\",\"to\":\"b\",\"op\":\"data\",\"payload_hint\":{\"type\":\"vector\",\"encoding\":\"float128\"}}";
    let err = Envelope::deserialize(wire).unwrap_err();
    assert!(matches!(err, UmicpError::Validation { .. }));
}

#[test]
fn test_hash_is_sha256_of_wire_text() {
    let envelope = Envelope::deserialize(FULL_WIRE).unwrap();
    let hash = envelope.hash().unwrap();
    assert_eq!(hash.len(), 64);
    // Hashing is a pure function of the wire bytes.
    let again = Envelope::deserialize(FULL_WIRE).unwrap();
    assert_eq!(again.hash().unwrap(), hash);
}
