//! Envelope construction, validation and serialization behaviour.

use umicp_core::Envelope;
use umicp_core::OperationType;

#[test]
fn test_envelope_creation() {
    let envelope = Envelope::new();
    assert_eq!(envelope.version(), "1.0");
    assert!(!envelope.message_id().is_empty());
    assert!(!envelope.timestamp().is_empty());
    assert_eq!(envelope.operation(), OperationType::Control);
}

#[test]
fn test_envelope_builder() {
    let envelope = Envelope::builder()
        .from("sender")
        .to("recipient")
        .operation(OperationType::Data)
        .capability("priority", "high")
        .build()
        .unwrap();

    assert_eq!(envelope.from(), "sender");
    assert_eq!(envelope.to(), "recipient");
    assert_eq!(envelope.operation(), OperationType::Data);
    assert_eq!(envelope.capabilities().unwrap().get("priority").unwrap(), "high");
}

#[test]
fn test_envelope_serialization() {
    let envelope = Envelope::builder()
        .from("test-from")
        .to("test-to")
        .operation(OperationType::Data)
        .capability("test", "value")
        .build()
        .unwrap();

    let serialized = envelope.serialize().unwrap();
    let deserialized = Envelope::deserialize(&serialized).unwrap();

    assert_eq!(deserialized.from(), envelope.from());
    assert_eq!(deserialized.to(), envelope.to());
    assert_eq!(deserialized.operation(), envelope.operation());
    assert_eq!(deserialized.capabilities(), envelope.capabilities());
}

#[test]
fn envelope_test_envelope_validation() {
    // Valid envelope
    let valid = Envelope::builder().from("sender").to("recipient").build();
    assert!(valid.is_ok());

    // Invalid - empty from
    let invalid = Envelope::builder().from("").to("recipient").build();
    assert!(invalid.is_err());

    // Invalid - empty to
    let invalid = Envelope::builder().from("sender").to("").build();
    assert!(invalid.is_err());
}
