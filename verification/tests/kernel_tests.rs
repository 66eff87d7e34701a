//! The numeric kernel's shape rules: every operation's dimension check
//! decides exactly when the operation may run.

use umicp_core::Matrix;
use umicp_core::StringMap;
use umicp_core::UmicpError;
use umicp_core::WebSocketTransport;
use umicp_core::Http2Transport;
use umicp_core::umicp::create_envelope;
use umicp_core::umicp::create_matrix;
use umicp_core::umicp::has_http2_transport;
use umicp_core::umicp::has_websocket_transport;
use umicp_core::umicp::umicp_version;
use umicp_core::umicp::version;

#[test]
fn test_elementwise_checks() {
    let matrix = Matrix::new();
    assert!(matrix.check_elementwise(3, 3, 3).is_ok());
    assert!(matrix.check_elementwise(2, 3, 2).is_err());
    assert!(matrix.check_elementwise(3, 3, 2).is_err());
    assert!(matrix.check_pair(3, 3).is_ok());
    assert!(matrix.check_pair(2, 3).is_err());
    assert!(matrix.check_scale(4, 4).is_ok());
    assert!(matrix.check_scale(4, 3).is_err());
}

#[test]
fn test_matrix_shape_checks() {
    let matrix = Matrix::new();
    assert!(matrix.validate_dimensions(4, 4, 4, 2, 2).is_ok());
    assert!(matrix.validate_dimensions(4, 3, 4, 2, 2).is_err());
    assert!(matrix.check_multiply(4, 4, 4, 2, 2, 2).is_ok());
    assert!(matrix.check_multiply(6, 8, 12, 3, 2, 4).is_ok());
    assert!(matrix.check_multiply(4, 4, 3, 2, 2, 2).is_err());
    assert!(matrix.check_transpose(6, 6, 2, 3).is_ok());
    assert!(matrix.check_transpose(6, 5, 2, 3).is_err());
    assert!(matrix.check_normalize(6, 2, 3).is_ok());
    assert!(matrix.check_normalize(5, 2, 3).is_err());
}

#[test]
fn test_determinant_and_inverse_checks() {
    let matrix = Matrix::new();
    assert!(matrix.check_determinant(1, 1).is_ok());
    assert!(matrix.check_determinant(4, 2).is_ok());
    // Wrong buffer size is a dimension error.
    assert!(matrix.check_determinant(3, 2).is_err());
    // A 3x3 determinant is a permanent unimplemented-operation error.
    let err = matrix.check_determinant(9, 3).unwrap_err();
    assert!(matches!(err, UmicpError::Matrix { .. }));
    assert!(err.describe().contains("not yet implemented"));

    assert!(matrix.check_inverse(4, 4, 2).is_ok());
    assert!(matrix.check_inverse(4, 3, 2).is_err());
    let err = matrix.check_inverse(9, 9, 3).unwrap_err();
    assert!(matches!(err, UmicpError::Matrix { .. }));
    assert!(err.describe().contains("not yet implemented"));
}

#[test]
fn test_string_map_behaviour() {
    let mut m = StringMap::new();
    assert_eq!(m.len(), 0);
    assert!(m.get("k").is_none());
    m.insert("k", "v1");
    m.insert("other", "x");
    assert_eq!(m.len(), 2);
    assert_eq!(m.get("k").unwrap(), "v1");
    // Re-inserting a key replaces its value and keeps the size.
    m.insert("k", "v2");
    assert_eq!(m.len(), 2);
    assert_eq!(m.get("k").unwrap(), "v2");
    assert!(!m.contains_key("missing"));
    assert!(m.contains_key("other"));
}

#[test]
fn test_transports_are_placeholders() {
    assert!(WebSocketTransport::new_server("127.0.0.1:8080").is_err());
    assert!(WebSocketTransport::new_client("ws://127.0.0.1:8080").is_err());
    let http = Http2Transport::new("http://127.0.0.1");
    assert!(http.connect().is_err());
    assert!(http.send("hello").is_err());
    assert!(!http.is_connected());
}

#[test]
fn test_facade_functions() {
    assert!(!has_websocket_transport());
    assert!(!has_http2_transport());
    assert_eq!(version(), "0.1.0");
    assert_eq!(umicp_version(), "1.0");
    let _m = create_matrix();
    let envelope = create_envelope().from("a").to("b").build().unwrap();
    assert_eq!(envelope.version(), "1.0");
}
