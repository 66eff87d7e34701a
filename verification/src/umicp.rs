//! Convenience entry points and version information for the library.

use vstd::prelude::*;

use crate::envelope::Envelope;
use crate::envelope::EnvelopeBuilder;
use crate::matrix::Matrix;
use crate::types::OperationType;
use crate::utils::blank;
use crate::utils::uuid_ok;

verus! {

/// Create a new envelope builder with default settings.
pub fn create_envelope() -> (r: EnvelopeBuilder)
    ensures
        r@.version == "1.0"@,
        uuid_ok(r@.message_id),
        !blank(r@.message_id),
        !blank(r@.timestamp),
        crate::utils::rfc3339_epoch_of(r@.timestamp) is Some,
        r@.from.len() == 0,
        r@.to.len() == 0,
        r@.operation == OperationType::Control,
        r@.capabilities is None,
        r@.schema_uri is None,
        r@.accept is None,
        r@.payload_hint is None,
        r@.payload_refs is None,
{
    Envelope::builder()
}

/// Create a new matrix operations instance.
pub fn create_matrix() -> (r: Matrix)
    ensures
        r == (Matrix {  }),
{
    Matrix::new()
}

/// Whether WebSocket transport is available; this build carries none.
pub fn has_websocket_transport() -> (r: bool)
    ensures
        r == false,
{
    false
}

/// Whether HTTP/2 transport is available; this build carries none.
pub fn has_http2_transport() -> (r: bool)
    ensures
        r == false,
{
    false
}

/// The library's own version.
pub fn version() -> (r: &'static str)
    ensures
        r@ == "0.1.0"@,
{
    "0.1.0"
}

/// The UMICP protocol version the library speaks.
pub fn umicp_version() -> (r: &'static str)
    ensures
        r@ == "1.0"@,
{
    "1.0"
}

} // verus!
