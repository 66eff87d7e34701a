//! Core library for the UMICP message protocol: typed message envelopes with a
//! canonical JSON wire form, content hashing, and the dimension rules of the
//! numeric kernel that prepares envelope payloads.

pub mod codec;
pub mod decode;
pub mod envelope;
pub mod error;
pub mod matrix;
pub mod strutil;
pub mod transport;
pub mod types;
pub mod umicp;
pub mod utils;

pub use envelope::Envelope;
pub use envelope::EnvelopeBuilder;
pub use error::UmicpError;
pub use error::UmicpResult;
pub use matrix::Matrix;
pub use transport::Http2Transport;
pub use transport::WebSocketTransport;
pub use types::AcceptTypes;
pub use types::Capabilities;
pub use types::EncodingType;
pub use types::FrameOptions;
pub use types::OperationType;
pub use types::PayloadHint;
pub use types::PayloadRefs;
pub use types::PayloadType;
pub use types::StringMap;
pub use types::TransportConfig;
