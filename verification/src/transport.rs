//! Transport placeholders for the UMICP protocol. Wire transport is an
//! external collaborator: this build carries no socket code, so every
//! transport constructor and send reports that the transport is not
//! implemented, and the contracts say exactly that.

use vstd::prelude::*;

use crate::envelope::Envelope;
use crate::error::UmicpError;

verus! {

/// Placeholder WebSocket transport.
pub struct WebSocketTransport;

impl WebSocketTransport {
    /// Create a new WebSocket server transport; always fails in this build.
    pub fn new_server(_addr: &str) -> (r: Result<Self, UmicpError>)
        ensures
            r matches Err(e) && e is Generic,
    {
        Err(UmicpError::generic("WebSocket transport not implemented in this build"))
    }

    /// Create a new WebSocket client transport; always fails in this build.
    pub fn new_client(_url: &str) -> (r: Result<Self, UmicpError>)
        ensures
            r matches Err(e) && e is Generic,
    {
        Err(UmicpError::generic("WebSocket transport not implemented in this build"))
    }

    /// Set the handler for incoming messages; nothing is delivered in this
    /// build, so the handler is dropped and the transport is unchanged.
    pub fn set_message_handler<F: Fn(Envelope, String) -> Result<
        (),
        UmicpError,
    > + Send + Sync + 'static>(&mut self, _handler: F)
        ensures
            *final(self) == *old(self),
    {
    }

    /// Set the handler for connection events; nothing connects in this
    /// build, so the handler is dropped and the transport is unchanged.
    pub fn set_connection_handler<F: Fn(bool, String) -> Result<
        (),
        UmicpError,
    > + Send + Sync + 'static>(&mut self, _handler: F)
        ensures
            *final(self) == *old(self),
    {
    }

    /// Send a message to a specific connection (server mode); always fails in
    /// this build.
    pub fn send(&self, _envelope: Envelope, _connection_id: &str) -> (r: Result<(), UmicpError>)
        ensures
            r matches Err(e) && e is Generic,
    {
        Err(UmicpError::generic("WebSocket transport not implemented in this build"))
    }

    /// Send a message to the server (client mode); always fails in this
    /// build.
    pub fn send_to_server(&self, _envelope: Envelope) -> (r: Result<(), UmicpError>)
        ensures
            r matches Err(e) && e is Generic,
    {
        Err(UmicpError::generic("WebSocket transport not implemented in this build"))
    }

    /// Shut the transport down; with nothing running this always succeeds.
    pub fn shutdown(&self) -> (r: Result<(), UmicpError>)
        ensures
            r is Ok,
    {
        Ok(())
    }
}

/// Placeholder HTTP/2 transport.
pub struct Http2Transport;

impl Http2Transport {
    /// Create a new HTTP/2 transport handle.
    pub fn new(_url: &str) -> (r: Self) {
        Http2Transport
    }

    /// Connect to the peer; always fails in this build.
    pub fn connect(&self) -> (r: Result<(), UmicpError>)
        ensures
            r matches Err(e) && e is Generic,
    {
        Err(UmicpError::generic("HTTP/2 transport not implemented in this build"))
    }

    /// Send a message; always fails in this build.
    pub fn send(&self, _message: &str) -> (r: Result<(), UmicpError>)
        ensures
            r matches Err(e) && e is Generic,
    {
        Err(UmicpError::generic("HTTP/2 transport not implemented in this build"))
    }

    /// Whether the transport is connected; it never is in this build.
    pub fn is_connected(&self) -> (r: bool)
        ensures
            r == false,
    {
        false
    }
}

} // verus!
