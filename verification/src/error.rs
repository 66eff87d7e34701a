//! Error reporting for UMICP operations.

use vstd::prelude::*;

verus! {

/// Main error type for UMICP operations. Every failure carries the message
/// that describes it; the variant says which part of the system detected it.
#[derive(Debug, Clone)]
pub enum UmicpError {
    /// Serialization/deserialization fault.
    Serialization { message: String },
    /// Transport layer fault.
    Transport { message: String },
    /// Numeric kernel fault (dimension mismatch, singular or oversized matrix).
    Matrix { message: String },
    /// Validation fault (empty or malformed field, unknown wire string).
    Validation { message: String },
    /// Connection fault.
    Connection { message: String },
    /// Authentication fault.
    Authentication { message: String },
    /// Configuration fault.
    Configuration { message: String },
    /// Caller-raised fault.
    Generic { message: String },
}

/// Result alias used throughout the library.
pub type UmicpResult<T> = Result<T, UmicpError>;

impl UmicpError {
    /// The message the error was created with.
    pub open spec fn spec_message(&self) -> Seq<char> {
        match self {
            UmicpError::Serialization { message } => message@,
            UmicpError::Transport { message } => message@,
            UmicpError::Matrix { message } => message@,
            UmicpError::Validation { message } => message@,
            UmicpError::Connection { message } => message@,
            UmicpError::Authentication { message } => message@,
            UmicpError::Configuration { message } => message@,
            UmicpError::Generic { message } => message@,
        }
    }

    /// Create a serialization error.
    pub fn serialization(message: &str) -> (r: Self)
        ensures
            r is Serialization,
            r.spec_message() == message@,
    {
        UmicpError::Serialization { message: message.to_owned() }
    }

    /// Create a transport error.
    pub fn transport(message: &str) -> (r: Self)
        ensures
            r is Transport,
            r.spec_message() == message@,
    {
        UmicpError::Transport { message: message.to_owned() }
    }

    /// Create a numeric kernel error.
    pub fn matrix(message: &str) -> (r: Self)
        ensures
            r is Matrix,
            r.spec_message() == message@,
    {
        UmicpError::Matrix { message: message.to_owned() }
    }

    /// Create a validation error.
    pub fn validation(message: &str) -> (r: Self)
        ensures
            r is Validation,
            r.spec_message() == message@,
    {
        UmicpError::Validation { message: message.to_owned() }
    }

    /// Create a connection error.
    pub fn connection(message: &str) -> (r: Self)
        ensures
            r is Connection,
            r.spec_message() == message@,
    {
        UmicpError::Connection { message: message.to_owned() }
    }

    /// Create an authentication error.
    pub fn authentication(message: &str) -> (r: Self)
        ensures
            r is Authentication,
            r.spec_message() == message@,
    {
        UmicpError::Authentication { message: message.to_owned() }
    }

    /// Create a configuration error.
    pub fn configuration(message: &str) -> (r: Self)
        ensures
            r is Configuration,
            r.spec_message() == message@,
    {
        UmicpError::Configuration { message: message.to_owned() }
    }

    /// Create a generic error.
    pub fn generic(message: &str) -> (r: Self)
        ensures
            r is Generic,
            r.spec_message() == message@,
    {
        UmicpError::Generic { message: message.to_owned() }
    }

    /// A readable description of the error: its category followed by its message.
    pub fn describe(&self) -> (r: String)
        ensures
            r@ == self.spec_category() + self.spec_message(),
    {
        let prefix: &str = match self {
            UmicpError::Serialization { .. } => "Serialization error: ",
            UmicpError::Transport { .. } => "Transport error: ",
            UmicpError::Matrix { .. } => "Matrix operation error: ",
            UmicpError::Validation { .. } => "Validation error: ",
            UmicpError::Connection { .. } => "Connection error: ",
            UmicpError::Authentication { .. } => "Authentication error: ",
            UmicpError::Configuration { .. } => "Configuration error: ",
            UmicpError::Generic { .. } => "Error: ",
        };
        let message: &String = match self {
            UmicpError::Serialization { message } => message,
            UmicpError::Transport { message } => message,
            UmicpError::Matrix { message } => message,
            UmicpError::Validation { message } => message,
            UmicpError::Connection { message } => message,
            UmicpError::Authentication { message } => message,
            UmicpError::Configuration { message } => message,
            UmicpError::Generic { message } => message,
        };
        prefix.to_owned().concat(message.as_str())
    }

    /// The category prefix used by `describe`.
    pub open spec fn spec_category(&self) -> Seq<char> {
        match self {
            UmicpError::Serialization { .. } => "Serialization error: "@,
            UmicpError::Transport { .. } => "Transport error: "@,
            UmicpError::Matrix { .. } => "Matrix operation error: "@,
            UmicpError::Validation { .. } => "Validation error: "@,
            UmicpError::Connection { .. } => "Connection error: "@,
            UmicpError::Authentication { .. } => "Authentication error: "@,
            UmicpError::Configuration { .. } => "Configuration error: "@,
            UmicpError::Generic { .. } => "Error: "@,
        }
    }
}

} // verus!
