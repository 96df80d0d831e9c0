//! Error values of the transport.

use vstd::prelude::*;
use vstd::string::*;

verus! {

/// What can go wrong in the transport.
#[derive(Debug, PartialEq, Eq)]
pub enum IpcError {
    /// A segment could not be created, opened or laid out.
    SharedMemory(String),
    /// The frame does not fit in the space that is free right now; the
    /// payload is the capacity of the buffer in bytes.
    RingBufferFull(usize),
    /// Nothing is queued.
    RingBufferEmpty,
    /// The message can never be sent, whatever the occupancy.
    MessageTooLarge { size: usize, max: usize },
    /// An envelope could not be encoded.
    Serialization(String),
    /// Bytes that are no envelope, or a frame that is malformed.
    Deserialization(String),
    /// A wait ran out after this many milliseconds.
    Timeout(u64),
    /// The peer is gone.
    ConnectionClosed,
    /// An error of the operating system, by its text.
    Io(String),
}

impl IpcError {
    /// True for the two conditions that a caller answers by trying again.
    pub open spec fn spec_is_transient(&self) -> bool {
        self is RingBufferFull || self is RingBufferEmpty
    }

    /// True for the two conditions that a caller answers by trying again.
    #[verifier::when_used_as_spec(spec_is_transient)]
    pub fn is_transient(&self) -> (b: bool)
        ensures
            b == self.spec_is_transient(),
    {
        match self {
            IpcError::RingBufferFull(_) => true,
            IpcError::RingBufferEmpty => true,
            _ => false,
        }
    }
}

/// What a call handler behind the dispatcher reports when a call fails.
/// Each variant carries the detail as text.
#[derive(Debug, PartialEq, Eq)]
pub enum AssassinateError {
    RubyInitError(String),
    RubyError(String),
    ModuleNotFound(String),
    InvalidModuleType(String),
    ModuleValidationError(String),
    ModuleExecutionError(String),
    SessionError(String),
    DataStoreError(String),
    PayloadError(String),
    DatabaseError(String),
    ConfigError(String),
    ConversionError(String),
    Unknown(String),
}

impl AssassinateError {
    /// What the message starts with, by the kind of failure.
    pub open spec fn spec_prefix(&self) -> Seq<char> {
        match self {
            AssassinateError::RubyInitError(_) => "Ruby initialization failed: "@,
            AssassinateError::RubyError(_) => "Ruby execution error: "@,
            AssassinateError::ModuleNotFound(_) => "Module not found: "@,
            AssassinateError::InvalidModuleType(_) => "Invalid module type: "@,
            AssassinateError::ModuleValidationError(_) => "Module validation failed: "@,
            AssassinateError::ModuleExecutionError(_) => "Module execution failed: "@,
            AssassinateError::SessionError(_) => "Session error: "@,
            AssassinateError::DataStoreError(_) => "DataStore error: "@,
            AssassinateError::PayloadError(_) => "Payload generation error: "@,
            AssassinateError::DatabaseError(_) => "Database error: "@,
            AssassinateError::ConfigError(_) => "Configuration error: "@,
            AssassinateError::ConversionError(_) => "Type conversion error: "@,
            AssassinateError::Unknown(_) => "Unknown error: "@,
        }
    }

    /// The detail that the failure carries.
    pub open spec fn spec_detail(&self) -> Seq<char> {
        match self {
            AssassinateError::RubyInitError(s) => s@,
            AssassinateError::RubyError(s) => s@,
            AssassinateError::ModuleNotFound(s) => s@,
            AssassinateError::InvalidModuleType(s) => s@,
            AssassinateError::ModuleValidationError(s) => s@,
            AssassinateError::ModuleExecutionError(s) => s@,
            AssassinateError::SessionError(s) => s@,
            AssassinateError::DataStoreError(s) => s@,
            AssassinateError::PayloadError(s) => s@,
            AssassinateError::DatabaseError(s) => s@,
            AssassinateError::ConfigError(s) => s@,
            AssassinateError::ConversionError(s) => s@,
            AssassinateError::Unknown(s) => s@,
        }
    }

    /// The message: what the kind of failure starts with, then the detail.
    pub open spec fn spec_message(&self) -> Seq<char> {
        self.spec_prefix() + self.spec_detail()
    }

    /// The message that goes into the error envelope of a failed call.
    pub fn message(&self) -> (text: String)
        ensures
            text@ == self.spec_message(),
    {
        match self {
            AssassinateError::RubyInitError(s) => String::from_str(
                "Ruby initialization failed: ",
            ).concat(s.as_str()),
            AssassinateError::RubyError(s) => String::from_str("Ruby execution error: ").concat(
                s.as_str(),
            ),
            AssassinateError::ModuleNotFound(s) => String::from_str("Module not found: ").concat(
                s.as_str(),
            ),
            AssassinateError::InvalidModuleType(s) => String::from_str(
                "Invalid module type: ",
            ).concat(s.as_str()),
            AssassinateError::ModuleValidationError(s) => String::from_str(
                "Module validation failed: ",
            ).concat(s.as_str()),
            AssassinateError::ModuleExecutionError(s) => String::from_str(
                "Module execution failed: ",
            ).concat(s.as_str()),
            AssassinateError::SessionError(s) => String::from_str("Session error: ").concat(
                s.as_str(),
            ),
            AssassinateError::DataStoreError(s) => String::from_str("DataStore error: ").concat(
                s.as_str(),
            ),
            AssassinateError::PayloadError(s) => String::from_str(
                "Payload generation error: ",
            ).concat(s.as_str()),
            AssassinateError::DatabaseError(s) => String::from_str("Database error: ").concat(
                s.as_str(),
            ),
            AssassinateError::ConfigError(s) => String::from_str("Configuration error: ").concat(
                s.as_str(),
            ),
            AssassinateError::ConversionError(s) => String::from_str(
                "Type conversion error: ",
            ).concat(s.as_str()),
            AssassinateError::Unknown(s) => String::from_str("Unknown error: ").concat(s.as_str()),
        }
    }
}

} // verus!
