//! Core type definitions for the UMICP protocol: the closed enumerations of
//! the wire format, the payload descriptor, transport configuration records,
//! and the string-to-string map used for capabilities and payload references.

use vstd::prelude::*;

use crate::strutil::str_eq;

verus! {

/// Operation types for UMICP messages.
#[derive(Debug, Clone, Copy, PartialEq, Eq)]
pub enum OperationType {
    /// Control message for protocol management.
    Control,
    /// Regular data message.
    Data,
    /// Acknowledgment message.
    Ack,
    /// Error message.
    Error,
    /// Request message.
    Request,
    /// Response message.
    Response,
}

/// The lowercase name under which an operation type travels on the wire.
pub open spec fn op_wire_name(op: OperationType) -> Seq<char> {
    match op {
        OperationType::Control => "control"@,
        OperationType::Data => "data"@,
        OperationType::Ack => "ack"@,
        OperationType::Error => "error"@,
        OperationType::Request => "request"@,
        OperationType::Response => "response"@,
    }
}

/// The operation type a wire name stands for, if any.
pub open spec fn spec_op_from_name(s: Seq<char>) -> Option<OperationType> {
    if s == "control"@ {
        Some(OperationType::Control)
    } else if s == "data"@ {
        Some(OperationType::Data)
    } else if s == "ack"@ {
        Some(OperationType::Ack)
    } else if s == "error"@ {
        Some(OperationType::Error)
    } else if s == "request"@ {
        Some(OperationType::Request)
    } else if s == "response"@ {
        Some(OperationType::Response)
    } else {
        None
    }
}

impl OperationType {
    /// The lowercase wire name of this operation type.
    pub fn wire_name(&self) -> (r: &'static str)
        ensures
            r@ == op_wire_name(*self),
    {
        match self {
            OperationType::Control => "control",
            OperationType::Data => "data",
            OperationType::Ack => "ack",
            OperationType::Error => "error",
            OperationType::Request => "request",
            OperationType::Response => "response",
        }
    }

    /// Parse a wire name back into an operation type.
    pub fn from_wire_name(s: &str) -> (r: Option<OperationType>)
        ensures
            r == spec_op_from_name(s@),
    {
        if str_eq(s, "control") {
            Some(OperationType::Control)
        } else if str_eq(s, "data") {
            Some(OperationType::Data)
        } else if str_eq(s, "ack") {
            Some(OperationType::Ack)
        } else if str_eq(s, "error") {
            Some(OperationType::Error)
        } else if str_eq(s, "request") {
            Some(OperationType::Request)
        } else if str_eq(s, "response") {
            Some(OperationType::Response)
        } else {
            None
        }
    }
}

impl Default for OperationType {
    /// The default operation type is `Control`.
    fn default() -> (r: Self)
        ensures
            r == OperationType::Control,
    {
        OperationType::Control
    }
}

/// Payload types for message content.
#[derive(Debug, Clone, Copy, PartialEq, Eq)]
pub enum PayloadType {
    /// Vector data (numeric arrays).
    Vector,
    /// Text data.
    Text,
    /// Metadata information.
    Metadata,
    /// Binary data.
    Binary,
}

/// The lowercase name under which a payload type travels on the wire.
pub open spec fn payload_type_wire_name(t: PayloadType) -> Seq<char> {
    match t {
        PayloadType::Vector => "vector"@,
        PayloadType::Text => "text"@,
        PayloadType::Metadata => "metadata"@,
        PayloadType::Binary => "binary"@,
    }
}

/// The payload type a wire name stands for, if any.
pub open spec fn spec_payload_type_from_name(s: Seq<char>) -> Option<PayloadType> {
    if s == "vector"@ {
        Some(PayloadType::Vector)
    } else if s == "text"@ {
        Some(PayloadType::Text)
    } else if s == "metadata"@ {
        Some(PayloadType::Metadata)
    } else if s == "binary"@ {
        Some(PayloadType::Binary)
    } else {
        None
    }
}

impl PayloadType {
    /// The lowercase wire name of this payload type.
    pub fn wire_name(&self) -> (r: &'static str)
        ensures
            r@ == payload_type_wire_name(*self),
    {
        match self {
            PayloadType::Vector => "vector",
            PayloadType::Text => "text",
            PayloadType::Metadata => "metadata",
            PayloadType::Binary => "binary",
        }
    }

    /// Parse a wire name back into a payload type.
    pub fn from_wire_name(s: &str) -> (r: Option<PayloadType>)
        ensures
            r == spec_payload_type_from_name(s@),
    {
        if str_eq(s, "vector") {
            Some(PayloadType::Vector)
        } else if str_eq(s, "text") {
            Some(PayloadType::Text)
        } else if str_eq(s, "metadata") {
            Some(PayloadType::Metadata)
        } else if str_eq(s, "binary") {
            Some(PayloadType::Binary)
        } else {
            None
        }
    }
}

impl Default for PayloadType {
    /// The default payload type is `Text`.
    fn default() -> (r: Self)
        ensures
            r == PayloadType::Text,
    {
        PayloadType::Text
    }
}

/// Encoding types for numeric data.
#[derive(Debug, Clone, Copy, PartialEq, Eq)]
pub enum EncodingType {
    /// 32-bit floating point.
    Float32,
    /// 64-bit floating point.
    Float64,
    /// 32-bit signed integer.
    Int32,
    /// 64-bit signed integer.
    Int64,
    /// 8-bit unsigned integer.
    Uint8,
    /// 16-bit unsigned integer.
    Uint16,
    /// 32-bit unsigned integer.
    Uint32,
    /// 64-bit unsigned integer.
    Uint64,
}

/// The lowercase name under which an encoding type travels on the wire.
pub open spec fn encoding_wire_name(t: EncodingType) -> Seq<char> {
    match t {
        EncodingType::Float32 => "float32"@,
        EncodingType::Float64 => "float64"@,
        EncodingType::Int32 => "int32"@,
        EncodingType::Int64 => "int64"@,
        EncodingType::Uint8 => "uint8"@,
        EncodingType::Uint16 => "uint16"@,
        EncodingType::Uint32 => "uint32"@,
        EncodingType::Uint64 => "uint64"@,
    }
}

/// The encoding type a wire name stands for, if any.
pub open spec fn spec_encoding_from_name(s: Seq<char>) -> Option<EncodingType> {
    if s == "float32"@ {
        Some(EncodingType::Float32)
    } else if s == "float64"@ {
        Some(EncodingType::Float64)
    } else if s == "int32"@ {
        Some(EncodingType::Int32)
    } else if s == "int64"@ {
        Some(EncodingType::Int64)
    } else if s == "uint8"@ {
        Some(EncodingType::Uint8)
    } else if s == "uint16"@ {
        Some(EncodingType::Uint16)
    } else if s == "uint32"@ {
        Some(EncodingType::Uint32)
    } else if s == "uint64"@ {
        Some(EncodingType::Uint64)
    } else {
        None
    }
}

impl EncodingType {
    /// The lowercase wire name of this encoding type.
    pub fn wire_name(&self) -> (r: &'static str)
        ensures
            r@ == encoding_wire_name(*self),
    {
        match self {
            EncodingType::Float32 => "float32",
            EncodingType::Float64 => "float64",
            EncodingType::Int32 => "int32",
            EncodingType::Int64 => "int64",
            EncodingType::Uint8 => "uint8",
            EncodingType::Uint16 => "uint16",
            EncodingType::Uint32 => "uint32",
            EncodingType::Uint64 => "uint64",
        }
    }

    /// Parse a wire name back into an encoding type.
    pub fn from_wire_name(s: &str) -> (r: Option<EncodingType>)
        ensures
            r == spec_encoding_from_name(s@),
    {
        if str_eq(s, "float32") {
            Some(EncodingType::Float32)
        } else if str_eq(s, "float64") {
            Some(EncodingType::Float64)
        } else if str_eq(s, "int32") {
            Some(EncodingType::Int32)
        } else if str_eq(s, "int64") {
            Some(EncodingType::Int64)
        } else if str_eq(s, "uint8") {
            Some(EncodingType::Uint8)
        } else if str_eq(s, "uint16") {
            Some(EncodingType::Uint16)
        } else if str_eq(s, "uint32") {
            Some(EncodingType::Uint32)
        } else if str_eq(s, "uint64") {
            Some(EncodingType::Uint64)
        } else {
            None
        }
    }
}

impl Default for EncodingType {
    /// The default encoding type is `Float32`.
    fn default() -> (r: Self)
        ensures
            r == EncodingType::Float32,
    {
        EncodingType::Float32
    }
}

/// Payload hint for message content description.
#[derive(Debug, Clone, Copy, PartialEq, Eq)]
pub struct PayloadHint {
    /// Type of payload.
    pub payload_type: PayloadType,
    /// Size in bytes (optional).
    pub size: Option<u64>,
    /// Encoding type for numeric data (optional).
    pub encoding: Option<EncodingType>,
    /// Number of elements (optional).
    pub count: Option<u64>,
}

impl Default for PayloadHint {
    /// The default hint describes a text payload with nothing else known.
    fn default() -> (r: Self)
        ensures
            r == (PayloadHint {
                payload_type: PayloadType::Text,
                size: None::<u64>,
                encoding: None::<EncodingType>,
                count: None::<u64>,
            }),
    {
        PayloadHint { payload_type: PayloadType::Text, size: None, encoding: None, count: None }
    }
}

/// Frame options for advanced messaging.
#[derive(Debug, Clone, PartialEq, Eq)]
pub struct FrameOptions {
    /// Frame type identifier.
    pub frame_type: Option<u32>,
    /// Stream ID for multiplexing.
    pub stream_id: Option<u32>,
    /// Sequence number.
    pub sequence: Option<u64>,
    /// Frame flags.
    pub flags: Option<u32>,
    /// Compression enabled.
    pub compressed: bool,
    /// Encryption enabled.
    pub encrypted: bool,
}

impl Default for FrameOptions {
    /// The default frame options carry no identifiers and no flags.
    fn default() -> (r: Self)
        ensures
            r == (FrameOptions {
                frame_type: None::<u32>,
                stream_id: None::<u32>,
                sequence: None::<u64>,
                flags: None::<u32>,
                compressed: false,
                encrypted: false,
            }),
    {
        FrameOptions {
            frame_type: None,
            stream_id: None,
            sequence: None,
            flags: None,
            compressed: false,
            encrypted: false,
        }
    }
}

/// Transport configuration.
#[derive(Debug, Clone)]
pub struct TransportConfig {
    /// Maximum payload size in bytes.
    pub max_payload_size: usize,
    /// Heartbeat interval in seconds.
    pub heartbeat_interval: u64,
    /// Maximum reconnection attempts.
    pub max_reconnect_attempts: u32,
    /// Connection timeout in seconds.
    pub connection_timeout: u64,
    /// Enable compression.
    pub compression_enabled: bool,
    /// Enable TLS/SSL.
    pub tls_enabled: bool,
    /// TLS certificate path (optional).
    pub tls_cert_path: Option<String>,
    /// TLS private key path (optional).
    pub tls_key_path: Option<String>,
}

impl Default for TransportConfig {
    /// The default configuration: one-megabyte payload ceiling, half-minute
    /// heartbeat, three reconnection attempts, ten-second timeout,
    /// compression on, TLS off.
    fn default() -> (r: Self)
        ensures
            r.max_payload_size == 1048576,
            r.heartbeat_interval == 30,
            r.max_reconnect_attempts == 3,
            r.connection_timeout == 10,
            r.compression_enabled == true,
            r.tls_enabled == false,
            r.tls_cert_path is None,
            r.tls_key_path is None,
    {
        TransportConfig {
            max_payload_size: 1024 * 1024,
            heartbeat_interval: 30,
            max_reconnect_attempts: 3,
            connection_timeout: 10,
            compression_enabled: true,
            tls_enabled: false,
            tls_cert_path: None,
            tls_key_path: None,
        }
    }
}

/// Whether no two entries of a key/value sequence share a key.
pub open spec fn keys_unique(m: Seq<(Seq<char>, Seq<char>)>) -> bool {
    forall|i: int, j: int| 0 <= i < j < m.len() ==> m[i].0 != m[j].0
}

/// Whether a key/value sequence holds the given key.
pub open spec fn spec_map_contains(m: Seq<(Seq<char>, Seq<char>)>, k: Seq<char>) -> bool {
    exists|i: int| 0 <= i < m.len() && m[i].0 == k
}

/// The value stored under a key, taking the first match.
pub open spec fn spec_map_get(m: Seq<(Seq<char>, Seq<char>)>, k: Seq<char>) -> Option<Seq<char>>
    decreases m.len(),
{
    if m.len() == 0 {
        None
    } else if m[0].0 == k {
        Some(m[0].1)
    } else {
        spec_map_get(m.drop_first(), k)
    }
}

/// An insertion-ordered string-to-string mapping with unique keys. It backs
/// envelope capabilities and payload references, whose wire form keeps the
/// order in which entries were added.
#[derive(Debug, PartialEq, Eq)]
pub struct StringMap {
    entries: Vec<(String, String)>,
}

impl View for StringMap {
    type V = Seq<(Seq<char>, Seq<char>)>;

    closed spec fn view(&self) -> Seq<(Seq<char>, Seq<char>)> {
        self.entries@.map_values(|p: (String, String)| (p.0@, p.1@))
    }
}

impl StringMap {
    /// Key uniqueness holds of every map the library hands out.
    #[verifier::type_invariant]
    pub open spec fn inv(self) -> bool {
        keys_unique(self@)
    }

    /// An empty map.
    pub fn new() -> (r: Self)
        ensures
            r@ == Seq::<(Seq<char>, Seq<char>)>::empty(),
    {
        let r = StringMap { entries: Vec::new() };
        proof {
            assert(r@ =~= Seq::<(Seq<char>, Seq<char>)>::empty());
        }
        r
    }

    /// How many entries the map holds.
    pub fn len(&self) -> (r: usize)
        ensures
            r == self@.len(),
    {
        self.entries.len()
    }

    /// The key of the entry at a position.
    pub fn key_at(&self, i: usize) -> (r: &String)
        requires
            i < self@.len(),
        ensures
            r@ == self@[i as int].0,
    {
        &self.entries[i].0
    }

    /// The value of the entry at a position.
    pub fn value_at(&self, i: usize) -> (r: &String)
        requires
            i < self@.len(),
        ensures
            r@ == self@[i as int].1,
    {
        &self.entries[i].1
    }

    /// Look a key up.
    pub fn get(&self, key: &str) -> (r: Option<&String>)
        ensures
            match r {
                Some(v) => spec_map_get(self@, key@) == Some(v@),
                None => spec_map_get(self@, key@) is None,
            },
    {
        let n = self.entries.len();
        let mut i: usize = 0;
        proof {
            assert(self@.skip(0) =~= self@);
        }
        while i < n
            invariant
                n == self@.len(),
                i <= n,
                forall|k: int| 0 <= k < i ==> self@[k].0 != key@,
                spec_map_get(self@, key@) == spec_map_get(self@.skip(i as int), key@),
            decreases n - i,
        {
            proof {
                assert(self@.skip(i as int)[0] == self@[i as int]);
            }
            if str_eq(self.entries[i].0.as_str(), key) {
                proof {
                    assert(spec_map_get(self@.skip(i as int), key@) == Some(self@[i as int].1));
                }
                return Some(&self.entries[i].1);
            }
            proof {
                assert(self@.skip(i as int).drop_first() =~= self@.skip(i + 1));
            }
            i = i + 1;
        }
        proof {
            assert(self@.skip(n as int) =~= Seq::<(Seq<char>, Seq<char>)>::empty());
        }
        None
    }

    /// Whether the map holds a key.
    pub fn contains_key(&self, key: &str) -> (r: bool)
        ensures
            r == spec_map_contains(self@, key@),
    {
        let n = self.entries.len();
        let mut i: usize = 0;
        while i < n
            invariant
                n == self@.len(),
                i <= n,
                forall|k: int| 0 <= k < i ==> self@[k].0 != key@,
            decreases n - i,
        {
            if str_eq(self.entries[i].0.as_str(), key) {
                proof {
                    assert(0 <= i < self@.len() && self@[i as int].0 == key@);
                }
                return true;
            }
            i = i + 1;
        }
        false
    }

    /// What a key/value sequence becomes when every entry under a key is
    /// given a new value.
    pub open spec fn spec_replace(
        m: Seq<(Seq<char>, Seq<char>)>,
        k: Seq<char>,
        v: Seq<char>,
    ) -> Seq<(Seq<char>, Seq<char>)> {
        Seq::new(
            m.len(),
            |i: int|
                if m[i].0 == k {
                    (k, v)
                } else {
                    m[i]
                },
        )
    }

    /// Add an entry, replacing the value if the key is already present; a new
    /// key goes to the end.
    pub fn insert(&mut self, key: &str, value: &str)
        ensures
            final(self)@ == if spec_map_contains(old(self)@, key@) {
                Self::spec_replace(old(self)@, key@, value@)
            } else {
                old(self)@.push((key@, value@))
            },
    {
        proof {
            use_type_invariant(&*self);
        }
        let n = self.entries.len();
        let mut out: Vec<(String, String)> = Vec::new();
        let mut replaced = false;
        let mut i: usize = 0;
        while i < n
            invariant
                n == self@.len(),
                i <= n,
                keys_unique(self@),
                out@.len() == i,
                forall|j: int|
                    0 <= j < i ==> (#[trigger] out@[j].0)@ == (if self@[j].0 == key@ {
                        key@
                    } else {
                        self@[j].0
                    }) && out@[j].1@ == (if self@[j].0 == key@ {
                        value@
                    } else {
                        self@[j].1
                    }),
                replaced == exists|k: int| 0 <= k < i && self@[k].0 == key@,
            decreases n - i,
        {
            if str_eq(self.entries[i].0.as_str(), key) {
                out.push((key.to_owned(), value.to_owned()));
                replaced = true;
                proof {
                    assert(0 <= i < self@.len() && self@[i as int].0 == key@);
                    assert(out@[i as int] == out@.last());
                    assert(out@[i as int].0@ == key@ && out@[i as int].1@ == value@);
                }
            } else {
                let k = self.entries[i].0.clone();
                let v = self.entries[i].1.clone();
                out.push((k, v));
                proof {
                    assert(forall|k: int|
                        0 <= k < i + 1 && (#[trigger] self@[k]).0 == key@ ==> k < i);
                    assert(self@[i as int] == (self.entries@[i as int].0@,
                    self.entries@[i as int].1@));
                    assert(out@[i as int] == out@.last());
                    assert(out@[i as int].0@ == self@[i as int].0 && out@[i as int].1@
                        == self@[i as int].1);
                }
            }
            i = i + 1;
        }
        if !replaced {
            out.push((key.to_owned(), value.to_owned()));
        }
        self.entries = out;
        proof {
            if spec_map_contains(old(self)@, key@) {
                assert(replaced);
                assert(final(self)@ =~= Self::spec_replace(old(self)@, key@, value@));
            } else {
                assert(!replaced);
                assert(final(self)@ =~= old(self)@.push((key@, value@)));
            }
            assert(keys_unique(final(self)@)) by {
                if spec_map_contains(old(self)@, key@) {
                    assert(forall|k: int|
                        0 <= k < old(self)@.len() ==> (#[trigger] final(self)@[k]).0 == old(
                            self,
                        )@[k].0);
                } else {
                    assert(forall|k: int|
                        0 <= k < old(self)@.len() ==> (#[trigger] final(self)@[k]).0 == old(
                            self,
                        )@[k].0 && old(self)@[k].0 != key@);
                }
            }
        }
    }
}

/// Envelope capabilities (key-value metadata).
pub type Capabilities = StringMap;

/// Accepted content types.
pub type AcceptTypes = Vec<String>;

/// Payload references for multi-part messages.
pub type PayloadRefs = Vec<StringMap>;

} // verus!
