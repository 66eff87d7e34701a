//! The UMICP envelope: a typed message container assembled through a builder,
//! validated exactly once at build time, and read-only afterwards.

use vstd::prelude::*;

use crate::error::UmicpError;
use crate::types::keys_unique;
use crate::types::spec_map_contains;
use crate::types::AcceptTypes;
use crate::types::Capabilities;
use crate::types::OperationType;
use crate::types::PayloadHint;
use crate::types::PayloadRefs;
use crate::types::StringMap;
use crate::utils::blank;
use crate::utils::generate_uuid;
use crate::utils::get_current_timestamp;
use crate::utils::uuid_ok;
use crate::utils::validate_non_empty;
use crate::utils::validate_uuid;

verus! {

/// The mathematical content of an envelope: every field as the value it
/// denotes, free of representation detail.
#[verifier::ext_equal]
pub struct EnvelopeView {
    /// Protocol version text.
    pub version: Seq<char>,
    /// Unique message identifier text.
    pub message_id: Seq<char>,
    /// Creation timestamp text.
    pub timestamp: Seq<char>,
    /// Sender identifier.
    pub from: Seq<char>,
    /// Recipient identifier.
    pub to: Seq<char>,
    /// Operation kind.
    pub operation: OperationType,
    /// Optional capability entries, in insertion order.
    pub capabilities: Option<Seq<(Seq<char>, Seq<char>)>>,
    /// Optional schema URI.
    pub schema_uri: Option<Seq<char>>,
    /// Optional accepted content types.
    pub accept: Option<Seq<Seq<char>>>,
    /// Optional payload descriptor.
    pub payload_hint: Option<PayloadHint>,
    /// Optional payload reference maps.
    pub payload_refs: Option<Seq<Seq<(Seq<char>, Seq<char>)>>>,
}

/// The views of a vector of strings.
pub open spec fn strings_view(v: Seq<String>) -> Seq<Seq<char>> {
    Seq::new(v.len(), |i: int| v[i]@)
}

/// The views of a vector of string maps.
pub open spec fn maps_view(v: Seq<StringMap>) -> Seq<Seq<(Seq<char>, Seq<char>)>> {
    Seq::new(v.len(), |i: int| v[i]@)
}

/// Every capability key and value is non-blank.
pub open spec fn caps_non_blank(c: Seq<(Seq<char>, Seq<char>)>) -> bool {
    forall|i: int| 0 <= i < c.len() ==> !blank(#[trigger] c[i].0) && !blank(c[i].1)
}

/// Every accepted content type is non-blank.
pub open spec fn accept_non_blank(a: Seq<Seq<char>>) -> bool {
    forall|i: int| 0 <= i < a.len() ==> !blank(#[trigger] a[i])
}

/// What `validate` (and so `build`) accepts: non-blank `from`, `to` and
/// `message_id`, a `message_id` in UUID form, and non-blank capability
/// entries, schema URI and accept entries wherever those are present.
pub open spec fn spec_envelope_valid(ev: EnvelopeView) -> bool {
    &&& !blank(ev.from)
    &&& !blank(ev.to)
    &&& !blank(ev.message_id)
    &&& uuid_ok(ev.message_id)
    &&& match ev.capabilities {
        Some(c) => caps_non_blank(c),
        None => true,
    }
    &&& match ev.schema_uri {
        Some(u) => !blank(u),
        None => true,
    }
    &&& match ev.accept {
        Some(a) => accept_non_blank(a),
        None => true,
    }
}

/// The message of the first failing capability entry: the first blank key or
/// value, in entry order, keys before values within one entry.
pub open spec fn cap_err_msg(c: Seq<(Seq<char>, Seq<char>)>) -> Seq<char>
    decreases c.len(),
{
    if c.len() == 0 {
        Seq::empty()
    } else if blank(c[0].0) {
        crate::utils::empty_field_msg("capability key"@)
    } else if blank(c[0].1) {
        crate::utils::empty_field_msg("capability value"@)
    } else {
        cap_err_msg(c.drop_first())
    }
}

/// The message of the validation error an invalid envelope produces: the
/// checks run in order (`from`, `to`, `message_id`, UUID form, capabilities,
/// schema URI, accept entries) and the first failure names the offending
/// field.
pub open spec fn spec_validate_err_msg(ev: EnvelopeView) -> Seq<char> {
    if blank(ev.from) {
        crate::utils::empty_field_msg("from"@)
    } else if blank(ev.to) {
        crate::utils::empty_field_msg("to"@)
    } else if blank(ev.message_id) {
        crate::utils::empty_field_msg("message_id"@)
    } else if !uuid_ok(ev.message_id) {
        "Invalid UUID format: "@ + ev.message_id
    } else if ev.capabilities matches Some(c) && !caps_non_blank(c) {
        cap_err_msg(ev.capabilities->0)
    } else if ev.schema_uri matches Some(u) && blank(u) {
        crate::utils::empty_field_msg("schema_uri"@)
    } else {
        crate::utils::empty_field_msg("accept type"@)
    }
}

/// UMICP Envelope - the main message container.
#[derive(Debug)]
pub struct Envelope {
    version: String,
    message_id: String,
    timestamp: String,
    from: String,
    to: String,
    operation: OperationType,
    capabilities: Option<Capabilities>,
    schema_uri: Option<String>,
    accept: Option<AcceptTypes>,
    payload_hint: Option<PayloadHint>,
    payload_refs: Option<PayloadRefs>,
}

impl View for Envelope {
    type V = EnvelopeView;

    closed spec fn view(&self) -> EnvelopeView {
        EnvelopeView {
            version: self.version@,
            message_id: self.message_id@,
            timestamp: self.timestamp@,
            from: self.from@,
            to: self.to@,
            operation: self.operation,
            capabilities: match self.capabilities {
                Some(c) => Some(c@),
                None => None,
            },
            schema_uri: match self.schema_uri {
                Some(u) => Some(u@),
                None => None,
            },
            accept: match self.accept {
                Some(a) => Some(strings_view(a@)),
                None => None,
            },
            payload_hint: self.payload_hint,
            payload_refs: match self.payload_refs {
                Some(r) => Some(maps_view(r@)),
                None => None,
            },
        }
    }
}

impl Envelope {
    /// Create a new envelope: version "1.0", a fresh random UUID as message
    /// id, the current instant as timestamp, empty addressing, operation
    /// `Control`, and no optional fields.
    pub fn new() -> (r: Self)
        ensures
            r@.version == "1.0"@,
            uuid_ok(r@.message_id),
            !blank(r@.message_id),
            r@.message_id.len() == 36,
            !blank(r@.timestamp),
            crate::utils::rfc3339_epoch_of(r@.timestamp) is Some,
            r@.from.len() == 0,
            r@.to.len() == 0,
            r@.operation == OperationType::Control,
            r@.capabilities is None,
            r@.schema_uri is None,
            r@.accept is None,
            r@.payload_hint is None,
            r@.payload_refs is None,
    {
        Envelope {
            version: "1.0".to_owned(),
            message_id: generate_uuid(),
            timestamp: get_current_timestamp(),
            from: String::new(),
            to: String::new(),
            operation: OperationType::Control,
            capabilities: None,
            schema_uri: None,
            accept: None,
            payload_hint: None,
            payload_refs: None,
        }
    }

    /// Create an envelope builder for fluent construction.
    pub fn builder() -> (r: EnvelopeBuilder)
        ensures
            r@.version == "1.0"@,
            uuid_ok(r@.message_id),
            !blank(r@.message_id),
            !blank(r@.timestamp),
            crate::utils::rfc3339_epoch_of(r@.timestamp) is Some,
            r@.from.len() == 0,
            r@.to.len() == 0,
            r@.operation == OperationType::Control,
            r@.capabilities is None,
            r@.schema_uri is None,
            r@.accept is None,
            r@.payload_hint is None,
            r@.payload_refs is None,
    {
        EnvelopeBuilder::new()
    }

    /// Validate envelope data: `from`, `to` and `message_id` must be
    /// non-blank, `message_id` a UUID, and every present capability entry,
    /// schema URI and accept entry non-blank. The first failing check aborts
    /// with a validation error.
    pub fn validate(&self) -> (r: Result<(), UmicpError>)
        ensures
            r is Ok <==> spec_envelope_valid(self@),
            r matches Err(e) ==> e is Validation && e.spec_message() == spec_validate_err_msg(
                self@,
            ),
    {
        let v = validate_non_empty(self.from.as_str(), "from");
        if let Err(e) = v {
            return Err(e);
        }
        let v = validate_non_empty(self.to.as_str(), "to");
        if let Err(e) = v {
            return Err(e);
        }
        let v = validate_non_empty(self.message_id.as_str(), "message_id");
        if let Err(e) = v {
            return Err(e);
        }
        if !validate_uuid(self.message_id.as_str()) {
            let msg = "Invalid UUID format: ".to_owned().concat(self.message_id.as_str());
            return Err(UmicpError::validation(msg.as_str()));
        }
        if let Some(capabilities) = &self.capabilities {
            let n = capabilities.len();
            let mut i: usize = 0;
            proof {
                assert(capabilities@.skip(0) =~= capabilities@);
            }
            while i < n
                invariant
                    self@.capabilities == Some(capabilities@),
                    !blank(self@.from),
                    !blank(self@.to),
                    !blank(self@.message_id),
                    uuid_ok(self@.message_id),
                    n == capabilities@.len(),
                    i <= n,
                    forall|k: int|
                        0 <= k < i ==> !blank(#[trigger] capabilities@[k].0) && !blank(
                            capabilities@[k].1,
                        ),
                    cap_err_msg(capabilities@) == cap_err_msg(capabilities@.skip(i as int)),
                decreases n - i,
            {
                proof {
                    assert(capabilities@.skip(i as int)[0] == capabilities@[i as int]);
                    assert(capabilities@.skip(i as int).drop_first() =~= capabilities@.skip(
                        i + 1 as int,
                    ));
                }
                let v = validate_non_empty(capabilities.key_at(i).as_str(), "capability key");
                if let Err(e) = v {
                    proof {
                        assert(self@.capabilities == Some(capabilities@));
                        assert(blank(capabilities@[i as int].0));
                        assert(!caps_non_blank(capabilities@));
                        assert(!spec_envelope_valid(self@));
                        assert(cap_err_msg(capabilities@.skip(i as int))
                            == crate::utils::empty_field_msg("capability key"@));
                        assert(e.spec_message() == spec_validate_err_msg(self@));
                    }
                    return Err(e);
                }
                let v = validate_non_empty(capabilities.value_at(i).as_str(), "capability value");
                if let Err(e) = v {
                    proof {
                        assert(blank(capabilities@[i as int].1));
                        assert(!caps_non_blank(capabilities@));
                        assert(cap_err_msg(capabilities@.skip(i as int))
                            == crate::utils::empty_field_msg("capability value"@));
                        assert(e.spec_message() == spec_validate_err_msg(self@));
                    }
                    return Err(e);
                }
                proof {
                    assert(!blank(capabilities@[i as int].0));
                    assert(!blank(capabilities@[i as int].1));
                    assert(forall|k: int|
                        0 <= k < i + 1 ==> !blank(#[trigger] capabilities@[k].0) && !blank(
                            capabilities@[k].1,
                        ));
                }
                i = i + 1;
            }
        }
        if let Some(schema_uri) = &self.schema_uri {
            let v = validate_non_empty(schema_uri.as_str(), "schema_uri");
            if let Err(e) = v {
                return Err(e);
            }
        }
        if let Some(accept) = &self.accept {
            let n = accept.len();
            let mut i: usize = 0;
            while i < n
                invariant
                    self@.accept == Some(strings_view(accept@)),
                    !blank(self@.from),
                    !blank(self@.to),
                    !blank(self@.message_id),
                    uuid_ok(self@.message_id),
                    match self@.capabilities {
                        Some(c) => caps_non_blank(c),
                        None => true,
                    },
                    match self@.schema_uri {
                        Some(u) => !blank(u),
                        None => true,
                    },
                    n == accept@.len(),
                    i <= n,
                    forall|k: int| 0 <= k < i ==> !blank(#[trigger] strings_view(accept@)[k]),
                decreases n - i,
            {
                let v = validate_non_empty(accept[i].as_str(), "accept type");
                if let Err(e) = v {
                    proof {
                        assert(blank(strings_view(accept@)[i as int]));
                        assert(!accept_non_blank(strings_view(accept@)));
                        assert(e.spec_message() == spec_validate_err_msg(self@));
                    }
                    return Err(e);
                }
                i = i + 1;
            }
        }
        Ok(())
    }

    /// Get protocol version.
    pub fn version(&self) -> (r: &str)
        ensures
            r@ == self@.version,
    {
        self.version.as_str()
    }

    /// Get message ID.
    pub fn message_id(&self) -> (r: &str)
        ensures
            r@ == self@.message_id,
    {
        self.message_id.as_str()
    }

    /// Get timestamp.
    pub fn timestamp(&self) -> (r: &str)
        ensures
            r@ == self@.timestamp,
    {
        self.timestamp.as_str()
    }

    /// Get sender identifier.
    pub fn from(&self) -> (r: &str)
        ensures
            r@ == self@.from,
    {
        self.from.as_str()
    }

    /// Set sender identifier.
    pub fn set_from(&mut self, from: &str)
        ensures
            final(self)@ == (EnvelopeView { from: from@, ..old(self)@ }),
    {
        self.from = from.to_owned();
    }

    /// Get recipient identifier.
    pub fn to(&self) -> (r: &str)
        ensures
            r@ == self@.to,
    {
        self.to.as_str()
    }

    /// Set recipient identifier.
    pub fn set_to(&mut self, to: &str)
        ensures
            final(self)@ == (EnvelopeView { to: to@, ..old(self)@ }),
    {
        self.to = to.to_owned();
    }

    /// Get operation type.
    pub fn operation(&self) -> (r: OperationType)
        ensures
            r == self@.operation,
    {
        self.operation
    }

    /// Set operation type.
    pub fn set_operation(&mut self, operation: OperationType)
        ensures
            final(self)@ == (EnvelopeView { operation: operation, ..old(self)@ }),
    {
        self.operation = operation;
    }

    /// Get capabilities.
    pub fn capabilities(&self) -> (r: Option<&Capabilities>)
        ensures
            match r {
                Some(c) => self@.capabilities == Some(c@),
                None => self@.capabilities is None,
            },
    {
        self.capabilities.as_ref()
    }

    /// Set capabilities, replacing any present ones.
    pub fn set_capabilities(&mut self, capabilities: Capabilities)
        ensures
            final(self)@ == (EnvelopeView { capabilities: Some(capabilities@), ..old(self)@ }),
    {
        self.capabilities = Some(capabilities);
    }

    /// What `add_capability` makes of the capability entries.
    pub open spec fn spec_caps_insert(
        caps: Option<Seq<(Seq<char>, Seq<char>)>>,
        k: Seq<char>,
        v: Seq<char>,
    ) -> Seq<(Seq<char>, Seq<char>)> {
        let base = match caps {
            Some(c) => c,
            None => Seq::empty(),
        };
        if spec_map_contains(base, k) {
            StringMap::spec_replace(base, k, v)
        } else {
            base.push((k, v))
        }
    }

    /// Add a single capability, replacing the value if the key is present.
    pub fn add_capability(&mut self, key: &str, value: &str)
        ensures
            final(self)@ == (EnvelopeView {
                capabilities: Some(
                    Self::spec_caps_insert(old(self)@.capabilities, key@, value@),
                ),
                ..old(self)@
            }),
    {
        if self.capabilities.is_none() {
            self.capabilities = Some(StringMap::new());
        }
        if let Some(caps) = &mut self.capabilities {
            caps.insert(key, value);
        }
    }

    /// Get schema URI.
    pub fn schema_uri(&self) -> (r: Option<&str>)
        ensures
            match r {
                Some(u) => self@.schema_uri == Some(u@),
                None => self@.schema_uri is None,
            },
    {
        match &self.schema_uri {
            Some(u) => Some(u.as_str()),
            None => None,
        }
    }

    /// Set schema URI.
    pub fn set_schema_uri(&mut self, schema_uri: &str)
        ensures
            final(self)@ == (EnvelopeView { schema_uri: Some(schema_uri@), ..old(self)@ }),
    {
        self.schema_uri = Some(schema_uri.to_owned());
    }

    /// Get accepted content types.
    pub fn accept(&self) -> (r: Option<&AcceptTypes>)
        ensures
            match r {
                Some(a) => self@.accept == Some(strings_view(a@)),
                None => self@.accept is None,
            },
    {
        self.accept.as_ref()
    }

    /// Set accepted content types.
    pub fn set_accept(&mut self, accept: AcceptTypes)
        ensures
            final(self)@ == (EnvelopeView { accept: Some(strings_view(accept@)), ..old(self)@ }),
    {
        self.accept = Some(accept);
    }

    /// Get payload hint.
    pub fn payload_hint(&self) -> (r: Option<&PayloadHint>)
        ensures
            match r {
                Some(h) => self@.payload_hint == Some(*h),
                None => self@.payload_hint is None,
            },
    {
        self.payload_hint.as_ref()
    }

    /// Set payload hint.
    pub fn set_payload_hint(&mut self, hint: PayloadHint)
        ensures
            final(self)@ == (EnvelopeView { payload_hint: Some(hint), ..old(self)@ }),
    {
        self.payload_hint = Some(hint);
    }

    /// Get payload references.
    pub fn payload_refs(&self) -> (r: Option<&PayloadRefs>)
        ensures
            match r {
                Some(p) => self@.payload_refs == Some(maps_view(p@)),
                None => self@.payload_refs is None,
            },
    {
        self.payload_refs.as_ref()
    }

    /// Set payload references.
    pub fn set_payload_refs(&mut self, refs: PayloadRefs)
        ensures
            final(self)@ == (EnvelopeView { payload_refs: Some(maps_view(refs@)), ..old(self)@ }),
    {
        self.payload_refs = Some(refs);
    }

    /// Assemble an envelope from already-validated parts; the decoder uses
    /// this to rebuild an envelope from its wire form.
    pub(crate) fn assemble(
        version: String,
        message_id: String,
        timestamp: String,
        from: String,
        to: String,
        operation: OperationType,
        capabilities: Option<StringMap>,
        schema_uri: Option<String>,
        accept: Option<Vec<String>>,
        payload_hint: Option<PayloadHint>,
        payload_refs: Option<Vec<StringMap>>,
    ) -> (r: Envelope)
        ensures
            r@.version == version@,
            r@.message_id == message_id@,
            r@.timestamp == timestamp@,
            r@.from == from@,
            r@.to == to@,
            r@.operation == operation,
            r@.capabilities == match capabilities {
                Some(c) => Some(c@),
                None => None::<Seq<(Seq<char>, Seq<char>)>>,
            },
            r@.schema_uri == match schema_uri {
                Some(u) => Some(u@),
                None => None::<Seq<char>>,
            },
            r@.accept == match accept {
                Some(a) => Some(strings_view(a@)),
                None => None::<Seq<Seq<char>>>,
            },
            r@.payload_hint == payload_hint,
            r@.payload_refs == match payload_refs {
                Some(p) => Some(maps_view(p@)),
                None => None::<Seq<Seq<(Seq<char>, Seq<char>)>>>,
            },
    {
        Envelope {
            version,
            message_id,
            timestamp,
            from,
            to,
            operation,
            capabilities,
            schema_uri,
            accept,
            payload_hint,
            payload_refs,
        }
    }
}

impl Default for Envelope {
    /// A default envelope is a fresh one, as `Envelope::new` makes it.
    fn default() -> (r: Self)
        ensures
            r@.version == "1.0"@,
            uuid_ok(r@.message_id),
            r@.from.len() == 0,
            r@.to.len() == 0,
            r@.operation == OperationType::Control,
            r@.capabilities is None,
    {
        Envelope::new()
    }
}

/// Builder pattern for creating envelopes: setters validate nothing, `build`
/// validates everything at once.
pub struct EnvelopeBuilder {
    envelope: Envelope,
}

impl View for EnvelopeBuilder {
    type V = EnvelopeView;

    closed spec fn view(&self) -> EnvelopeView {
        self.envelope@
    }
}

impl EnvelopeBuilder {
    /// Create a new envelope builder over a fresh envelope.
    pub fn new() -> (r: Self)
        ensures
            r@.version == "1.0"@,
            uuid_ok(r@.message_id),
            !blank(r@.message_id),
            !blank(r@.timestamp),
            crate::utils::rfc3339_epoch_of(r@.timestamp) is Some,
            r@.from.len() == 0,
            r@.to.len() == 0,
            r@.operation == OperationType::Control,
            r@.capabilities is None,
            r@.schema_uri is None,
            r@.accept is None,
            r@.payload_hint is None,
            r@.payload_refs is None,
    {
        EnvelopeBuilder { envelope: Envelope::new() }
    }

    /// Set the sender identifier.
    pub fn from(self, from: &str) -> (r: Self)
        ensures
            r@ == (EnvelopeView { from: from@, ..self@ }),
    {
        let mut this = self;
        this.envelope.set_from(from);
        this
    }

    /// Set the recipient identifier.
    pub fn to(self, to: &str) -> (r: Self)
        ensures
            r@ == (EnvelopeView { to: to@, ..self@ }),
    {
        let mut this = self;
        this.envelope.set_to(to);
        this
    }

    /// Set the operation type.
    pub fn operation(self, operation: OperationType) -> (r: Self)
        ensures
            r@ == (EnvelopeView { operation: operation, ..self@ }),
    {
        let mut this = self;
        this.envelope.set_operation(operation);
        this
    }

    /// Set the message ID.
    pub fn message_id(self, message_id: &str) -> (r: Self)
        ensures
            r@ == (EnvelopeView { message_id: message_id@, ..self@ }),
    {
        let mut this = self;
        this.envelope.message_id = message_id.to_owned();
        this
    }

    /// Add a capability.
    pub fn capability(self, key: &str, value: &str) -> (r: Self)
        ensures
            r@ == (EnvelopeView {
                capabilities: Some(Envelope::spec_caps_insert(self@.capabilities, key@, value@)),
                ..self@
            }),
    {
        let mut this = self;
        this.envelope.add_capability(key, value);
        this
    }

    /// Set all capabilities, replacing any added so far.
    pub fn capabilities(self, capabilities: Capabilities) -> (r: Self)
        ensures
            r@ == (EnvelopeView { capabilities: Some(capabilities@), ..self@ }),
    {
        let mut this = self;
        this.envelope.set_capabilities(capabilities);
        this
    }

    /// Set schema URI.
    pub fn schema_uri(self, schema_uri: &str) -> (r: Self)
        ensures
            r@ == (EnvelopeView { schema_uri: Some(schema_uri@), ..self@ }),
    {
        let mut this = self;
        this.envelope.set_schema_uri(schema_uri);
        this
    }

    /// Set accepted content types.
    pub fn accept(self, accept: AcceptTypes) -> (r: Self)
        ensures
            r@ == (EnvelopeView { accept: Some(strings_view(accept@)), ..self@ }),
    {
        let mut this = self;
        this.envelope.set_accept(accept);
        this
    }

    /// Set payload hint.
    pub fn payload_hint(self, hint: PayloadHint) -> (r: Self)
        ensures
            r@ == (EnvelopeView { payload_hint: Some(hint), ..self@ }),
    {
        let mut this = self;
        this.envelope.set_payload_hint(hint);
        this
    }

    /// Set payload references.
    pub fn payload_refs(self, refs: PayloadRefs) -> (r: Self)
        ensures
            r@ == (EnvelopeView { payload_refs: Some(maps_view(refs@)), ..self@ }),
    {
        let mut this = self;
        this.envelope.set_payload_refs(refs);
        this
    }

    /// Build the envelope: validate it once and hand it out read-only. An
    /// envelope that fails validation is never observable.
    pub fn build(self) -> (r: Result<Envelope, UmicpError>)
        ensures
            r matches Ok(env) ==> env@ == self@ && spec_envelope_valid(self@),
            r is Err <==> !spec_envelope_valid(self@),
            r matches Err(e) ==> e is Validation && e.spec_message() == spec_validate_err_msg(
                self@,
            ),
    {
        let v = self.envelope.validate();
        match v {
            Ok(()) => Ok(self.envelope),
            Err(e) => Err(e),
        }
    }
}

impl Default for EnvelopeBuilder {
    /// A default builder is a fresh one, as `EnvelopeBuilder::new` makes it.
    fn default() -> (r: Self)
        ensures
            r@.version == "1.0"@,
            uuid_ok(r@.message_id),
            r@.from.len() == 0,
            r@.to.len() == 0,
            r@.operation == OperationType::Control,
            r@.capabilities is None,
    {
        EnvelopeBuilder::new()
    }
}

} // verus!
