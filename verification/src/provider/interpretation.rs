//! Interpretation adapter descriptors, semantic projections, provider
//! headers and prepared invocations, with the checks that keep them bounded
//! and free of credentials.
use vstd::prelude::*;
use vstd::utf8::encode_utf8;
use crate::text::{any_control, ascii_lower, chars_eq, chars_of, has_control, is_blank, lit, to_ascii_lower, all_whitespace, utf8_bytes};

verus! {

pub const MAX_TOKEN_BYTES: usize = 256;
pub const MAX_SEMANTIC_ENTRIES: usize = 512;
pub const MAX_SEMANTIC_VALUE_BYTES: usize = 32768;
pub const MAX_REQUEST_BYTES: usize = 524288;
pub const MAX_HEADERS: usize = 64;
pub const MAX_PREPARED_PAYLOAD_BYTES: usize = 1048576;
pub const MAX_RESPONSE_BYTES: usize = 2097152;

/// Whether an adapter needs the network.
#[derive(Clone, Copy, Debug, PartialEq, Eq, Structural)]
pub enum NetworkAccess {
    NoNetwork,
    Required,
}

impl NetworkAccess {
    pub open spec fn spec_text(self) -> Seq<char> {
        match self {
            NetworkAccess::NoNetwork => "none"@,
            NetworkAccess::Required => "required"@,
        }
    }

    pub fn as_str(self) -> (r: &'static str)
        ensures
            r@ == self.spec_text(),
    {
        match self {
            NetworkAccess::NoNetwork => "none",
            NetworkAccess::Required => "required",
        }
    }
}

/// Why an interpretation adapter input was refused.
#[derive(Clone, Debug, PartialEq, Eq)]
pub enum InterpretationAdapterError {
    Empty(&'static str),
    TooLong(&'static str),
    TooLarge(&'static str),
    ControlCharacter(&'static str),
    InvalidDescriptor(String),
    InvalidBudget,
    DuplicateSemanticKey,
    DuplicateCapability,
    ContextDigestMismatch,
    CredentialLikeMaterial,
    InvalidPreparedInvocation,
    MalformedOutput(String),
}

/// The verdict on a token: blank, longer than 256 bytes, or holding a
/// control character, in that order of precedence.
pub open spec fn token_ok(value: Seq<char>) -> bool {
    !all_whitespace(value) && encode_utf8(value).len() <= MAX_TOKEN_BYTES && !any_control(value)
}

/// Checks a bounded, printable token; `label` names it in the error.
pub fn validate_token(label: &'static str, value: &str) -> (r: Result<(), InterpretationAdapterError>)
    ensures
        r is Ok <==> token_ok(value@),
        r == token_result(label, value@),
{
    let chars = chars_of(value);
    if is_blank(&chars) {
        return Err(InterpretationAdapterError::Empty(label));
    }
    if utf8_bytes(&chars).len() > MAX_TOKEN_BYTES {
        return Err(InterpretationAdapterError::TooLong(label));
    }
    if has_control(&chars) {
        return Err(InterpretationAdapterError::ControlCharacter(label));
    }
    Ok(())
}

/// A free-text semantic value: at most 32 KiB and no NUL character.
pub open spec fn semantic_value_ok(value: Seq<char>) -> bool {
    encode_utf8(value).len() <= MAX_SEMANTIC_VALUE_BYTES && !(exists|i: int| 0 <= i < value.len() && value[i] == '\0')
}

pub fn validate_semantic_value(value: &str) -> (r: Result<(), InterpretationAdapterError>)
    ensures
        r is Ok <==> semantic_value_ok(value@),
        r == validate_semantic_value_result(value@),
{
    let chars = chars_of(value);
    if utf8_bytes(&chars).len() > MAX_SEMANTIC_VALUE_BYTES {
        return Err(InterpretationAdapterError::TooLong("semantic projection value"));
    }
    let mut i: usize = 0;
    while i < chars.len()
        invariant
            i <= chars@.len(),
            chars@ == value@,
            encode_utf8(value@).len() <= MAX_SEMANTIC_VALUE_BYTES,
            forall|j: int| 0 <= j < i ==> chars@[j] != '\0',
        decreases chars@.len() - i,
    {
        if chars[i] == '\0' {
            return Err(InterpretationAdapterError::ControlCharacter("semantic projection value"));
        }
        i = i + 1;
    }
    Ok(())
}

/// A value of the minimized semantic projection.
#[derive(Clone, Debug, PartialEq, Eq)]
pub enum SemanticValue {
    Text(String),
    ProtectedReference(String),
    Bool(bool),
    U64(u64),
    I64(i64),
}

impl SemanticValue {
    /// The checks a projection value must pass.
    pub open spec fn spec_valid(&self) -> bool {
        match self {
            SemanticValue::Text(v) => semantic_value_ok(v@),
            SemanticValue::ProtectedReference(v) => token_ok(v@),
            _ => true,
        }
    }

    pub fn validate(&self) -> (r: Result<(), InterpretationAdapterError>)
        ensures
            r is Ok <==> self.spec_valid(),
            self matches SemanticValue::Text(v) ==> r == validate_semantic_value_result(v@),
            self matches SemanticValue::ProtectedReference(v) ==> r == token_result("protected semantic reference", v@),
    {
        match self {
            SemanticValue::Text(value) => validate_semantic_value(value.as_str()),
            SemanticValue::ProtectedReference(value) => validate_token("protected semantic reference", value.as_str()),
            _ => Ok(()),
        }
    }
}

/// What [`validate_token`] returns.
pub open spec fn token_result(label: &'static str, value: Seq<char>) -> Result<(), InterpretationAdapterError> {
    if all_whitespace(value) {
        Err(InterpretationAdapterError::Empty(label))
    } else if encode_utf8(value).len() > MAX_TOKEN_BYTES {
        Err(InterpretationAdapterError::TooLong(label))
    } else if any_control(value) {
        Err(InterpretationAdapterError::ControlCharacter(label))
    } else {
        Ok(())
    }
}

/// What [`validate_semantic_value`] returns.
pub open spec fn validate_semantic_value_result(value: Seq<char>) -> Result<(), InterpretationAdapterError> {
    if encode_utf8(value).len() > MAX_SEMANTIC_VALUE_BYTES {
        Err(InterpretationAdapterError::TooLong("semantic projection value"))
    } else if !semantic_value_ok(value) {
        Err(InterpretationAdapterError::ControlCharacter("semantic projection value"))
    } else {
        Ok(())
    }
}

/// One key/value pair of a minimized semantic projection.
#[derive(Clone, Debug, PartialEq, Eq)]
pub struct SemanticEntry {
    pub key: String,
    pub value: SemanticValue,
}

impl SemanticEntry {
    /// An entry with a valid key and value.
    pub fn new(key: String, value: SemanticValue) -> (r: Result<SemanticEntry, InterpretationAdapterError>)
        ensures
            r is Ok <==> token_ok(key@) && value.spec_valid(),
            !token_ok(key@) ==> r == Err::<SemanticEntry, InterpretationAdapterError>(token_result("semantic projection key", key@)->Err_0),
            r matches Ok(e) ==> e.key@ == key@ && e.value == value,
    {
        match validate_token("semantic projection key", key.as_str()) {
            Ok(()) => {},
            Err(e) => return Err(e),
        }
        match value.validate() {
            Ok(()) => {},
            Err(e) => return Err(e),
        }
        Ok(SemanticEntry { key, value })
    }
}

/// The header names that carry credentials, in lower case.
pub open spec fn credential_header_name(lower: Seq<char>) -> bool {
    lower == "authorization"@ || lower == "proxy-authorization"@ || lower == "cookie"@ || lower
        == "set-cookie"@ || lower == "x-api-key"@ || lower == "api-key"@
}

/// A provider header: a valid token as name, a printable value of at most
/// 256 bytes, and a name that is not a credential header in any case.
pub open spec fn header_ok(name: Seq<char>, value: Seq<char>) -> bool {
    token_ok(name) && encode_utf8(value).len() <= MAX_TOKEN_BYTES && !any_control(value)
        && !credential_header_name(ascii_lower(name))
}

/// A header the prepared invocation sends.
#[derive(Clone, Debug, PartialEq, Eq)]
pub struct HeaderField {
    pub name: String,
    pub value: String,
}

fn is_credential_header_name(lower: &[char]) -> (r: bool)
    ensures
        r == credential_header_name(lower@),
{
    let a = lit("authorization");
    let b = lit("proxy-authorization");
    let c = lit("cookie");
    let d = lit("set-cookie");
    let e = lit("x-api-key");
    let f = lit("api-key");
    chars_eq(lower, &a) || chars_eq(lower, &b) || chars_eq(lower, &c) || chars_eq(lower, &d)
        || chars_eq(lower, &e) || chars_eq(lower, &f)
}

impl HeaderField {
    /// A header with a valid name and a value that carries no credential.
    pub fn new(name: String, value: String) -> (r: Result<HeaderField, InterpretationAdapterError>)
        ensures
            r is Ok <==> header_ok(name@, value@),
            !token_ok(name@) ==> r == Err::<HeaderField, InterpretationAdapterError>(token_result("provider header name", name@)->Err_0),
            token_ok(name@) && !header_ok(name@, value@) ==> r == Err::<HeaderField, InterpretationAdapterError>(InterpretationAdapterError::CredentialLikeMaterial),
            r matches Ok(h) ==> h.name@ == name@ && h.value@ == value@,
    {
        match validate_token("provider header name", name.as_str()) {
            Ok(()) => {},
            Err(e) => return Err(e),
        }
        let value_chars = chars_of(value.as_str());
        if utf8_bytes(&value_chars).len() > MAX_TOKEN_BYTES || has_control(&value_chars) {
            return Err(InterpretationAdapterError::CredentialLikeMaterial);
        }
        let lowered = to_ascii_lower(&chars_of(name.as_str()));
        if is_credential_header_name(&lowered) {
            return Err(InterpretationAdapterError::CredentialLikeMaterial);
        }
        Ok(HeaderField { name, value })
    }
}

/// The static description of an interpretation adapter. The provider is
/// held as its identifier text.
#[derive(Clone, Debug, PartialEq, Eq)]
pub struct AdapterDescriptor {
    pub provider: String,
    pub adapter_id: String,
    pub endpoint_class: String,
    pub protocol_version: u16,
    pub network_access: NetworkAccess,
}

impl AdapterDescriptor {
    pub open spec fn spec_valid(&self) -> bool {
        token_ok(self.adapter_id@) && token_ok(self.endpoint_class@) && self.protocol_version != 0
    }

    /// The adapter id and endpoint class are valid tokens and the protocol
    /// version is non-zero.
    pub fn validate(&self) -> (r: Result<(), InterpretationAdapterError>)
        ensures
            r is Ok <==> self.spec_valid(),
            !token_ok(self.adapter_id@) ==> r == token_result("adapter id", self.adapter_id@),
            token_ok(self.adapter_id@) && !token_ok(self.endpoint_class@) ==> r == token_result("endpoint class", self.endpoint_class@),
            token_ok(self.adapter_id@) && token_ok(self.endpoint_class@) && self.protocol_version == 0 ==> (r matches Err(e) && e is InvalidDescriptor),
    {
        validate_token("adapter id", self.adapter_id.as_str())?;
        validate_token("endpoint class", self.endpoint_class.as_str())?;
        if self.protocol_version == 0 {
            return Err(InterpretationAdapterError::InvalidDescriptor("protocol version must be non-zero".to_string()));
        }
        Ok(())
    }
}

/// Every header of `headers` is a valid, credential-free header.
pub open spec fn headers_ok(headers: Seq<HeaderField>) -> bool {
    forall|i: int| 0 <= i < headers.len() ==> header_ok((#[trigger] headers[i]).name@, headers[i].value@)
}

fn validate_headers(headers: &Vec<HeaderField>) -> (r: Result<(), InterpretationAdapterError>)
    ensures
        r is Ok <==> headers_ok(headers@),
{
    let mut i: usize = 0;
    while i < headers.len()
        invariant
            i <= headers@.len(),
            forall|j: int| 0 <= j < i ==> header_ok((#[trigger] headers@[j]).name@, headers@[j].value@),
        decreases headers@.len() - i,
    {
        match HeaderField::new(headers[i].name.clone(), headers[i].value.clone()) {
            Ok(_) => {},
            Err(e) => return Err(e),
        }
        i = i + 1;
    }
    Ok(())
}

/// Everything one provider invocation sends: the adapter's identity, its
/// headers and the canonical payload.
#[derive(Clone, Debug, PartialEq, Eq)]
pub struct PreparedProviderInvocation {
    pub provider: String,
    pub adapter_id: String,
    pub endpoint_class: String,
    pub protocol_version: u16,
    pub network_access: NetworkAccess,
    pub headers: Vec<HeaderField>,
    pub canonical_payload: Vec<u8>,
}

impl PreparedProviderInvocation {
    pub open spec fn spec_valid(&self) -> bool {
        &&& token_ok(self.adapter_id@)
        &&& token_ok(self.endpoint_class@)
        &&& self.protocol_version != 0
        &&& self.headers@.len() <= MAX_HEADERS
        &&& self.canonical_payload@.len() <= MAX_PREPARED_PAYLOAD_BYTES
        &&& headers_ok(self.headers@)
    }

    /// An invocation for `descriptor`, bounded in headers and payload.
    pub fn new(descriptor: &AdapterDescriptor, headers: Vec<HeaderField>, canonical_payload: Vec<u8>) -> (r: Result<PreparedProviderInvocation, InterpretationAdapterError>)
        ensures
            r is Ok <==> descriptor.spec_valid() && headers@.len() <= MAX_HEADERS
                && canonical_payload@.len() <= MAX_PREPARED_PAYLOAD_BYTES && headers_ok(headers@),
            descriptor.spec_valid() && headers@.len() > MAX_HEADERS ==> r == Err::<PreparedProviderInvocation, InterpretationAdapterError>(InterpretationAdapterError::TooLarge("provider headers")),
            descriptor.spec_valid() && headers@.len() <= MAX_HEADERS && canonical_payload@.len() > MAX_PREPARED_PAYLOAD_BYTES ==> r == Err::<PreparedProviderInvocation, InterpretationAdapterError>(InterpretationAdapterError::TooLarge("prepared provider payload")),
            r matches Ok(p) ==> p.provider@ == descriptor.provider@ && p.adapter_id@ == descriptor.adapter_id@
                && p.endpoint_class@ == descriptor.endpoint_class@ && p.protocol_version == descriptor.protocol_version
                && p.network_access == descriptor.network_access && p.headers@ == headers@
                && p.canonical_payload@ == canonical_payload@,
    {
        match descriptor.validate() {
            Ok(()) => {},
            Err(e) => return Err(e),
        }
        if headers.len() > MAX_HEADERS {
            return Err(InterpretationAdapterError::TooLarge("provider headers"));
        }
        if canonical_payload.len() > MAX_PREPARED_PAYLOAD_BYTES {
            return Err(InterpretationAdapterError::TooLarge("prepared provider payload"));
        }
        let value = PreparedProviderInvocation {
            provider: descriptor.provider.clone(),
            adapter_id: descriptor.adapter_id.clone(),
            endpoint_class: descriptor.endpoint_class.clone(),
            protocol_version: descriptor.protocol_version,
            network_access: descriptor.network_access,
            headers,
            canonical_payload,
        };
        match value.validate() {
            Ok(()) => Ok(value),
            Err(e) => Err(e),
        }
    }

    /// Revalidates an invocation however it was built.
    pub fn validate(&self) -> (r: Result<(), InterpretationAdapterError>)
        ensures
            r is Ok <==> self.spec_valid(),
            token_ok(self.adapter_id@) && token_ok(self.endpoint_class@) && (self.protocol_version == 0
                || self.headers@.len() > MAX_HEADERS || self.canonical_payload@.len() > MAX_PREPARED_PAYLOAD_BYTES)
                ==> r == Err::<(), InterpretationAdapterError>(InterpretationAdapterError::InvalidPreparedInvocation),
    {
        validate_token("adapter id", self.adapter_id.as_str())?;
        validate_token("endpoint class", self.endpoint_class.as_str())?;
        if self.protocol_version == 0 || self.headers.len() > MAX_HEADERS || self.canonical_payload.len() > MAX_PREPARED_PAYLOAD_BYTES {
            return Err(InterpretationAdapterError::InvalidPreparedInvocation);
        }
        validate_headers(&self.headers)
    }
}

/// The wall-clock budget of one provider invocation.
#[derive(Clone, Copy, Debug, PartialEq, Eq)]
pub struct ProviderInvocationDeadline {
    deadline_unix_ms: u64,
    remaining_ms: u64,
}

impl ProviderInvocationDeadline {
    pub closed spec fn spec_deadline(self) -> u64 {
        self.deadline_unix_ms
    }

    pub closed spec fn spec_remaining(self) -> u64 {
        self.remaining_ms
    }

    /// A deadline with a non-zero instant and a non-empty budget.
    pub fn new(deadline_unix_ms: u64, remaining_ms: u64) -> (r: Result<ProviderInvocationDeadline, InterpretationAdapterError>)
        ensures
            r is Ok <==> deadline_unix_ms != 0 && remaining_ms != 0,
            r is Err ==> r == Err::<ProviderInvocationDeadline, InterpretationAdapterError>(InterpretationAdapterError::InvalidBudget),
            r matches Ok(d) ==> d.spec_deadline() == deadline_unix_ms && d.spec_remaining() == remaining_ms,
    {
        if deadline_unix_ms == 0 || remaining_ms == 0 {
            return Err(InterpretationAdapterError::InvalidBudget);
        }
        Ok(ProviderInvocationDeadline { deadline_unix_ms, remaining_ms })
    }

    pub fn deadline_unix_ms(self) -> (r: u64)
        ensures
            r == self.spec_deadline(),
    {
        self.deadline_unix_ms
    }

    pub fn remaining_ms(self) -> (r: u64)
        ensures
            r == self.spec_remaining(),
    {
        self.remaining_ms
    }
}

/// What one provider invocation came back with.
#[derive(Clone, Debug, PartialEq, Eq)]
pub enum ProviderInvocationOutcome {
    Complete(Vec<u8>),
    Partial,
    Timeout,
    RateLimited,
    TransportFailure(String),
    Cancelled,
}

} // verus!
