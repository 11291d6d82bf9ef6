//! The capabilityless interpretation adapter: an adapter described entirely
//! by bounded data (descriptor, static protocol headers, request prefix and
//! model id), and the length-prefixed framing of its request payload.
use vstd::prelude::*;
use vstd::utf8::encode_utf8;
use crate::provider::interpretation::{header_ok, headers_ok, AdapterDescriptor, HeaderField, InterpretationAdapterError};
use crate::text::{all_whitespace, any_control, ascii_lower, chars_eq, chars_of, has_control, is_blank, lit, to_ascii_lower, utf8_bytes};

verus! {

pub const MAX_STATIC_HEADERS: usize = 32;
pub const MAX_MODEL_BYTES: usize = 256;
pub const MAX_PREFIX_BYTES: usize = 65536;

/// The big-endian bytes of `v`.
pub open spec fn be_bytes(v: u64) -> Seq<u8> {
    Seq::new(8, |i: int| ((v >> ((56 - 8 * i) as u64)) & 0xffu64) as u8)
}

/// `output` followed by the big-endian bytes of `value`.
pub fn push_u64(output: &mut Vec<u8>, value: u64)
    ensures
        final(output)@ == old(output)@ + be_bytes(value),
{
    let ghost start = output@;
    let mut i: usize = 0;
    while i < 8
        invariant
            i <= 8,
            output@ == start + be_bytes(value).take(i as int),
        decreases 8 - i,
    {
        let shift: u64 = 56 - 8 * (i as u64);
        let b: u8 = ((value >> shift) & 0xffu64) as u8;
        output.push(b);
        proof {
            assert(be_bytes(value)[i as int] == b);
            assert(be_bytes(value).take(i as int + 1) =~= be_bytes(value).take(i as int).push(b));
        }
        i = i + 1;
    }
    assert(be_bytes(value).take(8) =~= be_bytes(value));
}

/// `output` followed by the length of `value` (eight big-endian bytes) and
/// `value` itself.
pub fn push_bytes(output: &mut Vec<u8>, value: &[u8])
    ensures
        final(output)@ == old(output)@ + be_bytes(value@.len() as u64) + value@,
{
    push_u64(output, value.len() as u64);
    let ghost mid = output@;
    let mut i: usize = 0;
    while i < value.len()
        invariant
            i <= value@.len(),
            output@ == mid + value@.take(i as int),
        decreases value@.len() - i,
    {
        output.push(value[i]);
        assert(value@.take(i as int + 1) =~= value@.take(i as int).push(value@[i as int]));
        i = i + 1;
    }
    assert(value@.take(value@.len() as int) =~= value@);
}

/// A static header the capabilityless adapter may send: `accept` or
/// `content-type`, in any case, with one of four media types, in any case.
pub open spec fn static_protocol_header_ok(name: Seq<char>, value: Seq<char>) -> bool {
    let n = ascii_lower(name);
    let v = ascii_lower(value);
    (n == "accept"@ || n == "content-type"@) && (v == "application/json"@ || v == "application/octet-stream"@
        || v == "application/x-ndjson"@ || v == "text/event-stream"@)
}

/// The media types a static `accept` or `content-type` header may carry:
/// exactly JSON, octet streams, newline-delimited JSON and event streams,
/// compared without regard to ASCII case; any other value, and any other
/// header name, is refused.
pub proof fn law_static_media_types(name: Seq<char>, value: Seq<char>)
    ensures
        static_protocol_header_ok(name, value) <==> (set!["accept"@, "content-type"@].contains(ascii_lower(name))
            && set!["application/json"@, "application/octet-stream"@, "application/x-ndjson"@, "text/event-stream"@].contains(
            ascii_lower(value),
        )),
{
}

pub fn validate_static_protocol_header(header: &HeaderField) -> (r: Result<(), InterpretationAdapterError>)
    ensures
        r is Ok <==> static_protocol_header_ok(header.name@, header.value@),
        r is Err ==> r == Err::<(), InterpretationAdapterError>(InterpretationAdapterError::CredentialLikeMaterial),
{
    let name = to_ascii_lower(&chars_of(header.name.as_str()));
    let value = to_ascii_lower(&chars_of(header.value.as_str()));
    let json = lit("application/json");
    let octets = lit("application/octet-stream");
    let ndjson = lit("application/x-ndjson");
    let events = lit("text/event-stream");
    let safe_media_type = chars_eq(&value, &json) || chars_eq(&value, &octets) || chars_eq(&value, &ndjson)
        || chars_eq(&value, &events);
    let accept = lit("accept");
    let content_type = lit("content-type");
    if !(chars_eq(&name, &accept) || chars_eq(&name, &content_type)) || !safe_media_type {
        return Err(InterpretationAdapterError::CredentialLikeMaterial);
    }
    Ok(())
}

/// A model id: non-blank, at most 256 bytes, no control characters.
pub open spec fn model_ok(model: Seq<char>) -> bool {
    !all_whitespace(model) && encode_utf8(model).len() <= MAX_MODEL_BYTES && !any_control(model)
}

/// The configuration checks of the capabilityless adapter.
pub open spec fn capabilityless_config_ok(descriptor: AdapterDescriptor, headers: Seq<HeaderField>, prefix: Seq<u8>, model: Option<String>) -> bool {
    &&& descriptor.spec_valid()
    &&& headers.len() <= MAX_STATIC_HEADERS
    &&& prefix.len() <= MAX_PREFIX_BYTES
    &&& !prefix.contains(0u8)
    &&& (model matches Some(m) ==> model_ok(m@))
    &&& headers_ok(headers)
    &&& forall|i: int| 0 <= i < headers.len() ==> static_protocol_header_ok((#[trigger] headers[i]).name@, headers[i].value@)
}

/// An interpretation adapter whose behavior is bounded data: it holds no
/// callback, file, socket, process or credential handle.
#[derive(Clone, Debug, PartialEq, Eq)]
pub struct CapabilitylessInterpretationAdapter {
    descriptor: AdapterDescriptor,
    static_headers: Vec<HeaderField>,
    request_prefix: Vec<u8>,
    model: Option<String>,
}

impl CapabilitylessInterpretationAdapter {
    pub closed spec fn spec_descriptor(&self) -> AdapterDescriptor {
        self.descriptor
    }

    pub closed spec fn spec_static_headers(&self) -> Seq<HeaderField> {
        self.static_headers@
    }

    pub closed spec fn spec_request_prefix(&self) -> Seq<u8> {
        self.request_prefix@
    }

    /// An adapter for a valid configuration: a valid descriptor, at most 32
    /// credential-free static protocol headers, a NUL-free request prefix of
    /// at most 64 KiB, and a valid model id when there is one.
    pub fn new(descriptor: AdapterDescriptor, static_headers: Vec<HeaderField>, request_prefix: Vec<u8>, model: Option<String>) -> (r: Result<CapabilitylessInterpretationAdapter, InterpretationAdapterError>)
        ensures
            r is Ok <==> capabilityless_config_ok(descriptor, static_headers@, request_prefix@, model),
            r matches Ok(a) ==> a.spec_descriptor() == descriptor && a.spec_static_headers() == static_headers@
                && a.spec_request_prefix() == request_prefix@,
    {
        match descriptor.validate() {
            Ok(()) => {},
            Err(e) => return Err(e),
        }
        if static_headers.len() > MAX_STATIC_HEADERS {
            return Err(InterpretationAdapterError::TooLarge("capabilityless adapter static headers"));
        }
        if request_prefix.len() > MAX_PREFIX_BYTES {
            return Err(InterpretationAdapterError::TooLarge("capabilityless adapter request prefix"));
        }
        let mut i: usize = 0;
        while i < request_prefix.len()
            invariant
                i <= request_prefix@.len(),
                forall|j: int| 0 <= j < i ==> request_prefix@[j] != 0u8,
            decreases request_prefix@.len() - i,
        {
            if request_prefix[i] == 0u8 {
                assert(request_prefix@.contains(0u8));
                return Err(InterpretationAdapterError::ControlCharacter("capabilityless adapter request prefix"));
            }
            i = i + 1;
        }
        match &model {
            Some(model_id) => {
                let m = chars_of(model_id.as_str());
                if is_blank(&m) || utf8_bytes(&m).len() > MAX_MODEL_BYTES || has_control(&m) {
                    return Err(InterpretationAdapterError::InvalidDescriptor("capabilityless adapter model id is invalid".to_string()));
                }
            },
            None => {},
        }
        let mut k: usize = 0;
        while k < static_headers.len()
            invariant
                k <= static_headers@.len(),
                forall|j: int| 0 <= j < k ==> header_ok((#[trigger] static_headers@[j]).name@, static_headers@[j].value@)
                    && static_protocol_header_ok(static_headers@[j].name@, static_headers@[j].value@),
            decreases static_headers@.len() - k,
        {
            match HeaderField::new(static_headers[k].name.clone(), static_headers[k].value.clone()) {
                Ok(_) => {},
                Err(e) => return Err(e),
            }
            match validate_static_protocol_header(&static_headers[k]) {
                Ok(()) => {},
                Err(e) => return Err(e),
            }
            k = k + 1;
        }
        Ok(CapabilitylessInterpretationAdapter { descriptor, static_headers, request_prefix, model })
    }

    pub fn descriptor_ref(&self) -> (r: &AdapterDescriptor)
        ensures
            *r == self.spec_descriptor(),
    {
        &self.descriptor
    }

    /// The parts that identify the adapter's configuration, in digest
    /// order: provider, adapter id, endpoint class, protocol version (two
    /// big-endian bytes), network access, request prefix, model id (empty
    /// when none), then each static header's name and value.
    pub fn semantic_digest_parts(&self) -> (r: Vec<Vec<u8>>)
        ensures
            r@.len() == 7 + 2 * self.spec_static_headers().len(),
            r@[0]@ == encode_utf8(self.spec_descriptor().provider@),
            r@[1]@ == encode_utf8(self.spec_descriptor().adapter_id@),
            r@[2]@ == encode_utf8(self.spec_descriptor().endpoint_class@),
            r@[5]@ == self.spec_request_prefix(),
            forall|i: int| 0 <= i < self.spec_static_headers().len() ==> r@[7 + 2 * i]@ == encode_utf8((#[trigger] self.spec_static_headers()[i]).name@)
                && r@[8 + 2 * i]@ == encode_utf8(self.spec_static_headers()[i].value@),
    {
        let mut parts: Vec<Vec<u8>> = Vec::new();
        parts.push(utf8_bytes(&chars_of(self.descriptor.provider.as_str())));
        parts.push(utf8_bytes(&chars_of(self.descriptor.adapter_id.as_str())));
        parts.push(utf8_bytes(&chars_of(self.descriptor.endpoint_class.as_str())));
        let v = self.descriptor.protocol_version;
        let mut version: Vec<u8> = Vec::new();
        version.push((v >> 8u16) as u8);
        version.push((v & 0xffu16) as u8);
        parts.push(version);
        parts.push(utf8_bytes(&chars_of(self.descriptor.network_access.as_str())));
        parts.push(self.request_prefix.clone());
        let model = match &self.model {
            Some(m) => utf8_bytes(&chars_of(m.as_str())),
            None => Vec::new(),
        };
        parts.push(model);
        let mut i: usize = 0;
        while i < self.static_headers.len()
            invariant
                i <= self.static_headers@.len(),
                parts@.len() == 7 + 2 * i,
                parts@[0]@ == encode_utf8(self.descriptor.provider@),
                parts@[1]@ == encode_utf8(self.descriptor.adapter_id@),
                parts@[2]@ == encode_utf8(self.descriptor.endpoint_class@),
                parts@[5]@ == self.request_prefix@,
                forall|j: int| 0 <= j < i ==> parts@[7 + 2 * j]@ == encode_utf8((#[trigger] self.static_headers@[j]).name@)
                    && parts@[8 + 2 * j]@ == encode_utf8(self.static_headers@[j].value@),
            decreases self.static_headers@.len() - i,
        {
            parts.push(utf8_bytes(&chars_of(self.static_headers[i].name.as_str())));
            parts.push(utf8_bytes(&chars_of(self.static_headers[i].value.as_str())));
            i = i + 1;
        }
        parts
    }
}

} // verus!
