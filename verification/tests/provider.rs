use linura::provider::capabilityless::{
    push_bytes, push_u64, validate_static_protocol_header, CapabilitylessInterpretationAdapter,
};
use linura::provider::interpretation::{
    validate_semantic_value, validate_token, AdapterDescriptor, HeaderField, InterpretationAdapterError,
    NetworkAccess, PreparedProviderInvocation, ProviderInvocationDeadline, SemanticEntry, SemanticValue,
};

fn descriptor() -> AdapterDescriptor {
    AdapterDescriptor {
        provider: "provider:capabilityless-test".to_string(),
        adapter_id: "adapter:capabilityless-test".into(),
        endpoint_class: "interpretation".into(),
        protocol_version: 1,
        network_access: NetworkAccess::Required,
    }
}

#[test]
fn provider_deadline_rejects_empty_budget_and_preserves_exact_bounds() {
    assert_eq!(ProviderInvocationDeadline::new(100, 0), Err(InterpretationAdapterError::InvalidBudget));
    let deadline = ProviderInvocationDeadline::new(100, 25).unwrap_or_else(|error| unreachable!("{error:?}"));
    assert_eq!(deadline.deadline_unix_ms(), 100);
    assert_eq!(deadline.remaining_ms(), 25);
}

#[test]
fn prepared_invocation_rejects_auth_headers() {
    assert_eq!(
        HeaderField::new("Authorization".to_string(), "Bearer secret".to_string()),
        Err(InterpretationAdapterError::CredentialLikeMaterial)
    );
}

#[test]
fn credential_like_static_header_is_rejected_before_registration() {
    let result = HeaderField::new("Authorization".to_string(), "Bearer canary".to_string());
    assert!(matches!(result, Err(InterpretationAdapterError::CredentialLikeMaterial)));
}

#[test]
fn vendor_credential_headers_are_rejected_by_capabilityless_configuration() {
    for name in ["x-goog-api-key", "x-azure-key", "x-vendor-token", "x-custom"] {
        let header = HeaderField::new(name.to_string(), "secret-canary".to_string())
            .unwrap_or_else(|error| unreachable!("{error:?}"));
        let result = CapabilitylessInterpretationAdapter::new(
            descriptor(),
            vec![header],
            vec![],
            Some("mock-model".into()),
        );
        assert!(matches!(result, Err(InterpretationAdapterError::CredentialLikeMaterial)));
    }
}

#[test]
fn tokens_report_the_first_failed_check() {
    assert_eq!(validate_token("label", "  "), Err(InterpretationAdapterError::Empty("label")));
    assert_eq!(validate_token("label", &"x".repeat(257)), Err(InterpretationAdapterError::TooLong("label")));
    assert_eq!(validate_token("label", "a\tb"), Err(InterpretationAdapterError::ControlCharacter("label")));
    assert_eq!(validate_token("label", &"é".repeat(129)), Err(InterpretationAdapterError::TooLong("label")));
    assert_eq!(validate_token("label", "ok"), Ok(()));
}

#[test]
fn semantic_values_are_bounded_and_nul_free() {
    assert!(validate_semantic_value("multi\nline is fine").is_ok());
    assert_eq!(
        validate_semantic_value("a\0b"),
        Err(InterpretationAdapterError::ControlCharacter("semantic projection value"))
    );
    assert_eq!(
        validate_semantic_value(&"v".repeat(32 * 1024 + 1)),
        Err(InterpretationAdapterError::TooLong("semantic projection value"))
    );
    assert!(SemanticEntry::new("goal".to_string(), SemanticValue::U64(3)).is_ok());
    assert_eq!(
        SemanticEntry::new("".to_string(), SemanticValue::Bool(true)),
        Err(InterpretationAdapterError::Empty("semantic projection key"))
    );
    assert_eq!(
        SemanticEntry::new("secret".to_string(), SemanticValue::ProtectedReference("bad\nreference".to_string())),
        Err(InterpretationAdapterError::ControlCharacter("protected semantic reference"))
    );
}

#[test]
fn credential_header_names_are_refused_in_any_case() {
    for name in ["COOKIE", "Set-Cookie", "X-Api-Key", "api-key", "Proxy-Authorization"] {
        assert_eq!(
            HeaderField::new(name.to_string(), "v".to_string()),
            Err(InterpretationAdapterError::CredentialLikeMaterial)
        );
    }
    assert_eq!(
        HeaderField::new("accept".to_string(), "a\u{7}".to_string()),
        Err(InterpretationAdapterError::CredentialLikeMaterial)
    );
    assert!(HeaderField::new("accept".to_string(), "application/json".to_string()).is_ok());
}

#[test]
fn prepared_invocations_are_bounded() {
    let ok = PreparedProviderInvocation::new(&descriptor(), vec![], b"payload".to_vec())
        .unwrap_or_else(|error| unreachable!("{error:?}"));
    assert_eq!(ok.canonical_payload, b"payload".to_vec());
    assert_eq!(ok.network_access, NetworkAccess::Required);
    let too_many: Vec<HeaderField> = (0..65)
        .map(|_| HeaderField::new("accept".to_string(), "application/json".to_string()).unwrap())
        .collect();
    assert_eq!(
        PreparedProviderInvocation::new(&descriptor(), too_many, vec![]),
        Err(InterpretationAdapterError::TooLarge("provider headers"))
    );
    let mut bad = descriptor();
    bad.protocol_version = 0;
    assert!(matches!(
        PreparedProviderInvocation::new(&bad, vec![], vec![]),
        Err(InterpretationAdapterError::InvalidDescriptor(_))
    ));
    let mut forged = ok.clone();
    forged.headers.push(HeaderField { name: "Cookie".to_string(), value: "x".to_string() });
    assert_eq!(forged.validate(), Err(InterpretationAdapterError::CredentialLikeMaterial));
    assert_eq!(NetworkAccess::NoNetwork.as_str(), "none");
    assert_eq!(NetworkAccess::Required.as_str(), "required");
}

#[test]
fn capabilityless_configuration_accepts_only_protocol_headers() {
    let header = HeaderField::new("Content-Type".to_string(), "Application/Octet-Stream".to_string()).unwrap();
    assert!(validate_static_protocol_header(&header).is_ok());
    let adapter = CapabilitylessInterpretationAdapter::new(
        descriptor(),
        vec![header],
        b"provider-neutral-prefix".to_vec(),
        Some("mock-model".into()),
    )
    .unwrap_or_else(|error| unreachable!("{error:?}"));
    let parts = adapter.semantic_digest_parts();
    assert_eq!(parts.len(), 9);
    assert_eq!(parts[3], vec![0, 1]);
    assert_eq!(parts[4], b"required".to_vec());
    assert_eq!(parts[6], b"mock-model".to_vec());
    assert!(matches!(
        CapabilitylessInterpretationAdapter::new(descriptor(), vec![], vec![1, 0, 2], None),
        Err(InterpretationAdapterError::ControlCharacter(_))
    ));
    assert!(matches!(
        CapabilitylessInterpretationAdapter::new(descriptor(), vec![], vec![], Some("  ".into())),
        Err(InterpretationAdapterError::InvalidDescriptor(_))
    ));
}

#[test]
fn length_prefixed_framing_is_big_endian() {
    let mut out = Vec::new();
    push_u64(&mut out, 0x0102030405060708);
    assert_eq!(out, vec![1, 2, 3, 4, 5, 6, 7, 8]);
    let mut framed = vec![9];
    push_bytes(&mut framed, b"ab");
    assert_eq!(framed, vec![9, 0, 0, 0, 0, 0, 0, 0, 2, b'a', b'b']);
}
