use linura::library::adoption::{classify_revision, AdoptionVerdict};
use linura::library::checks::{
    bool_i64, ensure_revision, parse_bool_i64, sql_string_literal, to_i64, to_u32, to_u64,
    validate_collection_size, validate_next_revision, validate_secret_ref, validate_text,
    MAX_COLLECTION_ITEMS,
};
use linura::library::digest::{digest_fields, digest_owned_fields, hex_digest, sha256_hex};
use linura::library::error::LibraryError;
use linura::library::operations::{
    carried_causal_state, desired_state_payload, plan_desired_state, plan_supersession, plan_transition,
    replay_verdict, require_lineage, retains_lineage, transition_operation_digest, StoredOperation,
};
use linura::library::portable::{
    decode_text, finish_artifact, hex_nibble, hex_text, ordered_values, parse_artifact_frame,
    parse_bool, parse_u16, parse_u32, parse_u64, parse_usize, push_line, require_fields,
    validate_version, PORTABLE_FORMAT_VERSION,
};
use linura::library::records::{
    intent_status_str, parse_intent_status, parse_lifecycle_kind, transition_status, IntentStatus,
    IntentTransition, LibrarySettings, LifecycleRecordKind, ProposalAcceptanceAction,
};

#[test]
fn intent_lifecycle_transitions_follow_the_status_machine() {
    assert_eq!(transition_status(IntentStatus::Proposed, IntentTransition::Activate), Ok(IntentStatus::Active));
    assert_eq!(transition_status(IntentStatus::Suspended, IntentTransition::Activate), Ok(IntentStatus::Active));
    assert_eq!(transition_status(IntentStatus::Active, IntentTransition::Suspend), Ok(IntentStatus::Suspended));
    assert_eq!(transition_status(IntentStatus::Proposed, IntentTransition::Retire), Ok(IntentStatus::Retired));
    assert_eq!(transition_status(IntentStatus::Active, IntentTransition::Retire), Ok(IntentStatus::Retired));
    assert_eq!(transition_status(IntentStatus::Suspended, IntentTransition::Retire), Ok(IntentStatus::Retired));
    assert_eq!(
        transition_status(IntentStatus::Active, IntentTransition::Activate),
        Err(LibraryError::InvalidTransition { from: "active".to_string(), operation: "activate".to_string() })
    );
    assert_eq!(
        transition_status(IntentStatus::Retired, IntentTransition::Retire),
        Err(LibraryError::InvalidTransition { from: "retired".to_string(), operation: "retire".to_string() })
    );
    assert!(transition_status(IntentStatus::Superseded, IntentTransition::Activate).is_err());
    assert!(transition_status(IntentStatus::Proposed, IntentTransition::Suspend).is_err());
}

#[test]
fn persisted_names_read_back_as_written() {
    for status in [
        IntentStatus::Proposed,
        IntentStatus::Active,
        IntentStatus::Suspended,
        IntentStatus::Superseded,
        IntentStatus::Retired,
    ] {
        assert_eq!(parse_intent_status(intent_status_str(status)), Ok(status));
    }
    for kind in [
        LifecycleRecordKind::DesiredState,
        LifecycleRecordKind::Provenance,
        LifecycleRecordKind::ApprovalReference,
        LifecycleRecordKind::AuditReference,
        LifecycleRecordKind::Reconciliation,
    ] {
        assert_eq!(parse_lifecycle_kind(kind.as_str()), Ok(kind));
    }
    assert_eq!(intent_status_str(IntentStatus::Superseded), "superseded");
    assert_eq!(LifecycleRecordKind::ApprovalReference.as_str(), "approval-reference");
    assert_eq!(IntentTransition::Suspend.as_str(), "suspend");
    assert_eq!(ProposalAcceptanceAction::ReviseProposed.as_str(), "revise-proposed");
    assert!(matches!(parse_intent_status("Active"), Err(LibraryError::Corrupt(_))));
    assert!(matches!(parse_lifecycle_kind("audit"), Err(LibraryError::Corrupt(_))));
}

#[test]
fn library_settings_default_busy_timeout() {
    assert_eq!(LibrarySettings::default().busy_timeout_ms, 5000);
}

#[test]
fn revision_preconditions_are_exact() {
    assert_eq!(ensure_revision(3, 3), Ok(()));
    assert_eq!(ensure_revision(2, 3), Err(LibraryError::RevisionConflict { expected: 2, actual: 3 }));
    assert_eq!(validate_next_revision(None, None, 1), Ok(()));
    assert_eq!(
        validate_next_revision(None, None, 0),
        Err(LibraryError::RevisionConflict { expected: 0, actual: 0 })
    );
    assert_eq!(
        validate_next_revision(Some(3), None, 4),
        Err(LibraryError::RevisionConflict { expected: 3, actual: 0 })
    );
    assert_eq!(validate_next_revision(Some(2), Some(2), 3), Ok(()));
    assert!(matches!(validate_next_revision(Some(2), Some(2), 2), Err(LibraryError::Validation(_))));
    assert_eq!(
        validate_next_revision(Some(1), Some(2), 3),
        Err(LibraryError::RevisionConflict { expected: 1, actual: 2 })
    );
    assert_eq!(
        validate_next_revision(None, Some(2), 3),
        Err(LibraryError::RevisionConflict { expected: 0, actual: 2 })
    );
}

#[test]
fn text_and_collections_are_bounded() {
    assert!(validate_text("living room", 256).is_ok());
    assert!(matches!(validate_text("   ", 256), Err(LibraryError::Validation(_))));
    assert!(matches!(validate_text("", 256), Err(LibraryError::Validation(_))));
    assert!(matches!(validate_text("bell\u{7}", 256), Err(LibraryError::Validation(_))));
    assert!(matches!(validate_text("ééé", 5), Err(LibraryError::Validation(_))));
    assert!(validate_text("éé", 4).is_ok());
    assert!(validate_collection_size(MAX_COLLECTION_ITEMS).is_ok());
    assert!(matches!(
        validate_collection_size(MAX_COLLECTION_ITEMS + 1),
        Err(LibraryError::Validation(_))
    ));
}

#[test]
fn persisted_integers_convert_without_loss() {
    assert_eq!(parse_bool_i64(0), Ok(false));
    assert_eq!(parse_bool_i64(1), Ok(true));
    assert!(matches!(parse_bool_i64(2), Err(LibraryError::Corrupt(_))));
    assert_eq!(bool_i64(true), 1);
    assert_eq!(bool_i64(false), 0);
    assert_eq!(to_u64(42), Ok(42));
    assert!(to_u64(-1).is_err());
    assert_eq!(to_u32(7), Ok(7));
    assert!(to_u32(u64::from(u32::MAX) + 1).is_err());
    assert_eq!(to_i64(9), Ok(9));
    assert!(to_i64(u64::MAX).is_err());
}

#[test]
fn sql_string_literals_are_quoted_and_reject_nul() {
    assert_eq!(sql_string_literal(b"/var/lib/it's.db"), Ok("'/var/lib/it''s.db'".to_string()));
    assert_eq!(sql_string_literal(b"/plain"), Ok("'/plain'".to_string()));
    assert!(matches!(sql_string_literal(b"/bad\0path"), Err(LibraryError::Validation(_))));
    assert!(matches!(sql_string_literal(&[0x2f, 0xff]), Err(LibraryError::Validation(_))));
}

#[test]
fn secret_references_use_one_namespace_and_name() {
    assert!(validate_secret_ref("vault:db-password").is_ok());
    assert!(validate_secret_ref("kr.v1:token_2").is_ok());
    for bad in ["hunter2", "", "a:b:c", ":name", "ns:", "ns: name", "ns:na!me", "ns:\u{7}"] {
        assert!(matches!(validate_secret_ref(bad), Err(LibraryError::Validation(_))), "{bad:?}");
    }
    assert!(validate_secret_ref(&format!("ns:{}", "x".repeat(253))).is_ok());
    assert!(validate_secret_ref(&format!("ns:{}", "x".repeat(254))).is_err());
}

#[test]
fn sha256_digests_are_lowercase_hex() {
    assert_eq!(
        sha256_hex(b""),
        "e3b0c44298fc1c149afbf4c8996fb92427ae41e4649b934ca495991b7852b855"
    );
    assert_eq!(
        sha256_hex(b"abc"),
        "ba7816bf8f01cfea414140de5dae2223b00361a396177a9cb410ff61f20015ad"
    );
    assert_eq!(hex_digest(&[0x00, 0xab, 0x0f]), "00ab0f");
}

#[test]
fn operation_digests_frame_each_field_with_its_length() {
    assert_eq!(
        digest_fields(&["transition-intent", "op-1"]),
        "8aeb9ce3252d5ef1459a5faf4aba9d8f1d48e0888377c336fd500323cd8e9383"
    );
    assert_eq!(
        digest_owned_fields(&["transition-intent".to_string(), "op-1".to_string()]),
        digest_fields(&["transition-intent", "op-1"])
    );
    assert_ne!(digest_fields(&["ab", "c"]), digest_fields(&["a", "bc"]));
    assert_eq!(digest_fields(&[]), sha256_hex(b""));
}

#[test]
fn hex_text_round_trips() {
    assert_eq!(hex_text("é"), "c3a9");
    assert_eq!(hex_text(""), "");
    for value in ["", "plain", "tab\tand é"] {
        assert_eq!(decode_text(&hex_text(value)), Ok(value.to_string()));
    }
    assert_eq!(decode_text("C3A9"), Ok("é".to_string()));
    assert!(matches!(decode_text("abc"), Err(LibraryError::PortableFormat(_))));
    assert!(matches!(decode_text("zz"), Err(LibraryError::PortableFormat(_))));
    assert!(matches!(decode_text("ff"), Err(LibraryError::PortableFormat(_))));
    assert_eq!(hex_nibble(b'7'), Ok(7));
    assert_eq!(hex_nibble(b'b'), Ok(11));
    assert_eq!(hex_nibble(b'F'), Ok(15));
    assert!(hex_nibble(b'g').is_err());
}

#[test]
fn portable_scalars_parse_strictly() {
    assert_eq!(parse_u16("65535"), Ok(65535));
    assert!(parse_u16("65536").is_err());
    assert_eq!(parse_u32("4294967295"), Ok(u32::MAX));
    assert!(parse_u32("-1").is_err());
    assert_eq!(parse_u64("18446744073709551615"), Ok(u64::MAX));
    assert!(parse_u64("18446744073709551616").is_err());
    assert!(parse_u64("").is_err());
    assert_eq!(parse_usize("12"), Ok(12));
    assert_eq!(parse_bool("0"), Ok(false));
    assert_eq!(parse_bool("1"), Ok(true));
    assert!(matches!(parse_bool("true"), Err(LibraryError::PortableFormat(_))));
    assert_eq!(validate_version(PORTABLE_FORMAT_VERSION), Ok(()));
    assert_eq!(
        validate_version(2),
        Err(LibraryError::UnsupportedPortableFormat { found: 2, supported: 1 })
    );
    assert!(matches!(validate_version(0), Err(LibraryError::PortableFormat(_))));
    assert!(require_fields(3, 3).is_ok());
    assert!(matches!(require_fields(2, 3), Err(LibraryError::PortableFormat(_))));
}

#[test]
fn records_are_tab_joined_lines() {
    let mut out: Vec<char> = Vec::new();
    push_line(&mut out, &["intent", "1", "abc"]);
    push_line(&mut out, &["end"]);
    assert_eq!(out.iter().collect::<String>(), "intent\t1\tabc\nend\n");
}

#[test]
fn ordered_values_require_dense_indices() {
    assert_eq!(
        ordered_values(&[(0, "a".to_string()), (1, "b".to_string())]),
        Ok(vec!["a".to_string(), "b".to_string()])
    );
    assert!(matches!(
        ordered_values(&[(1, "b".to_string()), (0, "a".to_string())]),
        Err(LibraryError::PortableFormat(_))
    ));
    assert_eq!(ordered_values(&[]), Ok(Vec::new()));
}

#[test]
fn sealed_artifacts_parse_back_to_their_records() {
    let body = "LINURA-LIBRARY\t1\tsetup\nrecord\tone\nrecord\ttwo\n".to_string();
    let sealed = finish_artifact(body.clone()).unwrap();
    let text = String::from_utf8(sealed.clone()).unwrap();
    assert!(text.starts_with(&body));
    assert!(text.ends_with('\n'));
    assert_eq!(
        parse_artifact_frame(&sealed, "setup"),
        Ok(vec!["record\tone".to_string(), "record\ttwo".to_string()])
    );
    assert!(matches!(parse_artifact_frame(&sealed, "profile"), Err(LibraryError::PortableFormat(_))));
}

#[test]
fn artifact_digest_is_the_sha256_of_the_body() {
    let body = "LINURA-LIBRARY\t1\tsetup\nrecord\n".to_string();
    let sealed = finish_artifact(body).unwrap();
    assert_eq!(
        String::from_utf8(sealed.clone()).unwrap(),
        "LINURA-LIBRARY\t1\tsetup\nrecord\nsha256\tae16d30a1fe06f351ee5d049b8bebf70ffe6842563f3e68e0039b7efa42419ee\n"
    );
    let upper = "LINURA-LIBRARY\t1\tsetup\nrecord\nsha256\tAE16D30A1FE06F351EE5D049B8BEBF70FFE6842563F3E68E0039B7EFA42419EE\n";
    assert_eq!(parse_artifact_frame(upper.as_bytes(), "setup"), Ok(vec!["record".to_string()]));
}

#[test]
fn tampered_or_unsupported_artifacts_fail_closed() {
    let sealed = finish_artifact("LINURA-LIBRARY\t1\tsetup\nrecord\n".to_string()).unwrap();
    let mut tampered = sealed.clone();
    tampered[24] = b'R';
    assert_eq!(parse_artifact_frame(&tampered, "setup"), Err(LibraryError::PortableDigestMismatch));

    let newer = finish_artifact("LINURA-LIBRARY\t2\tsetup\nrecord\n".to_string()).unwrap();
    assert_eq!(
        parse_artifact_frame(&newer, "setup"),
        Err(LibraryError::UnsupportedPortableFormat { found: 2, supported: 1 })
    );
    let legacy = finish_artifact("LINURA-LIBRARY\t0\tsetup\nrecord\n".to_string()).unwrap();
    assert!(matches!(parse_artifact_frame(&legacy, "setup"), Err(LibraryError::PortableFormat(_))));
    let empty_record = finish_artifact("LINURA-LIBRARY\t1\tsetup\n\nrecord\n".to_string()).unwrap();
    assert!(matches!(parse_artifact_frame(&empty_record, "setup"), Err(LibraryError::PortableFormat(_))));
    assert!(matches!(parse_artifact_frame(b"no digest", "setup"), Err(LibraryError::PortableFormat(_))));
    assert!(matches!(parse_artifact_frame(&[0xff], "setup"), Err(LibraryError::PortableFormat(_))));
}

fn stored(digest: &str, kind: &str, revision: i64) -> StoredOperation {
    StoredOperation {
        semantic_digest: digest.to_string(),
        result_kind: kind.to_string(),
        result_id: "intent:a".to_string(),
        result_revision: revision,
    }
}

#[test]
fn operation_replay_is_exact_or_conflicting() {
    assert_eq!(replay_verdict(None, "op-1", "d", "intent"), Ok(None));
    assert_eq!(
        replay_verdict(Some(stored("d", "intent", 3)), "op-1", "d", "intent"),
        Ok(Some(("intent:a".to_string(), 3)))
    );
    assert_eq!(
        replay_verdict(Some(stored("other", "intent", 3)), "op-1", "d", "intent"),
        Err(LibraryError::IdempotencyConflict("op-1".to_string()))
    );
    assert_eq!(
        replay_verdict(Some(stored("d", "setup", 3)), "op-1", "d", "intent"),
        Err(LibraryError::IdempotencyConflict("op-1".to_string()))
    );
    assert!(matches!(
        replay_verdict(Some(stored("d", "intent", -1)), "op-1", "d", "intent"),
        Err(LibraryError::Corrupt(_))
    ));
}

#[test]
fn intent_transition_checks_revision_status_and_overflow() {
    assert_eq!(
        plan_transition(2, 2, IntentStatus::Proposed, IntentTransition::Activate),
        Ok((IntentStatus::Active, 3))
    );
    assert_eq!(
        plan_transition(1, 2, IntentStatus::Proposed, IntentTransition::Activate),
        Err(LibraryError::RevisionConflict { expected: 1, actual: 2 })
    );
    assert_eq!(
        plan_transition(2, 2, IntentStatus::Retired, IntentTransition::Activate),
        Err(LibraryError::InvalidTransition { from: "retired".to_string(), operation: "activate".to_string() })
    );
    assert_eq!(
        plan_transition(u64::MAX, u64::MAX, IntentStatus::Active, IntentTransition::Suspend),
        Err(LibraryError::Validation("intent revision overflow".to_string()))
    );
}

#[test]
fn supersession_requires_lineage_and_a_live_predecessor() {
    let supersedes = vec!["intent:old".to_string(), "intent:older".to_string()];
    assert!(retains_lineage(&supersedes, "intent:old"));
    assert!(!retains_lineage(&supersedes, "intent:other"));
    assert_eq!(require_lineage("intent:new", &supersedes, "intent:old"), Ok(()));
    assert_eq!(
        require_lineage("intent:new", &supersedes, "intent:other"),
        Err(LibraryError::Validation(
            "successor intent:new must explicitly retain supersession lineage to intent:other".to_string()
        ))
    );
    assert_eq!(plan_supersession(4, 4, IntentStatus::Active), Ok(5));
    assert_eq!(
        plan_supersession(4, 4, IntentStatus::Superseded),
        Err(LibraryError::InvalidTransition { from: "superseded".to_string(), operation: "supersede".to_string() })
    );
    assert_eq!(
        plan_supersession(3, 4, IntentStatus::Active),
        Err(LibraryError::RevisionConflict { expected: 3, actual: 4 })
    );
}

#[test]
fn desired_state_advances_the_causal_generation() {
    assert_eq!(plan_desired_state(1, 1, 0), Ok(1));
    assert_eq!(plan_desired_state(1, 1, 41), Ok(42));
    assert_eq!(
        plan_desired_state(1, 1, u64::MAX),
        Err(LibraryError::Validation("causal generation overflow".to_string()))
    );
    assert_eq!(plan_desired_state(0, 1, 0), Err(LibraryError::RevisionConflict { expected: 0, actual: 1 }));
    assert_eq!(carried_causal_state(0, true), (0, false));
    assert_eq!(carried_causal_state(7, true), (1, true));
    assert_eq!(carried_causal_state(7, false), (1, false));
    assert_eq!(
        desired_state_payload("intent:a", 3, 12, 2, true),
        "intent=intent:a revision=3 generation=12 resources=2 ownership_complete=true"
    );
    assert_eq!(
        desired_state_payload("intent:b", 0, 1, 0, false),
        "intent=intent:b revision=0 generation=1 resources=0 ownership_complete=false"
    );
}

#[test]
fn transition_digest_binds_every_request_field() {
    let digest = transition_operation_digest("op-1", "intent:a", 7, IntentTransition::Retire);
    assert_eq!(digest, digest_fields(&["transition-intent", "op-1", "intent:a", "7", "retire"]));
    assert_ne!(digest, transition_operation_digest("op-1", "intent:a", 8, IntentTransition::Retire));
    assert_ne!(digest, transition_operation_digest("op-2", "intent:a", 7, IntentTransition::Retire));
    assert_eq!(digest.len(), 64);
}

#[test]
fn adoption_reuses_identical_revisions_and_creates_missing_entities() {
    assert_eq!(classify_revision("intent", "intent-a", 3, Some(true), true), AdoptionVerdict::Reuse);
    assert_eq!(classify_revision("intent", "intent-a", 3, None, false), AdoptionVerdict::Create);
}

#[test]
fn adoption_reports_each_collision_with_its_reason() {
    assert_eq!(
        classify_revision("profile", "home", 7, Some(false), true),
        AdoptionVerdict::Collision("profile home@7 already exists with different content".to_string())
    );
    assert_eq!(
        classify_revision("setup", "desk", 12, None, true),
        AdoptionVerdict::Collision("setup desk already exists locally without exact revision 12".to_string())
    );
}
