use linura::library::acceptance::{
    check_authority_binding, check_operation_identity, enforce_time_sample, reject_identity_conflicts,
    require_time_sample, revision_sql, validate_target, AuthorityTimeSeal, ProposalAcceptanceError,
    ProposalAcceptanceTarget, ACCEPTANCE_RESULT_KIND,
};
use linura::library::acceptance_record::{
    check_replay_identity, check_replay_result, decide_replay, parse_acceptance_record, parse_target, record_field,
    record_payload, record_u64, ProposalAcceptanceMaterial, ProposalAcceptanceRecord,
    ProposalAcceptanceReplayKey,
};
use linura::library::error::LibraryError;
use linura::library::records::{AuthorityTimeSample, ProposalAcceptanceAction};

fn seal() -> AuthorityTimeSeal {
    AuthorityTimeSeal {
        time_floor_unix_ms: 1_000,
        exclusive_deadline_unix_ms: 2_000,
        continuity_generation: 7,
        normalization_evidence_digest: "ee".repeat(32),
    }
}

fn sample(unix_ms: u64, generation: u64, established: bool) -> AuthorityTimeSample {
    AuthorityTimeSample { unix_ms, continuity_generation: generation, continuity_established: established }
}

fn record(target: ProposalAcceptanceTarget) -> ProposalAcceptanceRecord {
    ProposalAcceptanceRecord {
        material: ProposalAcceptanceMaterial {
            principal: "principal:alice".to_string(),
            decision_id: "request:decision-1".to_string(),
            decision_binding_digest: "aa".repeat(32),
            proposal_id: "request:proposal-1".to_string(),
            proposal_digest: "bb".repeat(32),
            accepted_context_digest: "cc".repeat(32),
            operation_id: "request:operation-1".to_string(),
            target,
            authority_generation: 3,
            authority_evidence_digest: "dd".repeat(32),
            decision_validity_digest: "ff".repeat(32),
            resulting_intent_digest: "11".repeat(32),
        },
        time_seal: seal(),
        resulting_intent_id: "intent:kitchen".to_string(),
        resulting_revision: 1,
        linearized_at_unix_ms: 1_500,
    }
}

fn key_for(r: &ProposalAcceptanceRecord) -> ProposalAcceptanceReplayKey {
    ProposalAcceptanceReplayKey {
        principal: r.material.principal.clone(),
        proposal_id: r.material.proposal_id.clone(),
        proposal_digest: r.material.proposal_digest.clone(),
        decision_id: r.material.decision_id.clone(),
        operation_id: r.material.operation_id.clone(),
        target: r.material.target.clone(),
        resulting_intent_digest: r.material.resulting_intent_digest.clone(),
    }
}

#[test]
fn time_seal_requires_a_nonempty_window_and_continuity() {
    assert_eq!(seal().validate(), Ok(()));
    let mut empty = seal();
    empty.exclusive_deadline_unix_ms = 1_000;
    assert!(matches!(empty.validate(), Err(ProposalAcceptanceError::InvalidTimeSeal(_))));
    let mut zero = seal();
    zero.time_floor_unix_ms = 0;
    assert!(matches!(zero.validate(), Err(ProposalAcceptanceError::InvalidTimeSeal(_))));
    let mut no_generation = seal();
    no_generation.continuity_generation = 0;
    assert!(matches!(no_generation.validate(), Err(ProposalAcceptanceError::InvalidTimeSeal(_))));
}

#[test]
fn trusted_time_must_fall_inside_the_sealed_window() {
    assert_eq!(enforce_time_sample(&seal(), sample(1_000, 7, true)), Ok(()));
    assert_eq!(enforce_time_sample(&seal(), sample(1_999, 7, true)), Ok(()));
    assert_eq!(
        enforce_time_sample(&seal(), sample(2_000, 7, true)),
        Err(ProposalAcceptanceError::AuthorityExpired)
    );
    assert_eq!(
        enforce_time_sample(&seal(), sample(999, 7, true)),
        Err(ProposalAcceptanceError::TrustedTimeRollback)
    );
    assert_eq!(
        enforce_time_sample(&seal(), sample(1_500, 8, true)),
        Err(ProposalAcceptanceError::TrustedTimeContinuityLost)
    );
    assert_eq!(
        enforce_time_sample(&seal(), sample(1_500, 7, false)),
        Err(ProposalAcceptanceError::TrustedTimeContinuityLost)
    );
    assert_eq!(require_time_sample(None), Err(ProposalAcceptanceError::TrustedTimeUnavailable));
    assert_eq!(require_time_sample(Some(sample(5, 1, true))), Ok(sample(5, 1, true)));
}

#[test]
fn acceptance_targets_are_checked_against_the_current_intent() {
    let create = ProposalAcceptanceTarget::Create { intent_id: "intent:a".to_string() };
    let revise = ProposalAcceptanceTarget::ReviseProposed { intent_id: "intent:a".to_string(), expected_revision: 2 };
    assert_eq!(create.action(), ProposalAcceptanceAction::Create);
    assert_eq!(revise.expected_revision(), Some(2));
    assert_eq!(revise.intent_id(), "intent:a");
    assert_eq!(validate_target(&create, None), Ok(1));
    assert_eq!(
        validate_target(&create, Some((1, "proposed".to_string()))),
        Err(ProposalAcceptanceError::TargetAlreadyExists("intent:a".to_string()))
    );
    assert_eq!(
        validate_target(&revise, None),
        Err(ProposalAcceptanceError::TargetNotFound("intent:a".to_string()))
    );
    assert_eq!(validate_target(&revise, Some((2, "proposed".to_string()))), Ok(3));
    assert_eq!(
        validate_target(&revise, Some((3, "proposed".to_string()))),
        Err(ProposalAcceptanceError::RevisionConflict { expected: 2, actual: 3 })
    );
    assert_eq!(
        validate_target(&revise, Some((2, "active".to_string()))),
        Err(ProposalAcceptanceError::TargetNotProposed("intent:a".to_string()))
    );
    assert_eq!(
        validate_target(&revise, Some((2, "bogus".to_string()))),
        Err(ProposalAcceptanceError::Corrupt("unknown durable intent status bogus".to_string()))
    );
    assert!(matches!(
        validate_target(&revise, Some((-1, "proposed".to_string()))),
        Err(ProposalAcceptanceError::Corrupt(_))
    ));
}

#[test]
fn authority_binding_must_be_unique_and_exact() {
    assert_eq!(check_authority_binding(&[], "fp"), Err(ProposalAcceptanceError::AuthorityNotProvisioned));
    assert_eq!(check_authority_binding(&["fp".to_string()], "fp"), Ok(()));
    assert_eq!(
        check_authority_binding(&["other".to_string()], "fp"),
        Err(ProposalAcceptanceError::AuthorityBindingMismatch)
    );
    assert!(matches!(
        check_authority_binding(&["fp".to_string(), "fp".to_string()], "fp"),
        Err(ProposalAcceptanceError::Corrupt(_))
    ));
}

#[test]
fn indexed_identities_must_carry_the_same_digest() {
    assert_eq!(reject_identity_conflicts("p", "d", None, None, "x"), Ok(()));
    assert_eq!(reject_identity_conflicts("p", "d", Some("x"), Some("x"), "x"), Ok(()));
    assert_eq!(
        reject_identity_conflicts("p", "d", Some("y"), Some("y"), "x"),
        Err(ProposalAcceptanceError::IdentityConflict { kind: "proposal", id: "v08:proposal:p".to_string() })
    );
    assert_eq!(
        reject_identity_conflicts("p", "d", Some("x"), Some("y"), "x"),
        Err(ProposalAcceptanceError::IdentityConflict { kind: "acceptance decision", id: "v08:decision:d".to_string() })
    );
    assert_eq!(check_operation_identity("op", "x", ACCEPTANCE_RESULT_KIND, "x"), Ok(()));
    assert_eq!(
        check_operation_identity("op", "x", "intent", "x"),
        Err(ProposalAcceptanceError::IdentityConflict { kind: "operation", id: "op".to_string() })
    );
    assert_eq!(revision_sql(5), Ok(5));
    assert!(matches!(revision_sql(u64::MAX), Err(ProposalAcceptanceError::BindingMismatch(_))));
    assert_ne!(ProposalAcceptanceError::Library(LibraryError::PortableDigestMismatch), ProposalAcceptanceError::InvalidPermit);
}

#[test]
fn acceptance_record_payload_lists_every_field() {
    let r = record(ProposalAcceptanceTarget::Create { intent_id: "intent:kitchen".to_string() });
    let payload = record_payload(&r);
    let expected = format!(
        "version=1\nprincipal=principal:alice\ndecision_id=request:decision-1\ndecision_binding_digest={}\nproposal_id=request:proposal-1\nproposal_digest={}\naccepted_context_digest={}\noperation_id=request:operation-1\naction=create\ntarget_intent_id=intent:kitchen\nexpected_revision=none\nauthority_generation=3\nauthority_evidence_digest={}\ndecision_validity_digest={}\nresulting_intent_digest={}\ntime_floor_unix_ms=1000\nexclusive_deadline_unix_ms=2000\ncontinuity_generation=7\nnormalization_evidence_digest={}\nresulting_intent_id=intent:kitchen\nresulting_revision=1\nlinearized_at_unix_ms=1500",
        "aa".repeat(32),
        "bb".repeat(32),
        "cc".repeat(32),
        "dd".repeat(32),
        "ff".repeat(32),
        "11".repeat(32),
        "ee".repeat(32)
    );
    assert_eq!(payload, expected);
}

#[test]
fn acceptance_records_replay_to_what_was_committed() {
    for target in [
        ProposalAcceptanceTarget::Create { intent_id: "intent:kitchen".to_string() },
        ProposalAcceptanceTarget::ReviseProposed { intent_id: "intent:kitchen".to_string(), expected_revision: 4 },
    ] {
        let r = record(target);
        let payload = record_payload(&r);
        assert_eq!(parse_acceptance_record(&payload), Ok(r.clone()));
        assert_eq!(check_replay_identity(&payload, &key_for(&r)), Ok(()));
        assert_eq!(check_replay_result(&r, "intent:kitchen", 1), Ok(()));
    }
}

#[test]
fn replay_with_another_identity_is_a_conflict() {
    let r = record(ProposalAcceptanceTarget::Create { intent_id: "intent:kitchen".to_string() });
    let payload = record_payload(&r);
    let mut key = key_for(&r);
    key.principal = "principal:mallory".to_string();
    assert_eq!(
        check_replay_identity(&payload, &key),
        Err(ProposalAcceptanceError::IdentityConflict { kind: "operation", id: "request:operation-1".to_string() })
    );
    let mut key = key_for(&r);
    key.target = ProposalAcceptanceTarget::ReviseProposed { intent_id: "intent:kitchen".to_string(), expected_revision: 1 };
    assert!(matches!(
        check_replay_identity(&payload, &key),
        Err(ProposalAcceptanceError::IdentityConflict { .. })
    ));
    assert!(matches!(check_replay_result(&r, "intent:other", 1), Err(ProposalAcceptanceError::Corrupt(_))));
    assert!(matches!(check_replay_result(&r, "intent:kitchen", 2), Err(ProposalAcceptanceError::Corrupt(_))));
    assert!(matches!(check_replay_result(&r, "intent:kitchen", -1), Err(ProposalAcceptanceError::Corrupt(_))));
}

#[test]
fn malformed_acceptance_records_are_corrupt() {
    assert_eq!(
        record_field("principal=a\nprincipal=b", "principal"),
        Ok("a".to_string())
    );
    assert_eq!(
        record_field("principal=a", "operation_id"),
        Err(ProposalAcceptanceError::Corrupt(
            "missing operation_id in durable proposal acceptance record".to_string()
        ))
    );
    assert_eq!(record_u64("n=+12", "n"), Ok(12));
    assert_eq!(
        record_u64("n=x", "n"),
        Err(ProposalAcceptanceError::Corrupt("invalid n in durable proposal acceptance record".to_string()))
    );
    assert!(matches!(
        parse_target("target_intent_id=i\naction=create\nexpected_revision=3"),
        Err(ProposalAcceptanceError::Corrupt(_))
    ));
    assert_eq!(
        parse_target("target_intent_id=i\naction=delete\nexpected_revision=none"),
        Err(ProposalAcceptanceError::Corrupt("unknown durable proposal acceptance action delete".to_string()))
    );
    assert_eq!(
        parse_target("target_intent_id=i\naction=revise-proposed\nexpected_revision=9"),
        Ok(ProposalAcceptanceTarget::ReviseProposed { intent_id: "i".to_string(), expected_revision: 9 })
    );
    let r = record(ProposalAcceptanceTarget::Create { intent_id: "intent:kitchen".to_string() });
    let truncated = record_payload(&r).replace("\nlinearized_at_unix_ms=1500", "");
    assert!(matches!(parse_acceptance_record(&truncated), Err(ProposalAcceptanceError::Corrupt(_))));
    assert!(matches!(check_replay_identity("version=1", &key_for(&r)), Err(ProposalAcceptanceError::Corrupt(_))));
}

fn durable(r: &ProposalAcceptanceRecord) -> (String, Vec<String>) {
    let payload = record_payload(r);
    (payload.clone(), vec![payload.clone(), payload])
}

#[test]
fn replay_request_requires_the_provisioned_authority() {
    let r = record(ProposalAcceptanceTarget::Create { intent_id: "intent:kitchen".to_string() });
    let (payload, copies) = durable(&r);
    let bindings = vec!["fingerprint:0x74".to_string()];
    assert_eq!(
        decide_replay(&bindings, "fingerprint:0x75", &payload, &copies, "intent:kitchen", 1),
        Err(ProposalAcceptanceError::AuthorityBindingMismatch)
    );
    assert_eq!(
        decide_replay(&[], "fingerprint:0x74", &payload, &copies, "intent:kitchen", 1),
        Err(ProposalAcceptanceError::AuthorityNotProvisioned)
    );
    assert_eq!(decide_replay(&bindings, "fingerprint:0x74", &payload, &copies, "intent:kitchen", 1), Ok(r));
}

#[test]
fn replay_detects_modified_time_evidence() {
    let r = record(ProposalAcceptanceTarget::Create { intent_id: "intent:kitchen".to_string() });
    let (payload, copies) = durable(&r);
    let bindings = vec!["fp".to_string()];
    let edited = payload.replace("linearized_at_unix_ms=1500", "linearized_at_unix_ms=1501");
    assert_ne!(edited, payload);
    assert!(matches!(
        decide_replay(&bindings, "fp", &edited, &copies, "intent:kitchen", 1),
        Err(ProposalAcceptanceError::Corrupt(_))
    ));
    let mut late = r.clone();
    late.linearized_at_unix_ms = 2_000;
    let (late_payload, late_copies) = durable(&late);
    assert!(matches!(
        decide_replay(&bindings, "fp", &late_payload, &late_copies, "intent:kitchen", 1),
        Err(ProposalAcceptanceError::Corrupt(_))
    ));
    let mut unsealed = r.clone();
    unsealed.time_seal.continuity_generation = 0;
    let (bad_payload, bad_copies) = durable(&unsealed);
    assert!(matches!(
        decide_replay(&bindings, "fp", &bad_payload, &bad_copies, "intent:kitchen", 1),
        Err(ProposalAcceptanceError::InvalidTimeSeal(_))
    ));
    assert!(matches!(
        decide_replay(&bindings, "fp", &payload, &copies, "intent:kitchen", 2),
        Err(ProposalAcceptanceError::Corrupt(_))
    ));
}
