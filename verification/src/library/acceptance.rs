//! Control-authorized proposal acceptance: what an acceptance targets, the
//! authority-time seal it was authorized under, and the checks made under
//! the Library's durable write guard before it commits. Identifiers and
//! digests are held as their text; the signature and transaction-snapshot
//! checks belong to the authority verifier.
use vstd::prelude::*;
use crate::library::error::LibraryError;
use crate::library::records::{AuthorityTimeSample, IntentStatus, ProposalAcceptanceAction, status_named};
use crate::text::{chars_eq, chars_of, concat_str, string_of};

verus! {

/// Result kind of an acceptance operation record.
pub const ACCEPTANCE_RESULT_KIND: &'static str = "intent-proposal-acceptance";

/// Entity prefix of the durable acceptance record of an operation.
pub const ACCEPTANCE_RECORD_PREFIX: &'static str = "v08:acceptance:";

/// Entity prefix of the proposal index.
pub const PROPOSAL_INDEX_PREFIX: &'static str = "v08:proposal:";

/// Entity prefix of the acceptance-decision index.
pub const DECISION_INDEX_PREFIX: &'static str = "v08:decision:";

/// Entity id of the provisioned authority binding.
pub const AUTHORITY_BINDING_ENTITY_ID: &'static str = "v08:proposal-acceptance-authority";

/// Largest durable acceptance record payload, in bytes.
pub const MAX_RECORD_PAYLOAD_BYTES: usize = 65536;

/// Why an acceptance was refused. Storage failures carry the message of the
/// underlying error.
#[derive(Clone, Debug, PartialEq, Eq)]
pub enum ProposalAcceptanceError {
    Library(LibraryError),
    Sqlite(String),
    AuthorityNotProvisioned,
    AuthorityBindingMismatch,
    InvalidPermit,
    BindingMismatch(String),
    InvalidTimeSeal(String),
    TrustedTimeUnavailable,
    TrustedTimeRollback,
    TrustedTimeContinuityLost,
    AuthorityExpired,
    IdentityConflict { kind: &'static str, id: String },
    TargetAlreadyExists(String),
    TargetNotFound(String),
    TargetNotProposed(String),
    RevisionConflict { expected: u64, actual: u64 },
    Corrupt(String),
}

/// What an accepted proposal does: create a new intent, or revise a proposed
/// one at an expected revision.
#[derive(Clone, Debug, PartialEq, Eq)]
pub enum ProposalAcceptanceTarget {
    Create { intent_id: String },
    ReviseProposed { intent_id: String, expected_revision: u64 },
}

impl ProposalAcceptanceTarget {
    pub open spec fn spec_action(&self) -> ProposalAcceptanceAction {
        match self {
            ProposalAcceptanceTarget::Create { .. } => ProposalAcceptanceAction::Create,
            ProposalAcceptanceTarget::ReviseProposed { .. } => ProposalAcceptanceAction::ReviseProposed,
        }
    }

    pub open spec fn spec_intent_id(&self) -> Seq<char> {
        match self {
            ProposalAcceptanceTarget::Create { intent_id } => intent_id@,
            ProposalAcceptanceTarget::ReviseProposed { intent_id, .. } => intent_id@,
        }
    }

    pub open spec fn spec_expected_revision(&self) -> Option<u64> {
        match self {
            ProposalAcceptanceTarget::Create { .. } => None,
            ProposalAcceptanceTarget::ReviseProposed { expected_revision, .. } => Some(*expected_revision),
        }
    }

    pub fn action(&self) -> (r: ProposalAcceptanceAction)
        ensures
            r == self.spec_action(),
    {
        match self {
            ProposalAcceptanceTarget::Create { .. } => ProposalAcceptanceAction::Create,
            ProposalAcceptanceTarget::ReviseProposed { .. } => ProposalAcceptanceAction::ReviseProposed,
        }
    }

    pub fn intent_id(&self) -> (r: &str)
        ensures
            r@ == self.spec_intent_id(),
    {
        match self {
            ProposalAcceptanceTarget::Create { intent_id } => intent_id.as_str(),
            ProposalAcceptanceTarget::ReviseProposed { intent_id, .. } => intent_id.as_str(),
        }
    }

    pub fn expected_revision(&self) -> (r: Option<u64>)
        ensures
            r == self.spec_expected_revision(),
    {
        match self {
            ProposalAcceptanceTarget::Create { .. } => None,
            ProposalAcceptanceTarget::ReviseProposed { expected_revision, .. } => Some(*expected_revision),
        }
    }
}

/// The trusted-time window an authority use was sealed with.
#[derive(Clone, Debug, PartialEq, Eq)]
pub struct AuthorityTimeSeal {
    pub time_floor_unix_ms: u64,
    pub exclusive_deadline_unix_ms: u64,
    pub continuity_generation: u64,
    pub normalization_evidence_digest: String,
}

fn owned(s: &str) -> (r: String)
    ensures
        r@ == s@,
{
    string_of(&chars_of(s))
}

impl AuthorityTimeSeal {
    /// A seal opens a non-empty window after time zero, in an established
    /// trusted-time continuity generation.
    pub fn validate(&self) -> (r: Result<(), ProposalAcceptanceError>)
        ensures
            r is Ok <==> self.time_floor_unix_ms != 0 && self.time_floor_unix_ms < self.exclusive_deadline_unix_ms
                && self.continuity_generation != 0,
            r matches Err(e) ==> e is InvalidTimeSeal,
    {
        if self.time_floor_unix_ms == 0 || self.time_floor_unix_ms >= self.exclusive_deadline_unix_ms {
            return Err(ProposalAcceptanceError::InvalidTimeSeal(owned(
                "time floor must be non-zero and strictly before the exclusive authority-validity deadline",
            )));
        }
        if self.continuity_generation == 0 {
            return Err(ProposalAcceptanceError::InvalidTimeSeal(owned(
                "trusted-time continuity generation must be non-zero",
            )));
        }
        Ok(())
    }
}

/// The verdict on a trusted-time sample taken at linearization: it must
/// continue the sealed continuity generation, and fall inside the sealed
/// window, whose deadline is exclusive.
pub open spec fn time_verdict(seal: AuthorityTimeSeal, sample: AuthorityTimeSample) -> Result<(), ProposalAcceptanceError> {
    if !sample.continuity_established || sample.continuity_generation != seal.continuity_generation {
        Err(ProposalAcceptanceError::TrustedTimeContinuityLost)
    } else if sample.unix_ms < seal.time_floor_unix_ms {
        Err(ProposalAcceptanceError::TrustedTimeRollback)
    } else if sample.unix_ms >= seal.exclusive_deadline_unix_ms {
        Err(ProposalAcceptanceError::AuthorityExpired)
    } else {
        Ok(())
    }
}

pub fn enforce_time_sample(seal: &AuthorityTimeSeal, sample: AuthorityTimeSample) -> (r: Result<(), ProposalAcceptanceError>)
    ensures
        r == time_verdict(*seal, sample),
{
    if !sample.continuity_established || sample.continuity_generation != seal.continuity_generation {
        return Err(ProposalAcceptanceError::TrustedTimeContinuityLost);
    }
    if sample.unix_ms < seal.time_floor_unix_ms {
        return Err(ProposalAcceptanceError::TrustedTimeRollback);
    }
    if sample.unix_ms >= seal.exclusive_deadline_unix_ms {
        return Err(ProposalAcceptanceError::AuthorityExpired);
    }
    Ok(())
}

/// Linearization requires a trusted-time sample: none means acceptance
/// fails closed.
pub fn require_time_sample(sample: Option<AuthorityTimeSample>) -> (r: Result<AuthorityTimeSample, ProposalAcceptanceError>)
    ensures
        match sample {
            Some(s) => r == Ok::<AuthorityTimeSample, ProposalAcceptanceError>(s),
            None => r == Err::<AuthorityTimeSample, ProposalAcceptanceError>(ProposalAcceptanceError::TrustedTimeUnavailable),
        },
{
    match sample {
        Some(s) => Ok(s),
        None => Err(ProposalAcceptanceError::TrustedTimeUnavailable),
    }
}

/// The revision an accepted proposal writes, given the target intent's
/// current revision and status (`None` when it does not exist): a creation
/// needs an absent intent and writes revision 1; a revision needs a proposed
/// intent at the expected revision and writes the next one.
pub fn validate_target(target: &ProposalAcceptanceTarget, current: Option<(i64, String)>) -> (r: Result<u64, ProposalAcceptanceError>)
    ensures
        match (*target, current) {
            (ProposalAcceptanceTarget::Create { .. }, None) => r == Ok::<u64, ProposalAcceptanceError>(1),
            (ProposalAcceptanceTarget::Create { intent_id }, Some(_)) => r matches Err(ProposalAcceptanceError::TargetAlreadyExists(id))
                && id@ == intent_id@,
            (ProposalAcceptanceTarget::ReviseProposed { intent_id, .. }, None) => r matches Err(ProposalAcceptanceError::TargetNotFound(id))
                && id@ == intent_id@,
            (ProposalAcceptanceTarget::ReviseProposed { intent_id, expected_revision }, Some((actual, status))) => if actual < 0 {
                r matches Err(ProposalAcceptanceError::Corrupt(_))
            } else if actual != expected_revision {
                r == Err::<u64, ProposalAcceptanceError>(ProposalAcceptanceError::RevisionConflict { expected: expected_revision, actual: actual as u64 })
            } else if status_named(status@) is None {
                r matches Err(ProposalAcceptanceError::Corrupt(m)) && m@ == "unknown durable intent status "@ + status@
            } else if status_named(status@) != Some(IntentStatus::Proposed) {
                r matches Err(ProposalAcceptanceError::TargetNotProposed(id)) && id@ == intent_id@
            } else {
                r == Ok::<u64, ProposalAcceptanceError>((actual + 1) as u64)
            },
        },
{
    match (target, current) {
        (ProposalAcceptanceTarget::Create { .. }, None) => Ok(1),
        (ProposalAcceptanceTarget::Create { intent_id }, Some(_)) => Err(ProposalAcceptanceError::TargetAlreadyExists(owned(intent_id.as_str()))),
        (ProposalAcceptanceTarget::ReviseProposed { intent_id, .. }, None) => Err(ProposalAcceptanceError::TargetNotFound(owned(intent_id.as_str()))),
        (ProposalAcceptanceTarget::ReviseProposed { intent_id, expected_revision }, Some((actual, status))) => {
            if actual < 0 {
                return Err(ProposalAcceptanceError::Corrupt(owned("invalid target revision")));
            }
            let actual = actual as u64;
            if actual != *expected_revision {
                return Err(ProposalAcceptanceError::RevisionConflict { expected: *expected_revision, actual });
            }
            match crate::library::records::parse_intent_status(status.as_str()) {
                Err(_) => {
                    return Err(ProposalAcceptanceError::Corrupt(concat_str("unknown durable intent status ", status.as_str())));
                },
                Ok(s) => {
                    if s != IntentStatus::Proposed {
                        return Err(ProposalAcceptanceError::TargetNotProposed(owned(intent_id.as_str())));
                    }
                },
            }
            Ok(actual + 1)
        },
    }
}

/// The verdict on the authority bindings the Library holds, in order, for a
/// verifier with fingerprint `fingerprint`: exactly one binding, equal to it.
pub fn check_authority_binding(bindings: &[String], fingerprint: &str) -> (r: Result<(), ProposalAcceptanceError>)
    ensures
        bindings@.len() == 0 ==> r == Err::<(), ProposalAcceptanceError>(ProposalAcceptanceError::AuthorityNotProvisioned),
        bindings@.len() == 1 && bindings@[0]@ == fingerprint@ ==> r is Ok,
        bindings@.len() == 1 && bindings@[0]@ != fingerprint@ ==> r == Err::<(), ProposalAcceptanceError>(
            ProposalAcceptanceError::AuthorityBindingMismatch,
        ),
        bindings@.len() > 1 ==> (r matches Err(e) && e is Corrupt),
{
    if bindings.len() == 0 {
        return Err(ProposalAcceptanceError::AuthorityNotProvisioned);
    }
    if bindings.len() > 1 {
        return Err(ProposalAcceptanceError::Corrupt(owned("Library contains multiple proposal-acceptance authority bindings")));
    }
    if chars_eq(&chars_of(bindings[0].as_str()), &chars_of(fingerprint)) {
        Ok(())
    } else {
        Err(ProposalAcceptanceError::AuthorityBindingMismatch)
    }
}

/// The index entity of `id` under `prefix`.
pub fn index_entity(prefix: &str, id: &str) -> (r: String)
    ensures
        r@ == prefix@ + id@,
{
    concat_str(prefix, id)
}

/// A proposal or decision already indexed under another semantic digest is
/// an identity conflict; the proposal index is consulted first.
pub fn reject_identity_conflicts(
    proposal_id: &str,
    decision_id: &str,
    indexed_proposal_digest: Option<&str>,
    indexed_decision_digest: Option<&str>,
    semantic_digest: &str,
) -> (r: Result<(), ProposalAcceptanceError>)
    ensures
        if indexed_proposal_digest matches Some(p) && p@ != semantic_digest@ {
            r matches Err(ProposalAcceptanceError::IdentityConflict { kind, id }) && kind@ == "proposal"@
                && id@ == PROPOSAL_INDEX_PREFIX@ + proposal_id@
        } else if indexed_decision_digest matches Some(d) && d@ != semantic_digest@ {
            r matches Err(ProposalAcceptanceError::IdentityConflict { kind, id }) && kind@ == "acceptance decision"@
                && id@ == DECISION_INDEX_PREFIX@ + decision_id@
        } else {
            r is Ok
        },
{
    let digest = chars_of(semantic_digest);
    if let Some(p) = indexed_proposal_digest {
        if !chars_eq(&chars_of(p), &digest) {
            return Err(ProposalAcceptanceError::IdentityConflict {
                kind: "proposal",
                id: index_entity(PROPOSAL_INDEX_PREFIX, proposal_id),
            });
        }
    }
    if let Some(d) = indexed_decision_digest {
        if !chars_eq(&chars_of(d), &digest) {
            return Err(ProposalAcceptanceError::IdentityConflict {
                kind: "acceptance decision",
                id: index_entity(DECISION_INDEX_PREFIX, decision_id),
            });
        }
    }
    Ok(())
}

/// The operation record under an acceptance's operation id must carry the
/// acceptance's semantic digest and the acceptance result kind.
pub fn check_operation_identity(operation_id: &str, stored_digest: &str, result_kind: &str, semantic_digest: &str)
    -> (r: Result<(), ProposalAcceptanceError>)
    ensures
        r is Ok <==> stored_digest@ == semantic_digest@ && result_kind@ == ACCEPTANCE_RESULT_KIND@,
        r matches Err(e) ==> (e matches ProposalAcceptanceError::IdentityConflict { kind, id } && kind@ == "operation"@
            && id@ == operation_id@),
{
    if !chars_eq(&chars_of(stored_digest), &chars_of(semantic_digest))
        || !chars_eq(&chars_of(result_kind), &chars_of(ACCEPTANCE_RESULT_KIND)) {
        return Err(ProposalAcceptanceError::IdentityConflict { kind: "operation", id: owned(operation_id) });
    }
    Ok(())
}

/// A revision stored in an SQLite INTEGER column.
pub fn revision_sql(revision: u64) -> (r: Result<i64, ProposalAcceptanceError>)
    ensures
        revision <= i64::MAX ==> r == Ok::<i64, ProposalAcceptanceError>(revision as i64),
        revision > i64::MAX ==> (r matches Err(e) && e is BindingMismatch),
{
    if revision > 0x7fff_ffff_ffff_ffffu64 {
        return Err(ProposalAcceptanceError::BindingMismatch(owned("intent revision exceeds SQLite range")));
    }
    Ok(revision as i64)
}

} // verus!
