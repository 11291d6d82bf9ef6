//! Intent lifecycle statuses and transitions, lifecycle records, and the
//! names under which they are persisted.
use vstd::prelude::*;
use crate::library::error::LibraryError;
use crate::text::chars_of;

verus! {

/// A lifecycle operation on an intent.
#[derive(Clone, Copy, Debug, PartialEq, Eq, Structural)]
pub enum IntentTransition {
    Activate,
    Suspend,
    Retire,
}

impl IntentTransition {
    pub open spec fn spec_name(self) -> Seq<char> {
        match self {
            IntentTransition::Activate => "activate"@,
            IntentTransition::Suspend => "suspend"@,
            IntentTransition::Retire => "retire"@,
        }
    }

    pub fn as_str(self) -> (r: &'static str)
        ensures
            r@ == self.spec_name(),
    {
        match self {
            IntentTransition::Activate => "activate",
            IntentTransition::Suspend => "suspend",
            IntentTransition::Retire => "retire",
        }
    }
}

/// The lifecycle status of an intent revision.
#[derive(Clone, Copy, Debug, PartialEq, Eq, Structural)]
pub enum IntentStatus {
    Proposed,
    Active,
    Suspended,
    Superseded,
    Retired,
}

impl IntentStatus {
    pub open spec fn spec_name(self) -> Seq<char> {
        match self {
            IntentStatus::Proposed => "proposed"@,
            IntentStatus::Active => "active"@,
            IntentStatus::Suspended => "suspended"@,
            IntentStatus::Superseded => "superseded"@,
            IntentStatus::Retired => "retired"@,
        }
    }
}

/// The persisted name of an intent status.
pub fn intent_status_str(status: IntentStatus) -> (r: &'static str)
    ensures
        r@ == status.spec_name(),
{
    match status {
        IntentStatus::Proposed => "proposed",
        IntentStatus::Active => "active",
        IntentStatus::Suspended => "suspended",
        IntentStatus::Superseded => "superseded",
        IntentStatus::Retired => "retired",
    }
}

/// The status that a persisted name denotes.
pub open spec fn status_named(name: Seq<char>) -> Option<IntentStatus> {
    if name == "proposed"@ {
        Some(IntentStatus::Proposed)
    } else if name == "active"@ {
        Some(IntentStatus::Active)
    } else if name == "suspended"@ {
        Some(IntentStatus::Suspended)
    } else if name == "superseded"@ {
        Some(IntentStatus::Superseded)
    } else if name == "retired"@ {
        Some(IntentStatus::Retired)
    } else {
        None
    }
}

fn str_eq(a: &str, b: &str) -> (r: bool)
    ensures
        r == (a@ == b@),
{
    let x = chars_of(a);
    let y = chars_of(b);
    crate::text::chars_eq(&x, &y)
}

/// Reads a persisted intent status; an unknown name is corruption.
pub fn parse_intent_status(value: &str) -> (r: Result<IntentStatus, LibraryError>)
    ensures
        match status_named(value@) {
            Some(s) => r == Ok::<IntentStatus, LibraryError>(s),
            None => r matches Err(e) && e is Corrupt,
        },
{
    if str_eq(value, "proposed") {
        Ok(IntentStatus::Proposed)
    } else if str_eq(value, "active") {
        Ok(IntentStatus::Active)
    } else if str_eq(value, "suspended") {
        Ok(IntentStatus::Suspended)
    } else if str_eq(value, "superseded") {
        Ok(IntentStatus::Superseded)
    } else if str_eq(value, "retired") {
        Ok(IntentStatus::Retired)
    } else {
        Err(LibraryError::Corrupt("unknown persisted intent status".to_string()))
    }
}

/// The status an intent moves to under a transition, when it is legal:
/// activation from proposed or suspended, suspension from active, and
/// retirement from any status but superseded and retired.
pub open spec fn next_status(current: IntentStatus, transition: IntentTransition) -> Option<IntentStatus> {
    match (current, transition) {
        (IntentStatus::Proposed, IntentTransition::Activate) => Some(IntentStatus::Active),
        (IntentStatus::Suspended, IntentTransition::Activate) => Some(IntentStatus::Active),
        (IntentStatus::Active, IntentTransition::Suspend) => Some(IntentStatus::Suspended),
        (IntentStatus::Proposed, IntentTransition::Retire) => Some(IntentStatus::Retired),
        (IntentStatus::Active, IntentTransition::Retire) => Some(IntentStatus::Retired),
        (IntentStatus::Suspended, IntentTransition::Retire) => Some(IntentStatus::Retired),
        _ => None,
    }
}

/// Applies a lifecycle transition; an illegal one names the status and the
/// operation.
pub fn transition_status(current: IntentStatus, transition: IntentTransition) -> (r: Result<IntentStatus, LibraryError>)
    ensures
        match next_status(current, transition) {
            Some(s) => r == Ok::<IntentStatus, LibraryError>(s),
            None => r matches Err(LibraryError::InvalidTransition { from, operation }) && from@ == current.spec_name()
                && operation@ == transition.spec_name(),
        },
{
    match (current, transition) {
        (IntentStatus::Proposed, IntentTransition::Activate) | (IntentStatus::Suspended, IntentTransition::Activate) => Ok(IntentStatus::Active),
        (IntentStatus::Active, IntentTransition::Suspend) => Ok(IntentStatus::Suspended),
        (IntentStatus::Proposed, IntentTransition::Retire) | (IntentStatus::Active, IntentTransition::Retire) | (IntentStatus::Suspended, IntentTransition::Retire) => Ok(IntentStatus::Retired),
        _ => Err(LibraryError::InvalidTransition {
            from: intent_status_str(current).to_string(),
            operation: transition.as_str().to_string(),
        }),
    }
}

/// The lifecycle laws: retired and superseded intents are terminal; no
/// transition produces a proposed or superseded intent; every transition
/// lands in the status it names; and retirement, once legal, is legal from
/// every live status.
pub proof fn law_intent_lifecycle(current: IntentStatus, transition: IntentTransition)
    ensures
        (current is Retired || current is Superseded) ==> next_status(current, transition) is None,
        next_status(current, transition) matches Some(s) ==> !(s is Proposed) && !(s is Superseded),
        next_status(current, transition) matches Some(s) ==> match transition {
            IntentTransition::Activate => s is Active,
            IntentTransition::Suspend => s is Suspended,
            IntentTransition::Retire => s is Retired,
        },
        (current is Proposed || current is Active || current is Suspended) ==> next_status(current, IntentTransition::Retire) == Some(IntentStatus::Retired),
        next_status(current, transition) matches Some(s) ==> s != current,
{
}

/// The kind of a lifecycle record.
#[derive(Clone, Copy, Debug, PartialEq, Eq, Structural)]
pub enum LifecycleRecordKind {
    DesiredState,
    Provenance,
    ApprovalReference,
    AuditReference,
    Reconciliation,
}

impl LifecycleRecordKind {
    pub open spec fn spec_name(self) -> Seq<char> {
        match self {
            LifecycleRecordKind::DesiredState => "desired-state"@,
            LifecycleRecordKind::Provenance => "provenance"@,
            LifecycleRecordKind::ApprovalReference => "approval-reference"@,
            LifecycleRecordKind::AuditReference => "audit-reference"@,
            LifecycleRecordKind::Reconciliation => "reconciliation"@,
        }
    }

    pub fn as_str(self) -> (r: &'static str)
        ensures
            r@ == self.spec_name(),
    {
        match self {
            LifecycleRecordKind::DesiredState => "desired-state",
            LifecycleRecordKind::Provenance => "provenance",
            LifecycleRecordKind::ApprovalReference => "approval-reference",
            LifecycleRecordKind::AuditReference => "audit-reference",
            LifecycleRecordKind::Reconciliation => "reconciliation",
        }
    }
}

/// The record kind that a persisted name denotes.
pub open spec fn lifecycle_kind_named(name: Seq<char>) -> Option<LifecycleRecordKind> {
    if name == "desired-state"@ {
        Some(LifecycleRecordKind::DesiredState)
    } else if name == "provenance"@ {
        Some(LifecycleRecordKind::Provenance)
    } else if name == "approval-reference"@ {
        Some(LifecycleRecordKind::ApprovalReference)
    } else if name == "audit-reference"@ {
        Some(LifecycleRecordKind::AuditReference)
    } else if name == "reconciliation"@ {
        Some(LifecycleRecordKind::Reconciliation)
    } else {
        None
    }
}

/// Reads a persisted lifecycle record kind; an unknown name is corruption.
pub fn parse_lifecycle_kind(value: &str) -> (r: Result<LifecycleRecordKind, LibraryError>)
    ensures
        match lifecycle_kind_named(value@) {
            Some(k) => r == Ok::<LifecycleRecordKind, LibraryError>(k),
            None => r matches Err(e) && e is Corrupt,
        },
{
    if str_eq(value, "desired-state") {
        Ok(LifecycleRecordKind::DesiredState)
    } else if str_eq(value, "provenance") {
        Ok(LifecycleRecordKind::Provenance)
    } else if str_eq(value, "approval-reference") {
        Ok(LifecycleRecordKind::ApprovalReference)
    } else if str_eq(value, "audit-reference") {
        Ok(LifecycleRecordKind::AuditReference)
    } else if str_eq(value, "reconciliation") {
        Ok(LifecycleRecordKind::Reconciliation)
    } else {
        Err(LibraryError::Corrupt("unknown persisted lifecycle record kind".to_string()))
    }
}

/// Persisted names read back as what was written: parsing the name of a
/// status or of a record kind gives it back.
pub proof fn law_persisted_names_round_trip(status: IntentStatus, kind: LifecycleRecordKind)
    ensures
        status_named(status.spec_name()) == Some(status),
        lifecycle_kind_named(kind.spec_name()) == Some(kind),
{
    reveal_strlit("proposed");
    reveal_strlit("active");
    reveal_strlit("suspended");
    reveal_strlit("superseded");
    reveal_strlit("retired");
    reveal_strlit("desired-state");
    reveal_strlit("provenance");
    reveal_strlit("approval-reference");
    reveal_strlit("audit-reference");
    reveal_strlit("reconciliation");
    assert("proposed"@[0] != "active"@[0]);
    assert("active"@[0] != "suspended"@[0]);
    assert("suspended"@[2] != "superseded"@[2]);
    assert("desired-state"@[0] != "provenance"@[0]);
    assert("approval-reference"@[1] != "audit-reference"@[1]);
}

/// One append-only lifecycle record of a Library entity.
#[derive(Clone, Debug, PartialEq, Eq)]
pub struct LifecycleRecord {
    pub sequence: u64,
    pub kind: LifecycleRecordKind,
    pub entity_id: String,
    pub content_digest: String,
    pub payload: String,
}

/// How an accepted proposal changes the Library.
#[derive(Clone, Copy, Debug, PartialEq, Eq, Structural)]
pub enum ProposalAcceptanceAction {
    Create,
    ReviseProposed,
}

impl ProposalAcceptanceAction {
    pub open spec fn spec_name(self) -> Seq<char> {
        match self {
            ProposalAcceptanceAction::Create => "create"@,
            ProposalAcceptanceAction::ReviseProposed => "revise-proposed"@,
        }
    }

    pub fn as_str(self) -> (r: &'static str)
        ensures
            r@ == self.spec_name(),
    {
        match self {
            ProposalAcceptanceAction::Create => "create",
            ProposalAcceptanceAction::ReviseProposed => "revise-proposed",
        }
    }
}

/// One sample of trusted Control time.
#[derive(Clone, Copy, Debug, PartialEq, Eq, Structural)]
pub struct AuthorityTimeSample {
    pub unix_ms: u64,
    pub continuity_generation: u64,
    pub continuity_established: bool,
}

/// A source of trusted Control time; `None` means time cannot currently be
/// established, and acceptance then fails closed.
pub trait AcceptanceLinearizationClock {
    fn sample(&mut self) -> Option<AuthorityTimeSample>;
}

/// Library connection settings.
#[derive(Clone, Copy, Debug, PartialEq, Eq, Structural)]
pub struct LibrarySettings {
    pub busy_timeout_ms: u64,
}

impl Default for LibrarySettings {
    fn default() -> (r: Self)
        ensures
            r.busy_timeout_ms == 5000,
    {
        LibrarySettings { busy_timeout_ms: 5000 }
    }
}

} // verus!
