//! The decisions of the Library's write operations: idempotent replay of an
//! operation id, the revision and status checks of intent transitions and
//! supersession, the causal generation of recorded desired state, and the
//! texts hashed or recorded for them. The SQL statements run around these
//! decisions are the caller's.
use vstd::prelude::*;
use crate::library::checks::{ensure_revision, to_u64};
use crate::library::digest::{digest_fields, fields_digest};
use crate::library::drafts::{new_intent_ok, validate_new_intent};
use crate::library::error::LibraryError;
use crate::library::portable_writer::PortableIntent;
use crate::library::records::{IntentStatus, IntentTransition, next_status, transition_status};
use crate::num::{decimal, u64_decimal};
use crate::text::{chars_eq, chars_of, concat_str, string_of};

verus! {

/// The operation record already stored under an operation id: its semantic
/// digest, result kind, result id and result revision.
pub struct StoredOperation {
    pub semantic_digest: String,
    pub result_kind: String,
    pub result_id: String,
    pub result_revision: i64,
}

/// Replaying an operation id: an unused id proceeds; an id recorded with the
/// same digest and kind answers with its recorded result; any other record
/// under the id is an idempotency conflict.
pub fn replay_verdict(existing: Option<StoredOperation>, operation_id: &str, digest: &str, result_kind: &str)
    -> (r: Result<Option<(String, u64)>, LibraryError>)
    ensures
        match existing {
            None => r == Ok::<Option<(String, u64)>, LibraryError>(None),
            Some(op) => if op.semantic_digest@ == digest@ && op.result_kind@ == result_kind@ {
                if op.result_revision >= 0 {
                    r matches Ok(Some((id, rev))) && id@ == op.result_id@ && rev == op.result_revision
                } else {
                    r matches Err(e) && e is Corrupt
                }
            } else {
                r matches Err(LibraryError::IdempotencyConflict(id)) && id@ == operation_id@
            },
        },
{
    match existing {
        None => Ok(None),
        Some(op) => {
            let same_digest = chars_eq(&chars_of(op.semantic_digest.as_str()), &chars_of(digest));
            let same_kind = chars_eq(&chars_of(op.result_kind.as_str()), &chars_of(result_kind));
            if same_digest && same_kind {
                let revision = to_u64(op.result_revision)?;
                Ok(Some((op.result_id, revision)))
            } else {
                Err(LibraryError::IdempotencyConflict(string_of(&chars_of(operation_id))))
            }
        },
    }
}

/// `value + 1`, or a validation failure naming what overflowed.
fn increment(value: u64, overflow: &str) -> (r: Result<u64, LibraryError>)
    ensures
        value < u64::MAX ==> r == Ok::<u64, LibraryError>((value + 1) as u64),
        value == u64::MAX ==> (r matches Err(LibraryError::Validation(m)) && m@ == overflow@),
{
    if value == u64::MAX {
        return Err(LibraryError::Validation(string_of(&chars_of(overflow))));
    }
    Ok(value + 1)
}

/// The checks of an intent transition, in order: the caller expected the
/// current revision, the transition is legal from the current status, and
/// the next revision exists. Gives the new status and revision.
pub fn plan_transition(expected_revision: u64, actual_revision: u64, current: IntentStatus, transition: IntentTransition)
    -> (r: Result<(IntentStatus, u64), LibraryError>)
    ensures
        expected_revision != actual_revision ==> r == Err::<(IntentStatus, u64), LibraryError>(
            LibraryError::RevisionConflict { expected: expected_revision, actual: actual_revision },
        ),
        expected_revision == actual_revision && next_status(current, transition) is None ==> (r matches Err(
            LibraryError::InvalidTransition { from, operation },
        ) && from@ == current.spec_name() && operation@ == transition.spec_name()),
        expected_revision == actual_revision && next_status(current, transition) is Some && actual_revision == u64::MAX
            ==> (r matches Err(LibraryError::Validation(m)) && m@ == "intent revision overflow"@),
        expected_revision == actual_revision && next_status(current, transition) is Some && actual_revision < u64::MAX
            ==> r == Ok::<(IntentStatus, u64), LibraryError>((next_status(current, transition).unwrap(), (actual_revision + 1) as u64)),
{
    ensure_revision(expected_revision, actual_revision)?;
    let next = transition_status(current, transition)?;
    let revision = increment(actual_revision, "intent revision overflow")?;
    Ok((next, revision))
}

/// Whether `successor_supersedes` names `old_id`.
pub fn retains_lineage(successor_supersedes: &[String], old_id: &str) -> (r: bool)
    ensures
        r == exists|i: int| 0 <= i < successor_supersedes@.len() && (#[trigger] successor_supersedes@[i])@ == old_id@,
{
    let key = chars_of(old_id);
    let mut i: usize = 0;
    while i < successor_supersedes.len()
        invariant
            i <= successor_supersedes@.len(),
            key@ == old_id@,
            forall|j: int| 0 <= j < i ==> (#[trigger] successor_supersedes@[j])@ != old_id@,
        decreases successor_supersedes@.len() - i,
    {
        if chars_eq(&chars_of(successor_supersedes[i].as_str()), &key) {
            return true;
        }
        i = i + 1;
    }
    false
}

/// The message refusing a successor that does not name the intent it
/// supersedes.
pub open spec fn lineage_message(successor_id: Seq<char>, old_id: Seq<char>) -> Seq<char> {
    "successor "@ + successor_id + " must explicitly retain supersession lineage to "@ + old_id
}

/// A successor must list the intent it supersedes among its `supersedes`.
pub fn require_lineage(successor_id: &str, successor_supersedes: &[String], old_id: &str) -> (r: Result<(), LibraryError>)
    ensures
        r is Ok <==> exists|i: int| 0 <= i < successor_supersedes@.len() && (#[trigger] successor_supersedes@[i])@ == old_id@,
        r matches Err(e) ==> (e matches LibraryError::Validation(m) && m@ == lineage_message(successor_id@, old_id@)),
{
    if retains_lineage(successor_supersedes, old_id) {
        return Ok(());
    }
    let a = concat_str("successor ", successor_id);
    let b = concat_str(a.as_str(), " must explicitly retain supersession lineage to ");
    let message = concat_str(b.as_str(), old_id);
    Err(LibraryError::Validation(message))
}

/// The checks of a supersession, in order: the caller expected the old
/// intent's current revision, the old intent is neither superseded nor
/// retired, and its next revision exists. Gives the old intent's next
/// revision.
pub fn plan_supersession(expected_revision: u64, actual_revision: u64, old_status: IntentStatus) -> (r: Result<u64, LibraryError>)
    ensures
        expected_revision != actual_revision ==> r == Err::<u64, LibraryError>(
            LibraryError::RevisionConflict { expected: expected_revision, actual: actual_revision },
        ),
        expected_revision == actual_revision && (old_status == IntentStatus::Superseded || old_status == IntentStatus::Retired)
            ==> (r matches Err(LibraryError::InvalidTransition { from, operation }) && from@ == old_status.spec_name()
            && operation@ == "supersede"@),
        expected_revision == actual_revision && !(old_status == IntentStatus::Superseded || old_status == IntentStatus::Retired)
            && actual_revision == u64::MAX ==> (r matches Err(LibraryError::Validation(m)) && m@ == "intent revision overflow"@),
        expected_revision == actual_revision && !(old_status == IntentStatus::Superseded || old_status == IntentStatus::Retired)
            && actual_revision < u64::MAX ==> r == Ok::<u64, LibraryError>((actual_revision + 1) as u64),
{
    ensure_revision(expected_revision, actual_revision)?;
    if old_status == IntentStatus::Superseded || old_status == IntentStatus::Retired {
        return Err(LibraryError::InvalidTransition {
            from: string_of(&chars_of(crate::library::records::intent_status_str(old_status))),
            operation: string_of(&chars_of("supersede")),
        });
    }
    increment(actual_revision, "intent revision overflow")
}

/// The checks of recording desired state: the caller expected the intent's
/// current revision, and the next causal generation exists. Gives that
/// generation.
pub fn plan_desired_state(expected_revision: u64, actual_revision: u64, current_generation: u64) -> (r: Result<u64, LibraryError>)
    ensures
        expected_revision != actual_revision ==> r == Err::<u64, LibraryError>(
            LibraryError::RevisionConflict { expected: expected_revision, actual: actual_revision },
        ),
        expected_revision == actual_revision && current_generation == u64::MAX ==> (r matches Err(
            LibraryError::Validation(m),
        ) && m@ == "causal generation overflow"@),
        expected_revision == actual_revision && current_generation < u64::MAX ==> r == Ok::<u64, LibraryError>(
            (current_generation + 1) as u64,
        ),
{
    ensure_revision(expected_revision, actual_revision)?;
    increment(current_generation, "causal generation overflow")
}

/// The causal state that a new intent revision carries over: none when
/// the old revision had none, else generation 1 with the old completeness.
pub fn carried_causal_state(generation: u64, complete: bool) -> (r: (u64, bool))
    ensures
        generation == 0 ==> r == (0u64, false),
        generation != 0 ==> r == (1u64, complete),
{
    if generation == 0 {
        (0, false)
    } else {
        (1, complete)
    }
}

pub open spec fn bool_text(b: bool) -> Seq<char> {
    if b {
        "true"@
    } else {
        "false"@
    }
}

/// The lifecycle payload recorded with desired state.
pub open spec fn desired_state_text(intent_id: Seq<char>, revision: u64, generation: u64, resources: nat, complete: bool) -> Seq<char> {
    "intent="@ + intent_id + " revision="@ + decimal(revision as nat) + " generation="@ + decimal(generation as nat)
        + " resources="@ + decimal(resources) + " ownership_complete="@ + bool_text(complete)
}

fn push_str(out: &mut Vec<char>, s: &str)
    ensures
        final(out)@ == old(out)@ + s@,
{
    let mut c = chars_of(s);
    out.append(&mut c);
}

fn push_chars(out: &mut Vec<char>, mut c: Vec<char>)
    ensures
        final(out)@ == old(out)@ + c@,
{
    out.append(&mut c);
}

pub fn desired_state_payload(intent_id: &str, revision: u64, generation: u64, resources: usize, complete: bool) -> (r: String)
    ensures
        r@ == desired_state_text(intent_id@, revision, generation, resources as nat, complete),
{
    let mut out: Vec<char> = Vec::new();
    push_str(&mut out, "intent=");
    push_str(&mut out, intent_id);
    push_str(&mut out, " revision=");
    push_chars(&mut out, u64_decimal(revision));
    push_str(&mut out, " generation=");
    push_chars(&mut out, u64_decimal(generation));
    push_str(&mut out, " resources=");
    push_chars(&mut out, u64_decimal(resources as u64));
    push_str(&mut out, " ownership_complete=");
    if complete {
        push_str(&mut out, "true");
    } else {
        push_str(&mut out, "false");
    }
    proof {
        reveal_strlit("true");
        reveal_strlit("false");
    }
    assert(out@ =~= desired_state_text(intent_id@, revision, generation, resources as nat, complete));
    string_of(&out)
}

/// The semantic digest of an intent transition request.
pub open spec fn transition_digest(operation_id: Seq<char>, id: Seq<char>, expected_revision: u64, transition: IntentTransition) -> Seq<char> {
    fields_digest(seq!["transition-intent"@, operation_id, id, decimal(expected_revision as nat), transition.spec_name()])
}

pub fn transition_operation_digest(operation_id: &str, id: &str, expected_revision: u64, transition: IntentTransition) -> (r: String)
    ensures
        r@ == transition_digest(operation_id@, id@, expected_revision, transition),
{
    let revision = string_of(&u64_decimal(expected_revision));
    let fields: Vec<&str> = vec!["transition-intent", operation_id, id, revision.as_str(), transition.as_str()];
    let d = digest_fields(fields.as_slice());
    assert(fields@.map_values(|s: &str| s@) =~= seq!["transition-intent"@, operation_id@, id@, decimal(expected_revision as nat), transition.spec_name()]);
    d
}

/// What a supersession writes: the old intent's next revision, marked
/// superseded, and the successor's first revision.
pub struct SupersessionWrites {
    pub old_next: PortableIntent,
    pub successor: PortableIntent,
    pub from_status: IntentStatus,
}

/// `supersedes` names `id`.
pub open spec fn names_intent(supersedes: Seq<String>, id: Seq<char>) -> bool {
    exists|i: int| 0 <= i < supersedes.len() && (#[trigger] supersedes[i])@ == id
}

/// Plans the supersession of intent `old_id`, at `expected_revision`, by
/// `successor`, for a request that is not a replay. `successor_exists`
/// says whether an intent with the successor's identity is stored;
/// `current` is the current revision of `old_id`, if it exists. The
/// checks, in order: the successor is a sound new intent, it names
/// `old_id` among what it supersedes, its identity is new, the old intent
/// exists at the expected revision, is neither superseded nor retired, and
/// has a next revision. The writes: the old intent unchanged but for its
/// status, superseded, at its next revision; and the successor at
/// revision 1.
pub fn plan_supersede(
    old_id: &str,
    expected_revision: u64,
    successor: PortableIntent,
    successor_exists: bool,
    current: Option<PortableIntent>,
) -> (r: Result<SupersessionWrites, LibraryError>)
    ensures
        !new_intent_ok(successor) ==> (r matches Err(e) && e is Validation),
        new_intent_ok(successor) && !names_intent(successor.supersedes@, old_id@) ==> (r matches Err(LibraryError::Validation(m))
            && m@ == lineage_message(successor.id@, old_id@)),
        new_intent_ok(successor) && names_intent(successor.supersedes@, old_id@) ==> {
            if successor_exists {
                r matches Err(LibraryError::AlreadyExists { kind, id }) && kind@ == "successor intent"@ && id@ == successor.id@
            } else {
                match current {
                    None => r matches Err(LibraryError::NotFound { kind, id }) && kind@ == "intent"@ && id@ == old_id@,
                    Some(c) => if c.revision != expected_revision {
                        r == Err::<SupersessionWrites, LibraryError>(
                            LibraryError::RevisionConflict { expected: expected_revision, actual: c.revision },
                        )
                    } else if c.status == IntentStatus::Superseded || c.status == IntentStatus::Retired {
                        r matches Err(LibraryError::InvalidTransition { from, operation }) && from@ == c.status.spec_name()
                            && operation@ == "supersede"@
                    } else if c.revision == u64::MAX {
                        r matches Err(LibraryError::Validation(m)) && m@ == "intent revision overflow"@
                    } else {
                        r matches Ok(w) && w.from_status == c.status
                            && w.old_next == (PortableIntent { status: IntentStatus::Superseded, revision: (c.revision + 1) as u64, ..c })
                            && w.successor == (PortableIntent { revision: 1, ..successor })
                    },
                }
            }
        },
{
    if let Err(e) = validate_new_intent(&successor) {
        return Err(e);
    }
    if let Err(e) = require_lineage(successor.id.as_str(), successor.supersedes.as_slice(), old_id) {
        return Err(e);
    }
    if successor_exists {
        return Err(LibraryError::AlreadyExists { kind: "successor intent", id: successor.id.clone() });
    }
    let c = match current {
        Some(c) => c,
        None => return Err(LibraryError::NotFound { kind: "intent", id: string_of(&chars_of(old_id)) }),
    };
    let next = match plan_supersession(expected_revision, c.revision, c.status) {
        Ok(n) => n,
        Err(e) => return Err(e),
    };
    let from_status = c.status;
    let old_next = PortableIntent { status: IntentStatus::Superseded, revision: next, ..c };
    let successor = PortableIntent { revision: 1, ..successor };
    Ok(SupersessionWrites { old_next, successor, from_status })
}

/// Every desired resource keeps the owning intent in its provenance: each
/// list of intent identities names `intent_id`.
pub open spec fn provenance_retained(intent_id: Seq<char>, reasons: Seq<Vec<String>>) -> bool {
    forall|k: int| 0 <= k < reasons.len() ==> names_intent((#[trigger] reasons[k])@, intent_id)
}

/// Refuses desired state whose provenance leaves out the owning intent:
/// `reasons` holds, per desired resource, the intent identities of its
/// semantic provenance.
pub fn require_provenance(intent_id: &str, reasons: &Vec<Vec<String>>) -> (r: Result<(), LibraryError>)
    ensures
        r is Ok <==> provenance_retained(intent_id@, reasons@),
        r matches Err(e) ==> e is Validation,
{
    let mut k: usize = 0;
    while k < reasons.len()
        invariant
            k <= reasons@.len(),
            forall|a: int| 0 <= a < k ==> names_intent((#[trigger] reasons@[a])@, intent_id@),
        decreases reasons@.len() - k,
    {
        if !retains_lineage(reasons[k].as_slice(), intent_id) {
            assert(!names_intent(reasons@[k as int]@, intent_id@));
            return Err(LibraryError::Validation(string_of(&chars_of(
                "desired resource does not retain its owning intent in semantic provenance",
            ))));
        }
        k = k + 1;
    }
    Ok(())
}

} // verus!
