//! The migration runner's decisions. A run is a sequence of steps: the
//! runner says what to do next ([`RunAction`]), the caller does it (file
//! locking and ledger I/O, backup checks, and the migration's own
//! precondition, apply, verify and rollback) and reports the result back
//! ([`RunEvent`]). The runner keeps the ledger, the latched recovery
//! requirement and the in-progress recovery record.
use vstd::prelude::*;
use crate::migration::descriptor::{error_text, MigrationDescriptor, MigrationError, MigrationOutcome};
use crate::migration::ledger::MigrationLedger;
use crate::migration::recovery::{checkpoint_of, checkpoint_valid, MigrationRecoveryCheckpoint, MigrationRecoveryRecord, RecordView, ValidatedBackup};
use crate::text::concat_str;

verus! {

/// A migration: its descriptor, the check whether it applies, its effect,
/// the verification of the effect and, for reversible migrations, its
/// rollback.
pub trait Migration {
    fn descriptor(&self) -> &MigrationDescriptor;

    fn precondition(&self) -> Result<bool, MigrationError>;

    fn apply(&self) -> Result<(), MigrationError>;

    fn verify(&self) -> Result<(), MigrationError>;

    /// The exact regular file whose pre-migration bytes the recovery backup
    /// holds. Risky file-backed migrations must name it.
    fn recovery_target(&self) -> (r: Option<Vec<u8>>)
        default_ensures
            r is None,
    {
        None
    }

    fn rollback(&self) -> (r: Result<(), MigrationError>)
        default_ensures
            r matches Err(e) && e is ManualRecoveryRequired,
    {
        Err(MigrationError::ManualRecoveryRequired(self.descriptor().id.clone()))
    }
}

/// Where the durable ledger lives; its lock file and recovery marker are
/// siblings of it.
#[derive(Clone, Debug, PartialEq, Eq)]
pub struct MigrationLedgerStore {
    path: Vec<u8>,
}

impl MigrationLedgerStore {
    pub closed spec fn spec_path(&self) -> Seq<u8> {
        self.path@
    }

    pub fn new(path: Vec<u8>) -> (r: Self)
        ensures
            r.spec_path() == path@,
    {
        MigrationLedgerStore { path }
    }

    pub fn path(&self) -> (r: &[u8])
        ensures
            r@ == self.spec_path(),
    {
        self.path.as_slice()
    }
}

/// Where a run stands: which result the runner waits for.
#[derive(Clone, Copy, Debug, PartialEq, Eq, Structural)]
pub enum RunPhase {
    Start,
    AwaitLoad,
    AwaitReconcile,
    AwaitPrecondition,
    AwaitHold,
    AwaitRecordPersist,
    AwaitStable,
    AwaitApply,
    AwaitVerify,
    AwaitRollback,
    AwaitLedgerPersist,
    AwaitMarkerClear,
    Finished,
}

/// Why a rollback or marker cleanup is under way.
#[derive(Clone, Debug)]
pub enum Unwind {
    Commit,
    VerifyFailed(MigrationError),
    PersistFailed(MigrationError),
}

/// What the caller must do next.
#[derive(Debug)]
pub enum RunAction {
    Finish(Result<MigrationOutcome, MigrationError>),
    AcquireAndLoad,
    ReconcileMarker,
    CheckPrecondition,
    HoldBackup(Vec<u8>),
    PersistRecord(MigrationRecoveryRecord),
    AssertStable,
    Apply,
    Verify,
    Rollback,
    PersistLedger(MigrationLedger),
    ClearMarker,
}

/// What the caller reports back.
#[derive(Debug)]
pub enum RunEvent {
    Begin,
    Loaded(Result<MigrationLedger, MigrationError>),
    Reconciled(Result<Option<MigrationRecoveryRecord>, MigrationError>),
    Precondition(Result<bool, MigrationError>),
    Held(Result<(), MigrationError>),
    RecordPersisted(Result<(), MigrationError>),
    Stable(Result<(), MigrationError>),
    Applied(Result<(), MigrationError>),
    Verified(Result<(), MigrationError>),
    RolledBack(Result<(), MigrationError>),
    LedgerPersisted(Result<(), MigrationError>),
    MarkerCleared(Result<(), MigrationError>),
}

/// The event that each phase waits for.
pub open spec fn expects(phase: RunPhase, event: RunEvent) -> bool {
    match phase {
        RunPhase::Start => event is Begin,
        RunPhase::AwaitLoad => event is Loaded,
        RunPhase::AwaitReconcile => event is Reconciled,
        RunPhase::AwaitPrecondition => event is Precondition,
        RunPhase::AwaitHold => event is Held,
        RunPhase::AwaitRecordPersist => event is RecordPersisted,
        RunPhase::AwaitStable => event is Stable,
        RunPhase::AwaitApply => event is Applied,
        RunPhase::AwaitVerify => event is Verified,
        RunPhase::AwaitRollback => event is RolledBack,
        RunPhase::AwaitLedgerPersist => event is LedgerPersisted,
        RunPhase::AwaitMarkerClear => event is MarkerCleared,
        RunPhase::Finished => false,
    }
}

/// One run of one migration.
#[derive(Debug)]
pub struct MigrationRun {
    descriptor: MigrationDescriptor,
    target: Option<Vec<u8>>,
    backup: Option<ValidatedBackup>,
    phase: RunPhase,
    record: Option<MigrationRecoveryRecord>,
    next_ledger: Option<MigrationLedger>,
    unwind: Unwind,
}

impl MigrationRun {
    pub closed spec fn spec_phase(&self) -> RunPhase {
        self.phase
    }

    pub closed spec fn spec_id(&self) -> Seq<char> {
        self.descriptor.id@
    }

    pub closed spec fn spec_reversible(&self) -> bool {
        self.descriptor.reversible
    }

    pub closed spec fn spec_requires_snapshot(&self) -> bool {
        self.descriptor.requires_snapshot
    }

    pub closed spec fn spec_has_target(&self) -> bool {
        self.target is Some
    }

    pub closed spec fn spec_has_backup(&self) -> bool {
        self.backup is Some
    }

    pub closed spec fn spec_descriptor_valid(&self) -> bool {
        self.descriptor.spec_valid()
    }

    pub closed spec fn spec_target(&self) -> Seq<u8> {
        self.target.unwrap()@
    }

    pub closed spec fn spec_backup(&self) -> crate::migration::recovery::BackupView {
        self.backup.unwrap()@
    }

    pub closed spec fn spec_unwind(&self) -> Unwind {
        self.unwind
    }

    pub closed spec fn spec_next_ledger(&self) -> Seq<Seq<char>> {
        self.next_ledger.unwrap()@
    }

    pub closed spec fn spec_pending_record(&self) -> RecordView {
        self.record.unwrap()@
    }

    /// What each phase relies on: past admission the descriptor is valid,
    /// a record awaiting persistence is held, and so is a ledger awaiting
    /// persistence.
    pub closed spec fn spec_wf(&self) -> bool {
        &&& (!(self.phase is Start || self.phase is AwaitLoad || self.phase is AwaitReconcile || self.phase is Finished)
            ==> self.descriptor.spec_valid())
        &&& (self.phase is AwaitRecordPersist ==> self.record is Some && self.record.unwrap()@ == run_record(self))
        &&& (self.phase is AwaitLedgerPersist ==> self.next_ledger is Some)
        &&& (self.phase is AwaitHold ==> self.backup is Some && self.descriptor.requires_snapshot)
    }

    /// A run of `descriptor`, with the migration's recovery target and the
    /// backup offered for it.
    pub fn new(descriptor: MigrationDescriptor, target: Option<Vec<u8>>, backup: Option<ValidatedBackup>) -> (r: Self)
        ensures
            r.spec_phase() == RunPhase::Start,
            r.spec_id() == descriptor.id@,
            r.spec_reversible() == descriptor.reversible,
            r.spec_requires_snapshot() == descriptor.requires_snapshot,
            r.spec_has_target() == target is Some,
            r.spec_has_backup() == backup is Some,
            r.spec_wf(),
    {
        MigrationRun { descriptor, target, backup, phase: RunPhase::Start, record: None, next_ledger: None, unwind: Unwind::Commit }
    }

    pub fn phase(&self) -> (r: RunPhase)
        ensures
            r == self.spec_phase(),
    {
        self.phase
    }

    /// The backup offered for the run, which the caller holds and checks
    /// when the runner asks for it.
    pub fn backup(&self) -> (r: Option<&ValidatedBackup>)
        ensures
            r is Some == self.spec_has_backup(),
            r matches Some(b) ==> b@ == self.spec_backup(),
    {
        match &self.backup {
            Some(b) => Some(b),
            None => None,
        }
    }
}

/// Runs migrations against a ledger, durably when it has a store, and
/// refuses further work once recovery is required.
#[derive(Debug)]
pub struct MigrationRunner {
    ledger: MigrationLedger,
    store: Option<MigrationLedgerStore>,
    recovery_required: Option<String>,
    recovery_record: Option<MigrationRecoveryRecord>,
}

pub open spec fn record_reason(id: Seq<char>) -> Seq<char> {
    "persisted recovery record for migration "@ + id
}

pub open spec fn manual_reason(id: Seq<char>) -> Seq<char> {
    "migration "@ + id + " requires manual recovery"@
}

pub open spec fn cleanup_reason(e: MigrationError) -> Seq<char> {
    "migration recovery marker cleanup is uncertain: "@ + error_text(e)
}

pub open spec fn reconcile_reason(e: MigrationError) -> Seq<char> {
    "migration recovery marker reconciliation is durability-uncertain: "@ + error_text(e)
}

pub open spec fn uncertain_record_reason(id: Seq<char>) -> Seq<char> {
    id + ": durable in-progress recovery record is uncertain"@
}

impl MigrationRunner {
    pub closed spec fn spec_ledger(&self) -> Seq<Seq<char>> {
        self.ledger@
    }

    pub closed spec fn spec_durable(&self) -> bool {
        self.store is Some
    }

    pub closed spec fn spec_latched(&self) -> Option<Seq<char>> {
        match self.recovery_required {
            Some(r) => Some(r@),
            None => None,
        }
    }

    pub closed spec fn spec_record(&self) -> Option<RecordView> {
        match self.recovery_record {
            Some(r) => Some(r@),
            None => None,
        }
    }

    /// An in-memory runner over `ledger`.
    pub fn new(ledger: MigrationLedger) -> (r: Self)
        ensures
            r.spec_ledger() == ledger@,
            !r.spec_durable(),
            r.spec_latched() is None,
            r.spec_record() is None,
    {
        MigrationRunner { ledger, store: None, recovery_required: None, recovery_record: None }
    }

    /// A durable runner over the ledger loaded from `store`; a recovery
    /// record left behind by an unfinished migration latches recovery.
    pub fn opened(store: MigrationLedgerStore, ledger: MigrationLedger, record: Option<MigrationRecoveryRecord>) -> (r: Self)
        ensures
            r.spec_ledger() == ledger@,
            r.spec_durable(),
            match record {
                Some(rec) => r.spec_latched() == Some(record_reason(rec@.migration_id)) && r.spec_record() == Some(rec@),
                None => r.spec_latched() is None && r.spec_record() is None,
            },
    {
        let recovery_required = match &record {
            Some(rec) => Some(concat_str("persisted recovery record for migration ", rec.migration_id())),
            None => None,
        };
        MigrationRunner { ledger, store: Some(store), recovery_required, recovery_record: record }
    }

    pub fn ledger(&self) -> (r: &MigrationLedger)
        ensures
            r@ == self.spec_ledger(),
    {
        &self.ledger
    }

    pub fn store(&self) -> (r: Option<&MigrationLedgerStore>)
        ensures
            r is Some == self.spec_durable(),
    {
        match &self.store {
            Some(s) => Some(s),
            None => None,
        }
    }

    pub fn requires_recovery(&self) -> (r: bool)
        ensures
            r == self.spec_latched() is Some,
    {
        self.recovery_required.is_some()
    }

    pub fn recovery_record(&self) -> (r: Option<&MigrationRecoveryRecord>)
        ensures
            match r {
                Some(rec) => self.spec_record() == Some(rec@),
                None => self.spec_record() is None,
            },
    {
        match &self.recovery_record {
            Some(rec) => Some(rec),
            None => None,
        }
    }

    fn latch_recovery(&mut self, reason: String)
        ensures
            final(self).spec_latched() == Some(reason@),
            final(self).spec_ledger() == old(self).spec_ledger(),
            final(self).spec_durable() == old(self).spec_durable(),
            final(self).spec_record() == old(self).spec_record(),
    {
        self.recovery_required = Some(reason);
    }

    /// Latches recovery for `id` unless it is latched already, and reports
    /// that manual recovery is required.
    fn manual_recovery_error(&mut self, id: &String) -> (e: MigrationError)
        ensures
            e matches MigrationError::ManualRecoveryRequired(x) && x@ == id@,
            final(self).spec_latched() == Some(manual_reason(id@)),
            final(self).spec_ledger() == old(self).spec_ledger(),
            final(self).spec_durable() == old(self).spec_durable(),
            final(self).spec_record() == old(self).spec_record(),
    {
        let a = concat_str("migration ", id.as_str());
        let reason = concat_str(a.as_str(), " requires manual recovery");
        self.latch_recovery(reason);
        MigrationError::ManualRecoveryRequired(id.clone())
    }

    fn cleanup_failure(&mut self, error: MigrationError) -> (r: RunAction)
        ensures
            r matches RunAction::Finish(Err(MigrationError::DurabilityUncertain(m))) && m@ == cleanup_reason(error),
            final(self).spec_latched() == Some(cleanup_reason(error)),
            final(self).spec_ledger() == old(self).spec_ledger(),
            final(self).spec_durable() == old(self).spec_durable(),
            final(self).spec_record() == old(self).spec_record(),
    {
        let text = error.to_string();
        let reason = concat_str("migration recovery marker cleanup is uncertain: ", text.as_str());
        let reported = reason.clone();
        self.latch_recovery(reason);
        RunAction::Finish(Err(MigrationError::DurabilityUncertain(reported)))
    }
}

/// The ledger with `id` added, as a set of identifiers.
pub open spec fn with_applied(ledger: Seq<Seq<char>>, id: Seq<char>) -> Set<Seq<char>> {
    ledger.to_set().insert(id)
}

/// What a run does once it may look at the migration: an invalid
/// descriptor is refused, an applied migration is done, and otherwise the
/// precondition is checked.
pub open spec fn admission_ok(runner: &MigrationRunner, old_run: &MigrationRun, run: &MigrationRun, action: RunAction) -> bool {
    if !old_run.spec_descriptor_valid() {
        action matches RunAction::Finish(Err(e)) && e is InvalidDescriptor && run.spec_phase() == RunPhase::Finished
    } else if runner.spec_ledger().contains(old_run.spec_id()) {
        action matches RunAction::Finish(Ok(o)) && o == MigrationOutcome::AlreadyApplied && run.spec_phase() == RunPhase::Finished
    } else {
        action is CheckPrecondition && run.spec_phase() == RunPhase::AwaitPrecondition
    }
}

/// The record that a run persists before its effect.
pub open spec fn run_record(run: &MigrationRun) -> RecordView {
    RecordView {
        migration_id: run.spec_id(),
        checkpoint: if run.spec_requires_snapshot() {
            Some(checkpoint_of(run.spec_backup()))
        } else {
            None
        },
    }
}

impl MigrationRunner {
    fn admission(&self, run: &mut MigrationRun) -> (r: RunAction)
        requires
            old(run).spec_phase() != RunPhase::Finished,
            old(run).spec_wf(),
        ensures
            final(run).spec_wf(),
            admission_ok(self, old(run), final(run), r),
            final(run).spec_id() == old(run).spec_id(),
            final(run).spec_reversible() == old(run).spec_reversible(),
            final(run).spec_requires_snapshot() == old(run).spec_requires_snapshot(),
            final(run).spec_has_target() == old(run).spec_has_target(),
            final(run).spec_has_backup() == old(run).spec_has_backup(),
            final(run).spec_descriptor_valid() == old(run).spec_descriptor_valid(),
            final(run).spec_target() == old(run).spec_target(),
            final(run).spec_backup() == old(run).spec_backup(),
            final(run).spec_unwind() == old(run).spec_unwind(),
    {
        match run.descriptor.validate() {
            Ok(()) => {},
            Err(e) => {
                run.phase = RunPhase::Finished;
                return RunAction::Finish(Err(e));
            },
        }
        if self.ledger.is_applied(run.descriptor.id.as_str()) {
            run.phase = RunPhase::Finished;
            return RunAction::Finish(Ok(MigrationOutcome::AlreadyApplied));
        }
        run.phase = RunPhase::AwaitPrecondition;
        RunAction::CheckPrecondition
    }

    fn after_record(&mut self, run: &mut MigrationRun, record: Result<MigrationRecoveryRecord, MigrationError>) -> (r: RunAction)
        requires
            old(run).spec_wf(),
            old(run).spec_descriptor_valid(),
            record matches Ok(rec) ==> rec@ == run_record(old(run)),
            old(run).spec_requires_snapshot() ==> old(run).spec_has_backup(),
        ensures
            final(run).spec_wf(),
            final(run).spec_id() == old(run).spec_id(),
            final(run).spec_unwind() == old(run).spec_unwind(),
            final(self).spec_ledger() == old(self).spec_ledger(),
            final(self).spec_latched() == old(self).spec_latched(),
            final(self).spec_durable() == old(self).spec_durable(),
            final(self).spec_record() == old(self).spec_record(),
            r is Finish <==> final(run).spec_phase() == RunPhase::Finished,
            match record {
                Err(e) => r == RunAction::Finish(Err(e)),
                Ok(rec) => if old(self).spec_durable() {
                    (r matches RunAction::PersistRecord(x) && x@ == rec@) && final(run).spec_phase() == RunPhase::AwaitRecordPersist
                } else if old(run).spec_requires_snapshot() {
                    r is AssertStable && final(run).spec_phase() == RunPhase::AwaitStable
                } else {
                    r is Apply && final(run).spec_phase() == RunPhase::AwaitApply
                },
            },
    {
        match record {
            Err(e) => {
                run.phase = RunPhase::Finished;
                RunAction::Finish(Err(e))
            },
            Ok(rec) => {
                if self.store.is_some() {
                    let sent = rec.clone();
                    run.record = Some(rec);
                    run.phase = RunPhase::AwaitRecordPersist;
                    RunAction::PersistRecord(sent)
                } else if run.descriptor.requires_snapshot {
                    run.phase = RunPhase::AwaitStable;
                    RunAction::AssertStable
                } else {
                    run.phase = RunPhase::AwaitApply;
                    RunAction::Apply
                }
            },
        }
    }

    fn unwound(&mut self, run: &MigrationRun) -> (r: RunAction)
        ensures
            final(self).spec_ledger() == old(self).spec_ledger(),
            final(self).spec_latched() == old(self).spec_latched(),
            final(self).spec_durable() == old(self).spec_durable(),
            r is Finish,
            match run.spec_unwind() {
                Unwind::Commit => r == RunAction::Finish(Ok(MigrationOutcome::Applied)) && final(self).spec_record() is None,
                Unwind::VerifyFailed(e) => (r matches RunAction::Finish(Err(MigrationError::VerificationFailed { migration_id, reason }))
                    && migration_id@ == run.spec_id() && reason@ == error_text(e)) && final(self).spec_record() == old(self).spec_record(),
                Unwind::PersistFailed(e) => (r matches RunAction::Finish(Err(MigrationError::LedgerCommitFailed { migration_id, reason }))
                    && migration_id@ == run.spec_id() && reason@ == error_text(e)) && final(self).spec_record() is None,
            },
    {
        match &run.unwind {
            Unwind::Commit => {
                self.recovery_record = None;
                RunAction::Finish(Ok(MigrationOutcome::Applied))
            },
            Unwind::VerifyFailed(e) => RunAction::Finish(Err(MigrationError::VerificationFailed {
                migration_id: run.descriptor.id.clone(),
                reason: e.to_string(),
            })),
            Unwind::PersistFailed(e) => {
                self.recovery_record = None;
                RunAction::Finish(Err(MigrationError::LedgerCommitFailed {
                    migration_id: run.descriptor.id.clone(),
                    reason: e.to_string(),
                }))
            },
        }
    }

    /// The runner's next decision in `run`, given the result of the action
    /// it asked for last (or `Begin`).
    pub fn step(&mut self, run: &mut MigrationRun, event: RunEvent) -> (r: RunAction)
        requires
            expects(old(run).spec_phase(), event),
            old(run).spec_wf(),
        ensures
            final(run).spec_wf(),
            final(self).spec_durable() == old(self).spec_durable(),
            old(self).spec_latched() is Some ==> final(self).spec_latched() is Some,
            final(run).spec_id() == old(run).spec_id(),
            r is Finish <==> final(run).spec_phase() == RunPhase::Finished,
            match (old(run).spec_phase(), event) {
                (RunPhase::Start, RunEvent::Begin) => match old(self).spec_latched() {
                    Some(reason) => (r matches RunAction::Finish(Err(MigrationError::RecoveryRequired(m))) && m@ == reason)
                        && final(self).spec_ledger() == old(self).spec_ledger() && final(self).spec_latched() == old(self).spec_latched()
                        && final(self).spec_record() == old(self).spec_record(),
                    None => final(self).spec_ledger() == old(self).spec_ledger() && final(self).spec_latched() is None
                        && final(self).spec_record() == old(self).spec_record() && if old(self).spec_durable() {
                            r is AcquireAndLoad && final(run).spec_phase() == RunPhase::AwaitLoad
                        } else {
                            admission_ok(old(self), old(run), final(run), r)
                        },
                },
                (RunPhase::AwaitLoad, RunEvent::Loaded(res)) => match res {
                    Ok(l) => r is ReconcileMarker && final(self).spec_ledger() == l@ && final(run).spec_phase() == RunPhase::AwaitReconcile,
                    Err(e) => r == RunAction::Finish(Err(e)) && final(self).spec_ledger() == old(self).spec_ledger(),
                },
                (RunPhase::AwaitReconcile, RunEvent::Reconciled(res)) => final(self).spec_ledger() == old(self).spec_ledger() && match res {
                    Ok(Some(rec)) => (r matches RunAction::Finish(Err(MigrationError::RecoveryRequired(m))) && m@ == record_reason(rec@.migration_id))
                        && final(self).spec_latched() == Some(record_reason(rec@.migration_id)) && final(self).spec_record() == Some(rec@),
                    Ok(None) => admission_ok(old(self), old(run), final(run), r) && final(self).spec_latched() == old(self).spec_latched(),
                    Err(e) => r == RunAction::Finish(Err(e)) && ((e is DurabilityUncertain) ==> final(self).spec_latched() == Some(reconcile_reason(e)))
                        && (!(e is DurabilityUncertain) ==> final(self).spec_latched() == old(self).spec_latched()),
                },
                (RunPhase::AwaitPrecondition, RunEvent::Precondition(res)) => final(self).spec_ledger() == old(self).spec_ledger()
                    && final(self).spec_latched() == old(self).spec_latched() && match res {
                    Err(e) => r == RunAction::Finish(Err(e)),
                    Ok(false) => r == RunAction::Finish(Ok(MigrationOutcome::NotApplicable)),
                    Ok(true) => if old(run).spec_requires_snapshot() {
                        if !old(run).spec_has_target() {
                            r matches RunAction::Finish(Err(MigrationError::RecoveryTargetRequired(id))) && id@ == old(run).spec_id()
                        } else if !old(run).spec_has_backup() {
                            r matches RunAction::Finish(Err(MigrationError::RecoveryCheckpointRequired(id))) && id@ == old(run).spec_id()
                        } else {
                            (r matches RunAction::HoldBackup(t) && t@ == old(run).spec_target()) && final(run).spec_phase() == RunPhase::AwaitHold
                        }
                    } else if old(self).spec_durable() {
                        (r matches RunAction::PersistRecord(rec) && rec@ == run_record(old(run))) && final(run).spec_phase() == RunPhase::AwaitRecordPersist
                    } else {
                        r is Apply && final(run).spec_phase() == RunPhase::AwaitApply
                    },
                },
                (RunPhase::AwaitHold, RunEvent::Held(res)) => final(self).spec_ledger() == old(self).spec_ledger()
                    && final(self).spec_latched() == old(self).spec_latched() && match res {
                    Err(e) => r == RunAction::Finish(Err(e)),
                    Ok(()) => if !checkpoint_valid(checkpoint_of(old(run).spec_backup())) {
                        r matches RunAction::Finish(Err(e)) && e is CorruptRecoveryMarker
                    } else if old(self).spec_durable() {
                        (r matches RunAction::PersistRecord(rec) && rec@ == run_record(old(run))) && final(run).spec_phase() == RunPhase::AwaitRecordPersist
                    } else {
                        r is AssertStable && final(run).spec_phase() == RunPhase::AwaitStable
                    },
                },
                (RunPhase::AwaitRecordPersist, RunEvent::RecordPersisted(res)) => final(self).spec_ledger() == old(self).spec_ledger() && match res {
                    Err(e) => r == RunAction::Finish(Err(e))
                        && ((e is DurabilityUncertain) ==> final(self).spec_latched() == Some(uncertain_record_reason(old(run).spec_id())))
                        && (!(e is DurabilityUncertain) ==> final(self).spec_latched() == old(self).spec_latched()),
                    Ok(()) => final(self).spec_latched() == old(self).spec_latched() && final(self).spec_record() == Some(run_record(old(run)))
                        && if old(run).spec_requires_snapshot() {
                            r is AssertStable && final(run).spec_phase() == RunPhase::AwaitStable
                        } else {
                            r is Apply && final(run).spec_phase() == RunPhase::AwaitApply
                        },
                },
                (RunPhase::AwaitStable, RunEvent::Stable(res)) => final(self).spec_ledger() == old(self).spec_ledger()
                    && final(self).spec_latched() == old(self).spec_latched() && match res {
                    Err(e) => r == RunAction::Finish(Err(e)),
                    Ok(()) => r is Apply && final(run).spec_phase() == RunPhase::AwaitApply,
                },
                (RunPhase::AwaitApply, RunEvent::Applied(res)) => final(self).spec_ledger() == old(self).spec_ledger() && match res {
                    Err(_) => (r matches RunAction::Finish(Err(MigrationError::ManualRecoveryRequired(id))) && id@ == old(run).spec_id())
                        && final(self).spec_latched() == Some(manual_reason(old(run).spec_id())),
                    Ok(()) => r is Verify && final(run).spec_phase() == RunPhase::AwaitVerify && final(self).spec_latched() == old(self).spec_latched(),
                },
                (RunPhase::AwaitVerify, RunEvent::Verified(res)) => match res {
                    Err(e) => final(self).spec_ledger() == old(self).spec_ledger() && if old(run).spec_reversible() {
                        r is Rollback && final(run).spec_phase() == RunPhase::AwaitRollback && final(run).spec_unwind() == Unwind::VerifyFailed(e)
                            && final(self).spec_latched() == old(self).spec_latched()
                    } else {
                        (r matches RunAction::Finish(Err(MigrationError::ManualRecoveryRequired(id))) && id@ == old(run).spec_id())
                            && final(self).spec_latched() == Some(manual_reason(old(run).spec_id()))
                    },
                    Ok(()) => final(self).spec_latched() == old(self).spec_latched() && if old(self).spec_durable() {
                        (r matches RunAction::PersistLedger(l) && l@ == final(run).spec_next_ledger())
                            && final(run).spec_next_ledger().to_set() == with_applied(old(self).spec_ledger(), old(run).spec_id())
                            && final(run).spec_phase() == RunPhase::AwaitLedgerPersist && final(self).spec_ledger() == old(self).spec_ledger()
                    } else {
                        r == RunAction::Finish(Ok(MigrationOutcome::Applied))
                            && final(self).spec_ledger().to_set() == with_applied(old(self).spec_ledger(), old(run).spec_id())
                            && final(self).spec_record() is None
                    },
                },
                (RunPhase::AwaitRollback, RunEvent::RolledBack(res)) => final(self).spec_ledger() == old(self).spec_ledger() && match res {
                    Err(_) => (r matches RunAction::Finish(Err(MigrationError::ManualRecoveryRequired(id))) && id@ == old(run).spec_id())
                        && final(self).spec_latched() == Some(manual_reason(old(run).spec_id())),
                    Ok(()) => final(self).spec_latched() == old(self).spec_latched() && if old(self).spec_durable() {
                        r is ClearMarker && final(run).spec_phase() == RunPhase::AwaitMarkerClear && final(run).spec_unwind() == old(run).spec_unwind()
                    } else {
                        match old(run).spec_unwind() {
                            Unwind::VerifyFailed(e) => r matches RunAction::Finish(Err(MigrationError::VerificationFailed { migration_id, reason }))
                                && migration_id@ == old(run).spec_id() && reason@ == error_text(e),
                            Unwind::PersistFailed(e) => (r matches RunAction::Finish(Err(MigrationError::LedgerCommitFailed { migration_id, reason }))
                                && migration_id@ == old(run).spec_id() && reason@ == error_text(e)) && final(self).spec_record() is None,
                            Unwind::Commit => r == RunAction::Finish(Ok(MigrationOutcome::Applied)),
                        }
                    },
                },
                (RunPhase::AwaitLedgerPersist, RunEvent::LedgerPersisted(res)) => match res {
                    Err(MigrationError::DurabilityUncertain(m)) => final(self).spec_ledger() == old(self).spec_ledger()
                        && (r matches RunAction::Finish(Err(MigrationError::DurabilityUncertain(x))) && x@ == old(run).spec_id() + ": "@ + m@)
                        && final(self).spec_latched() == Some(old(run).spec_id() + ": "@ + m@),
                    Err(e) => final(self).spec_ledger() == old(self).spec_ledger() && if old(run).spec_reversible() {
                        r is Rollback && final(run).spec_phase() == RunPhase::AwaitRollback && final(run).spec_unwind() == Unwind::PersistFailed(e)
                            && final(self).spec_latched() == old(self).spec_latched()
                    } else {
                        (r matches RunAction::Finish(Err(MigrationError::ManualRecoveryRequired(id))) && id@ == old(run).spec_id())
                            && final(self).spec_latched() == Some(manual_reason(old(run).spec_id()))
                    },
                    Ok(()) => r is ClearMarker && final(run).spec_phase() == RunPhase::AwaitMarkerClear && final(run).spec_unwind() == Unwind::Commit
                        && final(self).spec_ledger() == old(run).spec_next_ledger()
                        && final(self).spec_latched() == old(self).spec_latched(),
                },
                (RunPhase::AwaitMarkerClear, RunEvent::MarkerCleared(res)) => final(self).spec_ledger() == old(self).spec_ledger() && match res {
                    Err(e) => (r matches RunAction::Finish(Err(MigrationError::DurabilityUncertain(m))) && m@ == cleanup_reason(e))
                        && final(self).spec_latched() == Some(cleanup_reason(e)),
                    Ok(()) => final(self).spec_latched() == old(self).spec_latched() && match old(run).spec_unwind() {
                        Unwind::Commit => r == RunAction::Finish(Ok(MigrationOutcome::Applied)) && final(self).spec_record() is None,
                        Unwind::VerifyFailed(e) => r matches RunAction::Finish(Err(MigrationError::VerificationFailed { migration_id, reason }))
                            && migration_id@ == old(run).spec_id() && reason@ == error_text(e),
                        Unwind::PersistFailed(e) => (r matches RunAction::Finish(Err(MigrationError::LedgerCommitFailed { migration_id, reason }))
                            && migration_id@ == old(run).spec_id() && reason@ == error_text(e)) && final(self).spec_record() is None,
                    },
                },
                _ => false,
            },
    {
        match event {
            RunEvent::Begin => {
                match &self.recovery_required {
                    Some(reason) => {
                        run.phase = RunPhase::Finished;
                        return RunAction::Finish(Err(MigrationError::RecoveryRequired(reason.clone())));
                    },
                    None => {},
                }
                if self.store.is_some() {
                    run.phase = RunPhase::AwaitLoad;
                    return RunAction::AcquireAndLoad;
                }
                self.admission(run)
            },
            RunEvent::Loaded(res) => match res {
                Ok(ledger) => {
                    self.ledger = ledger;
                    run.phase = RunPhase::AwaitReconcile;
                    RunAction::ReconcileMarker
                },
                Err(e) => {
                    run.phase = RunPhase::Finished;
                    RunAction::Finish(Err(e))
                },
            },
            RunEvent::Reconciled(res) => match res {
                Ok(Some(record)) => {
                    let reason = concat_str("persisted recovery record for migration ", record.migration_id());
                    let reported = reason.clone();
                    self.recovery_record = Some(record);
                    self.latch_recovery(reason);
                    run.phase = RunPhase::Finished;
                    RunAction::Finish(Err(MigrationError::RecoveryRequired(reported)))
                },
                Ok(None) => self.admission(run),
                Err(e) => {
                    if let MigrationError::DurabilityUncertain(_) = &e {
                        let text = e.to_string();
                        let reason = concat_str("migration recovery marker reconciliation is durability-uncertain: ", text.as_str());
                        self.latch_recovery(reason);
                    }
                    run.phase = RunPhase::Finished;
                    RunAction::Finish(Err(e))
                },
            },
            RunEvent::Precondition(res) => match res {
                Err(e) => {
                    run.phase = RunPhase::Finished;
                    RunAction::Finish(Err(e))
                },
                Ok(false) => {
                    run.phase = RunPhase::Finished;
                    RunAction::Finish(Ok(MigrationOutcome::NotApplicable))
                },
                Ok(true) => {
                    if run.descriptor.requires_snapshot {
                        let target = match &run.target {
                            Some(t) => t.clone(),
                            None => {
                                run.phase = RunPhase::Finished;
                                return RunAction::Finish(Err(MigrationError::RecoveryTargetRequired(run.descriptor.id.clone())));
                            },
                        };
                        if run.backup.is_none() {
                            run.phase = RunPhase::Finished;
                            return RunAction::Finish(Err(MigrationError::RecoveryCheckpointRequired(run.descriptor.id.clone())));
                        }
                        run.phase = RunPhase::AwaitHold;
                        return RunAction::HoldBackup(target);
                    }
                    let record = MigrationRecoveryRecord::new(run.descriptor.id.clone(), None);
                    proof {
                        assert(record is Ok);
                    }
                    self.after_record(run, record)
                },
            },
            RunEvent::Held(res) => match res {
                Err(e) => {
                    run.phase = RunPhase::Finished;
                    RunAction::Finish(Err(e))
                },
                Ok(()) => {
                    let checkpoint = match &run.backup {
                        Some(b) => MigrationRecoveryCheckpoint::from_validated_backup(b),
                        None => Err(MigrationError::BackupMismatch),
                    };
                    match checkpoint {
                        Err(e) => {
                            run.phase = RunPhase::Finished;
                            RunAction::Finish(Err(e))
                        },
                        Ok(cp) => {
                            let record = MigrationRecoveryRecord::new(run.descriptor.id.clone(), Some(cp));
                            self.after_record(run, record)
                        },
                    }
                },
            },
            RunEvent::RecordPersisted(res) => match res {
                Err(e) => {
                    if let MigrationError::DurabilityUncertain(_) = &e {
                        let reason = concat_str(run.descriptor.id.as_str(), ": durable in-progress recovery record is uncertain");
                        self.latch_recovery(reason);
                    }
                    run.phase = RunPhase::Finished;
                    RunAction::Finish(Err(e))
                },
                Ok(()) => {
                    let mut pending = None;
                    std::mem::swap(&mut pending, &mut run.record);
                    self.recovery_record = pending;
                    if run.descriptor.requires_snapshot {
                        run.phase = RunPhase::AwaitStable;
                        RunAction::AssertStable
                    } else {
                        run.phase = RunPhase::AwaitApply;
                        RunAction::Apply
                    }
                },
            },
            RunEvent::Stable(res) => match res {
                Err(e) => {
                    run.phase = RunPhase::Finished;
                    RunAction::Finish(Err(e))
                },
                Ok(()) => {
                    run.phase = RunPhase::AwaitApply;
                    RunAction::Apply
                },
            },
            RunEvent::Applied(res) => match res {
                Err(_) => {
                    run.phase = RunPhase::Finished;
                    let e = self.manual_recovery_error(&run.descriptor.id);
                    RunAction::Finish(Err(e))
                },
                Ok(()) => {
                    run.phase = RunPhase::AwaitVerify;
                    RunAction::Verify
                },
            },
            RunEvent::Verified(res) => match res {
                Err(e) => {
                    if run.descriptor.reversible {
                        run.unwind = Unwind::VerifyFailed(e);
                        run.phase = RunPhase::AwaitRollback;
                        RunAction::Rollback
                    } else {
                        run.phase = RunPhase::Finished;
                        let m = self.manual_recovery_error(&run.descriptor.id);
                        RunAction::Finish(Err(m))
                    }
                },
                Ok(()) => {
                    let mut next = self.ledger.clone();
                    let marked = next.mark_applied(run.descriptor.id.clone());
                    proof {
                        assert(marked is Ok);
                    }
                    if self.store.is_some() {
                        let sent = next.clone();
                        run.next_ledger = Some(next);
                        run.phase = RunPhase::AwaitLedgerPersist;
                        RunAction::PersistLedger(sent)
                    } else {
                        self.ledger = next;
                        self.recovery_record = None;
                        run.phase = RunPhase::Finished;
                        RunAction::Finish(Ok(MigrationOutcome::Applied))
                    }
                },
            },
            RunEvent::RolledBack(res) => match res {
                Err(_) => {
                    run.phase = RunPhase::Finished;
                    let e = self.manual_recovery_error(&run.descriptor.id);
                    RunAction::Finish(Err(e))
                },
                Ok(()) => {
                    if self.store.is_some() {
                        run.phase = RunPhase::AwaitMarkerClear;
                        RunAction::ClearMarker
                    } else {
                        run.phase = RunPhase::Finished;
                        self.unwound(run)
                    }
                },
            },
            RunEvent::LedgerPersisted(res) => match res {
                Err(MigrationError::DurabilityUncertain(m)) => {
                    let a = concat_str(run.descriptor.id.as_str(), ": ");
                    let reason = concat_str(a.as_str(), m.as_str());
                    let reported = reason.clone();
                    self.latch_recovery(reason);
                    run.phase = RunPhase::Finished;
                    RunAction::Finish(Err(MigrationError::DurabilityUncertain(reported)))
                },
                Err(e) => {
                    if !run.descriptor.reversible {
                        run.phase = RunPhase::Finished;
                        let m = self.manual_recovery_error(&run.descriptor.id);
                        return RunAction::Finish(Err(m));
                    }
                    run.unwind = Unwind::PersistFailed(e);
                    run.phase = RunPhase::AwaitRollback;
                    RunAction::Rollback
                },
                Ok(()) => {
                    let mut pending = None;
                    std::mem::swap(&mut pending, &mut run.next_ledger);
                    match pending {
                        Some(next) => {
                            self.ledger = next;
                        },
                        None => {},
                    }
                    run.unwind = Unwind::Commit;
                    run.phase = RunPhase::AwaitMarkerClear;
                    RunAction::ClearMarker
                },
            },
            RunEvent::MarkerCleared(res) => match res {
                Err(e) => {
                    run.phase = RunPhase::Finished;
                    self.cleanup_failure(e)
                },
                Ok(()) => {
                    run.phase = RunPhase::Finished;
                    self.unwound(run)
                },
            },
        }
    }
}

/// What becomes of a recovery marker found when the runner opens: a
/// marker for a migration the ledger already records is stale and is
/// removed; any other stays pending recovery.
pub enum MarkerReconciliation {
    Stale,
    Pending(MigrationRecoveryRecord),
}

/// Reconciles a persisted recovery record with the ledger (see
/// [`MarkerReconciliation`]).
pub fn reconcile_marker(ledger: &MigrationLedger, record: MigrationRecoveryRecord) -> (r: MarkerReconciliation)
    ensures
        ledger@.contains(record@.migration_id) ==> r is Stale,
        !ledger@.contains(record@.migration_id) ==> r == MarkerReconciliation::Pending(record),
{
    if ledger.is_applied(record.migration_id()) {
        MarkerReconciliation::Stale
    } else {
        MarkerReconciliation::Pending(record)
    }
}

} // verus!
