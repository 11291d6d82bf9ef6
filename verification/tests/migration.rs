use linura::migration::codec::{close_with_tag, verify_tagged};
use linura::migration::descriptor::{
    valid_migration_id, MigrationDescriptor, MigrationError, MigrationOutcome, MigrationScope,
};
use linura::migration::integrity::integrity_tag;
use linura::migration::ledger::MigrationLedger;
use linura::migration::ledger_codec::{parse_ledger, serialize_ledger, LEDGER_MAGIC};
use linura::migration::recovery::{
    check_durable_artifact, check_regular_file, FileStat, MigrationRecoveryCheckpoint,
    MigrationRecoveryRecord, ValidatedBackup,
};
use linura::migration::recovery_codec::{parse_recovery_record, serialize_recovery_record};
use linura::migration::runner::{
    reconcile_marker, MarkerReconciliation, MigrationLedgerStore, MigrationRun, MigrationRunner, RunAction, RunEvent, RunPhase,
};
use linura::migration::v09::{
    check_foreign_keys, check_integrity_report, check_store_identity, validate_distinct_absolute_paths,
    V08SqliteStoreKind, V09PersistentStateMigration, AUTHORITY_APPLICATION_ID,
    V08_AUTHORITY_SCHEMA_VERSION, V08_LIBRARY_SCHEMA_VERSION,
};

/// How the simulated migration behaves, and what it saw.
struct Behaviour {
    precondition: bool,
    apply_ok: bool,
    verify_ok: bool,
    rollback_ok: bool,
    applications: u32,
    rollbacks: u32,
}

impl Behaviour {
    fn healthy() -> Self {
        Behaviour {
            precondition: true,
            apply_ok: true,
            verify_ok: true,
            rollback_ok: true,
            applications: 0,
            rollbacks: 0,
        }
    }
}

/// An in-memory stand-in for the durable ledger file and recovery marker.
#[derive(Default)]
struct MemoryStore {
    ledger: Option<Vec<u8>>,
    marker: Option<Vec<u8>>,
}

fn descriptor(id: &str, requires_snapshot: bool) -> MigrationDescriptor {
    MigrationDescriptor {
        id: id.to_string(),
        introduced_in: "0.9.0".to_string(),
        scope: MigrationScope::System,
        reversible: true,
        requires_snapshot,
    }
}

fn stat(device: u64, inode: u64, len: u64) -> FileStat {
    FileStat { device, inode, len, nlink: 1, mode: 0o100600, is_symlink: false, is_file: true }
}

fn validated_backup(source: &str, backup: &str) -> ValidatedBackup {
    let s = stat(1, 10, 13);
    let b = stat(1, 11, 13);
    ValidatedBackup::check_pair(source.as_bytes(), backup.as_bytes(), &s, &b).unwrap();
    ValidatedBackup::from_evidence(
        source.as_bytes().to_vec(),
        backup.as_bytes().to_vec(),
        &s,
        &b,
        0x1234,
        &s,
        &b,
        true,
        0x1234,
    )
    .unwrap()
}

/// Runs `run` to completion, answering each action the runner asks for.
fn drive(
    runner: &mut MigrationRunner,
    run: &mut MigrationRun,
    behaviour: &mut Behaviour,
    store: &mut MemoryStore,
) -> Result<MigrationOutcome, MigrationError> {
    let mut event = RunEvent::Begin;
    loop {
        match runner.step(run, event) {
            RunAction::Finish(result) => return result,
            RunAction::AcquireAndLoad => {
                let loaded = match &store.ledger {
                    Some(bytes) => parse_ledger(bytes),
                    None => Ok(MigrationLedger::new()),
                };
                event = RunEvent::Loaded(loaded);
            }
            RunAction::ReconcileMarker => {
                let record = match &store.marker {
                    Some(bytes) => parse_recovery_record(bytes).map(Some),
                    None => Ok(None),
                };
                let record = match record {
                    Ok(Some(rec)) if runner.ledger().is_applied(rec.migration_id()) => {
                        store.marker = None;
                        Ok(None)
                    }
                    other => other,
                };
                event = RunEvent::Reconciled(record);
            }
            RunAction::CheckPrecondition => event = RunEvent::Precondition(Ok(behaviour.precondition)),
            RunAction::HoldBackup(_) => event = RunEvent::Held(Ok(())),
            RunAction::PersistRecord(record) => {
                store.marker = Some(serialize_recovery_record(&record));
                event = RunEvent::RecordPersisted(Ok(()));
            }
            RunAction::AssertStable => event = RunEvent::Stable(Ok(())),
            RunAction::Apply => {
                behaviour.applications += 1;
                event = RunEvent::Applied(if behaviour.apply_ok {
                    Ok(())
                } else {
                    Err(MigrationError::Operation("injected apply failure".to_string()))
                });
            }
            RunAction::Verify => {
                event = RunEvent::Verified(if behaviour.verify_ok {
                    Ok(())
                } else {
                    Err(MigrationError::Operation("injected verify failure".to_string()))
                });
            }
            RunAction::Rollback => {
                behaviour.rollbacks += 1;
                event = RunEvent::RolledBack(if behaviour.rollback_ok {
                    Ok(())
                } else {
                    Err(MigrationError::Operation("injected rollback failure".to_string()))
                });
            }
            RunAction::PersistLedger(ledger) => {
                store.ledger = Some(serialize_ledger(&ledger));
                event = RunEvent::LedgerPersisted(Ok(()));
            }
            RunAction::ClearMarker => {
                store.marker = None;
                event = RunEvent::MarkerCleared(Ok(()));
            }
        }
    }
}

fn run_once(
    runner: &mut MigrationRunner,
    desc: MigrationDescriptor,
    target: Option<Vec<u8>>,
    backup: Option<ValidatedBackup>,
    behaviour: &mut Behaviour,
    store: &mut MemoryStore,
) -> Result<MigrationOutcome, MigrationError> {
    let mut run = MigrationRun::new(desc, target, backup);
    let result = drive(runner, &mut run, behaviour, store);
    assert_eq!(run.phase(), RunPhase::Finished);
    result
}

fn durable_runner() -> MigrationRunner {
    MigrationRunner::opened(
        MigrationLedgerStore::new(b"/var/lib/linura/migration.ledger".to_vec()),
        MigrationLedger::new(),
        None,
    )
}

#[test]
fn migrations_are_idempotent_through_durable_ledger() {
    let mut store = MemoryStore::default();
    let mut behaviour = Behaviour::healthy();
    let mut runner = durable_runner();
    let first = run_once(&mut runner, descriptor("0001-test", false), None, None, &mut behaviour, &mut store);
    assert!(matches!(first, Ok(MigrationOutcome::Applied)));
    let second = run_once(&mut runner, descriptor("0001-test", false), None, None, &mut behaviour, &mut store);
    assert!(matches!(second, Ok(MigrationOutcome::AlreadyApplied)));
    assert_eq!(behaviour.applications, 1);
    assert!(store.marker.is_none());

    let mut reopened = durable_runner();
    let third = run_once(&mut reopened, descriptor("0001-test", false), None, None, &mut behaviour, &mut store);
    assert!(matches!(third, Ok(MigrationOutcome::AlreadyApplied)));
    assert_eq!(behaviour.applications, 1);
}

#[test]
fn stale_runners_merge_durable_applied_ids_instead_of_overwriting() {
    let mut store = MemoryStore::default();
    let mut first = durable_runner();
    let mut stale = durable_runner();
    let mut a = Behaviour::healthy();
    let mut b = Behaviour::healthy();
    assert!(matches!(
        run_once(&mut first, descriptor("0001-a", false), None, None, &mut a, &mut store),
        Ok(MigrationOutcome::Applied)
    ));
    assert!(matches!(
        run_once(&mut stale, descriptor("0002-b", false), None, None, &mut b, &mut store),
        Ok(MigrationOutcome::Applied)
    ));
    let ledger = parse_ledger(store.ledger.as_ref().unwrap()).unwrap();
    assert!(ledger.is_applied("0001-a"));
    assert!(ledger.is_applied("0002-b"));
}

#[test]
fn stale_runner_cannot_reapply_same_migration_effect() {
    let mut store = MemoryStore::default();
    let mut first = durable_runner();
    let mut stale = durable_runner();
    let mut behaviour = Behaviour::healthy();
    assert!(matches!(
        run_once(&mut first, descriptor("0001-once", false), None, None, &mut behaviour, &mut store),
        Ok(MigrationOutcome::Applied)
    ));
    assert!(matches!(
        run_once(&mut stale, descriptor("0001-once", false), None, None, &mut behaviour, &mut store),
        Ok(MigrationOutcome::AlreadyApplied)
    ));
    assert_eq!(behaviour.applications, 1);
}

#[test]
fn stale_recovery_marker_for_applied_migration_is_cleared_on_open() {
    let mut ledger = MigrationLedger::new();
    ledger.mark_applied("0001-committed".to_string()).unwrap();
    let record = MigrationRecoveryRecord::new("0001-committed".to_string(), None).unwrap();
    let mut store = MemoryStore {
        ledger: Some(serialize_ledger(&ledger)),
        marker: Some(serialize_recovery_record(&record)),
    };
    let mut runner = durable_runner();
    let mut behaviour = Behaviour::healthy();
    let result = run_once(&mut runner, descriptor("0002-next", false), None, None, &mut behaviour, &mut store);
    assert!(matches!(result, Ok(MigrationOutcome::Applied)));
    assert!(!runner.requires_recovery());
    assert!(runner.ledger().is_applied("0001-committed"));
}

#[test]
fn risky_migration_requires_a_validated_independent_backup() {
    let mut store = MemoryStore::default();
    let mut behaviour = Behaviour::healthy();
    let mut runner = MigrationRunner::new(MigrationLedger::new());
    let target = Some(b"/srv/state.db".to_vec());
    let refused = run_once(&mut runner, descriptor("0002-risky", true), target.clone(), None, &mut behaviour, &mut store);
    assert!(matches!(refused, Err(MigrationError::RecoveryCheckpointRequired(_))));
    assert_eq!(behaviour.applications, 0);
    let backup = validated_backup("/srv/state.db", "/srv/state.db.backup");
    let applied = run_once(&mut runner, descriptor("0002-risky", true), target, Some(backup), &mut behaviour, &mut store);
    assert!(matches!(applied, Ok(MigrationOutcome::Applied)));
    assert_eq!(behaviour.applications, 1);
}

#[test]
fn risky_migration_requires_an_exact_recovery_target() {
    let mut store = MemoryStore::default();
    let mut behaviour = Behaviour::healthy();
    let mut runner = MigrationRunner::new(MigrationLedger::new());
    let backup = validated_backup("/srv/state.db", "/srv/state.db.backup");
    let result = run_once(&mut runner, descriptor("0002-target-required", true), None, Some(backup), &mut behaviour, &mut store);
    assert!(matches!(result, Err(MigrationError::RecoveryTargetRequired(_))));
    assert_eq!(behaviour.applications, 0);
}

#[test]
fn writable_backup_is_rejected_as_recovery_checkpoint() {
    let source = stat(1, 10, 5);
    let mut backup = stat(1, 11, 5);
    backup.mode = 0o100666;
    assert!(matches!(
        ValidatedBackup::check_pair(b"/srv/state.db", b"/srv/state.db.backup", &source, &backup),
        Err(MigrationError::UntrustedBackupArtifact)
    ));
}

#[test]
fn hard_link_cannot_masquerade_as_backup() {
    let source = stat(1, 10, 5);
    let mut linked = stat(1, 10, 5);
    linked.nlink = 2;
    assert!(matches!(
        ValidatedBackup::check_pair(b"/srv/state.db", b"/srv/state.db.backup", &source, &linked),
        Err(MigrationError::BackupNotIndependent)
    ));
}

#[test]
fn backup_validation_requires_equal_nonempty_copies() {
    assert!(matches!(
        ValidatedBackup::check_pair(b"/srv/a", b"/srv/b", &stat(1, 10, 0), &stat(1, 11, 0)),
        Err(MigrationError::BackupMismatch)
    ));
    assert!(matches!(
        ValidatedBackup::check_pair(b"/srv/a", b"/srv/b", &stat(1, 10, 4), &stat(1, 11, 5)),
        Err(MigrationError::BackupMismatch)
    ));
    assert!(matches!(
        ValidatedBackup::check_pair(b"/srv/a", b"/srv/a", &stat(1, 10, 4), &stat(1, 11, 4)),
        Err(MigrationError::BackupNotIndependent)
    ));
    assert!(matches!(ValidatedBackup::check_copy(false), Err(MigrationError::BackupMismatch)));
    assert!(ValidatedBackup::check_copy(true).is_ok());
}

#[test]
fn unrelated_backup_cannot_authorize_a_risky_migration() {
    let backup = validated_backup("/srv/unrelated.db", "/srv/unrelated.db.backup");
    assert!(matches!(
        backup.check_target(b"/srv/state.db", &stat(1, 12, 13)),
        Err(MigrationError::BackupTargetMismatch)
    ));
    assert!(backup.check_target(b"/srv/unrelated.db", &stat(1, 10, 13)).is_ok());
}

#[test]
fn changed_backup_fails_revalidation_before_apply() {
    let original = validated_backup("/srv/state.db", "/srv/state.db.backup");
    let s = stat(1, 10, 13);
    let b = stat(1, 11, 13);
    let changed = ValidatedBackup::from_evidence(
        b"/srv/state.db".to_vec(),
        b"/srv/state.db.backup".to_vec(),
        &s,
        &b,
        0x9999,
        &s,
        &b,
        true,
        0x9999,
    )
    .unwrap();
    assert!(matches!(original.check_unchanged(&changed), Err(MigrationError::BackupMismatch)));
    assert!(original.check_unchanged(&validated_backup("/srv/state.db", "/srv/state.db.backup")).is_ok());
}

#[test]
fn checkpoint_guard_detects_drift_after_initial_validation() {
    let backup = validated_backup("/srv/state.db", "/srv/state.db.backup");
    let s = stat(1, 10, 13);
    let b = stat(1, 11, 13);
    assert!(backup.check_stable(&s, &b, &s, &b).is_ok());
    let grown = stat(1, 10, 14);
    assert!(matches!(backup.check_stable(&grown, &b, &s, &b), Err(MigrationError::BackupMismatch)));
    assert!(matches!(backup.check_content(true, 0x4321), Err(MigrationError::BackupMismatch)));
    assert!(backup.check_content(true, 0x1234).is_ok());
}

#[test]
fn backup_evidence_must_survive_the_durability_sync() {
    let s = stat(1, 10, 13);
    let b = stat(1, 11, 13);
    let replaced = stat(1, 99, 13);
    let result = ValidatedBackup::from_evidence(
        b"/srv/state.db".to_vec(),
        b"/srv/state.db.backup".to_vec(),
        &s,
        &b,
        7,
        &replaced,
        &b,
        true,
        7,
    );
    assert!(matches!(result, Err(MigrationError::BackupMismatch)));
    let retagged = ValidatedBackup::from_evidence(
        b"/srv/state.db".to_vec(),
        b"/srv/state.db.backup".to_vec(),
        &s,
        &b,
        7,
        &s,
        &b,
        true,
        8,
    );
    assert!(matches!(retagged, Err(MigrationError::BackupMismatch)));
}

#[test]
fn risky_recovery_record_survives_crash_with_exact_backup_identity() {
    let mut store = MemoryStore::default();
    let mut behaviour = Behaviour::healthy();
    behaviour.apply_ok = false;
    let mut runner = durable_runner();
    let backup = validated_backup("/srv/state.db", "/srv/state.db.backup");
    let result = run_once(
        &mut runner,
        descriptor("0003-durable-checkpoint", true),
        Some(b"/srv/state.db".to_vec()),
        Some(backup),
        &mut behaviour,
        &mut store,
    );
    assert!(matches!(result, Err(MigrationError::ManualRecoveryRequired(ref id)) if id == "0003-durable-checkpoint"));
    let record = parse_recovery_record(store.marker.as_ref().unwrap()).unwrap();
    let checkpoint = record.checkpoint().unwrap();
    let evidence = validated_backup("/srv/state.db", "/srv/state.db.backup");
    assert_eq!(checkpoint.target_path(), evidence.source_path());
    assert_eq!(checkpoint.backup_path(), evidence.backup_path());
    assert_eq!(checkpoint.size(), evidence.size());
    assert_eq!(checkpoint.integrity_tag(), evidence.integrity_tag());
    assert!(checkpoint.check_backup_path(&stat(1, 11, 13)).is_ok());
    assert!(checkpoint.check_backup_content(13, 0x1234).is_ok());
    assert!(matches!(
        checkpoint.check_backup_content(13, 0x9999),
        Err(MigrationError::BackupMismatch)
    ));

    let mut reopened = durable_runner();
    let mut next = Behaviour::healthy();
    let blocked = run_once(&mut reopened, descriptor("0009-other", false), None, None, &mut next, &mut store);
    assert!(matches!(blocked, Err(MigrationError::RecoveryRequired(_))));
    assert!(reopened.requires_recovery());
    assert!(reopened.recovery_record().is_some());
    assert_eq!(next.applications, 0);
}

#[test]
fn verification_failure_rolls_back_and_never_commits_ledger() {
    let mut store = MemoryStore::default();
    let mut behaviour = Behaviour::healthy();
    behaviour.verify_ok = false;
    let mut runner = MigrationRunner::new(MigrationLedger::new());
    let result = run_once(&mut runner, descriptor("0004-verify", false), None, None, &mut behaviour, &mut store);
    assert!(matches!(result, Err(MigrationError::VerificationFailed { .. })));
    assert_eq!(behaviour.applications, 1);
    assert_eq!(behaviour.rollbacks, 1);
    assert!(!runner.ledger().is_applied("0004-verify"));
    assert!(!runner.requires_recovery());
}

#[test]
fn failed_rollback_latches_recovery_and_survives_reopen() {
    let mut store = MemoryStore::default();
    let mut behaviour = Behaviour::healthy();
    behaviour.verify_ok = false;
    behaviour.rollback_ok = false;
    let mut runner = durable_runner();
    let result = run_once(&mut runner, descriptor("0004-rollback-fails", false), None, None, &mut behaviour, &mut store);
    assert!(matches!(result, Err(MigrationError::ManualRecoveryRequired(ref id)) if id == "0004-rollback-fails"));
    assert_eq!(behaviour.rollbacks, 1);
    assert!(runner.requires_recovery());
    assert!(!runner.ledger().is_applied("0004-rollback-fails"));

    let again = run_once(&mut runner, descriptor("0004-rollback-fails", false), None, None, &mut behaviour, &mut store);
    assert!(matches!(again, Err(MigrationError::RecoveryRequired(_))));

    let mut reopened = durable_runner();
    let after = run_once(&mut reopened, descriptor("0004-rollback-fails", false), None, None, &mut behaviour, &mut store);
    assert!(matches!(after, Err(MigrationError::RecoveryRequired(_))));
    assert!(reopened.requires_recovery());
    assert_eq!(behaviour.applications, 1);
}

/// Drives a durable run up to its ledger commit and reports `failure` for it.
fn commit_with_failure(runner: &mut MigrationRunner, id: &str, failure: MigrationError) -> (RunAction, MigrationRun) {
    let mut run = MigrationRun::new(descriptor(id, false), None, None);
    assert!(matches!(runner.step(&mut run, RunEvent::Begin), RunAction::AcquireAndLoad));
    assert!(matches!(
        runner.step(&mut run, RunEvent::Loaded(Ok(MigrationLedger::new()))),
        RunAction::ReconcileMarker
    ));
    assert!(matches!(runner.step(&mut run, RunEvent::Reconciled(Ok(None))), RunAction::CheckPrecondition));
    assert!(matches!(
        runner.step(&mut run, RunEvent::Precondition(Ok(true))),
        RunAction::PersistRecord(_)
    ));
    assert!(matches!(runner.step(&mut run, RunEvent::RecordPersisted(Ok(()))), RunAction::Apply));
    assert!(matches!(runner.step(&mut run, RunEvent::Applied(Ok(()))), RunAction::Verify));
    assert!(matches!(
        runner.step(&mut run, RunEvent::Verified(Ok(()))),
        RunAction::PersistLedger(_)
    ));
    let action = runner.step(&mut run, RunEvent::LedgerPersisted(Err(failure)));
    (action, run)
}

#[test]
fn ambiguous_ledger_commit_never_rolls_back_or_replays_in_process() {
    let mut runner = durable_runner();
    let (action, run) = commit_with_failure(
        &mut runner,
        "0004-ambiguous-ledger",
        MigrationError::DurabilityUncertain("injected post-rename fsync failure".to_string()),
    );
    assert!(matches!(action, RunAction::Finish(Err(MigrationError::DurabilityUncertain(_)))));
    assert_eq!(run.phase(), RunPhase::Finished);
    assert!(runner.requires_recovery());
    let mut store = MemoryStore::default();
    let mut behaviour = Behaviour::healthy();
    let again = run_once(&mut runner, descriptor("0004-ambiguous-ledger", false), None, None, &mut behaviour, &mut store);
    assert!(matches!(again, Err(MigrationError::RecoveryRequired(_))));
    assert_eq!(behaviour.applications, 0);
}

#[test]
fn definite_precommit_ledger_failure_rolls_back_reversible_effect() {
    let mut runner = durable_runner();
    let (action, mut run) = commit_with_failure(
        &mut runner,
        "0004-precommit-ledger",
        MigrationError::Io("injected pre-rename failure".to_string()),
    );
    assert!(matches!(action, RunAction::Rollback));
    assert!(matches!(runner.step(&mut run, RunEvent::RolledBack(Ok(()))), RunAction::ClearMarker));
    let finished = runner.step(&mut run, RunEvent::MarkerCleared(Ok(())));
    assert!(matches!(finished, RunAction::Finish(Err(MigrationError::LedgerCommitFailed { .. }))));
    assert!(!runner.requires_recovery());
}

#[test]
fn non_applicable_migration_performs_no_effect() {
    let mut store = MemoryStore::default();
    let mut behaviour = Behaviour::healthy();
    behaviour.precondition = false;
    let mut runner = MigrationRunner::new(MigrationLedger::new());
    let result = run_once(&mut runner, descriptor("0005-not-applicable", false), None, None, &mut behaviour, &mut store);
    assert!(matches!(result, Ok(MigrationOutcome::NotApplicable)));
    assert_eq!(behaviour.applications, 0);
}

#[test]
fn invalid_descriptor_is_refused_before_any_effect() {
    let mut store = MemoryStore::default();
    let mut behaviour = Behaviour::healthy();
    let mut runner = MigrationRunner::new(MigrationLedger::new());
    let result = run_once(&mut runner, descriptor("../escape", false), None, None, &mut behaviour, &mut store);
    assert!(matches!(result, Err(MigrationError::InvalidDescriptor(_))));
    let mut blank_version = descriptor("0006-ok", false);
    blank_version.introduced_in = " ".to_string();
    assert!(matches!(blank_version.validate(), Err(MigrationError::InvalidDescriptor(_))));
    assert_eq!(behaviour.applications, 0);
}

#[test]
fn migration_identifiers_are_bounded_and_path_safe() {
    assert!(valid_migration_id("0001-test"));
    assert!(valid_migration_id("v09.library:sqlite_preservation"));
    assert!(!valid_migration_id(""));
    assert!(!valid_migration_id("a..b"));
    assert!(!valid_migration_id("a/b"));
    assert!(!valid_migration_id(&"x".repeat(129)));
    assert!(valid_migration_id(&"x".repeat(128)));
}

#[test]
fn ledger_detects_corruption_and_unknown_versions() {
    let mut ledger = MigrationLedger::new();
    ledger.mark_applied("0001-test".to_string()).unwrap();
    let mut bytes = serialize_ledger(&ledger);
    bytes[0] ^= 1;
    assert!(matches!(parse_ledger(&bytes), Err(MigrationError::CorruptLedger(_))));

    let payload = b"linura-migration-ledger-v2\n";
    let tag = integrity_tag(payload);
    let text = format!("linura-migration-ledger-v2\nintegrity={tag:016x}\n");
    assert!(matches!(parse_ledger(text.as_bytes()), Err(MigrationError::UnsupportedLedgerVersion)));
}

#[test]
fn ledger_round_trips_through_its_persisted_form() {
    let mut ledger = MigrationLedger::new();
    ledger.mark_applied("0002-b".to_string()).unwrap();
    ledger.mark_applied("0001-a".to_string()).unwrap();
    assert!(matches!(
        ledger.mark_applied("0001-a".to_string()),
        Ok(())
    ));
    let bytes = serialize_ledger(&ledger);
    let tag = integrity_tag(format!("{LEDGER_MAGIC}\napplied=0001-a\napplied=0002-b\n").as_bytes());
    let expected = format!("{LEDGER_MAGIC}\napplied=0001-a\napplied=0002-b\nintegrity={tag:016x}\n");
    assert_eq!(String::from_utf8(bytes.clone()).unwrap(), expected);
    let decoded = parse_ledger(&bytes).unwrap();
    assert_eq!(decoded.applied(), ledger.applied());
    assert_eq!(decoded.applied(), &["0001-a".to_string(), "0002-b".to_string()]);
}

#[test]
fn ledger_rejects_unknown_fields_and_invalid_ids() {
    for body in ["unknown=1\n", "applied=a/b\n", "applied=\n"] {
        let payload = format!("{LEDGER_MAGIC}\n{body}");
        let tag = integrity_tag(payload.as_bytes());
        let text = format!("{payload}integrity={tag:016x}\n");
        assert!(matches!(parse_ledger(text.as_bytes()), Err(MigrationError::CorruptLedger(_))), "{body}");
    }
    assert!(matches!(parse_ledger(&[0xff, 0xfe]), Err(MigrationError::CorruptLedger(_))));
}

#[test]
fn ledger_from_applied_lists_sorted_distinct_ids() {
    let ledger = MigrationLedger::from_applied(vec!["b".to_string(), "a".to_string()]).unwrap();
    assert_eq!(ledger.applied(), &["a".to_string(), "b".to_string()]);
    assert!(matches!(
        MigrationLedger::from_applied(vec!["b".to_string(), "a".to_string(), "b".to_string()]),
        Err(MigrationError::CorruptLedger(_))
    ));
    assert!(matches!(
        MigrationLedger::from_applied(vec!["bad id".to_string()]),
        Err(MigrationError::CorruptLedger(_))
    ));
}

#[test]
fn integrity_tag_is_fnv1a_64() {
    assert_eq!(integrity_tag(b""), 0xcbf29ce484222325);
    assert_eq!(integrity_tag(b"a"), 0xaf63dc4c8601ec8c);
    assert_eq!(integrity_tag(b"foobar"), 0x85944171f73967e8);
}

#[test]
fn tagged_framing_round_trips_and_detects_tampering() {
    let payload: Vec<char> = "hello\n".chars().collect();
    let text = close_with_tag(payload.clone());
    assert_eq!(verify_tagged(&text), Some(payload));
    let mut tampered = text.clone();
    tampered[0] = 'j';
    assert_eq!(verify_tagged(&tampered), None);
    assert_eq!(verify_tagged(&"no tag here\n".chars().collect::<Vec<char>>()), None);
}

#[test]
fn recovery_record_round_trips_with_and_without_checkpoint() {
    let plain = MigrationRecoveryRecord::new("0001-plain".to_string(), None).unwrap();
    let decoded = parse_recovery_record(&serialize_recovery_record(&plain)).unwrap();
    assert_eq!(decoded.migration_id(), "0001-plain");
    assert!(decoded.checkpoint().is_none());
    assert!(matches!(
        decoded.recovery_checkpoint(),
        Err(MigrationError::RecoveryCheckpointUnavailable(_))
    ));

    let checkpoint =
        MigrationRecoveryCheckpoint::new(b"/srv/state.db".to_vec(), b"/srv/backup.db".to_vec(), 1, 2, 3, 4, 5, 6).unwrap();
    let risky = MigrationRecoveryRecord::new("0002-risky".to_string(), Some(checkpoint)).unwrap();
    let decoded = parse_recovery_record(&serialize_recovery_record(&risky)).unwrap();
    let c = decoded.recovery_checkpoint().unwrap();
    assert_eq!(c.target_path(), b"/srv/state.db");
    assert_eq!(c.backup_path(), b"/srv/backup.db");
    assert_eq!(
        (c.target_device(), c.target_inode(), c.backup_device(), c.backup_inode(), c.size(), c.integrity_tag()),
        (1, 2, 3, 4, 5, 6)
    );
}

#[test]
fn recovery_marker_corruption_is_detected() {
    let plain = MigrationRecoveryRecord::new("0001-plain".to_string(), None).unwrap();
    let mut bytes = serialize_recovery_record(&plain);
    bytes[3] ^= 1;
    assert!(matches!(parse_recovery_record(&bytes), Err(MigrationError::CorruptRecoveryMarker(_))));
    assert!(matches!(parse_recovery_record(b""), Err(MigrationError::CorruptRecoveryMarker(_))));
}

#[test]
fn recovery_checkpoint_descriptor_is_checked() {
    assert!(matches!(
        MigrationRecoveryCheckpoint::new(b"relative".to_vec(), b"/srv/b".to_vec(), 1, 2, 3, 4, 5, 6),
        Err(MigrationError::CorruptRecoveryMarker(_))
    ));
    assert!(matches!(
        MigrationRecoveryCheckpoint::new(b"/srv/a".to_vec(), b"/srv/a".to_vec(), 1, 2, 3, 4, 5, 6),
        Err(MigrationError::CorruptRecoveryMarker(_))
    ));
    assert!(matches!(
        MigrationRecoveryCheckpoint::new(b"/srv/a".to_vec(), b"/srv/b".to_vec(), 1, 2, 3, 4, 0, 6),
        Err(MigrationError::CorruptRecoveryMarker(_))
    ));
    assert!(matches!(
        MigrationRecoveryRecord::new("bad id".to_string(), None),
        Err(MigrationError::CorruptRecoveryMarker(_))
    ));
}

#[test]
fn artifacts_must_be_protected_regular_files() {
    let mut link = stat(1, 2, 3);
    link.is_symlink = true;
    assert!(check_regular_file(&link).is_err());
    assert!(check_regular_file(&stat(1, 2, 3)).is_ok());
    assert!(check_durable_artifact(&stat(1, 2, 3), 1, 2).is_ok());
    assert!(check_durable_artifact(&stat(1, 2, 3), 1, 9).is_err());
    let mut shared = stat(1, 2, 3);
    shared.mode = 0o100620;
    assert!(matches!(check_durable_artifact(&shared, 1, 2), Err(MigrationError::UntrustedBackupArtifact)));
}

#[test]
fn error_messages_name_the_failure() {
    assert_eq!(MigrationError::BackupMismatch.to_string(), "migration backup no longer matches its validated source bytes/identity");
    assert_eq!(
        MigrationError::ManualRecoveryRequired("0001".to_string()).to_string(),
        "migration 0001 requires manual recovery"
    );
}

#[test]
fn v09_sqlite_checks_follow_store_identity() {
    assert!(check_integrity_report("ok").is_ok());
    assert!(check_integrity_report("row 3 missing").is_err());
    assert!(check_foreign_keys(0).is_ok());
    assert!(check_foreign_keys(2).is_err());
    assert!(check_store_identity(V08SqliteStoreKind::Library, 0, V08_LIBRARY_SCHEMA_VERSION).is_ok());
    assert!(check_store_identity(V08SqliteStoreKind::Library, 0, 2).is_err());
    assert!(check_store_identity(
        V08SqliteStoreKind::Authority,
        AUTHORITY_APPLICATION_ID,
        V08_AUTHORITY_SCHEMA_VERSION
    )
    .is_ok());
    assert!(check_store_identity(V08SqliteStoreKind::Authority, 0, V08_AUTHORITY_SCHEMA_VERSION).is_err());
    assert!(validate_distinct_absolute_paths(b"/a.db", b"/b.db").is_ok());
    assert!(validate_distinct_absolute_paths(b"a.db", b"/b.db").is_err());
    assert!(validate_distinct_absolute_paths(b"/a.db", b"/a.db").is_err());
}

#[test]
fn v09_migration_verifies_the_preserved_fingerprint() {
    let expected = "a".repeat(64);
    let migration = V09PersistentStateMigration::new(
        V08SqliteStoreKind::Library,
        b"/srv/library.db".to_vec(),
        b"/srv/library.db.backup".to_vec(),
        expected.clone(),
        false,
    )
    .unwrap();
    assert_eq!(migration.descriptor().id, "v09-library-sqlite-preservation");
    assert!(migration.descriptor().requires_snapshot);
    assert!(migration.precondition_holds(&expected));
    assert!(!migration.precondition_holds(&"b".repeat(64)));
    assert!(migration.check_verification(&expected).is_ok());
    assert!(matches!(
        migration.check_verification(&"b".repeat(64)),
        Err(MigrationError::Operation(_))
    ));
    assert!(V09PersistentStateMigration::new(
        V08SqliteStoreKind::Library,
        b"library.db".to_vec(),
        b"/srv/library.db.backup".to_vec(),
        expected.clone(),
        false,
    )
    .is_err());
}

#[test]
fn recovery_marker_of_an_applied_migration_is_stale() {
    let mut ledger = MigrationLedger::new();
    ledger.mark_applied("0001-committed".to_string()).unwrap();
    let stale = MigrationRecoveryRecord::new("0001-committed".to_string(), None).unwrap();
    assert!(matches!(reconcile_marker(&ledger, stale), MarkerReconciliation::Stale));
    let pending = MigrationRecoveryRecord::new("0002-pending".to_string(), None).unwrap();
    match reconcile_marker(&ledger, pending) {
        MarkerReconciliation::Pending(record) => assert_eq!(record.migration_id(), "0002-pending"),
        MarkerReconciliation::Stale => panic!("a migration the ledger lacks stays pending"),
    }
}

#[test]
fn one_byte_edit_changes_the_integrity_tag() {
    let original = b"version=1\nmigration_id=0001-committed\n".to_vec();
    for position in 0..original.len() {
        let mut edited = original.clone();
        edited[position] ^= 0x20;
        assert_ne!(integrity_tag(&edited), integrity_tag(&original));
    }
}
