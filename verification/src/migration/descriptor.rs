//! Migration descriptors, outcomes and errors.
use vstd::prelude::*;
use crate::text::{all_whitespace, any_control, chars_of, concat_str, has_control, is_blank, string_of};

verus! {

/// What a migration changes.
#[derive(Clone, Copy, Debug, PartialEq, Eq, Structural)]
pub enum MigrationScope {
    System,
    User,
    Intent,
    Graph,
    Profile,
}

/// Static description of one migration.
#[derive(Clone, Debug)]
pub struct MigrationDescriptor {
    pub id: String,
    pub introduced_in: String,
    pub scope: MigrationScope,
    pub reversible: bool,
    pub requires_snapshot: bool,
}

/// Result of running one migration.
#[derive(Clone, Copy, Debug, PartialEq, Eq, Structural)]
pub enum MigrationOutcome {
    Applied,
    AlreadyApplied,
    NotApplicable,
}

/// Every failure the migration machinery reports.
#[derive(Clone, Debug)]
pub enum MigrationError {
    InvalidDescriptor(&'static str),
    Operation(String),
    RecoveryCheckpointRequired(String),
    RecoveryTargetRequired(String),
    RecoveryCheckpointUnavailable(String),
    BackupNotIndependent,
    BackupMismatch,
    BackupTargetMismatch,
    BackupArtifactNotRegular,
    UntrustedBackupArtifact,
    UntrustedLedgerPath,
    UntrustedLockPath,
    UntrustedRecoveryPath,
    UnsupportedLedgerVersion,
    CorruptLedger(String),
    CorruptRecoveryMarker(String),
    LedgerCommitFailed { migration_id: String, reason: String },
    DurabilityUncertain(String),
    RecoveryRequired(String),
    VerificationFailed { migration_id: String, reason: String },
    ManualRecoveryRequired(String),
    Io(String),
}

/// Characters permitted in a migration identifier.
pub open spec fn is_id_char(c: char) -> bool {
    ('a' <= c && c <= 'z') || ('A' <= c && c <= 'Z') || ('0' <= c && c <= '9') || c == '-' || c
        == '_' || c == '.' || c == ':'
}

/// True when `s` contains two consecutive dots.
pub open spec fn has_double_dot(s: Seq<char>) -> bool {
    exists|i: int| 0 <= i < s.len() - 1 && #[trigger] s[i] == '.' && s[i + 1] == '.'
}

/// A bounded, path-safe identifier: non-empty, at most `max_len` bytes, only
/// ASCII letters, digits and `-_.:`, and no `..`.
pub open spec fn valid_identifier(s: Seq<char>, max_len: nat) -> bool {
    &&& 0 < s.len() <= max_len
    &&& forall|i: int| 0 <= i < s.len() ==> is_id_char(#[trigger] s[i])
    &&& !has_double_dot(s)
}

fn id_char(c: char) -> (r: bool)
    ensures
        r == is_id_char(c),
{
    ('a' <= c && c <= 'z') || ('A' <= c && c <= 'Z') || ('0' <= c && c <= '9') || c == '-' || c
        == '_' || c == '.' || c == ':'
}

/// Whether `value` is a valid identifier of at most `max_len` bytes.
pub fn check_identifier(value: &[char], max_len: usize) -> (r: bool)
    ensures
        r == valid_identifier(value@, max_len as nat),
{
    if value.len() == 0 || value.len() > max_len {
        return false;
    }
    let mut i: usize = 0;
    while i < value.len()
        invariant
            i <= value@.len(),
            forall|j: int| 0 <= j < i ==> is_id_char(#[trigger] value@[j]),
            forall|j: int| 0 <= j < i - 1 ==> !(#[trigger] value@[j] == '.' && value@[j + 1] == '.'),
        decreases value@.len() - i,
    {
        if !id_char(value[i]) {
            return false;
        }
        if i > 0 && value[i - 1] == '.' && value[i] == '.' {
            assert(value@[i - 1] == '.' && value@[(i - 1) + 1] == '.');
            return false;
        }
        i = i + 1;
    }
    true
}

/// Whether `value` is a valid migration identifier (at most 128 bytes).
pub fn valid_migration_id(value: &str) -> (r: bool)
    ensures
        r == valid_identifier(value@, 128),
{
    let chars = chars_of(value);
    check_identifier(&chars, 128)
}

impl MigrationDescriptor {
    /// The conditions `validate` accepts.
    pub open spec fn spec_valid(&self) -> bool {
        &&& valid_identifier(self.id@, 128)
        &&& !all_whitespace(self.introduced_in@)
        &&& self.introduced_in@.len() > 0
        &&& (vstd::utf8::encode_utf8(self.introduced_in@).len() as usize) <= 64
        &&& !any_control(self.introduced_in@)
    }

    /// Checks that the identifier is path-safe and the version is a bounded,
    /// non-blank, control-free token.
    pub fn validate(&self) -> (r: Result<(), MigrationError>)
        ensures
            r is Ok <==> self.spec_valid(),
            r matches Err(e) ==> e is InvalidDescriptor,
    {
        if !valid_migration_id(self.id.as_str()) {
            return Err(MigrationError::InvalidDescriptor(
                "migration id must be a bounded path-safe identifier",
            ));
        }
        let version = chars_of(self.introduced_in.as_str());
        if is_blank(&version) || self.introduced_in.as_str().len() > 64 || has_control(&version) {
            return Err(MigrationError::InvalidDescriptor(
                "introduced_in must be a bounded version identifier",
            ));
        }
        Ok(())
    }
}


/// The message of an error, as the migration machinery reports it.
pub open spec fn error_text(e: MigrationError) -> Seq<char> {
    match e {
        MigrationError::InvalidDescriptor(m) => m@,
        MigrationError::Operation(m) => m@,
        MigrationError::RecoveryCheckpointRequired(id) => "migration "@ + id@ + " requires a validated recovery backup"@,
        MigrationError::RecoveryTargetRequired(id) => "migration "@ + id@ + " requires an exact recovery target binding"@,
        MigrationError::RecoveryCheckpointUnavailable(id) => "migration "@ + id@ + " has no persisted recovery checkpoint to revalidate"@,
        MigrationError::BackupNotIndependent => "migration backup must be a distinct single-purpose file/inode"@,
        MigrationError::BackupMismatch => "migration backup no longer matches its validated source bytes/identity"@,
        MigrationError::BackupTargetMismatch => "migration backup is not bound to the exact migration target"@,
        MigrationError::BackupArtifactNotRegular => "migration backup evidence must use regular non-symlink files"@,
        MigrationError::UntrustedBackupArtifact => "migration backup must be a single-link artifact without group/other write access"@,
        MigrationError::UntrustedLedgerPath => "migration ledger must be a regular non-symlink file without group/other write access"@,
        MigrationError::UntrustedLockPath => "migration lock must be a stable regular non-symlink file without group/other write access"@,
        MigrationError::UntrustedRecoveryPath => "migration recovery marker must be a regular non-symlink file without group/other write access"@,
        MigrationError::UnsupportedLedgerVersion => "unsupported migration ledger version"@,
        MigrationError::CorruptLedger(reason) => "corrupt migration ledger: "@ + reason@,
        MigrationError::CorruptRecoveryMarker(reason) => "corrupt migration recovery marker: "@ + reason@,
        MigrationError::LedgerCommitFailed { migration_id, reason } => "migration "@ + migration_id@
            + " ledger commit failed before the commit point and the effect was rolled back: "@ + reason@,
        MigrationError::DurabilityUncertain(reason) => "migration effect or recovery state has uncertain durability: "@ + reason@,
        MigrationError::RecoveryRequired(reason) => "migration runner requires reopen/recovery before further work: "@ + reason@,
        MigrationError::VerificationFailed { migration_id, reason } => "migration "@ + migration_id@
            + " verification failed after rollback: "@ + reason@,
        MigrationError::ManualRecoveryRequired(id) => "migration "@ + id@ + " requires manual recovery"@,
        MigrationError::Io(message) => "migration persistence I/O failed: "@ + message@,
    }
}

fn owned(s: &str) -> (out: String)
    ensures
        out@ == s@,
{
    string_of(&chars_of(s))
}

fn wrap(prefix: &str, middle: &str, suffix: &str) -> (out: String)
    ensures
        out@ == prefix@ + middle@ + suffix@,
{
    let a = concat_str(prefix, middle);
    concat_str(a.as_str(), suffix)
}

impl MigrationError {
    /// The error's message (see [`error_text`]).
    pub fn to_string(&self) -> (r: String)
        ensures
            r@ == error_text(*self),
    {
        match self {
            MigrationError::InvalidDescriptor(m) => owned(*m),
            MigrationError::Operation(m) => m.clone(),
            MigrationError::RecoveryCheckpointRequired(id) => wrap("migration ", id.as_str(), " requires a validated recovery backup"),
            MigrationError::RecoveryTargetRequired(id) => wrap("migration ", id.as_str(), " requires an exact recovery target binding"),
            MigrationError::RecoveryCheckpointUnavailable(id) => wrap("migration ", id.as_str(), " has no persisted recovery checkpoint to revalidate"),
            MigrationError::BackupNotIndependent => owned("migration backup must be a distinct single-purpose file/inode"),
            MigrationError::BackupMismatch => owned("migration backup no longer matches its validated source bytes/identity"),
            MigrationError::BackupTargetMismatch => owned("migration backup is not bound to the exact migration target"),
            MigrationError::BackupArtifactNotRegular => owned("migration backup evidence must use regular non-symlink files"),
            MigrationError::UntrustedBackupArtifact => owned("migration backup must be a single-link artifact without group/other write access"),
            MigrationError::UntrustedLedgerPath => owned("migration ledger must be a regular non-symlink file without group/other write access"),
            MigrationError::UntrustedLockPath => owned("migration lock must be a stable regular non-symlink file without group/other write access"),
            MigrationError::UntrustedRecoveryPath => owned("migration recovery marker must be a regular non-symlink file without group/other write access"),
            MigrationError::UnsupportedLedgerVersion => owned("unsupported migration ledger version"),
            MigrationError::CorruptLedger(reason) => concat_str("corrupt migration ledger: ", reason.as_str()),
            MigrationError::CorruptRecoveryMarker(reason) => concat_str("corrupt migration recovery marker: ", reason.as_str()),
            MigrationError::LedgerCommitFailed { migration_id, reason } => wrap(
                "migration ",
                migration_id.as_str(),
                concat_str(" ledger commit failed before the commit point and the effect was rolled back: ", reason.as_str()).as_str(),
            ),
            MigrationError::DurabilityUncertain(reason) => concat_str("migration effect or recovery state has uncertain durability: ", reason.as_str()),
            MigrationError::RecoveryRequired(reason) => concat_str("migration runner requires reopen/recovery before further work: ", reason.as_str()),
            MigrationError::VerificationFailed { migration_id, reason } => wrap(
                "migration ",
                migration_id.as_str(),
                concat_str(" verification failed after rollback: ", reason.as_str()).as_str(),
            ),
            MigrationError::ManualRecoveryRequired(id) => wrap("migration ", id.as_str(), " requires manual recovery"),
            MigrationError::Io(message) => concat_str("migration persistence I/O failed: ", message.as_str()),
        }
    }
}

} // verus!
