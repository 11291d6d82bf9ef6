//! Recovery evidence for risky migrations: the validated backup of the exact
//! migration target, the checkpoint persisted from it, and the in-progress
//! recovery record. File-system observations come in as [`FileStat`] values;
//! the decisions over them are made here.
use vstd::prelude::*;
use crate::migration::descriptor::{valid_identifier, valid_migration_id, MigrationError};
use crate::path::{path_absolute, paths_equal, same_path};

verus! {

/// Longest path, in bytes, a recovery checkpoint may name.
pub const MAX_RECOVERY_PATH_BYTES: usize = 4096;

/// What one `stat` of a file reported.
#[derive(Clone, Copy, Debug, PartialEq, Eq, Structural)]
pub struct FileStat {
    pub device: u64,
    pub inode: u64,
    pub len: u64,
    pub nlink: u64,
    pub mode: u32,
    pub is_symlink: bool,
    pub is_file: bool,
}

/// Group or other may write the file.
pub open spec fn group_or_other_writable(mode: u32) -> bool {
    mode & 0o022u32 != 0
}

fn writable_by_others(mode: u32) -> (r: bool)
    ensures
        r == group_or_other_writable(mode),
{
    mode & 0o022u32 != 0
}

/// The abstract content of a recovery checkpoint.
pub struct CheckpointView {
    pub target_path: Seq<u8>,
    pub backup_path: Seq<u8>,
    pub target_device: u64,
    pub target_inode: u64,
    pub backup_device: u64,
    pub backup_inode: u64,
    pub size: u64,
    pub integrity_tag: u64,
}

/// The descriptor checks of a checkpoint: two distinct absolute paths of
/// bounded length, and a non-empty backup.
pub open spec fn checkpoint_valid(c: CheckpointView) -> bool {
    &&& path_absolute(c.target_path)
    &&& path_absolute(c.backup_path)
    &&& c.target_path.len() <= MAX_RECOVERY_PATH_BYTES
    &&& c.backup_path.len() <= MAX_RECOVERY_PATH_BYTES
    &&& !same_path(c.target_path, c.backup_path)
    &&& c.size != 0
}

/// Identity and content of the backup of a migration target, as the
/// backup validation established them.
#[derive(Clone, Debug)]
pub struct ValidatedBackup {
    source_path: Vec<u8>,
    backup_path: Vec<u8>,
    source_device: u64,
    source_inode: u64,
    backup_device: u64,
    backup_inode: u64,
    size: u64,
    integrity_tag: u64,
}

/// The abstract content of a validated backup.
pub struct BackupView {
    pub source_path: Seq<u8>,
    pub backup_path: Seq<u8>,
    pub source_device: u64,
    pub source_inode: u64,
    pub backup_device: u64,
    pub backup_inode: u64,
    pub size: u64,
    pub integrity_tag: u64,
}

impl View for ValidatedBackup {
    type V = BackupView;

    closed spec fn view(&self) -> BackupView {
        BackupView {
            source_path: self.source_path@,
            backup_path: self.backup_path@,
            source_device: self.source_device,
            source_inode: self.source_inode,
            backup_device: self.backup_device,
            backup_inode: self.backup_inode,
            size: self.size,
            integrity_tag: self.integrity_tag,
        }
    }
}

/// The backup is independent of its source and trustworthy: a different
/// path and inode, one link, not writable by group or other, same non-zero
/// length.
pub open spec fn backup_pair_ok(source_path: Seq<u8>, backup_path: Seq<u8>, source: FileStat, backup: FileStat) -> bool {
    &&& !same_path(source_path, backup_path)
    &&& !(source.device == backup.device && source.inode == backup.inode)
    &&& backup.nlink == 1
    &&& !group_or_other_writable(backup.mode)
    &&& source.len != 0
    &&& source.len == backup.len
}

/// Neither file changed identity or length, and the backup stayed a
/// single-link, protected file, across the durability sync.
pub open spec fn stable_across_sync(source: FileStat, backup: FileStat, source_after: FileStat, backup_after: FileStat) -> bool {
    &&& source_after.device == source.device
    &&& source_after.inode == source.inode
    &&& backup_after.device == backup.device
    &&& backup_after.inode == backup.inode
    &&& source_after.len == source.len
    &&& backup_after.len == backup.len
    &&& backup_after.nlink == 1
    &&& !group_or_other_writable(backup_after.mode)
}

/// A protected artifact: a regular non-symlink file with one link, not
/// writable by group or other, with the expected identity.
pub open spec fn durable_artifact_ok(stat: FileStat, device: u64, inode: u64) -> bool {
    &&& !stat.is_symlink
    &&& stat.is_file
    &&& stat.device == device
    &&& stat.inode == inode
    &&& stat.nlink == 1
    &&& !group_or_other_writable(stat.mode)
}

/// Decision for a file about to be used as migration evidence: it must be a
/// regular file, not a symlink.
pub fn check_regular_file(stat: &FileStat) -> (r: Result<(), MigrationError>)
    ensures
        r is Ok <==> !stat.is_symlink && stat.is_file,
        r matches Err(e) ==> e is BackupArtifactNotRegular,
{
    if stat.is_symlink || !stat.is_file {
        return Err(MigrationError::BackupArtifactNotRegular);
    }
    Ok(())
}

/// Decision on a backup artifact before and after it is synced to disk.
pub fn check_durable_artifact(stat: &FileStat, device: u64, inode: u64) -> (r: Result<(), MigrationError>)
    ensures
        r is Ok <==> durable_artifact_ok(*stat, device, inode),
        r matches Err(e) ==> e is UntrustedBackupArtifact,
{
    if stat.is_symlink || !stat.is_file || stat.device != device || stat.inode != inode
        || stat.nlink != 1 || writable_by_others(stat.mode) {
        return Err(MigrationError::UntrustedBackupArtifact);
    }
    Ok(())
}

/// Decision on the opened backup artifact: it is still the expected
/// single-link inode.
pub fn check_opened_artifact(stat: &FileStat, device: u64, inode: u64) -> (r: Result<(), MigrationError>)
    ensures
        r is Ok <==> (stat.device == device && stat.inode == inode && stat.nlink == 1),
        r matches Err(e) ==> e is UntrustedBackupArtifact,
{
    if stat.device != device || stat.inode != inode || stat.nlink != 1 {
        return Err(MigrationError::UntrustedBackupArtifact);
    }
    Ok(())
}

impl ValidatedBackup {
    /// First decision of backup validation, over the canonical paths and the
    /// metadata of both files.
    pub fn check_pair(source_path: &[u8], backup_path: &[u8], source: &FileStat, backup: &FileStat) -> (r: Result<(), MigrationError>)
        ensures
            r is Ok <==> backup_pair_ok(source_path@, backup_path@, *source, *backup),
            r matches Err(e) ==> {
                if same_path(source_path@, backup_path@) || (source.device == backup.device && source.inode == backup.inode) {
                    e is BackupNotIndependent
                } else if backup.nlink != 1 || group_or_other_writable(backup.mode) {
                    e is UntrustedBackupArtifact
                } else {
                    e is BackupMismatch
                }
            },
    {
        if paths_equal(source_path, backup_path) || (source.device == backup.device && source.inode == backup.inode) {
            return Err(MigrationError::BackupNotIndependent);
        }
        if backup.nlink != 1 || writable_by_others(backup.mode) {
            return Err(MigrationError::UntrustedBackupArtifact);
        }
        if source.len == 0 || source.len != backup.len {
            return Err(MigrationError::BackupMismatch);
        }
        Ok(())
    }

    /// Decision on the first byte-for-byte comparison of source and backup.
    pub fn check_copy(equal: bool) -> (r: Result<(), MigrationError>)
        ensures
            r is Ok <==> equal,
            r matches Err(e) ==> e is BackupMismatch,
    {
        if !equal {
            return Err(MigrationError::BackupMismatch);
        }
        Ok(())
    }

    /// Completes backup validation after the durability sync: both files kept
    /// their identity and length, and a second comparison found the same
    /// bytes with the same integrity tag.
    pub fn from_evidence(
        source_path: Vec<u8>,
        backup_path: Vec<u8>,
        source: &FileStat,
        backup: &FileStat,
        integrity_tag: u64,
        source_after: &FileStat,
        backup_after: &FileStat,
        equal_after_sync: bool,
        integrity_after_sync: u64,
    ) -> (r: Result<ValidatedBackup, MigrationError>)
        ensures
            r is Ok <==> stable_across_sync(*source, *backup, *source_after, *backup_after)
                && equal_after_sync && integrity_after_sync == integrity_tag,
            r matches Err(e) ==> e is BackupMismatch,
            r matches Ok(v) ==> v@ == (BackupView {
                source_path: source_path@,
                backup_path: backup_path@,
                source_device: source.device,
                source_inode: source.inode,
                backup_device: backup.device,
                backup_inode: backup.inode,
                size: source.len,
                integrity_tag,
            }),
    {
        if source_after.device != source.device || source_after.inode != source.inode
            || backup_after.device != backup.device || backup_after.inode != backup.inode
            || source_after.len != source.len || backup_after.len != backup.len
            || backup_after.nlink != 1 || writable_by_others(backup_after.mode) {
            return Err(MigrationError::BackupMismatch);
        }
        if !equal_after_sync || integrity_after_sync != integrity_tag {
            return Err(MigrationError::BackupMismatch);
        }
        Ok(ValidatedBackup {
            source_path,
            backup_path,
            source_device: source.device,
            source_inode: source.inode,
            backup_device: backup.device,
            backup_inode: backup.inode,
            size: source.len,
            integrity_tag,
        })
    }

    /// Decision of revalidation: a fresh validation of the same pair found
    /// the same identities, size and integrity tag.
    pub fn check_unchanged(&self, current: &ValidatedBackup) -> (r: Result<(), MigrationError>)
        ensures
            r is Ok <==> (current@.source_device == self@.source_device
                && current@.source_inode == self@.source_inode
                && current@.backup_device == self@.backup_device
                && current@.backup_inode == self@.backup_inode
                && current@.size == self@.size
                && current@.integrity_tag == self@.integrity_tag),
            r matches Err(e) ==> e is BackupMismatch,
    {
        if current.source_device != self.source_device || current.source_inode != self.source_inode
            || current.backup_device != self.backup_device || current.backup_inode != self.backup_inode
            || current.size != self.size || current.integrity_tag != self.integrity_tag {
            return Err(MigrationError::BackupMismatch);
        }
        Ok(())
    }

    /// Decision binding the backup to the exact migration target: the
    /// canonical target path and its inode are the backup's source.
    pub fn check_target(&self, target_path: &[u8], target: &FileStat) -> (r: Result<(), MigrationError>)
        ensures
            r is Ok <==> (same_path(target_path@, self@.source_path)
                && target.device == self@.source_device && target.inode == self@.source_inode),
            r matches Err(e) ==> e is BackupTargetMismatch,
    {
        if !paths_equal(target_path, self.source_path.as_slice()) || target.device != self.source_device
            || target.inode != self.source_inode {
            return Err(MigrationError::BackupTargetMismatch);
        }
        Ok(())
    }

    /// Decision of the stability check made right before the migration
    /// applies: both paths and both open files still name the validated
    /// inodes with the validated length, and the backup is still protected.
    pub fn check_stable(
        &self,
        source_path: &FileStat,
        backup_path: &FileStat,
        source_open: &FileStat,
        backup_open: &FileStat,
    ) -> (r: Result<(), MigrationError>)
        ensures
            r is Ok <==> ({
                &&& !source_path.is_symlink && source_path.is_file
                &&& !backup_path.is_symlink && backup_path.is_file
                &&& source_path.device == self@.source_device && source_path.inode == self@.source_inode
                &&& backup_path.device == self@.backup_device && backup_path.inode == self@.backup_inode
                &&& source_open.device == self@.source_device && source_open.inode == self@.source_inode
                &&& backup_open.device == self@.backup_device && backup_open.inode == self@.backup_inode
                &&& source_path.len == self@.size && backup_path.len == self@.size
                &&& backup_path.nlink == 1 && !group_or_other_writable(backup_path.mode)
            }),
            r matches Err(e) ==> e is BackupMismatch,
    {
        if source_path.is_symlink || !source_path.is_file || backup_path.is_symlink || !backup_path.is_file
            || source_path.device != self.source_device || source_path.inode != self.source_inode
            || backup_path.device != self.backup_device || backup_path.inode != self.backup_inode
            || source_open.device != self.source_device || source_open.inode != self.source_inode
            || backup_open.device != self.backup_device || backup_open.inode != self.backup_inode
            || source_path.len != self.size || backup_path.len != self.size
            || backup_path.nlink != 1 || writable_by_others(backup_path.mode) {
            return Err(MigrationError::BackupMismatch);
        }
        Ok(())
    }

    /// Decision on a content comparison against the validated integrity tag.
    pub fn check_content(&self, equal: bool, integrity_tag: u64) -> (r: Result<(), MigrationError>)
        ensures
            r is Ok <==> equal && integrity_tag == self@.integrity_tag,
            r matches Err(e) ==> e is BackupMismatch,
    {
        if !equal || integrity_tag != self.integrity_tag {
            return Err(MigrationError::BackupMismatch);
        }
        Ok(())
    }

    pub fn source_path(&self) -> (r: &[u8])
        ensures
            r@ == self@.source_path,
    {
        self.source_path.as_slice()
    }

    pub fn backup_path(&self) -> (r: &[u8])
        ensures
            r@ == self@.backup_path,
    {
        self.backup_path.as_slice()
    }

    pub fn source_device(&self) -> (r: u64)
        ensures
            r == self@.source_device,
    {
        self.source_device
    }

    pub fn source_inode(&self) -> (r: u64)
        ensures
            r == self@.source_inode,
    {
        self.source_inode
    }

    pub fn backup_device(&self) -> (r: u64)
        ensures
            r == self@.backup_device,
    {
        self.backup_device
    }

    pub fn backup_inode(&self) -> (r: u64)
        ensures
            r == self@.backup_inode,
    {
        self.backup_inode
    }

    pub fn size(&self) -> (r: u64)
        ensures
            r == self@.size,
    {
        self.size
    }

    pub fn integrity_tag(&self) -> (r: u64)
        ensures
            r == self@.integrity_tag,
    {
        self.integrity_tag
    }
}


/// A persisted recovery checkpoint: the exact target of a risky migration and
/// the identity and content of its backup.
#[derive(Debug)]
pub struct MigrationRecoveryCheckpoint {
    target_path: Vec<u8>,
    backup_path: Vec<u8>,
    target_device: u64,
    target_inode: u64,
    backup_device: u64,
    backup_inode: u64,
    size: u64,
    integrity_tag: u64,
}

impl View for MigrationRecoveryCheckpoint {
    type V = CheckpointView;

    closed spec fn view(&self) -> CheckpointView {
        CheckpointView {
            target_path: self.target_path@,
            backup_path: self.backup_path@,
            target_device: self.target_device,
            target_inode: self.target_inode,
            backup_device: self.backup_device,
            backup_inode: self.backup_inode,
            size: self.size,
            integrity_tag: self.integrity_tag,
        }
    }
}

/// The checkpoint that a validated backup yields.
pub open spec fn checkpoint_of(b: BackupView) -> CheckpointView {
    CheckpointView {
        target_path: b.source_path,
        backup_path: b.backup_path,
        target_device: b.source_device,
        target_inode: b.source_inode,
        backup_device: b.backup_device,
        backup_inode: b.backup_inode,
        size: b.size,
        integrity_tag: b.integrity_tag,
    }
}

fn path_bounded_absolute(p: &[u8]) -> (r: bool)
    ensures
        r == (path_absolute(p@) && p@.len() <= MAX_RECOVERY_PATH_BYTES),
{
    p.len() > 0 && p[0] == 0x2fu8 && p.len() <= MAX_RECOVERY_PATH_BYTES
}

impl MigrationRecoveryCheckpoint {
    /// Builds a checkpoint from its fields, holding them to the descriptor
    /// checks.
    pub fn new(
        target_path: Vec<u8>,
        backup_path: Vec<u8>,
        target_device: u64,
        target_inode: u64,
        backup_device: u64,
        backup_inode: u64,
        size: u64,
        integrity_tag: u64,
    ) -> (r: Result<MigrationRecoveryCheckpoint, MigrationError>)
        ensures
            r is Ok <==> checkpoint_valid(CheckpointView {
                target_path: target_path@,
                backup_path: backup_path@,
                target_device,
                target_inode,
                backup_device,
                backup_inode,
                size,
                integrity_tag,
            }),
            r matches Ok(c) ==> c@ == (CheckpointView {
                target_path: target_path@,
                backup_path: backup_path@,
                target_device,
                target_inode,
                backup_device,
                backup_inode,
                size,
                integrity_tag,
            }),
            r matches Err(e) ==> e is CorruptRecoveryMarker,
    {
        let checkpoint = MigrationRecoveryCheckpoint {
            target_path,
            backup_path,
            target_device,
            target_inode,
            backup_device,
            backup_inode,
            size,
            integrity_tag,
        };
        match checkpoint.validate_descriptor() {
            Ok(()) => Ok(checkpoint),
            Err(e) => Err(e),
        }
    }

    /// The checkpoint recorded for a validated backup.
    pub fn from_validated_backup(backup: &ValidatedBackup) -> (r: Result<MigrationRecoveryCheckpoint, MigrationError>)
        ensures
            r is Ok <==> checkpoint_valid(checkpoint_of(backup@)),
            r matches Ok(c) ==> c@ == checkpoint_of(backup@),
            r matches Err(e) ==> e is CorruptRecoveryMarker,
    {
        Self::new(
            backup.source_path.clone(),
            backup.backup_path.clone(),
            backup.source_device,
            backup.source_inode,
            backup.backup_device,
            backup.backup_inode,
            backup.size,
            backup.integrity_tag,
        )
    }

    /// Holds the checkpoint to the descriptor checks.
    pub fn validate_descriptor(&self) -> (r: Result<(), MigrationError>)
        ensures
            r is Ok <==> checkpoint_valid(self@),
            r matches Err(e) ==> e is CorruptRecoveryMarker,
    {
        if paths_equal(self.target_path.as_slice(), self.backup_path.as_slice())
            || !path_bounded_absolute(self.target_path.as_slice())
            || !path_bounded_absolute(self.backup_path.as_slice()) || self.size == 0 {
            return Err(MigrationError::CorruptRecoveryMarker(
                "recovery checkpoint descriptor is invalid".to_string(),
            ));
        }
        Ok(())
    }

    /// Decision on the backup path's metadata during revalidation: the
    /// descriptor holds and the path names the recorded protected inode with
    /// the recorded size.
    pub fn check_backup_path(&self, stat: &FileStat) -> (r: Result<(), MigrationError>)
        ensures
            r is Ok <==> checkpoint_valid(self@) && durable_artifact_ok(*stat, self@.backup_device, self@.backup_inode)
                && stat.len == self@.size,
            r matches Err(e) ==> if !checkpoint_valid(self@) {
                e is CorruptRecoveryMarker
            } else {
                e is UntrustedBackupArtifact
            },
    {
        match self.validate_descriptor() {
            Ok(()) => {},
            Err(e) => return Err(e),
        }
        if check_durable_artifact(stat, self.backup_device, self.backup_inode).is_err() || stat.len != self.size {
            return Err(MigrationError::UntrustedBackupArtifact);
        }
        Ok(())
    }

    /// Decision on the opened backup file during revalidation.
    pub fn check_backup_opened(&self, stat: &FileStat) -> (r: Result<(), MigrationError>)
        ensures
            r is Ok <==> (stat.device == self@.backup_device && stat.inode == self@.backup_inode
                && stat.len == self@.size && stat.nlink == 1),
            r matches Err(e) ==> e is UntrustedBackupArtifact,
    {
        if stat.device != self.backup_device || stat.inode != self.backup_inode || stat.len != self.size
            || stat.nlink != 1 {
            return Err(MigrationError::UntrustedBackupArtifact);
        }
        Ok(())
    }

    /// Decision on the size and integrity tag read back from the backup.
    pub fn check_backup_content(&self, size: u64, integrity_tag: u64) -> (r: Result<(), MigrationError>)
        ensures
            r is Ok <==> size == self@.size && integrity_tag == self@.integrity_tag,
            r matches Err(e) ==> e is BackupMismatch,
    {
        if size != self.size || integrity_tag != self.integrity_tag {
            return Err(MigrationError::BackupMismatch);
        }
        Ok(())
    }

    pub fn target_path(&self) -> (r: &[u8])
        ensures
            r@ == self@.target_path,
    {
        self.target_path.as_slice()
    }

    pub fn backup_path(&self) -> (r: &[u8])
        ensures
            r@ == self@.backup_path,
    {
        self.backup_path.as_slice()
    }

    pub fn target_device(&self) -> (r: u64)
        ensures
            r == self@.target_device,
    {
        self.target_device
    }

    pub fn target_inode(&self) -> (r: u64)
        ensures
            r == self@.target_inode,
    {
        self.target_inode
    }

    pub fn backup_device(&self) -> (r: u64)
        ensures
            r == self@.backup_device,
    {
        self.backup_device
    }

    pub fn backup_inode(&self) -> (r: u64)
        ensures
            r == self@.backup_inode,
    {
        self.backup_inode
    }

    pub fn size(&self) -> (r: u64)
        ensures
            r == self@.size,
    {
        self.size
    }

    pub fn integrity_tag(&self) -> (r: u64)
        ensures
            r == self@.integrity_tag,
    {
        self.integrity_tag
    }
}

impl Clone for MigrationRecoveryCheckpoint {
    fn clone(&self) -> (r: Self)
        ensures
            r@ == self@,
    {
        MigrationRecoveryCheckpoint {
            target_path: self.target_path.clone(),
            backup_path: self.backup_path.clone(),
            target_device: self.target_device,
            target_inode: self.target_inode,
            backup_device: self.backup_device,
            backup_inode: self.backup_inode,
            size: self.size,
            integrity_tag: self.integrity_tag,
        }
    }
}

/// The abstract content of a recovery record.
pub struct RecordView {
    pub migration_id: Seq<char>,
    pub checkpoint: Option<CheckpointView>,
}

/// The in-progress record of a migration, persisted before its effect so that
/// a crash leaves evidence for recovery.
#[derive(Debug)]
pub struct MigrationRecoveryRecord {
    migration_id: String,
    checkpoint: Option<MigrationRecoveryCheckpoint>,
}

pub open spec fn checkpoint_views(c: Option<MigrationRecoveryCheckpoint>) -> Option<CheckpointView> {
    match c {
        Some(c) => Some(c@),
        None => None,
    }
}

/// A well-formed record: a valid migration id and, when present, a valid
/// checkpoint.
pub open spec fn record_valid(r: RecordView) -> bool {
    valid_identifier(r.migration_id, 128) && match r.checkpoint {
        Some(c) => checkpoint_valid(c),
        None => true,
    }
}

impl View for MigrationRecoveryRecord {
    type V = RecordView;

    closed spec fn view(&self) -> RecordView {
        RecordView { migration_id: self.migration_id@, checkpoint: checkpoint_views(self.checkpoint) }
    }
}

impl MigrationRecoveryRecord {
    /// A record for `migration_id`, with the checkpoint of its backup when the
    /// migration is risky.
    pub fn new(migration_id: String, checkpoint: Option<MigrationRecoveryCheckpoint>) -> (r: Result<MigrationRecoveryRecord, MigrationError>)
        ensures
            r is Ok <==> record_valid(RecordView { migration_id: migration_id@, checkpoint: checkpoint_views(checkpoint) }),
            r matches Ok(rec) ==> rec@ == (RecordView { migration_id: migration_id@, checkpoint: checkpoint_views(checkpoint) }),
            r matches Err(e) ==> e is CorruptRecoveryMarker,
    {
        if !valid_migration_id(migration_id.as_str()) {
            return Err(MigrationError::CorruptRecoveryMarker(
                "recovery record contains an invalid migration id".to_string(),
            ));
        }
        match &checkpoint {
            Some(c) => match c.validate_descriptor() {
                Ok(()) => {},
                Err(e) => return Err(e),
            },
            None => {},
        }
        Ok(MigrationRecoveryRecord { migration_id, checkpoint })
    }

    pub fn migration_id(&self) -> (r: &str)
        ensures
            r@ == self@.migration_id,
    {
        self.migration_id.as_str()
    }

    pub fn checkpoint(&self) -> (r: Option<&MigrationRecoveryCheckpoint>)
        ensures
            match r {
                Some(c) => self@.checkpoint == Some(c@),
                None => self@.checkpoint is None,
            },
    {
        match &self.checkpoint {
            Some(c) => Some(c),
            None => None,
        }
    }

    /// The checkpoint whose backup a recovery revalidates; a record without
    /// one has nothing to revalidate.
    pub fn recovery_checkpoint(&self) -> (r: Result<&MigrationRecoveryCheckpoint, MigrationError>)
        ensures
            match r {
                Ok(c) => self@.checkpoint == Some(c@),
                Err(e) => self@.checkpoint is None && (e matches MigrationError::RecoveryCheckpointUnavailable(id) && id@ == self@.migration_id),
            },
    {
        match &self.checkpoint {
            Some(c) => Ok(c),
            None => Err(MigrationError::RecoveryCheckpointUnavailable(self.migration_id.clone())),
        }
    }
}

impl Clone for MigrationRecoveryRecord {
    fn clone(&self) -> (r: Self)
        ensures
            r@ == self@,
    {
        let checkpoint = match &self.checkpoint {
            Some(c) => Some(c.clone()),
            None => None,
        };
        MigrationRecoveryRecord { migration_id: self.migration_id.clone(), checkpoint }
    }
}

} // verus!
