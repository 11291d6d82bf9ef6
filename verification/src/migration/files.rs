//! Decisions on the ledger's control files: the ledger itself, its lock
//! and its recovery marker, each named by a sibling path of the ledger.
use vstd::prelude::*;
use crate::migration::descriptor::MigrationError;
use crate::migration::recovery::{group_or_other_writable, FileStat};
use crate::text::{chars_of, string_of};

verus! {

/// Largest ledger file that is read.
pub const MAX_LEDGER_BYTES: u64 = 1048576;

/// Largest recovery marker that is read.
pub const MAX_RECOVERY_MARKER_BYTES: u64 = 16384;

/// A trusted control file: a regular file, not a symlink, that neither group
/// nor other may write.
pub open spec fn control_file_ok(stat: FileStat) -> bool {
    !stat.is_symlink && stat.is_file && !group_or_other_writable(stat.mode)
}

fn trusted(stat: &FileStat) -> (r: bool)
    ensures
        r == control_file_ok(*stat),
{
    !stat.is_symlink && stat.is_file && stat.mode & 0o022u32 == 0
}

/// Decision on an existing ledger file before it is read.
pub fn check_ledger_file(stat: &FileStat) -> (r: Result<(), MigrationError>)
    ensures
        r is Ok <==> control_file_ok(*stat) && stat.len <= MAX_LEDGER_BYTES,
        r matches Err(e) ==> if !control_file_ok(*stat) {
            e is UntrustedLedgerPath
        } else {
            e is CorruptLedger
        },
{
    if !trusted(stat) {
        return Err(MigrationError::UntrustedLedgerPath);
    }
    if stat.len > MAX_LEDGER_BYTES {
        return Err(MigrationError::CorruptLedger("migration ledger exceeds the supported size bound".to_string()));
    }
    Ok(())
}

/// Decision on an existing recovery marker before it is read.
pub fn check_recovery_marker_file(stat: &FileStat) -> (r: Result<(), MigrationError>)
    ensures
        r is Ok <==> control_file_ok(*stat) && stat.len <= MAX_RECOVERY_MARKER_BYTES,
        r matches Err(e) ==> if !control_file_ok(*stat) {
            e is UntrustedRecoveryPath
        } else {
            e is CorruptRecoveryMarker
        },
{
    if !trusted(stat) {
        return Err(MigrationError::UntrustedRecoveryPath);
    }
    if stat.len > MAX_RECOVERY_MARKER_BYTES {
        return Err(MigrationError::CorruptRecoveryMarker(
            "migration recovery marker exceeds the supported size bound".to_string(),
        ));
    }
    Ok(())
}

/// Decision on an existing recovery marker before it is removed.
pub fn check_removable_marker(stat: &FileStat) -> (r: Result<(), MigrationError>)
    ensures
        r is Ok <==> control_file_ok(*stat),
        r matches Err(e) ==> e is UntrustedRecoveryPath,
{
    if !trusted(stat) {
        return Err(MigrationError::UntrustedRecoveryPath);
    }
    Ok(())
}

/// Decision on a lock file that exists before it is opened.
pub fn check_existing_lock(stat: &FileStat) -> (r: Result<(), MigrationError>)
    ensures
        r is Ok <==> control_file_ok(*stat),
        r matches Err(e) ==> e is UntrustedLockPath,
{
    if !trusted(stat) {
        return Err(MigrationError::UntrustedLockPath);
    }
    Ok(())
}

/// Decision on an opened lock file: its path is still a trusted control
/// file and names the inode that was opened.
pub fn check_lock_identity(path_stat: &FileStat, opened: &FileStat) -> (r: Result<(), MigrationError>)
    ensures
        r is Ok <==> control_file_ok(*path_stat) && opened.device == path_stat.device && opened.inode == path_stat.inode,
        r matches Err(e) ==> e is UntrustedLockPath,
{
    if !trusted(path_stat) || opened.device != path_stat.device || opened.inode != path_stat.inode {
        return Err(MigrationError::UntrustedLockPath);
    }
    Ok(())
}

/// The name of the sibling file `suffix` of the ledger `file_name`:
/// `.<file_name>.<suffix>`.
pub open spec fn sidecar_file_name(file_name: Seq<char>, suffix: Seq<char>) -> Seq<char> {
    seq!['.'] + file_name + seq!['.'] + suffix
}

pub fn sidecar_name(file_name: &str, suffix: &str) -> (r: String)
    ensures
        r@ == sidecar_file_name(file_name@, suffix@),
{
    let mut out = vec!['.'];
    let mut name = chars_of(file_name);
    out.append(&mut name);
    out.push('.');
    let mut s = chars_of(suffix);
    out.append(&mut s);
    assert(out@ =~= sidecar_file_name(file_name@, suffix@));
    string_of(&out)
}

} // verus!
