//! The v0.9 persistent-state migration of the v0.8 SQLite stores: a
//! preservation gate that proves the store is a protected SQLite file,
//! fingerprints its semantic rows, and requires the fingerprint unchanged
//! after the migration and preserved by the backup. The SQLite reads are
//! done by the caller; the checks and the canonical fingerprint encoding
//! are here.
use vstd::prelude::*;
use vstd::utf8::encode_utf8;
use crate::library::digest::{sha256, sha256_of};
use crate::migration::descriptor::{MigrationDescriptor, MigrationError, MigrationScope};
use crate::migration::recovery::{group_or_other_writable, FileStat};
use crate::num::{decimal, hex_of_bytes, lemma_decimal, u64_decimal};
use crate::path::{path_absolute, paths_equal, same_path};
use crate::text::{chars_eq, chars_of, lit, string_of, utf8_bytes};

verus! {

pub const V09_LIBRARY_SQLITE_MIGRATION_ID: &'static str = "v09-library-sqlite-preservation";
pub const V09_AUTHORITY_SQLITE_MIGRATION_ID: &'static str = "v09-authority-sqlite-preservation";
/// `LNRT`, the authority store's SQLite application id.
pub const AUTHORITY_APPLICATION_ID: i64 = 0x4c4e5254;
pub const V08_LIBRARY_SCHEMA_VERSION: i64 = 1;
pub const V08_AUTHORITY_SCHEMA_VERSION: i64 = 2;
pub const MAX_SQLITE_BYTES: u64 = 67108864;

/// Which v0.8 SQLite store a migration preserves.
#[derive(Clone, Copy, Debug, PartialEq, Eq, Structural)]
pub enum V08SqliteStoreKind {
    Library,
    Authority,
}

impl V08SqliteStoreKind {
    pub open spec fn spec_migration_id(self) -> Seq<char> {
        match self {
            V08SqliteStoreKind::Library => V09_LIBRARY_SQLITE_MIGRATION_ID@,
            V08SqliteStoreKind::Authority => V09_AUTHORITY_SQLITE_MIGRATION_ID@,
        }
    }

    pub fn migration_id(self) -> (r: &'static str)
        ensures
            r@ == self.spec_migration_id(),
    {
        match self {
            V08SqliteStoreKind::Library => V09_LIBRARY_SQLITE_MIGRATION_ID,
            V08SqliteStoreKind::Authority => V09_AUTHORITY_SQLITE_MIGRATION_ID,
        }
    }
}

fn operation(message: &str) -> (e: MigrationError)
    ensures
        e matches MigrationError::Operation(m) && m@ == message@,
{
    MigrationError::Operation(message.to_string())
}

/// The target and backup are two distinct absolute paths.
pub fn validate_distinct_absolute_paths(target: &[u8], backup: &[u8]) -> (r: Result<(), MigrationError>)
    ensures
        r is Ok <==> !same_path(target@, backup@) && path_absolute(target@) && path_absolute(backup@),
        r matches Err(e) ==> e is Operation,
{
    if paths_equal(target, backup) || !(target.len() > 0 && target[0] == 0x2fu8) || !(backup.len() > 0 && backup[0] == 0x2fu8) {
        return Err(operation("v0.9 SQLite migration requires distinct absolute target/backup paths"));
    }
    Ok(())
}

/// The directory in which the target is replaced is a real directory that
/// neither group nor other may write.
pub fn check_protected_directory(is_symlink: bool, is_dir: bool, mode: u32) -> (r: Result<(), MigrationError>)
    ensures
        r is Ok <==> !is_symlink && is_dir && !group_or_other_writable(mode),
        r matches Err(e) ==> e is Operation,
{
    if is_symlink || !is_dir || mode & 0o022u32 != 0 {
        return Err(operation("SQLite migration parent directory is not protected"));
    }
    Ok(())
}

pub open spec fn sqlite_magic() -> Seq<u8> {
    seq![0x53u8, 0x51, 0x4c, 0x69, 0x74, 0x65, 0x20, 0x66, 0x6f, 0x72, 0x6d, 0x61, 0x74, 0x20, 0x33, 0x00]
}

/// A protected, bounded SQLite file: a regular non-symlink file of 100
/// bytes to 64 MiB, not writable by group or other, whose content starts
/// with `SQLite format 3` and a NUL.
pub open spec fn sqlite_file_ok(stat: FileStat, content: Seq<u8>) -> bool {
    &&& !stat.is_symlink
    &&& stat.is_file
    &&& 100 <= stat.len <= MAX_SQLITE_BYTES
    &&& !group_or_other_writable(stat.mode)
    &&& content.len() >= 16
    &&& content.take(16) == sqlite_magic()
}

/// Decides whether a file is a protected SQLite database, from its metadata
/// and its content.
pub fn validate_sqlite_file(stat: &FileStat, content: &[u8]) -> (r: Result<(), MigrationError>)
    ensures
        r is Ok <==> sqlite_file_ok(*stat, content@),
        r matches Err(e) ==> e is Operation,
{
    if stat.is_symlink || !stat.is_file || stat.len < 100 || stat.len > MAX_SQLITE_BYTES || stat.mode & 0o022u32 != 0 {
        return Err(operation("v0.9 migration target must be a protected bounded SQLite regular file"));
    }
    let magic: [u8; 16] = [0x53, 0x51, 0x4c, 0x69, 0x74, 0x65, 0x20, 0x66, 0x6f, 0x72, 0x6d, 0x61, 0x74, 0x20, 0x33, 0x00];
    assert(magic@ =~= sqlite_magic());
    if content.len() < 16 {
        return Err(operation("v0.9 migration target is not a SQLite database"));
    }
    let mut i: usize = 0;
    while i < 16
        invariant
            i <= 16,
            content@.len() >= 16,
            magic@ == sqlite_magic(),
            forall|j: int| 0 <= j < i ==> content@[j] == magic@[j],
        decreases 16 - i,
    {
        if content[i] != magic[i] {
            assert(content@.take(16)[i as int] != sqlite_magic()[i as int]);
            return Err(operation("v0.9 migration target is not a SQLite database"));
        }
        i = i + 1;
    }
    assert(content@.take(16) =~= sqlite_magic());
    Ok(())
}

/// `PRAGMA integrity_check` must answer `ok`.
pub fn check_integrity_report(report: &str) -> (r: Result<(), MigrationError>)
    ensures
        r is Ok <==> report@ == seq!['o', 'k'],
        r matches Err(e) ==> e is Operation,
{
    let chars = chars_of(report);
    if chars.len() == 2 && chars[0] == 'o' && chars[1] == 'k' {
        assert(chars@ =~= seq!['o', 'k']);
        return Ok(());
    }
    Err(operation("SQLite integrity_check failed"))
}

/// `pragma_foreign_key_check` must report no violation.
pub fn check_foreign_keys(violations: i64) -> (r: Result<(), MigrationError>)
    ensures
        r is Ok <==> violations == 0,
        r matches Err(e) ==> e is Operation,
{
    if violations != 0 {
        return Err(operation("SQLite foreign_key_check reported violations"));
    }
    Ok(())
}

/// The store carries the v0.8 identity of its kind: the Library's schema
/// version, or the authority's application id and schema version.
pub fn check_store_identity(kind: V08SqliteStoreKind, application_id: i64, user_version: i64) -> (r: Result<(), MigrationError>)
    ensures
        r is Ok <==> match kind {
            V08SqliteStoreKind::Library => user_version == V08_LIBRARY_SCHEMA_VERSION,
            V08SqliteStoreKind::Authority => application_id == AUTHORITY_APPLICATION_ID && user_version == V08_AUTHORITY_SCHEMA_VERSION,
        },
        r matches Err(e) ==> e is Operation,
{
    match kind {
        V08SqliteStoreKind::Library => {
            if user_version != V08_LIBRARY_SCHEMA_VERSION {
                return Err(operation("unsupported v0.8 Library schema version"));
            }
            Ok(())
        },
        V08SqliteStoreKind::Authority => {
            if application_id != AUTHORITY_APPLICATION_ID || user_version != V08_AUTHORITY_SCHEMA_VERSION {
                return Err(operation("unsupported v0.8 authority SQLite identity/schema"));
            }
            Ok(())
        },
    }
}

/// The queries whose rows the fingerprint covers, in order, with their
/// column counts.
pub fn fingerprint_queries(kind: V08SqliteStoreKind) -> (r: Vec<(&'static str, usize)>)
    ensures
        r@.len() == (match kind {
            V08SqliteStoreKind::Library => 6int,
            V08SqliteStoreKind::Authority => 4int,
        }),
{
    let mut q: Vec<(&'static str, usize)> = Vec::new();
    match kind {
        V08SqliteStoreKind::Library => {
            q.push(("SELECT intent_id, revision, actor_id, actor_kind, actor_interactive, statement, status FROM intent_revisions ORDER BY intent_id, revision", 7));
            q.push(("SELECT setup_id, revision, name, description FROM setup_revisions ORDER BY setup_id, revision", 4));
            q.push(("SELECT profile_id, revision, name, machine_class FROM profile_revisions ORDER BY profile_id, revision", 4));
            q.push(("SELECT intent_id, intent_revision, generation, provider_id, resource_id, capability_id, ownership_complete FROM desired_resources ORDER BY intent_id, intent_revision, generation, provider_id, resource_id, capability_id", 7));
            q.push(("SELECT intent_id, intent_revision, generation, provider_id, resource_id, capability_id, origin_kind, origin_id FROM desired_resource_origins ORDER BY intent_id, intent_revision, generation, provider_id, resource_id, capability_id, origin_kind, origin_id", 8));
            q.push(("SELECT sequence, record_kind, entity_id, content_digest, payload FROM lifecycle_records ORDER BY sequence", 5));
        },
        V08SqliteStoreKind::Authority => {
            q.push(("SELECT transaction_id, principal, request_id, current_generation, state_version FROM transactions ORDER BY transaction_id", 5));
            q.push(("SELECT transaction_id, generation, state, binding_digest, request_digest, precondition_digest, observation_digest, COALESCE(desired_state_digest, ''), COALESCE(graph_digest, ''), COALESCE(provenance_digest, '') FROM generations ORDER BY transaction_id, generation", 10));
            q.push(("SELECT transaction_id, event_sequence, generation, state_version, event_kind, payload_digest, previous_digest, event_digest FROM audit_events ORDER BY transaction_id, event_sequence", 8));
            q.push(("SELECT migration_id, checksum FROM schema_migrations ORDER BY migration_id", 2));
        },
    }
    q
}

/// One SQLite value of a fingerprinted row. A real value arrives already
/// written with seventeen fractional digits.
#[derive(Clone, Debug)]
pub enum CanonicalValue {
    Null,
    Integer(i64),
    Real(Vec<u8>),
    Text(Vec<u8>),
    Blob(Vec<u8>),
}

/// The decimal text of a signed integer.
pub open spec fn signed_decimal(v: int) -> Seq<char> {
    if v < 0 {
        seq!['-'] + decimal((-v) as nat)
    } else {
        decimal(v as nat)
    }
}

fn i64_decimal(v: i64) -> (out: Vec<char>)
    ensures
        out@ == signed_decimal(v as int),
{
    if v < 0 {
        let magnitude: u64 = (-(v + 1)) as u64 + 1;
        let mut out = vec!['-'];
        let mut digits = u64_decimal(magnitude);
        out.append(&mut digits);
        out
    } else {
        u64_decimal(v as u64)
    }
}

/// The canonical bytes of one value: a type tag, its content, and the unit
/// separator.
pub open spec fn canonical_value(v: CanonicalValue) -> Seq<u8> {
    match v {
        CanonicalValue::Null => seq![0x4eu8, 0x3a, 0x1f],
        CanonicalValue::Integer(i) => seq![0x49u8, 0x3a] + encode_utf8(signed_decimal(i as int)) + seq![0x1fu8],
        CanonicalValue::Real(text) => seq![0x52u8, 0x3a] + text@ + seq![0x1fu8],
        CanonicalValue::Text(bytes) => seq![0x54u8, 0x3a] + bytes@ + seq![0x1fu8],
        CanonicalValue::Blob(bytes) => seq![0x42u8, 0x3a] + encode_utf8(hex_of_bytes(sha256_of(bytes@))) + seq![0x1fu8],
    }
}

/// The canonical encoding tells value kinds apart: two values with the same
/// encoding are of the same kind, integers with the same encoding are
/// equal, texts and reals with the same encoding hold the same bytes, and
/// NULL is `N:` and the unit separator, so it is
/// never taken for an empty text.
pub proof fn law_canonical_values_distinct(a: CanonicalValue, b: CanonicalValue)
    requires
        canonical_value(a) == canonical_value(b),
    ensures
        (a is Null <==> b is Null) && (a is Integer <==> b is Integer) && (a is Real <==> b is Real) && (a is Text
            <==> b is Text) && (a is Blob <==> b is Blob),
        a is Text && b is Text ==> a->Text_0@ == b->Text_0@,
        a is Real && b is Real ==> a->Real_0@ == b->Real_0@,
        a is Integer && b is Integer ==> a->Integer_0 == b->Integer_0,
{
    let ea = canonical_value(a);
    let eb = canonical_value(b);
    assert(ea[0] == eb[0]);
    if let CanonicalValue::Text(x) = a {
        if let CanonicalValue::Text(y) = b {
            assert(ea.len() == x@.len() + 3 && eb.len() == y@.len() + 3);
            assert(x@ =~= ea.subrange(2, ea.len() - 1));
            assert(y@ =~= eb.subrange(2, eb.len() - 1));
        }
    }
    if let CanonicalValue::Integer(i) = a {
        if let CanonicalValue::Integer(j) = b {
            let ti = signed_decimal(i as int);
            let tj = signed_decimal(j as int);
            let ui = encode_utf8(ti);
            let uj = encode_utf8(tj);
            assert(ui =~= ea.subrange(2, ea.len() - 1));
            assert(uj =~= eb.subrange(2, eb.len() - 1));
            vstd::utf8::encode_utf8_decode_utf8(ti);
            vstd::utf8::encode_utf8_decode_utf8(tj);
            assert(ti == tj);
            if i < 0 {
                lemma_decimal((-i) as nat);
            } else {
                lemma_decimal(i as nat);
            }
            if j < 0 {
                lemma_decimal((-j) as nat);
            } else {
                lemma_decimal(j as nat);
            }
            if i < 0 && j < 0 {
                assert(decimal((-i) as nat) =~= ti.skip(1));
                assert(decimal((-j) as nat) =~= tj.skip(1));
            } else if i < 0 {
                assert(ti[0] == '-');
                assert(crate::num::is_digit(tj[0]));
            } else if j < 0 {
                assert(tj[0] == '-');
                assert(crate::num::is_digit(ti[0]));
            }
        }
    }
    if let CanonicalValue::Real(x) = a {
        if let CanonicalValue::Real(y) = b {
            assert(ea.len() == x@.len() + 3 && eb.len() == y@.len() + 3);
            assert(x@ =~= ea.subrange(2, ea.len() - 1));
            assert(y@ =~= eb.subrange(2, eb.len() - 1));
        }
    }
}

/// NULL is written as the tag `N`, a colon and the unit separator.
pub proof fn law_null_encoding()
    ensures
        canonical_value(CanonicalValue::Null) == seq!['N' as u8, ':' as u8, 0x1fu8],
        forall|t: Vec<u8>| canonical_value(CanonicalValue::Null) != #[trigger] canonical_value(CanonicalValue::Text(t)),
{
    assert forall|t: Vec<u8>| canonical_value(CanonicalValue::Null) != #[trigger] canonical_value(CanonicalValue::Text(t)) by {
        assert(canonical_value(CanonicalValue::Text(t))[0] == 0x54u8);
    }
}

fn extend(out: &mut Vec<u8>, bytes: &[u8])
    ensures
        final(out)@ == old(out)@ + bytes@,
{
    let ghost start = out@;
    let mut i: usize = 0;
    while i < bytes.len()
        invariant
            i <= bytes@.len(),
            out@ == start + bytes@.take(i as int),
        decreases bytes@.len() - i,
    {
        out.push(bytes[i]);
        assert(bytes@.take(i as int + 1) =~= bytes@.take(i as int).push(bytes@[i as int]));
        i = i + 1;
    }
    assert(bytes@.take(bytes@.len() as int) =~= bytes@);
}

/// Appends one value to the canonical encoding of the rows.
pub fn append_canonical_value(canonical: &mut Vec<u8>, value: &CanonicalValue)
    ensures
        final(canonical)@ == old(canonical)@ + canonical_value(*value),
{
    let ghost start = canonical@;
    match value {
        CanonicalValue::Null => {
            canonical.push(0x4e);
            canonical.push(0x3a);
        },
        CanonicalValue::Integer(i) => {
            canonical.push(0x49);
            canonical.push(0x3a);
            let text = utf8_bytes(&i64_decimal(*i));
            extend(canonical, &text);
        },
        CanonicalValue::Real(text) => {
            canonical.push(0x52);
            canonical.push(0x3a);
            extend(canonical, text);
        },
        CanonicalValue::Text(bytes) => {
            canonical.push(0x54);
            canonical.push(0x3a);
            extend(canonical, bytes);
        },
        CanonicalValue::Blob(bytes) => {
            canonical.push(0x42);
            canonical.push(0x3a);
            let digest = sha256(bytes);
            let hex = crate::library::digest::hex_digest(&digest);
            let text = utf8_bytes(&chars_of(hex.as_str()));
            extend(canonical, &text);
        },
    }
    canonical.push(0x1f);
    assert(canonical@ =~= start + canonical_value(*value));
}

/// Ends one row of the canonical encoding (the record separator).
pub fn end_canonical_row(canonical: &mut Vec<u8>)
    ensures
        final(canonical)@ == old(canonical)@.push(0x1eu8),
{
    canonical.push(0x1e);
}

/// The semantic fingerprint of a store: SHA-256 over the kind's migration
/// id, a NUL byte and the canonical rows, in lower-case hexadecimal.
pub open spec fn semantic_fingerprint(kind: V08SqliteStoreKind, canonical: Seq<u8>) -> Seq<char> {
    hex_of_bytes(sha256_of(encode_utf8(kind.spec_migration_id()) + seq![0u8] + canonical))
}

pub fn semantic_sha256_of(kind: V08SqliteStoreKind, canonical: &[u8]) -> (r: String)
    ensures
        r@ == semantic_fingerprint(kind, canonical@),
{
    let mut input = utf8_bytes(&chars_of(kind.migration_id()));
    input.push(0);
    extend(&mut input, canonical);
    assert(input@ =~= encode_utf8(kind.spec_migration_id()) + seq![0u8] + canonical@);
    let digest = sha256(&input);
    crate::library::digest::hex_digest(&digest)
}

/// The v0.9 preservation migration of one v0.8 SQLite store.
#[derive(Debug)]
pub struct V09PersistentStateMigration {
    descriptor: MigrationDescriptor,
    target: Vec<u8>,
    backup: Vec<u8>,
    kind: V08SqliteStoreKind,
    expected_semantic_sha256: String,
    force_verification_failure: bool,
}

impl V09PersistentStateMigration {
    pub closed spec fn spec_kind(&self) -> V08SqliteStoreKind {
        self.kind
    }

    pub closed spec fn spec_expected(&self) -> Seq<char> {
        self.expected_semantic_sha256@
    }

    pub closed spec fn spec_target(&self) -> Seq<u8> {
        self.target@
    }

    pub closed spec fn spec_backup(&self) -> Seq<u8> {
        self.backup@
    }

    pub closed spec fn spec_forced_failure(&self) -> bool {
        self.force_verification_failure
    }

    pub closed spec fn spec_descriptor(&self) -> MigrationDescriptor {
        self.descriptor
    }

    /// The migration of the store at `target`, backed up at `backup`, whose
    /// semantic fingerprint is `expected_semantic_sha256`: reversible,
    /// snapshot-requiring, introduced in 0.9.0.
    pub fn new(kind: V08SqliteStoreKind, target: Vec<u8>, backup: Vec<u8>, expected_semantic_sha256: String, force_verification_failure: bool) -> (r: Result<Self, MigrationError>)
        ensures
            r is Ok <==> !same_path(target@, backup@) && path_absolute(target@) && path_absolute(backup@),
            r matches Err(e) ==> e is Operation,
            r matches Ok(m) ==> m.spec_kind() == kind && m.spec_expected() == expected_semantic_sha256@ && m.spec_target() == target@
                && m.spec_backup() == backup@ && m.spec_forced_failure() == force_verification_failure
                && m.spec_descriptor().id@ == kind.spec_migration_id() && m.spec_descriptor().introduced_in@ == "0.9.0"@
                && m.spec_descriptor().scope == MigrationScope::System && m.spec_descriptor().reversible
                && m.spec_descriptor().requires_snapshot,
    {
        validate_distinct_absolute_paths(target.as_slice(), backup.as_slice())?;
        let descriptor = MigrationDescriptor {
            id: string_of(&chars_of(kind.migration_id())),
            introduced_in: string_of(&lit("0.9.0")),
            scope: MigrationScope::System,
            reversible: true,
            requires_snapshot: true,
        };
        Ok(V09PersistentStateMigration { descriptor, target, backup, kind, expected_semantic_sha256, force_verification_failure })
    }

    pub fn descriptor(&self) -> (r: &MigrationDescriptor)
        ensures
            *r == self.spec_descriptor(),
    {
        &self.descriptor
    }

    pub fn kind(&self) -> (r: V08SqliteStoreKind)
        ensures
            r == self.spec_kind(),
    {
        self.kind
    }

    pub fn expected_semantic_sha256(&self) -> (r: &str)
        ensures
            r@ == self.spec_expected(),
    {
        self.expected_semantic_sha256.as_str()
    }

    pub fn target(&self) -> (r: &[u8])
        ensures
            r@ == self.spec_target(),
    {
        self.target.as_slice()
    }

    pub fn backup(&self) -> (r: &[u8])
        ensures
            r@ == self.spec_backup(),
    {
        self.backup.as_slice()
    }

    /// The migration applies while the store still has the fingerprint it
    /// was opened with.
    pub fn precondition_holds(&self, observed: &str) -> (r: bool)
        ensures
            r == (observed@ == self.spec_expected()),
    {
        chars_eq(&chars_of(observed), &chars_of(self.expected_semantic_sha256.as_str()))
    }

    /// Verification: unless a failure is being injected, the fingerprint
    /// observed after the migration is the expected one.
    pub fn check_verification(&self, observed: &str) -> (r: Result<(), MigrationError>)
        ensures
            r is Ok <==> !self.spec_forced_failure() && observed@ == self.spec_expected(),
            r matches Err(e) ==> e is Operation,
    {
        if self.force_verification_failure {
            return Err(operation("injected v0.9 SQLite preservation verification failure"));
        }
        if !self.precondition_holds(observed) {
            return Err(operation("v0.9 SQLite semantic fingerprint changed during migration"));
        }
        Ok(())
    }

    /// Whether verification is made to fail, to exercise rollback.
    pub fn forces_verification_failure(&self) -> (r: bool)
        ensures
            r == self.spec_forced_failure(),
    {
        self.force_verification_failure
    }

    /// Rollback restores the backup only when it preserves the expected
    /// semantics and its size is within the SQLite bound.
    pub fn check_rollback_source(&self, backup_fingerprint: &str, backup_len: usize) -> (r: Result<(), MigrationError>)
        ensures
            r is Ok <==> backup_fingerprint@ == self.spec_expected() && 100 <= backup_len && backup_len as int <= MAX_SQLITE_BYTES as int,
            r matches Err(e) ==> e is Operation,
    {
        if !self.precondition_holds(backup_fingerprint) {
            return Err(operation("validated SQLite recovery backup does not preserve expected semantics"));
        }
        if backup_len < 100 || backup_len as u64 > MAX_SQLITE_BYTES {
            return Err(operation("SQLite recovery output exceeds the supported bound"));
        }
        Ok(())
    }
}

} // verus!
