//! The persisted form of a recovery record: a versioned, fixed sequence of
//! `name=value` lines closed by an integrity line. Paths are written as
//! lower-case hexadecimal bytes, numbers in decimal, and `-` marks a field
//! that a record without checkpoint leaves empty.
use vstd::prelude::*;
use vstd::utf8::{decode_utf8, encode_utf8, encode_utf8_decode_utf8, encode_utf8_valid_utf8, valid_utf8};
use crate::migration::codec::{close_with_tag, lemma_tagged_text, tag_verified, tagged_payload, tagged_text, verify_tagged};
use crate::migration::descriptor::{check_identifier, valid_identifier, MigrationError};
use crate::migration::recovery::{checkpoint_valid, record_valid, CheckpointView, MigrationRecoveryCheckpoint, MigrationRecoveryRecord, RecordView, MAX_RECOVERY_PATH_BYTES};
use crate::num::{bytes_of_hex, hex_of_bytes, lemma_hex_of_bytes, all_hex, check_all_hex, decimal, hex2, hex_char, hex_digit, hex_fixed, hex_value, is_hex_digit, lemma_decimal, lemma_hex16_value, lemma_hex_char_value, lemma_hex_fixed, parse_decimal, parse_hex16, parse_unsigned, u64_decimal};
use crate::path::path_absolute;
use crate::text::{chars_eq, chars_of, has_prefix, join_char_lines, join_lines, lemma_lines_join, lines, lit, plain_line, slice_chars, split_lines, starts_with, string_of, utf8_bytes, utf8_text};

verus! {

/// First line of every recovery marker.
pub const RECOVERY_MAGIC: &'static str = "linura-migration-recovery-v2";

pub open spec fn recovery_magic() -> Seq<char> {
    RECOVERY_MAGIC@
}

/// The label, `=` included, of the field on line `i + 1`.
pub open spec fn field_label(i: int) -> Seq<char> {
    if i == 0 {
        "migration="@
    } else if i == 1 {
        "checkpoint="@
    } else if i == 2 {
        "target_path="@
    } else if i == 3 {
        "backup_path="@
    } else if i == 4 {
        "target_device="@
    } else if i == 5 {
        "target_inode="@
    } else if i == 6 {
        "backup_device="@
    } else if i == 7 {
        "backup_inode="@
    } else if i == 8 {
        "size="@
    } else {
        "checkpoint_integrity="@
    }
}

/// A persisted checkpoint path: an even number of hexadecimal digits, at
/// most twice the path bound, writing a non-empty absolute path.
pub open spec fn parse_path_hex(v: Seq<char>) -> Option<Seq<u8>> {
    if v.len() <= 2 * MAX_RECOVERY_PATH_BYTES && v.len() % 2 == 0 && all_hex(v) {
        let b = bytes_of_hex(v);
        if b.len() > 0 && b.len() <= MAX_RECOVERY_PATH_BYTES && path_absolute(b) {
            Some(b)
        } else {
            None
        }
    } else {
        None
    }
}

/// The ten field values of a record, in line order.
pub open spec fn record_values(r: RecordView) -> Seq<Seq<char>> {
    match r.checkpoint {
        Some(c) => seq![
            r.migration_id,
            "file"@,
            hex_of_bytes(c.target_path),
            hex_of_bytes(c.backup_path),
            decimal(c.target_device as nat),
            decimal(c.target_inode as nat),
            decimal(c.backup_device as nat),
            decimal(c.backup_inode as nat),
            decimal(c.size as nat),
            hex_fixed(c.integrity_tag as nat, 16),
        ],
        None => seq![r.migration_id, "none"@, "-"@, "-"@, "-"@, "-"@, "-"@, "-"@, "-"@, "-"@],
    }
}

/// The lines of a record's payload: the version line, then `label=value`.
pub open spec fn record_lines(r: RecordView) -> Seq<Seq<char>> {
    seq![recovery_magic()] + Seq::new(10, |i: int| field_label(i) + record_values(r)[i])
}

pub open spec fn recovery_payload(r: RecordView) -> Seq<char> {
    join_lines(record_lines(r))
}

/// The bytes written for a record.
pub open spec fn serialized_recovery(r: RecordView) -> Seq<u8> {
    encode_utf8(tagged_text(recovery_payload(r)))
}

/// The largest `u64`, as a natural number.
pub open spec fn u64_max() -> nat {
    0xffff_ffff_ffff_ffffnat
}

/// The record that ten field values describe, when they describe one.
pub open spec fn decode_values(v: Seq<Seq<char>>) -> Option<RecordView> {
    if !valid_identifier(v[0], 128) {
        None
    } else if v[1] == "none"@ {
        if forall|i: int| 2 <= i < 10 ==> #[trigger] v[i] == "-"@ {
            Some(RecordView { migration_id: v[0], checkpoint: None })
        } else {
            None
        }
    } else if v[1] == "file"@ {
        if v[9].len() == 16 && all_hex(v[9]) {
            match (parse_path_hex(v[2]), parse_path_hex(v[3]), parse_unsigned(v[4], u64_max()),
                parse_unsigned(v[5], u64_max()), parse_unsigned(v[6], u64_max()), parse_unsigned(v[7], u64_max()),
                parse_unsigned(v[8], u64_max())) {
                (Some(tp), Some(bp), Some(td), Some(ti), Some(bd), Some(bi), Some(sz)) => {
                    let c = CheckpointView {
                        target_path: tp,
                        backup_path: bp,
                        target_device: td as u64,
                        target_inode: ti as u64,
                        backup_device: bd as u64,
                        backup_inode: bi as u64,
                        size: sz as u64,
                        integrity_tag: hex_value(v[9]) as u64,
                    };
                    if checkpoint_valid(c) {
                        Some(RecordView { migration_id: v[0], checkpoint: Some(c) })
                    } else {
                        None
                    }
                },
                _ => None,
            }
        } else {
            None
        }
    } else {
        None
    }
}

/// The record a verified payload holds: exactly the version line and the ten
/// labelled field lines, in order, with values that describe a record.
pub open spec fn decode_payload(p: Seq<char>) -> Option<RecordView> {
    let ls = lines(p);
    if ls.len() == 11 && ls[0] == recovery_magic() && forall|i: int| 0 <= i < 10 ==> has_prefix(
        #[trigger] ls[i + 1],
        field_label(i),
    ) {
        decode_values(Seq::new(10, |i: int| ls[i + 1].skip(field_label(i).len() as int)))
    } else {
        None
    }
}

/// The record that marker bytes hold, when they are UTF-8 with a matching
/// integrity line and a well-formed payload.
pub open spec fn decode_recovery(bytes: Seq<u8>) -> Option<RecordView> {
    if valid_utf8(bytes) && tag_verified(decode_utf8(bytes)) {
        decode_payload(tagged_payload(decode_utf8(bytes)))
    } else {
        None
    }
}

proof fn lemma_path_hex_round_trip(p: Seq<u8>)
    requires
        p.len() > 0,
        p.len() <= MAX_RECOVERY_PATH_BYTES,
        path_absolute(p),
    ensures
        parse_path_hex(hex_of_bytes(p)) == Some(p),
        plain_line(hex_of_bytes(p)),
{
    let h = hex_of_bytes(p);
    lemma_hex_of_bytes(p);
    assert forall|j: int| 0 <= j < h.len() implies is_hex_digit(#[trigger] h[j]) && h[j] != '\n' && h[j] != '\r' by {
        let i = j / 2;
        assert(0 <= i < p.len());
        assert(h[2 * i] == hex_char(p[i] as nat / 16) && h[2 * i + 1] == hex_char(p[i] as nat % 16));
        lemma_hex_char_value(p[i] as nat / 16);
        lemma_hex_char_value(p[i] as nat % 16);
        if j % 2 == 0 {
            assert(j == 2 * i);
        } else {
            assert(j == 2 * i + 1);
        }
    }
    assert forall|i: int| 0 <= i < p.len() implies #[trigger] bytes_of_hex(h)[i] == p[i] by {
        assert(h[2 * i] == hex_char(p[i] as nat / 16));
        lemma_hex_char_value(p[i] as nat / 16);
        lemma_hex_char_value(p[i] as nat % 16);
        assert((p[i] as nat / 16) * 16 + p[i] as nat % 16 == p[i] as nat);
    }
    assert(bytes_of_hex(h) =~= p);
}

proof fn lemma_decimal_line(n: nat)
    ensures
        plain_line(decimal(n)),
{
    lemma_decimal(n);
    let d = decimal(n);
    assert forall|i: int| 0 <= i < d.len() implies d[i] != '\n' by {
        assert(crate::num::is_digit(d[i]));
    }
    assert(crate::num::is_digit(d[d.len() - 1]));
}

proof fn lemma_reveal_labels()
    ensures
        forall|i: int| 0 <= i < 10 ==> plain_line(#[trigger] field_label(i)) && field_label(i).len() > 0
            && field_label(i).last() == '=',
        recovery_magic().len() == 28,
        plain_line(recovery_magic()),
        "none"@ != "file"@,
        plain_line("none"@),
        plain_line("file"@),
        plain_line("-"@),
        "-"@ == seq!['-'],
{
    reveal_strlit("linura-migration-recovery-v2");
    reveal_strlit("migration=");
    reveal_strlit("checkpoint=");
    reveal_strlit("target_path=");
    reveal_strlit("backup_path=");
    reveal_strlit("target_device=");
    reveal_strlit("target_inode=");
    reveal_strlit("backup_device=");
    reveal_strlit("backup_inode=");
    reveal_strlit("size=");
    reveal_strlit("checkpoint_integrity=");
    reveal_strlit("none");
    reveal_strlit("file");
    reveal_strlit("-");
    assert("none"@[0] != "file"@[0]);
    assert("-"@ =~= seq!['-']);
}

/// A record survives its persisted form: for every well-formed record, the
/// bytes written for it read back as the same record.
#[verifier::spinoff_prover]
#[verifier::rlimit(30)]
pub proof fn law_recovery_round_trip(r: RecordView)
    requires
        record_valid(r),
    ensures
        decode_recovery(serialized_recovery(r)) == Some(r),
{
    let p = recovery_payload(r);
    let t = tagged_text(p);
    encode_utf8_valid_utf8(t);
    encode_utf8_decode_utf8(t);
    lemma_tagged_text(p);
    lemma_reveal_labels();
    lemma_record_lines(r);
    let ls = record_lines(r);
    let vals = record_values(r);
    assert forall|i: int| 0 <= i < 10 implies has_prefix(#[trigger] ls[i + 1], field_label(i)) by {
        assert(ls[i + 1] == field_label(i) + vals[i]);
        assert((field_label(i) + vals[i]).take(field_label(i).len() as int) =~= field_label(i));
    }
    let got = Seq::new(10, |i: int| ls[i + 1].skip(field_label(i).len() as int));
    assert forall|i: int| 0 <= i < 10 implies #[trigger] got[i] == vals[i] by {
        assert(ls[i + 1] == field_label(i) + vals[i]);
        assert((field_label(i) + vals[i]).skip(field_label(i).len() as int) =~= vals[i]);
    }
    assert(got =~= vals);
    lemma_decode_values(r);
}

proof fn lemma_values_plain(r: RecordView)
    requires
        record_valid(r),
    ensures
        forall|i: int| 0 <= i < 10 ==> plain_line(#[trigger] record_values(r)[i]),
{
    lemma_reveal_labels();
    let vals = record_values(r);
    assert forall|i: int| 0 <= i < 10 implies plain_line(#[trigger] vals[i]) by {
        if i == 0 {
            assert forall|j: int| 0 <= j < r.migration_id.len() implies r.migration_id[j] != '\n' by {
                assert(crate::migration::descriptor::is_id_char(r.migration_id[j]));
            }
            assert(crate::migration::descriptor::is_id_char(r.migration_id[r.migration_id.len() - 1]));
        } else {
            match r.checkpoint {
                Some(c) => {
                    if i == 2 {
                        lemma_path_hex_round_trip(c.target_path);
                    } else if i == 3 {
                        lemma_path_hex_round_trip(c.backup_path);
                    } else if i == 4 {
                        lemma_decimal_line(c.target_device as nat);
                    } else if i == 5 {
                        lemma_decimal_line(c.target_inode as nat);
                    } else if i == 6 {
                        lemma_decimal_line(c.backup_device as nat);
                    } else if i == 7 {
                        lemma_decimal_line(c.backup_inode as nat);
                    } else if i == 8 {
                        lemma_decimal_line(c.size as nat);
                    } else if i == 9 {
                        lemma_hex_fixed(c.integrity_tag as nat, 16);
                        let h = hex_fixed(c.integrity_tag as nat, 16);
                        assert(h[15] != '\r');
                    }
                },
                None => {},
            }
        }
    }
}

proof fn lemma_record_lines(r: RecordView)
    requires
        record_valid(r),
    ensures
        lines(recovery_payload(r)) == record_lines(r),
{
    lemma_reveal_labels();
    lemma_values_plain(r);
    let vals = record_values(r);
    let ls = record_lines(r);
    assert forall|i: int| 0 <= i < ls.len() implies plain_line(#[trigger] ls[i]) by {
        if i > 0 {
            let l = field_label(i - 1);
            let v = vals[i - 1];
            assert(ls[i] == l + v);
            assert(plain_line(l));
            assert(plain_line(v));
            assert forall|j: int| 0 <= j < (l + v).len() implies (l + v)[j] != '\n' by {
                if j < l.len() {
                    assert((l + v)[j] == l[j]);
                } else {
                    assert((l + v)[j] == v[j - l.len()]);
                }
            }
            if v.len() == 0 {
                assert((l + v).last() == l.last());
            } else {
                assert((l + v).last() == v.last());
            }
        }
    }
    lemma_lines_join(ls);
}

proof fn lemma_decode_values(r: RecordView)
    requires
        record_valid(r),
    ensures
        decode_values(record_values(r)) == Some(r),
{
    lemma_reveal_labels();
    let vals = record_values(r);
    match r.checkpoint {
        Some(c) => {
            lemma_path_hex_round_trip(c.target_path);
            lemma_path_hex_round_trip(c.backup_path);
            crate::num::lemma_parse_decimal(c.target_device as nat, u64_max());
            crate::num::lemma_parse_decimal(c.target_inode as nat, u64_max());
            crate::num::lemma_parse_decimal(c.backup_device as nat, u64_max());
            crate::num::lemma_parse_decimal(c.backup_inode as nat, u64_max());
            crate::num::lemma_parse_decimal(c.size as nat, u64_max());
            lemma_hex16_value(c.integrity_tag);
            assert(vals[1] == "file"@);
        },
        None => {
            assert(vals[1] == "none"@);
        },
    }
}

/// The bytes of a path in lower-case hexadecimal, or `-` for no path.
pub fn path_hex(path: Option<&[u8]>) -> (out: Vec<char>)
    ensures
        match path {
            Some(p) => out@ == hex_of_bytes(p@),
            None => out@ == "-"@,
        },
{
    match path {
        None => {
            let out = lit("-");
            out
        },
        Some(p) => {
            let mut out: Vec<char> = Vec::new();
            let mut i: usize = 0;
            assert(p@.take(0) =~= Seq::<u8>::empty());
            while i < p.len()
                invariant
                    i <= p@.len(),
                    out@ == hex_of_bytes(p@.take(i as int)),
                decreases p@.len() - i,
            {
                let mut pair = hex2(p[i]);
                proof {
                    assert(p@.take(i as int + 1).drop_last() =~= p@.take(i as int));
                }
                out.append(&mut pair);
                i = i + 1;
            }
            assert(p@.take(p@.len() as int) =~= p@);
            out
        },
    }
}

/// Reads a persisted checkpoint path (see [`parse_path_hex`]).
pub fn parse_recovery_path(value: &[char]) -> (r: Result<Vec<u8>, MigrationError>)
    ensures
        match parse_path_hex(value@) {
            Some(p) => r matches Ok(b) && b@ == p,
            None => r matches Err(e) && e is CorruptRecoveryMarker,
        },
{
    if value.len() > 2 * MAX_RECOVERY_PATH_BYTES || value.len() % 2 != 0 || !check_all_hex(value) {
        return Err(MigrationError::CorruptRecoveryMarker("invalid checkpoint path".to_string()));
    }
    let vl: usize = value.len();
    let n = vl / 2;
    let mut bytes: Vec<u8> = Vec::new();
    let mut i: usize = 0;
    while i < n
        invariant
            vl == value@.len(),
            n == value@.len() / 2,
            value@.len() % 2 == 0,
            all_hex(value@),
            i <= n,
            bytes@ == bytes_of_hex(value@).take(i as int),
        decreases n - i,
    {
        assert(2 * i + 1 < value@.len());
        let hi = match hex_digit(value[2 * i]) {
            Some(d) => d,
            None => {
                assert(is_hex_digit(value@[2 * i as int]));
                0
            },
        };
        let lo = match hex_digit(value[2 * i + 1]) {
            Some(d) => d,
            None => {
                assert(is_hex_digit(value@[2 * i as int + 1]));
                0
            },
        };
        assert(hi < 16 && lo < 16);
        bytes.push(hi * 16 + lo);
        proof {
            assert(bytes_of_hex(value@).take(i as int + 1) =~= bytes_of_hex(value@).take(i as int).push(
                bytes_of_hex(value@)[i as int],
            ));
        }
        i = i + 1;
    }
    assert(bytes_of_hex(value@).take(n as int) =~= bytes_of_hex(value@));
    if bytes.len() == 0 || bytes.len() > MAX_RECOVERY_PATH_BYTES || bytes[0] != 0x2fu8 {
        return Err(MigrationError::CorruptRecoveryMarker("invalid checkpoint path".to_string()));
    }
    Ok(bytes)
}

/// The value of a `label=value` line; the line must exist and carry the
/// label.
pub fn recovery_field(line: Option<&Vec<char>>, label: &[char]) -> (r: Result<Vec<char>, MigrationError>)
    ensures
        match line {
            Some(l) => if has_prefix(l@, label@) {
                r matches Ok(v) && v@ == l@.skip(label@.len() as int)
            } else {
                r matches Err(e) && e is CorruptRecoveryMarker
            },
            None => r matches Err(e) && e is CorruptRecoveryMarker,
        },
{
    match line {
        None => Err(MigrationError::CorruptRecoveryMarker("missing recovery field".to_string())),
        Some(l) => {
            if !starts_with(l.as_slice(), label) {
                return Err(MigrationError::CorruptRecoveryMarker("invalid recovery field".to_string()));
            }
            Ok(slice_chars(l.as_slice(), label.len(), l.len()))
        },
    }
}

/// A decimal `u64` field, as `str::parse::<u64>` reads it.
pub fn parse_recovery_u64(value: &[char]) -> (r: Result<u64, MigrationError>)
    ensures
        match parse_unsigned(value@, u64_max()) {
            Some(n) => r matches Ok(v) && v as nat == n,
            None => r matches Err(e) && e is CorruptRecoveryMarker,
        },
{
    match parse_decimal(value, 0xffff_ffff_ffff_ffffu64) {
        Some(v) => Ok(v),
        None => Err(MigrationError::CorruptRecoveryMarker("invalid checkpoint number".to_string())),
    }
}

fn all_dashes(vals: &Vec<Vec<char>>) -> (r: bool)
    requires
        vals@.len() == 10,
    ensures
        r == forall|j: int| 2 <= j < 10 ==> #[trigger] vals@[j]@ == "-"@,
{
    let dash = lit("-");
    let mut k: usize = 2;
    while k < 10
        invariant
            2 <= k <= 10,
            vals@.len() == 10,
            dash@ == "-"@,
            forall|j: int| 2 <= j < k ==> #[trigger] vals@[j]@ == "-"@,
        decreases 10 - k,
    {
        if !chars_eq(&vals[k], &dash) {
            return false;
        }
        k = k + 1;
    }
    true
}

fn field_label_chars(i: usize) -> (out: Vec<char>)
    requires
        i < 10,
    ensures
        out@ == field_label(i as int),
{
    if i == 0 {
        lit("migration=")
    } else if i == 1 {
        lit("checkpoint=")
    } else if i == 2 {
        lit("target_path=")
    } else if i == 3 {
        lit("backup_path=")
    } else if i == 4 {
        lit("target_device=")
    } else if i == 5 {
        lit("target_inode=")
    } else if i == 6 {
        lit("backup_device=")
    } else if i == 7 {
        lit("backup_inode=")
    } else if i == 8 {
        lit("size=")
    } else {
        lit("checkpoint_integrity=")
    }
}

fn record_value_chars(record: &MigrationRecoveryRecord, i: usize) -> (out: Vec<char>)
    requires
        i < 10,
    ensures
        out@ == record_values(record@)[i as int],
{
    match record.checkpoint() {
        Some(c) => {
            if i == 0 {
                chars_of(record.migration_id())
            } else if i == 1 {
                lit("file")
            } else if i == 2 {
                path_hex(Some(c.target_path()))
            } else if i == 3 {
                path_hex(Some(c.backup_path()))
            } else if i == 4 {
                u64_decimal(c.target_device())
            } else if i == 5 {
                u64_decimal(c.target_inode())
            } else if i == 6 {
                u64_decimal(c.backup_device())
            } else if i == 7 {
                u64_decimal(c.backup_inode())
            } else if i == 8 {
                u64_decimal(c.size())
            } else {
                crate::num::hex16(c.integrity_tag())
            }
        },
        None => {
            if i == 0 {
                chars_of(record.migration_id())
            } else if i == 1 {
                lit("none")
            } else {
                lit("-")
            }
        },
    }
}

/// The record in its persisted form.
pub fn serialize_recovery_record(record: &MigrationRecoveryRecord) -> (out: Vec<u8>)
    ensures
        out@ == serialized_recovery(record@),
{
    let mut ls: Vec<Vec<char>> = Vec::new();
    ls.push(lit(RECOVERY_MAGIC));
    let mut i: usize = 0;
    while i < 10
        invariant
            i <= 10,
            ls@.len() == i + 1,
            ls@[0]@ == recovery_magic(),
            forall|k: int| 1 <= k <= i ==> #[trigger] ls@[k]@ == field_label(k - 1) + record_values(record@)[k - 1],
        decreases 10 - i,
    {
        let mut line = field_label_chars(i);
        let mut value = record_value_chars(record, i);
        line.append(&mut value);
        ls.push(line);
        i = i + 1;
    }
    let payload = join_char_lines(&ls);
    proof {
        assert(ls@.map_values(|l: Vec<char>| l@) =~= record_lines(record@));
    }
    let text = close_with_tag(payload);
    utf8_bytes(&text)
}

/// Reads a persisted recovery record (see [`decode_recovery`]).
pub fn parse_recovery_record(bytes: &[u8]) -> (r: Result<MigrationRecoveryRecord, MigrationError>)
    ensures
        match decode_recovery(bytes@) {
            Some(v) => r matches Ok(rec) && rec@ == v,
            None => r matches Err(e) && e is CorruptRecoveryMarker,
        },
{
    let text = match utf8_text(bytes) {
        Some(text) => text,
        None => return Err(MigrationError::CorruptRecoveryMarker("recovery marker is not UTF-8".to_string())),
    };
    let chars = chars_of(text);
    let payload = match verify_tagged(&chars) {
        Some(p) => p,
        None => return Err(MigrationError::CorruptRecoveryMarker("integrity record is invalid".to_string())),
    };
    let ghost p = payload@;
    let ls = split_lines(&payload);
    let magic = lit(RECOVERY_MAGIC);
    if ls.len() == 0 || !chars_eq(&ls[0], &magic) {
        return Err(MigrationError::CorruptRecoveryMarker("unsupported recovery marker version".to_string()));
    }
    let mut vals: Vec<Vec<char>> = Vec::new();
    let mut i: usize = 0;
    while i < 10
        invariant
            i <= 10,
            ls@.len() == lines(p).len(),
            forall|k: int| 0 <= k < ls@.len() ==> #[trigger] ls@[k]@ == lines(p)[k],
            decode_recovery(bytes@) == decode_payload(p),
            vals@.len() == i,
            forall|k: int| 0 <= k < i ==> k + 1 < ls@.len() && has_prefix(lines(p)[k + 1], field_label(k)),
            forall|k: int| 0 <= k < i ==> #[trigger] vals@[k]@ == lines(p)[k + 1].skip(field_label(k).len() as int),
            lines(p)[0] == recovery_magic(),
        decreases 10 - i,
    {
        let label = field_label_chars(i);
        let line = if i + 1 < ls.len() { Some(&ls[i + 1]) } else { None };
        let v = match recovery_field(line, &label) {
            Ok(v) => v,
            Err(e) => {
                proof {
                    if i + 1 < ls@.len() {
                        assert(!has_prefix(lines(p)[i + 1], field_label(i as int)));
                    }
                }
                return Err(e);
            },
        };
        vals.push(v);
        i = i + 1;
    }
    if ls.len() != 11 {
        return Err(MigrationError::CorruptRecoveryMarker("unexpected recovery marker field".to_string()));
    }
    let ghost gv = Seq::new(10, |k: int| lines(p)[k + 1].skip(field_label(k).len() as int));
    proof {
        assert forall|k: int| 0 <= k < 10 implies has_prefix(#[trigger] lines(p)[k + 1], field_label(k)) by {}
        assert forall|k: int| 0 <= k < 10 implies #[trigger] vals@[k]@ == gv[k] by {}
        assert(decode_payload(p) == decode_values(gv));
        lemma_reveal_labels();
    }
    if !check_identifier(&vals[0], 128) {
        return Err(MigrationError::CorruptRecoveryMarker("invalid migration field".to_string()));
    }
    let none = lit("none");
    let file = lit("file");
    let migration_id = string_of(&vals[0]);
    if chars_eq(&vals[1], &none) {
        if !all_dashes(&vals) {
            proof {
                let j = choose|j: int| 2 <= j < 10 && vals@[j]@ != "-"@;
                assert(gv[j] == vals@[j]@);
            }
            return Err(MigrationError::CorruptRecoveryMarker("checkpoint=none retained checkpoint fields".to_string()));
        }
        proof {
            assert forall|j: int| 2 <= j < 10 implies #[trigger] gv[j] == "-"@ by {
                assert(vals@[j]@ == "-"@);
            }
        }
        return MigrationRecoveryRecord::new(migration_id, None);
    }
    if !chars_eq(&vals[1], &file) {
        return Err(MigrationError::CorruptRecoveryMarker("unknown recovery checkpoint kind".to_string()));
    }
    if vals[9].len() != 16 || !check_all_hex(&vals[9]) {
        return Err(MigrationError::CorruptRecoveryMarker("invalid checkpoint integrity tag".to_string()));
    }
    let target_path = parse_recovery_path(&vals[2])?;
    let backup_path = parse_recovery_path(&vals[3])?;
    let target_device = parse_recovery_u64(&vals[4])?;
    let target_inode = parse_recovery_u64(&vals[5])?;
    let backup_device = parse_recovery_u64(&vals[6])?;
    let backup_inode = parse_recovery_u64(&vals[7])?;
    let size = parse_recovery_u64(&vals[8])?;
    let integrity_tag = parse_hex16(&vals[9]);
    let checkpoint = MigrationRecoveryCheckpoint::new(
        target_path,
        backup_path,
        target_device,
        target_inode,
        backup_device,
        backup_inode,
        size,
        integrity_tag,
    )?;
    MigrationRecoveryRecord::new(migration_id, Some(checkpoint))
}

} // verus!
