//! Checks the Library applies before it writes: revision preconditions,
//! bounded printable text, collection bounds, secret references, and the
//! integer conversions of persisted columns.
use vstd::prelude::*;
use vstd::utf8::encode_utf8;
use crate::library::error::LibraryError;
use crate::text::{all_whitespace, any_control, chars_of, first_index_of, has_control, is_blank, is_whitespace, lemma_first_index_of, string_of, utf8_bytes, utf8_text};

verus! {

pub const MAX_TEXT_BYTES: usize = 65536;
pub const MAX_COLLECTION_ITEMS: usize = 16384;

/// Optimistic concurrency: the caller's expected revision is the current one.
pub fn ensure_revision(expected: u64, actual: u64) -> (r: Result<(), LibraryError>)
    ensures
        expected == actual ==> r is Ok,
        expected != actual ==> r == Err::<(), LibraryError>(LibraryError::RevisionConflict { expected, actual }),
{
    if expected == actual {
        Ok(())
    } else {
        Err(LibraryError::RevisionConflict { expected, actual })
    }
}

/// The verdict on saving revision `proposed` of an entity whose current
/// revision is `current`, by a caller who expected `expected_previous`.
pub open spec fn next_revision_verdict(expected_previous: Option<u64>, current: Option<u64>, proposed: u64) -> Result<(), LibraryError> {
    match (current, expected_previous) {
        (None, None) => if proposed > 0 {
            Ok(())
        } else {
            Err(LibraryError::RevisionConflict { expected: 0, actual: 0 })
        },
        (None, Some(expected)) => Err(LibraryError::RevisionConflict { expected, actual: 0 }),
        (Some(actual), Some(expected)) => if expected != actual {
            Err(LibraryError::RevisionConflict { expected, actual })
        } else if proposed <= actual {
            Err(LibraryError::Validation(arbitrary()))
        } else {
            Ok(())
        },
        (Some(actual), None) => Err(LibraryError::RevisionConflict { expected: 0, actual }),
    }
}

/// A new entity starts at a positive revision with no expectation; an
/// existing one must be expected at its current revision and advance past it.
pub fn validate_next_revision(expected_previous: Option<u64>, current: Option<u64>, proposed: u64) -> (r: Result<(), LibraryError>)
    ensures
        r is Ok <==> next_revision_verdict(expected_previous, current, proposed) is Ok,
        !(next_revision_verdict(expected_previous, current, proposed) matches Err(LibraryError::Validation(_))) ==> r == next_revision_verdict(expected_previous, current, proposed),
        next_revision_verdict(expected_previous, current, proposed) matches Err(LibraryError::Validation(_)) ==> r matches Err(LibraryError::Validation(_)),
{
    match (current, expected_previous) {
        (None, None) => {
            if proposed > 0 {
                Ok(())
            } else {
                Err(LibraryError::RevisionConflict { expected: 0, actual: 0 })
            }
        },
        (None, Some(expected)) => Err(LibraryError::RevisionConflict { expected, actual: 0 }),
        (Some(actual), Some(expected)) => {
            ensure_revision(expected, actual)?;
            if proposed <= actual {
                return Err(LibraryError::Validation("revision must increase beyond the current one".to_string()));
            }
            Ok(())
        },
        (Some(actual), None) => Err(LibraryError::RevisionConflict { expected: 0, actual }),
    }
}

/// Bounded printable text: not blank, at most `max_bytes` bytes, no control
/// characters.
pub open spec fn text_ok(value: Seq<char>, max_bytes: nat) -> bool {
    !all_whitespace(value) && encode_utf8(value).len() <= max_bytes && !any_control(value)
}

pub fn validate_text(value: &str, max_bytes: usize) -> (r: Result<(), LibraryError>)
    ensures
        r is Ok <==> text_ok(value@, max_bytes as nat),
        r matches Err(e) ==> e is Validation,
{
    let chars = chars_of(value);
    if is_blank(&chars) {
        return Err(LibraryError::Validation("text cannot be empty".to_string()));
    }
    if utf8_bytes(&chars).len() > max_bytes {
        return Err(LibraryError::Validation("text exceeds its byte bound".to_string()));
    }
    if has_control(&chars) {
        return Err(LibraryError::Validation("text contains control characters".to_string()));
    }
    Ok(())
}

pub fn validate_collection_size(size: usize) -> (r: Result<(), LibraryError>)
    ensures
        r is Ok <==> size <= MAX_COLLECTION_ITEMS,
        r matches Err(e) ==> e is Validation,
{
    if size > MAX_COLLECTION_ITEMS {
        Err(LibraryError::Validation("collection exceeds its item bound".to_string()))
    } else {
        Ok(())
    }
}

/// A persisted boolean column holds 0 or 1.
pub fn parse_bool_i64(value: i64) -> (r: Result<bool, LibraryError>)
    ensures
        value == 0 ==> r == Ok::<bool, LibraryError>(false),
        value == 1 ==> r == Ok::<bool, LibraryError>(true),
        value != 0 && value != 1 ==> (r matches Err(e) && e is Corrupt),
{
    if value == 0 {
        Ok(false)
    } else if value == 1 {
        Ok(true)
    } else {
        Err(LibraryError::Corrupt("column contains an invalid boolean value".to_string()))
    }
}

pub fn bool_i64(value: bool) -> (r: i64)
    ensures
        r == (if value { 1i64 } else { 0i64 }),
{
    if value {
        1
    } else {
        0
    }
}

pub fn to_u64(value: i64) -> (r: Result<u64, LibraryError>)
    ensures
        value >= 0 ==> r == Ok::<u64, LibraryError>(value as u64),
        value < 0 ==> (r matches Err(e) && e is Corrupt),
{
    if value < 0 {
        Err(LibraryError::Corrupt("column value is negative".to_string()))
    } else {
        Ok(value as u64)
    }
}

pub fn to_u32(value: u64) -> (r: Result<u32, LibraryError>)
    ensures
        value <= u32::MAX ==> r == Ok::<u32, LibraryError>(value as u32),
        value > u32::MAX ==> (r matches Err(e) && e is Corrupt),
{
    if value > 0xffff_ffffu64 {
        Err(LibraryError::Corrupt("column value exceeds u32".to_string()))
    } else {
        Ok(value as u32)
    }
}

pub fn to_i64(value: u64) -> (r: Result<i64, LibraryError>)
    ensures
        value <= i64::MAX ==> r == Ok::<i64, LibraryError>(value as i64),
        value > i64::MAX ==> (r matches Err(e) && e is Validation),
{
    if value > 0x7fff_ffff_ffff_ffffu64 {
        Err(LibraryError::Validation("value exceeds the SQLite INTEGER range".to_string()))
    } else {
        Ok(value as i64)
    }
}

/// `s` as an SQL string literal: in single quotes, each quote doubled.
pub open spec fn sql_quoted_body(s: Seq<char>) -> Seq<char>
    decreases s.len(),
{
    if s.len() == 0 {
        seq![]
    } else if s.last() == '\'' {
        sql_quoted_body(s.drop_last()) + seq!['\'', '\'']
    } else {
        sql_quoted_body(s.drop_last()).push(s.last())
    }
}

/// The SQL string literal naming a backup path: the path must be UTF-8
/// without NUL.
pub fn sql_string_literal(path: &[u8]) -> (r: Result<String, LibraryError>)
    ensures
        !vstd::utf8::valid_utf8(path@) ==> (r matches Err(e) && e is Validation),
        vstd::utf8::valid_utf8(path@) && vstd::utf8::decode_utf8(path@).contains('\0') ==> (r matches Err(e) && e is Validation),
        vstd::utf8::valid_utf8(path@) && !vstd::utf8::decode_utf8(path@).contains('\0') ==> (r matches Ok(s)
            && s@ == seq!['\''] + sql_quoted_body(vstd::utf8::decode_utf8(path@)) + seq!['\'']),
{
    let text = match utf8_text(path) {
        Some(t) => t,
        None => return Err(LibraryError::Validation("backup path is not valid UTF-8".to_string())),
    };
    let chars = chars_of(text);
    let mut out: Vec<char> = Vec::new();
    out.push('\'');
    let mut i: usize = 0;
    while i < chars.len()
        invariant
            i <= chars@.len(),
            out@ == seq!['\''] + sql_quoted_body(chars@.take(i as int)),
            chars@ == vstd::utf8::decode_utf8(path@),
            vstd::utf8::valid_utf8(path@),
            forall|j: int| 0 <= j < i ==> chars@[j] != '\0',
        decreases chars@.len() - i,
    {
        let c = chars[i];
        proof {
            assert(chars@.take(i as int + 1).drop_last() =~= chars@.take(i as int));
        }
        if c == '\0' {
            assert(chars@.contains('\0'));
            return Err(LibraryError::Validation("backup path contains NUL".to_string()));
        }
        if c == '\'' {
            out.push('\'');
            out.push('\'');
        } else {
            out.push(c);
        }
        proof {
            assert(out@ =~= seq!['\''] + sql_quoted_body(chars@.take(i as int + 1)));
        }
        i = i + 1;
    }
    out.push('\'');
    proof {
        assert(chars@.take(chars@.len() as int) =~= chars@);
        if chars@.contains('\0') {
            let j = choose|j: int| 0 <= j < chars@.len() && chars@[j] == '\0';
        }
    }
    Ok(string_of(&out))
}

/// Characters of a secret reference.
pub open spec fn secret_ref_char(c: char) -> bool {
    ('a' <= c && c <= 'z') || ('A' <= c && c <= 'Z') || ('0' <= c && c <= '9') || c == '-' || c == '_' || c == '.' || c == ':'
}

/// A secret reference `namespace:name`: one to 256 printable bytes, no
/// whitespace, exactly one `:` with a non-empty namespace before it and a
/// non-empty name after it, and only ASCII letters, digits and `-_.:`.
pub open spec fn secret_ref_ok(v: Seq<char>) -> bool {
    &&& v.len() > 0
    &&& encode_utf8(v).len() <= 256
    &&& !any_control(v)
    &&& forall|i: int| 0 <= i < v.len() ==> !is_whitespace(#[trigger] v[i])
    &&& match first_index_of(v, ':') {
        Some(k) => k > 0 && k + 1 < v.len() && forall|j: int| k < j < v.len() ==> #[trigger] v[j] != ':',
        None => false,
    }
    &&& forall|i: int| 0 <= i < v.len() ==> secret_ref_char(#[trigger] v[i])
}

pub fn validate_secret_ref(value: &str) -> (r: Result<(), LibraryError>)
    ensures
        r is Ok <==> secret_ref_ok(value@),
        r matches Err(e) ==> e is Validation,
{
    let v = chars_of(value);
    if v.len() == 0 || utf8_bytes(&v).len() > 256 || has_control(&v) {
        return Err(LibraryError::Validation("secret reference must be a bounded printable token".to_string()));
    }
    let mut i: usize = 0;
    while i < v.len()
        invariant
            i <= v@.len(),
            v@ == value@,
            forall|j: int| 0 <= j < i ==> !is_whitespace(#[trigger] v@[j]),
        decreases v@.len() - i,
    {
        if crate::text::char_is_whitespace(v[i]) {
            return Err(LibraryError::Validation("secret reference must not contain whitespace".to_string()));
        }
        i = i + 1;
    }
    proof {
        lemma_first_index_of(v@, ':');
    }
    let mut k: usize = 0;
    while k < v.len() && v[k] != ':'
        invariant
            k <= v@.len(),
            forall|j: int| 0 <= j < k ==> v@[j] != ':',
        decreases v@.len() - k,
    {
        k = k + 1;
    }
    if k == v.len() {
        return Err(LibraryError::Validation("secret reference must use a namespace:name form".to_string()));
    }
    assert(first_index_of(v@, ':') == Some(k as int));
    if k == 0 || k + 1 == v.len() {
        return Err(LibraryError::Validation("secret reference must contain exactly one non-empty namespace and name".to_string()));
    }
    let mut m: usize = k + 1;
    while m < v.len()
        invariant
            k < m <= v@.len(),
            v@ == value@,
            first_index_of(v@, ':') == Some(k as int),
            forall|j: int| k < j < m ==> #[trigger] v@[j] != ':',
        decreases v@.len() - m,
    {
        if v[m] == ':' {
            return Err(LibraryError::Validation("secret reference must contain exactly one non-empty namespace and name".to_string()));
        }
        m = m + 1;
    }
    let mut n: usize = 0;
    while n < v.len()
        invariant
            n <= v@.len(),
            v@ == value@,
            forall|j: int| 0 <= j < n ==> secret_ref_char(#[trigger] v@[j]),
        decreases v@.len() - n,
    {
        let c = v[n];
        if !(('a' <= c && c <= 'z') || ('A' <= c && c <= 'Z') || ('0' <= c && c <= '9') || c == '-' || c == '_' || c == '.' || c == ':') {
            return Err(LibraryError::Validation("secret reference contains unsupported characters".to_string()));
        }
        n = n + 1;
    }
    Ok(())
}

} // verus!
