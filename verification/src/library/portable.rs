//! Portable Library artifacts: tab-separated records with hex-encoded text,
//! closed by a `sha256` line over the body; and the checks applied to their
//! frame, header and scalar fields.
use vstd::prelude::*;
use vstd::utf8::{decode_utf8, encode_utf8, valid_utf8};
use crate::library::digest::{sha256_hex, sha256_of};
use crate::library::error::LibraryError;
use crate::num::{all_hex, bytes_of_hex, hex_char, hex_digit, hex_of_bytes, is_hex_digit, lemma_hex_char_value, lemma_hex_of_bytes, parse_decimal, parse_unsigned};
use crate::migration::codec::{last_occurrence, lemma_rfind_below, lemma_rfind_below_at, occurs_at, rfind};
use crate::text::{ascii_lower, chars_eq, chars_of, lines, lit, slice_chars, split, split_lines, split_on, string_of, to_ascii_lower, utf8_bytes, utf8_text};

verus! {

pub const PORTABLE_FORMAT_VERSION: u16 = 1;
pub const MAX_PORTABLE_BYTES: usize = 8388608;
pub const MAX_RECORDS: usize = 65536;

fn portable_error(message: &str) -> (e: LibraryError)
    ensures
        e matches LibraryError::PortableFormat(m) && m@ == message@,
{
    LibraryError::PortableFormat(message.to_string())
}

/// The UTF-8 bytes of `value` in lower-case hexadecimal.
pub fn hex_text(value: &str) -> (out: String)
    ensures
        out@ == hex_of_bytes(encode_utf8(value@)),
{
    let bytes = utf8_bytes(&chars_of(value));
    crate::library::digest::hex_digest(&bytes)
}

/// The text that hex-encoded UTF-8 bytes write: an even number of
/// hexadecimal digits whose bytes are valid UTF-8.
pub open spec fn decoded_text(value: Seq<char>) -> Option<Seq<char>> {
    if value.len() % 2 == 0 && all_hex(value) && valid_utf8(bytes_of_hex(value)) {
        Some(decode_utf8(bytes_of_hex(value)))
    } else {
        None
    }
}

/// The value of one hexadecimal digit byte.
pub fn hex_nibble(value: u8) -> (r: Result<u8, LibraryError>)
    ensures
        (0x30 <= value <= 0x39) ==> r == Ok::<u8, LibraryError>((value - 0x30) as u8),
        (0x61 <= value <= 0x66) ==> r == Ok::<u8, LibraryError>((value - 0x61 + 10) as u8),
        (0x41 <= value <= 0x46) ==> r == Ok::<u8, LibraryError>((value - 0x41 + 10) as u8),
        !((0x30 <= value <= 0x39) || (0x61 <= value <= 0x66) || (0x41 <= value <= 0x46)) ==> (r matches Err(e) && e is PortableFormat),
{
    if 0x30 <= value && value <= 0x39 {
        Ok(value - 0x30)
    } else if 0x61 <= value && value <= 0x66 {
        Ok(value - 0x61 + 10)
    } else if 0x41 <= value && value <= 0x46 {
        Ok(value - 0x41 + 10)
    } else {
        Err(portable_error("invalid hexadecimal text"))
    }
}

/// Decodes hex-encoded UTF-8 text (see [`decoded_text`]).
pub fn decode_text(value: &str) -> (r: Result<String, LibraryError>)
    ensures
        match decoded_text(value@) {
            Some(t) => r matches Ok(s) && s@ == t,
            None => r matches Err(e) && e is PortableFormat,
        },
{
    let chars = chars_of(value);
    let n: usize = chars.len();
    if n % 2 != 0 {
        return Err(portable_error("hex text contains odd byte count"));
    }
    let mut decoded: Vec<u8> = Vec::new();
    let mut i: usize = 0;
    while i < n / 2
        invariant
            n == chars@.len(),
            chars@ == value@,
            n % 2 == 0,
            i <= n / 2,
            forall|j: int| 0 <= j < 2 * i ==> is_hex_digit(#[trigger] chars@[j]),
            decoded@ == bytes_of_hex(chars@).take(i as int),
        decreases n / 2 - i,
    {
        assert(2 * i + 1 < n);
        let high = match hex_digit(chars[2 * i]) {
            Some(d) => d,
            None => {
                assert(!all_hex(chars@));
                return Err(portable_error("invalid hexadecimal text"));
            },
        };
        let low = match hex_digit(chars[2 * i + 1]) {
            Some(d) => d,
            None => {
                assert(!all_hex(chars@));
                return Err(portable_error("invalid hexadecimal text"));
            },
        };
        decoded.push(high * 16 + low);
        proof {
            assert(bytes_of_hex(chars@).take(i as int + 1) =~= bytes_of_hex(chars@).take(i as int).push(
                bytes_of_hex(chars@)[i as int],
            ));
            assert forall|j: int| 0 <= j < 2 * (i + 1) implies is_hex_digit(#[trigger] chars@[j]) by {
                if j >= 2 * i {
                    assert(j == 2 * i || j == 2 * i + 1);
                }
            }
        }
        i = i + 1;
    }
    assert(bytes_of_hex(chars@).take(n as int / 2) =~= bytes_of_hex(chars@));
    assert(all_hex(chars@));
    match utf8_text(decoded.as_slice()) {
        Some(text) => Ok(text.to_string()),
        None => Err(portable_error("hex text is not valid UTF-8")),
    }
}

/// Hex-encoded text decodes back to the text that was encoded.
pub proof fn law_hex_text_round_trip(s: Seq<char>)
    ensures
        decoded_text(hex_of_bytes(encode_utf8(s))) == Some(s),
{
    let b = encode_utf8(s);
    let h = hex_of_bytes(b);
    lemma_hex_of_bytes(b);
    assert forall|j: int| 0 <= j < h.len() implies is_hex_digit(#[trigger] h[j]) by {
        let i = j / 2;
        assert(0 <= i < b.len());
        assert(h[2 * i] == hex_char(b[i] as nat / 16) && h[2 * i + 1] == hex_char(b[i] as nat % 16));
        lemma_hex_char_value(b[i] as nat / 16);
        lemma_hex_char_value(b[i] as nat % 16);
        if j % 2 == 0 {
            assert(j == 2 * i);
        } else {
            assert(j == 2 * i + 1);
        }
    }
    assert forall|i: int| 0 <= i < b.len() implies #[trigger] bytes_of_hex(h)[i] == b[i] by {
        assert(h[2 * i] == hex_char(b[i] as nat / 16));
        lemma_hex_char_value(b[i] as nat / 16);
        lemma_hex_char_value(b[i] as nat % 16);
    }
    assert(bytes_of_hex(h) =~= b);
    vstd::utf8::encode_utf8_valid_utf8(s);
    vstd::utf8::encode_utf8_decode_utf8(s);
}

/// `str::parse::<u16>`, refusing with a portable-format error.
pub fn parse_u16(value: &str) -> (r: Result<u16, LibraryError>)
    ensures
        match parse_unsigned(value@, 0xffff) {
            Some(n) => r == Ok::<u16, LibraryError>(n as u16),
            None => r matches Err(e) && e is PortableFormat,
        },
{
    let chars = chars_of(value);
    match parse_decimal(&chars, 0xffffu64) {
        Some(v) => Ok(v as u16),
        None => Err(portable_error("invalid unsigned 16-bit field")),
    }
}

/// A positive `u32` field.
pub fn parse_u32(value: &str) -> (r: Result<u32, LibraryError>)
    ensures
        match parse_unsigned(value@, 0xffff_ffff) {
            Some(n) => if n > 0 {
                r == Ok::<u32, LibraryError>(n as u32)
            } else {
                r matches Err(e) && e is PortableFormat
            },
            None => r matches Err(e) && e is PortableFormat,
        },
{
    let chars = chars_of(value);
    match parse_decimal(&chars, 0xffff_ffffu64) {
        Some(v) => {
            if v == 0 {
                return Err(portable_error("field must be positive"));
            }
            Ok(v as u32)
        },
        None => Err(portable_error("invalid unsigned 32-bit field")),
    }
}

/// A positive `u64` field.
pub fn parse_u64(value: &str) -> (r: Result<u64, LibraryError>)
    ensures
        match parse_unsigned(value@, 0xffff_ffff_ffff_ffff) {
            Some(n) => if n > 0 {
                r == Ok::<u64, LibraryError>(n as u64)
            } else {
                r matches Err(e) && e is PortableFormat
            },
            None => r matches Err(e) && e is PortableFormat,
        },
{
    let chars = chars_of(value);
    match parse_decimal(&chars, 0xffff_ffff_ffff_ffffu64) {
        Some(v) => {
            if v == 0 {
                return Err(portable_error("field must be positive"));
            }
            Ok(v)
        },
        None => Err(portable_error("invalid unsigned 64-bit field")),
    }
}

/// An ordinal field (`str::parse::<usize>`).
pub fn parse_usize(value: &str) -> (r: Result<usize, LibraryError>)
    ensures
        match parse_unsigned(value@, usize::MAX as nat) {
            Some(n) => r == Ok::<usize, LibraryError>(n as usize),
            None => r matches Err(e) && e is PortableFormat,
        },
{
    let chars = chars_of(value);
    match parse_decimal(&chars, usize::MAX as u64) {
        Some(v) => Ok(v as usize),
        None => Err(portable_error("invalid ordinal field")),
    }
}

/// A `0`/`1` boolean field.
pub fn parse_bool(value: &str) -> (r: Result<bool, LibraryError>)
    ensures
        value@ == seq!['0'] ==> r == Ok::<bool, LibraryError>(false),
        value@ == seq!['1'] ==> r == Ok::<bool, LibraryError>(true),
        value@ != seq!['0'] && value@ != seq!['1'] ==> (r matches Err(e) && e is PortableFormat),
{
    let chars = chars_of(value);
    if chars.len() == 1 && chars[0] == '0' {
        assert(chars@ =~= seq!['0']);
        return Ok(false);
    }
    if chars.len() == 1 && chars[0] == '1' {
        assert(chars@ =~= seq!['1']);
        return Ok(true);
    }
    Err(portable_error("boolean field must be 0 or 1"))
}

/// Artifacts of a newer format are unsupported; older ones are refused as
/// legacy formats.
pub fn validate_version(version: u16) -> (r: Result<(), LibraryError>)
    ensures
        version == PORTABLE_FORMAT_VERSION ==> r is Ok,
        version > PORTABLE_FORMAT_VERSION ==> r == Err::<(), LibraryError>(LibraryError::UnsupportedPortableFormat { found: version, supported: PORTABLE_FORMAT_VERSION }),
        version < PORTABLE_FORMAT_VERSION ==> (r matches Err(e) && e is PortableFormat),
{
    if version > PORTABLE_FORMAT_VERSION {
        return Err(LibraryError::UnsupportedPortableFormat { found: version, supported: PORTABLE_FORMAT_VERSION });
    }
    if version != PORTABLE_FORMAT_VERSION {
        return Err(portable_error("unsupported legacy portable format"));
    }
    Ok(())
}

/// `fields` joined by tabs.
pub open spec fn tab_joined(fields: Seq<Seq<char>>) -> Seq<char>
    decreases fields.len(),
{
    if fields.len() == 0 {
        seq![]
    } else if fields.len() == 1 {
        fields[0]
    } else {
        tab_joined(fields.drop_last()) + seq!['\t'] + fields.last()
    }
}

/// Appends one record: the fields joined by tabs, then a line feed.
pub fn push_line(output: &mut Vec<char>, fields: &[&str])
    ensures
        final(output)@ == old(output)@ + tab_joined(fields@.map_values(|f: &str| f@)) + seq!['\n'],
{
    let ghost start = output@;
    let ghost views = fields@.map_values(|f: &str| f@);
    let mut i: usize = 0;
    assert(views.take(0) =~= Seq::<Seq<char>>::empty());
    while i < fields.len()
        invariant
            i <= fields@.len(),
            views == fields@.map_values(|f: &str| f@),
            output@ == start + tab_joined(views.take(i as int)),
        decreases fields@.len() - i,
    {
        if i > 0 {
            output.push('\t');
        }
        let mut f = chars_of(fields[i]);
        output.append(&mut f);
        proof {
            let t = views.take(i as int + 1);
            assert(t.drop_last() =~= views.take(i as int));
            assert(t.last() == fields@[i as int]@);
            if i == 0 {
                assert(t.len() == 1);
            }
            assert(output@ =~= start + tab_joined(t));
        }
        i = i + 1;
    }
    output.push('\n');
    assert(views.take(fields@.len() as int) =~= views);
}

/// A record has exactly the expected number of fields.
pub fn require_fields(count: usize, expected: usize) -> (r: Result<(), LibraryError>)
    ensures
        r is Ok <==> count == expected,
        r matches Err(e) ==> e is PortableFormat,
{
    if count == expected {
        Ok(())
    } else {
        Err(portable_error("record has the wrong number of fields"))
    }
}

/// Ordinal-keyed values, in ascending ordinal order, must be numbered
/// 0, 1, 2, ... without a gap.
pub fn ordered_values(values: &[(usize, String)]) -> (r: Result<Vec<String>, LibraryError>)
    ensures
        r is Ok <==> forall|i: int| 0 <= i < values@.len() ==> (#[trigger] values@[i]).0 == i,
        r matches Ok(v) ==> v@.len() == values@.len() && forall|i: int| 0 <= i < v@.len() ==> #[trigger] v@[i]@ == values@[i].1@,
        r matches Err(e) ==> e is PortableFormat,
{
    let mut out: Vec<String> = Vec::new();
    let mut i: usize = 0;
    while i < values.len()
        invariant
            i <= values@.len(),
            out@.len() == i,
            forall|j: int| 0 <= j < i ==> (#[trigger] values@[j]).0 == j,
            forall|j: int| 0 <= j < i ==> #[trigger] out@[j]@ == values@[j].1@,
        decreases values@.len() - i,
    {
        if values[i].0 != i {
            return Err(portable_error("portable ordinal sequence contains a gap"));
        }
        out.push(values[i].1.clone());
        i = i + 1;
    }
    Ok(out)
}

pub open spec fn digest_label() -> Seq<char> {
    seq!['s', 'h', 'a', '2', '5', '6', '\t']
}

/// The artifact that closes `body`: the body, `sha256`, a tab, the
/// lower-case hexadecimal SHA-256 digest of the body's bytes, and a line
/// feed.
pub open spec fn sealed_artifact(body: Seq<char>) -> Seq<char> {
    body + digest_label() + hex_of_bytes(sha256_of(encode_utf8(body))) + seq!['\n']
}

/// Closes an artifact body with its digest line; the body and the result
/// are bounded to 8 MiB.
pub fn finish_artifact(body: String) -> (r: Result<Vec<u8>, LibraryError>)
    ensures
        encode_utf8(body@).len() > MAX_PORTABLE_BYTES ==> (r matches Err(e) && e is PortableFormat),
        encode_utf8(body@).len() <= MAX_PORTABLE_BYTES && encode_utf8(sealed_artifact(body@)).len() > MAX_PORTABLE_BYTES ==> (r matches Err(e) && e is PortableFormat),
        encode_utf8(body@).len() <= MAX_PORTABLE_BYTES && encode_utf8(sealed_artifact(body@)).len() <= MAX_PORTABLE_BYTES ==> (r matches Ok(b) && b@ == encode_utf8(sealed_artifact(body@))),
{
    let chars = chars_of(body.as_str());
    let bytes = utf8_bytes(&chars);
    if bytes.len() > MAX_PORTABLE_BYTES {
        return Err(portable_error("portable artifact exceeds maximum size"));
    }
    let digest = sha256_hex(&bytes);
    let mut out = chars;
    let mut label = lit("sha256\t");
    proof {
        reveal_strlit("sha256\t");
        assert(label@ =~= digest_label());
    }
    out.append(&mut label);
    let mut d = chars_of(digest.as_str());
    out.append(&mut d);
    out.push('\n');
    assert(out@ =~= sealed_artifact(body@));
    let sealed = utf8_bytes(&out);
    if sealed.len() > MAX_PORTABLE_BYTES {
        return Err(portable_error("portable artifact exceeds maximum size"));
    }
    Ok(sealed)
}

/// What the frame and header of a portable artifact say.
pub enum ArtifactVerdict {
    Malformed,
    DigestMismatch,
    Unsupported(u16),
    Records(Seq<Seq<char>>),
}

/// A line feed, then `sha256` and a tab: where the digest line starts.
pub open spec fn artifact_marker() -> Seq<char> {
    seq!['\n'] + digest_label()
}

pub open spec fn library_magic() -> Seq<char> {
    seq!['L', 'I', 'N', 'U', 'R', 'A', '-', 'L', 'I', 'B', 'R', 'A', 'R', 'Y']
}

/// `s` contains `c`.
pub open spec fn has_char(s: Seq<char>, c: char) -> bool {
    exists|i: int| 0 <= i < s.len() && s[i] == c
}

/// The header line `LINURA-LIBRARY<TAB>version<TAB>kind` and the records
/// after it: a newer version is unsupported; the version must be the
/// current one, the kind the expected one, and there may be at most 65536
/// records, none empty.
pub open spec fn header_verdict(ls: Seq<Seq<char>>, kind: Seq<char>) -> ArtifactVerdict {
    if ls.len() == 0 {
        ArtifactVerdict::Malformed
    } else {
        let hf = split(ls[0], '\t');
        if !(hf.len() == 3 && hf[0] == library_magic()) {
            ArtifactVerdict::Malformed
        } else {
            match parse_unsigned(hf[1], 0xffff) {
                None => ArtifactVerdict::Malformed,
                Some(v) => if v > PORTABLE_FORMAT_VERSION {
                    ArtifactVerdict::Unsupported(v as u16)
                } else if v != PORTABLE_FORMAT_VERSION {
                    ArtifactVerdict::Malformed
                } else if hf[2] != kind {
                    ArtifactVerdict::Malformed
                } else {
                    let recs = ls.skip(1);
                    if recs.len() > MAX_RECORDS || exists|i: int| 0 <= i < recs.len() && (#[trigger] recs[i]).len() == 0 {
                        ArtifactVerdict::Malformed
                    } else {
                        ArtifactVerdict::Records(recs)
                    }
                },
            }
        }
    }
}

/// The verdict on artifact bytes: at most 8 MiB of UTF-8; the text after
/// the last digest marker is 64 hexadecimal digits and a final line feed;
/// the digest (ignoring case) is the SHA-256 of the body up to and including
/// the marker's line feed; then the header and records decide.
pub open spec fn artifact_verdict(bytes: Seq<u8>, kind: Seq<char>) -> ArtifactVerdict {
    if bytes.len() > MAX_PORTABLE_BYTES || !valid_utf8(bytes) {
        ArtifactVerdict::Malformed
    } else {
        let text = decode_utf8(bytes);
        match last_occurrence(text, artifact_marker()) {
            None => ArtifactVerdict::Malformed,
            Some(k) => {
                let tail = text.skip(k + 8);
                if !(tail.len() > 0 && tail.last() == '\n' && !has_char(tail.drop_last(), '\n')) {
                    ArtifactVerdict::Malformed
                } else {
                    let declared = tail.drop_last();
                    if !(declared.len() == 64 && all_hex(declared)) {
                        ArtifactVerdict::Malformed
                    } else {
                        let body = text.take(k).push('\n');
                        if hex_of_bytes(sha256_of(encode_utf8(body))) != ascii_lower(declared) {
                            ArtifactVerdict::DigestMismatch
                        } else {
                            header_verdict(lines(body), kind)
                        }
                    }
                }
            },
        }
    }
}

fn contains_char(s: &[char], c: char) -> (r: bool)
    ensures
        r == has_char(s@, c),
{
    let mut i: usize = 0;
    while i < s.len()
        invariant
            i <= s@.len(),
            forall|j: int| 0 <= j < i ==> s@[j] != c,
        decreases s@.len() - i,
    {
        if s[i] == c {
            return true;
        }
        i = i + 1;
    }
    false
}

fn check_header(ls: &Vec<Vec<char>>, kind: &[char]) -> (r: Result<Vec<String>, LibraryError>)
    ensures
        match header_verdict(ls@.map_values(|l: Vec<char>| l@), kind@) {
            ArtifactVerdict::Records(recs) => r matches Ok(v) && v@.map_values(|s: String| s@) == recs,
            ArtifactVerdict::Unsupported(found) => r == Err::<Vec<String>, LibraryError>(LibraryError::UnsupportedPortableFormat { found, supported: PORTABLE_FORMAT_VERSION }),
            _ => r matches Err(e) && e is PortableFormat,
        },
{
    let ghost views = ls@.map_values(|l: Vec<char>| l@);
    if ls.len() == 0 {
        return Err(portable_error("missing header"));
    }
    assert(views[0] == ls@[0]@);
    let hf = split_on(&ls[0], '\t');
    let magic = lit("LINURA-LIBRARY");
    proof {
        reveal_strlit("LINURA-LIBRARY");
        assert(magic@ =~= library_magic());
    }
    if hf.len() != 3 || !chars_eq(&hf[0], &magic) {
        return Err(portable_error("invalid artifact header"));
    }
    let version = match parse_decimal(&hf[1], 0xffffu64) {
        Some(v) => v,
        None => return Err(portable_error("invalid portable format version")),
    };
    if version > PORTABLE_FORMAT_VERSION as u64 {
        return Err(LibraryError::UnsupportedPortableFormat { found: version as u16, supported: PORTABLE_FORMAT_VERSION });
    }
    if version != PORTABLE_FORMAT_VERSION as u64 {
        return Err(portable_error("unsupported legacy portable format"));
    }
    if !chars_eq(&hf[2], kind) {
        return Err(portable_error("artifact kind differs from the expected kind"));
    }
    let ghost recs = views.skip(1);
    let mut out: Vec<String> = Vec::new();
    let mut i: usize = 1;
    while i < ls.len()
        invariant
            1 <= i <= ls@.len(),
            views == ls@.map_values(|l: Vec<char>| l@),
            recs == views.skip(1),
            out@.len() == i - 1,
            forall|j: int| 0 <= j < i - 1 ==> #[trigger] out@[j]@ == recs[j],
            forall|j: int| 0 <= j < i - 1 ==> (#[trigger] recs[j]).len() > 0,
            i - 1 <= MAX_RECORDS,
            header_verdict(views, kind@) == (if recs.len() > MAX_RECORDS || exists|j: int| 0 <= j < recs.len() && (#[trigger] recs[j]).len() == 0 {
                ArtifactVerdict::Malformed
            } else {
                ArtifactVerdict::Records(recs)
            }),
        decreases ls@.len() - i,
    {
        assert(recs[i - 1] == ls@[i as int]@);
        if i - 1 >= MAX_RECORDS {
            return Err(portable_error("portable artifact exceeds record bound"));
        }
        if ls[i].len() == 0 {
            return Err(portable_error("empty records are not permitted"));
        }
        let line = string_of(&ls[i]);
        assert(line@ == recs[i - 1] && recs[i - 1].len() > 0);
        let ghost old_out = out@;
        out.push(line);
        assert forall|j: int| 0 <= j < i implies #[trigger] out@[j]@ == recs[j] by {
            if j < i - 1 {
                assert(out@[j] == old_out[j]);
            }
        }
        i = i + 1;
    }
    assert(out@.map_values(|s: String| s@) =~= recs);
    Ok(out)
}

/// Checks a portable artifact's frame, digest and header, and returns its
/// record lines (see [`artifact_verdict`]).
pub fn parse_artifact_frame(bytes: &[u8], expected_kind: &str) -> (r: Result<Vec<String>, LibraryError>)
    ensures
        match artifact_verdict(bytes@, expected_kind@) {
            ArtifactVerdict::Records(recs) => r matches Ok(v) && v@.map_values(|s: String| s@) == recs,
            ArtifactVerdict::Unsupported(found) => r == Err::<Vec<String>, LibraryError>(LibraryError::UnsupportedPortableFormat { found, supported: PORTABLE_FORMAT_VERSION }),
            ArtifactVerdict::DigestMismatch => r == Err::<Vec<String>, LibraryError>(LibraryError::PortableDigestMismatch),
            ArtifactVerdict::Malformed => r matches Err(e) && e is PortableFormat,
        },
{
    if bytes.len() > MAX_PORTABLE_BYTES {
        return Err(portable_error("portable artifact exceeds maximum size"));
    }
    let text = match utf8_text(bytes) {
        Some(t) => t,
        None => return Err(portable_error("artifact is not UTF-8")),
    };
    let chars = chars_of(text);
    let mut marker = vec!['\n'];
    let mut label = lit("sha256\t");
    proof {
        reveal_strlit("sha256\t");
        assert(label@ =~= digest_label());
    }
    marker.append(&mut label);
    assert(marker@ =~= artifact_marker());
    let k = match rfind(&chars, &marker) {
        Some(k) => k,
        None => return Err(portable_error("missing terminal digest")),
    };
    proof {
        lemma_rfind_below(chars@, marker@, (chars@.len() - marker@.len() + 1) as nat);
    }
    let cl: usize = chars.len();
    assert(k + 8 <= cl);
    let tail = slice_chars(&chars, k + 8, cl);
    assert(tail@ =~= chars@.skip(k + 8));
    if tail.len() == 0 || tail[tail.len() - 1] != '\n' {
        return Err(portable_error("terminal digest record is malformed"));
    }
    let declared = slice_chars(&tail, 0, tail.len() - 1);
    assert(declared@ =~= tail@.drop_last());
    if contains_char(&declared, '\n') {
        return Err(portable_error("terminal digest record is malformed"));
    }
    if declared.len() != 64 || !crate::num::check_all_hex(&declared) {
        return Err(portable_error("terminal digest is not a SHA-256 hexadecimal value"));
    }
    let mut body = slice_chars(&chars, 0, k);
    body.push('\n');
    assert(body@ =~= chars@.take(k as int).push('\n'));
    let body_bytes = utf8_bytes(&body);
    let digest = sha256_hex(&body_bytes);
    let digest_chars = chars_of(digest.as_str());
    let lowered = to_ascii_lower(&declared);
    if !chars_eq(&digest_chars, &lowered) {
        return Err(LibraryError::PortableDigestMismatch);
    }
    let ls = split_lines(&body);
    proof {
        assert(ls@.map_values(|l: Vec<char>| l@) =~= lines(body@));
    }
    let kind = chars_of(expected_kind);
    check_header(&ls, &kind)
}

proof fn lemma_hex_pair(d: Seq<u8>, i: int)
    requires
        0 <= i < d.len(),
    ensures
        hex_of_bytes(d)[2 * i] == hex_char(d[i] as nat / 16),
        hex_of_bytes(d)[2 * i + 1] == hex_char(d[i] as nat % 16),
{
    lemma_hex_of_bytes(d);
    assert(hex_of_bytes(d)[2 * i] == hex_char(d[i] as nat / 16));
}

pub proof fn lemma_hex_digits_plain(d: Seq<u8>)
    ensures
        hex_of_bytes(d).len() == 2 * d.len(),
        forall|j: int| 0 <= j < hex_of_bytes(d).len() ==> is_hex_digit(#[trigger] hex_of_bytes(d)[j])
            && hex_of_bytes(d)[j] != '\n' && crate::text::lower_char(hex_of_bytes(d)[j]) == hex_of_bytes(d)[j]
            && hex_of_bytes(d)[j] != 's',
{
    let h = hex_of_bytes(d);
    lemma_hex_of_bytes(d);
    assert forall|j: int| 0 <= j < h.len() implies is_hex_digit(#[trigger] h[j]) && h[j] != '\n'
        && crate::text::lower_char(h[j]) == h[j] && h[j] != 's' by {
        let i = j / 2;
        assert(0 <= i < d.len());
        lemma_hex_pair(d, i);
        lemma_hex_char_value(d[i] as nat / 16);
        lemma_hex_char_value(d[i] as nat % 16);
        if j % 2 == 0 {
            assert(j == 2 * i);
        } else {
            assert(j == 2 * i + 1);
        }
    }
}

/// A sealed artifact reads back as its body: for every body that ends with a
/// line feed and fits the size bound, the artifact's digest line is found,
/// well formed and matching, so what decides is the body's own header and
/// records. (The digest of every input is 32 bytes, as `sha256` states.)
pub proof fn law_artifact_round_trip(body: Seq<char>, kind: Seq<char>)
    requires
        body.len() > 0,
        body.last() == '\n',
        sha256_of(encode_utf8(body)).len() == 32,
        encode_utf8(sealed_artifact(body)).len() <= MAX_PORTABLE_BYTES,
    ensures
        artifact_verdict(encode_utf8(sealed_artifact(body)), kind) == header_verdict(lines(body), kind),
{
    let t = sealed_artifact(body);
    vstd::utf8::encode_utf8_valid_utf8(t);
    vstd::utf8::encode_utf8_decode_utf8(t);
    let d = sha256_of(encode_utf8(body));
    let h = hex_of_bytes(d);
    lemma_hex_digits_plain(d);
    assert(h.len() == 64);
    let m = artifact_marker();
    let b = body.len() as int;
    let k = b - 1;
    let label = digest_label();
    assert(t == body + label + h + seq!['\n']);
    assert(t.len() == b + 72);
    assert forall|j: int| 0 <= j < 7 implies t[b + j] == #[trigger] label[j] by {}
    assert forall|j: int| 0 <= j < 64 implies t[b + 7 + j] == #[trigger] h[j] by {}
    assert(t[b + 71] == '\n');
    assert(t[k] == '\n');
    assert(t.subrange(k, k + 8) =~= m);
    assert forall|i: int| k < i < t.len() - 8 + 1 implies !occurs_at(t, m, i) by {
        if occurs_at(t, m, i) {
            assert(t.subrange(i, i + 8)[0] == '\n');
            assert(t[i] == '\n');
            if i < b + 7 {
                assert(t[i] == label[i - b]);
            } else {
                assert(t[i] == h[i - b - 7]);
            }
        }
    }
    lemma_rfind_below_at(t, m, (t.len() - 8 + 1) as nat, k);
    assert(t.skip(k + 8) =~= h + seq!['\n']);
    assert((h + seq!['\n']).drop_last() =~= h);
    assert(!has_char(h, '\n'));
    assert(all_hex(h));
    assert(ascii_lower(h) =~= h);
    assert(t.take(k).push('\n') =~= body);
}

} // verus!
