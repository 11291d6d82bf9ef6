//! The SQLite authority store's recovery reserve and storage-exhaustion
//! classification: slot sizing, alignment, the reserve's fill pattern, the
//! SQLite header's page size, and which storage failures mean the disk is
//! full. The file operations themselves are done by the caller.
use vstd::prelude::*;
use crate::text::{ascii_lower, chars_of, find_chars, first_occurrence, lit, to_ascii_lower};

verus! {

pub const MIN_RECOVERY_RESERVE_SLOT_BYTES: u64 = 1048576;
pub const RECOVERY_RESERVE_WAL_PAGES: u64 = 32;
pub const RESERVE_WRITE_CHUNK_BYTES: usize = 65536;

/// One reserve slot: room for 32 WAL pages, and at least 1 MiB; `None`
/// when the page count overflows.
pub fn reserve_slot_bytes(page_size: u64) -> (r: Option<u64>)
    ensures
        page_size * 32 > u64::MAX ==> r is None,
        page_size * 32 <= u64::MAX ==> r == Some(if page_size * 32 >= MIN_RECOVERY_RESERVE_SLOT_BYTES {
            (page_size * 32) as u64
        } else {
            MIN_RECOVERY_RESERVE_SLOT_BYTES
        }),
{
    match page_size.checked_mul(RECOVERY_RESERVE_WAL_PAGES) {
        None => None,
        Some(bytes) => Some(if bytes >= MIN_RECOVERY_RESERVE_SLOT_BYTES { bytes } else { MIN_RECOVERY_RESERVE_SLOT_BYTES }),
    }
}

/// The reserve length for `slots` slots; `None` on overflow.
pub fn target_len(slot_bytes: u64, slots: u64) -> (r: Option<u64>)
    ensures
        slot_bytes * slots > u64::MAX ==> r is None,
        slot_bytes * slots <= u64::MAX ==> r == Some((slot_bytes * slots) as u64),
{
    slot_bytes.checked_mul(slots)
}

/// A reserve length is a whole number of slots.
pub fn slot_aligned(length: u64, slot_bytes: u64) -> (r: bool)
    requires
        slot_bytes > 0,
    ensures
        r == (length % slot_bytes == 0),
{
    length % slot_bytes == 0
}

/// One xorshift step of the reserve's fill pattern.
pub open spec fn xorshift(s: u64) -> u64 {
    let a = s ^ (s << 13u64);
    let b = a ^ (a >> 7u64);
    b ^ (b << 17u64)
}

/// The pattern state after `n` steps from `offset`.
pub open spec fn fill_state(offset: u64, n: nat) -> u64
    decreases n,
{
    if n == 0 {
        offset ^ 0x9e37_79b9_7f4a_7c15u64
    } else {
        xorshift(fill_state(offset, (n - 1) as nat))
    }
}

/// Byte `i` of the fill pattern that starts at `offset`.
pub open spec fn fill_byte(offset: u64, i: nat) -> u8 {
    (fill_state(offset, i + 1) >> 24u64) as u8
}

/// Overwrites `buffer` with the deterministic fill pattern for `offset`.
pub fn fill_reserve_bytes(buffer: &mut Vec<u8>, offset: u64)
    ensures
        final(buffer)@.len() == old(buffer)@.len(),
        forall|i: int| 0 <= i < final(buffer)@.len() ==> #[trigger] final(buffer)@[i] == fill_byte(offset, i as nat),
{
    let mut state: u64 = offset ^ 0x9e37_79b9_7f4a_7c15u64;
    let mut i: usize = 0;
    let n = buffer.len();
    while i < n
        invariant
            n == buffer@.len(),
            n == old(buffer)@.len(),
            i <= n,
            state == fill_state(offset, i as nat),
            forall|j: int| 0 <= j < i ==> #[trigger] buffer@[j] == fill_byte(offset, j as nat),
        decreases n - i,
    {
        state = state ^ (state << 13u64);
        state = state ^ (state >> 7u64);
        state = state ^ (state << 17u64);
        buffer.set(i, (state >> 24u64) as u8);
        i = i + 1;
    }
}

/// The page size that a SQLite header declares, when the header is a SQLite
/// v3 header and the size is a power of two from 512 to 65536 (the value 1
/// stands for 65536).
pub open spec fn header_page_size(header: Seq<u8>) -> Option<u64> {
    let encoded: int = (header[16] as int) * 256 + header[17] as int;
    let size: u64 = if encoded == 1 { 65536u64 } else { encoded as u64 };
    if header.take(16) == crate::migration::v09::sqlite_magic() && (size == 512 || size == 1024 || size == 2048 || size
        == 4096 || size == 8192 || size == 16384 || size == 32768 || size == 65536) {
        Some(size)
    } else {
        None
    }
}

pub fn sqlite_page_size_from_header(header: &[u8]) -> (r: Option<u64>)
    requires
        header@.len() >= 18,
    ensures
        r == header_page_size(header@),
{
    let magic: [u8; 16] = [0x53, 0x51, 0x4c, 0x69, 0x74, 0x65, 0x20, 0x66, 0x6f, 0x72, 0x6d, 0x61, 0x74, 0x20, 0x33, 0x00];
    assert(magic@ =~= crate::migration::v09::sqlite_magic());
    let mut i: usize = 0;
    while i < 16
        invariant
            i <= 16,
            header@.len() >= 18,
            magic@ == crate::migration::v09::sqlite_magic(),
            forall|j: int| 0 <= j < i ==> header@[j] == magic@[j],
        decreases 16 - i,
    {
        if header[i] != magic[i] {
            assert(header@.take(16)[i as int] != magic@[i as int]);
            return None;
        }
        i = i + 1;
    }
    assert(header@.take(16) =~= crate::migration::v09::sqlite_magic());
    let encoded: u64 = (header[16] as u64) * 256 + header[17] as u64;
    let size: u64 = if encoded == 1 { 65536 } else { encoded };
    if size == 512 || size == 1024 || size == 2048 || size == 4096 || size == 8192 || size == 16384 || size == 32768
        || size == 65536 {
        Some(size)
    } else {
        None
    }
}

/// The SQL-function result of a reserve operation: 1 on success, 0 when the
/// disk is full (`ENOSPC`, OS error 28), -1 on any other failure, given the
/// failure's OS error code when it has one.
pub fn reserve_result(result: Result<(), Option<i32>>) -> (r: i64)
    ensures
        result is Ok ==> r == 1,
        result == Err::<(), Option<i32>>(Some(28i32)) ==> r == 0,
        result is Err && result != Err::<(), Option<i32>>(Some(28i32)) ==> r == -1,
{
    match result {
        Ok(()) => 1,
        Err(Some(code)) => {
            if code == 28 {
                0
            } else {
                -1
            }
        },
        Err(None) => -1,
    }
}

/// After the opener slot is released, the reserve keeps its length and
/// holds at least all but one slot, but not the whole length, physically.
pub fn released_headroom_ok(length: u64, allocated: u64, expected_len: u64, slot_bytes: u64) -> (r: bool)
    ensures
        r == (length == expected_len && expected_len >= slot_bytes && allocated >= expected_len - slot_bytes
            && allocated < expected_len),
{
    if length != expected_len || expected_len < slot_bytes {
        return false;
    }
    let minimum = expected_len - slot_bytes;
    allocated >= minimum && allocated < expected_len
}

/// A reserve is physically allocated: its length is the expected one and
/// its allocated blocks cover it.
pub fn physical_allocation_ok(length: u64, allocated: u64, expected_len: u64) -> (r: bool)
    ensures
        r == (length == expected_len && allocated >= expected_len),
{
    length == expected_len && allocated >= expected_len
}

/// A storage failure's detail reports a full disk: ignoring ASCII case, it
/// mentions a full database or disk, no space left, `ENOSPC`, or exhausted
/// physical storage.
pub open spec fn detail_reports_full(detail: Seq<char>) -> bool {
    let d = ascii_lower(detail);
    first_occurrence(d, "database or disk is full"@) is Some || first_occurrence(d, "no space left on device"@) is Some
        || first_occurrence(d, "enospc"@) is Some || first_occurrence(d, "physical storage exhausted"@) is Some
}

pub fn storage_detail_is_full(detail: &str) -> (r: bool)
    ensures
        r == detail_reports_full(detail@),
{
    let d = to_ascii_lower(&chars_of(detail));
    let a = lit("database or disk is full");
    let b = lit("no space left on device");
    let c = lit("enospc");
    let e = lit("physical storage exhausted");
    find_chars(&d, &a).is_some() || find_chars(&d, &b).is_some() || find_chars(&d, &c).is_some()
        || find_chars(&d, &e).is_some()
}

/// How a store failed, as far as exhaustion is concerned.
#[derive(Clone, Debug, PartialEq, Eq)]
pub enum StoreFailure {
    Storage(String),
    CapacityExceeded,
    Other,
}

/// A store-open failure is physical exhaustion when a storage failure
/// reports a full disk, or when a logical capacity failure coincides with a
/// file system that has no block available (`no_blocks_available`, as the
/// caller observed it).
pub fn is_physical_storage_exhaustion(error: &StoreFailure, no_blocks_available: bool) -> (r: bool)
    ensures
        r == match *error {
            StoreFailure::Storage(detail) => detail_reports_full(detail@),
            StoreFailure::CapacityExceeded => no_blocks_available,
            StoreFailure::Other => false,
        },
{
    match error {
        StoreFailure::Storage(detail) => storage_detail_is_full(detail.as_str()),
        StoreFailure::CapacityExceeded => no_blocks_available,
        StoreFailure::Other => false,
    }
}

} // verus!
