//! The FNV-1a integrity tag of persisted migration artifacts.
use vstd::prelude::*;

verus! {

pub const FNV_OFFSET: u64 = 0xcbf29ce484222325;

pub const FNV_PRIME: u64 = 0x100000001b3;

/// One FNV-1a step: xor the byte in, then multiply by the prime modulo 2^64.
pub open spec fn fnv_step(state: u64, byte: u8) -> u64 {
    (state ^ (byte as u64)).wrapping_mul(FNV_PRIME)
}

/// FNV-1a of `bytes`, starting from `state`.
pub open spec fn fnv(state: u64, bytes: Seq<u8>) -> u64
    decreases bytes.len(),
{
    if bytes.len() == 0 {
        state
    } else {
        fnv_step(fnv(state, bytes.drop_last()), bytes.last())
    }
}

/// The integrity tag of `bytes`.
pub open spec fn tag_of(bytes: Seq<u8>) -> u64 {
    fnv(FNV_OFFSET, bytes)
}

/// Continues an FNV-1a computation over `bytes`.
pub fn fnv1a_update(state: u64, bytes: &[u8]) -> (r: u64)
    ensures
        r == fnv(state, bytes@),
{
    let mut s = state;
    let mut i: usize = 0;
    while i < bytes.len()
        invariant
            i <= bytes@.len(),
            s == fnv(state, bytes@.take(i as int)),
        decreases bytes@.len() - i,
    {
        assert(bytes@.take(i as int + 1).drop_last() == bytes@.take(i as int));
        s = (s ^ (bytes[i] as u64)).wrapping_mul(FNV_PRIME);
        i = i + 1;
    }
    assert(bytes@.take(bytes@.len() as int) == bytes@);
    s
}

/// The integrity tag of `bytes`.
pub fn integrity_tag(bytes: &[u8]) -> (r: u64)
    ensures
        r == tag_of(bytes@),
{
    fnv1a_update(FNV_OFFSET, bytes)
}

proof fn lemma_prime_invertible(x: u64)
    ensures
        ((((x * 0x100000001b3u64) % 0x10000000000000000) * 0xce965057aff6957bu64) % 0x10000000000000000) == x,
{
    assert(((((x * 0x100000001b3u64) % 0x10000000000000000) * 0xce965057aff6957bu64) % 0x10000000000000000) == x)
        by (bit_vector);
}

/// One step of FNV-1a loses nothing: the state before it and the byte it
/// takes are determined by the state after it together with either.
proof fn lemma_step_injective(s1: u64, s2: u64, b1: u8, b2: u8)
    requires
        fnv_step(s1, b1) == fnv_step(s2, b2),
        s1 == s2 || b1 == b2,
    ensures
        s1 == s2 && b1 == b2,
{
    let x = s1 ^ (b1 as u64);
    let y = s2 ^ (b2 as u64);
    assert(fnv_step(s1, b1) == ((x as nat * FNV_PRIME as nat) % 0x10000000000000000nat) as u64);
    assert((x as nat * FNV_PRIME as nat) % 0x10000000000000000nat < 0x10000000000000000nat) by (nonlinear_arith);
    assert((y as nat * FNV_PRIME as nat) % 0x10000000000000000nat < 0x10000000000000000nat) by (nonlinear_arith);
    assert((x * 0x100000001b3u64) % 0x10000000000000000 == (y * 0x100000001b3u64) % 0x10000000000000000);
    lemma_prime_invertible(x);
    lemma_prime_invertible(y);
    assert(x == y);
    if s1 == s2 {
        assert((s1 ^ (b1 as u64)) == (s1 ^ (b2 as u64)) ==> b1 == b2) by (bit_vector);
    } else {
        assert((s1 ^ (b1 as u64)) == (s2 ^ (b1 as u64)) ==> s1 == s2) by (bit_vector);
    }
}

proof fn lemma_same_suffix_keeps_difference(s1: u64, s2: u64, rest: Seq<u8>)
    requires
        s1 != s2,
    ensures
        fnv(s1, rest) != fnv(s2, rest),
    decreases rest.len(),
{
    if rest.len() > 0 {
        lemma_same_suffix_keeps_difference(s1, s2, rest.drop_last());
        if fnv(s1, rest) == fnv(s2, rest) {
            lemma_step_injective(fnv(s1, rest.drop_last()), fnv(s2, rest.drop_last()), rest.last(), rest.last());
        }
    }
}

proof fn lemma_fnv_append(s: u64, a: Seq<u8>, b: Seq<u8>)
    ensures
        fnv(s, a + b) == fnv(fnv(s, a), b),
    decreases b.len(),
{
    if b.len() > 0 {
        lemma_fnv_append(s, a, b.drop_last());
        assert((a + b).drop_last() =~= a + b.drop_last());
    } else {
        assert(a + b =~= a);
    }
}

/// Changing one byte of a sequence always changes its integrity tag: a
/// persisted artifact edited in one place never passes its check.
pub proof fn law_one_byte_change_changes_tag(a: Seq<u8>, b: Seq<u8>, i: int)
    requires
        a.len() == b.len(),
        0 <= i < a.len(),
        a[i] != b[i],
        forall|j: int| 0 <= j < a.len() && j != i ==> a[j] == b[j],
    ensures
        tag_of(a) != tag_of(b),
{
    let pre = a.take(i);
    assert(b.take(i) =~= pre);
    let rest = a.skip(i + 1);
    assert(b.skip(i + 1) =~= rest);
    let h = fnv(FNV_OFFSET, pre);
    assert(pre.push(a[i]).drop_last() =~= pre);
    assert(pre.push(b[i]).drop_last() =~= pre);
    if fnv_step(h, a[i]) == fnv_step(h, b[i]) {
        lemma_step_injective(h, h, a[i], b[i]);
    }
    assert(fnv(FNV_OFFSET, pre.push(a[i])) == fnv_step(h, a[i]));
    assert(fnv(FNV_OFFSET, pre.push(b[i])) == fnv_step(h, b[i]));
    lemma_same_suffix_keeps_difference(fnv_step(h, a[i]), fnv_step(h, b[i]), rest);
    lemma_fnv_append(FNV_OFFSET, pre.push(a[i]), rest);
    lemma_fnv_append(FNV_OFFSET, pre.push(b[i]), rest);
    assert(pre.push(a[i]) + rest =~= a);
    assert(pre.push(b[i]) + rest =~= b);
}

} // verus!
