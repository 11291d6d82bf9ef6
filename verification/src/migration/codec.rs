//! Text framing shared by the persisted ledger and recovery marker: a payload
//! followed by one `integrity=<16 hex digits>` line carrying its FNV-1a tag.
use vstd::prelude::*;
use vstd::utf8::encode_utf8;
use crate::migration::integrity::{integrity_tag, tag_of};
use crate::num::{all_hex, check_all_hex, hex16, hex_fixed, hex_value, lemma_hex16_value, lemma_hex_fixed, parse_hex16};
use crate::text::{slice_chars, utf8_bytes};

verus! {

pub open spec fn integrity_marker() -> Seq<char> {
    seq!['i', 'n', 't', 'e', 'g', 'r', 'i', 't', 'y', '=']
}

/// `p` occurs in `t` starting at `i`.
pub open spec fn occurs_at(t: Seq<char>, p: Seq<char>, i: int) -> bool {
    0 <= i && i + p.len() <= t.len() && t.subrange(i, i + p.len()) == p
}

/// The last start position below `n` at which `p` occurs in `t`.
pub open spec fn rfind_below(t: Seq<char>, p: Seq<char>, n: nat) -> Option<int>
    decreases n,
{
    if n == 0 {
        None
    } else if occurs_at(t, p, n - 1) {
        Some(n - 1)
    } else {
        rfind_below(t, p, (n - 1) as nat)
    }
}

/// `str::rfind`: the last position at which `p` occurs in `t`.
pub open spec fn last_occurrence(t: Seq<char>, p: Seq<char>) -> Option<int> {
    if t.len() >= p.len() {
        rfind_below(t, p, (t.len() - p.len() + 1) as nat)
    } else {
        None
    }
}

pub proof fn lemma_rfind_below(t: Seq<char>, p: Seq<char>, n: nat)
    ensures
        match rfind_below(t, p, n) {
            Some(k) => 0 <= k < n && occurs_at(t, p, k) && forall|j: int| k < j < n ==> !occurs_at(t, p, j),
            None => forall|j: int| 0 <= j < n ==> !occurs_at(t, p, j),
        },
    decreases n,
{
    if n > 0 && !occurs_at(t, p, n - 1) {
        lemma_rfind_below(t, p, (n - 1) as nat);
    }
}

pub proof fn lemma_rfind_below_at(t: Seq<char>, p: Seq<char>, n: nat, k: int)
    requires
        0 <= k < n,
        occurs_at(t, p, k),
        forall|j: int| k < j < n ==> !occurs_at(t, p, j),
    ensures
        rfind_below(t, p, n) == Some(k),
    decreases n,
{
    if n - 1 != k {
        lemma_rfind_below_at(t, p, (n - 1) as nat, k);
    }
}

/// Splits tagged text into its payload and the declared hexadecimal tag: the
/// text after the last `integrity=` must end with one line feed.
pub open spec fn split_tagged(t: Seq<char>) -> Option<(Seq<char>, Seq<char>)> {
    match last_occurrence(t, integrity_marker()) {
        None => None,
        Some(k) => {
            let rest = t.skip(k + 10);
            if rest.len() > 0 && rest.last() == '\n' {
                Some((t.take(k), rest.drop_last()))
            } else {
                None
            }
        },
    }
}

/// The declared tag is sixteen hexadecimal digits equal to the FNV-1a tag of
/// the payload's UTF-8 bytes.
pub open spec fn tag_verified(t: Seq<char>) -> bool {
    match split_tagged(t) {
        Some((payload, hex)) => hex.len() == 16 && all_hex(hex) && hex_value(hex) == tag_of(
            encode_utf8(payload),
        ),
        None => false,
    }
}

/// The payload of tagged text.
pub open spec fn tagged_payload(t: Seq<char>) -> Seq<char> {
    split_tagged(t).unwrap().0
}

/// The integrity line that closes `payload`.
pub open spec fn integrity_line(payload: Seq<char>) -> Seq<char> {
    integrity_marker() + hex_fixed(tag_of(encode_utf8(payload)) as nat, 16) + seq!['\n']
}

/// `payload` closed by its integrity line.
pub open spec fn tagged_text(payload: Seq<char>) -> Seq<char> {
    payload + integrity_line(payload)
}

/// Position of the last occurrence of `p` in `t`.
pub fn rfind(t: &[char], p: &[char]) -> (r: Option<usize>)
    ensures
        match r {
            Some(k) => last_occurrence(t@, p@) == Some(k as int),
            None => last_occurrence(t@, p@) is None,
        },
{
    if t.len() < p.len() {
        return None;
    }
    let tl: usize = t.len();
    let last: usize = tl - p.len();
    let mut i: usize = last;
    loop
        invariant
            i <= last,
            last + p@.len() == t@.len(),
            tl == t@.len(),
            rfind_below(t@, p@, (last + 1) as nat) == rfind_below(t@, p@, (i + 1) as nat),
        decreases i,
    {
        let mut j: usize = 0;
        let mut matched = true;
        while j < p.len()
            invariant
                i + p@.len() <= t@.len(),
                tl == t@.len(),
                j <= p@.len(),
                matched == (forall|m: int| 0 <= m < j ==> t@[i + m] == p@[m]),
            decreases p@.len() - j,
        {
            assert(i + j < t@.len());
            if t[i + j] != p[j] {
                matched = false;
            }
            j = j + 1;
        }
        proof {
            if matched {
                assert(t@.subrange(i as int, i + p@.len()) =~= p@);
            } else {
                let m = choose|m: int| 0 <= m < p@.len() && t@[i + m] != p@[m];
                assert(t@.subrange(i as int, i + p@.len())[m] != p@[m]);
            }
        }
        if matched {
            return Some(i);
        }
        if i == 0 {
            assert(rfind_below(t@, p@, 0) is None);
            return None;
        }
        i = i - 1;
    }
}

/// Splits tagged text and checks its integrity tag; `None` when the framing
/// or the tag is wrong.
pub fn verify_tagged(t: &[char]) -> (r: Option<Vec<char>>)
    ensures
        r is Some <==> tag_verified(t@),
        r matches Some(p) ==> p@ == tagged_payload(t@),
{
    let marker = integrity_marker_chars();
    let k = match rfind(t, &marker) {
        Some(k) => k,
        None => return None,
    };
    proof {
        lemma_rfind_below(t@, marker@, (t@.len() - marker@.len() + 1) as nat);
    }
    let tl: usize = t.len();
    assert(k + 10 <= t@.len());
    let rest = slice_chars(t, k + 10, tl);
    assert(rest@ == t@.skip(k + 10));
    if rest.len() == 0 || rest[rest.len() - 1] != '\n' {
        return None;
    }
    let hex = slice_chars(&rest, 0, rest.len() - 1);
    assert(hex@ == rest@.drop_last());
    if hex.len() != 16 || !check_all_hex(&hex) {
        return None;
    }
    let expected = parse_hex16(&hex);
    let payload = slice_chars(t, 0, k);
    assert(payload@ == t@.take(k as int));
    let bytes = utf8_bytes(&payload);
    if integrity_tag(&bytes) != expected {
        return None;
    }
    Some(payload)
}

fn integrity_marker_chars() -> (r: Vec<char>)
    ensures
        r@ == integrity_marker(),
{
    let r = vec!['i', 'n', 't', 'e', 'g', 'r', 'i', 't', 'y', '='];
    assert(r@ =~= integrity_marker());
    r
}

/// Appends the integrity line of `payload` to it.
pub fn close_with_tag(payload: Vec<char>) -> (r: Vec<char>)
    ensures
        r@ == tagged_text(payload@),
{
    let bytes = utf8_bytes(&payload);
    let tag = integrity_tag(&bytes);
    let mut out = payload;
    let marker = integrity_marker_chars();
    let mut i: usize = 0;
    let ghost p = out@;
    while i < marker.len()
        invariant
            i <= marker@.len(),
            marker@ == integrity_marker(),
            out@ == p + marker@.take(i as int),
        decreases marker@.len() - i,
    {
        assert(marker@.take(i as int + 1) == marker@.take(i as int).push(marker@[i as int]));
        out.push(marker[i]);
        i = i + 1;
    }
    let hex = hex16(tag);
    let mut j: usize = 0;
    assert(marker@.take(10) == marker@);
    while j < hex.len()
        invariant
            j <= hex@.len(),
            out@ == p + integrity_marker() + hex@.take(j as int),
        decreases hex@.len() - j,
    {
        assert(hex@.take(j as int + 1) == hex@.take(j as int).push(hex@[j as int]));
        out.push(hex[j]);
        j = j + 1;
    }
    assert(hex@.take(hex@.len() as int) == hex@);
    out.push('\n');
    assert(out@ =~= tagged_text(p));
    out
}

/// Tagged text splits back into its payload and tag.
pub proof fn lemma_tagged_text(payload: Seq<char>)
    ensures
        split_tagged(tagged_text(payload)) == Some(
            (payload, hex_fixed(tag_of(encode_utf8(payload)) as nat, 16)),
        ),
        tag_verified(tagged_text(payload)),
        tagged_payload(tagged_text(payload)) == payload,
{
    let tag = tag_of(encode_utf8(payload));
    let hex = hex_fixed(tag as nat, 16);
    let t = tagged_text(payload);
    let p = payload.len() as int;
    let m = integrity_marker();
    lemma_hex16_value(tag);
    lemma_hex_fixed(tag as nat, 16);
    assert(t.len() == p + 27);
    assert forall|j: int| 0 <= j < 10 implies t[p + j] == #[trigger] m[j] by {}
    assert forall|j: int| 0 <= j < 16 implies t[p + 10 + j] == #[trigger] hex[j] by {}
    assert(t[p + 26] == '\n');
    assert(t.subrange(p, p + 10) =~= m);
    assert forall|i: int| p < i < t.len() - 10 + 1 implies !occurs_at(t, m, i) by {
        if occurs_at(t, m, i) {
            assert(t.subrange(i, i + 10)[0] == 'i');
            assert(t.subrange(i, i + 10)[1] == 'n');
            assert(t[i] == 'i');
            assert(t[i + 1] == 'n');
            if i < p + 10 {
                assert(t[i] == m[i - p]);
                if i - p == 6 {
                    assert(t[i + 1] == m[7]);
                }
            } else {
                assert(t[i] == hex[i - p - 10]);
            }
        }
    }
    lemma_rfind_below_at(t, m, (t.len() - 10 + 1) as nat, p);
    assert(t.skip(p + 10) =~= hex + seq!['\n']);
    assert((hex + seq!['\n']).drop_last() =~= hex);
    assert(t.take(p) =~= payload);
}

} // verus!
