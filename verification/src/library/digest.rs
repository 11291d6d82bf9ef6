//! SHA-256 digests of the Library: operation digests over length-prefixed
//! fields, and lower-case hexadecimal rendering.
use vstd::prelude::*;
use vstd::utf8::encode_utf8;
use sha2::Digest;
use crate::num::{hex2, hex_of_bytes};
use crate::provider::capabilityless::{be_bytes, push_bytes};
use crate::text::{chars_of, string_of, utf8_bytes};

verus! {

/// The SHA-256 digest of `bytes`, as the `sha2` crate computes it.
pub uninterp spec fn sha256_of(bytes: Seq<u8>) -> Seq<u8>;

/// `sha2::Sha256::digest`: the SHA-256 digest of `bytes`. The contract
/// names the result and states its length, 32 bytes (`Sha256`'s output
/// size); the digest's value is not stated.
#[verifier::external_body]
pub(crate) fn sha256(bytes: &[u8]) -> (r: Vec<u8>)
    ensures
        r@ == sha256_of(bytes@),
        r@.len() == 32,
{
    sha2::Sha256::digest(bytes).to_vec()
}

pub fn hex_digest(bytes: &[u8]) -> (out: String)
    ensures
        out@ == hex_of_bytes(bytes@),
{
    let mut chars: Vec<char> = Vec::new();
    let mut i: usize = 0;
    assert(bytes@.take(0) =~= Seq::<u8>::empty());
    while i < bytes.len()
        invariant
            i <= bytes@.len(),
            chars@ == hex_of_bytes(bytes@.take(i as int)),
        decreases bytes@.len() - i,
    {
        let mut pair = hex2(bytes[i]);
        proof {
            assert(bytes@.take(i as int + 1).drop_last() =~= bytes@.take(i as int));
        }
        chars.append(&mut pair);
        i = i + 1;
    }
    assert(bytes@.take(bytes@.len() as int) =~= bytes@);
    string_of(&chars)
}

/// The bytes hashed for an operation digest: each field's UTF-8 length as
/// eight big-endian bytes, then its UTF-8 bytes.
pub open spec fn framed_fields(fields: Seq<Seq<char>>) -> Seq<u8>
    decreases fields.len(),
{
    if fields.len() == 0 {
        seq![]
    } else {
        let f = encode_utf8(fields.last());
        framed_fields(fields.drop_last()) + be_bytes(f.len() as u64) + f
    }
}

/// The operation digest of `fields`: SHA-256 of the framed fields, in
/// lower-case hexadecimal.
pub open spec fn fields_digest(fields: Seq<Seq<char>>) -> Seq<char> {
    hex_of_bytes(sha256_of(framed_fields(fields)))
}

pub fn digest_owned_fields(fields: &[String]) -> (out: String)
    ensures
        out@ == fields_digest(fields@.map_values(|s: String| s@)),
{
    let ghost views = fields@.map_values(|s: String| s@);
    let mut framed: Vec<u8> = Vec::new();
    let mut i: usize = 0;
    assert(views.take(0) =~= Seq::<Seq<char>>::empty());
    while i < fields.len()
        invariant
            i <= fields@.len(),
            views == fields@.map_values(|s: String| s@),
            framed@ == framed_fields(views.take(i as int)),
        decreases fields@.len() - i,
    {
        let bytes = utf8_bytes(&chars_of(fields[i].as_str()));
        push_bytes(&mut framed, &bytes);
        proof {
            assert(views.take(i as int + 1).drop_last() =~= views.take(i as int));
            assert(views.take(i as int + 1).last() == fields@[i as int]@);
        }
        i = i + 1;
    }
    assert(views.take(fields@.len() as int) =~= views);
    let digest = sha256(&framed);
    hex_digest(&digest)
}

pub fn digest_fields(fields: &[&str]) -> (out: String)
    ensures
        out@ == fields_digest(fields@.map_values(|s: &str| s@)),
{
    let mut owned: Vec<String> = Vec::new();
    let mut i: usize = 0;
    while i < fields.len()
        invariant
            i <= fields@.len(),
            owned@.len() == i,
            forall|j: int| 0 <= j < i ==> #[trigger] owned@[j]@ == fields@[j]@,
        decreases fields@.len() - i,
    {
        owned.push(fields[i].to_string());
        i = i + 1;
    }
    assert(owned@.map_values(|s: String| s@) =~= fields@.map_values(|s: &str| s@));
    digest_owned_fields(&owned)
}

/// The lower-case hexadecimal SHA-256 digest of `bytes`.
pub fn sha256_hex(bytes: &[u8]) -> (out: String)
    ensures
        out@ == hex_of_bytes(sha256_of(bytes@)),
{
    let digest = sha256(bytes);
    hex_digest(&digest)
}

} // verus!
