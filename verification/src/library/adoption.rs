//! Adoption of portable intents, setups and profiles: how each imported
//! revision relates to what the Library already holds. The lookups that
//! establish those facts are the caller's.
use vstd::prelude::*;
use crate::library::checks::{secret_ref_ok, validate_secret_ref};
use crate::library::error::LibraryError;
use crate::library::names::MachineClass;
use crate::library::portable_writer::{secret_refs_ok, PortableSetup};
use crate::num::{decimal, u64_decimal};
use crate::text::{chars_eq, chars_of, string_of};

verus! {

/// What adopting one imported revision does.
#[derive(Clone, Debug, PartialEq, Eq)]
pub enum AdoptionVerdict {
    /// The exact revision exists with the same content and is reused.
    Reuse,
    /// The entity does not exist locally and is created.
    Create,
    /// The import conflicts with local state, for the reason given.
    Collision(String),
}

pub open spec fn different_content_message(kind: Seq<char>, id: Seq<char>, revision: u64) -> Seq<char> {
    kind + " "@ + id + "@"@ + decimal(revision as nat) + " already exists with different content"@
}

pub open spec fn missing_revision_message(kind: Seq<char>, id: Seq<char>, revision: u64) -> Seq<char> {
    kind + " "@ + id + " already exists locally without exact revision "@ + decimal(revision as nat)
}

fn append(out: &mut Vec<char>, s: &str)
    ensures
        final(out)@ == old(out)@ + s@,
{
    let mut c = chars_of(s);
    out.append(&mut c);
}

/// The verdict on importing revision `revision` of `kind` `id`: `exact` is
/// `None` when that exact revision does not exist locally, else whether its
/// content equals the imported one; `any_local` tells whether any revision
/// of `id` exists locally.
pub fn classify_revision(kind: &str, id: &str, revision: u64, exact: Option<bool>, any_local: bool) -> (r: AdoptionVerdict)
    ensures
        match exact {
            Some(true) => r == AdoptionVerdict::Reuse,
            Some(false) => r matches AdoptionVerdict::Collision(m) && m@ == different_content_message(kind@, id@, revision),
            None => if any_local {
                r matches AdoptionVerdict::Collision(m) && m@ == missing_revision_message(kind@, id@, revision)
            } else {
                r == AdoptionVerdict::Create
            },
        },
{
    match exact {
        Some(true) => AdoptionVerdict::Reuse,
        Some(false) => {
            let mut out = chars_of(kind);
            append(&mut out, " ");
            append(&mut out, id);
            append(&mut out, "@");
            let mut digits = u64_decimal(revision);
            out.append(&mut digits);
            append(&mut out, " already exists with different content");
            assert(out@ =~= different_content_message(kind@, id@, revision));
            AdoptionVerdict::Collision(string_of(&out))
        },
        None => {
            if !any_local {
                return AdoptionVerdict::Create;
            }
            let mut out = chars_of(kind);
            append(&mut out, " ");
            append(&mut out, id);
            append(&mut out, " already exists locally without exact revision ");
            let mut digits = u64_decimal(revision);
            out.append(&mut digits);
            assert(out@ =~= missing_revision_message(kind@, id@, revision));
            AdoptionVerdict::Collision(string_of(&out))
        },
    }
}

pub open spec fn text_views(v: Seq<String>) -> Seq<Seq<char>> {
    v.map_values(|t: String| t@)
}

/// `x` is required by a setup revision at a position before (`k`, `j`):
/// in an earlier setup, or in setup `k` before its `j`-th reference.
pub open spec fn required_before(setups: Seq<PortableSetup>, k: int, j: int, x: Seq<char>) -> bool {
    exists|a: int, i: int|
        #![trigger setups[a].required_secret_refs@[i]]
        0 <= a < setups.len() && 0 <= i < setups[a].required_secret_refs@.len() && (a < k || (a == k && i < j))
            && setups[a].required_secret_refs@[i]@ == x
}

/// Some setup revision requires secret reference `x`.
pub open spec fn required_secret(setups: Seq<PortableSetup>, x: Seq<char>) -> bool {
    required_before(setups, setups.len() as int, 0, x)
}

fn text_in(values: &Vec<String>, x: &String) -> (r: bool)
    ensures
        r == text_views(values@).contains(x@),
{
    let key = chars_of(x.as_str());
    let mut i: usize = 0;
    while i < values.len()
        invariant
            i <= values@.len(),
            key@ == x@,
            forall|j: int| 0 <= j < i ==> (#[trigger] values@[j])@ != x@,
        decreases values@.len() - i,
    {
        if chars_eq(&chars_of(values[i].as_str()), &key) {
            assert(text_views(values@)[i as int] == x@);
            return true;
        }
        i = i + 1;
    }
    assert(!text_views(values@).contains(x@)) by {
        if text_views(values@).contains(x@) {
            let j = choose|j: int| 0 <= j < text_views(values@).len() && text_views(values@)[j] == x@;
            assert(values@[j]@ == x@);
        }
    }
    false
}

/// The secret references that the setups require and the target does not
/// provide, each once, in order of first requirement. Every reference the
/// target provides and every one a setup requires must be well formed.
pub fn missing_secret_refs(setups: &Vec<PortableSetup>, available: &Vec<String>) -> (r: Result<Vec<String>, LibraryError>)
    ensures
        r is Ok <==> (forall|i: int| 0 <= i < available@.len() ==> secret_ref_ok((#[trigger] available@[i])@))
            && secret_refs_ok(setups@),
        r matches Err(e) ==> e is Validation,
        r matches Ok(v) ==> text_views(v@).no_duplicates() && forall|x: Seq<char>| #[trigger] text_views(v@).contains(x)
            <==> (required_secret(setups@, x) && !text_views(available@).contains(x)),
{
    let mut i: usize = 0;
    while i < available.len()
        invariant
            i <= available@.len(),
            forall|a: int| 0 <= a < i ==> secret_ref_ok((#[trigger] available@[a])@),
        decreases available@.len() - i,
    {
        if let Err(e) = validate_secret_ref(available[i].as_str()) {
            return Err(e);
        }
        i = i + 1;
    }
    let mut out: Vec<String> = Vec::new();
    let mut k: usize = 0;
    while k < setups.len()
        invariant
            k <= setups@.len(),
            forall|a: int| 0 <= a < available@.len() ==> secret_ref_ok((#[trigger] available@[a])@),
            forall|a: int, j: int|
                #![trigger setups@[a].required_secret_refs@[j]]
                0 <= a < k && 0 <= j < setups@[a].required_secret_refs@.len() ==> secret_ref_ok(
                    setups@[a].required_secret_refs@[j]@,
                ),
            text_views(out@).no_duplicates(),
            forall|x: Seq<char>| #[trigger] text_views(out@).contains(x) <==> (required_before(setups@, k as int, 0, x)
                && !text_views(available@).contains(x)),
        decreases setups@.len() - k,
    {
        let refs = &setups[k].required_secret_refs;
        let mut j: usize = 0;
        while j < refs.len()
            invariant
                k < setups@.len(),
                refs@ == setups@[k as int].required_secret_refs@,
                j <= refs@.len(),
                forall|a: int| 0 <= a < available@.len() ==> secret_ref_ok((#[trigger] available@[a])@),
                forall|a: int, i: int|
                    #![trigger setups@[a].required_secret_refs@[i]]
                    0 <= a < k && 0 <= i < setups@[a].required_secret_refs@.len() ==> secret_ref_ok(
                        setups@[a].required_secret_refs@[i]@,
                    ),
                forall|i: int| 0 <= i < j ==> secret_ref_ok((#[trigger] refs@[i])@),
                text_views(out@).no_duplicates(),
                forall|x: Seq<char>| #[trigger] text_views(out@).contains(x) <==> (required_before(setups@, k as int, j as int, x)
                    && !text_views(available@).contains(x)),
            decreases refs@.len() - j,
        {
            let x = &refs[j];
            if let Err(e) = validate_secret_ref(x.as_str()) {
                assert(!secret_ref_ok(setups@[k as int].required_secret_refs@[j as int]@));
                return Err(e);
            }
            let ghost before = text_views(out@);
            assert forall|y: Seq<char>| required_before(setups@, k as int, j as int + 1, y) <==> (required_before(
                setups@,
                k as int,
                j as int,
                y,
            ) || y == x@) by {
                if y == x@ {
                    assert(setups@[k as int].required_secret_refs@[j as int]@ == y);
                }
                if required_before(setups@, k as int, j as int + 1, y) && !required_before(setups@, k as int, j as int, y) {
                    let (a, i) = choose|a: int, i: int|
                        #![trigger setups@[a].required_secret_refs@[i]]
                        0 <= a < setups@.len() && 0 <= i < setups@[a].required_secret_refs@.len() && (a < k || (a == k
                            && i < j + 1)) && setups@[a].required_secret_refs@[i]@ == y;
                    if a < k || i < j {
                        assert(required_before(setups@, k as int, j as int, y));
                    }
                }
            }
            if !text_in(available, x) && !text_in(&out, x) {
                out.push(x.clone());
                assert(text_views(out@) =~= before.push(x@));
                assert forall|a: int, b: int| 0 <= a < text_views(out@).len() && 0 <= b < text_views(out@).len() && a != b
                    implies text_views(out@)[a] != text_views(out@)[b] by {
                    if a == before.len() as int {
                        assert(before.contains(before[b]));
                    } else if b == before.len() as int {
                        assert(before.contains(before[a]));
                    }
                }
                assert forall|y: Seq<char>| #[trigger] text_views(out@).contains(y) <==> (required_before(setups@, k as int, j as int + 1, y)
                    && !text_views(available@).contains(y)) by {
                    if text_views(out@).contains(y) && y != x@ {
                        let a = choose|a: int| 0 <= a < text_views(out@).len() && text_views(out@)[a] == y;
                        assert(before[a] == y);
                        assert(before.contains(y));
                    }
                    if y != x@ && before.contains(y) {
                        let a = choose|a: int| 0 <= a < before.len() && before[a] == y;
                        assert(text_views(out@)[a] == y);
                    }
                    if y == x@ {
                        assert(text_views(out@)[before.len() as int] == y);
                    }
                }
            }
            j = j + 1;
        }
        assert forall|x: Seq<char>| required_before(setups@, k as int + 1, 0, x) <==> required_before(setups@, k as int, refs@.len() as int, x) by {
            if required_before(setups@, k as int + 1, 0, x) {
                let (a, i) = choose|a: int, i: int|
                    #![trigger setups@[a].required_secret_refs@[i]]
                    0 <= a < setups@.len() && 0 <= i < setups@[a].required_secret_refs@.len() && (a < k + 1 || (a == k + 1
                        && i < 0)) && setups@[a].required_secret_refs@[i]@ == x;
                assert(required_before(setups@, k as int, refs@.len() as int, x));
            }
            if required_before(setups@, k as int, refs@.len() as int, x) {
                let (a, i) = choose|a: int, i: int|
                    #![trigger setups@[a].required_secret_refs@[i]]
                    0 <= a < setups@.len() && 0 <= i < setups@[a].required_secret_refs@.len() && (a < k || (a == k
                        && i < refs@.len())) && setups@[a].required_secret_refs@[i]@ == x;
                assert(required_before(setups@, k as int + 1, 0, x));
            }
        }
        k = k + 1;
    }
    Ok(out)
}

/// A profile's machine class mismatches the target's when the target's is
/// known and differs.
pub fn machine_class_mismatch(target: Option<MachineClass>, profile: MachineClass) -> (r: bool)
    ensures
        r == (target matches Some(t) && t != profile),
{
    match target {
        Some(t) => t != profile,
        None => false,
    }
}

} // verus!
