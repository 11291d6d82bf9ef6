//! Turning the records read from a portable artifact into intents, setups
//! and a profile: each entry needs its base record, known kind and status
//! names, references without duplicates (sorted by identity and revision)
//! and value ordinals without gaps.
use vstd::prelude::*;
use crate::library::error::LibraryError;
use crate::library::names::{
    actor_kind_named, machine_class_named, parse_actor_kind, parse_machine_class, parse_portable_intent_status,
    parse_requirement_kind, requirement_kind_named,
};
use crate::library::composition::{intent_keys, profile_bundle_valid, setup_bundle_valid, setup_keys, validate_profile_bundle, validate_setup_bundle, CompositionView, IntentKey};
use crate::library::portable::{artifact_verdict, ordered_values, ArtifactVerdict, PORTABLE_FORMAT_VERSION};
use crate::library::portable_records::{apply_records, empty_artifact, parse_artifact, ArtifactView};
use crate::library::portable_writer::{
    bundle_intent_keys, composition_of, compositions, intent_keys_of, secret_refs_ok, validate_bundle_secret_refs,
    PortableProfileBundle, PortableSetupBundle,
};
use crate::library::checks::secret_ref_ok;
use crate::library::portable_records::{IntentBuilder, IntentView, ProfileBuilder, ProfileView, SetupBuilder, SetupView, ordinal_entries};
use crate::library::portable_writer::{in_order, intent_ref_keys, setup_ref_keys, stable_order, PortableIntent, PortableProfile, PortableRequirement, PortableSetup};
use crate::library::records::status_named;
use crate::order::{key_views, law_sorted_order_unique, sort_order, sorted_order};
use crate::text::chars_of;

verus! {

fn reader_error(message: &str) -> (e: LibraryError)
    ensures
        e matches LibraryError::PortableFormat(m) && m@ == message@,
{
    LibraryError::PortableFormat(message.to_string())
}

proof fn lemma_stable_order(keys: Seq<(Seq<char>, u64)>, o: Seq<usize>)
    requires
        sorted_order(keys, o),
    ensures
        stable_order(keys) == o,
{
    let c = stable_order(keys);
    assert(sorted_order(keys, c));
    law_sorted_order_unique(keys, c, o);
}

/// An intent entry can be finalized: it has its base record, known actor
/// kind, status and requirement kinds, and neither a requirement
/// identifier nor a superseded intent twice.
pub open spec fn intent_finalizable(v: IntentView) -> bool {
    &&& v.base is Some
    &&& actor_kind_named(v.base.unwrap().actor_kind) is Some
    &&& status_named(v.base.unwrap().status) is Some
    &&& forall|k: int| 0 <= k < v.requirements.len() ==> requirement_kind_named((#[trigger] v.requirements[k]).1) is Some
    &&& forall|a: int, b: int| 0 <= a < b < v.requirements.len() ==> (#[trigger] v.requirements[a]).0 != (#[trigger] v.requirements[b]).0
    &&& forall|a: int, b: int| 0 <= a < b < v.supersedes.len() ==> #[trigger] v.supersedes[a] != #[trigger] v.supersedes[b]
}

/// `i` is the finalized form of entry `v`: its fields as read, the
/// requirements in record order, and what it supersedes sorted.
pub open spec fn finalized_intent(v: IntentView, i: PortableIntent) -> bool {
    &&& i.id@ == v.id
    &&& i.revision == v.revision
    &&& i.actor_id@ == v.base.unwrap().actor_id
    &&& Some(i.actor_kind) == actor_kind_named(v.base.unwrap().actor_kind)
    &&& i.actor_interactive == v.base.unwrap().actor_interactive
    &&& Some(i.status) == status_named(v.base.unwrap().status)
    &&& i.statement@ == v.base.unwrap().statement
    &&& i.requirements@.len() == v.requirements.len()
    &&& forall|k: int| 0 <= k < v.requirements.len() ==> {
        &&& (#[trigger] i.requirements@[k]).id@ == v.requirements[k].0
        &&& Some(i.requirements@[k].kind) == requirement_kind_named(v.requirements[k].1)
        &&& i.requirements@[k].statement@ == v.requirements[k].2
    }
    &&& i.supersedes@.map_values(|s: String| s@) == in_order(v.supersedes, stable_order(supersedes_keys(v.supersedes)))
}

pub open spec fn supersedes_keys(s: Seq<Seq<char>>) -> Seq<(Seq<char>, u64)> {
    s.map_values(|t: Seq<char>| (t, 0u64))
}

/// Reads the requirements of an entry in record order.
fn finalize_requirements(b: &IntentBuilder) -> (r: Result<Vec<PortableRequirement>, LibraryError>)
    ensures
        match r {
            Ok(out) => {
                &&& forall|k: int| 0 <= k < b@.requirements.len() ==> requirement_kind_named((#[trigger] b@.requirements[k]).1) is Some
                &&& forall|x: int, y: int| 0 <= x < y < b@.requirements.len() ==> (#[trigger] b@.requirements[x]).0 != (#[trigger] b@.requirements[y]).0
                &&& out@.len() == b@.requirements.len()
                &&& forall|k: int| 0 <= k < b@.requirements.len() ==> {
                    &&& (#[trigger] out@[k]).id@ == b@.requirements[k].0
                    &&& Some(out@[k].kind) == requirement_kind_named(b@.requirements[k].1)
                    &&& out@[k].statement@ == b@.requirements[k].2
                }
            },
            Err(e) => {
                &&& e is PortableFormat
                &&& !((forall|k: int| 0 <= k < b@.requirements.len() ==> requirement_kind_named((#[trigger] b@.requirements[k]).1) is Some)
                    && (forall|x: int, y: int| 0 <= x < y < b@.requirements.len() ==> (#[trigger] b@.requirements[x]).0 != (#[trigger] b@.requirements[y]).0))
            },
        },
{
    let ghost rq = b@.requirements;
    let mut out: Vec<PortableRequirement> = Vec::new();
    let mut k: usize = 0;
    while k < b.requirements.len()
        invariant
            k <= rq.len(),
            rq == b@.requirements,
            rq.len() == b.requirements@.len(),
            out@.len() == k,
            forall|j: int| 0 <= j < k ==> requirement_kind_named((#[trigger] rq[j]).1) is Some,
            forall|x: int, y: int| 0 <= x < y < k ==> (#[trigger] rq[x]).0 != (#[trigger] rq[y]).0,
            forall|j: int| 0 <= j < k ==> {
                &&& (#[trigger] out@[j]).id@ == rq[j].0
                &&& Some(out@[j].kind) == requirement_kind_named(rq[j].1)
                &&& out@[j].statement@ == rq[j].2
            },
        decreases rq.len() - k,
    {
        let item = &b.requirements[k];
        assert(rq[k as int] == (item.0@, item.1@, item.2@));
        let mut x: usize = 0;
        while x < k
            invariant
                x <= k < rq.len(),
                rq == b@.requirements,
                rq.len() == b.requirements@.len(),
                rq[k as int].0 == item.0@,
                forall|j: int| 0 <= j < x ==> rq[j].0 != rq[k as int].0,
            decreases k - x,
        {
            assert(rq[x as int] == (b.requirements@[x as int].0@, b.requirements@[x as int].1@, b.requirements@[x as int].2@));
            if b.requirements[x].0 == item.0 {
                assert(b@.requirements[x as int].0 == b@.requirements[k as int].0);
                return Err(reader_error("duplicate requirement identity"));
            }
            x = x + 1;
        }
        let kind = match parse_requirement_kind(item.1.as_str()) {
            Ok(kind) => kind,
            Err(e) => return Err(e),
        };
        out.push(PortableRequirement { id: item.0.clone(), kind, statement: item.2.clone() });
        k = k + 1;
    }
    Ok(out)
}

/// What an entry supersedes, sorted, each once.
fn finalize_supersedes(b: &IntentBuilder) -> (r: Result<Vec<String>, LibraryError>)
    ensures
        match r {
            Ok(out) => {
                &&& forall|x: int, y: int| 0 <= x < y < b@.supersedes.len() ==> #[trigger] b@.supersedes[x] != #[trigger] b@.supersedes[y]
                &&& out@.map_values(|s: String| s@) == in_order(b@.supersedes, stable_order(supersedes_keys(b@.supersedes)))
            },
            Err(e) => {
                &&& e is PortableFormat
                &&& !(forall|x: int, y: int| 0 <= x < y < b@.supersedes.len() ==> #[trigger] b@.supersedes[x] != #[trigger] b@.supersedes[y])
            },
        },
{
    let ghost sv = b@.supersedes;
    let mut keys: Vec<(Vec<char>, u64)> = Vec::new();
    let mut k: usize = 0;
    while k < b.supersedes.len()
        invariant
            k <= sv.len(),
            sv == b@.supersedes,
            sv.len() == b.supersedes@.len(),
            key_views(keys@) == supersedes_keys(sv).take(k as int),
        decreases sv.len() - k,
    {
        let ghost before = key_views(keys@);
        keys.push((chars_of(b.supersedes[k].as_str()), 0u64));
        assert(sv[k as int] == b.supersedes@[k as int]@);
        assert(key_views(keys@) =~= before.push((sv[k as int], 0u64)));
        assert(supersedes_keys(sv).take(k as int + 1) =~= supersedes_keys(sv).take(k as int).push((sv[k as int], 0u64)));
        k = k + 1;
    }
    assert(supersedes_keys(sv).take(k as int) =~= supersedes_keys(sv));
    let order = sort_order(&keys);
    proof {
        lemma_stable_order(supersedes_keys(sv), order@);
        crate::order::lemma_order_covers(supersedes_keys(sv), order@);
    }
    let ghost sorted = in_order(sv, order@);
    let mut out: Vec<String> = Vec::new();
    let mut j: usize = 0;
    while j < order.len()
        invariant
            j <= order@.len(),
            order@.len() == sv.len(),
            sv == b@.supersedes,
            sv.len() == b.supersedes@.len(),
            sorted == in_order(sv, order@),
            forall|a: int| 0 <= a < order@.len() ==> (#[trigger] order@[a]) < sv.len(),
            sorted_order(supersedes_keys(sv), order@),
            order@.no_duplicates(),
            out@.map_values(|s: String| s@) == sorted.take(j as int),
            forall|a: int| 0 < a < j ==> sorted[a - 1] != #[trigger] sorted[a],
        decreases order@.len() - j,
    {
        let s = &b.supersedes[order[j]];
        assert(sorted[j as int] == s@);
        if j > 0 && *s == b.supersedes[order[j - 1]] {
            proof {
                assert(sorted[j - 1] == b.supersedes@[order@[j - 1] as int]@);
                assert(order@[j - 1] != order@[j as int]);
                if order@[j - 1] < order@[j as int] {
                    assert(sv[order@[j - 1] as int] == sv[order@[j as int] as int]);
                } else {
                    assert(sv[order@[j as int] as int] == sv[order@[j - 1] as int]);
                }
            }
            return Err(reader_error("duplicate intent supersession lineage"));
        }
        proof {
            if j > 0 {
                assert(sorted[j - 1] == b.supersedes@[order@[j - 1] as int]@);
            }
        }
        let ghost before = out@.map_values(|s: String| s@);
        out.push(s.clone());
        assert(out@.map_values(|s: String| s@) =~= before.push(sorted[j as int]));
        assert(sorted.take(j as int + 1) =~= sorted.take(j as int).push(sorted[j as int]));
        j = j + 1;
    }
    assert(sorted.take(j as int) =~= sorted);
    proof {
        assert forall|x: int, y: int| 0 <= x < y < sv.len() implies #[trigger] sv[x] != #[trigger] sv[y] by {
            if sv[x] == sv[y] {
                assert(sv.len() == b.supersedes@.len());
                lemma_adjacent_duplicate(sv, order@, x, y);
            }
        }
    }
    Ok(out)
}

/// In a sorted listing, two equal texts have an equal neighbour pair.
proof fn lemma_adjacent_duplicate(sv: Seq<Seq<char>>, o: Seq<usize>, x: int, y: int)
    requires
        sorted_order(supersedes_keys(sv), o),
        0 <= x < y < sv.len(),
        sv.len() <= usize::MAX,
        sv[x] == sv[y],
    ensures
        exists|a: int| 0 < a < o.len() && #[trigger] in_order(sv, o)[a] == in_order(sv, o)[a - 1],
{
    let keys = supersedes_keys(sv);
    crate::order::lemma_order_covers(keys, o);
    assert(o.contains(x as usize));
    assert(o.contains(y as usize));
    let px = choose|p: int| 0 <= p < o.len() && o[p] == x as usize;
    let py = choose|p: int| 0 <= p < o.len() && o[p] == y as usize;
    assert(px != py);
    let lo = if px < py { px } else { py };
    let hi = if px < py { py } else { px };
    assert(lo < hi);
    let s = in_order(sv, o);
    assert(s[px] == sv[x] && s[py] == sv[y]);
    assert(s[lo] == s[hi]);
    lemma_sorted_run(sv, o, lo, hi);
}

proof fn lemma_sorted_run(sv: Seq<Seq<char>>, o: Seq<usize>, lo: int, hi: int)
    requires
        sorted_order(supersedes_keys(sv), o),
        0 <= lo < hi < o.len(),
        in_order(sv, o)[lo] == in_order(sv, o)[hi],
    ensures
        exists|a: int| 0 < a < o.len() && #[trigger] in_order(sv, o)[a] == in_order(sv, o)[a - 1],
    decreases hi - lo,
{
    let keys = supersedes_keys(sv);
    let s = in_order(sv, o);
    if s[lo + 1] == s[lo] {
        assert(s[lo + 1] == s[lo + 1 - 1]);
    } else {
        assert(crate::order::ranked_before(keys, o[lo] as int, o[lo + 1] as int));
        if lo + 1 < hi {
            assert(crate::order::ranked_before(keys, o[lo + 1] as int, o[hi] as int));
        }
        assert(keys[o[lo] as int] == (s[lo], 0u64));
        assert(keys[o[lo + 1] as int] == (s[lo + 1], 0u64));
        assert(keys[o[hi] as int] == (s[hi], 0u64));
        crate::order::lemma_key_order(keys[o[lo] as int], keys[o[lo + 1] as int], keys[o[hi] as int]);
        crate::order::lemma_key_order(keys[o[lo + 1] as int], keys[o[hi] as int], keys[o[lo] as int]);
        crate::order::lemma_lt_total(s[lo], s[lo + 1]);
        assert(lo + 1 < hi);
        lemma_sorted_run(sv, o, lo + 1, hi);
    }
}

/// Finalizes one intent entry (see [`finalized_intent`]).
fn finalize_intent(b: &IntentBuilder) -> (r: Result<PortableIntent, LibraryError>)
    ensures
        match r {
            Ok(i) => intent_finalizable(b@) && finalized_intent(b@, i),
            Err(e) => e is PortableFormat && !intent_finalizable(b@),
        },
{
    let base = match &b.base {
        Some(base) => base,
        None => return Err(reader_error("intent has no base record")),
    };
    let requirements = match finalize_requirements(b) {
        Ok(v) => v,
        Err(e) => return Err(e),
    };
    let supersedes = match finalize_supersedes(b) {
        Ok(v) => v,
        Err(e) => return Err(e),
    };
    let actor_kind = match parse_actor_kind(base.actor_kind.as_str()) {
        Ok(k) => k,
        Err(e) => return Err(e),
    };
    let status = match parse_portable_intent_status(base.status.as_str()) {
        Ok(s) => s,
        Err(e) => return Err(e),
    };
    let i = PortableIntent {
        id: b.id.clone(),
        revision: b.revision,
        actor_id: base.actor_id.clone(),
        actor_kind,
        actor_interactive: base.actor_interactive,
        status,
        statement: base.statement.clone(),
        requirements,
        supersedes,
    };
    Ok(i)
}

pub open spec fn entry_keys(v: Seq<IntentView>) -> Seq<(Seq<char>, u64)> {
    v.map_values(|b: IntentView| (b.id, b.revision))
}

pub open spec fn intent_builder_views(v: Seq<IntentBuilder>) -> Seq<IntentView> {
    v.map_values(|b: IntentBuilder| b@)
}

/// Finalizes every intent entry, in order of identity and revision.
fn finalize_intents(builders: &Vec<IntentBuilder>) -> (r: Result<Vec<PortableIntent>, LibraryError>)
    ensures
        match r {
            Ok(out) => {
                let v = intent_builder_views(builders@);
                let o = stable_order(entry_keys(v));
                &&& forall|k: int| 0 <= k < v.len() ==> intent_finalizable(#[trigger] v[k])
                &&& out@.len() == v.len()
                &&& forall|j: int| 0 <= j < out@.len() ==> finalized_intent(v[o[j] as int], #[trigger] out@[j])
            },
            Err(e) => e is PortableFormat && !(forall|k: int| 0 <= k < builders@.len() ==> intent_finalizable(
                #[trigger] intent_builder_views(builders@)[k],
            )),
        },
{
    let ghost v = intent_builder_views(builders@);
    let mut keys: Vec<(Vec<char>, u64)> = Vec::new();
    let mut k: usize = 0;
    while k < builders.len()
        invariant
            k <= builders@.len(),
            v == intent_builder_views(builders@),
            key_views(keys@) == entry_keys(v).take(k as int),
        decreases builders@.len() - k,
    {
        let ghost before = key_views(keys@);
        keys.push((chars_of(builders[k].id.as_str()), builders[k].revision));
        assert(v[k as int] == builders@[k as int]@);
        assert(key_views(keys@) =~= before.push((v[k as int].id, v[k as int].revision)));
        assert(entry_keys(v).take(k as int + 1) =~= entry_keys(v).take(k as int).push((v[k as int].id, v[k as int].revision)));
        k = k + 1;
    }
    assert(entry_keys(v).take(k as int) =~= entry_keys(v));
    let order = sort_order(&keys);
    proof {
        lemma_stable_order(entry_keys(v), order@);
        crate::order::lemma_order_covers(entry_keys(v), order@);
    }
    let mut out: Vec<PortableIntent> = Vec::new();
    let mut j: usize = 0;
    while j < order.len()
        invariant
            j <= order@.len(),
            order@.len() == v.len(),
            v == intent_builder_views(builders@),
            v.len() == builders@.len(),
            order@ == stable_order(entry_keys(v)),
            forall|a: int| 0 <= a < order@.len() ==> (#[trigger] order@[a]) < v.len(),
            forall|x: usize| x < v.len() ==> #[trigger] order@.contains(x),
            out@.len() == j,
            forall|a: int| 0 <= a < j ==> intent_finalizable(v[#[trigger] order@[a] as int]),
            forall|a: int| 0 <= a < j ==> finalized_intent(v[order@[a] as int], #[trigger] out@[a]),
        decreases order@.len() - j,
    {
        assert(v[order@[j as int] as int] == builders@[order@[j as int] as int]@);
        let i = match finalize_intent(&builders[order[j]]) {
            Ok(i) => i,
            Err(e) => {
                assert(!intent_finalizable(v[order@[j as int] as int]));
                return Err(e);
            },
        };
        out.push(i);
        j = j + 1;
    }
    proof {
        assert forall|k: int| 0 <= k < v.len() implies intent_finalizable(#[trigger] v[k]) by {
            assert(order@.contains(k as usize));
            let a = choose|a: int| 0 <= a < order@.len() && order@[a] == k as usize;
            assert(intent_finalizable(v[order@[a] as int]));
        }
    }
    Ok(out)
}

proof fn lemma_key_run(keys: Seq<(Seq<char>, u64)>, o: Seq<usize>, lo: int, hi: int)
    requires
        sorted_order(keys, o),
        0 <= lo < hi < o.len(),
        keys[o[lo] as int] == keys[o[hi] as int],
    ensures
        exists|a: int| 0 < a < o.len() && #[trigger] keys[o[a] as int] == keys[o[a - 1] as int],
    decreases hi - lo,
{
    if keys[o[lo + 1] as int] == keys[o[lo] as int] {
        assert(keys[o[lo + 1] as int] == keys[o[lo + 1 - 1] as int]);
    } else {
        assert(crate::order::ranked_before(keys, o[lo] as int, o[lo + 1] as int));
        if lo + 1 < hi {
            assert(crate::order::ranked_before(keys, o[lo + 1] as int, o[hi] as int));
        }
        crate::order::lemma_key_order(keys[o[lo] as int], keys[o[lo + 1] as int], keys[o[hi] as int]);
        crate::order::lemma_key_order(keys[o[lo + 1] as int], keys[o[hi] as int], keys[o[lo] as int]);
        assert(lo + 1 < hi);
        lemma_key_run(keys, o, lo + 1, hi);
    }
}

/// In a stable sorted listing, some key occurs twice exactly when two
/// neighbours have equal keys.
proof fn lemma_key_dups(keys: Seq<(Seq<char>, u64)>, o: Seq<usize>)
    requires
        sorted_order(keys, o),
        keys.len() <= usize::MAX,
    ensures
        (exists|x: int, y: int| 0 <= x < y < keys.len() && keys[x] == keys[y]) <==> (exists|a: int| 0 < a < o.len()
            && #[trigger] keys[o[a] as int] == keys[o[a - 1] as int]),
{
    crate::order::lemma_order_covers(keys, o);
    if exists|x: int, y: int| 0 <= x < y < keys.len() && keys[x] == keys[y] {
        let (x, y) = choose|x: int, y: int| 0 <= x < y < keys.len() && keys[x] == keys[y];
        assert(o.contains(x as usize));
        assert(o.contains(y as usize));
        let px = choose|p: int| 0 <= p < o.len() && o[p] == x as usize;
        let py = choose|p: int| 0 <= p < o.len() && o[p] == y as usize;
        assert(px != py);
        if px < py {
            lemma_key_run(keys, o, px, py);
        } else {
            lemma_key_run(keys, o, py, px);
        }
    }
    if exists|a: int| 0 < a < o.len() && #[trigger] keys[o[a] as int] == keys[o[a - 1] as int] {
        let a = choose|a: int| 0 < a < o.len() && #[trigger] keys[o[a] as int] == keys[o[a - 1] as int];
        assert(o[a] != o[a - 1]);
        if o[a] < o[a - 1] {
            assert(keys[o[a] as int] == keys[o[a - 1] as int]);
        } else {
            assert(keys[o[a - 1] as int] == keys[o[a] as int]);
        }
    }
}

/// No two neighbouring intent references are equal.
pub fn ensure_unique_intent_refs(values: &Vec<(String, u64)>) -> (r: Result<(), LibraryError>)
    ensures
        r is Ok <==> forall|a: int| 0 < a < values@.len() ==> #[trigger] intent_ref_keys(values@)[a] != intent_ref_keys(values@)[a - 1],
        r matches Err(e) ==> e is PortableFormat,
{
    let ghost k = intent_ref_keys(values@);
    let mut a: usize = 1;
    while a < values.len()
        invariant
            1 <= a,
            k == intent_ref_keys(values@),
            forall|j: int| 0 < j < a && j < values@.len() ==> #[trigger] k[j] != k[j - 1],
        decreases values@.len() - a,
    {
        assert(k[a as int] == (values@[a as int].0@, values@[a as int].1));
        assert(k[a - 1] == (values@[a - 1].0@, values@[a - 1].1));
        if values[a].0 == values[a - 1].0 && values[a].1 == values[a - 1].1 {
            return Err(reader_error("duplicate intent revision reference"));
        }
        a = a + 1;
    }
    Ok(())
}

/// No two neighbouring setup references are equal.
pub fn ensure_unique_setup_refs(values: &Vec<(String, u32)>) -> (r: Result<(), LibraryError>)
    ensures
        r is Ok <==> forall|a: int| 0 < a < values@.len() ==> #[trigger] setup_ref_keys(values@)[a] != setup_ref_keys(values@)[a - 1],
        r matches Err(e) ==> e is PortableFormat,
{
    let ghost k = setup_ref_keys(values@);
    let mut a: usize = 1;
    while a < values.len()
        invariant
            1 <= a,
            k == setup_ref_keys(values@),
            forall|j: int| 0 < j < a && j < values@.len() ==> #[trigger] k[j] != k[j - 1],
        decreases values@.len() - a,
    {
        assert(k[a as int] == (values@[a as int].0@, values@[a as int].1 as u64));
        assert(k[a - 1] == (values@[a - 1].0@, values@[a - 1].1 as u64));
        if values[a].0 == values[a - 1].0 && values[a].1 == values[a - 1].1 {
            return Err(reader_error("duplicate setup revision reference"));
        }
        a = a + 1;
    }
    Ok(())
}

/// The intent references in stable order of identity and revision.
fn sorted_intent_refs(refs: &Vec<(String, u64)>) -> (out: Vec<(String, u64)>)
    ensures
        intent_ref_keys(out@) == in_order(intent_ref_keys(refs@), stable_order(intent_ref_keys(refs@))),
        sorted_order(intent_ref_keys(refs@), stable_order(intent_ref_keys(refs@))),
{
    let ghost kv = intent_ref_keys(refs@);
    let mut keys: Vec<(Vec<char>, u64)> = Vec::new();
    let mut k: usize = 0;
    while k < refs.len()
        invariant
            k <= refs@.len(),
            kv == intent_ref_keys(refs@),
            key_views(keys@) == kv.take(k as int),
        decreases refs@.len() - k,
    {
        let ghost before = key_views(keys@);
        keys.push((chars_of(refs[k].0.as_str()), refs[k].1));
        assert(key_views(keys@) =~= before.push(kv[k as int]));
        assert(kv.take(k as int + 1) =~= kv.take(k as int).push(kv[k as int]));
        k = k + 1;
    }
    assert(kv.take(k as int) =~= kv);
    let order = sort_order(&keys);
    proof {
        lemma_stable_order(kv, order@);
    }
    let mut out: Vec<(String, u64)> = Vec::new();
    let mut j: usize = 0;
    while j < order.len()
        invariant
            j <= order@.len(),
            order@.len() == refs@.len(),
            kv == intent_ref_keys(refs@),
            forall|a: int| 0 <= a < order@.len() ==> (#[trigger] order@[a]) < refs@.len(),
            intent_ref_keys(out@) == in_order(kv, order@).take(j as int),
        decreases order@.len() - j,
    {
        let e = &refs[order[j]];
        let ghost before = intent_ref_keys(out@);
        out.push((e.0.clone(), e.1));
        assert(intent_ref_keys(out@) =~= before.push(kv[order@[j as int] as int]));
        assert(in_order(kv, order@).take(j as int + 1) =~= in_order(kv, order@).take(j as int).push(kv[order@[j as int] as int]));
        j = j + 1;
    }
    assert(in_order(kv, order@).take(j as int) =~= in_order(kv, order@));
    out
}

/// The setup references in stable order of identity and revision.
fn sorted_setup_refs(refs: &Vec<(String, u32)>) -> (out: Vec<(String, u32)>)
    ensures
        setup_ref_keys(out@) == in_order(setup_ref_keys(refs@), stable_order(setup_ref_keys(refs@))),
        sorted_order(setup_ref_keys(refs@), stable_order(setup_ref_keys(refs@))),
        forall|a: int| 0 <= a < out@.len() ==> (#[trigger] out@[a]).1 == refs@[stable_order(setup_ref_keys(refs@))[a] as int].1
            && out@[a].0@ == refs@[stable_order(setup_ref_keys(refs@))[a] as int].0@,
{
    let ghost kv = setup_ref_keys(refs@);
    let mut keys: Vec<(Vec<char>, u64)> = Vec::new();
    let mut k: usize = 0;
    while k < refs.len()
        invariant
            k <= refs@.len(),
            kv == setup_ref_keys(refs@),
            key_views(keys@) == kv.take(k as int),
        decreases refs@.len() - k,
    {
        let ghost before = key_views(keys@);
        keys.push((chars_of(refs[k].0.as_str()), refs[k].1 as u64));
        assert(key_views(keys@) =~= before.push(kv[k as int]));
        assert(kv.take(k as int + 1) =~= kv.take(k as int).push(kv[k as int]));
        k = k + 1;
    }
    assert(kv.take(k as int) =~= kv);
    let order = sort_order(&keys);
    proof {
        lemma_stable_order(kv, order@);
    }
    let mut out: Vec<(String, u32)> = Vec::new();
    let mut j: usize = 0;
    while j < order.len()
        invariant
            j <= order@.len(),
            order@.len() == refs@.len(),
            kv == setup_ref_keys(refs@),
            order@ == stable_order(kv),
            forall|a: int| 0 <= a < order@.len() ==> (#[trigger] order@[a]) < refs@.len(),
            setup_ref_keys(out@) == in_order(kv, order@).take(j as int),
            out@.len() == j,
            forall|a: int| 0 <= a < j ==> (#[trigger] out@[a]).1 == refs@[order@[a] as int].1 && out@[a].0@ == refs@[order@[a] as int].0@,
        decreases order@.len() - j,
    {
        let e = &refs[order[j]];
        let ghost before = setup_ref_keys(out@);
        out.push((e.0.clone(), e.1));
        assert(setup_ref_keys(out@) =~= before.push(kv[order@[j as int] as int]));
        assert(in_order(kv, order@).take(j as int + 1) =~= in_order(kv, order@).take(j as int).push(kv[order@[j as int] as int]));
        j = j + 1;
    }
    assert(in_order(kv, order@).take(j as int) =~= in_order(kv, order@));
    out
}

/// Value entries numbered 0, 1, 2, ... without a gap.
pub open spec fn gapless(e: Seq<(usize, Seq<char>)>) -> bool {
    forall|i: int| 0 <= i < e.len() ==> (#[trigger] e[i]).0 == i
}

pub open spec fn include_keys(v: Seq<(Seq<char>, u32)>) -> Seq<(Seq<char>, u64)> {
    v.map_values(|e: (Seq<char>, u32)| (e.0, e.1 as u64))
}

/// A setup entry can be finalized: it has its base record, no reference
/// twice, and gapless values of each kind.
pub open spec fn setup_finalizable(v: SetupView) -> bool {
    &&& v.base is Some
    &&& v.intents.no_duplicates()
    &&& v.includes.no_duplicates()
    &&& gapless(v.constraints)
    &&& gapless(v.secret_refs)
    &&& gapless(v.hardware_hints)
}

/// `s` is the finalized form of entry `v`: references sorted by identity
/// and revision, values in ordinal order.
pub open spec fn finalized_setup(v: SetupView, s: PortableSetup) -> bool {
    &&& s.id@ == v.id
    &&& s.revision == v.revision
    &&& (s.name@, s.description@) == v.base.unwrap()
    &&& intent_ref_keys(s.intent_revisions@) == in_order(v.intents, stable_order(v.intents))
    &&& s.included_revisions@.len() == v.includes.len()
    &&& setup_ref_keys(s.included_revisions@) == in_order(include_keys(v.includes), stable_order(include_keys(v.includes)))
    &&& s.portable_constraints@.map_values(|t: String| t@) == v.constraints.map_values(|e: (usize, Seq<char>)| e.1)
    &&& s.required_secret_refs@.map_values(|t: String| t@) == v.secret_refs.map_values(|e: (usize, Seq<char>)| e.1)
    &&& s.hardware_hints@.map_values(|t: String| t@) == v.hardware_hints.map_values(|e: (usize, Seq<char>)| e.1)
}

/// The values of one kind in ordinal order, refused when an ordinal is
/// missing.
fn finalize_values(values: &Vec<(usize, String)>) -> (r: Result<Vec<String>, LibraryError>)
    ensures
        match r {
            Ok(out) => gapless(ordinal_entries(values@)) && out@.map_values(|t: String| t@) == ordinal_entries(values@).map_values(
                |e: (usize, Seq<char>)| e.1,
            ),
            Err(e) => e is PortableFormat && !gapless(ordinal_entries(values@)),
        },
{
    let ghost e = ordinal_entries(values@);
    match ordered_values(values.as_slice()) {
        Ok(out) => {
            assert forall|i: int| 0 <= i < e.len() implies (#[trigger] e[i]).0 == i by {
                assert(values@[i].0 == i);
            }
            assert forall|i: int| 0 <= i < out@.len() implies (#[trigger] out@[i])@ == e[i].1 by {
                assert(out@[i]@ == values@[i].1@);
            }
            assert(out@.map_values(|t: String| t@) =~= e.map_values(|x: (usize, Seq<char>)| x.1));
            Ok(out)
        },
        Err(err) => {
            proof {
                let i = choose|i: int| 0 <= i < values@.len() && !((#[trigger] values@[i]).0 == i);
                assert(e[i].0 != i);
            }
            Err(err)
        },
    }
}

/// Finalizes one setup entry (see [`finalized_setup`]).
fn finalize_setup(b: &SetupBuilder) -> (r: Result<PortableSetup, LibraryError>)
    ensures
        match r {
            Ok(s) => setup_finalizable(b@) && finalized_setup(b@, s),
            Err(e) => e is PortableFormat && !setup_finalizable(b@),
        },
{
    let ghost v = b@;
    let base = match &b.base {
        Some(base) => base,
        None => return Err(reader_error("setup has no base record")),
    };
    assert(v.intents =~= intent_ref_keys(b.intents@));
    assert(include_keys(v.includes) =~= setup_ref_keys(b.includes@));
    assert(b.intents@.len() == b.intents.len());
    assert(b.includes@.len() == b.includes.len());
    let intent_revisions = sorted_intent_refs(&b.intents);
    proof {
        let kv = v.intents;
        let o = stable_order(kv);
        lemma_key_dups(kv, o);
    }
    if let Err(e) = ensure_unique_intent_refs(&intent_revisions) {
        proof {
            let kv = v.intents;
            let o = stable_order(kv);
            let a = choose|a: int| 0 < a < intent_revisions@.len() && !(#[trigger] intent_ref_keys(intent_revisions@)[a] != intent_ref_keys(intent_revisions@)[a - 1]);
            assert(intent_ref_keys(intent_revisions@).len() == intent_revisions@.len());
            assert(intent_ref_keys(intent_revisions@)[a] == in_order(kv, o)[a]);
            assert(intent_ref_keys(intent_revisions@)[a - 1] == in_order(kv, o)[a - 1]);
            assert(kv[o[a] as int] == kv[o[a - 1] as int]);
        }
        return Err(e);
    }
    let included_revisions = sorted_setup_refs(&b.includes);
    proof {
        let kv = include_keys(v.includes);
        let o = stable_order(kv);
        lemma_key_dups(kv, o);
    }
    if let Err(e) = ensure_unique_setup_refs(&included_revisions) {
        proof {
            let kv = include_keys(v.includes);
            let o = stable_order(kv);
            let a = choose|a: int| 0 < a < included_revisions@.len() && !(#[trigger] setup_ref_keys(included_revisions@)[a] != setup_ref_keys(included_revisions@)[a - 1]);
            assert(setup_ref_keys(included_revisions@).len() == included_revisions@.len());
            assert(setup_ref_keys(included_revisions@)[a] == in_order(kv, o)[a]);
            assert(setup_ref_keys(included_revisions@)[a - 1] == in_order(kv, o)[a - 1]);
            assert(kv[o[a] as int] == kv[o[a - 1] as int]);
            let (x, y) = choose|x: int, y: int| 0 <= x < y < kv.len() && kv[x] == kv[y];
            assert(v.includes[x] == v.includes[y]);
        }
        return Err(e);
    }
    let portable_constraints = match finalize_values(&b.constraints) {
        Ok(v) => v,
        Err(e) => return Err(e),
    };
    let required_secret_refs = match finalize_values(&b.secret_refs) {
        Ok(v) => v,
        Err(e) => return Err(e),
    };
    let hardware_hints = match finalize_values(&b.hardware_hints) {
        Ok(v) => v,
        Err(e) => return Err(e),
    };
    proof {
        let kv = v.intents;
        let o = stable_order(kv);
        assert forall|x: int, y: int| 0 <= x < y < kv.len() implies kv[x] != kv[y] by {
            if kv[x] == kv[y] {
                let a = choose|a: int| 0 < a < o.len() && #[trigger] kv[o[a] as int] == kv[o[a - 1] as int];
                assert(intent_ref_keys(intent_revisions@)[a] == intent_ref_keys(intent_revisions@)[a - 1]);
            }
        }
        let ik = include_keys(v.includes);
        let io = stable_order(ik);
        assert(setup_ref_keys(included_revisions@).len() == included_revisions@.len());
        assert(ik.len() == v.includes.len());
        assert forall|x: int, y: int| 0 <= x < y < v.includes.len() implies v.includes[x] != v.includes[y] by {
            if v.includes[x] == v.includes[y] {
                assert(ik[x] == ik[y]);
                lemma_key_dups(ik, io);
                let a = choose|a: int| 0 < a < io.len() && #[trigger] ik[io[a] as int] == ik[io[a - 1] as int];
                assert(setup_ref_keys(included_revisions@).len() == included_revisions@.len());
                assert(setup_ref_keys(included_revisions@)[a] == in_order(ik, io)[a]);
                assert(setup_ref_keys(included_revisions@)[a - 1] == in_order(ik, io)[a - 1]);
                assert(setup_ref_keys(included_revisions@)[a] == setup_ref_keys(included_revisions@)[a - 1]);
            }
        }
    }
    let s = PortableSetup {
        id: b.id.clone(),
        revision: b.revision,
        name: base.0.clone(),
        description: base.1.clone(),
        intent_revisions,
        included_revisions,
        portable_constraints,
        required_secret_refs,
        hardware_hints,
    };
    Ok(s)
}

pub open spec fn setup_entry_keys(v: Seq<SetupView>) -> Seq<(Seq<char>, u64)> {
    v.map_values(|b: SetupView| (b.id, b.revision as u64))
}

pub open spec fn setup_builder_views(v: Seq<SetupBuilder>) -> Seq<SetupView> {
    v.map_values(|b: SetupBuilder| b@)
}

/// Finalizes every setup entry, in order of identity and revision.
fn finalize_setups(builders: &Vec<SetupBuilder>) -> (r: Result<Vec<PortableSetup>, LibraryError>)
    ensures
        match r {
            Ok(out) => {
                let v = setup_builder_views(builders@);
                let o = stable_order(setup_entry_keys(v));
                &&& forall|k: int| 0 <= k < v.len() ==> setup_finalizable(#[trigger] v[k])
                &&& out@.len() == v.len()
                &&& forall|j: int| 0 <= j < out@.len() ==> finalized_setup(v[o[j] as int], #[trigger] out@[j])
            },
            Err(e) => e is PortableFormat && !(forall|k: int| 0 <= k < builders@.len() ==> setup_finalizable(
                #[trigger] setup_builder_views(builders@)[k],
            )),
        },
{
    let ghost v = setup_builder_views(builders@);
    let mut keys: Vec<(Vec<char>, u64)> = Vec::new();
    let mut k: usize = 0;
    while k < builders.len()
        invariant
            k <= builders@.len(),
            v == setup_builder_views(builders@),
            key_views(keys@) == setup_entry_keys(v).take(k as int),
        decreases builders@.len() - k,
    {
        let ghost before = key_views(keys@);
        keys.push((chars_of(builders[k].id.as_str()), builders[k].revision as u64));
        assert(v[k as int] == builders@[k as int]@);
        assert(key_views(keys@) =~= before.push((v[k as int].id, v[k as int].revision as u64)));
        assert(setup_entry_keys(v).take(k as int + 1) =~= setup_entry_keys(v).take(k as int).push((v[k as int].id, v[k as int].revision as u64)));
        k = k + 1;
    }
    assert(setup_entry_keys(v).take(k as int) =~= setup_entry_keys(v));
    let order = sort_order(&keys);
    proof {
        lemma_stable_order(setup_entry_keys(v), order@);
        crate::order::lemma_order_covers(setup_entry_keys(v), order@);
    }
    let mut out: Vec<PortableSetup> = Vec::new();
    let mut j: usize = 0;
    while j < order.len()
        invariant
            j <= order@.len(),
            order@.len() == v.len(),
            v == setup_builder_views(builders@),
            v.len() == builders@.len(),
            order@ == stable_order(setup_entry_keys(v)),
            forall|a: int| 0 <= a < order@.len() ==> (#[trigger] order@[a]) < v.len(),
            forall|x: usize| x < v.len() ==> #[trigger] order@.contains(x),
            out@.len() == j,
            forall|a: int| 0 <= a < j ==> setup_finalizable(v[#[trigger] order@[a] as int]),
            forall|a: int| 0 <= a < j ==> finalized_setup(v[order@[a] as int], #[trigger] out@[a]),
        decreases order@.len() - j,
    {
        assert(v[order@[j as int] as int] == builders@[order@[j as int] as int]@);
        let s = match finalize_setup(&builders[order[j]]) {
            Ok(s) => s,
            Err(e) => {
                assert(!setup_finalizable(v[order@[j as int] as int]));
                return Err(e);
            },
        };
        out.push(s);
        j = j + 1;
    }
    proof {
        assert forall|k: int| 0 <= k < v.len() implies setup_finalizable(#[trigger] v[k]) by {
            assert(order@.contains(k as usize));
            let a = choose|a: int| 0 <= a < order@.len() && order@[a] == k as usize;
            assert(setup_finalizable(v[order@[a] as int]));
        }
    }
    Ok(out)
}

/// The profile can be finalized: a known machine class, no reference
/// twice, and gapless values of each kind.
pub open spec fn profile_finalizable(p: ProfileView) -> bool {
    &&& machine_class_named(p.machine_class) is Some
    &&& p.intents.no_duplicates()
    &&& p.setups.no_duplicates()
    &&& gapless(p.constraints)
    &&& gapless(p.hardware_hints)
}

/// `q` is the finalized form of profile `p`: references sorted by identity
/// and revision, values in ordinal order.
pub open spec fn finalized_profile(p: ProfileView, q: PortableProfile) -> bool {
    &&& q.id@ == p.id
    &&& q.revision == p.revision
    &&& q.name@ == p.name
    &&& Some(q.machine_class) == machine_class_named(p.machine_class)
    &&& intent_ref_keys(q.intent_revisions@) == in_order(p.intents, stable_order(p.intents))
    &&& q.setup_revisions@.len() == p.setups.len()
    &&& setup_ref_keys(q.setup_revisions@) == in_order(include_keys(p.setups), stable_order(include_keys(p.setups)))
    &&& q.portable_constraints@.map_values(|t: String| t@) == p.constraints.map_values(|e: (usize, Seq<char>)| e.1)
    &&& q.hardware_hints@.map_values(|t: String| t@) == p.hardware_hints.map_values(|e: (usize, Seq<char>)| e.1)
}

/// Finalizes the profile (see [`finalized_profile`]).
fn finalize_profile(b: &ProfileBuilder) -> (r: Result<PortableProfile, LibraryError>)
    ensures
        match r {
            Ok(q) => profile_finalizable(b@) && finalized_profile(b@, q),
            Err(e) => e is PortableFormat && !profile_finalizable(b@),
        },
{
    let ghost v = b@;
    assert(v.intents =~= intent_ref_keys(b.intents@));
    assert(include_keys(v.setups) =~= setup_ref_keys(b.setups@));
    assert(b.intents@.len() == b.intents.len());
    assert(b.setups@.len() == b.setups.len());
    let intent_revisions = sorted_intent_refs(&b.intents);
    proof {
        let kv = v.intents;
        let o = stable_order(kv);
        lemma_key_dups(kv, o);
    }
    if let Err(e) = ensure_unique_intent_refs(&intent_revisions) {
        proof {
            let kv = v.intents;
            let o = stable_order(kv);
            let a = choose|a: int| 0 < a < intent_revisions@.len() && !(#[trigger] intent_ref_keys(intent_revisions@)[a] != intent_ref_keys(intent_revisions@)[a - 1]);
            assert(intent_ref_keys(intent_revisions@).len() == intent_revisions@.len());
            assert(intent_ref_keys(intent_revisions@)[a] == in_order(kv, o)[a]);
            assert(intent_ref_keys(intent_revisions@)[a - 1] == in_order(kv, o)[a - 1]);
            assert(kv[o[a] as int] == kv[o[a - 1] as int]);
        }
        return Err(e);
    }
    let setup_revisions = sorted_setup_refs(&b.setups);
    proof {
        let kv = include_keys(v.setups);
        let o = stable_order(kv);
        lemma_key_dups(kv, o);
    }
    if let Err(e) = ensure_unique_setup_refs(&setup_revisions) {
        proof {
            let kv = include_keys(v.setups);
            let o = stable_order(kv);
            let a = choose|a: int| 0 < a < setup_revisions@.len() && !(#[trigger] setup_ref_keys(setup_revisions@)[a] != setup_ref_keys(setup_revisions@)[a - 1]);
            assert(setup_ref_keys(setup_revisions@).len() == setup_revisions@.len());
            assert(setup_ref_keys(setup_revisions@)[a] == in_order(kv, o)[a]);
            assert(setup_ref_keys(setup_revisions@)[a - 1] == in_order(kv, o)[a - 1]);
            assert(kv[o[a] as int] == kv[o[a - 1] as int]);
            let (x, y) = choose|x: int, y: int| 0 <= x < y < kv.len() && kv[x] == kv[y];
            assert(v.setups[x] == v.setups[y]);
        }
        return Err(e);
    }
    let machine_class = match parse_machine_class(b.machine_class.as_str()) {
        Ok(c) => c,
        Err(e) => return Err(e),
    };
    let portable_constraints = match finalize_values(&b.constraints) {
        Ok(v) => v,
        Err(e) => return Err(e),
    };
    let hardware_hints = match finalize_values(&b.hardware_hints) {
        Ok(v) => v,
        Err(e) => return Err(e),
    };
    proof {
        let kv = v.intents;
        let o = stable_order(kv);
        assert forall|x: int, y: int| 0 <= x < y < kv.len() implies kv[x] != kv[y] by {
            if kv[x] == kv[y] {
                let a = choose|a: int| 0 < a < o.len() && #[trigger] kv[o[a] as int] == kv[o[a - 1] as int];
                assert(intent_ref_keys(intent_revisions@).len() == intent_revisions@.len());
                assert(intent_ref_keys(intent_revisions@)[a] == in_order(kv, o)[a]);
                assert(intent_ref_keys(intent_revisions@)[a - 1] == in_order(kv, o)[a - 1]);
                assert(intent_ref_keys(intent_revisions@)[a] == intent_ref_keys(intent_revisions@)[a - 1]);
            }
        }
        let ik = include_keys(v.setups);
        let io = stable_order(ik);
        assert(setup_ref_keys(setup_revisions@).len() == setup_revisions@.len());
        assert(ik.len() == v.setups.len());
        assert forall|x: int, y: int| 0 <= x < y < v.setups.len() implies v.setups[x] != v.setups[y] by {
            if v.setups[x] == v.setups[y] {
                assert(ik[x] == ik[y]);
                let a = choose|a: int| 0 < a < io.len() && #[trigger] ik[io[a] as int] == ik[io[a - 1] as int];
                assert(setup_ref_keys(setup_revisions@).len() == setup_revisions@.len());
                assert(setup_ref_keys(setup_revisions@)[a] == in_order(ik, io)[a]);
                assert(setup_ref_keys(setup_revisions@)[a - 1] == in_order(ik, io)[a - 1]);
                assert(setup_ref_keys(setup_revisions@)[a] == setup_ref_keys(setup_revisions@)[a - 1]);
            }
        }
    }
    let q = PortableProfile {
        id: b.id.clone(),
        revision: b.revision,
        name: b.name.clone(),
        machine_class,
        intent_revisions,
        setup_revisions,
        portable_constraints,
        hardware_hints,
    };
    Ok(q)
}

/// What the composition checks see of a finalized setup entry.
pub open spec fn decoded_composition(v: SetupView) -> CompositionView {
    CompositionView {
        key: (v.id, v.revision),
        intents: in_order(v.intents, stable_order(v.intents)),
        includes: in_order(v.includes, stable_order(include_keys(v.includes))),
    }
}

pub open spec fn decoded_compositions(m: ArtifactView) -> Seq<CompositionView> {
    in_order(m.setups, stable_order(setup_entry_keys(m.setups))).map_values(|v: SetupView| decoded_composition(v))
}

pub open spec fn decoded_intent_keys(m: ArtifactView) -> Seq<IntentKey> {
    in_order(m.intents, stable_order(entry_keys(m.intents))).map_values(|v: IntentView| (v.id, v.revision))
}

/// Every entry of the artifact can be finalized.
pub open spec fn entries_finalizable(m: ArtifactView) -> bool {
    &&& forall|k: int| 0 <= k < m.setups.len() ==> setup_finalizable(#[trigger] m.setups[k])
    &&& forall|k: int| 0 <= k < m.intents.len() ==> intent_finalizable(#[trigger] m.intents[k])
}

/// `setups` and `intents` finalize the artifact's entries, each list in
/// order of identity and revision.
pub open spec fn decoded_entries(m: ArtifactView, setups: Seq<PortableSetup>, intents: Seq<PortableIntent>) -> bool {
    &&& setups.len() == m.setups.len()
    &&& forall|j: int| 0 <= j < setups.len() ==> finalized_setup(m.setups[stable_order(setup_entry_keys(m.setups))[j] as int], #[trigger] setups[j])
    &&& intents.len() == m.intents.len()
    &&& forall|j: int| 0 <= j < intents.len() ==> finalized_intent(m.intents[stable_order(entry_keys(m.intents))[j] as int], #[trigger] intents[j])
}

/// Every secret reference that a read setup entry requires is well formed.
pub open spec fn entry_secret_refs_ok(setups: Seq<SetupView>) -> bool {
    forall|k: int, j: int|
        #![trigger setups[k].secret_refs[j]]
        0 <= k < setups.len() && 0 <= j < setups[k].secret_refs.len() ==> secret_ref_ok(setups[k].secret_refs[j].1)
}

proof fn lemma_decoded_secret_refs(m: ArtifactView, setups: Seq<PortableSetup>, intents: Seq<PortableIntent>)
    requires
        decoded_entries(m, setups, intents),
        setups.len() <= usize::MAX,
        sorted_order(setup_entry_keys(m.setups), stable_order(setup_entry_keys(m.setups))),
    ensures
        secret_refs_ok(setups) <==> entry_secret_refs_ok(m.setups),
{
    let so = stable_order(setup_entry_keys(m.setups));
    crate::order::lemma_order_covers(setup_entry_keys(m.setups), so);
    if secret_refs_ok(setups) {
        assert forall|k: int, j: int|
            #![trigger m.setups[k].secret_refs[j]]
            0 <= k < m.setups.len() && 0 <= j < m.setups[k].secret_refs.len() implies secret_ref_ok(m.setups[k].secret_refs[j].1) by {
            assert(so.contains(k as usize));
            let a = choose|a: int| 0 <= a < so.len() && so[a] == k as usize;
            assert(so[a] as int == k);
            assert(finalized_setup(m.setups[so[a] as int], setups[a]));
            let t = setups[a].required_secret_refs@;
            assert(t.map_values(|x: String| x@).len() == t.len());
            assert(t.map_values(|x: String| x@)[j] == m.setups[k].secret_refs.map_values(|e: (usize, Seq<char>)| e.1)[j]);
            assert(secret_ref_ok(setups[a].required_secret_refs@[j]@));
        }
    }
    if entry_secret_refs_ok(m.setups) {
        assert forall|a: int, j: int|
            #![trigger setups[a].required_secret_refs@[j]]
            0 <= a < setups.len() && 0 <= j < setups[a].required_secret_refs@.len() implies secret_ref_ok(
                setups[a].required_secret_refs@[j]@,
            ) by {
            let k = so[a] as int;
            assert(so[a] < setup_entry_keys(m.setups).len());
            assert(finalized_setup(m.setups[k], setups[a]));
            let t = setups[a].required_secret_refs@;
            assert(t.map_values(|x: String| x@).len() == t.len());
            assert(t.map_values(|x: String| x@)[j] == m.setups[k].secret_refs.map_values(|e: (usize, Seq<char>)| e.1)[j]);
            assert(secret_ref_ok(m.setups[k].secret_refs[j].1));
        }
    }
}

/// A read setup artifact makes a bundle: it has a root and no profile,
/// every entry finalizes, every required secret reference is well formed,
/// and the bundle is sound.
pub open spec fn setup_decodable(m: ArtifactView) -> bool {
    &&& m.root is Some
    &&& m.profile is None
    &&& entries_finalizable(m)
    &&& entry_secret_refs_ok(m.setups)
    &&& setup_bundle_valid(decoded_compositions(m), m.root.unwrap(), decoded_intent_keys(m))
}

/// A read profile artifact makes a bundle: it has a profile and no root,
/// the profile and every entry finalize, every required secret reference
/// is well formed, and the bundle is sound.
pub open spec fn profile_decodable(m: ArtifactView) -> bool {
    &&& m.root is None
    &&& m.profile is Some
    &&& profile_finalizable(m.profile.unwrap())
    &&& entries_finalizable(m)
    &&& entry_secret_refs_ok(m.setups)
    &&& profile_bundle_valid(
        decoded_compositions(m),
        m.profile.unwrap().revision,
        in_order(m.profile.unwrap().intents, stable_order(m.profile.unwrap().intents)),
        in_order(m.profile.unwrap().setups, stable_order(include_keys(m.profile.unwrap().setups))),
        decoded_intent_keys(m),
    )
}

proof fn lemma_decoded_keys(m: ArtifactView, setups: Seq<PortableSetup>, intents: Seq<PortableIntent>)
    requires
        decoded_entries(m, setups, intents),
        sorted_order(setup_entry_keys(m.setups), stable_order(setup_entry_keys(m.setups))),
        sorted_order(entry_keys(m.intents), stable_order(entry_keys(m.intents))),
    ensures
        compositions(setups) == decoded_compositions(m),
        bundle_intent_keys(intents) == decoded_intent_keys(m),
{
    let so = stable_order(setup_entry_keys(m.setups));
    let io = stable_order(entry_keys(m.intents));
    assert forall|j: int| 0 <= j < setups.len() implies #[trigger] compositions(setups)[j] == decoded_compositions(m)[j] by {
        let s = setups[j];
        let v = m.setups[so[j] as int];
        assert(finalized_setup(v, s));
        assert(intent_keys(s.intent_revisions@) =~= intent_ref_keys(s.intent_revisions@));
        let o2 = stable_order(include_keys(v.includes));
        let x = s.included_revisions@;
        assert(s.included_revisions.len() == x.len());
        crate::order::lemma_stable_order_exists(include_keys(v.includes));
        assert(setup_ref_keys(x) == in_order(include_keys(v.includes), o2));
        assert forall|k: int| 0 <= k < x.len() implies #[trigger] setup_keys(x)[k] == in_order(v.includes, o2)[k] by {
            assert(setup_ref_keys(x)[k] == in_order(include_keys(v.includes), o2)[k]);
            assert(include_keys(v.includes)[o2[k] as int] == (v.includes[o2[k] as int].0, v.includes[o2[k] as int].1 as u64));
        }
        assert(setup_keys(x) =~= in_order(v.includes, o2));
    }
    assert(compositions(setups) =~= decoded_compositions(m));
    assert forall|j: int| 0 <= j < intents.len() implies #[trigger] bundle_intent_keys(intents)[j] == decoded_intent_keys(m)[j] by {
        assert(finalized_intent(m.intents[io[j] as int], intents[j]));
    }
    assert(bundle_intent_keys(intents) =~= decoded_intent_keys(m));
}

/// Reads a setup artifact back into a bundle: the records as read (see
/// [`parse_artifact`]), finalized (see [`decoded_entries`]) and checked
/// (see [`setup_decodable`]).
pub fn decode_setup_bundle(bytes: &[u8]) -> (r: Result<PortableSetupBundle, LibraryError>)
    ensures
        match artifact_verdict(bytes@, "setup"@) {
            ArtifactVerdict::Records(recs) => match apply_records(empty_artifact(), recs) {
                Some(m) => if setup_decodable(m) {
                    r matches Ok(b) && b.format_version == PORTABLE_FORMAT_VERSION && (b.root.0@, b.root.1) == m.root.unwrap()
                        && decoded_entries(m, b.setups@, b.intents@)
                } else {
                    r matches Err(e) && e is PortableFormat
                },
                None => r matches Err(e) && e is PortableFormat,
            },
            ArtifactVerdict::Unsupported(found) => r == Err::<PortableSetupBundle, LibraryError>(
                LibraryError::UnsupportedPortableFormat { found, supported: PORTABLE_FORMAT_VERSION },
            ),
            ArtifactVerdict::DigestMismatch => r == Err::<PortableSetupBundle, LibraryError>(LibraryError::PortableDigestMismatch),
            ArtifactVerdict::Malformed => r matches Err(e) && e is PortableFormat,
        },
{
    let parsed = match parse_artifact(bytes, "setup") {
        Ok(p) => p,
        Err(e) => return Err(e),
    };
    let ghost m = parsed@;
    let root = match &parsed.root {
        Some(root) => (root.0.clone(), root.1),
        None => return Err(reader_error("setup artifact is missing root-setup record")),
    };
    if parsed.profile.is_some() {
        return Err(reader_error("setup artifact unexpectedly contains a profile"));
    }
    assert(setup_builder_views(parsed.setups@) == m.setups);
    assert(intent_builder_views(parsed.intents@) == m.intents);
    let setups = match finalize_setups(&parsed.setups) {
        Ok(s) => s,
        Err(e) => return Err(e),
    };
    let intents = match finalize_intents(&parsed.intents) {
        Ok(i) => i,
        Err(e) => return Err(e),
    };
    assert(parsed.setups@.len() == parsed.setups.len());
    assert(parsed.intents@.len() == parsed.intents.len());
    proof {
        crate::order::lemma_stable_order_exists(setup_entry_keys(m.setups));
        crate::order::lemma_stable_order_exists(entry_keys(m.intents));
        lemma_decoded_keys(m, setups@, intents@);
        lemma_decoded_secret_refs(m, setups@, intents@);
    }
    if let Err(e) = validate_bundle_secret_refs(&setups) {
        return Err(e);
    }
    let bundle = PortableSetupBundle { format_version: parsed.version, root, setups, intents };
    let comps = composition_of(&bundle.setups);
    let keys = intent_keys_of(&bundle.intents);
    if let Err(e) = validate_setup_bundle(bundle.format_version, &bundle.root, &comps, &keys) {
        return Err(e);
    }
    Ok(bundle)
}

/// Reads a profile artifact back into a bundle: the records as read (see
/// [`parse_artifact`]), the profile and entries finalized and the bundle
/// checked (see [`profile_decodable`]).
pub fn decode_profile_bundle(bytes: &[u8]) -> (r: Result<PortableProfileBundle, LibraryError>)
    ensures
        match artifact_verdict(bytes@, "profile"@) {
            ArtifactVerdict::Records(recs) => match apply_records(empty_artifact(), recs) {
                Some(m) => if profile_decodable(m) {
                    r matches Ok(b) && b.format_version == PORTABLE_FORMAT_VERSION && finalized_profile(m.profile.unwrap(), b.profile)
                        && decoded_entries(m, b.setups@, b.intents@)
                } else {
                    r matches Err(e) && e is PortableFormat
                },
                None => r matches Err(e) && e is PortableFormat,
            },
            ArtifactVerdict::Unsupported(found) => r == Err::<PortableProfileBundle, LibraryError>(
                LibraryError::UnsupportedPortableFormat { found, supported: PORTABLE_FORMAT_VERSION },
            ),
            ArtifactVerdict::DigestMismatch => r == Err::<PortableProfileBundle, LibraryError>(LibraryError::PortableDigestMismatch),
            ArtifactVerdict::Malformed => r matches Err(e) && e is PortableFormat,
        },
{
    let parsed = match parse_artifact(bytes, "profile") {
        Ok(p) => p,
        Err(e) => return Err(e),
    };
    let ghost m = parsed@;
    if parsed.root.is_some() {
        return Err(reader_error("profile artifact unexpectedly contains root-setup record"));
    }
    let profile = match &parsed.profile {
        Some(p) => match finalize_profile(p) {
            Ok(q) => q,
            Err(e) => return Err(e),
        },
        None => return Err(reader_error("profile artifact is missing profile record")),
    };
    assert(setup_builder_views(parsed.setups@) == m.setups);
    assert(intent_builder_views(parsed.intents@) == m.intents);
    let setups = match finalize_setups(&parsed.setups) {
        Ok(s) => s,
        Err(e) => return Err(e),
    };
    let intents = match finalize_intents(&parsed.intents) {
        Ok(i) => i,
        Err(e) => return Err(e),
    };
    assert(parsed.setups@.len() == parsed.setups.len());
    assert(parsed.intents@.len() == parsed.intents.len());
    proof {
        crate::order::lemma_stable_order_exists(setup_entry_keys(m.setups));
        crate::order::lemma_stable_order_exists(entry_keys(m.intents));
        lemma_decoded_keys(m, setups@, intents@);
        lemma_decoded_secret_refs(m, setups@, intents@);
        let p = m.profile.unwrap();
        assert(intent_keys(profile.intent_revisions@) =~= intent_ref_keys(profile.intent_revisions@));
        let o2 = stable_order(include_keys(p.setups));
        let x = profile.setup_revisions@;
        assert(profile.setup_revisions.len() == x.len());
        crate::order::lemma_stable_order_exists(include_keys(p.setups));
        assert forall|k: int| 0 <= k < x.len() implies #[trigger] setup_keys(x)[k] == in_order(p.setups, o2)[k] by {
            assert(setup_ref_keys(x)[k] == in_order(include_keys(p.setups), o2)[k]);
            assert(include_keys(p.setups)[o2[k] as int] == (p.setups[o2[k] as int].0, p.setups[o2[k] as int].1 as u64));
        }
        assert(setup_keys(x) =~= in_order(p.setups, o2));
    }
    if let Err(e) = validate_bundle_secret_refs(&setups) {
        return Err(e);
    }
    let bundle = PortableProfileBundle { format_version: parsed.version, profile, setups, intents };
    let comps = composition_of(&bundle.setups);
    let keys = intent_keys_of(&bundle.intents);
    if let Err(e) = validate_profile_bundle(
        bundle.format_version,
        bundle.profile.revision,
        &bundle.profile.intent_revisions,
        &bundle.profile.setup_revisions,
        &comps,
        &keys,
    ) {
        return Err(e);
    }
    Ok(bundle)
}

} // verus!

