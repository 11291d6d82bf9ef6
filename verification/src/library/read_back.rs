//! What the reader makes of what the writer sealed: a bundle artifact that
//! the writer produces is decoded back into a bundle, not refused.
use vstd::prelude::*;
use crate::library::composition::{
    intent_ids_distinct, closure_intent, distinct_keys, exact_closure, has_cycle, includes_edge, includes_present, intent_keys,
    intents_present, is_walk, node_at, present, profile_bundle_valid, reachable, setup_bundle_valid, setup_keys, step,
    CompositionView, IntentKey, SetupKey,
};
use crate::library::digest::sha256_of;
use crate::library::names::{law_kind_names_round_trip, requirement_kind_named, MachineClass, RequirementKind};
use crate::library::portable::{sealed_artifact, MAX_PORTABLE_BYTES, MAX_RECORDS, PORTABLE_FORMAT_VERSION};
use crate::library::portable_reader::{
    entry_secret_refs_ok,
    decoded_composition, decoded_compositions, decoded_intent_keys, entries_finalizable, entry_keys, gapless,
    include_keys, intent_finalizable, profile_decodable, profile_finalizable, setup_decodable, setup_entry_keys,
    setup_finalizable,
};
use crate::library::records::{law_persisted_names_round_trip, LifecycleRecordKind};
use crate::library::portable_records::{artifact_contents, ArtifactView};
use crate::library::portable_writer::{
    secret_refs_ok, bundle_intent_keys, compositions, in_order, intent_ref_keys, intent_sort_keys, requirement_keys, setup_ref_keys,
    setup_sort_keys, stable_order, text_keys, PortableIntent, PortableProfile, PortableProfileBundle, PortableSetup,
    PortableSetupBundle, profile_bundle_text, setup_bundle_text,
};
use crate::library::round_trip::{
    bundle_revisions_positive, intent_view, law_profile_bundle_reads_back, law_setup_bundle_reads_back, ordinal_values,
    profile_bundle_records, profile_bundle_view, profile_revisions_positive, profile_view, setup_bundle_records,
    setup_bundle_view, setup_view,
};
use vstd::utf8::encode_utf8;
use crate::order::{lemma_order_covers, lemma_stable_order_exists, sorted_order};

verus! {

/// The elements of `s` taken in a sorted order of keys of the same length
/// are the elements of `s`, each as often.
proof fn lemma_in_order_members<T>(keys: Seq<(Seq<char>, u64)>, o: Seq<usize>, s: Seq<T>)
    requires
        sorted_order(keys, o),
        keys.len() <= usize::MAX,
        s.len() == keys.len(),
    ensures
        in_order(s, o).len() == s.len(),
        forall|x: T| #[trigger] in_order(s, o).contains(x) <==> s.contains(x),
        s.no_duplicates() ==> in_order(s, o).no_duplicates(),
{
    lemma_order_covers(keys, o);
    let t = in_order(s, o);
    assert forall|x: T| #[trigger] t.contains(x) <==> s.contains(x) by {
        if t.contains(x) {
            let j = choose|j: int| 0 <= j < t.len() && t[j] == x;
            assert(s[o[j] as int] == x);
        }
        if s.contains(x) {
            let i = choose|i: int| 0 <= i < s.len() && s[i] == x;
            assert(o.contains(i as usize));
            let j = choose|j: int| 0 <= j < o.len() && o[j] == i as usize;
            assert(o[j] as int == i);
            assert(t[j] == x);
        }
    }
    if s.no_duplicates() {
        assert forall|a: int, b: int| 0 <= a < t.len() && 0 <= b < t.len() && a != b implies t[a] != t[b] by {
            assert(o[a] != o[b]);
        }
    }
}

/// Two revisions read alike: the same key, and the same intent and setup
/// revisions referenced.
pub open spec fn same_node(a: CompositionView, b: CompositionView) -> bool {
    &&& a.key == b.key
    &&& a.intents.to_set() == b.intents.to_set()
    &&& a.includes.to_set() == b.includes.to_set()
}

/// Some revision of `g` reads like `n`.
pub open spec fn has_alike(g: Seq<CompositionView>, n: CompositionView) -> bool {
    exists|k: int| 0 <= k < g.len() && #[trigger] same_node(n, g[k])
}

/// Each revision of either graph has a revision that reads alike in the
/// other.
pub open spec fn same_graph(g1: Seq<CompositionView>, g2: Seq<CompositionView>) -> bool {
    &&& forall|i: int| 0 <= i < g1.len() ==> #[trigger] has_alike(g2, g1[i])
    &&& forall|j: int| 0 <= j < g2.len() ==> #[trigger] has_alike(g1, g2[j])
}

proof fn lemma_present_transfer(g1: Seq<CompositionView>, g2: Seq<CompositionView>, k: SetupKey)
    requires
        same_graph(g1, g2),
        present(g1, k),
    ensures
        present(g2, k),
{
    let i = choose|i: int| node_at(g1, k, i);
    assert(has_alike(g2, g1[i]));
    let j = choose|j: int| 0 <= j < g2.len() && #[trigger] same_node(g1[i], g2[j]);
    assert(node_at(g2, k, j));
}

proof fn lemma_edge_transfer(g1: Seq<CompositionView>, g2: Seq<CompositionView>, a: SetupKey, b: SetupKey)
    requires
        same_graph(g1, g2),
        includes_edge(g1, a, b),
    ensures
        includes_edge(g2, a, b),
{
    let i = choose|i: int| node_at(g1, a, i) && g1[i].includes.contains(b);
    assert(has_alike(g2, g1[i]));
    let j = choose|j: int| 0 <= j < g2.len() && #[trigger] same_node(g1[i], g2[j]);
    assert(g1[i].includes.to_set().contains(b));
    assert(g2[j].includes.to_set().contains(b));
    assert(node_at(g2, a, j));
}

proof fn lemma_walk_transfer(g1: Seq<CompositionView>, g2: Seq<CompositionView>, p: Seq<SetupKey>)
    requires
        same_graph(g1, g2),
        is_walk(g1, p),
    ensures
        is_walk(g2, p),
{
    assert forall|i: int| 0 <= i < p.len() - 1 implies #[trigger] step(g2, p, i) by {
        assert(step(g1, p, i));
        lemma_edge_transfer(g1, g2, p[i], p[i + 1]);
    }
}

proof fn lemma_reachable_transfer(
    g1: Seq<CompositionView>,
    g2: Seq<CompositionView>,
    r1: Seq<SetupKey>,
    r2: Seq<SetupKey>,
    k: SetupKey,
)
    requires
        same_graph(g1, g2),
        forall|x: SetupKey| #[trigger] r1.contains(x) ==> r2.contains(x),
        reachable(g1, r1, k),
    ensures
        reachable(g2, r2, k),
{
    let p = choose|p: Seq<SetupKey>| p.len() >= 1 && is_walk(g1, p) && r1.contains(p[0]) && p.last() == k;
    lemma_walk_transfer(g1, g2, p);
}

proof fn lemma_closure_intent_transfer(
    g1: Seq<CompositionView>,
    g2: Seq<CompositionView>,
    r1: Seq<SetupKey>,
    r2: Seq<SetupKey>,
    e1: Seq<IntentKey>,
    e2: Seq<IntentKey>,
    x: IntentKey,
)
    requires
        same_graph(g1, g2),
        forall|y: SetupKey| #[trigger] r1.contains(y) ==> r2.contains(y),
        forall|y: IntentKey| #[trigger] e1.contains(y) ==> e2.contains(y),
        closure_intent(g1, r1, e1, x),
    ensures
        closure_intent(g2, r2, e2, x),
{
    if !e1.contains(x) {
        let i = choose|i: int| 0 <= i < g1.len() && reachable(g1, r1, g1[i].key) && #[trigger] g1[i].intents.contains(x);
        assert(has_alike(g2, g1[i]));
        let j = choose|j: int| 0 <= j < g2.len() && #[trigger] same_node(g1[i], g2[j]);
        lemma_reachable_transfer(g1, g2, r1, r2, g1[i].key);
        assert(g1[i].intents.to_set().contains(x));
        assert(g2[j].intents.to_set().contains(x));
        assert(reachable(g2, r2, g2[j].key));
    }
}

/// Soundness of a composition depends only on what each revision
/// references and on which revisions and intents there are: a graph that
/// reads alike, with the same roots, extra and intent revisions, is as
/// sound.
proof fn lemma_closure_alike(
    g1: Seq<CompositionView>,
    g2: Seq<CompositionView>,
    r1: Seq<SetupKey>,
    r2: Seq<SetupKey>,
    e1: Seq<IntentKey>,
    e2: Seq<IntentKey>,
    i1: Seq<IntentKey>,
    i2: Seq<IntentKey>,
)
    requires
        same_graph(g1, g2),
        forall|y: SetupKey| #[trigger] r1.contains(y) <==> r2.contains(y),
        forall|y: IntentKey| #[trigger] e1.contains(y) <==> e2.contains(y),
        forall|y: IntentKey| #[trigger] i1.contains(y) <==> i2.contains(y),
        intents_present(g1, i1),
        includes_present(g1),
        !has_cycle(g1),
        exact_closure(g1, r1, e1, i1),
    ensures
        intents_present(g2, i2),
        includes_present(g2),
        !has_cycle(g2),
        exact_closure(g2, r2, e2, i2),
{
        assert forall|j: int, x: IntentKey| 0 <= j < g2.len() && #[trigger] g2[j].intents.contains(x) implies i2.contains(x) by {
        assert(has_alike(g1, g2[j]));
        let i = choose|i: int| 0 <= i < g1.len() && #[trigger] same_node(g2[j], g1[i]);
        assert(g2[j].intents.to_set().contains(x));
        assert(g1[i].intents.to_set().contains(x));
    }
    assert forall|j: int, b: SetupKey| 0 <= j < g2.len() && #[trigger] g2[j].includes.contains(b) implies present(g2, b) by {
        assert(has_alike(g1, g2[j]));
        let i = choose|i: int| 0 <= i < g1.len() && #[trigger] same_node(g2[j], g1[i]);
        assert(g2[j].includes.to_set().contains(b));
        assert(g1[i].includes.to_set().contains(b));
        lemma_present_transfer(g1, g2, b);
    }
    if has_cycle(g2) {
        let p = choose|p: Seq<SetupKey>| p.len() >= 2 && is_walk(g2, p) && p[0] == p.last();
        lemma_walk_transfer(g2, g1, p);
        assert(has_cycle(g1));
    }
    assert forall|k: SetupKey| reachable(g2, r2, k) implies present(g2, k) by {
        lemma_reachable_transfer(g2, g1, r2, r1, k);
        lemma_present_transfer(g1, g2, k);
    }
    assert forall|j: int| 0 <= j < g2.len() implies reachable(g2, r2, #[trigger] g2[j].key) by {
        assert(has_alike(g1, g2[j]));
        let i = choose|i: int| 0 <= i < g1.len() && #[trigger] same_node(g2[j], g1[i]);
        assert(reachable(g1, r1, g1[i].key));
        lemma_reachable_transfer(g1, g2, r1, r2, g1[i].key);
    }
    assert forall|x: IntentKey| closure_intent(g2, r2, e2, x) <==> i2.contains(x) by {
        if closure_intent(g2, r2, e2, x) {
            lemma_closure_intent_transfer(g2, g1, r2, r1, e2, e1, x);
            assert(closure_intent(g1, r1, e1, x) <==> i1.contains(x));
            assert(i1.contains(x));
        }
        if i2.contains(x) {
            assert(i1.contains(x));
            assert(closure_intent(g1, r1, e1, x) <==> i1.contains(x));
            lemma_closure_intent_transfer(g1, g2, r1, r2, e1, e2, x);
        }
    }
}

/// Two lists of intent revisions with the same members, each without a
/// repeat, hold as many revisions of each intent.
proof fn lemma_ids_distinct_alike(i1: Seq<IntentKey>, i2: Seq<IntentKey>)
    requires
        i1.no_duplicates(),
        i2.no_duplicates(),
        intent_ids_distinct(i1),
        forall|y: IntentKey| #[trigger] i1.contains(y) <==> i2.contains(y),
    ensures
        intent_ids_distinct(i2),
{
    assert forall|a: int, b: int| 0 <= a < b < i2.len() implies (#[trigger] i2[a]).0 != (#[trigger] i2[b]).0 by {
        assert(i2.contains(i2[a]) && i2.contains(i2[b]));
        assert(i1.contains(i2[a]) && i1.contains(i2[b]));
        let x = choose|x: int| 0 <= x < i1.len() && i1[x] == i2[a];
        let y = choose|y: int| 0 <= y < i1.len() && i1[y] == i2[b];
        assert(i2[a] != i2[b]);
        if x < y {
            assert(i1[x].0 != i1[y].0);
        } else if y < x {
            assert(i1[y].0 != i1[x].0);
        }
    }
}

proof fn lemma_setup_valid_alike(
    g1: Seq<CompositionView>,
    g2: Seq<CompositionView>,
    root: SetupKey,
    i1: Seq<IntentKey>,
    i2: Seq<IntentKey>,
)
    requires
        same_graph(g1, g2),
        distinct_keys(g2),
        i2.no_duplicates(),
        forall|y: IntentKey| #[trigger] i1.contains(y) <==> i2.contains(y),
        setup_bundle_valid(g1, root, i1),
    ensures
        setup_bundle_valid(g2, root, i2),
{
    lemma_present_transfer(g1, g2, root);
    lemma_ids_distinct_alike(i1, i2);
    lemma_closure_alike(g1, g2, seq![root], seq![root], Seq::empty(), Seq::empty(), i1, i2);
}

proof fn lemma_profile_valid_alike(
    g1: Seq<CompositionView>,
    g2: Seq<CompositionView>,
    revision: u32,
    pi1: Seq<IntentKey>,
    pi2: Seq<IntentKey>,
    ps1: Seq<SetupKey>,
    ps2: Seq<SetupKey>,
    i1: Seq<IntentKey>,
    i2: Seq<IntentKey>,
)
    requires
        same_graph(g1, g2),
        distinct_keys(g2),
        i2.no_duplicates(),
        forall|y: IntentKey| #[trigger] pi1.contains(y) <==> pi2.contains(y),
        forall|y: SetupKey| #[trigger] ps1.contains(y) <==> ps2.contains(y),
        forall|y: IntentKey| #[trigger] i1.contains(y) <==> i2.contains(y),
        profile_bundle_valid(g1, revision, pi1, ps1, i1),
    ensures
        profile_bundle_valid(g2, revision, pi2, ps2, i2),
{
    lemma_ids_distinct_alike(i1, i2);
    assert forall|x: IntentKey| pi2.contains(x) implies i2.contains(x) by {
        assert(pi1.contains(x));
    }
    assert forall|k: SetupKey| ps2.contains(k) implies present(g2, k) by {
        assert(ps1.contains(k));
        lemma_present_transfer(g1, g2, k);
    }
    lemma_closure_alike(g1, g2, ps1, ps2, pi1, pi2, i1, i2);
}

proof fn lemma_stable_sorted(keys: Seq<(Seq<char>, u64)>)
    requires
        keys.len() <= usize::MAX,
    ensures
        sorted_order(keys, stable_order(keys)),
{
    lemma_stable_order_exists(keys);
}

/// A written setup revision, read back, composes as it was written.
proof fn lemma_setup_node(v: Seq<PortableSetup>, k: int)
    requires
        0 <= k < v.len(),
    ensures
        same_node(compositions(v)[k], decoded_composition(setup_view(v[k]))),
{
    let s = v[k];
    let d = decoded_composition(setup_view(s));
    let refs = s.intent_revisions@;
    assert(s.intent_revisions.len() == refs.len());
    let kv = intent_ref_keys(refs);
    let wo = stable_order(kv);
    lemma_stable_sorted(kv);
    let vi = setup_view(s).intents;
    assert(vi =~= in_order(kv, wo));
    lemma_in_order_members(kv, wo, kv);
    lemma_stable_sorted(vi);
    lemma_in_order_members(vi, stable_order(vi), vi);
    assert(intent_keys(refs) =~= kv);
    assert(d.intents.to_set() =~= compositions(v)[k].intents.to_set());
    let refs2 = s.included_revisions@;
    assert(s.included_revisions.len() == refs2.len());
    let k2 = setup_ref_keys(refs2);
    let wo2 = stable_order(k2);
    lemma_stable_sorted(k2);
    let sk = setup_keys(refs2);
    let vn = setup_view(s).includes;
    assert(vn =~= in_order(sk, wo2));
    lemma_in_order_members(k2, wo2, sk);
    lemma_stable_sorted(include_keys(vn));
    lemma_in_order_members(include_keys(vn), stable_order(include_keys(vn)), vn);
    assert(d.includes.to_set() =~= compositions(v)[k].includes.to_set());
}

/// The setup revisions written in the writer's order and read back in the
/// reader's order compose as the bundle's own, each revision once.
proof fn lemma_written_graph(v: Seq<PortableSetup>, m: ArtifactView)
    requires
        v.len() <= usize::MAX,
        distinct_keys(compositions(v)),
        m.setups == in_order(v, stable_order(setup_sort_keys(v))).map_values(|s: PortableSetup| setup_view(s)),
    ensures
        same_graph(compositions(v), decoded_compositions(m)),
        distinct_keys(decoded_compositions(m)),
{
    let g1 = compositions(v);
    let g2 = decoded_compositions(m);
    let ws = stable_order(setup_sort_keys(v));
    lemma_stable_sorted(setup_sort_keys(v));
    lemma_order_covers(setup_sort_keys(v), ws);
    let ms = m.setups;
    let ek = setup_entry_keys(ms);
    let rs = stable_order(ek);
    lemma_stable_sorted(ek);
    lemma_order_covers(ek, rs);
    assert(g2.len() == v.len());
    assert forall|j: int| 0 <= j < g2.len() implies g2[j] == decoded_composition(setup_view(v[ws[rs[j] as int] as int])) by {
        assert(rs[j] < ek.len());
        assert(ms[rs[j] as int] == setup_view(v[ws[rs[j] as int] as int]));
    }
    assert forall|i: int| 0 <= i < g1.len() implies #[trigger] has_alike(g2, g1[i]) by {
        assert(ws.contains(i as usize));
        let t = choose|t: int| 0 <= t < ws.len() && ws[t] == i as usize;
        assert(rs.contains(t as usize));
        let j = choose|j: int| 0 <= j < rs.len() && rs[j] == t as usize;
        assert(rs[j] as int == t && ws[t] as int == i);
        assert(g2[j] == decoded_composition(setup_view(v[i])));
        lemma_setup_node(v, i);
        assert(same_node(g1[i], g2[j]));
    }
    assert forall|j: int| 0 <= j < g2.len() implies #[trigger] has_alike(g1, g2[j]) by {
        let i = ws[rs[j] as int] as int;
        assert(rs[j] < ek.len());
        lemma_setup_node(v, i);
        assert(same_node(g2[j], g1[i]));
    }
    assert forall|a: int, b: int| 0 <= a < b < g2.len() implies (#[trigger] g2[a]).key != (#[trigger] g2[b]).key by {
        let ia = ws[rs[a] as int] as int;
        let ib = ws[rs[b] as int] as int;
        assert(rs[a] != rs[b]);
        assert(rs[a] < ek.len() && rs[b] < ek.len());
        assert(ia != ib);
        assert(g2[a].key == g1[ia].key);
        assert(g2[b].key == g1[ib].key);
        if ia < ib {
            assert(g1[ia].key != g1[ib].key);
        } else {
            assert(g1[ib].key != g1[ia].key);
        }
    }
}

/// The intent revisions written in the writer's order and read back in the
/// reader's order are the bundle's own, each once.
proof fn lemma_written_intent_keys(v: Seq<PortableIntent>, m: ArtifactView)
    requires
        v.len() <= usize::MAX,
        bundle_intent_keys(v).no_duplicates(),
        m.intents == in_order(v, stable_order(intent_sort_keys(v))).map_values(|i: PortableIntent| intent_view(i)),
    ensures
        decoded_intent_keys(m).no_duplicates(),
        forall|x: IntentKey| #[trigger] decoded_intent_keys(m).contains(x) <==> bundle_intent_keys(v).contains(x),
{
    let i1 = bundle_intent_keys(v);
    let wi = stable_order(intent_sort_keys(v));
    lemma_stable_sorted(intent_sort_keys(v));
    let w = in_order(i1, wi);
    lemma_in_order_members(intent_sort_keys(v), wi, i1);
    assert(entry_keys(m.intents) =~= w);
    let ri = stable_order(w);
    lemma_stable_sorted(w);
    lemma_in_order_members(w, ri, w);
    assert(decoded_intent_keys(m) =~= in_order(w, ri));
}

/// An intent revision names each of its requirements once and each intent
/// it supersedes once.
pub open spec fn intent_entries_distinct(i: PortableIntent) -> bool {
    &&& forall|x: int, y: int| 0 <= x < y < i.requirements@.len() ==> (#[trigger] i.requirements@[x]).id@ != (#[trigger] i.requirements@[y]).id@
    &&& forall|x: int, y: int| 0 <= x < y < i.supersedes@.len() ==> (#[trigger] i.supersedes@[x])@ != (#[trigger] i.supersedes@[y])@
}

/// A setup revision references each intent revision and each setup
/// revision once.
pub open spec fn setup_refs_distinct(s: PortableSetup) -> bool {
    &&& intent_keys(s.intent_revisions@).no_duplicates()
    &&& setup_keys(s.included_revisions@).no_duplicates()
}

proof fn lemma_intent_finalizable(i: PortableIntent)
    requires
        intent_entries_distinct(i),
    ensures
        intent_finalizable(intent_view(i)),
{
    let v = intent_view(i);
    law_kind_names_round_trip(i.actor_kind, RequirementKind::Goal, MachineClass::Workstation);
    law_persisted_names_round_trip(i.status, LifecycleRecordKind::DesiredState);
    let reqs = i.requirements@;
    assert(i.requirements.len() == reqs.len());
    let rk = requirement_keys(reqs);
    let ro = stable_order(rk);
    lemma_stable_sorted(rk);
    lemma_order_covers(rk, ro);
    assert forall|k: int| 0 <= k < v.requirements.len() implies requirement_kind_named((#[trigger] v.requirements[k]).1) is Some by {
        assert(ro[k] < rk.len());
        law_kind_names_round_trip(i.actor_kind, reqs[ro[k] as int].kind, MachineClass::Workstation);
    }
    assert forall|a: int, b: int| 0 <= a < b < v.requirements.len() implies (#[trigger] v.requirements[a]).0 != (#[trigger] v.requirements[b]).0 by {
        assert(ro[a] != ro[b]);
        assert(ro[a] < rk.len() && ro[b] < rk.len());
        if ro[a] < ro[b] {
            assert(reqs[ro[a] as int].id@ != reqs[ro[b] as int].id@);
        } else {
            assert(reqs[ro[b] as int].id@ != reqs[ro[a] as int].id@);
        }
    }
    let sup = i.supersedes@;
    assert(i.supersedes.len() == sup.len());
    let tk = text_keys(sup);
    let so = stable_order(tk);
    lemma_stable_sorted(tk);
    lemma_order_covers(tk, so);
    assert forall|a: int, b: int| 0 <= a < b < v.supersedes.len() implies #[trigger] v.supersedes[a] != #[trigger] v.supersedes[b] by {
        assert(so[a] != so[b]);
        assert(so[a] < tk.len() && so[b] < tk.len());
        if so[a] < so[b] {
            assert(sup[so[a] as int]@ != sup[so[b] as int]@);
        } else {
            assert(sup[so[b] as int]@ != sup[so[a] as int]@);
        }
    }
}

proof fn lemma_ordinal_values_gapless(vs: Seq<String>)
    requires
        vs.len() <= usize::MAX,
    ensures
        gapless(ordinal_values(vs)),
{
}

proof fn lemma_setup_finalizable(s: PortableSetup)
    requires
        setup_refs_distinct(s),
    ensures
        setup_finalizable(setup_view(s)),
{
    let refs = s.intent_revisions@;
    assert(s.intent_revisions.len() == refs.len());
    let kv = intent_ref_keys(refs);
    let wo = stable_order(kv);
    lemma_stable_sorted(kv);
    assert(intent_keys(refs) =~= kv);
    assert(setup_view(s).intents =~= in_order(kv, wo));
    lemma_in_order_members(kv, wo, kv);
    let refs2 = s.included_revisions@;
    assert(s.included_revisions.len() == refs2.len());
    let k2 = setup_ref_keys(refs2);
    let wo2 = stable_order(k2);
    lemma_stable_sorted(k2);
    let sk = setup_keys(refs2);
    assert(setup_view(s).includes =~= in_order(sk, wo2));
    lemma_in_order_members(k2, wo2, sk);
    assert(s.portable_constraints.len() == s.portable_constraints@.len());
    assert(s.required_secret_refs.len() == s.required_secret_refs@.len());
    assert(s.hardware_hints.len() == s.hardware_hints@.len());
    lemma_ordinal_values_gapless(s.portable_constraints@);
    lemma_ordinal_values_gapless(s.required_secret_refs@);
    lemma_ordinal_values_gapless(s.hardware_hints@);
}

/// Every intent and setup revision written, read back, can be finalized.
proof fn lemma_written_entries(vi: Seq<PortableIntent>, vs: Seq<PortableSetup>, m: ArtifactView)
    requires
        vi.len() <= usize::MAX,
        vs.len() <= usize::MAX,
        forall|k: int| 0 <= k < vi.len() ==> intent_entries_distinct(#[trigger] vi[k]),
        forall|k: int| 0 <= k < vs.len() ==> setup_refs_distinct(#[trigger] vs[k]),
        m.intents == in_order(vi, stable_order(intent_sort_keys(vi))).map_values(|i: PortableIntent| intent_view(i)),
        m.setups == in_order(vs, stable_order(setup_sort_keys(vs))).map_values(|s: PortableSetup| setup_view(s)),
    ensures
        entries_finalizable(m),
{
    let wi = stable_order(intent_sort_keys(vi));
    lemma_stable_sorted(intent_sort_keys(vi));
    let ws = stable_order(setup_sort_keys(vs));
    lemma_stable_sorted(setup_sort_keys(vs));
    assert forall|k: int| 0 <= k < m.setups.len() implies setup_finalizable(#[trigger] m.setups[k]) by {
        assert(ws[k] < vs.len());
        lemma_setup_finalizable(vs[ws[k] as int]);
    }
    assert forall|k: int| 0 <= k < m.intents.len() implies intent_finalizable(#[trigger] m.intents[k]) by {
        assert(wi[k] < vi.len());
        lemma_intent_finalizable(vi[wi[k] as int]);
    }
}

/// The secret references written, read back, are as well formed as the
/// bundle's.
proof fn lemma_written_secret_refs(vs: Seq<PortableSetup>, m: ArtifactView)
    requires
        vs.len() <= usize::MAX,
        secret_refs_ok(vs),
        m.setups == in_order(vs, stable_order(setup_sort_keys(vs))).map_values(|s: PortableSetup| setup_view(s)),
    ensures
        entry_secret_refs_ok(m.setups),
{
    let ws = stable_order(setup_sort_keys(vs));
    lemma_stable_sorted(setup_sort_keys(vs));
    assert forall|k: int, j: int|
        #![trigger m.setups[k].secret_refs[j]]
        0 <= k < m.setups.len() && 0 <= j < m.setups[k].secret_refs.len() implies crate::library::checks::secret_ref_ok(
            m.setups[k].secret_refs[j].1,
        ) by {
        assert(ws[k] < vs.len());
        let s = vs[ws[k] as int];
        assert(m.setups[k] == setup_view(s));
        assert(m.setups[k].secret_refs[j].1 == s.required_secret_refs@[j]@);
    }
}

/// Each intent revision of the bundle names its requirements and what it
/// supersedes once, and each setup revision its references once.
pub open spec fn bundle_entries_distinct(intents: Seq<PortableIntent>, setups: Seq<PortableSetup>) -> bool {
    &&& forall|k: int| 0 <= k < intents.len() ==> intent_entries_distinct(#[trigger] intents[k])
    &&& forall|k: int| 0 <= k < setups.len() ==> setup_refs_distinct(#[trigger] setups[k])
}

/// A setup artifact that the writer seals is read back as the bundle it
/// wrote, and that bundle decodes: [`decode_setup_bundle`] accepts the
/// artifact and returns its root and every revision, finalized. This holds
/// for every sound bundle whose required secret references are well formed,
/// whose revisions are positive, whose artifact fits
/// the record and size bounds, and whose revisions each name a requirement,
/// a superseded intent or a reference once.
///
/// [`decode_setup_bundle`]: crate::library::portable_reader::decode_setup_bundle
pub proof fn law_setup_bundle_decodes(b: PortableSetupBundle)
    requires
        b.format_version == PORTABLE_FORMAT_VERSION,
        setup_bundle_valid(compositions(b.setups@), (b.root.0@, b.root.1), bundle_intent_keys(b.intents@)),
        secret_refs_ok(b.setups@),
        bundle_revisions_positive(b),
        bundle_entries_distinct(b.intents@, b.setups@),
        setup_bundle_records(b).len() <= MAX_RECORDS + 1,
        sha256_of(encode_utf8(setup_bundle_text(b))).len() == 32,
        encode_utf8(sealed_artifact(setup_bundle_text(b))).len() <= MAX_PORTABLE_BYTES,
    ensures
        artifact_contents(encode_utf8(sealed_artifact(setup_bundle_text(b))), "setup"@) == Some(setup_bundle_view(b)),
        setup_decodable(setup_bundle_view(b)),
{
    law_setup_bundle_reads_back(b);
    let m = setup_bundle_view(b);
    assert(b.setups.len() == b.setups@.len());
    assert(b.intents.len() == b.intents@.len());
    lemma_written_entries(b.intents@, b.setups@, m);
    lemma_written_graph(b.setups@, m);
    lemma_written_secret_refs(b.setups@, m);
    lemma_written_intent_keys(b.intents@, m);
    lemma_setup_valid_alike(
        compositions(b.setups@),
        decoded_compositions(m),
        (b.root.0@, b.root.1),
        bundle_intent_keys(b.intents@),
        decoded_intent_keys(m),
    );
}

/// The profile's references, read back and sorted, are those it was
/// written with, each once.
proof fn lemma_profile_refs(p: PortableProfile)
    requires
        intent_keys(p.intent_revisions@).no_duplicates(),
        setup_keys(p.setup_revisions@).no_duplicates(),
    ensures
        profile_finalizable(profile_view(p)),
        forall|x: IntentKey| #[trigger] in_order(profile_view(p).intents, stable_order(profile_view(p).intents)).contains(x)
            <==> intent_keys(p.intent_revisions@).contains(x),
        forall|x: SetupKey| #[trigger] in_order(profile_view(p).setups, stable_order(include_keys(profile_view(p).setups))).contains(x)
            <==> setup_keys(p.setup_revisions@).contains(x),
{
    let v = profile_view(p);
    law_kind_names_round_trip(crate::library::names::ActorKind::Human, RequirementKind::Goal, p.machine_class);
    let refs = p.intent_revisions@;
    assert(p.intent_revisions.len() == refs.len());
    let kv = intent_ref_keys(refs);
    let wo = stable_order(kv);
    lemma_stable_sorted(kv);
    assert(intent_keys(refs) =~= kv);
    assert(v.intents =~= in_order(kv, wo));
    lemma_in_order_members(kv, wo, kv);
    lemma_stable_sorted(v.intents);
    lemma_in_order_members(v.intents, stable_order(v.intents), v.intents);
    let refs2 = p.setup_revisions@;
    assert(p.setup_revisions.len() == refs2.len());
    let k2 = setup_ref_keys(refs2);
    let wo2 = stable_order(k2);
    lemma_stable_sorted(k2);
    let sk = setup_keys(refs2);
    assert(v.setups =~= in_order(sk, wo2));
    lemma_in_order_members(k2, wo2, sk);
    lemma_stable_sorted(include_keys(v.setups));
    lemma_in_order_members(include_keys(v.setups), stable_order(include_keys(v.setups)), v.setups);
    assert(p.portable_constraints.len() == p.portable_constraints@.len());
    assert(p.hardware_hints.len() == p.hardware_hints@.len());
    lemma_ordinal_values_gapless(p.portable_constraints@);
    lemma_ordinal_values_gapless(p.hardware_hints@);
}

/// A profile artifact that the writer seals is read back as the bundle it
/// wrote, and that bundle decodes: [`decode_profile_bundle`] accepts the
/// artifact and returns its profile and every revision, finalized. This
/// holds for every sound bundle whose required secret references are well
/// formed, whose revisions are positive, whose
/// artifact fits the record and size bounds, and whose profile and
/// revisions each name a reference, a requirement or a superseded intent
/// once.
///
/// [`decode_profile_bundle`]: crate::library::portable_reader::decode_profile_bundle
pub proof fn law_profile_bundle_decodes(b: PortableProfileBundle)
    requires
        b.format_version == PORTABLE_FORMAT_VERSION,
        profile_bundle_valid(
            compositions(b.setups@),
            b.profile.revision,
            intent_keys(b.profile.intent_revisions@),
            setup_keys(b.profile.setup_revisions@),
            bundle_intent_keys(b.intents@),
        ),
        secret_refs_ok(b.setups@),
        profile_revisions_positive(b),
        intent_keys(b.profile.intent_revisions@).no_duplicates(),
        setup_keys(b.profile.setup_revisions@).no_duplicates(),
        bundle_entries_distinct(b.intents@, b.setups@),
        profile_bundle_records(b).len() <= MAX_RECORDS + 1,
        sha256_of(encode_utf8(profile_bundle_text(b))).len() == 32,
        encode_utf8(sealed_artifact(profile_bundle_text(b))).len() <= MAX_PORTABLE_BYTES,
    ensures
        artifact_contents(encode_utf8(sealed_artifact(profile_bundle_text(b))), "profile"@) == Some(profile_bundle_view(b)),
        profile_decodable(profile_bundle_view(b)),
{
    law_profile_bundle_reads_back(b);
    let m = profile_bundle_view(b);
    let v = profile_view(b.profile);
    assert(b.setups.len() == b.setups@.len());
    assert(b.intents.len() == b.intents@.len());
    lemma_written_entries(b.intents@, b.setups@, m);
    lemma_written_graph(b.setups@, m);
    lemma_written_secret_refs(b.setups@, m);
    lemma_written_intent_keys(b.intents@, m);
    lemma_profile_refs(b.profile);
    lemma_profile_valid_alike(
        compositions(b.setups@),
        decoded_compositions(m),
        b.profile.revision,
        intent_keys(b.profile.intent_revisions@),
        in_order(v.intents, stable_order(v.intents)),
        setup_keys(b.profile.setup_revisions@),
        in_order(v.setups, stable_order(include_keys(v.setups))),
        bundle_intent_keys(b.intents@),
        decoded_intent_keys(m),
    );
}

} // verus!
