//! Writing portable artifacts: intents, setups and a profile as record
//! lines, each list in a stable order by identity and revision, texts as
//! hex-encoded UTF-8, closed by the digest line.
use vstd::prelude::*;
use crate::library::composition::{
    graph, intent_keys, profile_bundle_valid, setup_bundle_valid, setup_keys, validate_profile_bundle, validate_setup_bundle,
    CompositionView, IntentKey, SetupComposition,
};
use crate::library::checks::{secret_ref_ok, validate_secret_ref};
use crate::library::error::LibraryError;
use crate::library::names::{actor_kind_str, machine_class_str, requirement_kind_str, ActorKind, MachineClass, RequirementKind};
use crate::library::portable::{finish_artifact, hex_text, push_line, sealed_artifact, tab_joined, MAX_PORTABLE_BYTES, PORTABLE_FORMAT_VERSION};
use crate::library::portable_records::{flag_field, hex_field};
use crate::library::records::{intent_status_str, IntentStatus};
use crate::num::{decimal, u64_decimal};
use crate::order::{law_sorted_order_unique, sort_order, sorted_order, key_views};
use crate::text::{chars_of, string_of};
use vstd::utf8::encode_utf8;

verus! {

/// A requirement of an intent revision, as written.
pub struct PortableRequirement {
    pub id: String,
    pub kind: RequirementKind,
    pub statement: String,
}

/// An intent revision, as written.
pub struct PortableIntent {
    pub id: String,
    pub revision: u64,
    pub actor_id: String,
    pub actor_kind: ActorKind,
    pub actor_interactive: bool,
    pub status: IntentStatus,
    pub statement: String,
    pub requirements: Vec<PortableRequirement>,
    pub supersedes: Vec<String>,
}

/// One record: the fields joined by tabs, then a line feed.
pub open spec fn record_line(fields: Seq<Seq<char>>) -> Seq<char> {
    tab_joined(fields) + seq!['\n']
}

/// The lines one after another.
pub open spec fn joined(ls: Seq<Seq<char>>) -> Seq<char>
    decreases ls.len(),
{
    if ls.len() == 0 {
        seq![]
    } else {
        joined(ls.drop_last()) + ls.last()
    }
}

/// The stable ascending order of positions by key (see [`sorted_order`]).
pub open spec fn stable_order(keys: Seq<(Seq<char>, u64)>) -> Seq<usize> {
    choose|o: Seq<usize>| sorted_order(keys, o)
}

/// The elements of `s` at the positions `o`.
pub open spec fn in_order<T>(s: Seq<T>, o: Seq<usize>) -> Seq<T> {
    Seq::new(o.len(), |j: int| s[o[j] as int])
}

pub(crate) proof fn lemma_stable_order(keys: Seq<(Seq<char>, u64)>, o: Seq<usize>)
    requires
        sorted_order(keys, o),
    ensures
        stable_order(keys) == o,
{
    let c = stable_order(keys);
    assert(sorted_order(keys, c));
    law_sorted_order_unique(keys, c, o);
}

pub open spec fn requirement_keys(rs: Seq<PortableRequirement>) -> Seq<(Seq<char>, u64)> {
    rs.map_values(|r: PortableRequirement| (r.id@, 0u64))
}

pub open spec fn text_keys(ts: Seq<String>) -> Seq<(Seq<char>, u64)> {
    ts.map_values(|t: String| (t@, 0u64))
}

pub open spec fn intent_base_line(i: PortableIntent) -> Seq<char> {
    record_line(seq![
        "intent"@,
        hex_field(i.id@),
        decimal(i.revision as nat),
        hex_field(i.actor_id@),
        i.actor_kind.spec_name(),
        flag_field(i.actor_interactive),
        i.status.spec_name(),
        hex_field(i.statement@),
    ])
}

pub open spec fn requirement_line(i: PortableIntent, r: PortableRequirement) -> Seq<char> {
    record_line(seq![
        "requirement"@,
        hex_field(i.id@),
        decimal(i.revision as nat),
        hex_field(r.id@),
        r.kind.spec_name(),
        hex_field(r.statement@),
    ])
}

pub open spec fn supersedes_line(i: PortableIntent, p: String) -> Seq<char> {
    record_line(seq!["supersedes"@, hex_field(i.id@), decimal(i.revision as nat), hex_field(p@)])
}

/// The records of one intent revision: its base, its requirements by
/// identifier, then what it supersedes in ascending order.
pub open spec fn intent_text(i: PortableIntent) -> Seq<char> {
    intent_base_line(i) + joined(
        in_order(i.requirements@, stable_order(requirement_keys(i.requirements@))).map_values(
            |r: PortableRequirement| requirement_line(i, r),
        ),
    ) + joined(in_order(i.supersedes@, stable_order(text_keys(i.supersedes@))).map_values(|p: String| supersedes_line(i, p)))
}

pub(crate) fn decimal_text(n: u64) -> (out: String)
    ensures
        out@ == decimal(n as nat),
{
    string_of(&u64_decimal(n))
}

pub(crate) fn requirement_sort_keys(rs: &Vec<PortableRequirement>) -> (keys: Vec<(Vec<char>, u64)>)
    ensures
        key_views(keys@) == requirement_keys(rs@),
{
    let mut keys: Vec<(Vec<char>, u64)> = Vec::new();
    let mut k: usize = 0;
    while k < rs.len()
        invariant
            k <= rs@.len(),
            key_views(keys@) == requirement_keys(rs@).take(k as int),
        decreases rs@.len() - k,
    {
        let ghost before = key_views(keys@);
        keys.push((chars_of(rs[k].id.as_str()), 0u64));
        assert(key_views(keys@) =~= before.push((rs@[k as int].id@, 0u64)));
        assert(requirement_keys(rs@).take(k as int + 1) =~= requirement_keys(rs@).take(k as int).push((rs@[k as int].id@, 0u64)));
        k = k + 1;
    }
    assert(requirement_keys(rs@).take(k as int) =~= requirement_keys(rs@));
    keys
}

pub(crate) fn text_sort_keys(ts: &Vec<String>) -> (keys: Vec<(Vec<char>, u64)>)
    ensures
        key_views(keys@) == text_keys(ts@),
{
    let mut keys: Vec<(Vec<char>, u64)> = Vec::new();
    let mut k: usize = 0;
    while k < ts.len()
        invariant
            k <= ts@.len(),
            key_views(keys@) == text_keys(ts@).take(k as int),
        decreases ts@.len() - k,
    {
        let ghost before = key_views(keys@);
        keys.push((chars_of(ts[k].as_str()), 0u64));
        assert(key_views(keys@) =~= before.push((ts@[k as int]@, 0u64)));
        assert(text_keys(ts@).take(k as int + 1) =~= text_keys(ts@).take(k as int).push((ts@[k as int]@, 0u64)));
        k = k + 1;
    }
    assert(text_keys(ts@).take(k as int) =~= text_keys(ts@));
    keys
}

/// Writes the records of one intent revision (see [`intent_text`]).
fn push_intent(body: &mut Vec<char>, intent: &PortableIntent)
    ensures
        final(body)@ == old(body)@ + intent_text(*intent),
{
    let ghost start = body@;
    let id = hex_text(intent.id.as_str());
    let revision = decimal_text(intent.revision);
    let actor = hex_text(intent.actor_id.as_str());
    let statement = hex_text(intent.statement.as_str());
    let flag = if intent.actor_interactive { "1" } else { "0" };
    proof {
        reveal_strlit("1");
        reveal_strlit("0");
    }
    let fields: [&str; 8] = [
        "intent",
        id.as_str(),
        revision.as_str(),
        actor.as_str(),
        actor_kind_str(intent.actor_kind),
        flag,
        intent_status_str(intent.status),
        statement.as_str(),
    ];
    assert(fields@.len() == 8);
    assert(fields@[0]@ == "intent"@);
    assert(fields@[1]@ == hex_field(intent.id@));
    assert(fields@[5]@ == flag_field(intent.actor_interactive));
    assert(fields@.map_values(|f: &str| f@) =~= seq![
        "intent"@,
        hex_field(intent.id@),
        decimal(intent.revision as nat),
        hex_field(intent.actor_id@),
        intent.actor_kind.spec_name(),
        flag_field(intent.actor_interactive),
        intent.status.spec_name(),
        hex_field(intent.statement@),
    ]);
    push_line(body, &fields);
    let ghost after_base = body@;
    assert(after_base == start + intent_base_line(*intent));
    let keys = requirement_sort_keys(&intent.requirements);
    let order = sort_order(&keys);
    proof {
        lemma_stable_order(requirement_keys(intent.requirements@), order@);
    }
    let ghost rl = in_order(intent.requirements@, order@).map_values(|r: PortableRequirement| requirement_line(*intent, r));
    let mut j: usize = 0;
    while j < order.len()
        invariant
            j <= order@.len(),
            order@.len() == intent.requirements@.len(),
            forall|a: int| 0 <= a < order@.len() ==> (#[trigger] order@[a]) < intent.requirements@.len(),
            rl == in_order(intent.requirements@, order@).map_values(|r: PortableRequirement| requirement_line(*intent, r)),
            id@ == hex_field(intent.id@),
            revision@ == decimal(intent.revision as nat),
            body@ == after_base + joined(rl.take(j as int)),
        decreases order@.len() - j,
    {
        let r = &intent.requirements[order[j]];
        let rid = hex_text(r.id.as_str());
        let rstatement = hex_text(r.statement.as_str());
        let fields: [&str; 6] = [
            "requirement",
            id.as_str(),
            revision.as_str(),
            rid.as_str(),
            requirement_kind_str(r.kind),
            rstatement.as_str(),
        ];
        assert(fields@.len() == 6);
        assert(fields@.map_values(|f: &str| f@) =~= seq![
            "requirement"@,
            hex_field(intent.id@),
            decimal(intent.revision as nat),
            hex_field(r.id@),
            r.kind.spec_name(),
            hex_field(r.statement@),
        ]);
        push_line(body, &fields);
        assert(rl[j as int] == requirement_line(*intent, *r));
        assert(rl.take(j as int + 1).drop_last() =~= rl.take(j as int));
        j = j + 1;
    }
    assert(rl.take(j as int) =~= rl);
    let ghost after_requirements = body@;
    let keys = text_sort_keys(&intent.supersedes);
    let order = sort_order(&keys);
    proof {
        lemma_stable_order(text_keys(intent.supersedes@), order@);
    }
    let ghost sl = in_order(intent.supersedes@, order@).map_values(|p: String| supersedes_line(*intent, p));
    let mut j: usize = 0;
    while j < order.len()
        invariant
            j <= order@.len(),
            order@.len() == intent.supersedes@.len(),
            forall|a: int| 0 <= a < order@.len() ==> (#[trigger] order@[a]) < intent.supersedes@.len(),
            sl == in_order(intent.supersedes@, order@).map_values(|p: String| supersedes_line(*intent, p)),
            id@ == hex_field(intent.id@),
            revision@ == decimal(intent.revision as nat),
            body@ == after_requirements + joined(sl.take(j as int)),
        decreases order@.len() - j,
    {
        let predecessor = hex_text(intent.supersedes[order[j]].as_str());
        let fields: [&str; 4] = ["supersedes", id.as_str(), revision.as_str(), predecessor.as_str()];
        assert(fields@.len() == 4);
        assert(fields@.map_values(|f: &str| f@) =~= seq![
            "supersedes"@,
            hex_field(intent.id@),
            decimal(intent.revision as nat),
            hex_field(intent.supersedes@[order@[j as int] as int]@),
        ]);
        push_line(body, &fields);
        assert(sl[j as int] == supersedes_line(*intent, intent.supersedes@[order@[j as int] as int]));
        assert(sl.take(j as int + 1).drop_last() =~= sl.take(j as int));
        j = j + 1;
    }
    assert(sl.take(j as int) =~= sl);
}

pub open spec fn intent_sort_keys(v: Seq<PortableIntent>) -> Seq<(Seq<char>, u64)> {
    v.map_values(|i: PortableIntent| (i.id@, i.revision))
}

/// The records of the intent revisions, ordered by identity and revision.
pub open spec fn intents_text(v: Seq<PortableIntent>) -> Seq<char> {
    joined(in_order(v, stable_order(intent_sort_keys(v))).map_values(|i: PortableIntent| intent_text(i)))
}

/// Writes the records of the intent revisions (see [`intents_text`]).
pub fn encode_intents(body: &mut Vec<char>, intents: &Vec<PortableIntent>)
    ensures
        final(body)@ == old(body)@ + intents_text(intents@),
{
    let ghost start = body@;
    let mut keys: Vec<(Vec<char>, u64)> = Vec::new();
    let mut k: usize = 0;
    while k < intents.len()
        invariant
            k <= intents@.len(),
            key_views(keys@) == intent_sort_keys(intents@).take(k as int),
        decreases intents@.len() - k,
    {
        let ghost before = key_views(keys@);
        keys.push((chars_of(intents[k].id.as_str()), intents[k].revision));
        assert(key_views(keys@) =~= before.push((intents@[k as int].id@, intents@[k as int].revision)));
        assert(intent_sort_keys(intents@).take(k as int + 1) =~= intent_sort_keys(intents@).take(k as int).push(
            (intents@[k as int].id@, intents@[k as int].revision),
        ));
        k = k + 1;
    }
    assert(intent_sort_keys(intents@).take(k as int) =~= intent_sort_keys(intents@));
    let order = sort_order(&keys);
    proof {
        lemma_stable_order(intent_sort_keys(intents@), order@);
    }
    let ghost il = in_order(intents@, order@).map_values(|i: PortableIntent| intent_text(i));
    let mut j: usize = 0;
    while j < order.len()
        invariant
            j <= order@.len(),
            order@.len() == intents@.len(),
            forall|a: int| 0 <= a < order@.len() ==> (#[trigger] order@[a]) < intents@.len(),
            il == in_order(intents@, order@).map_values(|i: PortableIntent| intent_text(i)),
            body@ == start + joined(il.take(j as int)),
        decreases order@.len() - j,
    {
        push_intent(body, &intents[order[j]]);
        assert(il[j as int] == intent_text(intents@[order@[j as int] as int]));
        assert(il.take(j as int + 1).drop_last() =~= il.take(j as int));
        j = j + 1;
    }
    assert(il.take(j as int) =~= il);
}

/// A setup revision, as written.
pub struct PortableSetup {
    pub id: String,
    pub revision: u32,
    pub name: String,
    pub description: String,
    pub intent_revisions: Vec<(String, u64)>,
    pub included_revisions: Vec<(String, u32)>,
    pub portable_constraints: Vec<String>,
    pub required_secret_refs: Vec<String>,
    pub hardware_hints: Vec<String>,
}

pub open spec fn intent_ref_keys(v: Seq<(String, u64)>) -> Seq<(Seq<char>, u64)> {
    v.map_values(|e: (String, u64)| (e.0@, e.1))
}

pub open spec fn setup_ref_keys(v: Seq<(String, u32)>) -> Seq<(Seq<char>, u64)> {
    v.map_values(|e: (String, u32)| (e.0@, e.1 as u64))
}

/// A record that references another revision: kind, owner, owner
/// revision, target, target revision.
pub open spec fn reference_line(kind: Seq<char>, id: Seq<char>, revision: nat, target: Seq<char>, target_revision: nat) -> Seq<char> {
    record_line(seq![kind, hex_field(id), decimal(revision), hex_field(target), decimal(target_revision)])
}

/// A record that holds the value at an ordinal.
pub open spec fn value_line(kind: Seq<char>, id: Seq<char>, revision: nat, ordinal: nat, value: Seq<char>) -> Seq<char> {
    record_line(seq![kind, hex_field(id), decimal(revision), decimal(ordinal), hex_field(value)])
}

/// The value records of `values` in ordinal order.
pub open spec fn value_lines(kind: Seq<char>, id: Seq<char>, revision: nat, values: Seq<String>) -> Seq<char> {
    joined(Seq::new(values.len(), |j: int| value_line(kind, id, revision, j as nat, values[j]@)))
}

/// The records of one setup revision: its base, its intent and setup
/// references by identity and revision, then its values in order.
pub open spec fn setup_text(s: PortableSetup) -> Seq<char> {
    let id = s.id@;
    let rev = s.revision as nat;
    record_line(seq!["setup"@, hex_field(id), decimal(rev), hex_field(s.name@), hex_field(s.description@)])
        + joined(in_order(s.intent_revisions@, stable_order(intent_ref_keys(s.intent_revisions@))).map_values(
            |e: (String, u64)| reference_line("setup-intent"@, id, rev, e.0@, e.1 as nat),
        ))
        + joined(in_order(s.included_revisions@, stable_order(setup_ref_keys(s.included_revisions@))).map_values(
            |e: (String, u32)| reference_line("setup-include"@, id, rev, e.0@, e.1 as nat),
        ))
        + value_lines("setup-constraint"@, id, rev, s.portable_constraints@)
        + value_lines("setup-secret-ref"@, id, rev, s.required_secret_refs@)
        + value_lines("setup-hardware"@, id, rev, s.hardware_hints@)
}

fn intent_ref_sort_keys(v: &Vec<(String, u64)>) -> (keys: Vec<(Vec<char>, u64)>)
    ensures
        key_views(keys@) == intent_ref_keys(v@),
{
    let mut keys: Vec<(Vec<char>, u64)> = Vec::new();
    let mut k: usize = 0;
    while k < v.len()
        invariant
            k <= v@.len(),
            key_views(keys@) == intent_ref_keys(v@).take(k as int),
        decreases v@.len() - k,
    {
        let ghost before = key_views(keys@);
        keys.push((chars_of(v[k].0.as_str()), v[k].1));
        assert(key_views(keys@) =~= before.push((v@[k as int].0@, v@[k as int].1)));
        assert(intent_ref_keys(v@).take(k as int + 1) =~= intent_ref_keys(v@).take(k as int).push((v@[k as int].0@, v@[k as int].1)));
        k = k + 1;
    }
    assert(intent_ref_keys(v@).take(k as int) =~= intent_ref_keys(v@));
    keys
}

fn setup_ref_sort_keys(v: &Vec<(String, u32)>) -> (keys: Vec<(Vec<char>, u64)>)
    ensures
        key_views(keys@) == setup_ref_keys(v@),
{
    let mut keys: Vec<(Vec<char>, u64)> = Vec::new();
    let mut k: usize = 0;
    while k < v.len()
        invariant
            k <= v@.len(),
            key_views(keys@) == setup_ref_keys(v@).take(k as int),
        decreases v@.len() - k,
    {
        let ghost before = key_views(keys@);
        keys.push((chars_of(v[k].0.as_str()), v[k].1 as u64));
        assert(key_views(keys@) =~= before.push((v@[k as int].0@, v@[k as int].1 as u64)));
        assert(setup_ref_keys(v@).take(k as int + 1) =~= setup_ref_keys(v@).take(k as int).push((v@[k as int].0@, v@[k as int].1 as u64)));
        k = k + 1;
    }
    assert(setup_ref_keys(v@).take(k as int) =~= setup_ref_keys(v@));
    keys
}

/// Writes reference records of `kind` for `owner`@`revision`, ordered by
/// identity and revision.
fn push_intent_refs(body: &mut Vec<char>, kind: &str, owner: &String, revision: u64, refs: &Vec<(String, u64)>)
    ensures
        final(body)@ == old(body)@ + joined(in_order(refs@, stable_order(intent_ref_keys(refs@))).map_values(
            |e: (String, u64)| reference_line(kind@, owner@, revision as nat, e.0@, e.1 as nat),
        )),
{
    let ghost start = body@;
    let id = hex_text(owner.as_str());
    let rev = decimal_text(revision);
    let keys = intent_ref_sort_keys(refs);
    let order = sort_order(&keys);
    proof {
        lemma_stable_order(intent_ref_keys(refs@), order@);
    }
    let ghost ls = in_order(refs@, order@).map_values(|e: (String, u64)| reference_line(kind@, owner@, revision as nat, e.0@, e.1 as nat));
    let mut j: usize = 0;
    while j < order.len()
        invariant
            j <= order@.len(),
            order@.len() == refs@.len(),
            forall|a: int| 0 <= a < order@.len() ==> (#[trigger] order@[a]) < refs@.len(),
            ls == in_order(refs@, order@).map_values(|e: (String, u64)| reference_line(kind@, owner@, revision as nat, e.0@, e.1 as nat)),
            id@ == hex_field(owner@),
            rev@ == decimal(revision as nat),
            body@ == start + joined(ls.take(j as int)),
        decreases order@.len() - j,
    {
        let e = &refs[order[j]];
        let target = hex_text(e.0.as_str());
        let target_revision = decimal_text(e.1);
        let fields: [&str; 5] = [kind, id.as_str(), rev.as_str(), target.as_str(), target_revision.as_str()];
        assert(fields@.len() == 5);
        assert(fields@.map_values(|f: &str| f@) =~= seq![kind@, hex_field(owner@), decimal(revision as nat), hex_field(e.0@), decimal(e.1 as nat)]);
        push_line(body, &fields);
        assert(ls[j as int] == reference_line(kind@, owner@, revision as nat, e.0@, e.1 as nat));
        assert(ls.take(j as int + 1).drop_last() =~= ls.take(j as int));
        j = j + 1;
    }
    assert(ls.take(j as int) =~= ls);
}

/// Writes reference records of `kind` for `owner`@`revision` to setup
/// revisions, ordered by identity and revision.
fn push_setup_refs(body: &mut Vec<char>, kind: &str, owner: &String, revision: u64, refs: &Vec<(String, u32)>)
    ensures
        final(body)@ == old(body)@ + joined(in_order(refs@, stable_order(setup_ref_keys(refs@))).map_values(
            |e: (String, u32)| reference_line(kind@, owner@, revision as nat, e.0@, e.1 as nat),
        )),
{
    let ghost start = body@;
    let id = hex_text(owner.as_str());
    let rev = decimal_text(revision);
    let keys = setup_ref_sort_keys(refs);
    let order = sort_order(&keys);
    proof {
        lemma_stable_order(setup_ref_keys(refs@), order@);
    }
    let ghost ls = in_order(refs@, order@).map_values(|e: (String, u32)| reference_line(kind@, owner@, revision as nat, e.0@, e.1 as nat));
    let mut j: usize = 0;
    while j < order.len()
        invariant
            j <= order@.len(),
            order@.len() == refs@.len(),
            forall|a: int| 0 <= a < order@.len() ==> (#[trigger] order@[a]) < refs@.len(),
            ls == in_order(refs@, order@).map_values(|e: (String, u32)| reference_line(kind@, owner@, revision as nat, e.0@, e.1 as nat)),
            id@ == hex_field(owner@),
            rev@ == decimal(revision as nat),
            body@ == start + joined(ls.take(j as int)),
        decreases order@.len() - j,
    {
        let e = &refs[order[j]];
        let target = hex_text(e.0.as_str());
        let target_revision = decimal_text(e.1 as u64);
        let fields: [&str; 5] = [kind, id.as_str(), rev.as_str(), target.as_str(), target_revision.as_str()];
        assert(fields@.len() == 5);
        assert(fields@.map_values(|f: &str| f@) =~= seq![kind@, hex_field(owner@), decimal(revision as nat), hex_field(e.0@), decimal(e.1 as nat)]);
        push_line(body, &fields);
        assert(ls[j as int] == reference_line(kind@, owner@, revision as nat, e.0@, e.1 as nat));
        assert(ls.take(j as int + 1).drop_last() =~= ls.take(j as int));
        j = j + 1;
    }
    assert(ls.take(j as int) =~= ls);
}

/// Writes value records of `kind` for `owner`@`revision`, one per value
/// with its position as ordinal.
fn push_values(body: &mut Vec<char>, kind: &str, owner: &String, revision: u64, values: &Vec<String>)
    ensures
        final(body)@ == old(body)@ + value_lines(kind@, owner@, revision as nat, values@),
{
    let ghost start = body@;
    let ghost ls = Seq::new(values@.len(), |j: int| value_line(kind@, owner@, revision as nat, j as nat, values@[j]@));
    let id = hex_text(owner.as_str());
    let rev = decimal_text(revision);
    let mut j: usize = 0;
    while j < values.len()
        invariant
            j <= values@.len(),
            ls == Seq::new(values@.len(), |j: int| value_line(kind@, owner@, revision as nat, j as nat, values@[j]@)),
            id@ == hex_field(owner@),
            rev@ == decimal(revision as nat),
            body@ == start + joined(ls.take(j as int)),
        decreases values@.len() - j,
    {
        let ordinal = decimal_text(j as u64);
        let value = hex_text(values[j].as_str());
        let fields: [&str; 5] = [kind, id.as_str(), rev.as_str(), ordinal.as_str(), value.as_str()];
        assert(fields@.len() == 5);
        assert(fields@.map_values(|f: &str| f@) =~= seq![kind@, hex_field(owner@), decimal(revision as nat), decimal(j as nat), hex_field(values@[j as int]@)]);
        push_line(body, &fields);
        assert(ls.take(j as int + 1).drop_last() =~= ls.take(j as int));
        j = j + 1;
    }
    assert(ls.take(j as int) =~= ls);
}

/// Writes the records of one setup revision (see [`setup_text`]).
fn push_setup(body: &mut Vec<char>, setup: &PortableSetup)
    ensures
        final(body)@ == old(body)@ + setup_text(*setup),
{
    let ghost start = body@;
    let id = hex_text(setup.id.as_str());
    let revision = decimal_text(setup.revision as u64);
    let name = hex_text(setup.name.as_str());
    let description = hex_text(setup.description.as_str());
    let fields: [&str; 5] = ["setup", id.as_str(), revision.as_str(), name.as_str(), description.as_str()];
    assert(fields@.len() == 5);
    assert(fields@.map_values(|f: &str| f@) =~= seq![
        "setup"@,
        hex_field(setup.id@),
        decimal(setup.revision as nat),
        hex_field(setup.name@),
        hex_field(setup.description@),
    ]);
    push_line(body, &fields);
    let r = setup.revision as u64;
    push_intent_refs(body, "setup-intent", &setup.id, r, &setup.intent_revisions);
    push_setup_refs(body, "setup-include", &setup.id, r, &setup.included_revisions);
    push_values(body, "setup-constraint", &setup.id, r, &setup.portable_constraints);
    push_values(body, "setup-secret-ref", &setup.id, r, &setup.required_secret_refs);
    push_values(body, "setup-hardware", &setup.id, r, &setup.hardware_hints);
}

pub open spec fn setup_sort_keys(v: Seq<PortableSetup>) -> Seq<(Seq<char>, u64)> {
    v.map_values(|s: PortableSetup| (s.id@, s.revision as u64))
}

/// The records of the setup revisions, ordered by identity and revision.
pub open spec fn setups_text(v: Seq<PortableSetup>) -> Seq<char> {
    joined(in_order(v, stable_order(setup_sort_keys(v))).map_values(|s: PortableSetup| setup_text(s)))
}

/// Writes the records of the setup revisions (see [`setups_text`]).
pub fn encode_setups(body: &mut Vec<char>, setups: &Vec<PortableSetup>)
    ensures
        final(body)@ == old(body)@ + setups_text(setups@),
{
    let ghost start = body@;
    let mut keys: Vec<(Vec<char>, u64)> = Vec::new();
    let mut k: usize = 0;
    while k < setups.len()
        invariant
            k <= setups@.len(),
            key_views(keys@) == setup_sort_keys(setups@).take(k as int),
        decreases setups@.len() - k,
    {
        let ghost before = key_views(keys@);
        keys.push((chars_of(setups[k].id.as_str()), setups[k].revision as u64));
        assert(key_views(keys@) =~= before.push((setups@[k as int].id@, setups@[k as int].revision as u64)));
        assert(setup_sort_keys(setups@).take(k as int + 1) =~= setup_sort_keys(setups@).take(k as int).push(
            (setups@[k as int].id@, setups@[k as int].revision as u64),
        ));
        k = k + 1;
    }
    assert(setup_sort_keys(setups@).take(k as int) =~= setup_sort_keys(setups@));
    let order = sort_order(&keys);
    proof {
        lemma_stable_order(setup_sort_keys(setups@), order@);
    }
    let ghost sl = in_order(setups@, order@).map_values(|s: PortableSetup| setup_text(s));
    let mut j: usize = 0;
    while j < order.len()
        invariant
            j <= order@.len(),
            order@.len() == setups@.len(),
            forall|a: int| 0 <= a < order@.len() ==> (#[trigger] order@[a]) < setups@.len(),
            sl == in_order(setups@, order@).map_values(|s: PortableSetup| setup_text(s)),
            body@ == start + joined(sl.take(j as int)),
        decreases order@.len() - j,
    {
        push_setup(body, &setups[order[j]]);
        assert(sl[j as int] == setup_text(setups@[order@[j as int] as int]));
        assert(sl.take(j as int + 1).drop_last() =~= sl.take(j as int));
        j = j + 1;
    }
    assert(sl.take(j as int) =~= sl);
}

/// A machine profile revision, as written.
pub struct PortableProfile {
    pub id: String,
    pub revision: u32,
    pub name: String,
    pub machine_class: MachineClass,
    pub intent_revisions: Vec<(String, u64)>,
    pub setup_revisions: Vec<(String, u32)>,
    pub portable_constraints: Vec<String>,
    pub hardware_hints: Vec<String>,
}

/// A root setup revision with everything it includes and references.
pub struct PortableSetupBundle {
    pub format_version: u16,
    pub root: (String, u32),
    pub setups: Vec<PortableSetup>,
    pub intents: Vec<PortableIntent>,
}

/// A profile revision with every setup and intent revision it reaches.
pub struct PortableProfileBundle {
    pub format_version: u16,
    pub profile: PortableProfile,
    pub setups: Vec<PortableSetup>,
    pub intents: Vec<PortableIntent>,
}

/// The records of the profile: its base, its intent and setup references
/// by identity and revision, then its values in order.
pub open spec fn profile_text(p: PortableProfile) -> Seq<char> {
    let id = p.id@;
    let rev = p.revision as nat;
    record_line(seq!["profile"@, hex_field(id), decimal(rev), hex_field(p.name@), p.machine_class.spec_name()])
        + joined(in_order(p.intent_revisions@, stable_order(intent_ref_keys(p.intent_revisions@))).map_values(
            |e: (String, u64)| reference_line("profile-intent"@, id, rev, e.0@, e.1 as nat),
        ))
        + joined(in_order(p.setup_revisions@, stable_order(setup_ref_keys(p.setup_revisions@))).map_values(
            |e: (String, u32)| reference_line("profile-setup"@, id, rev, e.0@, e.1 as nat),
        ))
        + value_lines("profile-constraint"@, id, rev, p.portable_constraints@)
        + value_lines("profile-hardware"@, id, rev, p.hardware_hints@)
}

pub open spec fn header_line(version: u16, kind: Seq<char>) -> Seq<char> {
    record_line(seq!["LINURA-LIBRARY"@, decimal(version as nat), kind])
}

/// The body of a setup artifact: header, root, intents, setups.
pub open spec fn setup_bundle_text(b: PortableSetupBundle) -> Seq<char> {
    header_line(b.format_version, "setup"@) + record_line(seq!["root-setup"@, hex_field(b.root.0@), decimal(b.root.1 as nat)])
        + intents_text(b.intents@) + setups_text(b.setups@)
}

/// The body of a profile artifact: header, profile, intents, setups.
pub open spec fn profile_bundle_text(b: PortableProfileBundle) -> Seq<char> {
    header_line(b.format_version, "profile"@) + profile_text(b.profile) + intents_text(b.intents@) + setups_text(b.setups@)
}

/// What the composition checks see of the setups.
pub open spec fn compositions(v: Seq<PortableSetup>) -> Seq<CompositionView> {
    v.map_values(|s: PortableSetup| CompositionView {
        key: (s.id@, s.revision),
        intents: intent_keys(s.intent_revisions@),
        includes: setup_keys(s.included_revisions@),
    })
}

pub open spec fn bundle_intent_keys(v: Seq<PortableIntent>) -> Seq<IntentKey> {
    v.map_values(|i: PortableIntent| (i.id@, i.revision))
}

/// The outcome of closing `body` with its digest line: the sealed bytes
/// when body and artifact fit the size bound, else a format error.
pub open spec fn sealed_outcome(body: Seq<char>, r: Result<Vec<u8>, LibraryError>) -> bool {
    if encode_utf8(body).len() <= MAX_PORTABLE_BYTES && encode_utf8(sealed_artifact(body)).len() <= MAX_PORTABLE_BYTES {
        r matches Ok(b) && b@ == encode_utf8(sealed_artifact(body))
    } else {
        r matches Err(e) && e is PortableFormat
    }
}

fn copy_intent_refs(v: &Vec<(String, u64)>) -> (out: Vec<(String, u64)>)
    ensures
        intent_keys(out@) == intent_keys(v@),
{
    let mut out: Vec<(String, u64)> = Vec::new();
    let mut k: usize = 0;
    while k < v.len()
        invariant
            k <= v@.len(),
            intent_keys(out@) == intent_keys(v@).take(k as int),
        decreases v@.len() - k,
    {
        let ghost before = intent_keys(out@);
        out.push((v[k].0.clone(), v[k].1));
        assert(intent_keys(out@) =~= before.push((v@[k as int].0@, v@[k as int].1)));
        assert(intent_keys(v@).take(k as int + 1) =~= intent_keys(v@).take(k as int).push((v@[k as int].0@, v@[k as int].1)));
        k = k + 1;
    }
    assert(intent_keys(v@).take(k as int) =~= intent_keys(v@));
    out
}

fn copy_setup_refs(v: &Vec<(String, u32)>) -> (out: Vec<(String, u32)>)
    ensures
        setup_keys(out@) == setup_keys(v@),
{
    let mut out: Vec<(String, u32)> = Vec::new();
    let mut k: usize = 0;
    while k < v.len()
        invariant
            k <= v@.len(),
            setup_keys(out@) == setup_keys(v@).take(k as int),
        decreases v@.len() - k,
    {
        let ghost before = setup_keys(out@);
        out.push((v[k].0.clone(), v[k].1));
        assert(setup_keys(out@) =~= before.push((v@[k as int].0@, v@[k as int].1)));
        assert(setup_keys(v@).take(k as int + 1) =~= setup_keys(v@).take(k as int).push((v@[k as int].0@, v@[k as int].1)));
        k = k + 1;
    }
    assert(setup_keys(v@).take(k as int) =~= setup_keys(v@));
    out
}

/// What the composition checks read of the setups.
pub(crate) fn composition_of(setups: &Vec<PortableSetup>) -> (out: Vec<SetupComposition>)
    ensures
        graph(out@) == compositions(setups@),
{
    let mut out: Vec<SetupComposition> = Vec::new();
    let mut k: usize = 0;
    while k < setups.len()
        invariant
            k <= setups@.len(),
            graph(out@) == compositions(setups@).take(k as int),
        decreases setups@.len() - k,
    {
        let ghost before = graph(out@);
        let c = SetupComposition {
            id: setups[k].id.clone(),
            revision: setups[k].revision,
            intent_revisions: copy_intent_refs(&setups[k].intent_revisions),
            included_revisions: copy_setup_refs(&setups[k].included_revisions),
        };
        assert(c@ == compositions(setups@)[k as int]);
        out.push(c);
        assert(graph(out@) =~= before.push(compositions(setups@)[k as int]));
        assert(compositions(setups@).take(k as int + 1) =~= compositions(setups@).take(k as int).push(compositions(setups@)[k as int]));
        k = k + 1;
    }
    assert(compositions(setups@).take(k as int) =~= compositions(setups@));
    out
}

pub(crate) fn intent_keys_of(intents: &Vec<PortableIntent>) -> (out: Vec<(String, u64)>)
    ensures
        intent_keys(out@) == bundle_intent_keys(intents@),
{
    let mut out: Vec<(String, u64)> = Vec::new();
    let mut k: usize = 0;
    while k < intents.len()
        invariant
            k <= intents@.len(),
            intent_keys(out@) == bundle_intent_keys(intents@).take(k as int),
        decreases intents@.len() - k,
    {
        let ghost before = intent_keys(out@);
        out.push((intents[k].id.clone(), intents[k].revision));
        assert(intent_keys(out@) =~= before.push((intents@[k as int].id@, intents@[k as int].revision)));
        assert(bundle_intent_keys(intents@).take(k as int + 1) =~= bundle_intent_keys(intents@).take(k as int).push(
            (intents@[k as int].id@, intents@[k as int].revision),
        ));
        k = k + 1;
    }
    assert(bundle_intent_keys(intents@).take(k as int) =~= bundle_intent_keys(intents@));
    out
}

fn push_header(body: &mut Vec<char>, version: u16, kind: &str)
    ensures
        final(body)@ == old(body)@ + header_line(version, kind@),
{
    let v = decimal_text(version as u64);
    let fields: [&str; 3] = ["LINURA-LIBRARY", v.as_str(), kind];
    assert(fields@.len() == 3);
    assert(fields@.map_values(|f: &str| f@) =~= seq!["LINURA-LIBRARY"@, decimal(version as nat), kind@]);
    push_line(body, &fields);
}

/// Every secret reference that a setup revision requires is well formed
/// (see [`secret_ref_ok`]).
pub open spec fn secret_refs_ok(setups: Seq<PortableSetup>) -> bool {
    forall|k: int, j: int|
        #![trigger setups[k].required_secret_refs@[j]]
        0 <= k < setups.len() && 0 <= j < setups[k].required_secret_refs@.len() ==> secret_ref_ok(
            setups[k].required_secret_refs@[j]@,
        )
}

/// Checks every secret reference the setup revisions require; a malformed
/// one makes the bundle a format error.
pub fn validate_bundle_secret_refs(setups: &Vec<PortableSetup>) -> (r: Result<(), LibraryError>)
    ensures
        r is Ok <==> secret_refs_ok(setups@),
        r matches Err(e) ==> e is PortableFormat,
{
    let mut k: usize = 0;
    while k < setups.len()
        invariant
            k <= setups@.len(),
            forall|a: int, j: int|
                #![trigger setups@[a].required_secret_refs@[j]]
                0 <= a < k && 0 <= j < setups@[a].required_secret_refs@.len() ==> secret_ref_ok(
                    setups@[a].required_secret_refs@[j]@,
                ),
        decreases setups@.len() - k,
    {
        let refs = &setups[k].required_secret_refs;
        let mut j: usize = 0;
        while j < refs.len()
            invariant
                k < setups@.len(),
                refs@ == setups@[k as int].required_secret_refs@,
                j <= refs@.len(),
                forall|a: int, i: int|
                    #![trigger setups@[a].required_secret_refs@[i]]
                    0 <= a < k && 0 <= i < setups@[a].required_secret_refs@.len() ==> secret_ref_ok(
                        setups@[a].required_secret_refs@[i]@,
                    ),
                forall|i: int| 0 <= i < j ==> secret_ref_ok((#[trigger] refs@[i])@),
            decreases refs@.len() - j,
        {
            if validate_secret_ref(refs[j].as_str()).is_err() {
                assert(!secret_ref_ok(setups@[k as int].required_secret_refs@[j as int]@));
                return Err(LibraryError::PortableFormat("setup requires a malformed secret reference".to_string()));
            }
            j = j + 1;
        }
        k = k + 1;
    }
    Ok(())
}

/// Checks a setup bundle and writes it as a sealed artifact: the root, the
/// intents and the setups, each list by identity and revision.
pub fn encode_setup_bundle(bundle: &PortableSetupBundle) -> (r: Result<Vec<u8>, LibraryError>)
    ensures
        bundle.format_version > PORTABLE_FORMAT_VERSION ==> r == Err::<Vec<u8>, LibraryError>(LibraryError::UnsupportedPortableFormat { found: bundle.format_version, supported: PORTABLE_FORMAT_VERSION }),
        bundle.format_version < PORTABLE_FORMAT_VERSION ==> (r matches Err(e) && e is PortableFormat),
        bundle.format_version == PORTABLE_FORMAT_VERSION ==> if setup_bundle_valid(compositions(bundle.setups@), (bundle.root.0@, bundle.root.1), bundle_intent_keys(bundle.intents@))
            && secret_refs_ok(bundle.setups@) {
            sealed_outcome(setup_bundle_text(*bundle), r)
        } else {
            r matches Err(e) && e is PortableFormat
        },
{
    let setups = composition_of(&bundle.setups);
    let intents = intent_keys_of(&bundle.intents);
    if let Err(e) = validate_setup_bundle(bundle.format_version, &bundle.root, &setups, &intents) {
        return Err(e);
    }
    if let Err(e) = validate_bundle_secret_refs(&bundle.setups) {
        return Err(e);
    }
    let mut body: Vec<char> = Vec::new();
    push_header(&mut body, bundle.format_version, "setup");
    let id = hex_text(bundle.root.0.as_str());
    let revision = decimal_text(bundle.root.1 as u64);
    let fields: [&str; 3] = ["root-setup", id.as_str(), revision.as_str()];
    assert(fields@.len() == 3);
    assert(fields@.map_values(|f: &str| f@) =~= seq!["root-setup"@, hex_field(bundle.root.0@), decimal(bundle.root.1 as nat)]);
    push_line(&mut body, &fields);
    encode_intents(&mut body, &bundle.intents);
    encode_setups(&mut body, &bundle.setups);
    assert(body@ =~= setup_bundle_text(*bundle));
    finish_artifact(string_of(&body))
}

/// Checks a profile bundle and writes it as a sealed artifact: the
/// profile, the intents and the setups, each list by identity and revision.
pub fn encode_profile_bundle(bundle: &PortableProfileBundle) -> (r: Result<Vec<u8>, LibraryError>)
    ensures
        bundle.format_version > PORTABLE_FORMAT_VERSION ==> r == Err::<Vec<u8>, LibraryError>(LibraryError::UnsupportedPortableFormat { found: bundle.format_version, supported: PORTABLE_FORMAT_VERSION }),
        bundle.format_version < PORTABLE_FORMAT_VERSION ==> (r matches Err(e) && e is PortableFormat),
        bundle.format_version == PORTABLE_FORMAT_VERSION ==> if profile_bundle_valid(
            compositions(bundle.setups@),
            bundle.profile.revision,
            intent_keys(bundle.profile.intent_revisions@),
            setup_keys(bundle.profile.setup_revisions@),
            bundle_intent_keys(bundle.intents@),
        ) && secret_refs_ok(bundle.setups@) {
            sealed_outcome(profile_bundle_text(*bundle), r)
        } else {
            r matches Err(e) && e is PortableFormat
        },
{
    let setups = composition_of(&bundle.setups);
    let intents = intent_keys_of(&bundle.intents);
    let profile = &bundle.profile;
    if let Err(e) = validate_profile_bundle(
        bundle.format_version,
        profile.revision,
        &profile.intent_revisions,
        &profile.setup_revisions,
        &setups,
        &intents,
    ) {
        return Err(e);
    }
    if let Err(e) = validate_bundle_secret_refs(&bundle.setups) {
        return Err(e);
    }
    let mut body: Vec<char> = Vec::new();
    push_header(&mut body, bundle.format_version, "profile");
    let id = hex_text(profile.id.as_str());
    let revision = decimal_text(profile.revision as u64);
    let name = hex_text(profile.name.as_str());
    let fields: [&str; 5] = ["profile", id.as_str(), revision.as_str(), name.as_str(), machine_class_str(profile.machine_class)];
    assert(fields@.len() == 5);
    assert(fields@.map_values(|f: &str| f@) =~= seq![
        "profile"@,
        hex_field(profile.id@),
        decimal(profile.revision as nat),
        hex_field(profile.name@),
        profile.machine_class.spec_name(),
    ]);
    push_line(&mut body, &fields);
    let r = profile.revision as u64;
    push_intent_refs(&mut body, "profile-intent", &profile.id, r, &profile.intent_revisions);
    push_setup_refs(&mut body, "profile-setup", &profile.id, r, &profile.setup_revisions);
    push_values(&mut body, "profile-constraint", &profile.id, r, &profile.portable_constraints);
    push_values(&mut body, "profile-hardware", &profile.id, r, &profile.hardware_hints);
    encode_intents(&mut body, &bundle.intents);
    encode_setups(&mut body, &bundle.setups);
    assert(body@ =~= profile_bundle_text(*bundle));
    finish_artifact(string_of(&body))
}

} // verus!

