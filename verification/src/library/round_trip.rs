//! What the portable writer emits reads back: the records of a written
//! intent or setup revision, applied to an artifact that does not hold it
//! yet, add exactly that revision.
use vstd::prelude::*;
use crate::library::composition::{intent_keys, profile_bundle_valid, setup_bundle_valid, setup_keys};
use crate::library::digest::sha256_of;
use crate::library::names::{ActorKind, RequirementKind};
use crate::library::portable::{header_verdict, law_artifact_round_trip, library_magic, sealed_artifact, ArtifactVerdict, MAX_PORTABLE_BYTES, MAX_RECORDS, PORTABLE_FORMAT_VERSION};
use crate::library::portable_writer::{bundle_intent_keys, compositions};
use crate::num::{lemma_decimal, lemma_parse_decimal};
use crate::order::{lemma_order_covers, lemma_stable_order_exists};
use crate::text::{lemma_lines_join, lines};
use vstd::utf8::encode_utf8;
use crate::library::portable::tab_joined;
use crate::library::portable_records::{apply_record, apply_records, current_intent, distinct_intents, flag_field, hex_field, intent_at, intent_slot, law_intent_record_reads_back, law_requirement_record_reads_back, law_supersedes_record_reads_back, tab_free, with_intent, ArtifactView, IntentBaseView, IntentView, current_setup, artifact_contents, empty_artifact, law_root_record_reads_back, lemma_split_tab_joined, law_profile_record_reads_back, law_profile_reference_records_read_back, law_profile_value_record_reads_back, with_profile, profile_values, with_profile_values, profile_value_record_name, ProfileValueKind, ProfileView, distinct_setups, insert_ordinal, law_setup_include_record_reads_back, law_setup_intent_record_reads_back, law_setup_record_reads_back, law_setup_value_record_reads_back, setup_at, setup_slot, setup_value_record_name, setup_values, with_setup, with_setup_values, SetupValueKind, SetupView};
use crate::library::portable_writer::{in_order, intent_text, joined, requirement_keys, requirement_line, stable_order, supersedes_line, text_keys, PortableIntent, PortableRequirement, intent_ref_keys, setup_ref_keys, PortableSetup, setup_text, reference_line, value_line, intent_sort_keys, setup_sort_keys, setup_bundle_text, PortableSetupBundle, profile_text, profile_bundle_text, PortableProfile, PortableProfileBundle};
use crate::library::records::IntentStatus;
use crate::num::decimal;
use crate::text::{join_lines, lemma_join_lines_push, plain_line};

verus! {

/// No line feed and no carriage return.
pub open spec fn line_safe(s: Seq<char>) -> bool {
    forall|i: int| 0 <= i < s.len() ==> s[i] != '\n' && s[i] != '\r'
}

proof fn lemma_tab_joined_safe(fields: Seq<Seq<char>>)
    requires
        forall|i: int| 0 <= i < fields.len() ==> line_safe(#[trigger] fields[i]),
    ensures
        line_safe(tab_joined(fields)),
        plain_line(tab_joined(fields)),
    decreases fields.len(),
{
    if fields.len() == 0 {
    } else if fields.len() == 1 {
        assert(line_safe(fields[0]));
    } else {
        let d = fields.drop_last();
        assert forall|i: int| 0 <= i < d.len() implies line_safe(#[trigger] d[i]) by {
            assert(d[i] == fields[i]);
        }
        lemma_tab_joined_safe(d);
        assert(line_safe(fields[fields.len() - 1]));
        let t = tab_joined(fields);
        assert(t == tab_joined(d) + seq!['\t'] + fields.last());
        assert forall|i: int| 0 <= i < t.len() implies t[i] != '\n' && t[i] != '\r' by {
            if i < tab_joined(d).len() {
                assert(t[i] == tab_joined(d)[i]);
            } else if i > tab_joined(d).len() {
                assert(t[i] == fields.last()[i - tab_joined(d).len() - 1]);
            }
        }
    }
    let t = tab_joined(fields);
    if t.len() > 0 {
        assert(t[t.len() - 1] != '\r');
    }
}

/// Record lines, one after another, are the records joined by line feeds.
proof fn lemma_joined_records(rs: Seq<Seq<char>>)
    ensures
        joined(rs.map_values(|r: Seq<char>| r + seq!['\n'])) == join_lines(rs),
    decreases rs.len(),
{
    if rs.len() > 0 {
        let d = rs.drop_last();
        lemma_joined_records(d);
        assert(rs.map_values(|r: Seq<char>| r + seq!['\n']).drop_last() =~= d.map_values(|r: Seq<char>| r + seq!['\n']));
        lemma_join_lines_push(d, rs.last());
        assert(d.push(rs.last()) =~= rs);
    }
}

proof fn lemma_join_lines_concat(a: Seq<Seq<char>>, b: Seq<Seq<char>>)
    ensures
        join_lines(a + b) == join_lines(a) + join_lines(b),
    decreases b.len(),
{
    if b.len() == 0 {
        assert(a + b =~= a);
    } else {
        let d = b.drop_last();
        lemma_join_lines_concat(a, d);
        lemma_join_lines_push(a + d, b.last());
        lemma_join_lines_push(d, b.last());
        assert((a + d).push(b.last()) =~= a + b);
        assert(d.push(b.last()) =~= b);
    }
}

/// Records applied one after another: the first part, then the rest.
proof fn lemma_apply_records_concat(m: ArtifactView, a: Seq<Seq<char>>, b: Seq<Seq<char>>)
    ensures
        apply_records(m, a + b) == match apply_records(m, a) {
            Some(n) => apply_records(n, b),
            None => None,
        },
    decreases a.len(),
{
    if a.len() == 0 {
        assert(a + b =~= b);
    } else {
        assert((a + b)[0] == a[0]);
        assert((a + b).skip(1) =~= a.skip(1) + b);
        match apply_record(m, a[0]) {
            Some(n) => {
                lemma_apply_records_concat(n, a.skip(1), b);
            },
            None => {},
        }
    }
}

proof fn lemma_apply_one(m: ArtifactView, x: Seq<char>)
    ensures
        apply_records(m, seq![x]) == apply_record(m, x),
{
    reveal_with_fuel(apply_records, 2);
    assert(seq![x].skip(1) =~= Seq::<Seq<char>>::empty());
    assert(seq![x][0] == x);
}

pub open spec fn with_intents(m: ArtifactView, s: Seq<IntentView>) -> ArtifactView {
    ArtifactView { intents: s, ..m }
}

pub open spec fn requirement_fields(i: PortableIntent, r: PortableRequirement) -> Seq<Seq<char>> {
    seq!["requirement"@, hex_field(i.id@), decimal(i.revision as nat), hex_field(r.id@), r.kind.spec_name(), hex_field(r.statement@)]
}

pub open spec fn supersedes_fields(i: PortableIntent, p: String) -> Seq<Seq<char>> {
    seq!["supersedes"@, hex_field(i.id@), decimal(i.revision as nat), hex_field(p@)]
}

pub open spec fn intent_base_fields(i: PortableIntent) -> Seq<Seq<char>> {
    seq![
        "intent"@,
        hex_field(i.id@),
        decimal(i.revision as nat),
        hex_field(i.actor_id@),
        i.actor_kind.spec_name(),
        flag_field(i.actor_interactive),
        i.status.spec_name(),
        hex_field(i.statement@),
    ]
}

pub open spec fn requirement_view(r: PortableRequirement) -> (Seq<char>, Seq<char>, Seq<char>) {
    (r.id@, r.kind.spec_name(), r.statement@)
}

/// What an artifact holds of a written intent revision.
pub open spec fn intent_view(i: PortableIntent) -> IntentView {
    IntentView {
        id: i.id@,
        revision: i.revision,
        base: Some(IntentBaseView {
            actor_id: i.actor_id@,
            actor_kind: i.actor_kind.spec_name(),
            actor_interactive: i.actor_interactive,
            status: i.status.spec_name(),
            statement: i.statement@,
        }),
        requirements: in_order(i.requirements@, stable_order(requirement_keys(i.requirements@))).map_values(
            |r: PortableRequirement| requirement_view(r),
        ),
        supersedes: in_order(i.supersedes@, stable_order(text_keys(i.supersedes@))).map_values(|p: String| p@),
    }
}

proof fn lemma_kind_names_tab_free(a: ActorKind, k: RequirementKind, s: IntentStatus)
    ensures
        tab_free(a.spec_name()),
        tab_free(k.spec_name()),
        tab_free(s.spec_name()),
{
    reveal_strlit("human");
    reveal_strlit("service");
    reveal_strlit("agent");
    reveal_strlit("remote");
    reveal_strlit("goal");
    reveal_strlit("constraint");
    reveal_strlit("preference");
    reveal_strlit("prohibition");
    reveal_strlit("proposed");
    reveal_strlit("active");
    reveal_strlit("suspended");
    reveal_strlit("superseded");
    reveal_strlit("retired");
}

/// Where the last entry is `id`@`revision`, its slot is the last one and
/// no entry is added for it.
proof fn lemma_last_intent(s: Seq<IntentView>, id: Seq<char>, revision: u64)
    requires
        distinct_intents(s),
        s.len() > 0,
        s.last().id == id,
        s.last().revision == revision,
    ensures
        with_intent(s, id, revision) == s,
        intent_slot(s, id, revision) == s.len() - 1,
{
    assert(intent_at(s, id, revision, s.len() - 1));
    let j = choose|j: int| intent_at(s, id, revision, j);
    if j != s.len() - 1 {
        assert(!(s[j].id == s[s.len() - 1].id && s[j].revision == s[s.len() - 1].revision));
    }
}

proof fn lemma_requirements_read_back(m: ArtifactView, pre: Seq<IntentView>, v: IntentView, i: PortableIntent, rs: Seq<PortableRequirement>)
    requires
        distinct_intents(pre.push(v)),
        v.id == i.id@,
        v.revision == i.revision,
        i.revision > 0,
    ensures
        apply_records(with_intents(m, pre.push(v)), rs.map_values(|r: PortableRequirement| tab_joined(requirement_fields(i, r))))
            == Some(with_intents(m, pre.push(IntentView { requirements: v.requirements + rs.map_values(|r: PortableRequirement| requirement_view(r)), ..v }))),
    decreases rs.len(),
{
    let recs = rs.map_values(|r: PortableRequirement| tab_joined(requirement_fields(i, r)));
    if rs.len() == 0 {
        assert(v.requirements + rs.map_values(|r: PortableRequirement| requirement_view(r)) =~= v.requirements);
        assert(recs =~= Seq::<Seq<char>>::empty());
    } else {
        let d = rs.drop_last();
        let last = rs.last();
        lemma_requirements_read_back(m, pre, v, i, d);
        let v1 = IntentView { requirements: v.requirements + d.map_values(|r: PortableRequirement| requirement_view(r)), ..v };
        assert(recs =~= d.map_values(|r: PortableRequirement| tab_joined(requirement_fields(i, r))) + seq![tab_joined(requirement_fields(i, last))]);
        lemma_apply_records_concat(
            with_intents(m, pre.push(v)),
            d.map_values(|r: PortableRequirement| tab_joined(requirement_fields(i, r))),
            seq![tab_joined(requirement_fields(i, last))],
        );
        let m1 = with_intents(m, pre.push(v1));
        assert forall|a: int, b: int| 0 <= a < b < pre.push(v1).len() implies !((#[trigger] pre.push(v1)[a]).id == (#[trigger] pre.push(v1)[b]).id
            && pre.push(v1)[a].revision == pre.push(v1)[b].revision) by {
            assert(!((pre.push(v)[a]).id == (pre.push(v)[b]).id && pre.push(v)[a].revision == pre.push(v)[b].revision));
        }
        lemma_last_intent(pre.push(v1), i.id@, i.revision);
        lemma_kind_names_tab_free(i.actor_kind, last.kind, i.status);
        law_requirement_record_reads_back(m1, i.id@, i.revision, last.id@, last.kind.spec_name(), last.statement@);
        assert(current_intent(m1, i.id@, i.revision) == v1);
        let v2 = IntentView { requirements: v1.requirements.push(requirement_view(last)), ..v1 };
        assert(pre.push(v1).update(pre.len() as int, v2) =~= pre.push(v2));
        assert(v2.requirements =~= v.requirements + rs.map_values(|r: PortableRequirement| requirement_view(r)));
        lemma_apply_one(m1, tab_joined(requirement_fields(i, last)));
    }
}

proof fn lemma_supersedes_read_back(m: ArtifactView, pre: Seq<IntentView>, v: IntentView, i: PortableIntent, ps: Seq<String>)
    requires
        distinct_intents(pre.push(v)),
        v.id == i.id@,
        v.revision == i.revision,
        i.revision > 0,
    ensures
        apply_records(with_intents(m, pre.push(v)), ps.map_values(|p: String| tab_joined(supersedes_fields(i, p))))
            == Some(with_intents(m, pre.push(IntentView { supersedes: v.supersedes + ps.map_values(|p: String| p@), ..v }))),
    decreases ps.len(),
{
    let recs = ps.map_values(|p: String| tab_joined(supersedes_fields(i, p)));
    if ps.len() == 0 {
        assert(v.supersedes + ps.map_values(|p: String| p@) =~= v.supersedes);
        assert(recs =~= Seq::<Seq<char>>::empty());
    } else {
        let d = ps.drop_last();
        let last = ps.last();
        lemma_supersedes_read_back(m, pre, v, i, d);
        let v1 = IntentView { supersedes: v.supersedes + d.map_values(|p: String| p@), ..v };
        assert(recs =~= d.map_values(|p: String| tab_joined(supersedes_fields(i, p))) + seq![tab_joined(supersedes_fields(i, last))]);
        lemma_apply_records_concat(
            with_intents(m, pre.push(v)),
            d.map_values(|p: String| tab_joined(supersedes_fields(i, p))),
            seq![tab_joined(supersedes_fields(i, last))],
        );
        let m1 = with_intents(m, pre.push(v1));
        assert forall|a: int, b: int| 0 <= a < b < pre.push(v1).len() implies !((#[trigger] pre.push(v1)[a]).id == (#[trigger] pre.push(v1)[b]).id
            && pre.push(v1)[a].revision == pre.push(v1)[b].revision) by {
            assert(!((pre.push(v)[a]).id == (pre.push(v)[b]).id && pre.push(v)[a].revision == pre.push(v)[b].revision));
        }
        lemma_last_intent(pre.push(v1), i.id@, i.revision);
        law_supersedes_record_reads_back(m1, i.id@, i.revision, last@);
        assert(current_intent(m1, i.id@, i.revision) == v1);
        let v2 = IntentView { supersedes: v1.supersedes.push(last@), ..v1 };
        assert(pre.push(v1).update(pre.len() as int, v2) =~= pre.push(v2));
        assert(v2.supersedes =~= v.supersedes + ps.map_values(|p: String| p@));
        lemma_apply_one(m1, tab_joined(supersedes_fields(i, last)));
    }
}

/// The records of a written intent revision: its base, its requirements,
/// then what it supersedes, in the writer's order.
pub open spec fn intent_records(i: PortableIntent) -> Seq<Seq<char>> {
    seq![tab_joined(intent_base_fields(i))] + in_order(i.requirements@, stable_order(requirement_keys(i.requirements@))).map_values(
        |r: PortableRequirement| tab_joined(requirement_fields(i, r)),
    ) + in_order(i.supersedes@, stable_order(text_keys(i.supersedes@))).map_values(|p: String| tab_joined(supersedes_fields(i, p)))
}

/// The records of a written intent revision read back as that revision,
/// added after the entries of an artifact that does not hold it yet.
pub proof fn law_intent_reads_back(m: ArtifactView, pre: Seq<IntentView>, i: PortableIntent)
    requires
        distinct_intents(pre),
        !exists|j: int| intent_at(pre, i.id@, i.revision, j),
        i.revision > 0,
    ensures
        apply_records(with_intents(m, pre), intent_records(i)) == Some(with_intents(m, pre.push(intent_view(i)))),
{
    let rs = in_order(i.requirements@, stable_order(requirement_keys(i.requirements@)));
    let ps = in_order(i.supersedes@, stable_order(text_keys(i.supersedes@)));
    let base_rec = seq![tab_joined(intent_base_fields(i))];
    let req_recs = rs.map_values(|r: PortableRequirement| tab_joined(requirement_fields(i, r)));
    let sup_recs = ps.map_values(|p: String| tab_joined(supersedes_fields(i, p)));
    let m0 = with_intents(m, pre);
    lemma_kind_names_tab_free(i.actor_kind, RequirementKind::Goal, i.status);
    law_intent_record_reads_back(
        m0,
        i.id@,
        i.revision,
        i.actor_id@,
        i.actor_kind.spec_name(),
        i.actor_interactive,
        i.status.spec_name(),
        i.statement@,
    );
    let empty = IntentView { id: i.id@, revision: i.revision, base: None, requirements: seq![], supersedes: seq![] };
    assert(with_intent(pre, i.id@, i.revision) == pre.push(empty));
    assert(intent_slot(pre, i.id@, i.revision) == pre.len());
    let base = IntentBaseView {
        actor_id: i.actor_id@,
        actor_kind: i.actor_kind.spec_name(),
        actor_interactive: i.actor_interactive,
        status: i.status.spec_name(),
        statement: i.statement@,
    };
    let v0 = IntentView { base: Some(base), ..empty };
    assert(pre.push(empty).update(pre.len() as int, v0) =~= pre.push(v0));
    lemma_apply_one(m0, tab_joined(intent_base_fields(i)));
    assert forall|a: int, b: int| 0 <= a < b < pre.push(v0).len() implies !((#[trigger] pre.push(v0)[a]).id == (#[trigger] pre.push(v0)[b]).id
        && pre.push(v0)[a].revision == pre.push(v0)[b].revision) by {
        if b == pre.len() {
            assert(!intent_at(pre, i.id@, i.revision, a));
        } else {
            assert(pre.push(v0)[a] == pre[a] && pre.push(v0)[b] == pre[b]);
        }
    }
    lemma_requirements_read_back(m, pre, v0, i, rs);
    let v1 = IntentView { requirements: v0.requirements + rs.map_values(|r: PortableRequirement| requirement_view(r)), ..v0 };
    assert forall|a: int, b: int| 0 <= a < b < pre.push(v1).len() implies !((#[trigger] pre.push(v1)[a]).id == (#[trigger] pre.push(v1)[b]).id
        && pre.push(v1)[a].revision == pre.push(v1)[b].revision) by {
        assert(!((pre.push(v0)[a]).id == (pre.push(v0)[b]).id && pre.push(v0)[a].revision == pre.push(v0)[b].revision));
    }
    lemma_supersedes_read_back(m, pre, v1, i, ps);
    let v2 = IntentView { supersedes: v1.supersedes + ps.map_values(|p: String| p@), ..v1 };
    assert(v2 =~= intent_view(i));
    lemma_apply_records_concat(m0, base_rec, req_recs);
    lemma_apply_records_concat(m0, base_rec + req_recs, sup_recs);
    assert(intent_records(i) == base_rec + req_recs + sup_recs);
}

pub open spec fn with_setups(m: ArtifactView, s: Seq<SetupView>) -> ArtifactView {
    ArtifactView { setups: s, ..m }
}

/// Values as the reader keeps them: each under its position.
pub open spec fn ordinal_values(vs: Seq<String>) -> Seq<(usize, Seq<char>)> {
    Seq::new(vs.len(), |j: int| (j as usize, vs[j]@))
}

pub open spec fn setup_intent_fields(s: PortableSetup, e: (String, u64)) -> Seq<Seq<char>> {
    seq!["setup-intent"@, hex_field(s.id@), decimal(s.revision as nat), hex_field(e.0@), decimal(e.1 as nat)]
}

pub open spec fn setup_include_fields(s: PortableSetup, e: (String, u32)) -> Seq<Seq<char>> {
    seq!["setup-include"@, hex_field(s.id@), decimal(s.revision as nat), hex_field(e.0@), decimal(e.1 as nat)]
}

pub open spec fn setup_value_fields(s: PortableSetup, kind: SetupValueKind, j: int, value: String) -> Seq<Seq<char>> {
    seq![setup_value_record_name(kind), hex_field(s.id@), decimal(s.revision as nat), decimal(j as nat), hex_field(value@)]
}

pub open spec fn kind_values(s: PortableSetup, kind: SetupValueKind) -> Seq<String> {
    match kind {
        SetupValueKind::Constraint => s.portable_constraints@,
        SetupValueKind::SecretRef => s.required_secret_refs@,
        SetupValueKind::Hardware => s.hardware_hints@,
    }
}

pub open spec fn value_records(s: PortableSetup, kind: SetupValueKind) -> Seq<Seq<char>> {
    Seq::new(kind_values(s, kind).len(), |j: int| tab_joined(setup_value_fields(s, kind, j, kind_values(s, kind)[j])))
}

/// What an artifact holds of a written setup revision.
pub open spec fn setup_view(s: PortableSetup) -> SetupView {
    SetupView {
        id: s.id@,
        revision: s.revision,
        base: Some((s.name@, s.description@)),
        intents: in_order(s.intent_revisions@, stable_order(intent_ref_keys(s.intent_revisions@))).map_values(
            |e: (String, u64)| (e.0@, e.1),
        ),
        includes: in_order(s.included_revisions@, stable_order(setup_ref_keys(s.included_revisions@))).map_values(
            |e: (String, u32)| (e.0@, e.1),
        ),
        constraints: ordinal_values(s.portable_constraints@),
        secret_refs: ordinal_values(s.required_secret_refs@),
        hardware_hints: ordinal_values(s.hardware_hints@),
    }
}

/// The records of a written setup revision, in the writer's order.
pub open spec fn setup_records(s: PortableSetup) -> Seq<Seq<char>> {
    seq![tab_joined(seq!["setup"@, hex_field(s.id@), decimal(s.revision as nat), hex_field(s.name@), hex_field(s.description@)])]
        + in_order(s.intent_revisions@, stable_order(intent_ref_keys(s.intent_revisions@))).map_values(
        |e: (String, u64)| tab_joined(setup_intent_fields(s, e)),
    ) + in_order(s.included_revisions@, stable_order(setup_ref_keys(s.included_revisions@))).map_values(
        |e: (String, u32)| tab_joined(setup_include_fields(s, e)),
    ) + value_records(s, SetupValueKind::Constraint) + value_records(s, SetupValueKind::SecretRef) + value_records(
        s,
        SetupValueKind::Hardware,
    )
}

proof fn lemma_last_setup(q: Seq<SetupView>, id: Seq<char>, revision: u32)
    requires
        distinct_setups(q),
        q.len() > 0,
        q.last().id == id,
        q.last().revision == revision,
    ensures
        with_setup(q, id, revision) == q,
        setup_slot(q, id, revision) == q.len() - 1,
{
    assert(setup_at(q, id, revision, q.len() - 1));
    let j = choose|j: int| setup_at(q, id, revision, j);
    if j != q.len() - 1 {
        assert(!(q[j].id == q[q.len() - 1].id && q[j].revision == q[q.len() - 1].revision));
    }
}

proof fn lemma_distinct_replace_last(pre: Seq<SetupView>, v: SetupView, w: SetupView)
    requires
        distinct_setups(pre.push(v)),
        w.id == v.id,
        w.revision == v.revision,
    ensures
        distinct_setups(pre.push(w)),
{
    assert forall|a: int, b: int| 0 <= a < b < pre.push(w).len() implies !((#[trigger] pre.push(w)[a]).id == (#[trigger] pre.push(w)[b]).id
        && pre.push(w)[a].revision == pre.push(w)[b].revision) by {
        assert(!((pre.push(v)[a]).id == (pre.push(v)[b]).id && pre.push(v)[a].revision == pre.push(v)[b].revision));
    }
}

proof fn lemma_setup_intents_read_back(m: ArtifactView, pre: Seq<SetupView>, v: SetupView, s: PortableSetup, es: Seq<(String, u64)>)
    requires
        distinct_setups(pre.push(v)),
        v.id == s.id@,
        v.revision == s.revision,
        s.revision > 0,
        forall|k: int| 0 <= k < es.len() ==> (#[trigger] es[k]).1 > 0,
    ensures
        apply_records(with_setups(m, pre.push(v)), es.map_values(|e: (String, u64)| tab_joined(setup_intent_fields(s, e))))
            == Some(with_setups(m, pre.push(SetupView { intents: v.intents + es.map_values(|e: (String, u64)| (e.0@, e.1)), ..v }))),
    decreases es.len(),
{
    let recs = es.map_values(|e: (String, u64)| tab_joined(setup_intent_fields(s, e)));
    if es.len() == 0 {
        assert(v.intents + es.map_values(|e: (String, u64)| (e.0@, e.1)) =~= v.intents);
        assert(recs =~= Seq::<Seq<char>>::empty());
    } else {
        let d = es.drop_last();
        let last = es.last();
        assert(last.1 > 0);
        lemma_setup_intents_read_back(m, pre, v, s, d);
        let v1 = SetupView { intents: v.intents + d.map_values(|e: (String, u64)| (e.0@, e.1)), ..v };
        assert(recs =~= d.map_values(|e: (String, u64)| tab_joined(setup_intent_fields(s, e))) + seq![tab_joined(setup_intent_fields(s, last))]);
        lemma_apply_records_concat(
            with_setups(m, pre.push(v)),
            d.map_values(|e: (String, u64)| tab_joined(setup_intent_fields(s, e))),
            seq![tab_joined(setup_intent_fields(s, last))],
        );
        let m1 = with_setups(m, pre.push(v1));
        lemma_distinct_replace_last(pre, v, v1);
        lemma_last_setup(pre.push(v1), s.id@, s.revision);
        law_setup_intent_record_reads_back(m1, s.id@, s.revision, last.0@, last.1);
        assert(current_setup(m1, s.id@, s.revision) == v1);
        let v2 = SetupView { intents: v1.intents.push((last.0@, last.1)), ..v1 };
        assert(pre.push(v1).update(pre.len() as int, v2) =~= pre.push(v2));
        assert(v2.intents =~= v.intents + es.map_values(|e: (String, u64)| (e.0@, e.1)));
        lemma_apply_one(m1, tab_joined(setup_intent_fields(s, last)));
    }
}

proof fn lemma_setup_includes_read_back(m: ArtifactView, pre: Seq<SetupView>, v: SetupView, s: PortableSetup, es: Seq<(String, u32)>)
    requires
        distinct_setups(pre.push(v)),
        v.id == s.id@,
        v.revision == s.revision,
        s.revision > 0,
        forall|k: int| 0 <= k < es.len() ==> (#[trigger] es[k]).1 > 0,
    ensures
        apply_records(with_setups(m, pre.push(v)), es.map_values(|e: (String, u32)| tab_joined(setup_include_fields(s, e))))
            == Some(with_setups(m, pre.push(SetupView { includes: v.includes + es.map_values(|e: (String, u32)| (e.0@, e.1)), ..v }))),
    decreases es.len(),
{
    let recs = es.map_values(|e: (String, u32)| tab_joined(setup_include_fields(s, e)));
    if es.len() == 0 {
        assert(v.includes + es.map_values(|e: (String, u32)| (e.0@, e.1)) =~= v.includes);
        assert(recs =~= Seq::<Seq<char>>::empty());
    } else {
        let d = es.drop_last();
        let last = es.last();
        assert(last.1 > 0);
        lemma_setup_includes_read_back(m, pre, v, s, d);
        let v1 = SetupView { includes: v.includes + d.map_values(|e: (String, u32)| (e.0@, e.1)), ..v };
        assert(recs =~= d.map_values(|e: (String, u32)| tab_joined(setup_include_fields(s, e))) + seq![tab_joined(setup_include_fields(s, last))]);
        lemma_apply_records_concat(
            with_setups(m, pre.push(v)),
            d.map_values(|e: (String, u32)| tab_joined(setup_include_fields(s, e))),
            seq![tab_joined(setup_include_fields(s, last))],
        );
        let m1 = with_setups(m, pre.push(v1));
        lemma_distinct_replace_last(pre, v, v1);
        lemma_last_setup(pre.push(v1), s.id@, s.revision);
        law_setup_include_record_reads_back(m1, s.id@, s.revision, last.0@, last.1);
        assert(current_setup(m1, s.id@, s.revision) == v1);
        let v2 = SetupView { includes: v1.includes.push((last.0@, last.1)), ..v1 };
        assert(pre.push(v1).update(pre.len() as int, v2) =~= pre.push(v2));
        assert(v2.includes =~= v.includes + es.map_values(|e: (String, u32)| (e.0@, e.1)));
        lemma_apply_one(m1, tab_joined(setup_include_fields(s, last)));
    }
}

proof fn lemma_insert_ordinal_last(q: Seq<(usize, Seq<char>)>, key: usize, value: Seq<char>)
    requires
        forall|j: int| 0 <= j < q.len() ==> (#[trigger] q[j]).0 < key,
    ensures
        insert_ordinal(q, key, value) == Some(q.push((key, value))),
    decreases q.len(),
{
    if q.len() > 0 {
        let t = q.skip(1);
        assert forall|j: int| 0 <= j < t.len() implies (#[trigger] t[j]).0 < key by {
            assert(t[j] == q[j + 1]);
        }
        lemma_insert_ordinal_last(t, key, value);
        assert(q[0].0 < key);
        assert(seq![q[0]] + t.push((key, value)) =~= q.push((key, value)));
    } else {
        assert(seq![(key, value)] =~= q.push((key, value)));
    }
}

proof fn lemma_setup_values_read_back(m: ArtifactView, pre: Seq<SetupView>, v: SetupView, s: PortableSetup, kind: SetupValueKind, k: int)
    requires
        distinct_setups(pre.push(v)),
        v.id == s.id@,
        v.revision == s.revision,
        s.revision > 0,
        setup_values(v, kind).len() == 0,
        0 <= k <= kind_values(s, kind).len(),
    ensures
        apply_records(with_setups(m, pre.push(v)), value_records(s, kind).take(k))
            == Some(with_setups(m, pre.push(with_setup_values(v, kind, ordinal_values(kind_values(s, kind)).take(k))))),
    decreases k,
{
    let vs = kind_values(s, kind);
    if k == 0 {
        assert(value_records(s, kind).take(0) =~= Seq::<Seq<char>>::empty());
        assert(ordinal_values(vs).take(0) =~= Seq::<(usize, Seq<char>)>::empty());
        assert(setup_values(v, kind) =~= ordinal_values(vs).take(0));
        assert(with_setup_values(v, kind, ordinal_values(vs).take(0)) =~= v);
    } else {
        lemma_setup_values_read_back(m, pre, v, s, kind, k - 1);
        let v1 = with_setup_values(v, kind, ordinal_values(vs).take(k - 1));
        let rec = tab_joined(setup_value_fields(s, kind, k - 1, vs[k - 1]));
        assert(value_records(s, kind).take(k) =~= value_records(s, kind).take(k - 1) + seq![rec]);
        lemma_apply_records_concat(with_setups(m, pre.push(v)), value_records(s, kind).take(k - 1), seq![rec]);
        let m1 = with_setups(m, pre.push(v1));
        lemma_distinct_replace_last(pre, v, v1);
        lemma_last_setup(pre.push(v1), s.id@, s.revision);
        assert(vs.len() <= usize::MAX) by {
            match kind {
                SetupValueKind::Constraint => assert(s.portable_constraints@.len() == s.portable_constraints.len()),
                SetupValueKind::SecretRef => assert(s.required_secret_refs@.len() == s.required_secret_refs.len()),
                SetupValueKind::Hardware => assert(s.hardware_hints@.len() == s.hardware_hints.len()),
            }
        }
        law_setup_value_record_reads_back(m1, s.id@, s.revision, kind, (k - 1) as usize, vs[k - 1]@);
        assert(current_setup(m1, s.id@, s.revision) == v1);
        assert(setup_values(v1, kind) =~= ordinal_values(vs).take(k - 1));
        assert forall|j: int| 0 <= j < setup_values(v1, kind).len() implies (#[trigger] setup_values(v1, kind)[j]).0 < (k - 1) as usize by {
            assert(setup_values(v1, kind)[j] == (j as usize, vs[j]@));
        }
        lemma_insert_ordinal_last(setup_values(v1, kind), (k - 1) as usize, vs[k - 1]@);
        let t = setup_values(v1, kind).push(((k - 1) as usize, vs[k - 1]@));
        assert(t =~= ordinal_values(vs).take(k));
        let v2 = with_setup_values(v1, kind, t);
        assert(v2 =~= with_setup_values(v, kind, ordinal_values(vs).take(k)));
        assert(pre.push(v1).update(pre.len() as int, v2) =~= pre.push(v2));
        assert(rec == tab_joined(seq![setup_value_record_name(kind), hex_field(s.id@), decimal(s.revision as nat), decimal(((k - 1) as usize) as nat), hex_field(vs[k - 1]@)]));
        lemma_apply_one(m1, rec);
    }
}

/// The records of a written setup revision read back as that revision,
/// added after the entries of an artifact that does not hold it yet,
/// when its revision and those it references are positive.
pub proof fn law_setup_reads_back(m: ArtifactView, pre: Seq<SetupView>, s: PortableSetup)
    requires
        distinct_setups(pre),
        !exists|j: int| setup_at(pre, s.id@, s.revision, j),
        s.revision > 0,
        forall|k: int| 0 <= k < s.intent_revisions@.len() ==> (#[trigger] s.intent_revisions@[k]).1 > 0,
        forall|k: int| 0 <= k < s.included_revisions@.len() ==> (#[trigger] s.included_revisions@[k]).1 > 0,
    ensures
        apply_records(with_setups(m, pre), setup_records(s)) == Some(with_setups(m, pre.push(setup_view(s)))),
{
    let io = stable_order(intent_ref_keys(s.intent_revisions@));
    let no = stable_order(setup_ref_keys(s.included_revisions@));
    let es = in_order(s.intent_revisions@, io);
    let ns = in_order(s.included_revisions@, no);
    assert(s.intent_revisions@.len() == s.intent_revisions.len());
    assert(s.included_revisions@.len() == s.included_revisions.len());
    crate::order::lemma_stable_order_exists(intent_ref_keys(s.intent_revisions@));
    crate::order::lemma_stable_order_exists(setup_ref_keys(s.included_revisions@));
    assert forall|k: int| 0 <= k < es.len() implies (#[trigger] es[k]).1 > 0 by {
        assert(es[k] == s.intent_revisions@[io[k] as int]);
    }
    assert forall|k: int| 0 <= k < ns.len() implies (#[trigger] ns[k]).1 > 0 by {
        assert(ns[k] == s.included_revisions@[no[k] as int]);
    }
    let base_rec = seq![tab_joined(seq!["setup"@, hex_field(s.id@), decimal(s.revision as nat), hex_field(s.name@), hex_field(s.description@)])];
    let intent_recs = es.map_values(|e: (String, u64)| tab_joined(setup_intent_fields(s, e)));
    let include_recs = ns.map_values(|e: (String, u32)| tab_joined(setup_include_fields(s, e)));
    let m0 = with_setups(m, pre);
    law_setup_record_reads_back(m0, s.id@, s.revision, s.name@, s.description@);
    let empty = SetupView {
        id: s.id@,
        revision: s.revision,
        base: None,
        intents: seq![],
        includes: seq![],
        constraints: seq![],
        secret_refs: seq![],
        hardware_hints: seq![],
    };
    assert(with_setup(pre, s.id@, s.revision) == pre.push(empty));
    assert(setup_slot(pre, s.id@, s.revision) == pre.len());
    let v0 = SetupView { base: Some((s.name@, s.description@)), ..empty };
    assert(pre.push(empty).update(pre.len() as int, v0) =~= pre.push(v0));
    lemma_apply_one(m0, base_rec[0]);
    assert forall|a: int, b: int| 0 <= a < b < pre.push(v0).len() implies !((#[trigger] pre.push(v0)[a]).id == (#[trigger] pre.push(v0)[b]).id
        && pre.push(v0)[a].revision == pre.push(v0)[b].revision) by {
        if b == pre.len() {
            assert(!setup_at(pre, s.id@, s.revision, a));
        } else {
            assert(pre.push(v0)[a] == pre[a] && pre.push(v0)[b] == pre[b]);
        }
    }
    lemma_setup_intents_read_back(m, pre, v0, s, es);
    let v1 = SetupView { intents: v0.intents + es.map_values(|e: (String, u64)| (e.0@, e.1)), ..v0 };
    lemma_distinct_replace_last(pre, v0, v1);
    lemma_setup_includes_read_back(m, pre, v1, s, ns);
    let v2 = SetupView { includes: v1.includes + ns.map_values(|e: (String, u32)| (e.0@, e.1)), ..v1 };
    lemma_distinct_replace_last(pre, v1, v2);
    let cs = kind_values(s, SetupValueKind::Constraint);
    let rs = kind_values(s, SetupValueKind::SecretRef);
    let hs = kind_values(s, SetupValueKind::Hardware);
    lemma_setup_values_read_back(m, pre, v2, s, SetupValueKind::Constraint, cs.len() as int);
    let v3 = with_setup_values(v2, SetupValueKind::Constraint, ordinal_values(cs).take(cs.len() as int));
    lemma_distinct_replace_last(pre, v2, v3);
    lemma_setup_values_read_back(m, pre, v3, s, SetupValueKind::SecretRef, rs.len() as int);
    let v4 = with_setup_values(v3, SetupValueKind::SecretRef, ordinal_values(rs).take(rs.len() as int));
    lemma_distinct_replace_last(pre, v3, v4);
    lemma_setup_values_read_back(m, pre, v4, s, SetupValueKind::Hardware, hs.len() as int);
    let v5 = with_setup_values(v4, SetupValueKind::Hardware, ordinal_values(hs).take(hs.len() as int));
    assert(value_records(s, SetupValueKind::Constraint).take(cs.len() as int) =~= value_records(s, SetupValueKind::Constraint));
    assert(value_records(s, SetupValueKind::SecretRef).take(rs.len() as int) =~= value_records(s, SetupValueKind::SecretRef));
    assert(value_records(s, SetupValueKind::Hardware).take(hs.len() as int) =~= value_records(s, SetupValueKind::Hardware));
    assert(ordinal_values(cs).take(cs.len() as int) =~= ordinal_values(cs));
    assert(ordinal_values(rs).take(rs.len() as int) =~= ordinal_values(rs));
    assert(ordinal_values(hs).take(hs.len() as int) =~= ordinal_values(hs));
    assert(v5 =~= setup_view(s));
    let a1 = base_rec + intent_recs;
    let a2 = a1 + include_recs;
    let a3 = a2 + value_records(s, SetupValueKind::Constraint);
    let a4 = a3 + value_records(s, SetupValueKind::SecretRef);
    lemma_apply_records_concat(m0, base_rec, intent_recs);
    lemma_apply_records_concat(m0, a1, include_recs);
    lemma_apply_records_concat(m0, a2, value_records(s, SetupValueKind::Constraint));
    lemma_apply_records_concat(m0, a3, value_records(s, SetupValueKind::SecretRef));
    lemma_apply_records_concat(m0, a4, value_records(s, SetupValueKind::Hardware));
    assert(setup_records(s) == a4 + value_records(s, SetupValueKind::Hardware));
}

/// The records of each group, one group after another.
pub open spec fn flatten(ss: Seq<Seq<Seq<char>>>) -> Seq<Seq<char>>
    decreases ss.len(),
{
    if ss.len() == 0 {
        seq![]
    } else {
        flatten(ss.drop_last()) + ss.last()
    }
}

proof fn lemma_join_flatten(ss: Seq<Seq<Seq<char>>>)
    ensures
        join_lines(flatten(ss)) == joined(ss.map_values(|rs: Seq<Seq<char>>| join_lines(rs))),
    decreases ss.len(),
{
    if ss.len() > 0 {
        lemma_join_flatten(ss.drop_last());
        lemma_join_lines_concat(flatten(ss.drop_last()), ss.last());
        assert(ss.map_values(|rs: Seq<Seq<char>>| join_lines(rs)).drop_last() =~= ss.drop_last().map_values(
            |rs: Seq<Seq<char>>| join_lines(rs),
        ));
    } else {
        assert(join_lines(Seq::<Seq<char>>::empty()) == Seq::<char>::empty());
    }
}

proof fn lemma_join_one(x: Seq<char>)
    ensures
        join_lines(seq![x]) == x + seq!['\n'],
{
    assert(seq![x].skip(1) =~= Seq::<Seq<char>>::empty());
    assert(join_lines(Seq::<Seq<char>>::empty()) == Seq::<char>::empty());
    assert(join_lines(seq![x]) =~= x + seq!['\n']);
}

/// The writer's text of an intent revision is its records, one per line.
proof fn lemma_intent_text_records(i: PortableIntent)
    ensures
        intent_text(i) == join_lines(intent_records(i)),
{
    let rq = in_order(i.requirements@, stable_order(requirement_keys(i.requirements@)));
    let sp = in_order(i.supersedes@, stable_order(text_keys(i.supersedes@)));
    let base = seq![tab_joined(intent_base_fields(i))];
    let rr = rq.map_values(|r: PortableRequirement| tab_joined(requirement_fields(i, r)));
    let sr = sp.map_values(|p: String| tab_joined(supersedes_fields(i, p)));
    lemma_join_one(tab_joined(intent_base_fields(i)));
    lemma_joined_records(rr);
    lemma_joined_records(sr);
    assert(rq.map_values(|r: PortableRequirement| requirement_line(i, r)) =~= rr.map_values(|r: Seq<char>| r + seq!['\n']));
    assert(sp.map_values(|p: String| supersedes_line(i, p)) =~= sr.map_values(|r: Seq<char>| r + seq!['\n']));
    lemma_join_lines_concat(base, rr);
    lemma_join_lines_concat(base + rr, sr);
}

/// The writer's value lines of a setup revision are its value records,
/// each closed by a line feed.
proof fn lemma_setup_value_lines(s: PortableSetup)
    ensures
        Seq::new(s.portable_constraints@.len(), |j: int| value_line("setup-constraint"@, s.id@, s.revision as nat, j as nat, s.portable_constraints@[j]@))
        =~= value_records(s, SetupValueKind::Constraint).map_values(|x: Seq<char>| x + seq!['\n']),
        Seq::new(s.required_secret_refs@.len(), |j: int| value_line("setup-secret-ref"@, s.id@, s.revision as nat, j as nat, s.required_secret_refs@[j]@))
        =~= value_records(s, SetupValueKind::SecretRef).map_values(|x: Seq<char>| x + seq!['\n']),
        Seq::new(s.hardware_hints@.len(), |j: int| value_line("setup-hardware"@, s.id@, s.revision as nat, j as nat, s.hardware_hints@[j]@))
        =~= value_records(s, SetupValueKind::Hardware).map_values(|x: Seq<char>| x + seq!['\n']),
{
    assert(Seq::new(s.portable_constraints@.len(), |j: int| value_line("setup-constraint"@, s.id@, s.revision as nat, j as nat, s.portable_constraints@[j]@))
        =~= value_records(s, SetupValueKind::Constraint).map_values(|x: Seq<char>| x + seq!['\n']));
    assert(Seq::new(s.required_secret_refs@.len(), |j: int| value_line("setup-secret-ref"@, s.id@, s.revision as nat, j as nat, s.required_secret_refs@[j]@))
        =~= value_records(s, SetupValueKind::SecretRef).map_values(|x: Seq<char>| x + seq!['\n']));
    assert(Seq::new(s.hardware_hints@.len(), |j: int| value_line("setup-hardware"@, s.id@, s.revision as nat, j as nat, s.hardware_hints@[j]@))
        =~= value_records(s, SetupValueKind::Hardware).map_values(|x: Seq<char>| x + seq!['\n']));
}

/// The writer's text of a setup revision is its records, one per line.
#[verifier::spinoff_prover]
#[verifier::rlimit(40)]
proof fn lemma_setup_text_records(s: PortableSetup)
    ensures
        setup_text(s) == join_lines(setup_records(s)),
{
    let id = s.id@;
    let rev = s.revision as nat;
    let es = in_order(s.intent_revisions@, stable_order(intent_ref_keys(s.intent_revisions@)));
    let ns = in_order(s.included_revisions@, stable_order(setup_ref_keys(s.included_revisions@)));
    let base_fields = seq!["setup"@, hex_field(id), decimal(rev), hex_field(s.name@), hex_field(s.description@)];
    let base = seq![tab_joined(base_fields)];
    let er = es.map_values(|e: (String, u64)| tab_joined(setup_intent_fields(s, e)));
    let nr = ns.map_values(|e: (String, u32)| tab_joined(setup_include_fields(s, e)));
    let c = value_records(s, SetupValueKind::Constraint);
    let r = value_records(s, SetupValueKind::SecretRef);
    let h = value_records(s, SetupValueKind::Hardware);
    lemma_join_one(tab_joined(base_fields));
    lemma_joined_records(er);
    lemma_joined_records(nr);
    lemma_joined_records(c);
    lemma_joined_records(r);
    lemma_joined_records(h);
    assert(es.map_values(|e: (String, u64)| reference_line("setup-intent"@, id, rev, e.0@, e.1 as nat)) =~= er.map_values(
        |x: Seq<char>| x + seq!['\n'],
    ));
    assert(ns.map_values(|e: (String, u32)| reference_line("setup-include"@, id, rev, e.0@, e.1 as nat)) =~= nr.map_values(
        |x: Seq<char>| x + seq!['\n'],
    ));
    lemma_setup_value_lines(s);
    lemma_join_lines_concat(base, er);
    lemma_join_lines_concat(base + er, nr);
    lemma_join_lines_concat(base + er + nr, c);
    lemma_join_lines_concat(base + er + nr + c, r);
    lemma_join_lines_concat(base + er + nr + c + r, h);
}

/// Every record of the writer's setup artifact, header first.
pub open spec fn setup_bundle_records(b: PortableSetupBundle) -> Seq<Seq<char>> {
    seq![
        tab_joined(seq!["LINURA-LIBRARY"@, decimal(b.format_version as nat), "setup"@]),
        tab_joined(seq!["root-setup"@, hex_field(b.root.0@), decimal(b.root.1 as nat)]),
    ] + flatten(in_order(b.intents@, stable_order(intent_sort_keys(b.intents@))).map_values(|i: PortableIntent| intent_records(i)))
        + flatten(in_order(b.setups@, stable_order(setup_sort_keys(b.setups@))).map_values(|s: PortableSetup| setup_records(s)))
}

/// The writer's body of a setup artifact is its records, one per line.
proof fn lemma_setup_bundle_text_records(b: PortableSetupBundle)
    ensures
        setup_bundle_text(b) == join_lines(setup_bundle_records(b)),
{
    let is = in_order(b.intents@, stable_order(intent_sort_keys(b.intents@)));
    let ss = in_order(b.setups@, stable_order(setup_sort_keys(b.setups@)));
    let ir = is.map_values(|i: PortableIntent| intent_records(i));
    let sr = ss.map_values(|s: PortableSetup| setup_records(s));
    assert forall|k: int| 0 <= k < is.len() implies intent_text(#[trigger] is[k]) == join_lines(ir[k]) by {
        lemma_intent_text_records(is[k]);
    }
    assert forall|k: int| 0 <= k < ss.len() implies setup_text(#[trigger] ss[k]) == join_lines(sr[k]) by {
        lemma_setup_text_records(ss[k]);
    }
    lemma_join_flatten(ir);
    lemma_join_flatten(sr);
    assert(is.map_values(|i: PortableIntent| intent_text(i)) =~= ir.map_values(|rs: Seq<Seq<char>>| join_lines(rs)));
    assert(ss.map_values(|s: PortableSetup| setup_text(s)) =~= sr.map_values(|rs: Seq<Seq<char>>| join_lines(rs)));
    let h = tab_joined(seq!["LINURA-LIBRARY"@, decimal(b.format_version as nat), "setup"@]);
    let r = tab_joined(seq!["root-setup"@, hex_field(b.root.0@), decimal(b.root.1 as nat)]);
    lemma_join_one(h);
    lemma_join_one(r);
    lemma_join_lines_concat(seq![h], seq![r]);
    assert(seq![h] + seq![r] =~= seq![h, r]);
    lemma_join_lines_concat(seq![h, r], flatten(ir));
    lemma_join_lines_concat(seq![h, r] + flatten(ir), flatten(sr));
}

/// A record the reader takes back unchanged: not empty, no line feed and
/// no carriage return.
pub open spec fn sound_record(r: Seq<char>) -> bool {
    r.len() > 0 && line_safe(r)
}

proof fn lemma_hex_safe(t: Seq<char>)
    ensures
        line_safe(hex_field(t)),
{
    crate::library::portable::lemma_hex_digits_plain(encode_utf8(t));
    assert forall|i: int| 0 <= i < hex_field(t).len() implies hex_field(t)[i] != '\n' && hex_field(t)[i] != '\r' by {
        assert(crate::num::is_hex_digit(hex_field(t)[i]));
    }
}

proof fn lemma_decimal_safe(n: nat)
    ensures
        line_safe(decimal(n)),
        decimal(n).len() > 0,
{
    lemma_decimal(n);
    assert forall|i: int| 0 <= i < decimal(n).len() implies decimal(n)[i] != '\n' && decimal(n)[i] != '\r' by {
        assert(crate::num::is_digit(decimal(n)[i]));
    }
}

proof fn lemma_record_sound(f: Seq<Seq<char>>)
    requires
        f.len() >= 1,
        f[0].len() > 0,
        forall|i: int| 0 <= i < f.len() ==> line_safe(#[trigger] f[i]),
    ensures
        sound_record(tab_joined(f)),
    decreases f.len(),
{
    lemma_tab_joined_safe(f);
    if f.len() > 1 {
        let d = f.drop_last();
        assert forall|i: int| 0 <= i < d.len() implies line_safe(#[trigger] d[i]) by {
            assert(d[i] == f[i]);
        }
        lemma_record_sound(d);
    }
}

proof fn lemma_names_safe(a: ActorKind, k: RequirementKind, st: IntentStatus)
    ensures
        line_safe(a.spec_name()),
        line_safe(k.spec_name()),
        line_safe(st.spec_name()),
        line_safe("intent"@) && "intent"@.len() > 0,
        line_safe("requirement"@) && "requirement"@.len() > 0,
        line_safe("supersedes"@) && "supersedes"@.len() > 0,
        line_safe("setup"@) && "setup"@.len() > 0,
        line_safe("setup-intent"@) && "setup-intent"@.len() > 0,
        line_safe("setup-include"@) && "setup-include"@.len() > 0,
        line_safe("setup-constraint"@) && "setup-constraint"@.len() > 0,
        line_safe("setup-secret-ref"@) && "setup-secret-ref"@.len() > 0,
        line_safe("setup-hardware"@) && "setup-hardware"@.len() > 0,
        line_safe("root-setup"@) && "root-setup"@.len() > 0,
        line_safe("LINURA-LIBRARY"@) && "LINURA-LIBRARY"@.len() > 0,
        line_safe(flag_field(true)) && line_safe(flag_field(false)),
{
    reveal_strlit("human");
    reveal_strlit("service");
    reveal_strlit("agent");
    reveal_strlit("remote");
    reveal_strlit("goal");
    reveal_strlit("constraint");
    reveal_strlit("preference");
    reveal_strlit("prohibition");
    reveal_strlit("proposed");
    reveal_strlit("active");
    reveal_strlit("suspended");
    reveal_strlit("superseded");
    reveal_strlit("retired");
    reveal_strlit("intent");
    reveal_strlit("requirement");
    reveal_strlit("supersedes");
    reveal_strlit("setup");
    reveal_strlit("setup-intent");
    reveal_strlit("setup-include");
    reveal_strlit("setup-constraint");
    reveal_strlit("setup-secret-ref");
    reveal_strlit("setup-hardware");
    reveal_strlit("root-setup");
    reveal_strlit("LINURA-LIBRARY");
}

proof fn lemma_intent_records_sound(i: PortableIntent)
    ensures
        forall|j: int| 0 <= j < intent_records(i).len() ==> sound_record(#[trigger] intent_records(i)[j]),
{
    let rq = in_order(i.requirements@, stable_order(requirement_keys(i.requirements@)));
    let sp = in_order(i.supersedes@, stable_order(text_keys(i.supersedes@)));
    lemma_hex_safe(i.id@);
    lemma_hex_safe(i.actor_id@);
    lemma_hex_safe(i.statement@);
    lemma_decimal_safe(i.revision as nat);
    lemma_names_safe(i.actor_kind, RequirementKind::Goal, i.status);
    let bf = intent_base_fields(i);
    assert forall|x: int| 0 <= x < bf.len() implies line_safe(#[trigger] bf[x]) by {}
    lemma_record_sound(bf);
    let recs = intent_records(i);
    assert forall|j: int| 0 <= j < recs.len() implies sound_record(#[trigger] recs[j]) by {
        if j == 0 {
        } else if j < 1 + rq.len() {
            let r = rq[j - 1];
            lemma_hex_safe(r.id@);
            lemma_hex_safe(r.statement@);
            lemma_names_safe(i.actor_kind, r.kind, i.status);
            let f = requirement_fields(i, r);
            assert forall|x: int| 0 <= x < f.len() implies line_safe(#[trigger] f[x]) by {}
            lemma_record_sound(f);
        } else {
            let q = sp[j - 1 - rq.len()];
            lemma_hex_safe(q@);
            let f = supersedes_fields(i, q);
            assert forall|x: int| 0 <= x < f.len() implies line_safe(#[trigger] f[x]) by {}
            lemma_record_sound(f);
        }
    }
}

#[verifier::spinoff_prover]
proof fn lemma_setup_records_sound(s: PortableSetup)
    ensures
        forall|j: int| 0 <= j < setup_records(s).len() ==> sound_record(#[trigger] setup_records(s)[j]),
{
    let es = in_order(s.intent_revisions@, stable_order(intent_ref_keys(s.intent_revisions@)));
    let ns = in_order(s.included_revisions@, stable_order(setup_ref_keys(s.included_revisions@)));
    lemma_hex_safe(s.id@);
    lemma_hex_safe(s.name@);
    lemma_hex_safe(s.description@);
    lemma_decimal_safe(s.revision as nat);
    lemma_names_safe(ActorKind::Human, RequirementKind::Goal, IntentStatus::Active);
    let bf = seq!["setup"@, hex_field(s.id@), decimal(s.revision as nat), hex_field(s.name@), hex_field(s.description@)];
    assert forall|x: int| 0 <= x < bf.len() implies line_safe(#[trigger] bf[x]) by {}
    lemma_record_sound(bf);
    let recs = setup_records(s);
    let n1 = 1 + es.len();
    let n2 = n1 + ns.len();
    let c = value_records(s, SetupValueKind::Constraint);
    let r = value_records(s, SetupValueKind::SecretRef);
    let h = value_records(s, SetupValueKind::Hardware);
    let n3 = n2 + c.len();
    let n4 = n3 + r.len();
    assert forall|j: int| 0 <= j < recs.len() implies sound_record(#[trigger] recs[j]) by {
        if j == 0 {
        } else if j < n1 {
            let e = es[j - 1];
            lemma_hex_safe(e.0@);
            lemma_decimal_safe(e.1 as nat);
            let f = setup_intent_fields(s, e);
            assert forall|x: int| 0 <= x < f.len() implies line_safe(#[trigger] f[x]) by {}
            lemma_record_sound(f);
        } else if j < n2 {
            let e = ns[j - n1];
            lemma_hex_safe(e.0@);
            lemma_decimal_safe(e.1 as nat);
            let f = setup_include_fields(s, e);
            assert forall|x: int| 0 <= x < f.len() implies line_safe(#[trigger] f[x]) by {}
            lemma_record_sound(f);
        } else {
            let (kind, k) = if j < n3 {
                (SetupValueKind::Constraint, j - n2)
            } else if j < n4 {
                (SetupValueKind::SecretRef, j - n3)
            } else {
                (SetupValueKind::Hardware, j - n4)
            };
            let v = kind_values(s, kind)[k];
            lemma_hex_safe(v@);
            lemma_decimal_safe(k as nat);
            let f = setup_value_fields(s, kind, k, v);
            assert forall|x: int| 0 <= x < f.len() implies line_safe(#[trigger] f[x]) by {}
            lemma_record_sound(f);
            if j < n3 {
                assert(recs[j] == c[k]);
            } else if j < n4 {
                assert(recs[j] == r[k]);
            } else {
                assert(recs[j] == h[k]);
            }
        }
    }
}

proof fn lemma_flatten_sound(ss: Seq<Seq<Seq<char>>>)
    requires
        forall|k: int, j: int| 0 <= k < ss.len() && 0 <= j < ss[k].len() ==> sound_record(#[trigger] ss[k][j]),
    ensures
        forall|j: int| 0 <= j < flatten(ss).len() ==> sound_record(#[trigger] flatten(ss)[j]),
    decreases ss.len(),
{
    if ss.len() > 0 {
        let d = ss.drop_last();
        assert forall|k: int, j: int| 0 <= k < d.len() && 0 <= j < d[k].len() implies sound_record(#[trigger] d[k][j]) by {
            assert(d[k] == ss[k]);
        }
        lemma_flatten_sound(d);
        let f = flatten(ss);
        assert forall|j: int| 0 <= j < f.len() implies sound_record(#[trigger] f[j]) by {
            if j < flatten(d).len() {
                assert(f[j] == flatten(d)[j]);
            } else {
                assert(f[j] == ss.last()[j - flatten(d).len()]);
                assert(sound_record(ss[ss.len() - 1][j - flatten(d).len()]));
            }
        }
    }
}

proof fn lemma_flatten_step<T>(v: Seq<T>, f: spec_fn(T) -> Seq<Seq<char>>, k: int)
    requires
        0 < k <= v.len(),
    ensures
        flatten(v.take(k).map_values(f)) == flatten(v.take(k - 1).map_values(f)) + f(v[k - 1]),
{
    assert(v.take(k).map_values(f).drop_last() =~= v.take(k - 1).map_values(f));
}

proof fn lemma_intents_fold(m: ArtifactView, is: Seq<PortableIntent>, k: int)
    requires
        m.intents == Seq::<IntentView>::empty(),
        0 <= k <= is.len(),
        forall|a: int, b: int| 0 <= a < b < is.len() ==> !((#[trigger] is[a]).id@ == (#[trigger] is[b]).id@ && is[a].revision == is[b].revision),
        forall|a: int| 0 <= a < is.len() ==> (#[trigger] is[a]).revision > 0,
    ensures
        apply_records(m, flatten(is.take(k).map_values(|i: PortableIntent| intent_records(i))))
            == Some(with_intents(m, is.take(k).map_values(|i: PortableIntent| intent_view(i)))),
    decreases k,
{
    if k == 0 {
        assert(is.take(0).map_values(|i: PortableIntent| intent_records(i)) =~= Seq::<Seq<Seq<char>>>::empty());
        assert(is.take(0).map_values(|i: PortableIntent| intent_view(i)) =~= Seq::<IntentView>::empty());
        assert(with_intents(m, Seq::<IntentView>::empty()) =~= m);
    } else {
        lemma_intents_fold(m, is, k - 1);
        let pre = is.take(k - 1).map_values(|i: PortableIntent| intent_view(i));
        let i = is[k - 1];
        lemma_flatten_step(is, |i: PortableIntent| intent_records(i), k);
        lemma_apply_records_concat(m, flatten(is.take(k - 1).map_values(|i: PortableIntent| intent_records(i))), intent_records(i));
        assert forall|a: int, b: int| 0 <= a < b < pre.len() implies !((#[trigger] pre[a]).id == (#[trigger] pre[b]).id
            && pre[a].revision == pre[b].revision) by {
            assert(pre[a] == intent_view(is[a]) && pre[b] == intent_view(is[b]));
        }
        assert forall|j: int| !intent_at(pre, i.id@, i.revision, j) by {
            if 0 <= j < pre.len() {
                assert(pre[j] == intent_view(is[j]));
            }
        }
        law_intent_reads_back(m, pre, i);
        assert(with_intents(with_intents(m, pre), pre.push(intent_view(i))) == with_intents(m, pre.push(intent_view(i))));
        assert(pre.push(intent_view(i)) =~= is.take(k).map_values(|i: PortableIntent| intent_view(i)));
        assert(with_intents(m, pre) == with_intents(m, pre));
    }
}

proof fn lemma_setups_fold(m: ArtifactView, ss: Seq<PortableSetup>, k: int)
    requires
        m.setups == Seq::<SetupView>::empty(),
        0 <= k <= ss.len(),
        forall|a: int, b: int| 0 <= a < b < ss.len() ==> !((#[trigger] ss[a]).id@ == (#[trigger] ss[b]).id@ && ss[a].revision == ss[b].revision),
        forall|a: int| 0 <= a < ss.len() ==> (#[trigger] ss[a]).revision > 0,
        forall|a: int, j: int| 0 <= a < ss.len() && 0 <= j < ss[a].intent_revisions@.len() ==> (#[trigger] ss[a].intent_revisions@[j]).1 > 0,
        forall|a: int, j: int| 0 <= a < ss.len() && 0 <= j < ss[a].included_revisions@.len() ==> (#[trigger] ss[a].included_revisions@[j]).1 > 0,
    ensures
        apply_records(m, flatten(ss.take(k).map_values(|s: PortableSetup| setup_records(s))))
            == Some(with_setups(m, ss.take(k).map_values(|s: PortableSetup| setup_view(s)))),
    decreases k,
{
    if k == 0 {
        assert(ss.take(0).map_values(|s: PortableSetup| setup_records(s)) =~= Seq::<Seq<Seq<char>>>::empty());
        assert(ss.take(0).map_values(|s: PortableSetup| setup_view(s)) =~= Seq::<SetupView>::empty());
        assert(with_setups(m, Seq::<SetupView>::empty()) =~= m);
    } else {
        lemma_setups_fold(m, ss, k - 1);
        let pre = ss.take(k - 1).map_values(|s: PortableSetup| setup_view(s));
        let s = ss[k - 1];
        lemma_flatten_step(ss, |s: PortableSetup| setup_records(s), k);
        lemma_apply_records_concat(m, flatten(ss.take(k - 1).map_values(|s: PortableSetup| setup_records(s))), setup_records(s));
        assert forall|a: int, b: int| 0 <= a < b < pre.len() implies !((#[trigger] pre[a]).id == (#[trigger] pre[b]).id
            && pre[a].revision == pre[b].revision) by {
            assert(pre[a] == setup_view(ss[a]) && pre[b] == setup_view(ss[b]));
        }
        assert forall|j: int| !setup_at(pre, s.id@, s.revision, j) by {
            if 0 <= j < pre.len() {
                assert(pre[j] == setup_view(ss[j]));
            }
        }
        assert forall|j: int| 0 <= j < s.intent_revisions@.len() implies (#[trigger] s.intent_revisions@[j]).1 > 0 by {
            assert(ss[k - 1].intent_revisions@[j].1 > 0);
        }
        assert forall|j: int| 0 <= j < s.included_revisions@.len() implies (#[trigger] s.included_revisions@[j]).1 > 0 by {
            assert(ss[k - 1].included_revisions@[j].1 > 0);
        }
        law_setup_reads_back(m, pre, s);
        assert(with_setups(with_setups(m, pre), pre.push(setup_view(s))) == with_setups(m, pre.push(setup_view(s))));
        assert(pre.push(setup_view(s)) =~= ss.take(k).map_values(|s: PortableSetup| setup_view(s)));
    }
}

/// Every revision a bundle writes, and each it references, is positive.
pub open spec fn bundle_revisions_positive(b: PortableSetupBundle) -> bool {
    &&& b.root.1 > 0
    &&& forall|k: int| 0 <= k < b.intents@.len() ==> (#[trigger] b.intents@[k]).revision > 0
    &&& forall|k: int| 0 <= k < b.setups@.len() ==> (#[trigger] b.setups@[k]).revision > 0
    &&& forall|k: int, j: int| 0 <= k < b.setups@.len() && 0 <= j < b.setups@[k].intent_revisions@.len()
        ==> (#[trigger] b.setups@[k].intent_revisions@[j]).1 > 0
    &&& forall|k: int, j: int| 0 <= k < b.setups@.len() && 0 <= j < b.setups@[k].included_revisions@.len()
        ==> (#[trigger] b.setups@[k].included_revisions@[j]).1 > 0
}

/// What the reader holds of a written setup bundle: its root, and its
/// intents and setups in the writer's order.
pub open spec fn setup_bundle_view(b: PortableSetupBundle) -> ArtifactView {
    ArtifactView {
        root: Some((b.root.0@, b.root.1)),
        profile: None,
        intents: in_order(b.intents@, stable_order(intent_sort_keys(b.intents@))).map_values(|i: PortableIntent| intent_view(i)),
        setups: in_order(b.setups@, stable_order(setup_sort_keys(b.setups@))).map_values(|s: PortableSetup| setup_view(s)),
    }
}

proof fn lemma_bundle_records_sound(b: PortableSetupBundle)
    ensures
        forall|j: int| 0 <= j < setup_bundle_records(b).len() ==> sound_record(#[trigger] setup_bundle_records(b)[j]),
{
    let ir = in_order(b.intents@, stable_order(intent_sort_keys(b.intents@))).map_values(|i: PortableIntent| intent_records(i));
    let sr = in_order(b.setups@, stable_order(setup_sort_keys(b.setups@))).map_values(|s: PortableSetup| setup_records(s));
    assert forall|k: int, j: int| 0 <= k < ir.len() && 0 <= j < ir[k].len() implies sound_record(#[trigger] ir[k][j]) by {
        let is = in_order(b.intents@, stable_order(intent_sort_keys(b.intents@)));
        lemma_intent_records_sound(is[k]);
    }
    assert forall|k: int, j: int| 0 <= k < sr.len() && 0 <= j < sr[k].len() implies sound_record(#[trigger] sr[k][j]) by {
        let ss = in_order(b.setups@, stable_order(setup_sort_keys(b.setups@)));
        lemma_setup_records_sound(ss[k]);
    }
    lemma_flatten_sound(ir);
    lemma_flatten_sound(sr);
    lemma_names_safe(ActorKind::Human, RequirementKind::Goal, IntentStatus::Active);
    lemma_hex_safe(b.root.0@);
    lemma_decimal_safe(b.root.1 as nat);
    lemma_decimal_safe(b.format_version as nat);
    reveal_strlit("setup");
    let hf = seq!["LINURA-LIBRARY"@, decimal(b.format_version as nat), "setup"@];
    let rf = seq!["root-setup"@, hex_field(b.root.0@), decimal(b.root.1 as nat)];
    assert forall|x: int| 0 <= x < hf.len() implies line_safe(#[trigger] hf[x]) by {}
    assert forall|x: int| 0 <= x < rf.len() implies line_safe(#[trigger] rf[x]) by {}
    lemma_record_sound(hf);
    lemma_record_sound(rf);
    let all = setup_bundle_records(b);
    assert forall|j: int| 0 <= j < all.len() implies sound_record(#[trigger] all[j]) by {
        if j >= 2 {
            if j - 2 < flatten(ir).len() {
                assert(all[j] == flatten(ir)[j - 2]);
            } else {
                assert(all[j] == flatten(sr)[j - 2 - flatten(ir).len()]);
            }
        }
    }
}

proof fn lemma_setup_header(b: PortableSetupBundle)
    requires
        b.format_version == PORTABLE_FORMAT_VERSION,
        setup_bundle_records(b).len() <= MAX_RECORDS + 1,
    ensures
        header_verdict(setup_bundle_records(b), "setup"@) == ArtifactVerdict::Records(setup_bundle_records(b).skip(1)),
{
    let all = setup_bundle_records(b);
    lemma_bundle_records_sound(b);
    let hf = seq!["LINURA-LIBRARY"@, decimal(b.format_version as nat), "setup"@];
    reveal_strlit("LINURA-LIBRARY");
    reveal_strlit("setup");
    crate::library::portable_records::lemma_decimal_field(1);
    assert forall|x: int| 0 <= x < hf.len() implies tab_free(#[trigger] hf[x]) by {}
    lemma_split_tab_joined(hf);
    assert(all[0] == tab_joined(hf));
    assert(hf[0] =~= library_magic());
    lemma_parse_decimal(1, 0xffff);
    let recs = all.skip(1);
    assert forall|i: int| 0 <= i < recs.len() implies (#[trigger] recs[i]).len() != 0 by {
        assert(recs[i] == all[i + 1]);
        assert(sound_record(all[i + 1]));
    }
}

/// A setup artifact that the writer seals reads back, under the reader, as
/// the bundle it wrote: its root, and every intent and setup revision with
/// all its records, in the writer's order. This holds for every sound
/// bundle whose revisions are positive and whose artifact fits the record
/// and size bounds.
#[verifier::spinoff_prover]
#[verifier::rlimit(60)]
pub proof fn law_setup_bundle_reads_back(b: PortableSetupBundle)
    requires
        b.format_version == PORTABLE_FORMAT_VERSION,
        setup_bundle_valid(compositions(b.setups@), (b.root.0@, b.root.1), bundle_intent_keys(b.intents@)),
        bundle_revisions_positive(b),
        setup_bundle_records(b).len() <= MAX_RECORDS + 1,
        sha256_of(encode_utf8(setup_bundle_text(b))).len() == 32,
        encode_utf8(sealed_artifact(setup_bundle_text(b))).len() <= MAX_PORTABLE_BYTES,
    ensures
        artifact_contents(encode_utf8(sealed_artifact(setup_bundle_text(b))), "setup"@) == Some(setup_bundle_view(b)),
{
    let body = setup_bundle_text(b);
    let all = setup_bundle_records(b);
    lemma_setup_bundle_text_records(b);
    lemma_bundle_records_sound(b);
    assert forall|i: int| 0 <= i < all.len() implies plain_line(#[trigger] all[i]) by {
        assert(sound_record(all[i]));
        if all[i].len() > 0 {
            assert(all[i][all[i].len() - 1] != '\r');
        }
    }
    lemma_lines_join(all);
    lemma_join_lines_push(all.drop_last(), all.last());
    assert(all.drop_last().push(all.last()) =~= all);
    assert(body.len() > 0 && body.last() == '\n');
    law_artifact_round_trip(body, "setup"@);
    lemma_setup_header(b);
    let is = in_order(b.intents@, stable_order(intent_sort_keys(b.intents@)));
    let ss = in_order(b.setups@, stable_order(setup_sort_keys(b.setups@)));
    let fi = flatten(is.map_values(|i: PortableIntent| intent_records(i)));
    let fs = flatten(ss.map_values(|s: PortableSetup| setup_records(s)));
    let root = tab_joined(seq!["root-setup"@, hex_field(b.root.0@), decimal(b.root.1 as nat)]);
    assert(all.skip(1) =~= seq![root] + fi + fs);
    let m0 = empty_artifact();
    law_root_record_reads_back(m0, b.root.0@, b.root.1);
    lemma_apply_one(m0, root);
    let m1 = ArtifactView { root: Some((b.root.0@, b.root.1)), ..m0 };
    lemma_apply_records_concat(m0, seq![root], fi);
    lemma_apply_records_concat(m0, seq![root] + fi, fs);
    assert(b.intents@.len() == b.intents.len());
    assert(b.setups@.len() == b.setups.len());
    lemma_stable_order_exists(intent_sort_keys(b.intents@));
    lemma_stable_order_exists(setup_sort_keys(b.setups@));
    let io = stable_order(intent_sort_keys(b.intents@));
    let so = stable_order(setup_sort_keys(b.setups@));
    lemma_order_covers(intent_sort_keys(b.intents@), io);
    lemma_order_covers(setup_sort_keys(b.setups@), so);
    assert forall|a: int, c: int| 0 <= a < c < is.len() implies !((#[trigger] is[a]).id@ == (#[trigger] is[c]).id@ && is[a].revision == is[c].revision) by {
        assert(is[a] == b.intents@[io[a] as int] && is[c] == b.intents@[io[c] as int]);
        assert(io[a] != io[c]);
        let keys = bundle_intent_keys(b.intents@);
        assert(keys[io[a] as int] != keys[io[c] as int]);
    }
    assert forall|a: int| 0 <= a < is.len() implies (#[trigger] is[a]).revision > 0 by {
        assert(is[a] == b.intents@[io[a] as int]);
    }
    assert(is.take(is.len() as int) =~= is);
    lemma_intents_fold(m1, is, is.len() as int);
    let m2 = with_intents(m1, is.map_values(|i: PortableIntent| intent_view(i)));
    assert forall|a: int, c: int| 0 <= a < c < ss.len() implies !((#[trigger] ss[a]).id@ == (#[trigger] ss[c]).id@ && ss[a].revision == ss[c].revision) by {
        assert(ss[a] == b.setups@[so[a] as int] && ss[c] == b.setups@[so[c] as int]);
        assert(so[a] != so[c]);
        let g = compositions(b.setups@);
        if so[a] < so[c] {
            assert(g[so[a] as int].key != g[so[c] as int].key);
        } else {
            assert(g[so[c] as int].key != g[so[a] as int].key);
        }
    }
    assert forall|a: int| 0 <= a < ss.len() implies (#[trigger] ss[a]).revision > 0 by {
        assert(ss[a] == b.setups@[so[a] as int]);
    }
    assert forall|a: int, j: int| 0 <= a < ss.len() && 0 <= j < ss[a].intent_revisions@.len() implies (#[trigger] ss[a].intent_revisions@[j]).1 > 0 by {
        assert(ss[a] == b.setups@[so[a] as int]);
        assert(b.setups@[so[a] as int].intent_revisions@[j].1 > 0);
    }
    assert forall|a: int, j: int| 0 <= a < ss.len() && 0 <= j < ss[a].included_revisions@.len() implies (#[trigger] ss[a].included_revisions@[j]).1 > 0 by {
        assert(ss[a] == b.setups@[so[a] as int]);
        assert(b.setups@[so[a] as int].included_revisions@[j].1 > 0);
    }
    assert(ss.take(ss.len() as int) =~= ss);
    lemma_setups_fold(m2, ss, ss.len() as int);
    assert(with_setups(m2, ss.map_values(|s: PortableSetup| setup_view(s))) =~= setup_bundle_view(b));
}

pub open spec fn profile_intent_fields(p: PortableProfile, e: (String, u64)) -> Seq<Seq<char>> {
    seq!["profile-intent"@, hex_field(p.id@), decimal(p.revision as nat), hex_field(e.0@), decimal(e.1 as nat)]
}

pub open spec fn profile_setup_fields(p: PortableProfile, e: (String, u32)) -> Seq<Seq<char>> {
    seq!["profile-setup"@, hex_field(p.id@), decimal(p.revision as nat), hex_field(e.0@), decimal(e.1 as nat)]
}

pub open spec fn profile_kind_values(p: PortableProfile, kind: ProfileValueKind) -> Seq<String> {
    match kind {
        ProfileValueKind::Constraint => p.portable_constraints@,
        ProfileValueKind::Hardware => p.hardware_hints@,
    }
}

pub open spec fn profile_value_fields(p: PortableProfile, kind: ProfileValueKind, j: int, value: String) -> Seq<Seq<char>> {
    seq![profile_value_record_name(kind), hex_field(p.id@), decimal(p.revision as nat), decimal(j as nat), hex_field(value@)]
}

pub open spec fn profile_value_records(p: PortableProfile, kind: ProfileValueKind) -> Seq<Seq<char>> {
    Seq::new(profile_kind_values(p, kind).len(), |j: int| tab_joined(profile_value_fields(p, kind, j, profile_kind_values(p, kind)[j])))
}

pub open spec fn profile_base_fields(p: PortableProfile) -> Seq<Seq<char>> {
    seq!["profile"@, hex_field(p.id@), decimal(p.revision as nat), hex_field(p.name@), p.machine_class.spec_name()]
}

/// The records of a written profile, in the writer's order.
pub open spec fn profile_records(p: PortableProfile) -> Seq<Seq<char>> {
    seq![tab_joined(profile_base_fields(p))] + in_order(p.intent_revisions@, stable_order(intent_ref_keys(p.intent_revisions@))).map_values(
        |e: (String, u64)| tab_joined(profile_intent_fields(p, e)),
    ) + in_order(p.setup_revisions@, stable_order(setup_ref_keys(p.setup_revisions@))).map_values(
        |e: (String, u32)| tab_joined(profile_setup_fields(p, e)),
    ) + profile_value_records(p, ProfileValueKind::Constraint) + profile_value_records(p, ProfileValueKind::Hardware)
}

/// What an artifact holds of a written profile.
pub open spec fn profile_view(p: PortableProfile) -> ProfileView {
    ProfileView {
        id: p.id@,
        revision: p.revision,
        name: p.name@,
        machine_class: p.machine_class.spec_name(),
        intents: in_order(p.intent_revisions@, stable_order(intent_ref_keys(p.intent_revisions@))).map_values(
            |e: (String, u64)| (e.0@, e.1),
        ),
        setups: in_order(p.setup_revisions@, stable_order(setup_ref_keys(p.setup_revisions@))).map_values(
            |e: (String, u32)| (e.0@, e.1),
        ),
        constraints: ordinal_values(p.portable_constraints@),
        hardware_hints: ordinal_values(p.hardware_hints@),
    }
}

proof fn lemma_profile_intents_read_back(m: ArtifactView, v: ProfileView, p: PortableProfile, es: Seq<(String, u64)>)
    requires
        v.id == p.id@,
        v.revision == p.revision,
        p.revision > 0,
        forall|k: int| 0 <= k < es.len() ==> (#[trigger] es[k]).1 > 0,
    ensures
        apply_records(with_profile(m, v), es.map_values(|e: (String, u64)| tab_joined(profile_intent_fields(p, e))))
            == Some(with_profile(m, ProfileView { intents: v.intents + es.map_values(|e: (String, u64)| (e.0@, e.1)), ..v })),
    decreases es.len(),
{
    let recs = es.map_values(|e: (String, u64)| tab_joined(profile_intent_fields(p, e)));
    if es.len() == 0 {
        assert(v.intents + es.map_values(|e: (String, u64)| (e.0@, e.1)) =~= v.intents);
        assert(recs =~= Seq::<Seq<char>>::empty());
        assert(ProfileView { intents: v.intents, ..v } =~= v);
    } else {
        let d = es.drop_last();
        let last = es.last();
        assert(last.1 > 0);
        lemma_profile_intents_read_back(m, v, p, d);
        let v1 = ProfileView { intents: v.intents + d.map_values(|e: (String, u64)| (e.0@, e.1)), ..v };
        assert(recs =~= d.map_values(|e: (String, u64)| tab_joined(profile_intent_fields(p, e))) + seq![tab_joined(profile_intent_fields(p, last))]);
        lemma_apply_records_concat(with_profile(m, v), d.map_values(|e: (String, u64)| tab_joined(profile_intent_fields(p, e))), seq![tab_joined(profile_intent_fields(p, last))]);
        let m1 = with_profile(m, v1);
        law_profile_reference_records_read_back(m1, last.0@, last.1, Seq::<char>::empty(), 1);
        let v2 = ProfileView { intents: v1.intents.push((last.0@, last.1)), ..v1 };
        assert(with_profile(m1, v2) == with_profile(m, v2));
        assert(v2.intents =~= v.intents + es.map_values(|e: (String, u64)| (e.0@, e.1)));
        lemma_apply_one(m1, tab_joined(profile_intent_fields(p, last)));
    }
}

proof fn lemma_profile_setups_read_back(m: ArtifactView, v: ProfileView, p: PortableProfile, es: Seq<(String, u32)>)
    requires
        v.id == p.id@,
        v.revision == p.revision,
        p.revision > 0,
        forall|k: int| 0 <= k < es.len() ==> (#[trigger] es[k]).1 > 0,
    ensures
        apply_records(with_profile(m, v), es.map_values(|e: (String, u32)| tab_joined(profile_setup_fields(p, e))))
            == Some(with_profile(m, ProfileView { setups: v.setups + es.map_values(|e: (String, u32)| (e.0@, e.1)), ..v })),
    decreases es.len(),
{
    let recs = es.map_values(|e: (String, u32)| tab_joined(profile_setup_fields(p, e)));
    if es.len() == 0 {
        assert(v.setups + es.map_values(|e: (String, u32)| (e.0@, e.1)) =~= v.setups);
        assert(recs =~= Seq::<Seq<char>>::empty());
        assert(ProfileView { setups: v.setups, ..v } =~= v);
    } else {
        let d = es.drop_last();
        let last = es.last();
        assert(last.1 > 0);
        lemma_profile_setups_read_back(m, v, p, d);
        let v1 = ProfileView { setups: v.setups + d.map_values(|e: (String, u32)| (e.0@, e.1)), ..v };
        assert(recs =~= d.map_values(|e: (String, u32)| tab_joined(profile_setup_fields(p, e))) + seq![tab_joined(profile_setup_fields(p, last))]);
        lemma_apply_records_concat(with_profile(m, v), d.map_values(|e: (String, u32)| tab_joined(profile_setup_fields(p, e))), seq![tab_joined(profile_setup_fields(p, last))]);
        let m1 = with_profile(m, v1);
        law_profile_reference_records_read_back(m1, Seq::<char>::empty(), 1, last.0@, last.1);
        let v2 = ProfileView { setups: v1.setups.push((last.0@, last.1)), ..v1 };
        assert(with_profile(m1, v2) == with_profile(m, v2));
        assert(v2.setups =~= v.setups + es.map_values(|e: (String, u32)| (e.0@, e.1)));
        lemma_apply_one(m1, tab_joined(profile_setup_fields(p, last)));
    }
}

proof fn lemma_profile_values_read_back(m: ArtifactView, v: ProfileView, p: PortableProfile, kind: ProfileValueKind, k: int)
    requires
        v.id == p.id@,
        v.revision == p.revision,
        p.revision > 0,
        profile_values(v, kind).len() == 0,
        0 <= k <= profile_kind_values(p, kind).len(),
    ensures
        apply_records(with_profile(m, v), profile_value_records(p, kind).take(k))
            == Some(with_profile(m, with_profile_values(v, kind, ordinal_values(profile_kind_values(p, kind)).take(k)))),
    decreases k,
{
    let vs = profile_kind_values(p, kind);
    if k == 0 {
        assert(profile_value_records(p, kind).take(0) =~= Seq::<Seq<char>>::empty());
        assert(profile_values(v, kind) =~= ordinal_values(vs).take(0));
        assert(with_profile_values(v, kind, ordinal_values(vs).take(0)) =~= v);
    } else {
        lemma_profile_values_read_back(m, v, p, kind, k - 1);
        let v1 = with_profile_values(v, kind, ordinal_values(vs).take(k - 1));
        let rec = tab_joined(profile_value_fields(p, kind, k - 1, vs[k - 1]));
        assert(profile_value_records(p, kind).take(k) =~= profile_value_records(p, kind).take(k - 1) + seq![rec]);
        lemma_apply_records_concat(with_profile(m, v), profile_value_records(p, kind).take(k - 1), seq![rec]);
        let m1 = with_profile(m, v1);
        assert(vs.len() <= usize::MAX) by {
            match kind {
                ProfileValueKind::Constraint => assert(p.portable_constraints@.len() == p.portable_constraints.len()),
                ProfileValueKind::Hardware => assert(p.hardware_hints@.len() == p.hardware_hints.len()),
            }
        }
        law_profile_value_record_reads_back(m1, kind, (k - 1) as usize, vs[k - 1]@);
        assert(profile_values(v1, kind) =~= ordinal_values(vs).take(k - 1));
        assert forall|j: int| 0 <= j < profile_values(v1, kind).len() implies (#[trigger] profile_values(v1, kind)[j]).0 < (k - 1) as usize by {
            assert(profile_values(v1, kind)[j] == (j as usize, vs[j]@));
        }
        lemma_insert_ordinal_last(profile_values(v1, kind), (k - 1) as usize, vs[k - 1]@);
        let t = profile_values(v1, kind).push(((k - 1) as usize, vs[k - 1]@));
        assert(t =~= ordinal_values(vs).take(k));
        let v2 = with_profile_values(v1, kind, t);
        assert(v2 =~= with_profile_values(v, kind, ordinal_values(vs).take(k)));
        assert(with_profile(m1, v2) == with_profile(m, v2));
        assert(rec == tab_joined(seq![profile_value_record_name(kind), hex_field(p.id@), decimal(p.revision as nat), decimal(((k - 1) as usize) as nat), hex_field(vs[k - 1]@)]));
        lemma_apply_one(m1, rec);
    }
}

/// The records of a written profile read back as that profile, on an
/// artifact that has none yet, when its revision and those it references
/// are positive.
pub proof fn law_profile_reads_back(m: ArtifactView, p: PortableProfile)
    requires
        m.profile is None,
        p.revision > 0,
        forall|k: int| 0 <= k < p.intent_revisions@.len() ==> (#[trigger] p.intent_revisions@[k]).1 > 0,
        forall|k: int| 0 <= k < p.setup_revisions@.len() ==> (#[trigger] p.setup_revisions@[k]).1 > 0,
    ensures
        apply_records(m, profile_records(p)) == Some(with_profile(m, profile_view(p))),
{
    let io = stable_order(intent_ref_keys(p.intent_revisions@));
    let so = stable_order(setup_ref_keys(p.setup_revisions@));
    let es = in_order(p.intent_revisions@, io);
    let ns = in_order(p.setup_revisions@, so);
    assert(p.intent_revisions@.len() == p.intent_revisions.len());
    assert(p.setup_revisions@.len() == p.setup_revisions.len());
    lemma_stable_order_exists(intent_ref_keys(p.intent_revisions@));
    lemma_stable_order_exists(setup_ref_keys(p.setup_revisions@));
    assert forall|k: int| 0 <= k < es.len() implies (#[trigger] es[k]).1 > 0 by {
        assert(es[k] == p.intent_revisions@[io[k] as int]);
    }
    assert forall|k: int| 0 <= k < ns.len() implies (#[trigger] ns[k]).1 > 0 by {
        assert(ns[k] == p.setup_revisions@[so[k] as int]);
    }
    reveal_strlit("workstation");
    reveal_strlit("server");
    reveal_strlit("edge");
    law_profile_record_reads_back(m, p.id@, p.revision, p.name@, p.machine_class.spec_name());
    let v0 = ProfileView {
        id: p.id@,
        revision: p.revision,
        name: p.name@,
        machine_class: p.machine_class.spec_name(),
        intents: seq![],
        setups: seq![],
        constraints: seq![],
        hardware_hints: seq![],
    };
    let base_rec = seq![tab_joined(profile_base_fields(p))];
    lemma_apply_one(m, base_rec[0]);
    let m0 = with_profile(m, v0);
    lemma_profile_intents_read_back(m, v0, p, es);
    let v1 = ProfileView { intents: v0.intents + es.map_values(|e: (String, u64)| (e.0@, e.1)), ..v0 };
    lemma_profile_setups_read_back(m, v1, p, ns);
    let v2 = ProfileView { setups: v1.setups + ns.map_values(|e: (String, u32)| (e.0@, e.1)), ..v1 };
    let cs = profile_kind_values(p, ProfileValueKind::Constraint);
    let hs = profile_kind_values(p, ProfileValueKind::Hardware);
    lemma_profile_values_read_back(m, v2, p, ProfileValueKind::Constraint, cs.len() as int);
    let v3 = with_profile_values(v2, ProfileValueKind::Constraint, ordinal_values(cs).take(cs.len() as int));
    lemma_profile_values_read_back(m, v3, p, ProfileValueKind::Hardware, hs.len() as int);
    let v4 = with_profile_values(v3, ProfileValueKind::Hardware, ordinal_values(hs).take(hs.len() as int));
    assert(profile_value_records(p, ProfileValueKind::Constraint).take(cs.len() as int) =~= profile_value_records(p, ProfileValueKind::Constraint));
    assert(profile_value_records(p, ProfileValueKind::Hardware).take(hs.len() as int) =~= profile_value_records(p, ProfileValueKind::Hardware));
    assert(ordinal_values(cs).take(cs.len() as int) =~= ordinal_values(cs));
    assert(ordinal_values(hs).take(hs.len() as int) =~= ordinal_values(hs));
    assert(v4 =~= profile_view(p));
    let ir = es.map_values(|e: (String, u64)| tab_joined(profile_intent_fields(p, e)));
    let sr = ns.map_values(|e: (String, u32)| tab_joined(profile_setup_fields(p, e)));
    let a1 = base_rec + ir;
    let a2 = a1 + sr;
    let a3 = a2 + profile_value_records(p, ProfileValueKind::Constraint);
    lemma_apply_records_concat(m, base_rec, ir);
    lemma_apply_records_concat(m, a1, sr);
    lemma_apply_records_concat(m, a2, profile_value_records(p, ProfileValueKind::Constraint));
    lemma_apply_records_concat(m, a3, profile_value_records(p, ProfileValueKind::Hardware));
    assert(profile_records(p) == a3 + profile_value_records(p, ProfileValueKind::Hardware));
}

#[verifier::spinoff_prover]
#[verifier::rlimit(40)]
proof fn lemma_profile_text_records(p: PortableProfile)
    ensures
        profile_text(p) == join_lines(profile_records(p)),
{
    let id = p.id@;
    let rev = p.revision as nat;
    let es = in_order(p.intent_revisions@, stable_order(intent_ref_keys(p.intent_revisions@)));
    let ns = in_order(p.setup_revisions@, stable_order(setup_ref_keys(p.setup_revisions@)));
    let base = seq![tab_joined(profile_base_fields(p))];
    let er = es.map_values(|e: (String, u64)| tab_joined(profile_intent_fields(p, e)));
    let nr = ns.map_values(|e: (String, u32)| tab_joined(profile_setup_fields(p, e)));
    let c = profile_value_records(p, ProfileValueKind::Constraint);
    let h = profile_value_records(p, ProfileValueKind::Hardware);
    lemma_join_one(tab_joined(profile_base_fields(p)));
    lemma_joined_records(er);
    lemma_joined_records(nr);
    lemma_joined_records(c);
    lemma_joined_records(h);
    assert(es.map_values(|e: (String, u64)| reference_line("profile-intent"@, id, rev, e.0@, e.1 as nat)) =~= er.map_values(
        |x: Seq<char>| x + seq!['\n'],
    ));
    assert(ns.map_values(|e: (String, u32)| reference_line("profile-setup"@, id, rev, e.0@, e.1 as nat)) =~= nr.map_values(
        |x: Seq<char>| x + seq!['\n'],
    ));
    assert(Seq::new(p.portable_constraints@.len(), |j: int| value_line("profile-constraint"@, id, rev, j as nat, p.portable_constraints@[j]@))
        =~= c.map_values(|x: Seq<char>| x + seq!['\n']));
    assert(Seq::new(p.hardware_hints@.len(), |j: int| value_line("profile-hardware"@, id, rev, j as nat, p.hardware_hints@[j]@))
        =~= h.map_values(|x: Seq<char>| x + seq!['\n']));
    lemma_join_lines_concat(base, er);
    lemma_join_lines_concat(base + er, nr);
    lemma_join_lines_concat(base + er + nr, c);
    lemma_join_lines_concat(base + er + nr + c, h);
}

/// Every record of the writer's profile artifact, header first.
pub open spec fn profile_bundle_records(b: PortableProfileBundle) -> Seq<Seq<char>> {
    seq![tab_joined(seq!["LINURA-LIBRARY"@, decimal(b.format_version as nat), "profile"@])] + profile_records(b.profile)
        + flatten(in_order(b.intents@, stable_order(intent_sort_keys(b.intents@))).map_values(|i: PortableIntent| intent_records(i)))
        + flatten(in_order(b.setups@, stable_order(setup_sort_keys(b.setups@))).map_values(|s: PortableSetup| setup_records(s)))
}

proof fn lemma_profile_bundle_text_records(b: PortableProfileBundle)
    ensures
        profile_bundle_text(b) == join_lines(profile_bundle_records(b)),
{
    let is = in_order(b.intents@, stable_order(intent_sort_keys(b.intents@)));
    let ss = in_order(b.setups@, stable_order(setup_sort_keys(b.setups@)));
    let ir = is.map_values(|i: PortableIntent| intent_records(i));
    let sr = ss.map_values(|s: PortableSetup| setup_records(s));
    assert forall|k: int| 0 <= k < is.len() implies intent_text(#[trigger] is[k]) == join_lines(ir[k]) by {
        lemma_intent_text_records(is[k]);
    }
    assert forall|k: int| 0 <= k < ss.len() implies setup_text(#[trigger] ss[k]) == join_lines(sr[k]) by {
        lemma_setup_text_records(ss[k]);
    }
    lemma_join_flatten(ir);
    lemma_join_flatten(sr);
    assert(is.map_values(|i: PortableIntent| intent_text(i)) =~= ir.map_values(|rs: Seq<Seq<char>>| join_lines(rs)));
    assert(ss.map_values(|s: PortableSetup| setup_text(s)) =~= sr.map_values(|rs: Seq<Seq<char>>| join_lines(rs)));
    let h = tab_joined(seq!["LINURA-LIBRARY"@, decimal(b.format_version as nat), "profile"@]);
    lemma_join_one(h);
    lemma_profile_text_records(b.profile);
    lemma_join_lines_concat(seq![h], profile_records(b.profile));
    lemma_join_lines_concat(seq![h] + profile_records(b.profile), flatten(ir));
    lemma_join_lines_concat(seq![h] + profile_records(b.profile) + flatten(ir), flatten(sr));
}

proof fn lemma_profile_records_sound(p: PortableProfile)
    ensures
        forall|j: int| 0 <= j < profile_records(p).len() ==> sound_record(#[trigger] profile_records(p)[j]),
{
    let es = in_order(p.intent_revisions@, stable_order(intent_ref_keys(p.intent_revisions@)));
    let ns = in_order(p.setup_revisions@, stable_order(setup_ref_keys(p.setup_revisions@)));
    lemma_hex_safe(p.id@);
    lemma_hex_safe(p.name@);
    lemma_decimal_safe(p.revision as nat);
    reveal_strlit("profile");
    reveal_strlit("profile-intent");
    reveal_strlit("profile-setup");
    reveal_strlit("profile-constraint");
    reveal_strlit("profile-hardware");
    reveal_strlit("workstation");
    reveal_strlit("server");
    reveal_strlit("edge");
    let bf = profile_base_fields(p);
    assert forall|x: int| 0 <= x < bf.len() implies line_safe(#[trigger] bf[x]) by {}
    lemma_record_sound(bf);
    let recs = profile_records(p);
    let n1 = 1 + es.len();
    let n2 = n1 + ns.len();
    let c = profile_value_records(p, ProfileValueKind::Constraint);
    let h = profile_value_records(p, ProfileValueKind::Hardware);
    let n3 = n2 + c.len();
    assert forall|j: int| 0 <= j < recs.len() implies sound_record(#[trigger] recs[j]) by {
        if j == 0 {
        } else if j < n1 {
            let e = es[j - 1];
            lemma_hex_safe(e.0@);
            lemma_decimal_safe(e.1 as nat);
            let f = profile_intent_fields(p, e);
            assert forall|x: int| 0 <= x < f.len() implies line_safe(#[trigger] f[x]) by {}
            lemma_record_sound(f);
        } else if j < n2 {
            let e = ns[j - n1];
            lemma_hex_safe(e.0@);
            lemma_decimal_safe(e.1 as nat);
            let f = profile_setup_fields(p, e);
            assert forall|x: int| 0 <= x < f.len() implies line_safe(#[trigger] f[x]) by {}
            lemma_record_sound(f);
        } else {
            let (kind, k) = if j < n3 {
                (ProfileValueKind::Constraint, j - n2)
            } else {
                (ProfileValueKind::Hardware, j - n3)
            };
            let v = profile_kind_values(p, kind)[k];
            lemma_hex_safe(v@);
            lemma_decimal_safe(k as nat);
            let f = profile_value_fields(p, kind, k, v);
            assert forall|x: int| 0 <= x < f.len() implies line_safe(#[trigger] f[x]) by {}
            lemma_record_sound(f);
            if j < n3 {
                assert(recs[j] == c[k]);
            } else {
                assert(recs[j] == h[k]);
            }
        }
    }
}

/// Every revision a profile bundle writes, and each it references, is
/// positive.
pub open spec fn profile_revisions_positive(b: PortableProfileBundle) -> bool {
    &&& b.profile.revision > 0
    &&& forall|k: int| 0 <= k < b.profile.intent_revisions@.len() ==> (#[trigger] b.profile.intent_revisions@[k]).1 > 0
    &&& forall|k: int| 0 <= k < b.profile.setup_revisions@.len() ==> (#[trigger] b.profile.setup_revisions@[k]).1 > 0
    &&& forall|k: int| 0 <= k < b.intents@.len() ==> (#[trigger] b.intents@[k]).revision > 0
    &&& forall|k: int| 0 <= k < b.setups@.len() ==> (#[trigger] b.setups@[k]).revision > 0
    &&& forall|k: int, j: int| 0 <= k < b.setups@.len() && 0 <= j < b.setups@[k].intent_revisions@.len()
        ==> (#[trigger] b.setups@[k].intent_revisions@[j]).1 > 0
    &&& forall|k: int, j: int| 0 <= k < b.setups@.len() && 0 <= j < b.setups@[k].included_revisions@.len()
        ==> (#[trigger] b.setups@[k].included_revisions@[j]).1 > 0
}

/// What the reader holds of a written profile bundle.
pub open spec fn profile_bundle_view(b: PortableProfileBundle) -> ArtifactView {
    ArtifactView {
        root: None,
        profile: Some(profile_view(b.profile)),
        intents: in_order(b.intents@, stable_order(intent_sort_keys(b.intents@))).map_values(|i: PortableIntent| intent_view(i)),
        setups: in_order(b.setups@, stable_order(setup_sort_keys(b.setups@))).map_values(|s: PortableSetup| setup_view(s)),
    }
}

#[verifier::spinoff_prover]
proof fn lemma_profile_bundle_records_sound(b: PortableProfileBundle)
    ensures
        forall|j: int| 0 <= j < profile_bundle_records(b).len() ==> sound_record(#[trigger] profile_bundle_records(b)[j]),
{
    let ir = in_order(b.intents@, stable_order(intent_sort_keys(b.intents@))).map_values(|i: PortableIntent| intent_records(i));
    let sr = in_order(b.setups@, stable_order(setup_sort_keys(b.setups@))).map_values(|s: PortableSetup| setup_records(s));
    assert forall|k: int, j: int| 0 <= k < ir.len() && 0 <= j < ir[k].len() implies sound_record(#[trigger] ir[k][j]) by {
        let is = in_order(b.intents@, stable_order(intent_sort_keys(b.intents@)));
        lemma_intent_records_sound(is[k]);
    }
    assert forall|k: int, j: int| 0 <= k < sr.len() && 0 <= j < sr[k].len() implies sound_record(#[trigger] sr[k][j]) by {
        let ss = in_order(b.setups@, stable_order(setup_sort_keys(b.setups@)));
        lemma_setup_records_sound(ss[k]);
    }
    lemma_flatten_sound(ir);
    lemma_flatten_sound(sr);
    lemma_profile_records_sound(b.profile);
    lemma_names_safe(ActorKind::Human, RequirementKind::Goal, IntentStatus::Active);
    lemma_decimal_safe(b.format_version as nat);
    reveal_strlit("profile");
    let hf = seq!["LINURA-LIBRARY"@, decimal(b.format_version as nat), "profile"@];
    assert forall|x: int| 0 <= x < hf.len() implies line_safe(#[trigger] hf[x]) by {}
    lemma_record_sound(hf);
    let all = profile_bundle_records(b);
    let pr = profile_records(b.profile);
    assert forall|j: int| 0 <= j < all.len() implies sound_record(#[trigger] all[j]) by {
        if j >= 1 {
            if j - 1 < pr.len() {
                assert(all[j] == pr[j - 1]);
            } else if j - 1 - pr.len() < flatten(ir).len() {
                assert(all[j] == flatten(ir)[j - 1 - pr.len()]);
            } else {
                assert(all[j] == flatten(sr)[j - 1 - pr.len() - flatten(ir).len()]);
            }
        }
    }
}

proof fn lemma_profile_header(b: PortableProfileBundle)
    requires
        b.format_version == PORTABLE_FORMAT_VERSION,
        profile_bundle_records(b).len() <= MAX_RECORDS + 1,
    ensures
        header_verdict(profile_bundle_records(b), "profile"@) == ArtifactVerdict::Records(profile_bundle_records(b).skip(1)),
{
    let all = profile_bundle_records(b);
    lemma_profile_bundle_records_sound(b);
    let hf = seq!["LINURA-LIBRARY"@, decimal(b.format_version as nat), "profile"@];
    reveal_strlit("LINURA-LIBRARY");
    reveal_strlit("profile");
    crate::library::portable_records::lemma_decimal_field(1);
    assert forall|x: int| 0 <= x < hf.len() implies tab_free(#[trigger] hf[x]) by {}
    lemma_split_tab_joined(hf);
    assert(all[0] == tab_joined(hf));
    assert(hf[0] =~= library_magic());
    lemma_parse_decimal(1, 0xffff);
    let recs = all.skip(1);
    assert forall|i: int| 0 <= i < recs.len() implies (#[trigger] recs[i]).len() != 0 by {
        assert(recs[i] == all[i + 1]);
        assert(sound_record(all[i + 1]));
    }
}

/// A profile artifact that the writer seals reads back, under the reader,
/// as the bundle it wrote: the profile with its references and values, and
/// every intent and setup revision with all its records, in the writer's
/// order. This holds for every sound bundle whose revisions are positive
/// and whose artifact fits the record and size bounds.
#[verifier::spinoff_prover]
#[verifier::rlimit(60)]
pub proof fn law_profile_bundle_reads_back(b: PortableProfileBundle)
    requires
        b.format_version == PORTABLE_FORMAT_VERSION,
        profile_bundle_valid(
            compositions(b.setups@),
            b.profile.revision,
            intent_keys(b.profile.intent_revisions@),
            setup_keys(b.profile.setup_revisions@),
            bundle_intent_keys(b.intents@),
        ),
        profile_revisions_positive(b),
        profile_bundle_records(b).len() <= MAX_RECORDS + 1,
        sha256_of(encode_utf8(profile_bundle_text(b))).len() == 32,
        encode_utf8(sealed_artifact(profile_bundle_text(b))).len() <= MAX_PORTABLE_BYTES,
    ensures
        artifact_contents(encode_utf8(sealed_artifact(profile_bundle_text(b))), "profile"@) == Some(profile_bundle_view(b)),
{
    let body = profile_bundle_text(b);
    let all = profile_bundle_records(b);
    lemma_profile_bundle_text_records(b);
    lemma_profile_bundle_records_sound(b);
    assert forall|i: int| 0 <= i < all.len() implies plain_line(#[trigger] all[i]) by {
        assert(sound_record(all[i]));
        if all[i].len() > 0 {
            assert(all[i][all[i].len() - 1] != '\r');
        }
    }
    lemma_lines_join(all);
    lemma_join_lines_push(all.drop_last(), all.last());
    assert(all.drop_last().push(all.last()) =~= all);
    assert(body.len() > 0 && body.last() == '\n');
    law_artifact_round_trip(body, "profile"@);
    lemma_profile_header(b);
    let is = in_order(b.intents@, stable_order(intent_sort_keys(b.intents@)));
    let ss = in_order(b.setups@, stable_order(setup_sort_keys(b.setups@)));
    let fi = flatten(is.map_values(|i: PortableIntent| intent_records(i)));
    let fs = flatten(ss.map_values(|s: PortableSetup| setup_records(s)));
    let pr = profile_records(b.profile);
    assert(all.skip(1) =~= pr + fi + fs);
    let m0 = empty_artifact();
    law_profile_reads_back(m0, b.profile);
    let m1 = with_profile(m0, profile_view(b.profile));
    lemma_apply_records_concat(m0, pr, fi);
    lemma_apply_records_concat(m0, pr + fi, fs);
    assert(b.intents@.len() == b.intents.len());
    assert(b.setups@.len() == b.setups.len());
    lemma_stable_order_exists(intent_sort_keys(b.intents@));
    lemma_stable_order_exists(setup_sort_keys(b.setups@));
    let io = stable_order(intent_sort_keys(b.intents@));
    let so = stable_order(setup_sort_keys(b.setups@));
    lemma_order_covers(intent_sort_keys(b.intents@), io);
    lemma_order_covers(setup_sort_keys(b.setups@), so);
    assert forall|a: int, c: int| 0 <= a < c < is.len() implies !((#[trigger] is[a]).id@ == (#[trigger] is[c]).id@ && is[a].revision == is[c].revision) by {
        assert(is[a] == b.intents@[io[a] as int] && is[c] == b.intents@[io[c] as int]);
        assert(io[a] != io[c]);
        let keys = bundle_intent_keys(b.intents@);
        assert(keys[io[a] as int] != keys[io[c] as int]);
    }
    assert forall|a: int| 0 <= a < is.len() implies (#[trigger] is[a]).revision > 0 by {
        assert(is[a] == b.intents@[io[a] as int]);
    }
    assert(is.take(is.len() as int) =~= is);
    lemma_intents_fold(m1, is, is.len() as int);
    let m2 = with_intents(m1, is.map_values(|i: PortableIntent| intent_view(i)));
    assert forall|a: int, c: int| 0 <= a < c < ss.len() implies !((#[trigger] ss[a]).id@ == (#[trigger] ss[c]).id@ && ss[a].revision == ss[c].revision) by {
        assert(ss[a] == b.setups@[so[a] as int] && ss[c] == b.setups@[so[c] as int]);
        assert(so[a] != so[c]);
        let g = compositions(b.setups@);
        if so[a] < so[c] {
            assert(g[so[a] as int].key != g[so[c] as int].key);
        } else {
            assert(g[so[c] as int].key != g[so[a] as int].key);
        }
    }
    assert forall|a: int| 0 <= a < ss.len() implies (#[trigger] ss[a]).revision > 0 by {
        assert(ss[a] == b.setups@[so[a] as int]);
    }
    assert forall|a: int, j: int| 0 <= a < ss.len() && 0 <= j < ss[a].intent_revisions@.len() implies (#[trigger] ss[a].intent_revisions@[j]).1 > 0 by {
        assert(ss[a] == b.setups@[so[a] as int]);
        assert(b.setups@[so[a] as int].intent_revisions@[j].1 > 0);
    }
    assert forall|a: int, j: int| 0 <= a < ss.len() && 0 <= j < ss[a].included_revisions@.len() implies (#[trigger] ss[a].included_revisions@[j]).1 > 0 by {
        assert(ss[a] == b.setups@[so[a] as int]);
        assert(b.setups@[so[a] as int].included_revisions@[j].1 > 0);
    }
    assert(ss.take(ss.len() as int) =~= ss);
    lemma_setups_fold(m2, ss, ss.len() as int);
    assert(with_setups(m2, ss.map_values(|s: PortableSetup| setup_view(s))) =~= profile_bundle_view(b));
}

} // verus!

