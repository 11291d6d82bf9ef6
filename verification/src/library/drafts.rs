//! What the Library checks of an intent, a setup or a profile before it
//! stores a revision, and the operation digest by which a retried request
//! is recognized.

use vstd::prelude::*;
use crate::library::checks::{text_ok, validate_collection_size, validate_text, MAX_COLLECTION_ITEMS, MAX_TEXT_BYTES};
use crate::library::error::LibraryError;
use crate::library::names::MachineClass;
use crate::library::digest::{digest_owned_fields, fields_digest};
use crate::library::names::{actor_kind_str, machine_class_str, requirement_kind_str};
use crate::library::portable_writer::{
    decimal_text, in_order, lemma_stable_order, requirement_keys, requirement_sort_keys, stable_order, text_keys,
    text_sort_keys, PortableIntent, PortableRequirement,
};
use crate::library::records::{intent_status_str, IntentStatus};
use crate::num::decimal;
use crate::order::sort_order;
use crate::text::chars_of;

verus! {

/// A setup revision as a caller asks to save it: the intents and setups it
/// composes are named by identity; their current revisions are resolved
/// when it is stored.
pub struct SetupDraft {
    pub id: String,
    pub revision: u32,
    pub name: String,
    pub description: String,
    pub intent_ids: Vec<String>,
    pub included_setup_ids: Vec<String>,
    pub portable_constraints: Vec<String>,
    pub required_secret_refs: Vec<String>,
    pub hardware_hints: Vec<String>,
}

/// A machine profile as a caller asks to save it, naming its intents and
/// setups by identity.
pub struct ProfileDraft {
    pub id: String,
    pub name: String,
    pub machine_class: MachineClass,
    pub intent_ids: Vec<String>,
    pub setup_ids: Vec<String>,
    pub portable_constraints: Vec<String>,
    pub hardware_hints: Vec<String>,
}

/// A new intent may be stored: its statement is bounded printable text, it
/// starts proposed or active, its requirements and predecessors are within
/// the collection bound, each requirement is named once and states bounded
/// text, and it supersedes neither itself nor any intent twice.
pub open spec fn new_intent_ok(i: PortableIntent) -> bool {
    &&& text_ok(i.statement@, MAX_TEXT_BYTES as nat)
    &&& (i.status == IntentStatus::Proposed || i.status == IntentStatus::Active)
    &&& i.requirements@.len() <= MAX_COLLECTION_ITEMS
    &&& i.supersedes@.len() <= MAX_COLLECTION_ITEMS
    &&& forall|x: int, y: int| 0 <= x < y < i.requirements@.len() ==> (#[trigger] i.requirements@[x]).id@ != (#[trigger] i.requirements@[y]).id@
    &&& forall|k: int| 0 <= k < i.requirements@.len() ==> text_ok((#[trigger] i.requirements@[k]).statement@, MAX_TEXT_BYTES as nat)
    &&& forall|k: int| 0 <= k < i.supersedes@.len() ==> (#[trigger] i.supersedes@[k])@ != i.id@
    &&& forall|x: int, y: int| 0 <= x < y < i.supersedes@.len() ==> (#[trigger] i.supersedes@[x])@ != (#[trigger] i.supersedes@[y])@
}

fn validation(message: &str) -> (e: LibraryError)
    ensures
        e matches LibraryError::Validation(m) && m@ == message@,
{
    LibraryError::Validation(message.to_string())
}

fn same_text(a: &String, b: &String) -> (r: bool)
    ensures
        r == (a@ == b@),
{
    crate::text::chars_eq(&chars_of(a.as_str()), &chars_of(b.as_str()))
}

/// Checks a new intent before its first revision is stored (see
/// [`new_intent_ok`]).
pub fn validate_new_intent(intent: &PortableIntent) -> (r: Result<(), LibraryError>)
    ensures
        r is Ok <==> new_intent_ok(*intent),
        r matches Err(e) ==> e is Validation,
{
    if let Err(e) = validate_text(intent.statement.as_str(), MAX_TEXT_BYTES) {
        return Err(e);
    }
    match intent.status {
        IntentStatus::Proposed | IntentStatus::Active => {},
        _ => return Err(validation("a new intent must start proposed or active")),
    }
    if let Err(e) = validate_collection_size(intent.requirements.len()) {
        return Err(e);
    }
    if let Err(e) = validate_collection_size(intent.supersedes.len()) {
        return Err(e);
    }
    let reqs = &intent.requirements;
    let mut k: usize = 0;
    while k < reqs.len()
        invariant
            k <= reqs@.len(),
            reqs@ == intent.requirements@,
            forall|x: int, y: int| 0 <= x < y < k ==> (#[trigger] reqs@[x]).id@ != (#[trigger] reqs@[y]).id@,
            forall|a: int| 0 <= a < k ==> text_ok((#[trigger] reqs@[a]).statement@, MAX_TEXT_BYTES as nat),
        decreases reqs@.len() - k,
    {
        let mut j: usize = 0;
        while j < k
            invariant
                j <= k < reqs@.len(),
                reqs@ == intent.requirements@,
                forall|x: int| 0 <= x < j ==> (#[trigger] reqs@[x]).id@ != reqs@[k as int].id@,
            decreases k - j,
        {
            if same_text(&reqs[j].id, &reqs[k].id) {
                assert(reqs@[j as int].id@ == reqs@[k as int].id@);
                return Err(validation("a requirement is named twice"));
            }
            j = j + 1;
        }
        if let Err(e) = validate_text(reqs[k].statement.as_str(), MAX_TEXT_BYTES) {
            assert(!text_ok(reqs@[k as int].statement@, MAX_TEXT_BYTES as nat));
            return Err(e);
        }
        k = k + 1;
    }
    let sup = &intent.supersedes;
    let mut k: usize = 0;
    while k < sup.len()
        invariant
            k <= sup@.len(),
            sup@ == intent.supersedes@,
            forall|a: int| 0 <= a < k ==> (#[trigger] sup@[a])@ != intent.id@,
            forall|x: int, y: int| 0 <= x < y < k ==> (#[trigger] sup@[x])@ != (#[trigger] sup@[y])@,
        decreases sup@.len() - k,
    {
        if same_text(&sup[k], &intent.id) {
            assert(sup@[k as int]@ == intent.id@);
            return Err(validation("an intent cannot supersede itself"));
        }
        let mut j: usize = 0;
        while j < k
            invariant
                j <= k < sup@.len(),
                sup@ == intent.supersedes@,
                forall|x: int| 0 <= x < j ==> (#[trigger] sup@[x])@ != sup@[k as int]@,
            decreases k - j,
        {
            if same_text(&sup[j], &sup[k]) {
                assert(sup@[j as int]@ == sup@[k as int]@);
                return Err(validation("an intent is superseded twice"));
            }
            j = j + 1;
        }
        k = k + 1;
    }
    Ok(())
}

/// A profile may be stored at `revision`: a positive revision, a bounded
/// printable name of at most 4096 bytes, and setups and intents within the
/// collection bound.
pub open spec fn profile_draft_ok(p: ProfileDraft, revision: u32) -> bool {
    &&& revision > 0
    &&& text_ok(p.name@, 4096)
    &&& p.setup_ids@.len() <= MAX_COLLECTION_ITEMS
    &&& p.intent_ids@.len() <= MAX_COLLECTION_ITEMS
}

/// Checks a profile before a revision of it is stored (see
/// [`profile_draft_ok`]).
pub fn validate_profile(profile: &ProfileDraft, revision: u32) -> (r: Result<(), LibraryError>)
    ensures
        r is Ok <==> profile_draft_ok(*profile, revision),
        r matches Err(e) ==> e is Validation,
{
    if revision == 0 {
        return Err(validation("profile revision must be positive"));
    }
    if let Err(e) = validate_text(profile.name.as_str(), 4096) {
        return Err(e);
    }
    if let Err(e) = validate_collection_size(profile.setup_ids.len()) {
        return Err(e);
    }
    validate_collection_size(profile.intent_ids.len())
}

pub open spec fn text_views(v: Seq<String>) -> Seq<Seq<char>> {
    v.map_values(|t: String| t@)
}

/// The texts in ascending order.
pub open spec fn sorted_texts(ts: Seq<String>) -> Seq<Seq<char>> {
    text_views(in_order(ts, stable_order(text_keys(ts))))
}

/// Each requirement as its identity, kind name and statement, in turn.
pub open spec fn requirement_fields(rs: Seq<PortableRequirement>) -> Seq<Seq<char>>
    decreases rs.len(),
{
    if rs.len() == 0 {
        seq![]
    } else {
        requirement_fields(rs.drop_last()) + seq![rs.last().id@, rs.last().kind.spec_name(), rs.last().statement@]
    }
}

pub open spec fn bool_text(b: bool) -> Seq<char> {
    if b { "true"@ } else { "false"@ }
}

/// The fields of an intent operation's digest: the operation, the intent's
/// identity, actor, statement and status, its requirements ordered by
/// identity, what it supersedes in ascending order, then `extra`.
pub open spec fn intent_digest_fields(operation: Seq<char>, i: PortableIntent, extra: Seq<Seq<char>>) -> Seq<Seq<char>> {
    seq![operation, i.id@, i.actor_id@, i.actor_kind.spec_name(), bool_text(i.actor_interactive), i.statement@, i.status.spec_name()]
        + requirement_fields(in_order(i.requirements@, stable_order(requirement_keys(i.requirements@))))
        + sorted_texts(i.supersedes@) + extra
}

pub open spec fn expected_text(expected: Option<u32>) -> Seq<char> {
    match expected {
        Some(v) => decimal(v as nat),
        None => "none"@,
    }
}

/// The fields of a setup save's digest: its identity, revision, name,
/// description and expected previous revision, the intents and setups it
/// names in ascending order, then its values in order.
pub open spec fn setup_digest_fields(s: SetupDraft, expected: Option<u32>) -> Seq<Seq<char>> {
    seq!["save-setup"@, s.id@, decimal(s.revision as nat), s.name@, s.description@, expected_text(expected)]
        + sorted_texts(s.intent_ids@) + sorted_texts(s.included_setup_ids@) + text_views(s.portable_constraints@)
        + text_views(s.required_secret_refs@) + text_views(s.hardware_hints@)
}

/// The fields of a profile save's digest: its identity, revision, name,
/// machine class and expected previous revision, the intents and setups it
/// names in ascending order, then its values in order.
pub open spec fn profile_digest_fields(p: ProfileDraft, revision: u32, expected: Option<u32>) -> Seq<Seq<char>> {
    seq!["save-profile"@, p.id@, decimal(revision as nat), p.name@, p.machine_class.spec_name(), expected_text(expected)]
        + sorted_texts(p.intent_ids@) + sorted_texts(p.setup_ids@) + text_views(p.portable_constraints@)
        + text_views(p.hardware_hints@)
}

fn push_text(fields: &mut Vec<String>, t: String)
    ensures
        text_views(final(fields)@) == text_views(old(fields)@).push(t@),
{
    let ghost before = fields@;
    fields.push(t);
    assert(text_views(fields@) =~= text_views(before).push(t@));
}

fn push_texts(fields: &mut Vec<String>, ts: &Vec<String>)
    ensures
        text_views(final(fields)@) == text_views(old(fields)@) + text_views(ts@),
{
    let ghost start = text_views(fields@);
    let mut j: usize = 0;
    while j < ts.len()
        invariant
            j <= ts@.len(),
            text_views(fields@) == start + text_views(ts@).take(j as int),
        decreases ts@.len() - j,
    {
        push_text(fields, ts[j].clone());
        assert(text_views(ts@).take(j as int + 1) =~= text_views(ts@).take(j as int).push(ts@[j as int]@));
        j = j + 1;
    }
    assert(text_views(ts@).take(ts@.len() as int) =~= text_views(ts@));
}

fn push_sorted_texts(fields: &mut Vec<String>, ts: &Vec<String>)
    ensures
        text_views(final(fields)@) == text_views(old(fields)@) + sorted_texts(ts@),
{
    let ghost start = text_views(fields@);
    let keys = text_sort_keys(ts);
    let order = sort_order(&keys);
    proof {
        lemma_stable_order(text_keys(ts@), order@);
    }
    let ghost want = sorted_texts(ts@);
    let mut j: usize = 0;
    while j < order.len()
        invariant
            j <= order@.len(),
            order@.len() == ts@.len(),
            forall|a: int| 0 <= a < order@.len() ==> (#[trigger] order@[a]) < ts@.len(),
            want == text_views(in_order(ts@, order@)),
            text_views(fields@) == start + want.take(j as int),
        decreases order@.len() - j,
    {
        push_text(fields, ts[order[j]].clone());
        assert(want.take(j as int + 1) =~= want.take(j as int).push(ts@[order@[j as int] as int]@));
        j = j + 1;
    }
    assert(want.take(order@.len() as int) =~= want);
}

fn push_requirements(fields: &mut Vec<String>, rs: &Vec<PortableRequirement>)
    ensures
        text_views(final(fields)@) == text_views(old(fields)@) + requirement_fields(
            in_order(rs@, stable_order(requirement_keys(rs@))),
        ),
{
    let ghost start = text_views(fields@);
    let keys = requirement_sort_keys(rs);
    let order = sort_order(&keys);
    proof {
        lemma_stable_order(requirement_keys(rs@), order@);
    }
    let ghost sorted = in_order(rs@, order@);
    let mut j: usize = 0;
    while j < order.len()
        invariant
            j <= order@.len(),
            order@.len() == rs@.len(),
            forall|a: int| 0 <= a < order@.len() ==> (#[trigger] order@[a]) < rs@.len(),
            sorted == in_order(rs@, order@),
            text_views(fields@) == start + requirement_fields(sorted.take(j as int)),
        decreases order@.len() - j,
    {
        let r = &rs[order[j]];
        push_text(fields, r.id.clone());
        push_text(fields, requirement_kind_str(r.kind).to_string());
        push_text(fields, r.statement.clone());
        proof {
            let t = sorted.take(j as int + 1);
            assert(t.drop_last() =~= sorted.take(j as int));
            assert(t.last() == *r);
        }
        j = j + 1;
    }
    assert(sorted.take(order@.len() as int) =~= sorted);
}

/// The digest of an intent operation (see [`intent_digest_fields`]).
pub fn intent_operation_digest(operation: &str, intent: &PortableIntent, extra: &[&str]) -> (out: String)
    ensures
        out@ == fields_digest(intent_digest_fields(operation@, *intent, extra@.map_values(|e: &str| e@))),
{
    let mut fields: Vec<String> = Vec::new();
    push_text(&mut fields, operation.to_string());
    push_text(&mut fields, intent.id.clone());
    push_text(&mut fields, intent.actor_id.clone());
    push_text(&mut fields, actor_kind_str(intent.actor_kind).to_string());
    let flag = if intent.actor_interactive { "true".to_string() } else { "false".to_string() };
    push_text(&mut fields, flag);
    push_text(&mut fields, intent.statement.clone());
    push_text(&mut fields, intent_status_str(intent.status).to_string());
    let ghost head = text_views(fields@);
    assert(head =~= seq![
        operation@,
        intent.id@,
        intent.actor_id@,
        intent.actor_kind.spec_name(),
        bool_text(intent.actor_interactive),
        intent.statement@,
        intent.status.spec_name(),
    ]);
    push_requirements(&mut fields, &intent.requirements);
    push_sorted_texts(&mut fields, &intent.supersedes);
    let ghost mid = text_views(fields@);
    let ghost ev = extra@.map_values(|e: &str| e@);
    let mut j: usize = 0;
    while j < extra.len()
        invariant
            j <= extra@.len(),
            ev == extra@.map_values(|e: &str| e@),
            text_views(fields@) == mid + ev.take(j as int),
        decreases extra@.len() - j,
    {
        push_text(&mut fields, extra[j].to_string());
        assert(ev.take(j as int + 1) =~= ev.take(j as int).push(extra@[j as int]@));
        j = j + 1;
    }
    assert(ev.take(extra@.len() as int) =~= ev);
    assert(text_views(fields@) =~= intent_digest_fields(operation@, *intent, ev));
    digest_owned_fields(&fields)
}

fn expected_string(expected: Option<u32>) -> (out: String)
    ensures
        out@ == expected_text(expected),
{
    match expected {
        Some(v) => decimal_text(v as u64),
        None => "none".to_string(),
    }
}

/// The digest of a setup save (see [`setup_digest_fields`]).
pub fn setup_operation_digest(setup: &SetupDraft, expected: Option<u32>) -> (out: String)
    ensures
        out@ == fields_digest(setup_digest_fields(*setup, expected)),
{
    let mut fields: Vec<String> = Vec::new();
    push_text(&mut fields, "save-setup".to_string());
    push_text(&mut fields, setup.id.clone());
    push_text(&mut fields, decimal_text(setup.revision as u64));
    push_text(&mut fields, setup.name.clone());
    push_text(&mut fields, setup.description.clone());
    push_text(&mut fields, expected_string(expected));
    assert(text_views(fields@) =~= seq![
        "save-setup"@,
        setup.id@,
        decimal(setup.revision as nat),
        setup.name@,
        setup.description@,
        expected_text(expected),
    ]);
    push_sorted_texts(&mut fields, &setup.intent_ids);
    push_sorted_texts(&mut fields, &setup.included_setup_ids);
    push_texts(&mut fields, &setup.portable_constraints);
    push_texts(&mut fields, &setup.required_secret_refs);
    push_texts(&mut fields, &setup.hardware_hints);
    assert(text_views(fields@) =~= setup_digest_fields(*setup, expected));
    digest_owned_fields(&fields)
}

/// The digest of a profile save at `revision` (see
/// [`profile_digest_fields`]).
pub fn profile_operation_digest(profile: &ProfileDraft, revision: u32, expected: Option<u32>) -> (out: String)
    ensures
        out@ == fields_digest(profile_digest_fields(*profile, revision, expected)),
{
    let mut fields: Vec<String> = Vec::new();
    push_text(&mut fields, "save-profile".to_string());
    push_text(&mut fields, profile.id.clone());
    push_text(&mut fields, decimal_text(revision as u64));
    push_text(&mut fields, profile.name.clone());
    push_text(&mut fields, machine_class_str(profile.machine_class).to_string());
    push_text(&mut fields, expected_string(expected));
    assert(text_views(fields@) =~= seq![
        "save-profile"@,
        profile.id@,
        decimal(revision as nat),
        profile.name@,
        profile.machine_class.spec_name(),
        expected_text(expected),
    ]);
    push_sorted_texts(&mut fields, &profile.intent_ids);
    push_sorted_texts(&mut fields, &profile.setup_ids);
    push_texts(&mut fields, &profile.portable_constraints);
    push_texts(&mut fields, &profile.hardware_hints);
    assert(text_views(fields@) =~= profile_digest_fields(*profile, revision, expected));
    digest_owned_fields(&fields)
}

} // verus!
