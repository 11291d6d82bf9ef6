//! The durable record of a committed proposal acceptance: one `name=value`
//! line per field, and how a replay reads it back.
use vstd::prelude::*;
use crate::library::acceptance::{check_authority_binding, AuthorityTimeSeal, ProposalAcceptanceError, ProposalAcceptanceTarget};
use crate::library::records::ProposalAcceptanceAction;
use crate::num::{decimal, lemma_decimal, lemma_parse_decimal, parse_decimal, parse_unsigned, u64_decimal};
use crate::text::{chars_eq, chars_of, concat_str, has_prefix, join_char_lines, join_lines, lemma_lines_cons, lines, plain_line, slice_chars, split_lines, starts_with, string_of};

verus! {

/// What a Control-authorized acceptance commits: who accepted which
/// proposal under which decision, the intent it targets, and the digests
/// that bind the authority's evidence and the resulting intent.
#[derive(Clone, Debug, PartialEq, Eq)]
pub struct ProposalAcceptanceMaterial {
    pub principal: String,
    pub decision_id: String,
    pub decision_binding_digest: String,
    pub proposal_id: String,
    pub proposal_digest: String,
    pub accepted_context_digest: String,
    pub operation_id: String,
    pub target: ProposalAcceptanceTarget,
    pub authority_generation: u64,
    pub authority_evidence_digest: String,
    pub decision_validity_digest: String,
    pub resulting_intent_digest: String,
}

/// A committed acceptance: its material, the time seal it was linearized
/// under, and the intent revision it produced.
#[derive(Clone, Debug, PartialEq, Eq)]
pub struct ProposalAcceptanceRecord {
    pub material: ProposalAcceptanceMaterial,
    pub time_seal: AuthorityTimeSeal,
    pub resulting_intent_id: String,
    pub resulting_revision: u64,
    pub linearized_at_unix_ms: u64,
}

/// The content of an acceptance record.
pub struct AcceptanceRecordView {
    pub principal: Seq<char>,
    pub decision_id: Seq<char>,
    pub decision_binding_digest: Seq<char>,
    pub proposal_id: Seq<char>,
    pub proposal_digest: Seq<char>,
    pub accepted_context_digest: Seq<char>,
    pub operation_id: Seq<char>,
    pub action: ProposalAcceptanceAction,
    pub target_intent_id: Seq<char>,
    pub expected_revision: Option<u64>,
    pub authority_generation: u64,
    pub authority_evidence_digest: Seq<char>,
    pub decision_validity_digest: Seq<char>,
    pub resulting_intent_digest: Seq<char>,
    pub time_floor_unix_ms: u64,
    pub exclusive_deadline_unix_ms: u64,
    pub continuity_generation: u64,
    pub normalization_evidence_digest: Seq<char>,
    pub resulting_intent_id: Seq<char>,
    pub resulting_revision: u64,
    pub linearized_at_unix_ms: u64,
}

pub open spec fn record_view(r: ProposalAcceptanceRecord) -> AcceptanceRecordView {
    AcceptanceRecordView {
        principal: r.material.principal@,
        decision_id: r.material.decision_id@,
        decision_binding_digest: r.material.decision_binding_digest@,
        proposal_id: r.material.proposal_id@,
        proposal_digest: r.material.proposal_digest@,
        accepted_context_digest: r.material.accepted_context_digest@,
        operation_id: r.material.operation_id@,
        action: r.material.target.spec_action(),
        target_intent_id: r.material.target.spec_intent_id(),
        expected_revision: r.material.target.spec_expected_revision(),
        authority_generation: r.material.authority_generation,
        authority_evidence_digest: r.material.authority_evidence_digest@,
        decision_validity_digest: r.material.decision_validity_digest@,
        resulting_intent_digest: r.material.resulting_intent_digest@,
        time_floor_unix_ms: r.time_seal.time_floor_unix_ms,
        exclusive_deadline_unix_ms: r.time_seal.exclusive_deadline_unix_ms,
        continuity_generation: r.time_seal.continuity_generation,
        normalization_evidence_digest: r.time_seal.normalization_evidence_digest@,
        resulting_intent_id: r.resulting_intent_id@,
        resulting_revision: r.resulting_revision,
        linearized_at_unix_ms: r.linearized_at_unix_ms,
    }
}

pub open spec fn expected_text(expected: Option<u64>) -> Seq<char> {
    match expected {
        None => "none"@,
        Some(v) => decimal(v as nat),
    }
}

/// The field names of the record, in the order they are written.
pub open spec fn record_names() -> Seq<Seq<char>> {
    seq![
        "version"@, "principal"@, "decision_id"@, "decision_binding_digest"@, "proposal_id"@, "proposal_digest"@,
        "accepted_context_digest"@, "operation_id"@, "action"@, "target_intent_id"@, "expected_revision"@,
        "authority_generation"@, "authority_evidence_digest"@, "decision_validity_digest"@, "resulting_intent_digest"@,
        "time_floor_unix_ms"@, "exclusive_deadline_unix_ms"@, "continuity_generation"@, "normalization_evidence_digest"@,
        "resulting_intent_id"@, "resulting_revision"@, "linearized_at_unix_ms"@,
    ]
}

/// The field values of the record, in the same order.
pub open spec fn record_values(v: AcceptanceRecordView) -> Seq<Seq<char>> {
    seq![
        "1"@, v.principal, v.decision_id, v.decision_binding_digest, v.proposal_id, v.proposal_digest,
        v.accepted_context_digest, v.operation_id, v.action.spec_name(), v.target_intent_id, expected_text(v.expected_revision),
        decimal(v.authority_generation as nat), v.authority_evidence_digest, v.decision_validity_digest, v.resulting_intent_digest,
        decimal(v.time_floor_unix_ms as nat), decimal(v.exclusive_deadline_unix_ms as nat), decimal(v.continuity_generation as nat),
        v.normalization_evidence_digest, v.resulting_intent_id, decimal(v.resulting_revision as nat),
        decimal(v.linearized_at_unix_ms as nat),
    ]
}

/// `name=value`.
pub open spec fn field_line(name: Seq<char>, value: Seq<char>) -> Seq<char> {
    name + seq!['='] + value
}

/// The record's lines.
pub open spec fn record_lines(v: AcceptanceRecordView) -> Seq<Seq<char>> {
    Seq::new(22, |i: int| field_line(record_names()[i], record_values(v)[i]))
}

/// The record's payload: its lines separated by line feeds.
pub open spec fn record_text(v: AcceptanceRecordView) -> Seq<char> {
    join_lines(record_lines(v)).drop_last()
}

/// The value of the first line of `ls` that starts with `name=`.
pub open spec fn field_in(ls: Seq<Seq<char>>, name: Seq<char>) -> Option<Seq<char>>
    decreases ls.len(),
{
    if ls.len() == 0 {
        None
    } else if has_prefix(ls[0], name + seq!['=']) {
        Some(ls[0].skip(name.len() as int + 1))
    } else {
        field_in(ls.skip(1), name)
    }
}

/// A `u64` field.
pub open spec fn u64_field(ls: Seq<Seq<char>>, name: Seq<char>) -> Option<u64> {
    match field_in(ls, name) {
        Some(t) => match parse_unsigned(t, u64::MAX as nat) {
            Some(n) => Some(n as u64),
            None => None,
        },
        None => None,
    }
}

/// The target the lines record: the action, the target intent, and the
/// expected revision, which is `none` for a creation.
pub open spec fn target_in(ls: Seq<Seq<char>>) -> Option<(ProposalAcceptanceAction, Seq<char>, Option<u64>)> {
    match (field_in(ls, "target_intent_id"@), field_in(ls, "action"@)) {
        (Some(id), Some(a)) => if a == "create"@ {
            if field_in(ls, "expected_revision"@) == Some("none"@) {
                Some((ProposalAcceptanceAction::Create, id, None))
            } else {
                None
            }
        } else if a == "revise-proposed"@ {
            match u64_field(ls, "expected_revision"@) {
                Some(e) => Some((ProposalAcceptanceAction::ReviseProposed, id, Some(e))),
                None => None,
            }
        } else {
            None
        },
        _ => None,
    }
}

/// What a replay reads from the lines of a record, when every field it
/// needs is present and well formed.
pub open spec fn decode_record(ls: Seq<Seq<char>>) -> Option<AcceptanceRecordView> {
    let t = target_in(ls);
    let s = |n: Seq<char>| field_in(ls, n);
    let u = |n: Seq<char>| u64_field(ls, n);
    if t is Some && s("principal"@) is Some && s("decision_id"@) is Some && s("decision_binding_digest"@) is Some
        && s("proposal_id"@) is Some && s("proposal_digest"@) is Some && s("accepted_context_digest"@) is Some
        && s("operation_id"@) is Some && u("authority_generation"@) is Some && s("authority_evidence_digest"@) is Some
        && s("decision_validity_digest"@) is Some && s("resulting_intent_digest"@) is Some && u("time_floor_unix_ms"@) is Some
        && u("exclusive_deadline_unix_ms"@) is Some && u("continuity_generation"@) is Some
        && s("normalization_evidence_digest"@) is Some && s("resulting_intent_id"@) is Some
        && u("resulting_revision"@) is Some && u("linearized_at_unix_ms"@) is Some {
        Some(AcceptanceRecordView {
            principal: s("principal"@).unwrap(),
            decision_id: s("decision_id"@).unwrap(),
            decision_binding_digest: s("decision_binding_digest"@).unwrap(),
            proposal_id: s("proposal_id"@).unwrap(),
            proposal_digest: s("proposal_digest"@).unwrap(),
            accepted_context_digest: s("accepted_context_digest"@).unwrap(),
            operation_id: s("operation_id"@).unwrap(),
            action: t.unwrap().0,
            target_intent_id: t.unwrap().1,
            expected_revision: t.unwrap().2,
            authority_generation: u("authority_generation"@).unwrap(),
            authority_evidence_digest: s("authority_evidence_digest"@).unwrap(),
            decision_validity_digest: s("decision_validity_digest"@).unwrap(),
            resulting_intent_digest: s("resulting_intent_digest"@).unwrap(),
            time_floor_unix_ms: u("time_floor_unix_ms"@).unwrap(),
            exclusive_deadline_unix_ms: u("exclusive_deadline_unix_ms"@).unwrap(),
            continuity_generation: u("continuity_generation"@).unwrap(),
            normalization_evidence_digest: s("normalization_evidence_digest"@).unwrap(),
            resulting_intent_id: s("resulting_intent_id"@).unwrap(),
            resulting_revision: u("resulting_revision"@).unwrap(),
            linearized_at_unix_ms: u("linearized_at_unix_ms"@).unwrap(),
        })
    } else {
        None
    }
}

/// Text fields of a record that read back unchanged: no line feed, and no
/// carriage return at the end.
pub open spec fn plain_values(v: AcceptanceRecordView) -> bool {
    &&& plain_line(v.principal)
    &&& plain_line(v.decision_id)
    &&& plain_line(v.decision_binding_digest)
    &&& plain_line(v.proposal_id)
    &&& plain_line(v.proposal_digest)
    &&& plain_line(v.accepted_context_digest)
    &&& plain_line(v.operation_id)
    &&& plain_line(v.target_intent_id)
    &&& plain_line(v.authority_evidence_digest)
    &&& plain_line(v.decision_validity_digest)
    &&& plain_line(v.resulting_intent_digest)
    &&& plain_line(v.normalization_evidence_digest)
    &&& plain_line(v.resulting_intent_id)
}

proof fn lemma_no_prefix(a: Seq<char>, b: Seq<char>, va: Seq<char>)
    requires
        a != b,
        forall|i: int| 0 <= i < a.len() ==> a[i] != '=',
        forall|i: int| 0 <= i < b.len() ==> b[i] != '=',
    ensures
        !has_prefix(field_line(a, va), b + seq!['=']),
{
    let s = field_line(a, va);
    let p = b + seq!['='];
    if has_prefix(s, p) {
        if b.len() < a.len() {
            assert(s.take(p.len() as int)[b.len() as int] == p[b.len() as int]);
            assert(s[b.len() as int] == a[b.len() as int]);
        } else if b.len() > a.len() {
            assert(s.take(p.len() as int)[a.len() as int] == p[a.len() as int]);
            assert(s[a.len() as int] == '=');
            assert(p[a.len() as int] == b[a.len() as int]);
        } else {
            assert forall|i: int| 0 <= i < a.len() implies a[i] == b[i] by {
                assert(s.take(p.len() as int)[i] == p[i]);
                assert(s[i] == a[i]);
                assert(p[i] == b[i]);
            }
            assert(a =~= b);
        }
    }
}

/// In lines `name=value` with distinct names free of `=`, each name's value
/// is found.
proof fn lemma_field_in(names: Seq<Seq<char>>, values: Seq<Seq<char>>, k: int)
    requires
        names.len() == values.len(),
        0 <= k < names.len(),
        forall|i: int, j: int| 0 <= i < j < names.len() ==> names[i] != names[j],
        forall|i: int, c: int| 0 <= i < names.len() && 0 <= c < names[i].len() ==> names[i][c] != '=',
    ensures
        field_in(Seq::new(names.len(), |i: int| field_line(names[i], values[i])), names[k]) == Some(values[k]),
    decreases k,
{
    let ls = Seq::new(names.len(), |i: int| field_line(names[i], values[i]));
    if k == 0 {
        let p = names[0] + seq!['='];
        assert(ls[0].take(p.len() as int) =~= p);
        assert(ls[0].skip(names[0].len() as int + 1) =~= values[0]);
    } else {
        lemma_no_prefix(names[0], names[k], values[0]);
        let n2 = names.skip(1);
        let v2 = values.skip(1);
        assert forall|i: int, j: int| 0 <= i < j < n2.len() implies n2[i] != n2[j] by {
            assert(n2[i] == names[i + 1] && n2[j] == names[j + 1]);
        }
        assert forall|i: int, c: int| 0 <= i < n2.len() && 0 <= c < n2[i].len() implies n2[i][c] != '=' by {
            assert(n2[i] == names[i + 1]);
        }
        lemma_field_in(n2, v2, k - 1);
        assert(ls.skip(1) =~= Seq::new(n2.len(), |i: int| field_line(n2[i], v2[i])));
    }
}

/// A joined text without its final line feed reads back as the same lines,
/// when the last line is not empty.
proof fn lemma_lines_join_trimmed(ls: Seq<Seq<char>>)
    requires
        ls.len() > 0,
        forall|i: int| 0 <= i < ls.len() ==> plain_line(#[trigger] ls[i]),
        ls.last().len() > 0,
    ensures
        lines(join_lines(ls).drop_last()) == ls,
    decreases ls.len(),
{
    let rest = ls.skip(1);
    assert(plain_line(ls[0]));
    if ls.len() == 1 {
        assert(rest.len() == 0);
        assert(join_lines(rest) == Seq::<char>::empty());
        assert(join_lines(ls).drop_last() =~= ls[0]);
        crate::text::lemma_first_index_of(ls[0], '\n');
        assert(lines(ls[0]) =~= seq![ls[0]]);
        assert(ls =~= seq![ls[0]]);
    } else {
        assert forall|i: int| 0 <= i < rest.len() implies plain_line(#[trigger] rest[i]) by {
            assert(rest[i] == ls[i + 1]);
        }
        assert(rest.last() == ls.last());
        lemma_lines_join_trimmed(rest);
        let jr = join_lines(rest);
        assert(jr.len() > 0) by {
            assert(jr == rest[0] + seq!['\n'] + join_lines(rest.skip(1)));
        }
        assert(join_lines(ls).drop_last() =~= ls[0] + seq!['\n'] + jr.drop_last());
        lemma_lines_cons(ls[0], jr.drop_last());
        assert(crate::text::strip_cr(ls[0]) == ls[0]);
        assert(seq![ls[0]] + rest =~= ls);
    }
}

/// The action and expected revision agree: a creation expects nothing, a
/// revision expects a revision.
pub open spec fn consistent_target(v: AcceptanceRecordView) -> bool {
    (v.action == ProposalAcceptanceAction::Create) == (v.expected_revision is None)
}

proof fn lemma_record_names()
    ensures
        record_names().len() == 22,
        forall|i: int, j: int| 0 <= i < j < 22 ==> record_names()[i] != record_names()[j],
        forall|i: int, c: int| 0 <= i < 22 && 0 <= c < record_names()[i].len() ==> record_names()[i][c] != '=' && record_names()[i][c] != '\n',
        forall|i: int| 0 <= i < 22 ==> record_names()[i].len() > 0,
{
    reveal_strlit("version");
    reveal_strlit("principal");
    reveal_strlit("decision_id");
    reveal_strlit("decision_binding_digest");
    reveal_strlit("proposal_id");
    reveal_strlit("proposal_digest");
    reveal_strlit("accepted_context_digest");
    reveal_strlit("operation_id");
    reveal_strlit("action");
    reveal_strlit("target_intent_id");
    reveal_strlit("expected_revision");
    reveal_strlit("authority_generation");
    reveal_strlit("authority_evidence_digest");
    reveal_strlit("decision_validity_digest");
    reveal_strlit("resulting_intent_digest");
    reveal_strlit("time_floor_unix_ms");
    reveal_strlit("exclusive_deadline_unix_ms");
    reveal_strlit("continuity_generation");
    reveal_strlit("normalization_evidence_digest");
    reveal_strlit("resulting_intent_id");
    reveal_strlit("resulting_revision");
    reveal_strlit("linearized_at_unix_ms");
    let n = record_names();
    assert forall|i: int, j: int| 0 <= i < j < 22 implies n[i] != n[j] by {
        if n[i] == n[j] {
            assert(n[i].len() == n[j].len());
            assert(n[i][0] == n[j][0]);
            assert(n[i][1] == n[j][1]);
            assert(n[i][n[i].len() - 1] == n[j][n[j].len() - 1]);
        }
    }
}

proof fn lemma_decimal_plain(n: nat)
    ensures
        plain_line(decimal(n)),
{
    lemma_decimal(n);
    let d = decimal(n);
    assert forall|i: int| 0 <= i < d.len() implies d[i] != '\n' by {
        assert(crate::num::is_digit(d[i]));
    }
    assert(crate::num::is_digit(d[d.len() - 1]));
}

/// The record's payload splits back into its lines, and each field name
/// finds its own value.
proof fn lemma_record_fields(v: AcceptanceRecordView)
    requires
        plain_values(v),
    ensures
        lines(record_text(v)) == record_lines(v),
        forall|k: int| 0 <= k < 22 ==> field_in(record_lines(v), #[trigger] record_names()[k]) == Some(record_values(v)[k]),
{
    lemma_record_names();
    reveal_strlit("1");
    reveal_strlit("none");
    reveal_strlit("create");
    reveal_strlit("revise-proposed");
    let names = record_names();
    let values = record_values(v);
    let ls = record_lines(v);
    lemma_decimal_plain(v.authority_generation as nat);
    lemma_decimal_plain(v.time_floor_unix_ms as nat);
    lemma_decimal_plain(v.exclusive_deadline_unix_ms as nat);
    lemma_decimal_plain(v.continuity_generation as nat);
    lemma_decimal_plain(v.resulting_revision as nat);
    lemma_decimal_plain(v.linearized_at_unix_ms as nat);
    match v.expected_revision {
        Some(e) => lemma_decimal_plain(e as nat),
        None => {},
    }
    assert forall|i: int| 0 <= i < 22 implies plain_line(#[trigger] values[i]) by {}
    assert forall|i: int| 0 <= i < ls.len() implies plain_line(#[trigger] ls[i]) by {
        let l = field_line(names[i], values[i]);
        assert(ls[i] == l);
        assert(plain_line(values[i]));
        assert forall|c: int| 0 <= c < l.len() implies l[c] != '\n' by {
            if c < names[i].len() {
                assert(l[c] == names[i][c]);
            } else if c > names[i].len() {
                assert(l[c] == values[i][c - names[i].len() - 1]);
            }
        }
        if values[i].len() > 0 {
            assert(l.last() == values[i].last());
        }
    }
    assert(ls.last().len() > 0) by {
        assert(ls.last() == field_line(names[21], values[21]));
    }
    lemma_lines_join_trimmed(ls);
    assert(lines(record_text(v)) == ls);
    assert(ls =~= Seq::new(names.len(), |i: int| field_line(names[i], values[i])));
    assert forall|k: int| 0 <= k < 22 implies field_in(ls, #[trigger] names[k]) == Some(values[k]) by {
        lemma_field_in(names, values, k);
    }
}

/// A record's payload reads back as the record: every field a replay needs
/// decodes to the value that was written.
pub proof fn law_acceptance_record_round_trip(v: AcceptanceRecordView)
    requires
        plain_values(v),
        consistent_target(v),
    ensures
        decode_record(lines(record_text(v))) == Some(v),
{
    lemma_record_fields(v);
    lemma_record_names();
    reveal_strlit("none");
    reveal_strlit("create");
    reveal_strlit("revise-proposed");
    let names = record_names();
    let ls = record_lines(v);
    assert(field_in(ls, "principal"@) == Some(v.principal)) by { assert(names[1] == "principal"@); }
    assert(field_in(ls, "decision_id"@) == Some(v.decision_id)) by { assert(names[2] == "decision_id"@); }
    assert(field_in(ls, "decision_binding_digest"@) == Some(v.decision_binding_digest)) by { assert(names[3] == "decision_binding_digest"@); }
    assert(field_in(ls, "proposal_id"@) == Some(v.proposal_id)) by { assert(names[4] == "proposal_id"@); }
    assert(field_in(ls, "proposal_digest"@) == Some(v.proposal_digest)) by { assert(names[5] == "proposal_digest"@); }
    assert(field_in(ls, "accepted_context_digest"@) == Some(v.accepted_context_digest)) by { assert(names[6] == "accepted_context_digest"@); }
    assert(field_in(ls, "operation_id"@) == Some(v.operation_id)) by { assert(names[7] == "operation_id"@); }
    assert(field_in(ls, "action"@) == Some(v.action.spec_name())) by { assert(names[8] == "action"@); }
    assert(field_in(ls, "target_intent_id"@) == Some(v.target_intent_id)) by { assert(names[9] == "target_intent_id"@); }
    assert(field_in(ls, "expected_revision"@) == Some(expected_text(v.expected_revision))) by { assert(names[10] == "expected_revision"@); }
    assert(field_in(ls, "authority_generation"@) == Some(decimal(v.authority_generation as nat))) by { assert(names[11] == "authority_generation"@); }
    assert(field_in(ls, "authority_evidence_digest"@) == Some(v.authority_evidence_digest)) by { assert(names[12] == "authority_evidence_digest"@); }
    assert(field_in(ls, "decision_validity_digest"@) == Some(v.decision_validity_digest)) by { assert(names[13] == "decision_validity_digest"@); }
    assert(field_in(ls, "resulting_intent_digest"@) == Some(v.resulting_intent_digest)) by { assert(names[14] == "resulting_intent_digest"@); }
    assert(field_in(ls, "time_floor_unix_ms"@) == Some(decimal(v.time_floor_unix_ms as nat))) by { assert(names[15] == "time_floor_unix_ms"@); }
    assert(field_in(ls, "exclusive_deadline_unix_ms"@) == Some(decimal(v.exclusive_deadline_unix_ms as nat))) by { assert(names[16] == "exclusive_deadline_unix_ms"@); }
    assert(field_in(ls, "continuity_generation"@) == Some(decimal(v.continuity_generation as nat))) by { assert(names[17] == "continuity_generation"@); }
    assert(field_in(ls, "normalization_evidence_digest"@) == Some(v.normalization_evidence_digest)) by { assert(names[18] == "normalization_evidence_digest"@); }
    assert(field_in(ls, "resulting_intent_id"@) == Some(v.resulting_intent_id)) by { assert(names[19] == "resulting_intent_id"@); }
    assert(field_in(ls, "resulting_revision"@) == Some(decimal(v.resulting_revision as nat))) by { assert(names[20] == "resulting_revision"@); }
    assert(field_in(ls, "linearized_at_unix_ms"@) == Some(decimal(v.linearized_at_unix_ms as nat))) by { assert(names[21] == "linearized_at_unix_ms"@); }
    lemma_parse_decimal(v.authority_generation as nat, u64::MAX as nat);
    lemma_parse_decimal(v.time_floor_unix_ms as nat, u64::MAX as nat);
    lemma_parse_decimal(v.exclusive_deadline_unix_ms as nat, u64::MAX as nat);
    lemma_parse_decimal(v.continuity_generation as nat, u64::MAX as nat);
    lemma_parse_decimal(v.resulting_revision as nat, u64::MAX as nat);
    lemma_parse_decimal(v.linearized_at_unix_ms as nat, u64::MAX as nat);
    match v.expected_revision {
        Some(e) => lemma_parse_decimal(e as nat, u64::MAX as nat),
        None => {},
    }
    match v.action {
        ProposalAcceptanceAction::Create => {
            assert(v.action.spec_name() == "create"@);
            assert(v.expected_revision is None);
        },
        ProposalAcceptanceAction::ReviseProposed => {
            assert(v.action.spec_name() == "revise-proposed"@);
            assert("create"@.len() == 6);
            assert("revise-proposed"@.len() == 15);
            assert(v.action.spec_name() != "create"@);
            let e = v.expected_revision.unwrap();
            assert(u64_field(ls, "expected_revision"@) == Some(e));
        },
    }
    assert(target_in(ls) == Some((v.action, v.target_intent_id, v.expected_revision)));
}

fn field_entry(name: &str, value: Vec<char>) -> (r: Vec<char>)
    ensures
        r@ == field_line(name@, value@),
{
    let mut out = chars_of(name);
    out.push('=');
    let mut v = value;
    out.append(&mut v);
    out
}

fn text_of(s: &String) -> (r: Vec<char>)
    ensures
        r@ == s@,
{
    chars_of(s.as_str())
}

/// The durable payload of an acceptance record (see [`record_text`]).
pub fn record_payload(record: &ProposalAcceptanceRecord) -> (r: String)
    ensures
        r@ == record_text(record_view(*record)),
{
    let m = &record.material;
    let t = &record.time_seal;
    let mut ls: Vec<Vec<char>> = Vec::new();
    ls.push(field_entry("version", chars_of("1")));
    ls.push(field_entry("principal", text_of(&m.principal)));
    ls.push(field_entry("decision_id", text_of(&m.decision_id)));
    ls.push(field_entry("decision_binding_digest", text_of(&m.decision_binding_digest)));
    ls.push(field_entry("proposal_id", text_of(&m.proposal_id)));
    ls.push(field_entry("proposal_digest", text_of(&m.proposal_digest)));
    ls.push(field_entry("accepted_context_digest", text_of(&m.accepted_context_digest)));
    ls.push(field_entry("operation_id", text_of(&m.operation_id)));
    ls.push(field_entry("action", chars_of(m.target.action().as_str())));
    ls.push(field_entry("target_intent_id", chars_of(m.target.intent_id())));
    let expected = match m.target.expected_revision() {
        None => chars_of("none"),
        Some(e) => u64_decimal(e),
    };
    ls.push(field_entry("expected_revision", expected));
    ls.push(field_entry("authority_generation", u64_decimal(m.authority_generation)));
    ls.push(field_entry("authority_evidence_digest", text_of(&m.authority_evidence_digest)));
    ls.push(field_entry("decision_validity_digest", text_of(&m.decision_validity_digest)));
    ls.push(field_entry("resulting_intent_digest", text_of(&m.resulting_intent_digest)));
    ls.push(field_entry("time_floor_unix_ms", u64_decimal(t.time_floor_unix_ms)));
    ls.push(field_entry("exclusive_deadline_unix_ms", u64_decimal(t.exclusive_deadline_unix_ms)));
    ls.push(field_entry("continuity_generation", u64_decimal(t.continuity_generation)));
    ls.push(field_entry("normalization_evidence_digest", text_of(&t.normalization_evidence_digest)));
    ls.push(field_entry("resulting_intent_id", text_of(&record.resulting_intent_id)));
    ls.push(field_entry("resulting_revision", u64_decimal(record.resulting_revision)));
    ls.push(field_entry("linearized_at_unix_ms", u64_decimal(record.linearized_at_unix_ms)));
    let ghost v = record_view(*record);
    assert(ls@.map_values(|l: Vec<char>| l@) =~= record_lines(v));
    let mut text = join_char_lines(&ls);
    proof {
        let rl = record_lines(v);
        assert(join_lines(rl) == rl[0] + seq!['\n'] + join_lines(rl.skip(1)));
    }
    text.pop();
    string_of(&text)
}

/// The message for a field missing from a durable record.
pub open spec fn missing_message(name: Seq<char>) -> Seq<char> {
    "missing "@ + name + " in durable proposal acceptance record"@
}

/// The message for a malformed numeric field.
pub open spec fn invalid_message(name: Seq<char>) -> Seq<char> {
    "invalid "@ + name + " in durable proposal acceptance record"@
}

fn message(a: &str, b: &str, c: &str) -> (r: String)
    ensures
        r@ == a@ + b@ + c@,
{
    let x = concat_str(a, b);
    concat_str(x.as_str(), c)
}

/// The value of the first line of `payload` that starts with `name=`.
pub fn record_field(payload: &str, name: &str) -> (r: Result<String, ProposalAcceptanceError>)
    ensures
        match field_in(lines(payload@), name@) {
            Some(v) => r matches Ok(s) && s@ == v,
            None => r matches Err(ProposalAcceptanceError::Corrupt(m)) && m@ == missing_message(name@),
        },
{
    let chars = chars_of(payload);
    let ls = split_lines(&chars);
    let ghost all = lines(payload@);
    let mut prefix = chars_of(name);
    prefix.push('=');
    let mut i: usize = 0;
    assert(all.skip(0) =~= all);
    while i < ls.len()
        invariant
            i <= ls@.len(),
            all == lines(payload@),
            ls@.len() == all.len(),
            forall|k: int| 0 <= k < ls@.len() ==> #[trigger] ls@[k]@ == all[k],
            prefix@ == name@ + seq!['='],
            field_in(all, name@) == field_in(all.skip(i as int), name@),
        decreases ls@.len() - i,
    {
        assert(all.skip(i as int)[0] == all[i as int]);
        if starts_with(&ls[i], &prefix) {
            let value = slice_chars(&ls[i], prefix.len(), ls[i].len());
            assert(value@ =~= all[i as int].skip(name@.len() as int + 1));
            assert(has_prefix(all.skip(i as int)[0], name@ + seq!['=']));
            assert(all.skip(i as int).len() > 0);
            assert(field_in(all.skip(i as int), name@) == Some(all[i as int].skip(name@.len() as int + 1)));
            return Ok(string_of(&value));
        }
        assert(all.skip(i as int).skip(1) =~= all.skip(i as int + 1));
        i = i + 1;
    }
    assert(all.skip(i as int).len() == 0);
    Err(ProposalAcceptanceError::Corrupt(message("missing ", name, " in durable proposal acceptance record")))
}

/// A `u64` field of a durable record.
pub fn record_u64(payload: &str, name: &str) -> (r: Result<u64, ProposalAcceptanceError>)
    ensures
        match field_in(lines(payload@), name@) {
            None => r matches Err(ProposalAcceptanceError::Corrupt(m)) && m@ == missing_message(name@),
            Some(t) => match parse_unsigned(t, u64::MAX as nat) {
                Some(n) => r == Ok::<u64, ProposalAcceptanceError>(n as u64),
                None => r matches Err(ProposalAcceptanceError::Corrupt(m)) && m@ == invalid_message(name@),
            },
        },
{
    let text = record_field(payload, name)?;
    match parse_decimal(&chars_of(text.as_str()), u64::MAX) {
        Some(n) => Ok(n),
        None => Err(ProposalAcceptanceError::Corrupt(message("invalid ", name, " in durable proposal acceptance record"))),
    }
}

fn is_text(chars: &String, lit_text: &str) -> (r: bool)
    ensures
        r == (chars@ == lit_text@),
{
    chars_eq(&chars_of(chars.as_str()), &chars_of(lit_text))
}

/// The target a durable record names (see [`target_in`]).
pub fn parse_target(payload: &str) -> (r: Result<ProposalAcceptanceTarget, ProposalAcceptanceError>)
    ensures
        match target_in(lines(payload@)) {
            Some((a, id, e)) => r matches Ok(t) && t.spec_action() == a && t.spec_intent_id() == id && t.spec_expected_revision() == e,
            None => r matches Err(e) && e is Corrupt,
        },
{
    let intent_id = record_field(payload, "target_intent_id")?;
    let action = record_field(payload, "action")?;
    if is_text(&action, "create") {
        let expected = record_field(payload, "expected_revision")?;
        if !is_text(&expected, "none") {
            return Err(ProposalAcceptanceError::Corrupt(string_of(&chars_of(
                "create acceptance unexpectedly has target revision",
            ))));
        }
        return Ok(ProposalAcceptanceTarget::Create { intent_id });
    }
    if is_text(&action, "revise-proposed") {
        let expected_revision = record_u64(payload, "expected_revision")?;
        return Ok(ProposalAcceptanceTarget::ReviseProposed { intent_id, expected_revision });
    }
    Err(ProposalAcceptanceError::Corrupt(concat_str("unknown durable proposal acceptance action ", action.as_str())))
}

/// Reads a durable acceptance record back (see [`decode_record`]).
pub fn parse_acceptance_record(payload: &str) -> (r: Result<ProposalAcceptanceRecord, ProposalAcceptanceError>)
    ensures
        match decode_record(lines(payload@)) {
            Some(v) => r matches Ok(rec) && record_view(rec) == v,
            None => r matches Err(e) && e is Corrupt,
        },
{
    let target = parse_target(payload)?;
    let principal = record_field(payload, "principal")?;
    let decision_id = record_field(payload, "decision_id")?;
    let decision_binding_digest = record_field(payload, "decision_binding_digest")?;
    let proposal_id = record_field(payload, "proposal_id")?;
    let proposal_digest = record_field(payload, "proposal_digest")?;
    let accepted_context_digest = record_field(payload, "accepted_context_digest")?;
    let operation_id = record_field(payload, "operation_id")?;
    let authority_generation = record_u64(payload, "authority_generation")?;
    let authority_evidence_digest = record_field(payload, "authority_evidence_digest")?;
    let decision_validity_digest = record_field(payload, "decision_validity_digest")?;
    let resulting_intent_digest = record_field(payload, "resulting_intent_digest")?;
    let time_floor_unix_ms = record_u64(payload, "time_floor_unix_ms")?;
    let exclusive_deadline_unix_ms = record_u64(payload, "exclusive_deadline_unix_ms")?;
    let continuity_generation = record_u64(payload, "continuity_generation")?;
    let normalization_evidence_digest = record_field(payload, "normalization_evidence_digest")?;
    let resulting_intent_id = record_field(payload, "resulting_intent_id")?;
    let resulting_revision = record_u64(payload, "resulting_revision")?;
    let linearized_at_unix_ms = record_u64(payload, "linearized_at_unix_ms")?;
    Ok(ProposalAcceptanceRecord {
        material: ProposalAcceptanceMaterial {
            principal,
            decision_id,
            decision_binding_digest,
            proposal_id,
            proposal_digest,
            accepted_context_digest,
            operation_id,
            target,
            authority_generation,
            authority_evidence_digest,
            decision_validity_digest,
            resulting_intent_digest,
        },
        time_seal: AuthorityTimeSeal { time_floor_unix_ms, exclusive_deadline_unix_ms, continuity_generation, normalization_evidence_digest },
        resulting_intent_id,
        resulting_revision,
        linearized_at_unix_ms,
    })
}

/// The operation record's result must agree with the durable record.
pub fn check_replay_result(record: &ProposalAcceptanceRecord, result_id: &str, result_revision: i64) -> (r: Result<(), ProposalAcceptanceError>)
    ensures
        r is Ok <==> result_revision >= 0 && record.resulting_intent_id@ == result_id@ && record.resulting_revision == result_revision,
        r matches Err(e) ==> e is Corrupt,
{
    if result_revision < 0 {
        return Err(ProposalAcceptanceError::Corrupt(string_of(&chars_of("invalid result revision"))));
    }
    if !chars_eq(&chars_of(record.resulting_intent_id.as_str()), &chars_of(result_id)) || record.resulting_revision != result_revision as u64 {
        return Err(ProposalAcceptanceError::Corrupt(string_of(&chars_of(
            "durable acceptance result disagrees with operation record",
        ))));
    }
    Ok(())
}

/// The identity a replay request claims for an operation.
#[derive(Clone, Debug, PartialEq, Eq)]
pub struct ProposalAcceptanceReplayKey {
    pub principal: String,
    pub proposal_id: String,
    pub proposal_digest: String,
    pub decision_id: String,
    pub operation_id: String,
    pub target: ProposalAcceptanceTarget,
    pub resulting_intent_digest: String,
}

/// The record fields a replay compares with its key, in order, and the
/// values the key requires of them.
pub open spec fn key_checks(k: ProposalAcceptanceReplayKey) -> Seq<(Seq<char>, Seq<char>)> {
    seq![
        ("principal"@, k.principal@),
        ("proposal_id"@, k.proposal_id@),
        ("proposal_digest"@, k.proposal_digest@),
        ("decision_id"@, k.decision_id@),
        ("operation_id"@, k.operation_id@),
        ("action"@, k.target.spec_action().spec_name()),
        ("target_intent_id"@, k.target.spec_intent_id()),
        ("expected_revision"@, expected_text(k.target.spec_expected_revision())),
        ("resulting_intent_digest"@, k.resulting_intent_digest@),
    ]
}

/// The comparisons in order: a missing field is `None`, the first
/// difference is `Some(false)`, and agreement throughout is `Some(true)`.
pub open spec fn checks_verdict(ls: Seq<Seq<char>>, checks: Seq<(Seq<char>, Seq<char>)>) -> Option<bool>
    decreases checks.len(),
{
    if checks.len() == 0 {
        Some(true)
    } else {
        match field_in(ls, checks[0].0) {
            None => None,
            Some(x) => if x != checks[0].1 {
                Some(false)
            } else {
                checks_verdict(ls, checks.skip(1))
            },
        }
    }
}

fn field_matches(payload: &str, name: &str, expected: Vec<char>) -> (r: Result<bool, ProposalAcceptanceError>)
    ensures
        match field_in(lines(payload@), name@) {
            None => r matches Err(e) && e is Corrupt,
            Some(x) => r == Ok::<bool, ProposalAcceptanceError>(x == expected@),
        },
{
    let value = record_field(payload, name)?;
    Ok(chars_eq(&chars_of(value.as_str()), &expected))
}

/// A replay may answer only when the durable record carries exactly the
/// identity the request claims; any other record under the operation id is
/// an identity conflict.
pub fn check_replay_identity(payload: &str, key: &ProposalAcceptanceReplayKey) -> (r: Result<(), ProposalAcceptanceError>)
    ensures
        match checks_verdict(lines(payload@), key_checks(*key)) {
            None => r matches Err(e) && e is Corrupt,
            Some(false) => r matches Err(ProposalAcceptanceError::IdentityConflict { kind, id }) && kind@ == "operation"@
                && id@ == key.operation_id@,
            Some(true) => r is Ok,
        },
{
    proof {
        reveal_with_fuel(checks_verdict, 10);
        reveal_strlit("none");
    }
    let ghost ls = lines(payload@);
    let ghost c = key_checks(*key);
    let expected = match key.target.expected_revision() {
        None => chars_of("none"),
        Some(e) => u64_decimal(e),
    };
    let checks_ok = field_matches(payload, "principal", chars_of(key.principal.as_str()))?
        && field_matches(payload, "proposal_id", chars_of(key.proposal_id.as_str()))?
        && field_matches(payload, "proposal_digest", chars_of(key.proposal_digest.as_str()))?
        && field_matches(payload, "decision_id", chars_of(key.decision_id.as_str()))?
        && field_matches(payload, "operation_id", chars_of(key.operation_id.as_str()))?
        && field_matches(payload, "action", chars_of(key.target.action().as_str()))?
        && field_matches(payload, "target_intent_id", chars_of(key.target.intent_id()))?
        && field_matches(payload, "expected_revision", expected)?
        && field_matches(payload, "resulting_intent_digest", chars_of(key.resulting_intent_digest.as_str()))?;
    if !checks_ok {
        return Err(ProposalAcceptanceError::IdentityConflict { kind: "operation", id: string_of(&chars_of(key.operation_id.as_str())) });
    }
    Ok(())
}

/// A replay key names the acceptance a record holds.
pub open spec fn key_of_record(k: ProposalAcceptanceReplayKey, v: AcceptanceRecordView) -> bool {
    &&& k.principal@ == v.principal
    &&& k.proposal_id@ == v.proposal_id
    &&& k.proposal_digest@ == v.proposal_digest
    &&& k.decision_id@ == v.decision_id
    &&& k.operation_id@ == v.operation_id
    &&& k.target.spec_action() == v.action
    &&& k.target.spec_intent_id() == v.target_intent_id
    &&& k.target.spec_expected_revision() == v.expected_revision
    &&& k.resulting_intent_digest@ == v.resulting_intent_digest
}

/// Replaying with the key an acceptance was committed under passes the
/// identity check of its durable record.
pub proof fn law_recorded_key_replays(v: AcceptanceRecordView, k: ProposalAcceptanceReplayKey)
    requires
        plain_values(v),
        key_of_record(k, v),
    ensures
        checks_verdict(lines(record_text(v)), key_checks(k)) == Some(true),
{
    lemma_record_fields(v);
    lemma_record_names();
    reveal_with_fuel(checks_verdict, 10);
    let names = record_names();
    let ls = record_lines(v);
    let c = key_checks(k);
    assert(field_in(ls, c[0].0) == Some(c[0].1)) by { assert(names[1] == c[0].0); }
    assert(field_in(ls, c[1].0) == Some(c[1].1)) by { assert(names[4] == c[1].0); }
    assert(field_in(ls, c[2].0) == Some(c[2].1)) by { assert(names[5] == c[2].0); }
    assert(field_in(ls, c[3].0) == Some(c[3].1)) by { assert(names[2] == c[3].0); }
    assert(field_in(ls, c[4].0) == Some(c[4].1)) by { assert(names[7] == c[4].0); }
    assert(field_in(ls, c[5].0) == Some(c[5].1)) by { assert(names[8] == c[5].0); }
    assert(field_in(ls, c[6].0) == Some(c[6].1)) by { assert(names[9] == c[6].0); }
    assert(field_in(ls, c[7].0) == Some(c[7].1)) by { assert(names[10] == c[7].0); }
    assert(field_in(ls, c[8].0) == Some(c[8].1)) by { assert(names[14] == c[8].0); }
    assert(c.skip(1).skip(1).skip(1).skip(1).skip(1).skip(1).skip(1).skip(1).skip(1).len() == 0);
    assert(c.skip(1)[0] == c[1]);
    assert(c.skip(1).skip(1)[0] == c[2]);
    assert(c.skip(1).skip(1).skip(1)[0] == c[3]);
    assert(c.skip(1).skip(1).skip(1).skip(1)[0] == c[4]);
    assert(c.skip(1).skip(1).skip(1).skip(1).skip(1)[0] == c[5]);
    assert(c.skip(1).skip(1).skip(1).skip(1).skip(1).skip(1)[0] == c[6]);
    assert(c.skip(1).skip(1).skip(1).skip(1).skip(1).skip(1).skip(1)[0] == c[7]);
    assert(c.skip(1).skip(1).skip(1).skip(1).skip(1).skip(1).skip(1).skip(1)[0] == c[8]);
}

/// The authority bindings name exactly the replaying verifier.
pub open spec fn binding_holds(bindings: Seq<String>, fingerprint: Seq<char>) -> bool {
    bindings.len() == 1 && bindings[0]@ == fingerprint
}

/// The time evidence of a read record: a valid seal (see
/// [`AuthorityTimeSeal::validate`]).
pub open spec fn seal_ok(v: AcceptanceRecordView) -> bool {
    v.time_floor_unix_ms != 0 && v.time_floor_unix_ms < v.exclusive_deadline_unix_ms && v.continuity_generation != 0
}

/// The linearization time lies in the sealed window, whose deadline is
/// exclusive.
pub open spec fn linearized_in_window(v: AcceptanceRecordView) -> bool {
    v.time_floor_unix_ms <= v.linearized_at_unix_ms && v.linearized_at_unix_ms < v.exclusive_deadline_unix_ms
}

/// Every copy of the record kept under the proposal and decision indexes
/// is the record itself.
pub open spec fn copies_agree(payload: Seq<char>, copies: Seq<String>) -> bool {
    forall|i: int| 0 <= i < copies.len() ==> (#[trigger] copies[i])@ == payload
}

/// The operation record's result is the durable record's.
pub open spec fn result_agrees(v: AcceptanceRecordView, result_id: Seq<char>, result_revision: i64) -> bool {
    result_revision >= 0 && v.resulting_intent_id == result_id && v.resulting_revision == result_revision
}

/// Replays a committed acceptance: only the provisioned authority may, and
/// the durable record must read back, agree with each of its index copies,
/// carry a valid seal with its linearization time inside the sealed window,
/// and agree with the operation record. Gives the record.
pub fn decide_replay(
    bindings: &[String],
    fingerprint: &str,
    payload: &str,
    copies: &Vec<String>,
    result_id: &str,
    result_revision: i64,
) -> (r: Result<ProposalAcceptanceRecord, ProposalAcceptanceError>)
    ensures
        bindings@.len() == 0 ==> r == Err::<ProposalAcceptanceRecord, ProposalAcceptanceError>(ProposalAcceptanceError::AuthorityNotProvisioned),
        bindings@.len() == 1 && bindings@[0]@ != fingerprint@ ==> r == Err::<ProposalAcceptanceRecord, ProposalAcceptanceError>(
            ProposalAcceptanceError::AuthorityBindingMismatch,
        ),
        bindings@.len() > 1 ==> (r matches Err(e) && e is Corrupt),
        binding_holds(bindings@, fingerprint@) ==> match decode_record(lines(payload@)) {
            None => r matches Err(e) && e is Corrupt,
            Some(v) => if !copies_agree(payload@, copies@) {
                r matches Err(e) && e is Corrupt
            } else if !seal_ok(v) {
                r matches Err(e) && e is InvalidTimeSeal
            } else if !linearized_in_window(v) || !result_agrees(v, result_id@, result_revision) {
                r matches Err(e) && e is Corrupt
            } else {
                r matches Ok(rec) && record_view(rec) == v
            },
        },
{
    if let Err(e) = check_authority_binding(bindings, fingerprint) {
        return Err(e);
    }
    let record = match parse_acceptance_record(payload) {
        Ok(rec) => rec,
        Err(e) => return Err(e),
    };
    let text = chars_of(payload);
    assert(binding_holds(bindings@, fingerprint@));
    let mut i: usize = 0;
    while i < copies.len()
        invariant
            i <= copies@.len(),
            text@ == payload@,
            binding_holds(bindings@, fingerprint@),
            forall|j: int| 0 <= j < i ==> (#[trigger] copies@[j])@ == payload@,
        decreases copies@.len() - i,
    {
        if !chars_eq(&chars_of(copies[i].as_str()), &text) {
            return Err(ProposalAcceptanceError::Corrupt(string_of(&chars_of(
                "durable acceptance record disagrees with its index copies",
            ))));
        }
        i = i + 1;
    }
    if let Err(e) = record.time_seal.validate() {
        return Err(e);
    }
    if record.linearized_at_unix_ms < record.time_seal.time_floor_unix_ms
        || record.linearized_at_unix_ms >= record.time_seal.exclusive_deadline_unix_ms {
        return Err(ProposalAcceptanceError::Corrupt(string_of(&chars_of(
            "durable acceptance linearization time lies outside its sealed window",
        ))));
    }
    if let Err(e) = check_replay_result(&record, result_id, result_revision) {
        return Err(e);
    }
    Ok(record)
}

} // verus!
