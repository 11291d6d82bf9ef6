//! The persisted form of the ledger: a versioned list of `applied=<id>` lines
//! closed by an integrity line.
use vstd::prelude::*;
use vstd::utf8::{decode_utf8, encode_utf8, encode_utf8_decode_utf8, encode_utf8_valid_utf8, valid_utf8};
use crate::migration::codec::{close_with_tag, lemma_tagged_text, tag_verified, tagged_payload, tagged_text, verify_tagged};
use crate::migration::descriptor::{check_identifier, valid_identifier, MigrationError};
use crate::migration::ledger::{distinct, ledger_listing, lemma_sorted_unique, string_views, MigrationLedger};
use crate::text::{chars_eq, chars_of, has_prefix, lemma_lines_cons, lines, lit, slice_chars, split_lines, starts_with, string_of, strip_cr, utf8_bytes, utf8_text};

verus! {

/// First line of every ledger file.
pub const LEDGER_MAGIC: &'static str = "linura-migration-ledger-v1";

pub open spec fn ledger_magic() -> Seq<char> {
    LEDGER_MAGIC@
}

pub open spec fn applied_prefix() -> Seq<char> {
    seq!['a', 'p', 'p', 'l', 'i', 'e', 'd', '=']
}

/// `applied=<id>` and a line feed.
pub open spec fn applied_line(id: Seq<char>) -> Seq<char> {
    applied_prefix() + id + seq!['\n']
}

/// One `applied=` line per identifier, in order.
pub open spec fn applied_lines(ids: Seq<Seq<char>>) -> Seq<char>
    decreases ids.len(),
{
    if ids.len() == 0 {
        seq![]
    } else {
        applied_line(ids[0]) + applied_lines(ids.skip(1))
    }
}

/// The ledger payload: the version line and the applied identifiers.
pub open spec fn ledger_payload(ids: Seq<Seq<char>>) -> Seq<char> {
    ledger_magic() + seq!['\n'] + applied_lines(ids)
}

/// The bytes written for a ledger listing `ids`.
pub open spec fn serialized_ledger(ids: Seq<Seq<char>>) -> Seq<u8> {
    encode_utf8(tagged_text(ledger_payload(ids)))
}

/// The verified payload of ledger bytes: valid UTF-8 whose integrity line
/// matches the text before it.
pub open spec fn ledger_text(bytes: Seq<u8>) -> Option<Seq<char>> {
    if valid_utf8(bytes) && tag_verified(decode_utf8(bytes)) {
        Some(tagged_payload(decode_utf8(bytes)))
    } else {
        None
    }
}

/// The payload starts with the supported version line.
pub open spec fn ledger_header_ok(payload: Seq<char>) -> bool {
    lines(payload).len() > 0 && lines(payload)[0] == ledger_magic()
}

/// A ledger entry line: `applied=` followed by a valid identifier.
pub open spec fn entry_ok(line: Seq<char>) -> bool {
    has_prefix(line, applied_prefix()) && valid_identifier(line.skip(8), 128)
}

/// Every line after the version line is an entry line.
pub open spec fn entries_ok(payload: Seq<char>) -> bool {
    forall|i: int| 1 <= i < lines(payload).len() ==> entry_ok(#[trigger] lines(payload)[i])
}

/// The identifiers that the entry lines name, in file order.
pub open spec fn ledger_entries(payload: Seq<char>) -> Seq<Seq<char>> {
    lines(payload).skip(1).map_values(|l: Seq<char>| l.skip(8))
}

proof fn lemma_applied_lines_push(ids: Seq<Seq<char>>, id: Seq<char>)
    ensures
        applied_lines(ids.push(id)) == applied_lines(ids) + applied_line(id),
    decreases ids.len(),
{
    if ids.len() == 0 {
        assert(ids.push(id).skip(1) =~= Seq::<Seq<char>>::empty());
        assert(applied_lines(Seq::<Seq<char>>::empty()) == Seq::<char>::empty());
        assert(applied_lines(ids.push(id)) =~= applied_line(id));
    } else {
        lemma_applied_lines_push(ids.skip(1), id);
        assert(ids.push(id).skip(1) =~= ids.skip(1).push(id));
        assert(ids.push(id)[0] == ids[0]);
        assert(applied_lines(ids.push(id)) =~= applied_line(ids[0]) + (applied_lines(ids.skip(1))
            + applied_line(id)));
    }
}

proof fn lemma_applied_lines(ids: Seq<Seq<char>>)
    requires
        forall|i: int| 0 <= i < ids.len() ==> valid_identifier(#[trigger] ids[i], 128),
    ensures
        lines(applied_lines(ids)) == ids.map_values(|id: Seq<char>| applied_prefix() + id),
    decreases ids.len(),
{
    if ids.len() == 0 {
        assert(lines(applied_lines(ids)) =~= Seq::<Seq<char>>::empty());
        assert(ids.map_values(|id: Seq<char>| applied_prefix() + id) =~= Seq::<Seq<char>>::empty());
    } else {
        let a = applied_prefix() + ids[0];
        assert(valid_identifier(ids[0], 128));
        assert forall|i: int| 0 <= i < a.len() implies a[i] != '\n' by {
            if i >= 8 {
                assert(a[i] == ids[0][i - 8]);
            }
        }
        assert forall|i: int| 0 <= i < ids.skip(1).len() implies valid_identifier(
            #[trigger] ids.skip(1)[i],
            128,
        ) by {
            assert(ids.skip(1)[i] == ids[i + 1]);
        }
        lemma_applied_lines(ids.skip(1));
        assert(applied_line(ids[0]) == a + seq!['\n']);
        lemma_lines_cons(a, applied_lines(ids.skip(1)));
        assert(a[a.len() - 1] == ids[0][ids[0].len() - 1]);
        assert(strip_cr(a) == a);
        assert(ids.map_values(|id: Seq<char>| applied_prefix() + id) =~= seq![a]
            + ids.skip(1).map_values(|id: Seq<char>| applied_prefix() + id));
    }
}

/// A ledger listing survives the text form: the version line comes first and
/// the entry lines name exactly the listed identifiers, in order.
proof fn lemma_ledger_payload(ids: Seq<Seq<char>>)
    requires
        forall|i: int| 0 <= i < ids.len() ==> valid_identifier(#[trigger] ids[i], 128),
    ensures
        ledger_header_ok(ledger_payload(ids)),
        entries_ok(ledger_payload(ids)),
        ledger_entries(ledger_payload(ids)) == ids,
{
    reveal_strlit("linura-migration-ledger-v1");
    let m = ledger_magic();
    assert forall|i: int| 0 <= i < m.len() implies m[i] != '\n' by {}
    lemma_lines_cons(m, applied_lines(ids));
    lemma_applied_lines(ids);
    assert(strip_cr(m) == m);
    let ls = lines(ledger_payload(ids));
    assert(ls == seq![m] + ids.map_values(|id: Seq<char>| applied_prefix() + id));
    assert forall|i: int| 1 <= i < ls.len() implies entry_ok(#[trigger] ls[i]) by {
        assert(ls[i] == applied_prefix() + ids[i - 1]);
        assert((applied_prefix() + ids[i - 1]).take(8) =~= applied_prefix());
        assert((applied_prefix() + ids[i - 1]).skip(8) =~= ids[i - 1]);
    }
    assert forall|i: int| 0 <= i < ids.len() implies ledger_entries(ledger_payload(ids))[i]
        == ids[i] by {
        assert(ls.skip(1)[i] == applied_prefix() + ids[i]);
        assert((applied_prefix() + ids[i]).skip(8) =~= ids[i]);
    }
    assert(ledger_entries(ledger_payload(ids)) =~= ids);
}

/// Reading back what was written gives the same ledger: for every ledger
/// listing, the written bytes pass the integrity check, carry the supported
/// version, and name exactly the listed identifiers; and the only ledger
/// listing with those identifiers is the original one.
pub proof fn law_ledger_round_trip(ids: Seq<Seq<char>>, decoded: Seq<Seq<char>>)
    requires
        ledger_listing(ids),
        ledger_listing(decoded),
        decoded.to_set() == ids.to_set(),
    ensures
        ledger_text(serialized_ledger(ids)) == Some(ledger_payload(ids)),
        ledger_header_ok(ledger_payload(ids)),
        entries_ok(ledger_payload(ids)),
        distinct(ledger_entries(ledger_payload(ids))),
        ledger_entries(ledger_payload(ids)) == ids,
        decoded == ids,
{
    let t = tagged_text(ledger_payload(ids));
    encode_utf8_valid_utf8(t);
    encode_utf8_decode_utf8(t);
    lemma_tagged_text(ledger_payload(ids));
    lemma_ledger_payload(ids);
    crate::migration::ledger::lemma_sorted_distinct(ids);
    lemma_sorted_unique(decoded, ids);
}

/// The ledger in its persisted form.
pub fn serialize_ledger(ledger: &MigrationLedger) -> (out: Vec<u8>)
    ensures
        out@ == serialized_ledger(ledger@),
{
    let ids = ledger.applied();
    let mut payload = lit(LEDGER_MAGIC);
    payload.push('\n');
    let prefix = lit("applied=");
    proof {
        reveal_strlit("applied=");
        assert(prefix@ =~= applied_prefix());
        assert(ids@.take(0) =~= Seq::<String>::empty());
        assert(string_views(ids@.take(0)) =~= Seq::<Seq<char>>::empty());
    }
    let mut i: usize = 0;
    while i < ids.len()
        invariant
            i <= ids@.len(),
            prefix@ == applied_prefix(),
            payload@ == ledger_magic() + seq!['\n'] + applied_lines(string_views(ids@.take(i as int))),
        decreases ids@.len() - i,
    {
        let mut line = prefix.clone();
        let mut id_chars = chars_of(ids[i].as_str());
        line.append(&mut id_chars);
        line.push('\n');
        proof {
            assert(line@ =~= applied_line(ids@[i as int]@));
            assert(string_views(ids@.take(i as int + 1)) =~= string_views(ids@.take(i as int)).push(
                ids@[i as int]@,
            ));
            lemma_applied_lines_push(string_views(ids@.take(i as int)), ids@[i as int]@);
        }
        payload.append(&mut line);
        i = i + 1;
    }
    proof {
        assert(ids@.take(ids@.len() as int) =~= ids@);
        assert(payload@ =~= ledger_payload(ledger@));
    }
    let text = close_with_tag(payload);
    utf8_bytes(&text)
}

/// Reads a persisted ledger. The bytes must be UTF-8 with a matching
/// integrity line, begin with the supported version line, and hold only
/// `applied=` lines naming valid, distinct identifiers.
pub fn parse_ledger(bytes: &[u8]) -> (r: Result<MigrationLedger, MigrationError>)
    ensures
        match ledger_text(bytes@) {
            None => r matches Err(e) && e is CorruptLedger,
            Some(p) => if !ledger_header_ok(p) {
                r matches Err(e) && e is UnsupportedLedgerVersion
            } else if entries_ok(p) && distinct(ledger_entries(p)) {
                r matches Ok(l) && l@.to_set() == ledger_entries(p).to_set() && ledger_listing(l@)
            } else {
                r matches Err(e) && e is CorruptLedger
            },
        },
{
    let text = match utf8_text(bytes) {
        Some(text) => text,
        None => return Err(MigrationError::CorruptLedger("ledger is not UTF-8".to_string())),
    };
    let chars = chars_of(text);
    let payload = match verify_tagged(&chars) {
        Some(p) => p,
        None => return Err(MigrationError::CorruptLedger("integrity record is invalid".to_string())),
    };
    let ls = split_lines(&payload);
    let magic = lit(LEDGER_MAGIC);
    if ls.len() == 0 || !chars_eq(&ls[0], &magic) {
        return Err(MigrationError::UnsupportedLedgerVersion);
    }
    let prefix = lit("applied=");
    proof {
        reveal_strlit("applied=");
        assert(prefix@ =~= applied_prefix());
    }
    let ghost p = payload@;
    let mut applied: Vec<String> = Vec::new();
    let mut i: usize = 1;
    while i < ls.len()
        invariant
            1 <= i <= ls@.len(),
            p == payload@,
            ledger_text(bytes@) == Some(p),
            ledger_header_ok(p),
            ls@.len() == lines(p).len(),
            forall|k: int| 0 <= k < ls@.len() ==> #[trigger] ls@[k]@ == lines(p)[k],
            prefix@ == applied_prefix(),
            applied@.len() == i - 1,
            forall|k: int| 1 <= k < i ==> entry_ok(#[trigger] lines(p)[k]),
            forall|k: int| 0 <= k < i - 1 ==> #[trigger] applied@[k]@ == lines(p)[k + 1].skip(8),
        decreases ls@.len() - i,
    {
        let line = &ls[i];
        if !starts_with(line, &prefix) {
            assert(!entry_ok(lines(p)[i as int]));
            return Err(MigrationError::CorruptLedger("unknown ledger field".to_string()));
        }
        let id = slice_chars(line, 8, line.len());
        assert(id@ == lines(p)[i as int].skip(8));
        if !check_identifier(&id, 128) {
            assert(!entry_ok(lines(p)[i as int]));
            return Err(MigrationError::CorruptLedger("invalid persisted migration id".to_string()));
        }
        applied.push(string_of(&id));
        i = i + 1;
    }
    proof {
        assert(string_views(applied@) =~= ledger_entries(p));
    }
    match MigrationLedger::from_applied(applied) {
        Ok(l) => Ok(l),
        Err(e) => Err(e),
    }
}

} // verus!
