//! The records of a portable artifact: each tab-separated record line adds
//! to the intents, setups and profile that the artifact describes, keyed by
//! identity and revision, with duplicate base records and duplicate value
//! ordinals refused.
use vstd::prelude::*;
use crate::library::error::LibraryError;
use crate::library::portable::{
    decode_text, decoded_text, parse_artifact_frame, parse_bool, parse_u32, parse_u64, parse_usize,
    require_fields, artifact_verdict, ArtifactVerdict, PORTABLE_FORMAT_VERSION,
};
use crate::num::parse_unsigned;
use crate::text::{chars_eq, chars_of, first_index_of, lemma_first_index_of, lit, split, split_on, string_of};
use crate::library::portable::{lemma_hex_digits_plain, law_hex_text_round_trip, tab_joined};
use crate::num::{decimal, hex_of_bytes, lemma_decimal, lemma_parse_decimal};
use vstd::utf8::encode_utf8;

verus! {

/// The text of each string.
pub open spec fn texts(v: Seq<String>) -> Seq<Seq<char>> {
    v.map_values(|s: String| s@)
}

/// Value entries keyed by ordinal, as (ordinal, text).
pub open spec fn ordinal_entries(v: Seq<(usize, String)>) -> Seq<(usize, Seq<char>)> {
    v.map_values(|e: (usize, String)| (e.0, e.1@))
}

/// References as (identity, intent revision).
pub open spec fn intent_refs(v: Seq<(String, u64)>) -> Seq<(Seq<char>, u64)> {
    v.map_values(|e: (String, u64)| (e.0@, e.1))
}

/// References as (identity, setup revision).
pub open spec fn setup_refs(v: Seq<(String, u32)>) -> Seq<(Seq<char>, u32)> {
    v.map_values(|e: (String, u32)| (e.0@, e.1))
}

/// Requirements as (identifier, kind, description).
pub open spec fn requirement_texts(v: Seq<(String, String, String)>) -> Seq<(Seq<char>, Seq<char>, Seq<char>)> {
    v.map_values(|e: (String, String, String)| (e.0@, e.1@, e.2@))
}

/// Inserts `value` under `key` into entries kept in ascending key order;
/// `None` when the key is already present.
pub open spec fn insert_ordinal(s: Seq<(usize, Seq<char>)>, key: usize, value: Seq<char>) -> Option<Seq<(usize, Seq<char>)>>
    decreases s.len(),
{
    if s.len() == 0 {
        Some(seq![(key, value)])
    } else if s[0].0 == key {
        None
    } else if key < s[0].0 {
        Some(seq![(key, value)] + s)
    } else {
        match insert_ordinal(s.skip(1), key, value) {
            Some(t) => Some(seq![s[0]] + t),
            None => None,
        }
    }
}

/// Entries whose keys strictly ascend.
pub open spec fn ascending(s: Seq<(usize, Seq<char>)>) -> bool {
    forall|i: int, j: int| 0 <= i < j < s.len() ==> (#[trigger] s[i]).0 < (#[trigger] s[j]).0
}

proof fn lemma_insert_ordinal_at(s: Seq<(usize, Seq<char>)>, key: usize, value: Seq<char>, i: int)
    requires
        0 <= i <= s.len(),
        forall|j: int| 0 <= j < i ==> (#[trigger] s[j]).0 < key,
        i < s.len() ==> s[i].0 >= key,
    ensures
        insert_ordinal(s, key, value) == (if i < s.len() && s[i].0 == key {
            None
        } else {
            Some(s.take(i).push((key, value)) + s.skip(i))
        }),
    decreases i,
{
    if i == 0 {
        if s.len() > 0 && s[0].0 != key {
            assert(seq![(key, value)] + s =~= s.take(0).push((key, value)) + s.skip(0));
        }
        if s.len() == 0 {
            assert(seq![(key, value)] =~= s.take(0).push((key, value)) + s.skip(0));
        }
    } else {
        let t = s.skip(1);
        assert forall|j: int| 0 <= j < i - 1 implies (#[trigger] t[j]).0 < key by {
            assert(t[j] == s[j + 1]);
        }
        lemma_insert_ordinal_at(t, key, value, i - 1);
        if !(i < s.len() && s[i].0 == key) {
            assert(seq![s[0]] + (t.take(i - 1).push((key, value)) + t.skip(i - 1)) =~= s.take(i).push((key, value))
                + s.skip(i));
        }
    }
}

/// Inserts `value` under `key` (see [`insert_ordinal`]); `false`, with
/// nothing changed, when the key is already present.
fn insert_ordinal_value(values: &mut Vec<(usize, String)>, key: usize, value: String) -> (inserted: bool)
    ensures
        match insert_ordinal(ordinal_entries(old(values)@), key, value@) {
            Some(s) => inserted && ordinal_entries(final(values)@) == s,
            None => !inserted && final(values)@ == old(values)@,
        },
{
    let ghost s = ordinal_entries(values@);
    let mut i: usize = 0;
    while i < values.len() && values[i].0 < key
        invariant
            i <= values@.len(),
            s == ordinal_entries(values@),
            forall|j: int| 0 <= j < i ==> (#[trigger] s[j]).0 < key,
        decreases values@.len() - i,
    {
        assert(s[i as int] == (values@[i as int].0, values@[i as int].1@));
        i = i + 1;
    }
    proof {
        if i < s.len() {
            assert(s[i as int] == (values@[i as int].0, values@[i as int].1@));
        }
        lemma_insert_ordinal_at(s, key, value@, i as int);
    }
    if i < values.len() && values[i].0 == key {
        return false;
    }
    let ghost v = value@;
    values.insert(i, (key, value));
    assert(ordinal_entries(values@) =~= s.take(i as int).push((key, v)) + s.skip(i as int));
    true
}

/// The base record of an intent revision.
pub struct IntentBase {
    pub actor_id: String,
    pub actor_kind: String,
    pub actor_interactive: bool,
    pub status: String,
    pub statement: String,
}

/// Everything an artifact says of one intent revision.
pub struct IntentBuilder {
    pub id: String,
    pub revision: u64,
    pub base: Option<IntentBase>,
    /// (requirement identifier, kind, description)
    pub requirements: Vec<(String, String, String)>,
    pub supersedes: Vec<String>,
}

/// Everything an artifact says of one setup revision.
pub struct SetupBuilder {
    pub id: String,
    pub revision: u32,
    /// (name, description)
    pub base: Option<(String, String)>,
    pub intents: Vec<(String, u64)>,
    pub includes: Vec<(String, u32)>,
    /// Ordinal-keyed values, in ascending ordinal order.
    pub constraints: Vec<(usize, String)>,
    pub secret_refs: Vec<(usize, String)>,
    pub hardware_hints: Vec<(usize, String)>,
}

/// Everything an artifact says of its profile.
pub struct ProfileBuilder {
    pub id: String,
    pub revision: u32,
    pub name: String,
    pub machine_class: String,
    pub intents: Vec<(String, u64)>,
    pub setups: Vec<(String, u32)>,
    pub constraints: Vec<(usize, String)>,
    pub hardware_hints: Vec<(usize, String)>,
}

/// The records of an artifact, gathered by identity and revision; intents
/// and setups in the order in which their first record appears.
pub struct ParsedArtifact {
    pub version: u16,
    pub root: Option<(String, u32)>,
    pub profile: Option<ProfileBuilder>,
    pub intents: Vec<IntentBuilder>,
    pub setups: Vec<SetupBuilder>,
}

#[verifier::ext_equal]
pub struct IntentBaseView {
    pub actor_id: Seq<char>,
    pub actor_kind: Seq<char>,
    pub actor_interactive: bool,
    pub status: Seq<char>,
    pub statement: Seq<char>,
}

#[verifier::ext_equal]
pub struct IntentView {
    pub id: Seq<char>,
    pub revision: u64,
    pub base: Option<IntentBaseView>,
    pub requirements: Seq<(Seq<char>, Seq<char>, Seq<char>)>,
    pub supersedes: Seq<Seq<char>>,
}

#[verifier::ext_equal]
pub struct SetupView {
    pub id: Seq<char>,
    pub revision: u32,
    pub base: Option<(Seq<char>, Seq<char>)>,
    pub intents: Seq<(Seq<char>, u64)>,
    pub includes: Seq<(Seq<char>, u32)>,
    pub constraints: Seq<(usize, Seq<char>)>,
    pub secret_refs: Seq<(usize, Seq<char>)>,
    pub hardware_hints: Seq<(usize, Seq<char>)>,
}

#[verifier::ext_equal]
pub struct ProfileView {
    pub id: Seq<char>,
    pub revision: u32,
    pub name: Seq<char>,
    pub machine_class: Seq<char>,
    pub intents: Seq<(Seq<char>, u64)>,
    pub setups: Seq<(Seq<char>, u32)>,
    pub constraints: Seq<(usize, Seq<char>)>,
    pub hardware_hints: Seq<(usize, Seq<char>)>,
}

#[verifier::ext_equal]
pub struct ArtifactView {
    pub root: Option<(Seq<char>, u32)>,
    pub profile: Option<ProfileView>,
    pub intents: Seq<IntentView>,
    pub setups: Seq<SetupView>,
}

impl View for IntentBase {
    type V = IntentBaseView;

    open spec fn view(&self) -> IntentBaseView {
        IntentBaseView {
            actor_id: self.actor_id@,
            actor_kind: self.actor_kind@,
            actor_interactive: self.actor_interactive,
            status: self.status@,
            statement: self.statement@,
        }
    }
}

impl View for IntentBuilder {
    type V = IntentView;

    open spec fn view(&self) -> IntentView {
        IntentView {
            id: self.id@,
            revision: self.revision,
            base: match self.base {
                Some(b) => Some(b@),
                None => None,
            },
            requirements: requirement_texts(self.requirements@),
            supersedes: texts(self.supersedes@),
        }
    }
}

impl View for SetupBuilder {
    type V = SetupView;

    open spec fn view(&self) -> SetupView {
        SetupView {
            id: self.id@,
            revision: self.revision,
            base: match self.base {
                Some(b) => Some((b.0@, b.1@)),
                None => None,
            },
            intents: intent_refs(self.intents@),
            includes: setup_refs(self.includes@),
            constraints: ordinal_entries(self.constraints@),
            secret_refs: ordinal_entries(self.secret_refs@),
            hardware_hints: ordinal_entries(self.hardware_hints@),
        }
    }
}

impl View for ProfileBuilder {
    type V = ProfileView;

    open spec fn view(&self) -> ProfileView {
        ProfileView {
            id: self.id@,
            revision: self.revision,
            name: self.name@,
            machine_class: self.machine_class@,
            intents: intent_refs(self.intents@),
            setups: setup_refs(self.setups@),
            constraints: ordinal_entries(self.constraints@),
            hardware_hints: ordinal_entries(self.hardware_hints@),
        }
    }
}

pub open spec fn intent_views(v: Seq<IntentBuilder>) -> Seq<IntentView> {
    v.map_values(|b: IntentBuilder| b@)
}

pub open spec fn setup_views(v: Seq<SetupBuilder>) -> Seq<SetupView> {
    v.map_values(|b: SetupBuilder| b@)
}

impl View for ParsedArtifact {
    type V = ArtifactView;

    open spec fn view(&self) -> ArtifactView {
        ArtifactView {
            root: match self.root {
                Some(r) => Some((r.0@, r.1)),
                None => None,
            },
            profile: match self.profile {
                Some(p) => Some(p@),
                None => None,
            },
            intents: intent_views(self.intents@),
            setups: setup_views(self.setups@),
        }
    }
}

/// A positive `u64` field.
pub open spec fn u64_field(s: Seq<char>) -> Option<u64> {
    match parse_unsigned(s, 0xffff_ffff_ffff_ffff) {
        Some(n) => if n > 0 { Some(n as u64) } else { None },
        None => None,
    }
}

/// A positive `u32` field.
pub open spec fn u32_field(s: Seq<char>) -> Option<u32> {
    match parse_unsigned(s, 0xffff_ffff) {
        Some(n) => if n > 0 { Some(n as u32) } else { None },
        None => None,
    }
}

/// An ordinal field.
pub open spec fn usize_field(s: Seq<char>) -> Option<usize> {
    match parse_unsigned(s, usize::MAX as nat) {
        Some(n) => Some(n as usize),
        None => None,
    }
}

/// A `0`/`1` field.
pub open spec fn bool_field(s: Seq<char>) -> Option<bool> {
    if s == seq!['0'] {
        Some(false)
    } else if s == seq!['1'] {
        Some(true)
    } else {
        None
    }
}

pub open spec fn intent_at(s: Seq<IntentView>, id: Seq<char>, revision: u64, j: int) -> bool {
    0 <= j < s.len() && s[j].id == id && s[j].revision == revision
}

pub open spec fn setup_at(s: Seq<SetupView>, id: Seq<char>, revision: u32, j: int) -> bool {
    0 <= j < s.len() && s[j].id == id && s[j].revision == revision
}

/// No identity and revision occurs twice.
pub open spec fn distinct_intents(s: Seq<IntentView>) -> bool {
    forall|i: int, j: int| 0 <= i < j < s.len() ==> !((#[trigger] s[i]).id == (#[trigger] s[j]).id && s[i].revision == s[j].revision)
}

pub open spec fn distinct_setups(s: Seq<SetupView>) -> bool {
    forall|i: int, j: int| 0 <= i < j < s.len() ==> !((#[trigger] s[i]).id == (#[trigger] s[j]).id && s[i].revision == s[j].revision)
}

/// Where the entry of `id`@`revision` is: its index, or the end when the
/// entry is new.
pub open spec fn intent_slot(s: Seq<IntentView>, id: Seq<char>, revision: u64) -> int {
    if exists|j: int| intent_at(s, id, revision, j) {
        choose|j: int| intent_at(s, id, revision, j)
    } else {
        s.len() as int
    }
}

pub open spec fn setup_slot(s: Seq<SetupView>, id: Seq<char>, revision: u32) -> int {
    if exists|j: int| setup_at(s, id, revision, j) {
        choose|j: int| setup_at(s, id, revision, j)
    } else {
        s.len() as int
    }
}

/// The entries with one for `id`@`revision`, added empty at the end when
/// there was none.
pub open spec fn with_intent(s: Seq<IntentView>, id: Seq<char>, revision: u64) -> Seq<IntentView> {
    if exists|j: int| intent_at(s, id, revision, j) {
        s
    } else {
        s.push(IntentView { id, revision, base: None, requirements: seq![], supersedes: seq![] })
    }
}

pub open spec fn with_setup(s: Seq<SetupView>, id: Seq<char>, revision: u32) -> Seq<SetupView> {
    if exists|j: int| setup_at(s, id, revision, j) {
        s
    } else {
        s.push(SetupView {
            id,
            revision,
            base: None,
            intents: seq![],
            includes: seq![],
            constraints: seq![],
            secret_refs: seq![],
            hardware_hints: seq![],
        })
    }
}

/// The artifact with the entry for `id`@`revision` replaced by `b`.
pub open spec fn update_intent(m: ArtifactView, id: Seq<char>, revision: u64, b: IntentView) -> ArtifactView {
    ArtifactView {
        root: m.root,
        profile: m.profile,
        intents: with_intent(m.intents, id, revision).update(intent_slot(m.intents, id, revision), b),
        setups: m.setups,
    }
}

pub open spec fn update_setup(m: ArtifactView, id: Seq<char>, revision: u32, b: SetupView) -> ArtifactView {
    ArtifactView {
        root: m.root,
        profile: m.profile,
        intents: m.intents,
        setups: with_setup(m.setups, id, revision).update(setup_slot(m.setups, id, revision), b),
    }
}

pub open spec fn current_intent(m: ArtifactView, id: Seq<char>, revision: u64) -> IntentView {
    with_intent(m.intents, id, revision)[intent_slot(m.intents, id, revision)]
}

pub open spec fn current_setup(m: ArtifactView, id: Seq<char>, revision: u32) -> SetupView {
    with_setup(m.setups, id, revision)[setup_slot(m.setups, id, revision)]
}

/// Which ordinal-keyed values of a setup a record adds to.
#[derive(Clone, Copy, Debug, PartialEq, Eq)]
pub enum SetupValueKind {
    Constraint,
    SecretRef,
    Hardware,
}

/// Which ordinal-keyed values of the profile a record adds to.
#[derive(Clone, Copy, Debug, PartialEq, Eq)]
pub enum ProfileValueKind {
    Constraint,
    Hardware,
}

/// The values of `b` that a record of `kind` adds to.
pub open spec fn setup_values(b: SetupView, kind: SetupValueKind) -> Seq<(usize, Seq<char>)> {
    match kind {
        SetupValueKind::Constraint => b.constraints,
        SetupValueKind::SecretRef => b.secret_refs,
        SetupValueKind::Hardware => b.hardware_hints,
    }
}

/// `b` with the values of `kind` replaced by `t`.
pub open spec fn with_setup_values(b: SetupView, kind: SetupValueKind, t: Seq<(usize, Seq<char>)>) -> SetupView {
    match kind {
        SetupValueKind::Constraint => SetupView { constraints: t, ..b },
        SetupValueKind::SecretRef => SetupView { secret_refs: t, ..b },
        SetupValueKind::Hardware => SetupView { hardware_hints: t, ..b },
    }
}

pub open spec fn profile_values(p: ProfileView, kind: ProfileValueKind) -> Seq<(usize, Seq<char>)> {
    match kind {
        ProfileValueKind::Constraint => p.constraints,
        ProfileValueKind::Hardware => p.hardware_hints,
    }
}

pub open spec fn with_profile_values(p: ProfileView, kind: ProfileValueKind, t: Seq<(usize, Seq<char>)>) -> ProfileView {
    match kind {
        ProfileValueKind::Constraint => ProfileView { constraints: t, ..p },
        ProfileValueKind::Hardware => ProfileView { hardware_hints: t, ..p },
    }
}

/// `root-setup <id> <revision>`: the artifact's one root setup.
pub open spec fn root_record(m: ArtifactView, f: Seq<Seq<char>>) -> Option<ArtifactView> {
    if f.len() != 3 || m.root is Some {
        None
    } else {
        let id = decoded_text(f[1]);
        let rev = u32_field(f[2]);
        if id is None || rev is None {
            None
        } else {
            Some(ArtifactView { root: Some((id.unwrap(), rev.unwrap())), profile: m.profile, intents: m.intents, setups: m.setups })
        }
    }
}

/// `intent <id> <revision> <actor> <actor kind> <interactive> <status> <statement>`:
/// the one base record of an intent revision.
pub open spec fn intent_record(m: ArtifactView, f: Seq<Seq<char>>) -> Option<ArtifactView> {
    if f.len() != 8 {
        None
    } else {
        let id = decoded_text(f[1]);
        let rev = u64_field(f[2]);
        let actor = decoded_text(f[3]);
        let interactive = bool_field(f[5]);
        let statement = decoded_text(f[7]);
        if id is None || rev is None || actor is None || interactive is None || statement is None {
            None
        } else {
            let b = current_intent(m, id.unwrap(), rev.unwrap());
            if b.base is Some {
                None
            } else {
                let base = IntentBaseView {
                    actor_id: actor.unwrap(),
                    actor_kind: f[4],
                    actor_interactive: interactive.unwrap(),
                    status: f[6],
                    statement: statement.unwrap(),
                };
                Some(update_intent(m, id.unwrap(), rev.unwrap(), IntentView { base: Some(base), ..b }))
            }
        }
    }
}

/// `requirement <intent id> <revision> <requirement id> <kind> <description>`.
pub open spec fn requirement_record(m: ArtifactView, f: Seq<Seq<char>>) -> Option<ArtifactView> {
    if f.len() != 6 {
        None
    } else {
        let id = decoded_text(f[1]);
        let rev = u64_field(f[2]);
        let rid = decoded_text(f[3]);
        let description = decoded_text(f[5]);
        if id is None || rev is None || rid is None || description is None {
            None
        } else {
            let b = current_intent(m, id.unwrap(), rev.unwrap());
            Some(update_intent(m, id.unwrap(), rev.unwrap(), IntentView {
                requirements: b.requirements.push((rid.unwrap(), f[4], description.unwrap())),
                ..b
            }))
        }
    }
}

/// `supersedes <intent id> <revision> <superseded intent id>`.
pub open spec fn supersedes_record(m: ArtifactView, f: Seq<Seq<char>>) -> Option<ArtifactView> {
    if f.len() != 4 {
        None
    } else {
        let id = decoded_text(f[1]);
        let rev = u64_field(f[2]);
        let target = decoded_text(f[3]);
        if id is None || rev is None || target is None {
            None
        } else {
            let b = current_intent(m, id.unwrap(), rev.unwrap());
            Some(update_intent(m, id.unwrap(), rev.unwrap(), IntentView { supersedes: b.supersedes.push(target.unwrap()), ..b }))
        }
    }
}

/// `setup <id> <revision> <name> <description>`: the one base record of a
/// setup revision.
pub open spec fn setup_record(m: ArtifactView, f: Seq<Seq<char>>) -> Option<ArtifactView> {
    if f.len() != 5 {
        None
    } else {
        let id = decoded_text(f[1]);
        let rev = u32_field(f[2]);
        let name = decoded_text(f[3]);
        let description = decoded_text(f[4]);
        if id is None || rev is None || name is None || description is None {
            None
        } else {
            let b = current_setup(m, id.unwrap(), rev.unwrap());
            if b.base is Some {
                None
            } else {
                Some(update_setup(m, id.unwrap(), rev.unwrap(), SetupView { base: Some((name.unwrap(), description.unwrap())), ..b }))
            }
        }
    }
}

/// `setup-intent <setup id> <revision> <intent id> <intent revision>`.
pub open spec fn setup_intent_record(m: ArtifactView, f: Seq<Seq<char>>) -> Option<ArtifactView> {
    if f.len() != 5 {
        None
    } else {
        let id = decoded_text(f[1]);
        let rev = u32_field(f[2]);
        let target = decoded_text(f[3]);
        let target_rev = u64_field(f[4]);
        if id is None || rev is None || target is None || target_rev is None {
            None
        } else {
            let b = current_setup(m, id.unwrap(), rev.unwrap());
            Some(update_setup(m, id.unwrap(), rev.unwrap(), SetupView {
                intents: b.intents.push((target.unwrap(), target_rev.unwrap())),
                ..b
            }))
        }
    }
}

/// `setup-include <setup id> <revision> <included setup id> <its revision>`.
pub open spec fn setup_include_record(m: ArtifactView, f: Seq<Seq<char>>) -> Option<ArtifactView> {
    if f.len() != 5 {
        None
    } else {
        let id = decoded_text(f[1]);
        let rev = u32_field(f[2]);
        let target = decoded_text(f[3]);
        let target_rev = u32_field(f[4]);
        if id is None || rev is None || target is None || target_rev is None {
            None
        } else {
            let b = current_setup(m, id.unwrap(), rev.unwrap());
            Some(update_setup(m, id.unwrap(), rev.unwrap(), SetupView {
                includes: b.includes.push((target.unwrap(), target_rev.unwrap())),
                ..b
            }))
        }
    }
}

/// `setup-constraint`, `setup-secret-ref` or `setup-hardware`
/// `<setup id> <revision> <ordinal> <value>`: each ordinal once per kind.
pub open spec fn setup_value_record(m: ArtifactView, f: Seq<Seq<char>>, kind: SetupValueKind) -> Option<ArtifactView> {
    if f.len() != 5 {
        None
    } else {
        let id = decoded_text(f[1]);
        let rev = u32_field(f[2]);
        let ordinal = usize_field(f[3]);
        let value = decoded_text(f[4]);
        if id is None || rev is None || ordinal is None || value is None {
            None
        } else {
            let b = current_setup(m, id.unwrap(), rev.unwrap());
            match insert_ordinal(setup_values(b, kind), ordinal.unwrap(), value.unwrap()) {
                None => None,
                Some(t) => Some(update_setup(m, id.unwrap(), rev.unwrap(), with_setup_values(b, kind, t))),
            }
        }
    }
}

/// `profile <id> <revision> <name> <machine class>`: the one profile base
/// record.
pub open spec fn profile_record(m: ArtifactView, f: Seq<Seq<char>>) -> Option<ArtifactView> {
    if f.len() != 5 || m.profile is Some {
        None
    } else {
        let id = decoded_text(f[1]);
        let rev = u32_field(f[2]);
        let name = decoded_text(f[3]);
        if id is None || rev is None || name is None {
            None
        } else {
            let p = ProfileView {
                id: id.unwrap(),
                revision: rev.unwrap(),
                name: name.unwrap(),
                machine_class: f[4],
                intents: seq![],
                setups: seq![],
                constraints: seq![],
                hardware_hints: seq![],
            };
            Some(ArtifactView { root: m.root, profile: Some(p), intents: m.intents, setups: m.setups })
        }
    }
}

/// A profile child record names the profile already read.
pub open spec fn names_profile(m: ArtifactView, f: Seq<Seq<char>>) -> bool {
    &&& m.profile is Some
    &&& decoded_text(f[1]) == Some(m.profile.unwrap().id)
    &&& u32_field(f[2]) == Some(m.profile.unwrap().revision)
}

pub open spec fn with_profile(m: ArtifactView, p: ProfileView) -> ArtifactView {
    ArtifactView { root: m.root, profile: Some(p), intents: m.intents, setups: m.setups }
}

/// `profile-intent <profile id> <revision> <intent id> <intent revision>`.
pub open spec fn profile_intent_record(m: ArtifactView, f: Seq<Seq<char>>) -> Option<ArtifactView> {
    if f.len() != 5 || !names_profile(m, f) {
        None
    } else {
        let target = decoded_text(f[3]);
        let target_rev = u64_field(f[4]);
        if target is None || target_rev is None {
            None
        } else {
            let p = m.profile.unwrap();
            Some(with_profile(m, ProfileView { intents: p.intents.push((target.unwrap(), target_rev.unwrap())), ..p }))
        }
    }
}

/// `profile-setup <profile id> <revision> <setup id> <setup revision>`.
pub open spec fn profile_setup_record(m: ArtifactView, f: Seq<Seq<char>>) -> Option<ArtifactView> {
    if f.len() != 5 || !names_profile(m, f) {
        None
    } else {
        let target = decoded_text(f[3]);
        let target_rev = u32_field(f[4]);
        if target is None || target_rev is None {
            None
        } else {
            let p = m.profile.unwrap();
            Some(with_profile(m, ProfileView { setups: p.setups.push((target.unwrap(), target_rev.unwrap())), ..p }))
        }
    }
}

/// `profile-constraint` or `profile-hardware` `<profile id> <revision>
/// <ordinal> <value>`: each ordinal once per kind.
pub open spec fn profile_value_record(m: ArtifactView, f: Seq<Seq<char>>, kind: ProfileValueKind) -> Option<ArtifactView> {
    if f.len() != 5 || !names_profile(m, f) {
        None
    } else {
        let ordinal = usize_field(f[3]);
        let value = decoded_text(f[4]);
        if ordinal is None || value is None {
            None
        } else {
            let p = m.profile.unwrap();
            match insert_ordinal(profile_values(p, kind), ordinal.unwrap(), value.unwrap()) {
                None => None,
                Some(t) => Some(with_profile(m, with_profile_values(p, kind, t))),
            }
        }
    }
}

/// What one record line adds to the artifact read so far; `None` when the
/// record is malformed, duplicates a one-off record or value ordinal, or is
/// of an unknown kind.
#[verifier::opaque]
pub open spec fn apply_record(m: ArtifactView, line: Seq<char>) -> Option<ArtifactView> {
    let f = split(line, '\t');
    let k = f[0];
    if k == "root-setup"@ {
        root_record(m, f)
    } else if k == "intent"@ {
        intent_record(m, f)
    } else if k == "requirement"@ {
        requirement_record(m, f)
    } else if k == "supersedes"@ {
        supersedes_record(m, f)
    } else if k == "setup"@ {
        setup_record(m, f)
    } else if k == "setup-intent"@ {
        setup_intent_record(m, f)
    } else if k == "setup-include"@ {
        setup_include_record(m, f)
    } else if k == "setup-constraint"@ {
        setup_value_record(m, f, SetupValueKind::Constraint)
    } else if k == "setup-secret-ref"@ {
        setup_value_record(m, f, SetupValueKind::SecretRef)
    } else if k == "setup-hardware"@ {
        setup_value_record(m, f, SetupValueKind::Hardware)
    } else if k == "profile"@ {
        profile_record(m, f)
    } else if k == "profile-intent"@ {
        profile_intent_record(m, f)
    } else if k == "profile-setup"@ {
        profile_setup_record(m, f)
    } else if k == "profile-constraint"@ {
        profile_value_record(m, f, ProfileValueKind::Constraint)
    } else if k == "profile-hardware"@ {
        profile_value_record(m, f, ProfileValueKind::Hardware)
    } else {
        None
    }
}

/// The records applied in order.
pub open spec fn apply_records(m: ArtifactView, recs: Seq<Seq<char>>) -> Option<ArtifactView>
    decreases recs.len(),
{
    if recs.len() == 0 {
        Some(m)
    } else {
        match apply_record(m, recs[0]) {
            Some(n) => apply_records(n, recs.skip(1)),
            None => None,
        }
    }
}

pub open spec fn empty_artifact() -> ArtifactView {
    ArtifactView { root: None, profile: None, intents: seq![], setups: seq![] }
}

/// What a portable artifact of `kind` describes, when its frame, header and
/// every record are sound.
pub open spec fn artifact_contents(bytes: Seq<u8>, kind: Seq<char>) -> Option<ArtifactView> {
    match artifact_verdict(bytes, kind) {
        ArtifactVerdict::Records(recs) => apply_records(empty_artifact(), recs),
        _ => None,
    }
}

pub open spec fn field_views(f: Seq<Vec<char>>) -> Seq<Seq<char>> {
    f.map_values(|v: Vec<char>| v@)
}

impl ParsedArtifact {
    /// Intent and setup entries are each keyed once.
    pub open spec fn well_formed(&self) -> bool {
        &&& distinct_intents(self@.intents)
        &&& distinct_setups(self@.setups)
    }
}

fn text_field(f: &Vec<Vec<char>>, i: usize) -> (r: Result<String, LibraryError>)
    requires
        i < f@.len(),
    ensures
        match decoded_text(f@[i as int]@) {
            Some(t) => r matches Ok(s) && s@ == t,
            None => r matches Err(e) && e is PortableFormat,
        },
{
    decode_text(string_of(&f[i]).as_str())
}

fn u64_of(f: &Vec<Vec<char>>, i: usize) -> (r: Result<u64, LibraryError>)
    requires
        i < f@.len(),
    ensures
        match u64_field(f@[i as int]@) {
            Some(n) => r == Ok::<u64, LibraryError>(n),
            None => r matches Err(e) && e is PortableFormat,
        },
{
    parse_u64(string_of(&f[i]).as_str())
}

fn u32_of(f: &Vec<Vec<char>>, i: usize) -> (r: Result<u32, LibraryError>)
    requires
        i < f@.len(),
    ensures
        match u32_field(f@[i as int]@) {
            Some(n) => r == Ok::<u32, LibraryError>(n),
            None => r matches Err(e) && e is PortableFormat,
        },
{
    parse_u32(string_of(&f[i]).as_str())
}

fn usize_of(f: &Vec<Vec<char>>, i: usize) -> (r: Result<usize, LibraryError>)
    requires
        i < f@.len(),
    ensures
        match usize_field(f@[i as int]@) {
            Some(n) => r == Ok::<usize, LibraryError>(n),
            None => r matches Err(e) && e is PortableFormat,
        },
{
    parse_usize(string_of(&f[i]).as_str())
}

fn bool_of(f: &Vec<Vec<char>>, i: usize) -> (r: Result<bool, LibraryError>)
    requires
        i < f@.len(),
    ensures
        match bool_field(f@[i as int]@) {
            Some(b) => r == Ok::<bool, LibraryError>(b),
            None => r matches Err(e) && e is PortableFormat,
        },
{
    parse_bool(string_of(&f[i]).as_str())
}

/// The index of the entry for `id`@`revision`, if there is one.
fn find_intent(intents: &Vec<IntentBuilder>, id: &String, revision: u64) -> (r: Option<usize>)
    requires
        distinct_intents(intent_views(intents@)),
    ensures
        match r {
            Some(j) => exists|k: int| intent_at(intent_views(intents@), id@, revision, k)
                && j == intent_slot(intent_views(intents@), id@, revision),
            None => !exists|k: int| intent_at(intent_views(intents@), id@, revision, k),
        },
{
    let ghost s = intent_views(intents@);
    let mut k: usize = 0;
    while k < intents.len()
        invariant
            k <= intents@.len(),
            s == intent_views(intents@),
            distinct_intents(s),
            forall|i: int| 0 <= i < k ==> !intent_at(s, id@, revision, i),
        decreases intents@.len() - k,
    {
        assert(s[k as int] == intents@[k as int]@);
        if intents[k].id == *id && intents[k].revision == revision {
            proof {
                assert(intent_at(s, id@, revision, k as int));
                let c = choose|j: int| intent_at(s, id@, revision, j);
                if c != k as int {
                    if c < k {
                        assert(!(s[c].id == s[k as int].id && s[c].revision == s[k as int].revision));
                    } else {
                        assert(!(s[k as int].id == s[c].id && s[k as int].revision == s[c].revision));
                    }
                }
            }
            return Some(k);
        }
        k = k + 1;
    }
    None
}

fn find_setup(setups: &Vec<SetupBuilder>, id: &String, revision: u32) -> (r: Option<usize>)
    requires
        distinct_setups(setup_views(setups@)),
    ensures
        match r {
            Some(j) => exists|k: int| setup_at(setup_views(setups@), id@, revision, k)
                && j == setup_slot(setup_views(setups@), id@, revision),
            None => !exists|k: int| setup_at(setup_views(setups@), id@, revision, k),
        },
{
    let ghost s = setup_views(setups@);
    let mut k: usize = 0;
    while k < setups.len()
        invariant
            k <= setups@.len(),
            s == setup_views(setups@),
            distinct_setups(s),
            forall|i: int| 0 <= i < k ==> !setup_at(s, id@, revision, i),
        decreases setups@.len() - k,
    {
        assert(s[k as int] == setups@[k as int]@);
        if setups[k].id == *id && setups[k].revision == revision {
            proof {
                assert(setup_at(s, id@, revision, k as int));
                let c = choose|j: int| setup_at(s, id@, revision, j);
                if c != k as int {
                    if c < k {
                        assert(!(s[c].id == s[k as int].id && s[c].revision == s[k as int].revision));
                    } else {
                        assert(!(s[k as int].id == s[c].id && s[k as int].revision == s[c].revision));
                    }
                }
            }
            return Some(k);
        }
        k = k + 1;
    }
    None
}

fn new_intent(id: String, revision: u64) -> (b: IntentBuilder)
    ensures
        b@ == (IntentView { id: id@, revision, base: None, requirements: seq![], supersedes: seq![] }),
{
    let b = IntentBuilder { id, revision, base: None, requirements: Vec::new(), supersedes: Vec::new() };
    assert(b@.requirements =~= seq![]);
    assert(b@.supersedes =~= seq![]);
    b
}

/// Where the entry for `id`@`revision` is, adding it when it is new.
fn intent_entry(intents: &mut Vec<IntentBuilder>, id: &String, revision: u64) -> (j: usize)
    requires
        distinct_intents(intent_views(old(intents)@)),
    ensures
        intent_views(final(intents)@) == with_intent(intent_views(old(intents)@), id@, revision),
        j == intent_slot(intent_views(old(intents)@), id@, revision),
        j < final(intents)@.len(),
        distinct_intents(intent_views(final(intents)@)),
{
    let ghost s = intent_views(intents@);
    match find_intent(intents, id, revision) {
        Some(j) => j,
        None => {
            let b = new_intent(id.clone(), revision);
            let ghost bv = b@;
            intents.push(b);
            assert(intent_views(intents@) =~= s.push(bv));
            proof {
                let t = intent_views(intents@);
                assert forall|a: int, c: int| 0 <= a < c < t.len() implies !((#[trigger] t[a]).id == (#[trigger] t[c]).id
                    && t[a].revision == t[c].revision) by {
                    if c == s.len() {
                        assert(!intent_at(s, id@, revision, a));
                    }
                }
            }
            intents.len() - 1
        },
    }
}

proof fn lemma_intent_update(s: Seq<IntentView>, id: Seq<char>, revision: u64, b: IntentView)
    requires
        distinct_intents(s),
        b.id == id,
        b.revision == revision,
    ensures
        0 <= intent_slot(s, id, revision) < with_intent(s, id, revision).len(),
        with_intent(s, id, revision)[intent_slot(s, id, revision)].id == id,
        with_intent(s, id, revision)[intent_slot(s, id, revision)].revision == revision,
        distinct_intents(with_intent(s, id, revision).update(intent_slot(s, id, revision), b)),
{
    let w = with_intent(s, id, revision);
    let j = intent_slot(s, id, revision);
    let t = w.update(j, b);
    if !exists|k: int| intent_at(s, id, revision, k) {
        assert(w[s.len() as int].id == id);
    }
    assert forall|a: int, c: int| 0 <= a < c < t.len() implies !((#[trigger] t[a]).id == (#[trigger] t[c]).id
        && t[a].revision == t[c].revision) by {
        if a == j {
            if c < s.len() {
                assert(!intent_at(s, id, revision, c) || c == j);
            }
        } else if c == j {
            if a < s.len() {
                assert(!intent_at(s, id, revision, a) || a == j);
            }
        } else {
            assert(t[a] == s[a] && t[c] == s[c]);
        }
    }
}

proof fn lemma_setup_update(s: Seq<SetupView>, id: Seq<char>, revision: u32, b: SetupView)
    requires
        distinct_setups(s),
        b.id == id,
        b.revision == revision,
    ensures
        0 <= setup_slot(s, id, revision) < with_setup(s, id, revision).len(),
        with_setup(s, id, revision)[setup_slot(s, id, revision)].id == id,
        with_setup(s, id, revision)[setup_slot(s, id, revision)].revision == revision,
        distinct_setups(with_setup(s, id, revision).update(setup_slot(s, id, revision), b)),
{
    let w = with_setup(s, id, revision);
    let j = setup_slot(s, id, revision);
    let t = w.update(j, b);
    if !exists|k: int| setup_at(s, id, revision, k) {
        assert(w[s.len() as int].id == id);
    }
    assert forall|a: int, c: int| 0 <= a < c < t.len() implies !((#[trigger] t[a]).id == (#[trigger] t[c]).id
        && t[a].revision == t[c].revision) by {
        if a == j {
            if c < s.len() {
                assert(!setup_at(s, id, revision, c) || c == j);
            }
        } else if c == j {
            if a < s.len() {
                assert(!setup_at(s, id, revision, a) || a == j);
            }
        } else {
            assert(t[a] == s[a] && t[c] == s[c]);
        }
    }
}

fn record_error(message: &str) -> (e: LibraryError)
    ensures
        e matches LibraryError::PortableFormat(m) && m@ == message@,
{
    LibraryError::PortableFormat(message.to_string())
}

fn parse_intent_base(parsed: &mut ParsedArtifact, f: &Vec<Vec<char>>) -> (r: Result<(), LibraryError>)
    requires
        old(parsed).well_formed(),
    ensures
        match intent_record(old(parsed)@, field_views(f@)) {
            Some(m) => r is Ok && final(parsed)@ == m,
            None => (r matches Err(e) && e is PortableFormat) && final(parsed)@ == old(parsed)@,
        },
        final(parsed).well_formed(),
        final(parsed).version == old(parsed).version,
{
    let ghost fv = field_views(f@);
    if let Err(e) = require_fields(f.len(), 8) {
        return Err(e);
    }
    assert(fv[1] == f@[1]@ && fv[2] == f@[2]@ && fv[3] == f@[3]@ && fv[4] == f@[4]@ && fv[5] == f@[5]@ && fv[6] == f@[6]@
        && fv[7] == f@[7]@);
    let id = match text_field(f, 1) {
        Ok(v) => v,
        Err(e) => return Err(e),
    };
    let revision = match u64_of(f, 2) {
        Ok(v) => v,
        Err(e) => return Err(e),
    };
    let actor_id = match text_field(f, 3) {
        Ok(v) => v,
        Err(e) => return Err(e),
    };
    let actor_interactive = match bool_of(f, 5) {
        Ok(v) => v,
        Err(e) => return Err(e),
    };
    let statement = match text_field(f, 7) {
        Ok(v) => v,
        Err(e) => return Err(e),
    };
    let base = IntentBase {
        actor_id,
        actor_kind: string_of(&f[4]),
        actor_interactive,
        status: string_of(&f[6]),
        statement,
    };
    let ghost m = parsed@;
    let ghost s = m.intents;
    match find_intent(&parsed.intents, &id, revision) {
        Some(j) => {
            assert(s[j as int] == parsed.intents@[j as int]@);
            if parsed.intents[j].base.is_some() {
                return Err(record_error("duplicate intent base record"));
            }
            parsed.intents[j].base = Some(base);
            assert(intent_views(parsed.intents@) =~= s.update(j as int, IntentView { base: Some(base@), ..s[j as int] }));
        },
        None => {
            let mut b = new_intent(id, revision);
            b.base = Some(base);
            let ghost bv = b@;
            parsed.intents.push(b);
            assert(intent_views(parsed.intents@) =~= s.push(bv));
            assert(with_intent(s, id@, revision).update(s.len() as int, bv) =~= s.push(bv));
        },
    }
    proof {
        lemma_intent_update(s, id@, revision, parsed@.intents[intent_slot(s, id@, revision)]);
    }
    assert(parsed@.intents == update_intent(m, id@, revision, parsed@.intents[intent_slot(s, id@, revision)]).intents);
    Ok(())
}

fn parse_requirement(parsed: &mut ParsedArtifact, f: &Vec<Vec<char>>) -> (r: Result<(), LibraryError>)
    requires
        old(parsed).well_formed(),
    ensures
        match requirement_record(old(parsed)@, field_views(f@)) {
            Some(m) => r is Ok && final(parsed)@ == m,
            None => (r matches Err(e) && e is PortableFormat) && final(parsed)@ == old(parsed)@,
        },
        final(parsed).well_formed(),
        final(parsed).version == old(parsed).version,
{
    let ghost fv = field_views(f@);
    if let Err(e) = require_fields(f.len(), 6) {
        return Err(e);
    }
    assert(fv[1] == f@[1]@ && fv[2] == f@[2]@ && fv[3] == f@[3]@ && fv[4] == f@[4]@ && fv[5] == f@[5]@);
    let id = match text_field(f, 1) {
        Ok(v) => v,
        Err(e) => return Err(e),
    };
    let revision = match u64_of(f, 2) {
        Ok(v) => v,
        Err(e) => return Err(e),
    };
    let requirement_id = match text_field(f, 3) {
        Ok(v) => v,
        Err(e) => return Err(e),
    };
    let description = match text_field(f, 5) {
        Ok(v) => v,
        Err(e) => return Err(e),
    };
    let item = (requirement_id, string_of(&f[4]), description);
    let ghost iv = (item.0@, item.1@, item.2@);
    let ghost m = parsed@;
    let ghost s = m.intents;
    let j = intent_entry(&mut parsed.intents, &id, revision);
    let ghost w = intent_views(parsed.intents@);
    assert(w[j as int] == parsed.intents@[j as int]@);
    parsed.intents[j].requirements.push(item);
    let ghost b = IntentView { requirements: w[j as int].requirements.push(iv), ..w[j as int] };
    assert(parsed.intents@[j as int]@.requirements =~= w[j as int].requirements.push(iv));
    assert(intent_views(parsed.intents@) =~= w.update(j as int, b));
    proof {
        lemma_intent_update(s, id@, revision, b);
    }
    Ok(())
}

fn parse_supersedes(parsed: &mut ParsedArtifact, f: &Vec<Vec<char>>) -> (r: Result<(), LibraryError>)
    requires
        old(parsed).well_formed(),
    ensures
        match supersedes_record(old(parsed)@, field_views(f@)) {
            Some(m) => r is Ok && final(parsed)@ == m,
            None => (r matches Err(e) && e is PortableFormat) && final(parsed)@ == old(parsed)@,
        },
        final(parsed).well_formed(),
        final(parsed).version == old(parsed).version,
{
    let ghost fv = field_views(f@);
    if let Err(e) = require_fields(f.len(), 4) {
        return Err(e);
    }
    assert(fv[1] == f@[1]@ && fv[2] == f@[2]@ && fv[3] == f@[3]@);
    let id = match text_field(f, 1) {
        Ok(v) => v,
        Err(e) => return Err(e),
    };
    let revision = match u64_of(f, 2) {
        Ok(v) => v,
        Err(e) => return Err(e),
    };
    let target = match text_field(f, 3) {
        Ok(v) => v,
        Err(e) => return Err(e),
    };
    let ghost tv = target@;
    let ghost m = parsed@;
    let ghost s = m.intents;
    let j = intent_entry(&mut parsed.intents, &id, revision);
    let ghost w = intent_views(parsed.intents@);
    assert(w[j as int] == parsed.intents@[j as int]@);
    parsed.intents[j].supersedes.push(target);
    let ghost b = IntentView { supersedes: w[j as int].supersedes.push(tv), ..w[j as int] };
    assert(parsed.intents@[j as int]@.supersedes =~= w[j as int].supersedes.push(tv));
    assert(intent_views(parsed.intents@) =~= w.update(j as int, b));
    proof {
        lemma_intent_update(s, id@, revision, b);
    }
    Ok(())
}

fn new_setup(id: String, revision: u32) -> (b: SetupBuilder)
    ensures
        b@ == (SetupView {
            id: id@,
            revision,
            base: None,
            intents: seq![],
            includes: seq![],
            constraints: seq![],
            secret_refs: seq![],
            hardware_hints: seq![],
        }),
{
    let b = SetupBuilder {
        id,
        revision,
        base: None,
        intents: Vec::new(),
        includes: Vec::new(),
        constraints: Vec::new(),
        secret_refs: Vec::new(),
        hardware_hints: Vec::new(),
    };
    assert(b@.intents =~= seq![]);
    assert(b@.includes =~= seq![]);
    assert(b@.constraints =~= seq![]);
    assert(b@.secret_refs =~= seq![]);
    assert(b@.hardware_hints =~= seq![]);
    b
}

/// Where the entry for `id`@`revision` is, adding it when it is new.
fn setup_entry(setups: &mut Vec<SetupBuilder>, id: &String, revision: u32) -> (j: usize)
    requires
        distinct_setups(setup_views(old(setups)@)),
    ensures
        setup_views(final(setups)@) == with_setup(setup_views(old(setups)@), id@, revision),
        j == setup_slot(setup_views(old(setups)@), id@, revision),
        j < final(setups)@.len(),
{
    let ghost s = setup_views(setups@);
    match find_setup(setups, id, revision) {
        Some(j) => j,
        None => {
            let b = new_setup(id.clone(), revision);
            let ghost bv = b@;
            setups.push(b);
            assert(setup_views(setups@) =~= s.push(bv));
            setups.len() - 1
        },
    }
}

fn parse_setup_base(parsed: &mut ParsedArtifact, f: &Vec<Vec<char>>) -> (r: Result<(), LibraryError>)
    requires
        old(parsed).well_formed(),
    ensures
        match setup_record(old(parsed)@, field_views(f@)) {
            Some(m) => r is Ok && final(parsed)@ == m,
            None => (r matches Err(e) && e is PortableFormat) && final(parsed)@ == old(parsed)@,
        },
        final(parsed).well_formed(),
        final(parsed).version == old(parsed).version,
{
    let ghost fv = field_views(f@);
    if let Err(e) = require_fields(f.len(), 5) {
        return Err(e);
    }
    assert(fv[1] == f@[1]@ && fv[2] == f@[2]@ && fv[3] == f@[3]@ && fv[4] == f@[4]@);
    let id = match text_field(f, 1) {
        Ok(v) => v,
        Err(e) => return Err(e),
    };
    let revision = match u32_of(f, 2) {
        Ok(v) => v,
        Err(e) => return Err(e),
    };
    let name = match text_field(f, 3) {
        Ok(v) => v,
        Err(e) => return Err(e),
    };
    let description = match text_field(f, 4) {
        Ok(v) => v,
        Err(e) => return Err(e),
    };
    let ghost bv = (name@, description@);
    let ghost m = parsed@;
    let ghost s = m.setups;
    match find_setup(&parsed.setups, &id, revision) {
        Some(j) => {
            assert(s[j as int] == parsed.setups@[j as int]@);
            if parsed.setups[j].base.is_some() {
                return Err(record_error("duplicate setup base record"));
            }
            parsed.setups[j].base = Some((name, description));
            assert(setup_views(parsed.setups@) =~= s.update(j as int, SetupView { base: Some(bv), ..s[j as int] }));
        },
        None => {
            let mut b = new_setup(id, revision);
            b.base = Some((name, description));
            let ghost nv = b@;
            parsed.setups.push(b);
            assert(setup_views(parsed.setups@) =~= s.push(nv));
            assert(with_setup(s, id@, revision).update(s.len() as int, nv) =~= s.push(nv));
        },
    }
    proof {
        lemma_setup_update(s, id@, revision, parsed@.setups[setup_slot(s, id@, revision)]);
    }
    assert(parsed@.setups == update_setup(m, id@, revision, parsed@.setups[setup_slot(s, id@, revision)]).setups);
    Ok(())
}

fn parse_setup_intent(parsed: &mut ParsedArtifact, f: &Vec<Vec<char>>) -> (r: Result<(), LibraryError>)
    requires
        old(parsed).well_formed(),
    ensures
        match setup_intent_record(old(parsed)@, field_views(f@)) {
            Some(m) => r is Ok && final(parsed)@ == m,
            None => (r matches Err(e) && e is PortableFormat) && final(parsed)@ == old(parsed)@,
        },
        final(parsed).well_formed(),
        final(parsed).version == old(parsed).version,
{
    let ghost fv = field_views(f@);
    if let Err(e) = require_fields(f.len(), 5) {
        return Err(e);
    }
    assert(fv[1] == f@[1]@ && fv[2] == f@[2]@ && fv[3] == f@[3]@ && fv[4] == f@[4]@);
    let id = match text_field(f, 1) {
        Ok(v) => v,
        Err(e) => return Err(e),
    };
    let revision = match u32_of(f, 2) {
        Ok(v) => v,
        Err(e) => return Err(e),
    };
    let target = match text_field(f, 3) {
        Ok(v) => v,
        Err(e) => return Err(e),
    };
    let target_revision = match u64_of(f, 4) {
        Ok(v) => v,
        Err(e) => return Err(e),
    };
    let ghost iv = (target@, target_revision);
    let ghost m = parsed@;
    let ghost s = m.setups;
    let j = setup_entry(&mut parsed.setups, &id, revision);
    let ghost w = setup_views(parsed.setups@);
    assert(w[j as int] == parsed.setups@[j as int]@);
    parsed.setups[j].intents.push((target, target_revision));
    let ghost b = SetupView { intents: w[j as int].intents.push(iv), ..w[j as int] };
    assert(parsed.setups@[j as int]@.intents =~= w[j as int].intents.push(iv));
    assert(setup_views(parsed.setups@) =~= w.update(j as int, b));
    proof {
        lemma_setup_update(s, id@, revision, b);
    }
    Ok(())
}

fn parse_setup_include(parsed: &mut ParsedArtifact, f: &Vec<Vec<char>>) -> (r: Result<(), LibraryError>)
    requires
        old(parsed).well_formed(),
    ensures
        match setup_include_record(old(parsed)@, field_views(f@)) {
            Some(m) => r is Ok && final(parsed)@ == m,
            None => (r matches Err(e) && e is PortableFormat) && final(parsed)@ == old(parsed)@,
        },
        final(parsed).well_formed(),
        final(parsed).version == old(parsed).version,
{
    let ghost fv = field_views(f@);
    if let Err(e) = require_fields(f.len(), 5) {
        return Err(e);
    }
    assert(fv[1] == f@[1]@ && fv[2] == f@[2]@ && fv[3] == f@[3]@ && fv[4] == f@[4]@);
    let id = match text_field(f, 1) {
        Ok(v) => v,
        Err(e) => return Err(e),
    };
    let revision = match u32_of(f, 2) {
        Ok(v) => v,
        Err(e) => return Err(e),
    };
    let target = match text_field(f, 3) {
        Ok(v) => v,
        Err(e) => return Err(e),
    };
    let target_revision = match u32_of(f, 4) {
        Ok(v) => v,
        Err(e) => return Err(e),
    };
    let ghost iv = (target@, target_revision);
    let ghost m = parsed@;
    let ghost s = m.setups;
    let j = setup_entry(&mut parsed.setups, &id, revision);
    let ghost w = setup_views(parsed.setups@);
    assert(w[j as int] == parsed.setups@[j as int]@);
    parsed.setups[j].includes.push((target, target_revision));
    let ghost b = SetupView { includes: w[j as int].includes.push(iv), ..w[j as int] };
    assert(parsed.setups@[j as int]@.includes =~= w[j as int].includes.push(iv));
    assert(setup_views(parsed.setups@) =~= w.update(j as int, b));
    proof {
        lemma_setup_update(s, id@, revision, b);
    }
    Ok(())
}

fn parse_setup_value(parsed: &mut ParsedArtifact, f: &Vec<Vec<char>>, kind: SetupValueKind) -> (r: Result<(), LibraryError>)
    requires
        old(parsed).well_formed(),
    ensures
        match setup_value_record(old(parsed)@, field_views(f@), kind) {
            Some(m) => r is Ok && final(parsed)@ == m,
            None => (r matches Err(e) && e is PortableFormat) && final(parsed)@ == old(parsed)@,
        },
        final(parsed).well_formed(),
        final(parsed).version == old(parsed).version,
{
    let ghost fv = field_views(f@);
    if let Err(e) = require_fields(f.len(), 5) {
        return Err(e);
    }
    assert(fv[1] == f@[1]@ && fv[2] == f@[2]@ && fv[3] == f@[3]@ && fv[4] == f@[4]@);
    let id = match text_field(f, 1) {
        Ok(v) => v,
        Err(e) => return Err(e),
    };
    let revision = match u32_of(f, 2) {
        Ok(v) => v,
        Err(e) => return Err(e),
    };
    let ordinal = match usize_of(f, 3) {
        Ok(v) => v,
        Err(e) => return Err(e),
    };
    let value = match text_field(f, 4) {
        Ok(v) => v,
        Err(e) => return Err(e),
    };
    let ghost vv = value@;
    let ghost m = parsed@;
    let ghost s = m.setups;
    match find_setup(&parsed.setups, &id, revision) {
        Some(j) => {
            let ghost b = s[j as int];
            assert(b == parsed.setups@[j as int]@);
            let inserted = match kind {
                SetupValueKind::Constraint => insert_ordinal_value(&mut parsed.setups[j].constraints, ordinal, value),
                SetupValueKind::SecretRef => insert_ordinal_value(&mut parsed.setups[j].secret_refs, ordinal, value),
                SetupValueKind::Hardware => insert_ordinal_value(&mut parsed.setups[j].hardware_hints, ordinal, value),
            };
            let ghost nb = parsed.setups@[j as int]@;
            assert(setup_views(parsed.setups@) =~= s.update(j as int, nb));
            if !inserted {
                assert(nb =~= b);
                assert(setup_views(parsed.setups@) =~= s);
                return Err(record_error("duplicate setup ordinal"));
            }
            proof {
                lemma_setup_update(s, id@, revision, nb);
            }
        },
        None => {
            let mut b = new_setup(id, revision);
            let ghost e = b@;
            match kind {
                SetupValueKind::Constraint => b.constraints.push((ordinal, value)),
                SetupValueKind::SecretRef => b.secret_refs.push((ordinal, value)),
                SetupValueKind::Hardware => b.hardware_hints.push((ordinal, value)),
            }
            assert(ordinal_entries(b.constraints@) =~= (if kind == SetupValueKind::Constraint { seq![(ordinal, vv)] } else { e.constraints }));
            assert(ordinal_entries(b.secret_refs@) =~= (if kind == SetupValueKind::SecretRef { seq![(ordinal, vv)] } else { e.secret_refs }));
            assert(ordinal_entries(b.hardware_hints@) =~= (if kind == SetupValueKind::Hardware { seq![(ordinal, vv)] } else { e.hardware_hints }));
            let ghost nv = b@;
            parsed.setups.push(b);
            assert(setup_views(parsed.setups@) =~= s.push(nv));
            assert(with_setup(s, id@, revision).update(s.len() as int, nv) =~= s.push(nv));
            proof {
                lemma_setup_update(s, id@, revision, nv);
            }
        },
    }
    Ok(())
}

fn parse_root_setup(parsed: &mut ParsedArtifact, f: &Vec<Vec<char>>) -> (r: Result<(), LibraryError>)
    requires
        old(parsed).well_formed(),
    ensures
        match root_record(old(parsed)@, field_views(f@)) {
            Some(m) => r is Ok && final(parsed)@ == m,
            None => (r matches Err(e) && e is PortableFormat) && final(parsed)@ == old(parsed)@,
        },
        final(parsed).well_formed(),
        final(parsed).version == old(parsed).version,
{
    let ghost fv = field_views(f@);
    if let Err(e) = require_fields(f.len(), 3) {
        return Err(e);
    }
    assert(fv[1] == f@[1]@ && fv[2] == f@[2]@);
    if parsed.root.is_some() {
        return Err(record_error("duplicate root-setup record"));
    }
    let id = match text_field(f, 1) {
        Ok(v) => v,
        Err(e) => return Err(e),
    };
    let revision = match u32_of(f, 2) {
        Ok(v) => v,
        Err(e) => return Err(e),
    };
    parsed.root = Some((id, revision));
    Ok(())
}

fn parse_profile_base(parsed: &mut ParsedArtifact, f: &Vec<Vec<char>>) -> (r: Result<(), LibraryError>)
    requires
        old(parsed).well_formed(),
    ensures
        match profile_record(old(parsed)@, field_views(f@)) {
            Some(m) => r is Ok && final(parsed)@ == m,
            None => (r matches Err(e) && e is PortableFormat) && final(parsed)@ == old(parsed)@,
        },
        final(parsed).well_formed(),
        final(parsed).version == old(parsed).version,
{
    let ghost fv = field_views(f@);
    if let Err(e) = require_fields(f.len(), 5) {
        return Err(e);
    }
    assert(fv[1] == f@[1]@ && fv[2] == f@[2]@ && fv[3] == f@[3]@ && fv[4] == f@[4]@);
    if parsed.profile.is_some() {
        return Err(record_error("duplicate profile base record"));
    }
    let id = match text_field(f, 1) {
        Ok(v) => v,
        Err(e) => return Err(e),
    };
    let revision = match u32_of(f, 2) {
        Ok(v) => v,
        Err(e) => return Err(e),
    };
    let name = match text_field(f, 3) {
        Ok(v) => v,
        Err(e) => return Err(e),
    };
    let profile = ProfileBuilder {
        id,
        revision,
        name,
        machine_class: string_of(&f[4]),
        intents: Vec::new(),
        setups: Vec::new(),
        constraints: Vec::new(),
        hardware_hints: Vec::new(),
    };
    assert(profile@.intents =~= seq![]);
    assert(profile@.setups =~= seq![]);
    assert(profile@.constraints =~= seq![]);
    assert(profile@.hardware_hints =~= seq![]);
    parsed.profile = Some(profile);
    Ok(())
}

/// A profile child record names the profile base read before it.
fn require_profile_key(parsed: &ParsedArtifact, f: &Vec<Vec<char>>) -> (r: Result<(), LibraryError>)
    requires
        f@.len() >= 3,
    ensures
        r is Ok <==> names_profile(parsed@, field_views(f@)),
        r matches Err(e) ==> e is PortableFormat,
{
    let ghost fv = field_views(f@);
    assert(fv[1] == f@[1]@ && fv[2] == f@[2]@);
    let profile = match &parsed.profile {
        Some(p) => p,
        None => return Err(record_error("profile base must appear first")),
    };
    let id = match text_field(f, 1) {
        Ok(v) => v,
        Err(e) => return Err(e),
    };
    let revision = match u32_of(f, 2) {
        Ok(v) => v,
        Err(e) => return Err(e),
    };
    if profile.id != id || profile.revision != revision {
        return Err(record_error("profile child record does not match profile identity"));
    }
    Ok(())
}

fn parse_profile_intent(parsed: &mut ParsedArtifact, f: &Vec<Vec<char>>) -> (r: Result<(), LibraryError>)
    requires
        old(parsed).well_formed(),
    ensures
        match profile_intent_record(old(parsed)@, field_views(f@)) {
            Some(m) => r is Ok && final(parsed)@ == m,
            None => (r matches Err(e) && e is PortableFormat) && final(parsed)@ == old(parsed)@,
        },
        final(parsed).well_formed(),
        final(parsed).version == old(parsed).version,
{
    let ghost fv = field_views(f@);
    if let Err(e) = require_fields(f.len(), 5) {
        return Err(e);
    }
    assert(fv[3] == f@[3]@ && fv[4] == f@[4]@);
    if let Err(e) = require_profile_key(parsed, f) {
        return Err(e);
    }
    let target = match text_field(f, 3) {
        Ok(v) => v,
        Err(e) => return Err(e),
    };
    let target_revision = match u64_of(f, 4) {
        Ok(v) => v,
        Err(e) => return Err(e),
    };
    let ghost iv = (target@, target_revision);
    let ghost p0 = parsed@.profile.unwrap();
    match &mut parsed.profile {
        Some(p) => {
            p.intents.push((target, target_revision));
            assert(p@.intents =~= p0.intents.push(iv));
        },
        None => {},
    }
    assert(parsed@.profile.unwrap() =~= ProfileView { intents: p0.intents.push(iv), ..p0 });
    Ok(())
}

fn parse_profile_setup(parsed: &mut ParsedArtifact, f: &Vec<Vec<char>>) -> (r: Result<(), LibraryError>)
    requires
        old(parsed).well_formed(),
    ensures
        match profile_setup_record(old(parsed)@, field_views(f@)) {
            Some(m) => r is Ok && final(parsed)@ == m,
            None => (r matches Err(e) && e is PortableFormat) && final(parsed)@ == old(parsed)@,
        },
        final(parsed).well_formed(),
        final(parsed).version == old(parsed).version,
{
    let ghost fv = field_views(f@);
    if let Err(e) = require_fields(f.len(), 5) {
        return Err(e);
    }
    assert(fv[3] == f@[3]@ && fv[4] == f@[4]@);
    if let Err(e) = require_profile_key(parsed, f) {
        return Err(e);
    }
    let target = match text_field(f, 3) {
        Ok(v) => v,
        Err(e) => return Err(e),
    };
    let target_revision = match u32_of(f, 4) {
        Ok(v) => v,
        Err(e) => return Err(e),
    };
    let ghost iv = (target@, target_revision);
    let ghost p0 = parsed@.profile.unwrap();
    match &mut parsed.profile {
        Some(p) => {
            p.setups.push((target, target_revision));
            assert(p@.setups =~= p0.setups.push(iv));
        },
        None => {},
    }
    assert(parsed@.profile.unwrap() =~= ProfileView { setups: p0.setups.push(iv), ..p0 });
    Ok(())
}

fn parse_profile_value(parsed: &mut ParsedArtifact, f: &Vec<Vec<char>>, kind: ProfileValueKind) -> (r: Result<(), LibraryError>)
    requires
        old(parsed).well_formed(),
    ensures
        match profile_value_record(old(parsed)@, field_views(f@), kind) {
            Some(m) => r is Ok && final(parsed)@ == m,
            None => (r matches Err(e) && e is PortableFormat) && final(parsed)@ == old(parsed)@,
        },
        final(parsed).well_formed(),
        final(parsed).version == old(parsed).version,
{
    let ghost fv = field_views(f@);
    if let Err(e) = require_fields(f.len(), 5) {
        return Err(e);
    }
    assert(fv[3] == f@[3]@ && fv[4] == f@[4]@);
    if let Err(e) = require_profile_key(parsed, f) {
        return Err(e);
    }
    let ordinal = match usize_of(f, 3) {
        Ok(v) => v,
        Err(e) => return Err(e),
    };
    let value = match text_field(f, 4) {
        Ok(v) => v,
        Err(e) => return Err(e),
    };
    let ghost p0 = parsed@.profile.unwrap();
    let mut inserted = true;
    match &mut parsed.profile {
        Some(p) => {
            inserted = match kind {
                ProfileValueKind::Constraint => insert_ordinal_value(&mut p.constraints, ordinal, value),
                ProfileValueKind::Hardware => insert_ordinal_value(&mut p.hardware_hints, ordinal, value),
            };
        },
        None => {},
    }
    if !inserted {
        assert(parsed@.profile.unwrap() =~= p0);
        return Err(record_error("duplicate profile ordinal"));
    }
    Ok(())
}

/// Adds one record line to the artifact read so far (see
/// [`apply_record`]); on an error the artifact is left as it was.
pub fn parse_record(parsed: &mut ParsedArtifact, line: &str) -> (r: Result<(), LibraryError>)
    requires
        old(parsed).well_formed(),
    ensures
        match apply_record(old(parsed)@, line@) {
            Some(m) => r is Ok && final(parsed)@ == m,
            None => (r matches Err(e) && e is PortableFormat) && final(parsed)@ == old(parsed)@,
        },
        final(parsed).well_formed(),
        final(parsed).version == old(parsed).version,
{
    reveal(apply_record);
    let chars = chars_of(line);
    let f = split_on(&chars, '\t');
    assert(field_views(f@) =~= split(line@, '\t'));
    assert(split(line@, '\t').len() >= 1);
    let k = &f[0];
    assert(k@ == split(line@, '\t')[0]);
    if chars_eq(k, &lit("root-setup")) {
        parse_root_setup(parsed, &f)
    } else if chars_eq(k, &lit("intent")) {
        parse_intent_base(parsed, &f)
    } else if chars_eq(k, &lit("requirement")) {
        parse_requirement(parsed, &f)
    } else if chars_eq(k, &lit("supersedes")) {
        parse_supersedes(parsed, &f)
    } else if chars_eq(k, &lit("setup")) {
        parse_setup_base(parsed, &f)
    } else if chars_eq(k, &lit("setup-intent")) {
        parse_setup_intent(parsed, &f)
    } else if chars_eq(k, &lit("setup-include")) {
        parse_setup_include(parsed, &f)
    } else if chars_eq(k, &lit("setup-constraint")) {
        parse_setup_value(parsed, &f, SetupValueKind::Constraint)
    } else if chars_eq(k, &lit("setup-secret-ref")) {
        parse_setup_value(parsed, &f, SetupValueKind::SecretRef)
    } else if chars_eq(k, &lit("setup-hardware")) {
        parse_setup_value(parsed, &f, SetupValueKind::Hardware)
    } else if chars_eq(k, &lit("profile")) {
        parse_profile_base(parsed, &f)
    } else if chars_eq(k, &lit("profile-intent")) {
        parse_profile_intent(parsed, &f)
    } else if chars_eq(k, &lit("profile-setup")) {
        parse_profile_setup(parsed, &f)
    } else if chars_eq(k, &lit("profile-constraint")) {
        parse_profile_value(parsed, &f, ProfileValueKind::Constraint)
    } else if chars_eq(k, &lit("profile-hardware")) {
        parse_profile_value(parsed, &f, ProfileValueKind::Hardware)
    } else {
        Err(record_error("unknown portable record"))
    }
}

/// Reads record lines in order into a fresh artifact (see
/// [`apply_records`]).
pub fn parse_records(recs: &Vec<String>) -> (r: Result<ParsedArtifact, LibraryError>)
    ensures
        match apply_records(empty_artifact(), texts(recs@)) {
            Some(m) => r matches Ok(p) && p@ == m && p.well_formed() && p.version == PORTABLE_FORMAT_VERSION,
            None => r matches Err(e) && e is PortableFormat,
        },
{
    let ghost all = texts(recs@);
    let mut parsed = ParsedArtifact {
        version: PORTABLE_FORMAT_VERSION,
        root: None,
        profile: None,
        intents: Vec::new(),
        setups: Vec::new(),
    };
    assert(parsed@.intents =~= empty_artifact().intents);
    assert(parsed@.setups =~= empty_artifact().setups);
    assert(parsed@ == empty_artifact());
    assert(all.skip(0) =~= all);
    let mut i: usize = 0;
    while i < recs.len()
        invariant
            i <= recs@.len(),
            all == texts(recs@),
            parsed.well_formed(),
            parsed.version == PORTABLE_FORMAT_VERSION,
            apply_records(empty_artifact(), all) == apply_records(parsed@, all.skip(i as int)),
        decreases recs@.len() - i,
    {
        let ghost rest = all.skip(i as int);
        assert(rest[0] == recs@[i as int]@);
        assert(rest.skip(1) =~= all.skip(i as int + 1));
        if let Err(e) = parse_record(&mut parsed, recs[i].as_str()) {
            return Err(e);
        }
        i = i + 1;
    }
    assert(all.skip(i as int) =~= Seq::<Seq<char>>::empty());
    Ok(parsed)
}

/// Checks a portable artifact of `expected_kind` and reads its records (see
/// [`artifact_verdict`] and [`artifact_contents`]).
pub fn parse_artifact(bytes: &[u8], expected_kind: &str) -> (r: Result<ParsedArtifact, LibraryError>)
    ensures
        match artifact_verdict(bytes@, expected_kind@) {
            ArtifactVerdict::Records(recs) => match apply_records(empty_artifact(), recs) {
                Some(m) => r matches Ok(p) && p@ == m && p.well_formed() && p.version == PORTABLE_FORMAT_VERSION,
                None => r matches Err(e) && e is PortableFormat,
            },
            ArtifactVerdict::Unsupported(found) => r == Err::<ParsedArtifact, LibraryError>(
                LibraryError::UnsupportedPortableFormat { found, supported: PORTABLE_FORMAT_VERSION },
            ),
            ArtifactVerdict::DigestMismatch => r == Err::<ParsedArtifact, LibraryError>(LibraryError::PortableDigestMismatch),
            ArtifactVerdict::Malformed => r matches Err(e) && e is PortableFormat,
        },
{
    let recs = match parse_artifact_frame(bytes, expected_kind) {
        Ok(recs) => recs,
        Err(e) => return Err(e),
    };
    parse_records(&recs)
}

/// `s` holds no tab.
pub open spec fn tab_free(s: Seq<char>) -> bool {
    forall|i: int| 0 <= i < s.len() ==> s[i] != '\t'
}

/// The field that the writer emits for a text: its UTF-8 bytes in hex.
pub open spec fn hex_field(t: Seq<char>) -> Seq<char> {
    hex_of_bytes(encode_utf8(t))
}

proof fn lemma_first_index_at(s: Seq<char>, c: char, k: int)
    requires
        0 <= k <= s.len(),
        forall|j: int| 0 <= j < k ==> s[j] != c,
        k < s.len() ==> s[k] == c,
    ensures
        first_index_of(s, c) == (if k < s.len() { Some(k) } else { None::<int> }),
{
    lemma_first_index_of(s, c);
    match first_index_of(s, c) {
        Some(i) => {
            if i < k {
            } else if i > k {
                assert(k < s.len() ==> s[k] != c);
            }
        },
        None => {
            if k < s.len() {
                assert(s[k] != c);
            }
        },
    }
}

proof fn lemma_split_concat(a: Seq<char>, b: Seq<char>, sep: char)
    ensures
        split(a + seq![sep] + b, sep) == split(a, sep) + split(b, sep),
    decreases a.len(),
{
    let s = a + seq![sep] + b;
    lemma_first_index_of(a, sep);
    match first_index_of(a, sep) {
        Some(k) => {
            assert forall|j: int| 0 <= j < k implies s[j] != sep by {
                assert(s[j] == a[j]);
            }
            assert(s[k] == a[k]);
            lemma_first_index_at(s, sep, k);
            assert(s.take(k) =~= a.take(k));
            assert(s.skip(k + 1) =~= a.skip(k + 1) + seq![sep] + b);
            lemma_split_concat(a.skip(k + 1), b, sep);
            assert(split(a, sep) == seq![a.take(k)] + split(a.skip(k + 1), sep));
            assert(seq![a.take(k)] + (split(a.skip(k + 1), sep) + split(b, sep)) =~= seq![a.take(k)] + split(a.skip(k + 1), sep)
                + split(b, sep));
        },
        None => {
            assert forall|j: int| 0 <= j < a.len() implies s[j] != sep by {
                assert(s[j] == a[j]);
            }
            lemma_first_index_at(s, sep, a.len() as int);
            assert(s.take(a.len() as int) =~= a);
            assert(s.skip(a.len() as int + 1) =~= b);
        },
    }
}

proof fn lemma_split_plain(a: Seq<char>, sep: char)
    requires
        forall|i: int| 0 <= i < a.len() ==> a[i] != sep,
    ensures
        split(a, sep) == seq![a],
{
    lemma_first_index_at(a, sep, a.len() as int);
}

/// Fields without tabs, joined by tabs, split back into the same fields.
pub proof fn lemma_split_tab_joined(fields: Seq<Seq<char>>)
    requires
        fields.len() >= 1,
        forall|i: int| 0 <= i < fields.len() ==> tab_free(#[trigger] fields[i]),
    ensures
        split(tab_joined(fields), '\t') == fields,
    decreases fields.len(),
{
    if fields.len() == 1 {
        assert(tab_free(fields[0]));
        lemma_split_plain(fields[0], '\t');
        assert(seq![fields[0]] =~= fields);
    } else {
        let d = fields.drop_last();
        assert forall|i: int| 0 <= i < d.len() implies tab_free(#[trigger] d[i]) by {
            assert(d[i] == fields[i]);
        }
        lemma_split_tab_joined(d);
        assert(tab_free(fields[fields.len() - 1]));
        lemma_split_plain(fields.last(), '\t');
        lemma_split_concat(tab_joined(d), fields.last(), '\t');
        assert(d + seq![fields.last()] =~= fields);
    }
}

/// A hex field reads back as its text and holds no tab.
pub proof fn lemma_hex_field(t: Seq<char>)
    ensures
        decoded_text(hex_field(t)) == Some(t),
        tab_free(hex_field(t)),
{
    law_hex_text_round_trip(t);
    lemma_hex_digits_plain(encode_utf8(t));
    assert forall|i: int| 0 <= i < hex_field(t).len() implies hex_field(t)[i] != '\t' by {
        assert(crate::num::is_hex_digit(hex_field(t)[i]));
    }
}

/// A positive revision's decimal field reads back and holds no tab.
pub proof fn lemma_decimal_field(n: nat)
    ensures
        tab_free(decimal(n)),
        n <= 0xffff_ffff_ffff_ffff && n > 0 ==> u64_field(decimal(n)) == Some(n as u64),
        n <= 0xffff_ffff && n > 0 ==> u32_field(decimal(n)) == Some(n as u32),
        n <= usize::MAX ==> usize_field(decimal(n)) == Some(n as usize),
{
    lemma_decimal(n);
    assert forall|i: int| 0 <= i < decimal(n).len() implies decimal(n)[i] != '\t' by {
        assert(crate::num::is_digit(decimal(n)[i]));
    }
    if n <= 0xffff_ffff_ffff_ffff {
        lemma_parse_decimal(n, 0xffff_ffff_ffff_ffff);
    }
    if n <= 0xffff_ffff {
        lemma_parse_decimal(n, 0xffff_ffff);
    }
    if n <= usize::MAX {
        lemma_parse_decimal(n, usize::MAX as nat);
    }
}

/// The record kinds are distinct names.
proof fn lemma_record_kinds_distinct()
    ensures
        "intent"@ != "root-setup"@,
        "requirement"@ != "root-setup"@,
        "requirement"@ != "intent"@,
        "supersedes"@ != "root-setup"@,
        "supersedes"@ != "intent"@,
        "supersedes"@ != "requirement"@,
        "setup"@ != "root-setup"@,
        "setup"@ != "intent"@,
        "setup"@ != "requirement"@,
        "setup"@ != "supersedes"@,
        "setup-intent"@ != "root-setup"@,
        "setup-intent"@ != "intent"@,
        "setup-intent"@ != "requirement"@,
        "setup-intent"@ != "supersedes"@,
        "setup-intent"@ != "setup"@,
        "setup-include"@ != "root-setup"@,
        "setup-include"@ != "intent"@,
        "setup-include"@ != "requirement"@,
        "setup-include"@ != "supersedes"@,
        "setup-include"@ != "setup"@,
        "setup-include"@ != "setup-intent"@,
        "setup-constraint"@ != "root-setup"@,
        "setup-constraint"@ != "intent"@,
        "setup-constraint"@ != "requirement"@,
        "setup-constraint"@ != "supersedes"@,
        "setup-constraint"@ != "setup"@,
        "setup-constraint"@ != "setup-intent"@,
        "setup-constraint"@ != "setup-include"@,
        "setup-secret-ref"@ != "root-setup"@,
        "setup-secret-ref"@ != "intent"@,
        "setup-secret-ref"@ != "requirement"@,
        "setup-secret-ref"@ != "supersedes"@,
        "setup-secret-ref"@ != "setup"@,
        "setup-secret-ref"@ != "setup-intent"@,
        "setup-secret-ref"@ != "setup-include"@,
        "setup-secret-ref"@ != "setup-constraint"@,
        "setup-hardware"@ != "root-setup"@,
        "setup-hardware"@ != "intent"@,
        "setup-hardware"@ != "requirement"@,
        "setup-hardware"@ != "supersedes"@,
        "setup-hardware"@ != "setup"@,
        "setup-hardware"@ != "setup-intent"@,
        "setup-hardware"@ != "setup-include"@,
        "setup-hardware"@ != "setup-constraint"@,
        "setup-hardware"@ != "setup-secret-ref"@,
        "profile"@ != "root-setup"@,
        "profile"@ != "intent"@,
        "profile"@ != "requirement"@,
        "profile"@ != "supersedes"@,
        "profile"@ != "setup"@,
        "profile"@ != "setup-intent"@,
        "profile"@ != "setup-include"@,
        "profile"@ != "setup-constraint"@,
        "profile"@ != "setup-secret-ref"@,
        "profile"@ != "setup-hardware"@,
        "profile-intent"@ != "root-setup"@,
        "profile-intent"@ != "intent"@,
        "profile-intent"@ != "requirement"@,
        "profile-intent"@ != "supersedes"@,
        "profile-intent"@ != "setup"@,
        "profile-intent"@ != "setup-intent"@,
        "profile-intent"@ != "setup-include"@,
        "profile-intent"@ != "setup-constraint"@,
        "profile-intent"@ != "setup-secret-ref"@,
        "profile-intent"@ != "setup-hardware"@,
        "profile-intent"@ != "profile"@,
        "profile-setup"@ != "root-setup"@,
        "profile-setup"@ != "intent"@,
        "profile-setup"@ != "requirement"@,
        "profile-setup"@ != "supersedes"@,
        "profile-setup"@ != "setup"@,
        "profile-setup"@ != "setup-intent"@,
        "profile-setup"@ != "setup-include"@,
        "profile-setup"@ != "setup-constraint"@,
        "profile-setup"@ != "setup-secret-ref"@,
        "profile-setup"@ != "setup-hardware"@,
        "profile-setup"@ != "profile"@,
        "profile-setup"@ != "profile-intent"@,
        "profile-constraint"@ != "root-setup"@,
        "profile-constraint"@ != "intent"@,
        "profile-constraint"@ != "requirement"@,
        "profile-constraint"@ != "supersedes"@,
        "profile-constraint"@ != "setup"@,
        "profile-constraint"@ != "setup-intent"@,
        "profile-constraint"@ != "setup-include"@,
        "profile-constraint"@ != "setup-constraint"@,
        "profile-constraint"@ != "setup-secret-ref"@,
        "profile-constraint"@ != "setup-hardware"@,
        "profile-constraint"@ != "profile"@,
        "profile-constraint"@ != "profile-intent"@,
        "profile-constraint"@ != "profile-setup"@,
        "profile-hardware"@ != "root-setup"@,
        "profile-hardware"@ != "intent"@,
        "profile-hardware"@ != "requirement"@,
        "profile-hardware"@ != "supersedes"@,
        "profile-hardware"@ != "setup"@,
        "profile-hardware"@ != "setup-intent"@,
        "profile-hardware"@ != "setup-include"@,
        "profile-hardware"@ != "setup-constraint"@,
        "profile-hardware"@ != "setup-secret-ref"@,
        "profile-hardware"@ != "setup-hardware"@,
        "profile-hardware"@ != "profile"@,
        "profile-hardware"@ != "profile-intent"@,
        "profile-hardware"@ != "profile-setup"@,
        "profile-hardware"@ != "profile-constraint"@,
{
    reveal_strlit("root-setup");
    reveal_strlit("intent");
    reveal_strlit("requirement");
    reveal_strlit("supersedes");
    reveal_strlit("setup");
    reveal_strlit("setup-intent");
    reveal_strlit("setup-include");
    reveal_strlit("setup-constraint");
    reveal_strlit("setup-secret-ref");
    reveal_strlit("setup-hardware");
    reveal_strlit("profile");
    reveal_strlit("profile-intent");
    reveal_strlit("profile-setup");
    reveal_strlit("profile-constraint");
    reveal_strlit("profile-hardware");
    assert("intent"@.len() != "root-setup"@.len());
    assert("requirement"@.len() != "root-setup"@.len());
    assert("requirement"@.len() != "intent"@.len());
    assert("supersedes"@[0] != "root-setup"@[0]);
    assert("supersedes"@.len() != "intent"@.len());
    assert("supersedes"@.len() != "requirement"@.len());
    assert("setup"@.len() != "root-setup"@.len());
    assert("setup"@.len() != "intent"@.len());
    assert("setup"@.len() != "requirement"@.len());
    assert("setup"@.len() != "supersedes"@.len());
    assert("setup-intent"@.len() != "root-setup"@.len());
    assert("setup-intent"@.len() != "intent"@.len());
    assert("setup-intent"@.len() != "requirement"@.len());
    assert("setup-intent"@.len() != "supersedes"@.len());
    assert("setup-intent"@.len() != "setup"@.len());
    assert("setup-include"@.len() != "root-setup"@.len());
    assert("setup-include"@.len() != "intent"@.len());
    assert("setup-include"@.len() != "requirement"@.len());
    assert("setup-include"@.len() != "supersedes"@.len());
    assert("setup-include"@.len() != "setup"@.len());
    assert("setup-include"@.len() != "setup-intent"@.len());
    assert("setup-constraint"@.len() != "root-setup"@.len());
    assert("setup-constraint"@.len() != "intent"@.len());
    assert("setup-constraint"@.len() != "requirement"@.len());
    assert("setup-constraint"@.len() != "supersedes"@.len());
    assert("setup-constraint"@.len() != "setup"@.len());
    assert("setup-constraint"@.len() != "setup-intent"@.len());
    assert("setup-constraint"@.len() != "setup-include"@.len());
    assert("setup-secret-ref"@.len() != "root-setup"@.len());
    assert("setup-secret-ref"@.len() != "intent"@.len());
    assert("setup-secret-ref"@.len() != "requirement"@.len());
    assert("setup-secret-ref"@.len() != "supersedes"@.len());
    assert("setup-secret-ref"@.len() != "setup"@.len());
    assert("setup-secret-ref"@.len() != "setup-intent"@.len());
    assert("setup-secret-ref"@.len() != "setup-include"@.len());
    assert("setup-secret-ref"@[6] != "setup-constraint"@[6]);
    assert("setup-hardware"@.len() != "root-setup"@.len());
    assert("setup-hardware"@.len() != "intent"@.len());
    assert("setup-hardware"@.len() != "requirement"@.len());
    assert("setup-hardware"@.len() != "supersedes"@.len());
    assert("setup-hardware"@.len() != "setup"@.len());
    assert("setup-hardware"@.len() != "setup-intent"@.len());
    assert("setup-hardware"@.len() != "setup-include"@.len());
    assert("setup-hardware"@.len() != "setup-constraint"@.len());
    assert("setup-hardware"@.len() != "setup-secret-ref"@.len());
    assert("profile"@.len() != "root-setup"@.len());
    assert("profile"@.len() != "intent"@.len());
    assert("profile"@.len() != "requirement"@.len());
    assert("profile"@.len() != "supersedes"@.len());
    assert("profile"@.len() != "setup"@.len());
    assert("profile"@.len() != "setup-intent"@.len());
    assert("profile"@.len() != "setup-include"@.len());
    assert("profile"@.len() != "setup-constraint"@.len());
    assert("profile"@.len() != "setup-secret-ref"@.len());
    assert("profile"@.len() != "setup-hardware"@.len());
    assert("profile-intent"@.len() != "root-setup"@.len());
    assert("profile-intent"@.len() != "intent"@.len());
    assert("profile-intent"@.len() != "requirement"@.len());
    assert("profile-intent"@.len() != "supersedes"@.len());
    assert("profile-intent"@.len() != "setup"@.len());
    assert("profile-intent"@.len() != "setup-intent"@.len());
    assert("profile-intent"@.len() != "setup-include"@.len());
    assert("profile-intent"@.len() != "setup-constraint"@.len());
    assert("profile-intent"@.len() != "setup-secret-ref"@.len());
    assert("profile-intent"@[0] != "setup-hardware"@[0]);
    assert("profile-intent"@.len() != "profile"@.len());
    assert("profile-setup"@.len() != "root-setup"@.len());
    assert("profile-setup"@.len() != "intent"@.len());
    assert("profile-setup"@.len() != "requirement"@.len());
    assert("profile-setup"@.len() != "supersedes"@.len());
    assert("profile-setup"@.len() != "setup"@.len());
    assert("profile-setup"@.len() != "setup-intent"@.len());
    assert("profile-setup"@[0] != "setup-include"@[0]);
    assert("profile-setup"@.len() != "setup-constraint"@.len());
    assert("profile-setup"@.len() != "setup-secret-ref"@.len());
    assert("profile-setup"@.len() != "setup-hardware"@.len());
    assert("profile-setup"@.len() != "profile"@.len());
    assert("profile-setup"@.len() != "profile-intent"@.len());
    assert("profile-constraint"@.len() != "root-setup"@.len());
    assert("profile-constraint"@.len() != "intent"@.len());
    assert("profile-constraint"@.len() != "requirement"@.len());
    assert("profile-constraint"@.len() != "supersedes"@.len());
    assert("profile-constraint"@.len() != "setup"@.len());
    assert("profile-constraint"@.len() != "setup-intent"@.len());
    assert("profile-constraint"@.len() != "setup-include"@.len());
    assert("profile-constraint"@.len() != "setup-constraint"@.len());
    assert("profile-constraint"@.len() != "setup-secret-ref"@.len());
    assert("profile-constraint"@.len() != "setup-hardware"@.len());
    assert("profile-constraint"@.len() != "profile"@.len());
    assert("profile-constraint"@.len() != "profile-intent"@.len());
    assert("profile-constraint"@.len() != "profile-setup"@.len());
    assert("profile-hardware"@.len() != "root-setup"@.len());
    assert("profile-hardware"@.len() != "intent"@.len());
    assert("profile-hardware"@.len() != "requirement"@.len());
    assert("profile-hardware"@.len() != "supersedes"@.len());
    assert("profile-hardware"@.len() != "setup"@.len());
    assert("profile-hardware"@.len() != "setup-intent"@.len());
    assert("profile-hardware"@.len() != "setup-include"@.len());
    assert("profile-hardware"@[0] != "setup-constraint"@[0]);
    assert("profile-hardware"@[0] != "setup-secret-ref"@[0]);
    assert("profile-hardware"@.len() != "setup-hardware"@.len());
    assert("profile-hardware"@.len() != "profile"@.len());
    assert("profile-hardware"@.len() != "profile-intent"@.len());
    assert("profile-hardware"@.len() != "profile-setup"@.len());
    assert("profile-hardware"@.len() != "profile-constraint"@.len());
}

/// The name of the record kind that adds values of `kind` to a setup.
pub open spec fn setup_value_record_name(kind: SetupValueKind) -> Seq<char> {
    match kind {
        SetupValueKind::Constraint => "setup-constraint"@,
        SetupValueKind::SecretRef => "setup-secret-ref"@,
        SetupValueKind::Hardware => "setup-hardware"@,
    }
}

pub open spec fn profile_value_record_name(kind: ProfileValueKind) -> Seq<char> {
    match kind {
        ProfileValueKind::Constraint => "profile-constraint"@,
        ProfileValueKind::Hardware => "profile-hardware"@,
    }
}

/// The field the writer emits for a flag.
pub open spec fn flag_field(b: bool) -> Seq<char> {
    if b { seq!['1'] } else { seq!['0'] }
}

proof fn lemma_record_fields(f: Seq<Seq<char>>)
    requires
        f.len() >= 1,
        forall|i: int| 0 <= i < f.len() ==> tab_free(#[trigger] f[i]),
    ensures
        split(tab_joined(f), '\t') == f,
{
    lemma_split_tab_joined(f);
}

/// The writer's `root-setup` record reads back as the artifact's root.
pub proof fn law_root_record_reads_back(m: ArtifactView, id: Seq<char>, revision: u32)
    requires
        revision > 0,
        m.root is None,
    ensures
        apply_record(m, tab_joined(seq!["root-setup"@, hex_field(id), decimal(revision as nat)]))
            == Some(ArtifactView { root: Some((id, revision)), ..m }),
{
    let f = seq!["root-setup"@, hex_field(id), decimal(revision as nat)];
    lemma_hex_field(id);
    lemma_decimal_field(revision as nat);
    reveal_strlit("root-setup");
    assert forall|i: int| 0 <= i < f.len() implies tab_free(#[trigger] f[i]) by {}
    reveal(apply_record);
    lemma_record_fields(f);
}

/// The writer's `intent` record reads back as the revision's base, where
/// the artifact has none for it yet.
pub proof fn law_intent_record_reads_back(
    m: ArtifactView,
    id: Seq<char>,
    revision: u64,
    actor_id: Seq<char>,
    actor_kind: Seq<char>,
    interactive: bool,
    status: Seq<char>,
    statement: Seq<char>,
)
    requires
        revision > 0,
        tab_free(actor_kind),
        tab_free(status),
        current_intent(m, id, revision).base is None,
    ensures
        apply_record(m, tab_joined(seq![
            "intent"@,
            hex_field(id),
            decimal(revision as nat),
            hex_field(actor_id),
            actor_kind,
            flag_field(interactive),
            status,
            hex_field(statement),
        ])) == Some(update_intent(m, id, revision, IntentView {
            base: Some(IntentBaseView { actor_id, actor_kind, actor_interactive: interactive, status, statement }),
            ..current_intent(m, id, revision)
        })),
{
    let f = seq![
        "intent"@,
        hex_field(id),
        decimal(revision as nat),
        hex_field(actor_id),
        actor_kind,
        flag_field(interactive),
        status,
        hex_field(statement),
    ];
    lemma_record_kinds_distinct();
    lemma_hex_field(id);
    lemma_hex_field(actor_id);
    lemma_hex_field(statement);
    lemma_decimal_field(revision as nat);
    reveal_strlit("intent");
    assert(seq!['1'][0] != seq!['0'][0]);
    assert(bool_field(flag_field(interactive)) == Some(interactive));
    assert forall|i: int| 0 <= i < f.len() implies tab_free(#[trigger] f[i]) by {}
    reveal(apply_record);
    lemma_record_fields(f);
}

/// The writer's `requirement` record reads back as one more requirement of
/// the intent revision.
pub proof fn law_requirement_record_reads_back(
    m: ArtifactView,
    id: Seq<char>,
    revision: u64,
    requirement_id: Seq<char>,
    kind: Seq<char>,
    statement: Seq<char>,
)
    requires
        revision > 0,
        tab_free(kind),
    ensures
        apply_record(m, tab_joined(seq![
            "requirement"@,
            hex_field(id),
            decimal(revision as nat),
            hex_field(requirement_id),
            kind,
            hex_field(statement),
        ])) == Some(update_intent(m, id, revision, IntentView {
            requirements: current_intent(m, id, revision).requirements.push((requirement_id, kind, statement)),
            ..current_intent(m, id, revision)
        })),
{
    let f = seq!["requirement"@, hex_field(id), decimal(revision as nat), hex_field(requirement_id), kind, hex_field(statement)];
    lemma_record_kinds_distinct();
    lemma_hex_field(id);
    lemma_hex_field(requirement_id);
    lemma_hex_field(statement);
    lemma_decimal_field(revision as nat);
    reveal_strlit("requirement");
    assert forall|i: int| 0 <= i < f.len() implies tab_free(#[trigger] f[i]) by {}
    reveal(apply_record);
    lemma_record_fields(f);
}

/// The writer's `supersedes` record reads back as one more superseded
/// intent of the revision.
pub proof fn law_supersedes_record_reads_back(m: ArtifactView, id: Seq<char>, revision: u64, predecessor: Seq<char>)
    requires
        revision > 0,
    ensures
        apply_record(m, tab_joined(seq!["supersedes"@, hex_field(id), decimal(revision as nat), hex_field(predecessor)]))
            == Some(update_intent(m, id, revision, IntentView {
            supersedes: current_intent(m, id, revision).supersedes.push(predecessor),
            ..current_intent(m, id, revision)
        })),
{
    let f = seq!["supersedes"@, hex_field(id), decimal(revision as nat), hex_field(predecessor)];
    lemma_record_kinds_distinct();
    lemma_hex_field(id);
    lemma_hex_field(predecessor);
    lemma_decimal_field(revision as nat);
    reveal_strlit("supersedes");
    assert forall|i: int| 0 <= i < f.len() implies tab_free(#[trigger] f[i]) by {}
    reveal(apply_record);
    lemma_record_fields(f);
}

/// The writer's `setup` record reads back as the revision's base, where
/// the artifact has none for it yet.
pub proof fn law_setup_record_reads_back(m: ArtifactView, id: Seq<char>, revision: u32, name: Seq<char>, description: Seq<char>)
    requires
        revision > 0,
        current_setup(m, id, revision).base is None,
    ensures
        apply_record(m, tab_joined(seq!["setup"@, hex_field(id), decimal(revision as nat), hex_field(name), hex_field(description)]))
            == Some(update_setup(m, id, revision, SetupView {
            base: Some((name, description)),
            ..current_setup(m, id, revision)
        })),
{
    let f = seq!["setup"@, hex_field(id), decimal(revision as nat), hex_field(name), hex_field(description)];
    lemma_record_kinds_distinct();
    lemma_hex_field(id);
    lemma_hex_field(name);
    lemma_hex_field(description);
    lemma_decimal_field(revision as nat);
    reveal_strlit("setup");
    assert forall|i: int| 0 <= i < f.len() implies tab_free(#[trigger] f[i]) by {}
    reveal(apply_record);
    lemma_record_fields(f);
}

/// The writer's `setup-intent` record reads back as one more intent
/// reference of the setup revision.
pub proof fn law_setup_intent_record_reads_back(m: ArtifactView, id: Seq<char>, revision: u32, target: Seq<char>, target_revision: u64)
    requires
        revision > 0,
        target_revision > 0,
    ensures
        apply_record(m, tab_joined(seq![
            "setup-intent"@,
            hex_field(id),
            decimal(revision as nat),
            hex_field(target),
            decimal(target_revision as nat),
        ])) == Some(update_setup(m, id, revision, SetupView {
            intents: current_setup(m, id, revision).intents.push((target, target_revision)),
            ..current_setup(m, id, revision)
        })),
{
    let f = seq!["setup-intent"@, hex_field(id), decimal(revision as nat), hex_field(target), decimal(target_revision as nat)];
    lemma_record_kinds_distinct();
    lemma_hex_field(id);
    lemma_hex_field(target);
    lemma_decimal_field(revision as nat);
    lemma_decimal_field(target_revision as nat);
    reveal_strlit("setup-intent");
    assert forall|i: int| 0 <= i < f.len() implies tab_free(#[trigger] f[i]) by {}
    reveal(apply_record);
    lemma_record_fields(f);
}

/// The writer's `setup-include` record reads back as one more included
/// setup of the setup revision.
pub proof fn law_setup_include_record_reads_back(m: ArtifactView, id: Seq<char>, revision: u32, target: Seq<char>, target_revision: u32)
    requires
        revision > 0,
        target_revision > 0,
    ensures
        apply_record(m, tab_joined(seq![
            "setup-include"@,
            hex_field(id),
            decimal(revision as nat),
            hex_field(target),
            decimal(target_revision as nat),
        ])) == Some(update_setup(m, id, revision, SetupView {
            includes: current_setup(m, id, revision).includes.push((target, target_revision)),
            ..current_setup(m, id, revision)
        })),
{
    let f = seq!["setup-include"@, hex_field(id), decimal(revision as nat), hex_field(target), decimal(target_revision as nat)];
    lemma_record_kinds_distinct();
    lemma_hex_field(id);
    lemma_hex_field(target);
    lemma_decimal_field(revision as nat);
    lemma_decimal_field(target_revision as nat);
    reveal_strlit("setup-include");
    assert forall|i: int| 0 <= i < f.len() implies tab_free(#[trigger] f[i]) by {}
    reveal(apply_record);
    lemma_record_fields(f);
}

/// The writer's setup value records read back as the value under its
/// ordinal, unless that ordinal of the kind is already taken.
pub proof fn law_setup_value_record_reads_back(
    m: ArtifactView,
    id: Seq<char>,
    revision: u32,
    kind: SetupValueKind,
    ordinal: usize,
    value: Seq<char>,
)
    requires
        revision > 0,
    ensures
        apply_record(m, tab_joined(seq![
            setup_value_record_name(kind),
            hex_field(id),
            decimal(revision as nat),
            decimal(ordinal as nat),
            hex_field(value),
        ])) == match insert_ordinal(setup_values(current_setup(m, id, revision), kind), ordinal, value) {
            Some(t) => Some(update_setup(m, id, revision, with_setup_values(current_setup(m, id, revision), kind, t))),
            None => None,
        },
{
    let f = seq![setup_value_record_name(kind), hex_field(id), decimal(revision as nat), decimal(ordinal as nat), hex_field(value)];
    lemma_record_kinds_distinct();
    lemma_hex_field(id);
    lemma_hex_field(value);
    lemma_decimal_field(revision as nat);
    lemma_decimal_field(ordinal as nat);
    reveal_strlit("setup-constraint");
    reveal_strlit("setup-secret-ref");
    reveal_strlit("setup-hardware");
    assert forall|i: int| 0 <= i < f.len() implies tab_free(#[trigger] f[i]) by {}
    reveal(apply_record);
    lemma_record_fields(f);
}

/// The writer's `profile` record reads back as the artifact's profile,
/// where it has none yet.
pub proof fn law_profile_record_reads_back(m: ArtifactView, id: Seq<char>, revision: u32, name: Seq<char>, machine_class: Seq<char>)
    requires
        revision > 0,
        tab_free(machine_class),
        m.profile is None,
    ensures
        apply_record(m, tab_joined(seq!["profile"@, hex_field(id), decimal(revision as nat), hex_field(name), machine_class]))
            == Some(with_profile(m, ProfileView {
            id,
            revision,
            name,
            machine_class,
            intents: seq![],
            setups: seq![],
            constraints: seq![],
            hardware_hints: seq![],
        })),
{
    let f = seq!["profile"@, hex_field(id), decimal(revision as nat), hex_field(name), machine_class];
    lemma_record_kinds_distinct();
    lemma_hex_field(id);
    lemma_hex_field(name);
    lemma_decimal_field(revision as nat);
    reveal_strlit("profile");
    assert forall|i: int| 0 <= i < f.len() implies tab_free(#[trigger] f[i]) by {}
    reveal(apply_record);
    lemma_record_fields(f);
}

/// The writer's `profile-intent` and `profile-setup` records read back as
/// one more reference of the profile they name.
pub proof fn law_profile_reference_records_read_back(
    m: ArtifactView,
    intent: Seq<char>,
    intent_revision: u64,
    setup: Seq<char>,
    setup_revision: u32,
)
    requires
        m.profile is Some,
        m.profile.unwrap().revision > 0,
        intent_revision > 0,
        setup_revision > 0,
    ensures
        apply_record(m, tab_joined(seq![
            "profile-intent"@,
            hex_field(m.profile.unwrap().id),
            decimal(m.profile.unwrap().revision as nat),
            hex_field(intent),
            decimal(intent_revision as nat),
        ])) == Some(with_profile(m, ProfileView {
            intents: m.profile.unwrap().intents.push((intent, intent_revision)),
            ..m.profile.unwrap()
        })),
        apply_record(m, tab_joined(seq![
            "profile-setup"@,
            hex_field(m.profile.unwrap().id),
            decimal(m.profile.unwrap().revision as nat),
            hex_field(setup),
            decimal(setup_revision as nat),
        ])) == Some(with_profile(m, ProfileView {
            setups: m.profile.unwrap().setups.push((setup, setup_revision)),
            ..m.profile.unwrap()
        })),
{
    let p = m.profile.unwrap();
    let f = seq!["profile-intent"@, hex_field(p.id), decimal(p.revision as nat), hex_field(intent), decimal(intent_revision as nat)];
    let g = seq!["profile-setup"@, hex_field(p.id), decimal(p.revision as nat), hex_field(setup), decimal(setup_revision as nat)];
    lemma_record_kinds_distinct();
    lemma_hex_field(p.id);
    lemma_hex_field(intent);
    lemma_hex_field(setup);
    lemma_decimal_field(p.revision as nat);
    lemma_decimal_field(intent_revision as nat);
    lemma_decimal_field(setup_revision as nat);
    reveal_strlit("profile-intent");
    reveal_strlit("profile-setup");
    assert forall|i: int| 0 <= i < f.len() implies tab_free(#[trigger] f[i]) by {}
    assert forall|i: int| 0 <= i < g.len() implies tab_free(#[trigger] g[i]) by {}
    reveal(apply_record);
    lemma_record_fields(f);
    lemma_record_fields(g);
}

/// The writer's profile value records read back as the value under its
/// ordinal, unless that ordinal of the kind is already taken.
pub proof fn law_profile_value_record_reads_back(m: ArtifactView, kind: ProfileValueKind, ordinal: usize, value: Seq<char>)
    requires
        m.profile is Some,
        m.profile.unwrap().revision > 0,
    ensures
        apply_record(m, tab_joined(seq![
            profile_value_record_name(kind),
            hex_field(m.profile.unwrap().id),
            decimal(m.profile.unwrap().revision as nat),
            decimal(ordinal as nat),
            hex_field(value),
        ])) == match insert_ordinal(profile_values(m.profile.unwrap(), kind), ordinal, value) {
            Some(t) => Some(with_profile(m, with_profile_values(m.profile.unwrap(), kind, t))),
            None => None,
        },
{
    let p = m.profile.unwrap();
    let f = seq![profile_value_record_name(kind), hex_field(p.id), decimal(p.revision as nat), decimal(ordinal as nat), hex_field(value)];
    lemma_record_kinds_distinct();
    lemma_hex_field(p.id);
    lemma_hex_field(value);
    lemma_decimal_field(p.revision as nat);
    lemma_decimal_field(ordinal as nat);
    reveal_strlit("profile-constraint");
    reveal_strlit("profile-hardware");
    assert forall|i: int| 0 <= i < f.len() implies tab_free(#[trigger] f[i]) by {}
    reveal(apply_record);
    lemma_record_fields(f);
}

} // verus!
