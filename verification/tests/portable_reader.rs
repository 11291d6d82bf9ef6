use linura::library::error::LibraryError;
use linura::library::names::{ActorKind, MachineClass, RequirementKind};
use linura::library::portable::finish_artifact;
use linura::library::portable_reader::{decode_profile_bundle, decode_setup_bundle};
use linura::library::portable_writer::{
    encode_profile_bundle, encode_setup_bundle, PortableIntent, PortableProfile, PortableProfileBundle,
    PortableRequirement, PortableSetup, PortableSetupBundle,
};
use linura::library::records::IntentStatus;

fn intent(id: &str, revision: u64) -> PortableIntent {
    PortableIntent {
        id: id.to_string(),
        revision,
        actor_id: "alice".to_string(),
        actor_kind: ActorKind::Human,
        actor_interactive: true,
        status: IntentStatus::Active,
        statement: format!("keep {id}"),
        requirements: vec![
            PortableRequirement { id: "r2".to_string(), kind: RequirementKind::Goal, statement: "second".to_string() },
            PortableRequirement { id: "r1".to_string(), kind: RequirementKind::Prohibition, statement: "first".to_string() },
        ],
        supersedes: vec!["zeta".to_string(), "alpha".to_string()],
    }
}

fn setup(id: &str, revision: u32, intents: &[(&str, u64)], includes: &[(&str, u32)]) -> PortableSetup {
    PortableSetup {
        id: id.to_string(),
        revision,
        name: id.to_uppercase(),
        description: format!("the {id} setup"),
        intent_revisions: intents.iter().map(|(i, r)| (i.to_string(), *r)).collect(),
        included_revisions: includes.iter().map(|(i, r)| (i.to_string(), *r)).collect(),
        portable_constraints: vec!["quiet".to_string(), "cool".to_string()],
        required_secret_refs: vec!["vault:wifi".to_string()],
        hardware_hints: Vec::new(),
    }
}

fn bundle() -> PortableSetupBundle {
    PortableSetupBundle {
        format_version: 1,
        root: ("desk".to_string(), 2),
        setups: vec![
            setup("desk", 2, &[("net", 1), ("audio", 3)], &[("base", 1)]),
            setup("base", 1, &[("audio", 3)], &[]),
        ],
        intents: vec![intent("net", 1), intent("audio", 3)],
    }
}

fn profile_bundle() -> PortableProfileBundle {
    let mut power = intent("power", 1);
    power.requirements.clear();
    PortableProfileBundle {
        format_version: 1,
        profile: PortableProfile {
            id: "home".to_string(),
            revision: 4,
            name: "Home".to_string(),
            machine_class: MachineClass::Edge,
            intent_revisions: vec![("power".to_string(), 1)],
            setup_revisions: vec![("desk".to_string(), 2)],
            portable_constraints: vec!["quiet".to_string()],
            hardware_hints: vec!["gpu".to_string()],
        },
        setups: bundle().setups,
        intents: vec![intent("net", 1), intent("audio", 3), power],
    }
}

/// The artifact's body without its digest line.
fn body_of(sealed: &[u8]) -> String {
    let text = String::from_utf8(sealed.to_vec()).expect("artifacts are text");
    let cut = text.rfind("sha256\t").expect("digest line");
    text[..cut].to_string()
}

fn reseal(body: String) -> Vec<u8> {
    finish_artifact(body).expect("small artifact")
}

#[test]
fn setup_bundle_reads_back_in_stable_order() {
    let sealed = encode_setup_bundle(&bundle()).expect("valid bundle");
    let read = decode_setup_bundle(&sealed).expect("own artifact decodes");
    assert_eq!(read.format_version, 1);
    assert_eq!(read.root, ("desk".to_string(), 2));
    let keys: Vec<(String, u32)> = read.setups.iter().map(|s| (s.id.clone(), s.revision)).collect();
    assert_eq!(keys, vec![("base".to_string(), 1), ("desk".to_string(), 2)]);
    let desk = &read.setups[1];
    assert_eq!((desk.name.as_str(), desk.description.as_str()), ("DESK", "the desk setup"));
    assert_eq!(desk.intent_revisions, vec![("audio".to_string(), 3), ("net".to_string(), 1)]);
    assert_eq!(desk.included_revisions, vec![("base".to_string(), 1)]);
    assert_eq!(desk.portable_constraints, vec!["quiet".to_string(), "cool".to_string()]);
    assert_eq!(desk.required_secret_refs, vec!["vault:wifi".to_string()]);
    assert!(desk.hardware_hints.is_empty());
    let intents: Vec<(String, u64)> = read.intents.iter().map(|i| (i.id.clone(), i.revision)).collect();
    assert_eq!(intents, vec![("audio".to_string(), 3), ("net".to_string(), 1)]);
    let net = &read.intents[1];
    assert_eq!(net.actor_id, "alice");
    assert_eq!(net.actor_kind, ActorKind::Human);
    assert!(net.actor_interactive);
    assert_eq!(net.status, IntentStatus::Active);
    assert_eq!(net.statement, "keep net");
    let requirements: Vec<(&str, RequirementKind, &str)> =
        net.requirements.iter().map(|r| (r.id.as_str(), r.kind, r.statement.as_str())).collect();
    assert_eq!(
        requirements,
        vec![("r1", RequirementKind::Prohibition, "first"), ("r2", RequirementKind::Goal, "second")]
    );
    assert_eq!(net.supersedes, vec!["alpha".to_string(), "zeta".to_string()]);
    let again = encode_setup_bundle(&read).expect("read bundle is valid");
    assert_eq!(again, sealed);
}

#[test]
fn reordered_equivalent_references_encode_and_decode_alike() {
    let mut reordered = bundle();
    reordered.setups.reverse();
    reordered.intents.reverse();
    reordered.setups[1].intent_revisions.reverse();
    let first = encode_setup_bundle(&bundle()).expect("valid bundle");
    let second = encode_setup_bundle(&reordered).expect("reordered equivalent IDs must encode");
    assert_eq!(first, second);
    let read = decode_setup_bundle(&second).expect("reordered equivalent IDs must decode");
    assert_eq!(read.setups[1].intent_revisions, vec![("audio".to_string(), 3), ("net".to_string(), 1)]);
}

#[test]
fn profile_bundle_reads_back_with_machine_class() {
    let sealed = encode_profile_bundle(&profile_bundle()).expect("valid profile bundle");
    let read = decode_profile_bundle(&sealed).expect("own artifact decodes");
    assert_eq!(read.profile.machine_class, MachineClass::Edge);
    assert_eq!((read.profile.id.as_str(), read.profile.revision, read.profile.name.as_str()), ("home", 4, "Home"));
    assert_eq!(read.profile.intent_revisions, vec![("power".to_string(), 1)]);
    assert_eq!(read.profile.setup_revisions, vec![("desk".to_string(), 2)]);
    assert_eq!(read.profile.portable_constraints, vec!["quiet".to_string()]);
    assert_eq!(read.profile.hardware_hints, vec!["gpu".to_string()]);
    let intents: Vec<(String, u64)> = read.intents.iter().map(|i| (i.id.clone(), i.revision)).collect();
    assert_eq!(intents, vec![("audio".to_string(), 3), ("net".to_string(), 1), ("power".to_string(), 1)]);
    assert!(read.intents[2].requirements.is_empty());
    assert_eq!(encode_profile_bundle(&read).expect("read bundle is valid"), sealed);
}

#[test]
fn artifact_of_the_other_kind_is_refused() {
    let setup_artifact = encode_setup_bundle(&bundle()).expect("valid bundle");
    assert!(matches!(decode_profile_bundle(&setup_artifact), Err(LibraryError::PortableFormat(_))));
    let profile_artifact = encode_profile_bundle(&profile_bundle()).expect("valid profile bundle");
    assert!(matches!(decode_setup_bundle(&profile_artifact), Err(LibraryError::PortableFormat(_))));
}

#[test]
fn tampered_payload_is_a_digest_mismatch() {
    let mut sealed = encode_setup_bundle(&bundle()).expect("valid bundle");
    let body = body_of(&sealed);
    let at = body.find("\t4445534b").expect("hex name field") + 1;
    sealed[at] = b'5';
    assert_eq!(decode_setup_bundle(&sealed).map(|_| ()), Err(LibraryError::PortableDigestMismatch));
}

#[test]
fn setup_artifact_without_root_is_refused() {
    let sealed = encode_setup_bundle(&bundle()).expect("valid bundle");
    let body: String =
        body_of(&sealed).lines().filter(|line| !line.starts_with("root-setup\t")).map(|line| format!("{line}\n")).collect();
    let result = decode_setup_bundle(&reseal(body));
    assert!(matches!(result, Err(LibraryError::PortableFormat(_))));
}

#[test]
fn missing_ordinal_is_refused() {
    let sealed = encode_setup_bundle(&bundle()).expect("valid bundle");
    let body: String = body_of(&sealed)
        .lines()
        .filter(|line| !(line.starts_with("setup-constraint\t") && line.contains("\t0\t")))
        .map(|line| format!("{line}\n"))
        .collect();
    let result = decode_setup_bundle(&reseal(body));
    assert!(matches!(result, Err(LibraryError::PortableFormat(_))));
}

#[test]
fn setup_that_reaches_a_missing_revision_is_refused() {
    let sealed = encode_setup_bundle(&bundle()).expect("valid bundle");
    let body: String = body_of(&sealed)
        .lines()
        .filter(|line| !line.starts_with("intent\t617564696f"))
        .filter(|line| !line.starts_with("requirement\t617564696f"))
        .filter(|line| !line.starts_with("supersedes\t617564696f"))
        .map(|line| format!("{line}\n"))
        .collect();
    let result = decode_setup_bundle(&reseal(body));
    assert!(matches!(result, Err(LibraryError::PortableFormat(_))));
}

#[test]
fn newer_format_is_unsupported() {
    let sealed = encode_setup_bundle(&bundle()).expect("valid bundle");
    let body = body_of(&sealed);
    let mut lines: Vec<String> = body.lines().map(|line| line.to_string()).collect();
    let header = lines[0].clone();
    let fields: Vec<&str> = header.split('\t').collect();
    let version_at = fields.iter().position(|field| *field == "1").expect("version field");
    let mut edited: Vec<String> = fields.iter().map(|field| field.to_string()).collect();
    edited[version_at] = "2".to_string();
    lines[0] = edited.join("\t");
    let resealed = reseal(lines.into_iter().map(|line| format!("{line}\n")).collect());
    assert_eq!(
        decode_setup_bundle(&resealed).map(|_| ()),
        Err(LibraryError::UnsupportedPortableFormat { found: 2, supported: 1 })
    );
}

#[test]
fn malformed_secret_reference_is_not_read() {
    let sealed = encode_setup_bundle(&bundle()).expect("valid bundle");
    let body: String = body_of(&sealed)
        .lines()
        .map(|line| {
            if line.starts_with("setup-secret-ref\t") {
                let mut fields: Vec<String> = line.split('\t').map(|f| f.to_string()).collect();
                let last = fields.len() - 1;
                fields[last] = "68756e74657232".to_string();
                fields.join("\t")
            } else {
                line.to_string()
            }
        })
        .map(|line| format!("{line}\n"))
        .collect();
    let result = decode_setup_bundle(&reseal(body));
    assert!(matches!(result, Err(LibraryError::PortableFormat(_))));
}
