use linura::library::error::LibraryError;
use linura::library::names::{ActorKind, MachineClass, RequirementKind};
use linura::library::portable_records::parse_artifact;
use linura::library::portable_writer::{
    encode_intents, encode_profile_bundle, encode_setup_bundle, encode_setups, PortableIntent, PortableProfile,
    PortableProfileBundle, PortableRequirement, PortableSetup, PortableSetupBundle,
};
use linura::library::records::IntentStatus;

fn intent(id: &str, revision: u64) -> PortableIntent {
    PortableIntent {
        id: id.to_string(),
        revision,
        actor_id: "alice".to_string(),
        actor_kind: ActorKind::Human,
        actor_interactive: true,
        status: IntentStatus::Active,
        statement: format!("keep {id}"),
        requirements: vec![
            PortableRequirement { id: "r2".to_string(), kind: RequirementKind::Goal, statement: "second".to_string() },
            PortableRequirement { id: "r1".to_string(), kind: RequirementKind::Prohibition, statement: "first".to_string() },
        ],
        supersedes: vec!["zeta".to_string(), "alpha".to_string()],
    }
}

fn setup(id: &str, revision: u32, intents: &[(&str, u64)], includes: &[(&str, u32)]) -> PortableSetup {
    PortableSetup {
        id: id.to_string(),
        revision,
        name: id.to_uppercase(),
        description: format!("the {id} setup"),
        intent_revisions: intents.iter().map(|(i, r)| (i.to_string(), *r)).collect(),
        included_revisions: includes.iter().map(|(i, r)| (i.to_string(), *r)).collect(),
        portable_constraints: vec!["quiet".to_string(), "cool".to_string()],
        required_secret_refs: vec!["vault:wifi".to_string()],
        hardware_hints: Vec::new(),
    }
}

fn bundle() -> PortableSetupBundle {
    PortableSetupBundle {
        format_version: 1,
        root: ("desk".to_string(), 2),
        setups: vec![setup("desk", 2, &[("net", 1)], &[("base", 1)]), setup("base", 1, &[("audio", 3)], &[])],
        intents: vec![intent("net", 1), intent("audio", 3)],
    }
}

#[test]
fn intent_records_are_written_in_stable_key_order() {
    let mut body = Vec::new();
    encode_intents(&mut body, &[intent("net", 2), intent("net", 1)].into_iter().collect());
    let text: String = body.into_iter().collect();
    let lines: Vec<&str> = text.lines().collect();
    assert_eq!(lines.len(), 10);
    assert_eq!(lines[0], "intent\t6e6574\t1\t616c696365\thuman\t1\tactive\t6b656570206e6574");
    assert_eq!(lines[1], "requirement\t6e6574\t1\t7231\tprohibition\t6669727374");
    assert_eq!(lines[2], "requirement\t6e6574\t1\t7232\tgoal\t7365636f6e64");
    assert_eq!(lines[3], "supersedes\t6e6574\t1\t616c706861");
    assert_eq!(lines[4], "supersedes\t6e6574\t1\t7a657461");
    assert!(lines[5].starts_with("intent\t6e6574\t2\t"));
}

#[test]
fn setup_records_write_references_sorted_and_values_by_position() {
    let mut body = Vec::new();
    encode_setups(&mut body, &vec![setup("b", 1, &[("y", 2), ("x", 9), ("x", 3)], &[("c", 2), ("a", 1)])]);
    let text: String = body.into_iter().collect();
    let lines: Vec<&str> = text.lines().collect();
    assert_eq!(lines[0], "setup\t62\t1\t42\t7468652062207365747570");
    assert_eq!(lines[1], "setup-intent\t62\t1\t78\t3");
    assert_eq!(lines[2], "setup-intent\t62\t1\t78\t9");
    assert_eq!(lines[3], "setup-intent\t62\t1\t79\t2");
    assert_eq!(lines[4], "setup-include\t62\t1\t61\t1");
    assert_eq!(lines[5], "setup-include\t62\t1\t63\t2");
    assert_eq!(lines[6], "setup-constraint\t62\t1\t0\t7175696574");
    assert_eq!(lines[7], "setup-constraint\t62\t1\t1\t636f6f6c");
    assert_eq!(lines[8], "setup-secret-ref\t62\t1\t0\t7661756c743a77696669");
    assert_eq!(lines.len(), 9);
}

#[test]
fn portable_setup_is_deterministic_integrity_bound_and_reads_back() {
    let first = encode_setup_bundle(&bundle()).expect("valid bundle");
    let second = encode_setup_bundle(&bundle()).expect("valid bundle");
    assert_eq!(first, second);
    let parsed = parse_artifact(&first, "setup").expect("own artifact parses");
    assert_eq!(parsed.root, Some(("desk".to_string(), 2)));
    let keys: Vec<(String, u32)> = parsed.setups.iter().map(|s| (s.id.clone(), s.revision)).collect();
    assert_eq!(keys, vec![("base".to_string(), 1), ("desk".to_string(), 2)]);
    assert_eq!(parsed.setups[1].includes, vec![("base".to_string(), 1)]);
    assert_eq!(parsed.setups[1].constraints, vec![(0, "quiet".to_string()), (1, "cool".to_string())]);
    let intents: Vec<(String, u64)> = parsed.intents.iter().map(|i| (i.id.clone(), i.revision)).collect();
    assert_eq!(intents, vec![("audio".to_string(), 3), ("net".to_string(), 1)]);
    assert_eq!(parsed.intents[1].supersedes, vec!["alpha".to_string(), "zeta".to_string()]);

    let mut tampered = first.clone();
    let position = tampered.iter().position(|byte| *byte == b'p').expect("payload byte");
    tampered[position] = b'q';
    assert!(parse_artifact(&tampered, "setup").is_err());
}

#[test]
fn invalid_setup_bundles_are_not_written() {
    let mut cyclic = bundle();
    cyclic.setups[1].included_revisions.push(("desk".to_string(), 2));
    assert!(matches!(encode_setup_bundle(&cyclic), Err(LibraryError::PortableFormat(_))));
    let mut newer = bundle();
    newer.format_version = 2;
    assert_eq!(encode_setup_bundle(&newer), Err(LibraryError::UnsupportedPortableFormat { found: 2, supported: 1 }));
}

#[test]
fn portable_profile_export_retains_machine_class() {
    let profile = PortableProfile {
        id: "home".to_string(),
        revision: 4,
        name: "Home".to_string(),
        machine_class: MachineClass::Edge,
        intent_revisions: vec![("power".to_string(), 1)],
        setup_revisions: vec![("desk".to_string(), 2)],
        portable_constraints: vec!["quiet".to_string()],
        hardware_hints: vec!["gpu".to_string()],
    };
    let mut power = intent("power", 1);
    power.requirements.clear();
    let bundle = PortableProfileBundle {
        format_version: 1,
        profile,
        setups: bundle().setups,
        intents: vec![intent("net", 1), intent("audio", 3), power],
    };
    let sealed = encode_profile_bundle(&bundle).expect("valid profile bundle");
    let parsed = parse_artifact(&sealed, "profile").expect("own artifact parses");
    let read = parsed.profile.expect("profile record");
    assert_eq!(read.machine_class, "edge");
    assert_eq!((read.id.as_str(), read.revision, read.name.as_str()), ("home", 4, "Home"));
    assert_eq!(read.intents, vec![("power".to_string(), 1)]);
    assert_eq!(read.setups, vec![("desk".to_string(), 2)]);
    assert_eq!(read.constraints, vec![(0, "quiet".to_string())]);
    assert_eq!(read.hardware_hints, vec![(0, "gpu".to_string())]);
}

#[test]
fn malformed_secret_reference_is_not_written() {
    let mut malformed = bundle();
    malformed.setups[0].required_secret_refs = vec!["hunter2".to_string()];
    assert!(matches!(encode_setup_bundle(&malformed), Err(LibraryError::PortableFormat(_))));
}

#[test]
fn two_revisions_of_one_intent_are_not_written() {
    let mut conflicting = bundle();
    conflicting.intents.push(intent("net", 2));
    conflicting.setups[0].intent_revisions.push(("net".to_string(), 2));
    assert!(matches!(encode_setup_bundle(&conflicting), Err(LibraryError::PortableFormat(_))));
    let mut nested = bundle();
    nested.intents.push(intent("net", 2));
    nested.setups[1].intent_revisions.push(("net".to_string(), 2));
    assert!(matches!(encode_setup_bundle(&nested), Err(LibraryError::PortableFormat(_))));
}
