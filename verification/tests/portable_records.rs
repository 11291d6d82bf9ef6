use linura::library::error::LibraryError;
use linura::library::portable::{finish_artifact, hex_text};
use linura::library::portable_records::{parse_artifact, parse_record, parse_records, ParsedArtifact};

fn seal(kind: &str, records: &[String]) -> Vec<u8> {
    let mut body = format!("LINURA-LIBRARY\t1\t{kind}\n");
    for record in records {
        body.push_str(record);
        body.push('\n');
    }
    finish_artifact(body).expect("artifact fits the size bound")
}

fn h(value: &str) -> String {
    hex_text(value)
}

fn is_format_error<T>(result: &Result<T, LibraryError>) -> bool {
    matches!(result, Err(LibraryError::PortableFormat(_)))
}

fn empty_parsed() -> ParsedArtifact {
    ParsedArtifact { version: 1, root: None, profile: None, intents: Vec::new(), setups: Vec::new() }
}

#[test]
fn setup_artifact_records_gather_by_identity_and_revision() {
    let records = vec![
        format!("root-setup\t{}\t2", h("desk")),
        format!("setup\t{}\t2\t{}\t{}", h("desk"), h("Desk"), h("the desk")),
        format!("setup-intent\t{}\t2\t{}\t5", h("desk"), h("net")),
        format!("setup-include\t{}\t2\t{}\t1", h("desk"), h("base")),
        format!("setup-constraint\t{}\t2\t1\t{}", h("desk"), h("second")),
        format!("setup-constraint\t{}\t2\t0\t{}", h("desk"), h("first")),
        format!("setup-secret-ref\t{}\t2\t0\t{}", h("desk"), h("vault:key")),
        format!("setup\t{}\t1\t{}\t{}", h("base"), h("Base"), h("")),
        format!("intent\t{}\t5\t{}\thuman\t1\tactive\t{}", h("net"), h("alice"), h("keep online")),
        format!("requirement\t{}\t5\t{}\tnetwork\t{}", h("net"), h("r1"), h("link up")),
        format!("supersedes\t{}\t5\t{}", h("net"), h("old-net")),
    ];
    let parsed = parse_artifact(&seal("setup", &records), "setup").expect("well-formed artifact");
    assert_eq!(parsed.version, 1);
    assert_eq!(parsed.root, Some(("desk".to_string(), 2)));
    assert!(parsed.profile.is_none());
    assert_eq!(parsed.setups.len(), 2);
    let desk = &parsed.setups[0];
    assert_eq!((desk.id.as_str(), desk.revision), ("desk", 2));
    assert_eq!(desk.base, Some(("Desk".to_string(), "the desk".to_string())));
    assert_eq!(desk.intents, vec![("net".to_string(), 5)]);
    assert_eq!(desk.includes, vec![("base".to_string(), 1)]);
    assert_eq!(desk.constraints, vec![(0, "first".to_string()), (1, "second".to_string())]);
    assert_eq!(desk.secret_refs, vec![(0, "vault:key".to_string())]);
    assert!(desk.hardware_hints.is_empty());
    assert_eq!(parsed.setups[1].base, Some(("Base".to_string(), String::new())));
    assert_eq!(parsed.intents.len(), 1);
    let net = &parsed.intents[0];
    assert_eq!((net.id.as_str(), net.revision), ("net", 5));
    let base = net.base.as_ref().expect("intent base");
    assert_eq!(base.actor_id, "alice");
    assert_eq!(base.actor_kind, "human");
    assert!(base.actor_interactive);
    assert_eq!(base.status, "active");
    assert_eq!(base.statement, "keep online");
    assert_eq!(net.requirements, vec![("r1".to_string(), "network".to_string(), "link up".to_string())]);
    assert_eq!(net.supersedes, vec!["old-net".to_string()]);
}

#[test]
fn profile_artifact_records_belong_to_the_profile_read_first() {
    let records = vec![
        format!("profile\t{}\t3\t{}\tlaptop", h("home"), h("Home")),
        format!("profile-intent\t{}\t3\t{}\t7", h("home"), h("net")),
        format!("profile-setup\t{}\t3\t{}\t2", h("home"), h("desk")),
        format!("profile-constraint\t{}\t3\t0\t{}", h("home"), h("quiet")),
        format!("profile-hardware\t{}\t3\t0\t{}", h("home"), h("gpu")),
    ];
    let parsed = parse_artifact(&seal("profile", &records), "profile").expect("well-formed artifact");
    let profile = parsed.profile.expect("profile base");
    assert_eq!((profile.id.as_str(), profile.revision), ("home", 3));
    assert_eq!(profile.name, "Home");
    assert_eq!(profile.machine_class, "laptop");
    assert_eq!(profile.intents, vec![("net".to_string(), 7)]);
    assert_eq!(profile.setups, vec![("desk".to_string(), 2)]);
    assert_eq!(profile.constraints, vec![(0, "quiet".to_string())]);
    assert_eq!(profile.hardware_hints, vec![(0, "gpu".to_string())]);
}

#[test]
fn duplicate_one_off_records_and_ordinals_are_refused() {
    let duplicate_base = vec![
        format!("setup\t{}\t1\t{}\t{}", h("s"), h("a"), h("b")),
        format!("setup\t{}\t1\t{}\t{}", h("s"), h("a"), h("b")),
    ];
    assert!(is_format_error(&parse_records(&duplicate_base)));
    let duplicate_intent = vec![
        format!("intent\t{}\t1\t{}\thuman\t0\tactive\t{}", h("i"), h("a"), h("x")),
        format!("intent\t{}\t1\t{}\thuman\t0\tactive\t{}", h("i"), h("a"), h("x")),
    ];
    assert!(is_format_error(&parse_records(&duplicate_intent)));
    let duplicate_ordinal = vec![
        format!("setup-hardware\t{}\t1\t0\t{}", h("s"), h("a")),
        format!("setup-hardware\t{}\t1\t0\t{}", h("s"), h("b")),
    ];
    assert!(is_format_error(&parse_records(&duplicate_ordinal)));
    let duplicate_root = vec![format!("root-setup\t{}\t1", h("s")), format!("root-setup\t{}\t1", h("s"))];
    assert!(is_format_error(&parse_records(&duplicate_root)));
    let duplicate_profile = vec![
        format!("profile\t{}\t1\t{}\tdesktop", h("p"), h("P")),
        format!("profile\t{}\t1\t{}\tdesktop", h("p"), h("P")),
    ];
    assert!(is_format_error(&parse_records(&duplicate_profile)));
    let same_ordinal_other_kind = vec![
        format!("setup-constraint\t{}\t1\t0\t{}", h("s"), h("a")),
        format!("setup-hardware\t{}\t1\t0\t{}", h("s"), h("b")),
    ];
    assert!(parse_records(&same_ordinal_other_kind).is_ok());
}

#[test]
fn malformed_records_are_refused_and_leave_the_artifact_unchanged() {
    let mut parsed = empty_parsed();
    assert!(is_format_error(&parse_record(&mut parsed, "unknown\tx")));
    assert!(is_format_error(&parse_record(&mut parsed, &format!("setup\t{}\t1\t{}", h("s"), h("a")))));
    assert!(is_format_error(&parse_record(&mut parsed, &format!("setup\t{}\t0\t{}\t{}", h("s"), h("a"), h("b")))));
    assert!(is_format_error(&parse_record(&mut parsed, &format!("setup\tzz\t1\t{}\t{}", h("a"), h("b")))));
    assert!(is_format_error(&parse_record(
        &mut parsed,
        &format!("intent\t{}\t1\t{}\thuman\tyes\tactive\t{}", h("i"), h("a"), h("x"))
    )));
    assert!(is_format_error(&parse_record(&mut parsed, &format!("profile-intent\t{}\t1\t{}\t1", h("p"), h("i")))));
    assert!(parsed.intents.is_empty() && parsed.setups.is_empty() && parsed.root.is_none() && parsed.profile.is_none());

    assert!(parse_record(&mut parsed, &format!("profile\t{}\t1\t{}\tdesktop", h("p"), h("P"))).is_ok());
    assert!(is_format_error(&parse_record(&mut parsed, &format!("profile-setup\t{}\t2\t{}\t1", h("p"), h("s")))));
    assert!(is_format_error(&parse_record(&mut parsed, &format!("profile-setup\t{}\t1\t{}\t1", h("q"), h("s")))));
    assert!(parse_record(&mut parsed, &format!("profile-setup\t{}\t1\t{}\t1", h("p"), h("s"))).is_ok());
    assert_eq!(parsed.profile.as_ref().map(|p| p.setups.len()), Some(1));
}

#[test]
fn artifacts_of_another_kind_or_with_bad_records_fail_closed() {
    let records = vec![format!("root-setup\t{}\t1", h("s"))];
    let sealed = seal("setup", &records);
    assert!(parse_artifact(&sealed, "setup").is_ok());
    assert!(is_format_error(&parse_artifact(&sealed, "profile")));
    let bad = seal("setup", &[String::from("root-setup\tnot-hex\t1")]);
    assert!(is_format_error(&parse_artifact(&bad, "setup")));
    let mut tampered = sealed.clone();
    tampered[30] ^= 1;
    assert!(parse_artifact(&tampered, "setup").is_err());
}
