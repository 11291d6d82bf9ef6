use linura::library::adoption::{machine_class_mismatch, missing_secret_refs};
use linura::library::error::LibraryError;
use linura::library::names::MachineClass;
use linura::library::portable_writer::PortableSetup;

fn setup(id: &str, secrets: &[&str]) -> PortableSetup {
    PortableSetup {
        id: id.to_string(),
        revision: 1,
        name: id.to_string(),
        description: "fixture".to_string(),
        intent_revisions: Vec::new(),
        included_revisions: Vec::new(),
        portable_constraints: Vec::new(),
        required_secret_refs: secrets.iter().map(|s| s.to_string()).collect(),
        hardware_hints: Vec::new(),
    }
}

#[test]
fn dry_run_reports_missing_secrets_once() {
    let setups = vec![
        setup("a", &["credential:github", "vault:wifi"]),
        setup("b", &["credential:github", "vault:vpn"]),
    ];
    let available = vec!["vault:wifi".to_string()];
    assert_eq!(
        missing_secret_refs(&setups, &available),
        Ok(vec!["credential:github".to_string(), "vault:vpn".to_string()])
    );
    assert_eq!(missing_secret_refs(&setups, &vec![
        "credential:github".to_string(),
        "vault:wifi".to_string(),
        "vault:vpn".to_string(),
    ]), Ok(Vec::new()));
}

#[test]
fn malformed_secret_references_are_refused_in_adoption() {
    assert!(matches!(
        missing_secret_refs(&vec![setup("a", &["hunter2"])], &Vec::new()),
        Err(LibraryError::Validation(_))
    ));
    assert!(matches!(
        missing_secret_refs(&vec![setup("a", &["vault:wifi"])], &vec!["bad ref".to_string()]),
        Err(LibraryError::Validation(_))
    ));
}

#[test]
fn machine_class_mismatch_needs_a_known_target() {
    assert!(machine_class_mismatch(Some(MachineClass::Server), MachineClass::Edge));
    assert!(!machine_class_mismatch(Some(MachineClass::Edge), MachineClass::Edge));
    assert!(!machine_class_mismatch(None, MachineClass::Edge));
}
