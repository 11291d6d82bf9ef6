use linura::library::drafts::{
    intent_operation_digest, profile_operation_digest, setup_operation_digest, validate_new_intent, validate_profile,
    ProfileDraft, SetupDraft,
};
use linura::library::error::LibraryError;
use linura::library::names::{ActorKind, MachineClass, RequirementKind};
use linura::library::portable_writer::{PortableIntent, PortableRequirement};
use linura::library::records::IntentStatus;

fn intent() -> PortableIntent {
    PortableIntent {
        id: "net".to_string(),
        revision: 1,
        actor_id: "alice".to_string(),
        actor_kind: ActorKind::Human,
        actor_interactive: true,
        status: IntentStatus::Active,
        statement: "keep net".to_string(),
        requirements: vec![
            PortableRequirement { id: "r2".to_string(), kind: RequirementKind::Goal, statement: "second".to_string() },
            PortableRequirement { id: "r1".to_string(), kind: RequirementKind::Prohibition, statement: "first".to_string() },
        ],
        supersedes: vec!["zeta".to_string(), "alpha".to_string()],
    }
}

fn profile() -> ProfileDraft {
    ProfileDraft {
        id: "home".to_string(),
        name: "Home".to_string(),
        machine_class: MachineClass::Edge,
        intent_ids: vec!["b".to_string(), "a".to_string()],
        setup_ids: vec!["s".to_string()],
        portable_constraints: vec!["quiet".to_string()],
        hardware_hints: vec!["gpu".to_string()],
    }
}

fn setup() -> SetupDraft {
    SetupDraft {
        id: "desk".to_string(),
        revision: 2,
        name: "Desk".to_string(),
        description: "the desk".to_string(),
        intent_ids: vec!["b".to_string(), "a".to_string()],
        included_setup_ids: vec!["base".to_string()],
        portable_constraints: vec!["quiet".to_string()],
        required_secret_refs: vec!["vault:wifi".to_string()],
        hardware_hints: Vec::new(),
    }
}

fn is_validation(result: Result<(), LibraryError>) -> bool {
    matches!(result, Err(LibraryError::Validation(_)))
}

#[test]
fn new_intent_checks_accept_a_sound_intent() {
    assert_eq!(validate_new_intent(&intent()), Ok(()));
    let mut proposed = intent();
    proposed.status = IntentStatus::Proposed;
    assert_eq!(validate_new_intent(&proposed), Ok(()));
}

#[test]
fn new_intent_checks_refuse_each_fault() {
    let mut suspended = intent();
    suspended.status = IntentStatus::Suspended;
    assert!(is_validation(validate_new_intent(&suspended)));
    let mut blank = intent();
    blank.statement = "   ".to_string();
    assert!(is_validation(validate_new_intent(&blank)));
    let mut twice = intent();
    twice.requirements[1].id = "r2".to_string();
    assert!(is_validation(validate_new_intent(&twice)));
    let mut control = intent();
    control.requirements[0].statement = "bad\u{7}".to_string();
    assert!(is_validation(validate_new_intent(&control)));
    let mut itself = intent();
    itself.supersedes.push("net".to_string());
    assert!(is_validation(validate_new_intent(&itself)));
    let mut repeated = intent();
    repeated.supersedes.push("alpha".to_string());
    assert!(is_validation(validate_new_intent(&repeated)));
}

#[test]
fn profile_checks_need_a_positive_revision_and_a_name() {
    assert_eq!(validate_profile(&profile(), 1), Ok(()));
    assert!(is_validation(validate_profile(&profile(), 0)));
    let mut unnamed = profile();
    unnamed.name = String::new();
    assert!(is_validation(validate_profile(&unnamed, 1)));
    let mut long = profile();
    long.name = "n".repeat(4097);
    assert!(is_validation(validate_profile(&long, 1)));
}

#[test]
fn intent_digest_orders_requirements_and_predecessors() {
    let digest = intent_operation_digest("create-intent", &intent(), &[]);
    assert_eq!(digest, "04c0ccc3e3b21cd865a91169377aa00f3d95cb50da861f3327fa1e326bfb92f6");
    let mut reordered = intent();
    reordered.requirements.reverse();
    reordered.supersedes.reverse();
    assert_eq!(intent_operation_digest("create-intent", &reordered, &[]), digest);
    assert_ne!(intent_operation_digest("create-intent", &intent(), &["x"]), digest);
    assert_ne!(intent_operation_digest("update-intent", &intent(), &[]), digest);
}

#[test]
fn setup_digest_covers_its_fields() {
    let digest = setup_operation_digest(&setup(), None);
    assert_eq!(digest, "991cadc9dcead0194f9fa249b3cbe97b28ef160e1eb204c9f979afffe15aeeef");
    assert_ne!(setup_operation_digest(&setup(), Some(1)), digest);
    let mut reordered = setup();
    reordered.intent_ids.reverse();
    assert_eq!(setup_operation_digest(&reordered, None), digest);
}

#[test]
fn profile_digest_covers_its_fields() {
    let digest = profile_operation_digest(&profile(), 4, Some(3));
    assert_eq!(digest, "2cc113b06e3c4b5743d239759b37e5f51614b9081c3198bded23964516b202f6");
    assert_ne!(profile_operation_digest(&profile(), 5, Some(3)), digest);
    assert_ne!(profile_operation_digest(&profile(), 4, None), digest);
}
