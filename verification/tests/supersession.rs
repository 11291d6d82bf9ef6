use linura::library::error::LibraryError;
use linura::library::names::{ActorKind, RequirementKind};
use linura::library::operations::{plan_supersede, require_provenance};
use linura::library::portable_writer::{PortableIntent, PortableRequirement};
use linura::library::records::IntentStatus;

fn intent(id: &str, revision: u64, status: IntentStatus, supersedes: &[&str]) -> PortableIntent {
    PortableIntent {
        id: id.to_string(),
        revision,
        actor_id: "alice".to_string(),
        actor_kind: ActorKind::Human,
        actor_interactive: true,
        status,
        statement: format!("keep {id}"),
        requirements: vec![PortableRequirement {
            id: "r1".to_string(),
            kind: RequirementKind::Goal,
            statement: "first".to_string(),
        }],
        supersedes: supersedes.iter().map(|s| s.to_string()).collect(),
    }
}

fn predecessor() -> PortableIntent {
    intent("intent:predecessor", 1, IntentStatus::Active, &[])
}

fn successor() -> PortableIntent {
    intent("intent:successor", 7, IntentStatus::Active, &["intent:predecessor"])
}

#[test]
fn supersession_marks_the_old_revision_and_starts_the_successor() {
    let writes = plan_supersede("intent:predecessor", 1, successor(), false, Some(predecessor()))
        .expect("supersession is planned");
    assert_eq!(writes.from_status, IntentStatus::Active);
    assert_eq!(writes.old_next.status, IntentStatus::Superseded);
    assert_eq!(writes.old_next.revision, 2);
    assert_eq!(writes.old_next.id, "intent:predecessor");
    assert_eq!(writes.old_next.statement, "keep intent:predecessor");
    assert_eq!(writes.successor.revision, 1);
    assert_eq!(writes.successor.id, "intent:successor");
    assert_eq!(writes.successor.supersedes, vec!["intent:predecessor".to_string()]);
}

#[test]
fn supersession_refuses_each_fault_in_order() {
    let unlinked = intent("intent:successor", 1, IntentStatus::Active, &[]);
    assert!(matches!(
        plan_supersede("intent:predecessor", 1, unlinked, false, Some(predecessor())),
        Err(LibraryError::Validation(_))
    ));
    let mut retired = successor();
    retired.status = IntentStatus::Retired;
    assert!(matches!(
        plan_supersede("intent:predecessor", 1, retired, false, Some(predecessor())),
        Err(LibraryError::Validation(_))
    ));
    assert_eq!(
        plan_supersede("intent:predecessor", 1, successor(), true, Some(predecessor())).map(|_| ()),
        Err(LibraryError::AlreadyExists { kind: "successor intent", id: "intent:successor".to_string() })
    );
    assert_eq!(
        plan_supersede("intent:predecessor", 1, successor(), false, None).map(|_| ()),
        Err(LibraryError::NotFound { kind: "intent", id: "intent:predecessor".to_string() })
    );
    assert_eq!(
        plan_supersede("intent:predecessor", 3, successor(), false, Some(predecessor())).map(|_| ()),
        Err(LibraryError::RevisionConflict { expected: 3, actual: 1 })
    );
    let gone = intent("intent:predecessor", 1, IntentStatus::Superseded, &[]);
    assert_eq!(
        plan_supersede("intent:predecessor", 1, successor(), false, Some(gone)).map(|_| ()),
        Err(LibraryError::InvalidTransition { from: "superseded".to_string(), operation: "supersede".to_string() })
    );
}

#[test]
fn desired_state_must_keep_its_owning_intent() {
    let kept = vec![vec!["intent:a".to_string()], vec!["intent:b".to_string(), "intent:a".to_string()]];
    assert_eq!(require_provenance("intent:a", &kept), Ok(()));
    let lost = vec![vec!["intent:a".to_string()], vec!["intent:b".to_string()]];
    assert!(matches!(require_provenance("intent:a", &lost), Err(LibraryError::Validation(_))));
    assert_eq!(require_provenance("intent:a", &Vec::new()), Ok(()));
}
