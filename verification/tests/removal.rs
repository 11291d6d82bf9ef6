use linura::library::removal::{classify_removal_impact, ResourceIdentity};

fn identity(name: &str) -> ResourceIdentity {
    ResourceIdentity {
        provider: "provider:systemd".to_string(),
        resource: name.to_string(),
        capability: "capability:unit".to_string(),
    }
}

fn names(v: &[ResourceIdentity]) -> Vec<&str> {
    v.iter().map(|i| i.resource.as_str()).collect()
}

fn demand() -> Vec<(ResourceIdentity, u64)> {
    vec![(identity("a"), 0), (identity("b"), 2), (identity("c"), 0)]
}

#[test]
fn complete_knowledge_separates_removable_from_shared() {
    let report = classify_removal_impact(3, true, true, demand());
    assert_eq!(names(&report.removable), vec!["a", "c"]);
    assert_eq!(names(&report.retained_shared), vec!["b"]);
    assert!(report.indeterminate.is_empty());
}

#[test]
fn incomplete_knowledge_makes_every_resource_indeterminate() {
    for (intent, global) in [(false, true), (true, false)] {
        let report = classify_removal_impact(3, intent, global, demand());
        assert_eq!(names(&report.indeterminate), vec!["a", "b", "c"]);
        assert!(report.removable.is_empty() && report.retained_shared.is_empty());
    }
}

#[test]
fn intent_without_causal_generation_affects_nothing() {
    let report = classify_removal_impact(0, false, false, demand());
    assert!(report.removable.is_empty() && report.retained_shared.is_empty() && report.indeterminate.is_empty());
}
