use linura::library::composition::{validate_profile_bundle, validate_setup_bundle, SetupComposition};
use linura::library::error::LibraryError;

fn setup(id: &str, revision: u32, intents: &[(&str, u64)], includes: &[(&str, u32)]) -> SetupComposition {
    SetupComposition {
        id: id.to_string(),
        revision,
        intent_revisions: intents.iter().map(|(i, r)| (i.to_string(), *r)).collect(),
        included_revisions: includes.iter().map(|(i, r)| (i.to_string(), *r)).collect(),
    }
}

fn intents(keys: &[(&str, u64)]) -> Vec<(String, u64)> {
    keys.iter().map(|(i, r)| (i.to_string(), *r)).collect()
}

fn root(id: &str, revision: u32) -> (String, u32) {
    (id.to_string(), revision)
}

fn is_format_error(result: &Result<(), LibraryError>) -> bool {
    matches!(result, Err(LibraryError::PortableFormat(_)))
}

#[test]
fn a_setup_bundle_holding_exactly_its_root_closure_is_accepted() {
    let setups = vec![
        setup("desk", 2, &[("net", 1)], &[("base", 1)]),
        setup("base", 1, &[("audio", 3)], &[]),
    ];
    assert_eq!(validate_setup_bundle(1, &root("desk", 2), &setups, &intents(&[("net", 1), ("audio", 3)])), Ok(()));
}

#[test]
fn nested_setup_inclusion_cycles_are_refused() {
    let two_cycle = vec![setup("a", 1, &[], &[("b", 1)]), setup("b", 1, &[], &[("a", 1)])];
    assert!(is_format_error(&validate_setup_bundle(1, &root("a", 1), &two_cycle, &intents(&[]))));
    let self_cycle = vec![setup("a", 1, &[], &[("a", 1)])];
    assert!(is_format_error(&validate_setup_bundle(1, &root("a", 1), &self_cycle, &intents(&[]))));
    let deep_cycle = vec![
        setup("a", 1, &[], &[("b", 1)]),
        setup("b", 1, &[], &[("c", 1)]),
        setup("c", 1, &[], &[("b", 1)]),
    ];
    assert!(is_format_error(&validate_setup_bundle(1, &root("a", 1), &deep_cycle, &intents(&[]))));
    let diamond = vec![
        setup("a", 1, &[], &[("b", 1), ("c", 1)]),
        setup("b", 1, &[], &[("d", 1)]),
        setup("c", 1, &[], &[("d", 1)]),
        setup("d", 1, &[], &[]),
    ];
    assert_eq!(validate_setup_bundle(1, &root("a", 1), &diamond, &intents(&[])), Ok(()));
}

#[test]
fn bundles_with_missing_or_unrelated_revisions_are_refused() {
    let unrelated_setup = vec![setup("a", 1, &[], &[]), setup("b", 1, &[], &[])];
    assert!(is_format_error(&validate_setup_bundle(1, &root("a", 1), &unrelated_setup, &intents(&[]))));
    let missing_include = vec![setup("a", 1, &[], &[("b", 2)])];
    assert!(is_format_error(&validate_setup_bundle(1, &root("a", 1), &missing_include, &intents(&[]))));
    let missing_intent = vec![setup("a", 1, &[("i", 1)], &[])];
    assert!(is_format_error(&validate_setup_bundle(1, &root("a", 1), &missing_intent, &intents(&[("i", 2)]))));
    let unrelated_intent = vec![setup("a", 1, &[("i", 1)], &[])];
    assert!(is_format_error(&validate_setup_bundle(
        1,
        &root("a", 1),
        &unrelated_intent,
        &intents(&[("i", 1), ("j", 1)])
    )));
    let duplicate_setup = vec![setup("a", 1, &[], &[]), setup("a", 1, &[], &[])];
    assert!(is_format_error(&validate_setup_bundle(1, &root("a", 1), &duplicate_setup, &intents(&[]))));
    let duplicate_intent = vec![setup("a", 1, &[("i", 1)], &[])];
    assert!(is_format_error(&validate_setup_bundle(1, &root("a", 1), &duplicate_intent, &intents(&[("i", 1), ("i", 1)]))));
    let absent_root = vec![setup("a", 1, &[], &[])];
    assert!(is_format_error(&validate_setup_bundle(1, &root("a", 2), &absent_root, &intents(&[]))));
}

#[test]
fn bundle_format_versions_other_than_the_current_one_are_refused() {
    let setups = vec![setup("a", 1, &[], &[])];
    assert_eq!(
        validate_setup_bundle(2, &root("a", 1), &setups, &intents(&[])),
        Err(LibraryError::UnsupportedPortableFormat { found: 2, supported: 1 })
    );
    assert!(is_format_error(&validate_setup_bundle(0, &root("a", 1), &setups, &intents(&[]))));
}

#[test]
fn profile_bundles_hold_exactly_the_profile_closure() {
    let setups = vec![
        setup("desk", 2, &[("net", 1)], &[("base", 1)]),
        setup("base", 1, &[], &[]),
        setup("media", 1, &[("audio", 1)], &[]),
    ];
    let profile_setups = vec![root("desk", 2), root("media", 1)];
    let profile_intents = intents(&[("power", 4)]);
    let all_intents = intents(&[("net", 1), ("audio", 1), ("power", 4)]);
    assert_eq!(validate_profile_bundle(1, 3, &profile_intents, &profile_setups, &setups, &all_intents), Ok(()));
    assert!(is_format_error(&validate_profile_bundle(1, 0, &profile_intents, &profile_setups, &setups, &all_intents)));
    let only_desk = vec![root("desk", 2)];
    assert!(is_format_error(&validate_profile_bundle(1, 3, &profile_intents, &only_desk, &setups, &all_intents)));
    let missing_intent = intents(&[("power", 5)]);
    assert!(is_format_error(&validate_profile_bundle(1, 3, &missing_intent, &profile_setups, &setups, &all_intents)));
    let missing_setup = vec![root("desk", 2), root("media", 1), root("ghost", 1)];
    assert!(is_format_error(&validate_profile_bundle(1, 3, &profile_intents, &missing_setup, &setups, &all_intents)));
    assert_eq!(
        validate_profile_bundle(3, 3, &profile_intents, &profile_setups, &setups, &all_intents),
        Err(LibraryError::UnsupportedPortableFormat { found: 3, supported: 1 })
    );
}
