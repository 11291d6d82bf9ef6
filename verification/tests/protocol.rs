use linura::protocol::{
    PlanPreviewFindingLevel, PlanPreviewStatus, PlanReviewApprovalClass, PlanReviewDecision, ProtocolVersion,
    PROTOCOL_MAJOR,
};

#[test]
fn preview_contract_names_are_explicitly_non_executable() {
    assert_eq!(PlanPreviewStatus::NoChange.as_str(), "no-change");
    assert_eq!(PlanPreviewStatus::ChangeProposed.as_str(), "change-proposed");
    assert_eq!(PlanPreviewStatus::Blocked.as_str(), "blocked");
    assert_eq!(PlanPreviewFindingLevel::Blocker.as_str(), "blocker");
    assert_eq!(PlanReviewDecision::RequireApproval.as_str(), "require-approval");
    assert_eq!(PlanReviewApprovalClass::Administrator.as_str(), "administrator");
}

#[test]
fn every_protocol_name_is_distinct_within_its_vocabulary() {
    let statuses = [PlanPreviewStatus::NoChange, PlanPreviewStatus::ChangeProposed, PlanPreviewStatus::Blocked];
    let decisions = [
        PlanReviewDecision::Allow,
        PlanReviewDecision::Deny,
        PlanReviewDecision::RequireApproval,
        PlanReviewDecision::Blocked,
    ];
    for (i, a) in statuses.iter().enumerate() {
        for (j, b) in statuses.iter().enumerate() {
            assert_eq!(i == j, a.as_str() == b.as_str());
        }
    }
    for (i, a) in decisions.iter().enumerate() {
        for (j, b) in decisions.iter().enumerate() {
            assert_eq!(i == j, a.as_str() == b.as_str());
        }
    }
    assert_eq!(PlanPreviewFindingLevel::Pass.as_str(), "pass");
    assert_eq!(PlanPreviewFindingLevel::Warning.as_str(), "warning");
    assert_eq!(PlanReviewApprovalClass::InteractiveUser.as_str(), "interactive-user");
    assert_eq!(PlanReviewApprovalClass::DestructiveAction.as_str(), "destructive-action");
}

#[test]
fn protocol_version_defaults_to_the_current_major() {
    let version = ProtocolVersion::default();
    assert_eq!(version.major, PROTOCOL_MAJOR);
    assert_eq!(version.product_version, "0.1.0");
}
