//! Transport-neutral protocol vocabulary: the protocol version and the
//! names under which plan previews and reviews report their status,
//! findings and decisions.
use vstd::prelude::*;

verus! {

pub const PROTOCOL_MAJOR: u16 = 1;

/// The protocol major version and the product version that speaks it.
#[derive(Clone, Debug, PartialEq, Eq)]
pub struct ProtocolVersion {
    pub major: u16,
    pub product_version: &'static str,
}

impl Default for ProtocolVersion {
    fn default() -> (r: Self)
        ensures
            r.major == PROTOCOL_MAJOR,
            r.product_version@ == "0.1.0"@,
    {
        ProtocolVersion { major: PROTOCOL_MAJOR, product_version: "0.1.0" }
    }
}

/// Whether a plan preview proposes a change.
#[derive(Clone, Copy, Debug, PartialEq, Eq, Structural)]
pub enum PlanPreviewStatus {
    NoChange,
    ChangeProposed,
    Blocked,
}

impl PlanPreviewStatus {
    pub open spec fn spec_name(self) -> Seq<char> {
        match self {
            PlanPreviewStatus::NoChange => "no-change"@,
            PlanPreviewStatus::ChangeProposed => "change-proposed"@,
            PlanPreviewStatus::Blocked => "blocked"@,
        }
    }

    pub fn as_str(self) -> (r: &'static str)
        ensures
            r@ == self.spec_name(),
    {
        match self {
            PlanPreviewStatus::NoChange => "no-change",
            PlanPreviewStatus::ChangeProposed => "change-proposed",
            PlanPreviewStatus::Blocked => "blocked",
        }
    }
}

/// How serious a preview finding is.
#[derive(Clone, Copy, Debug, PartialEq, Eq, Structural)]
pub enum PlanPreviewFindingLevel {
    Pass,
    Warning,
    Blocker,
}

impl PlanPreviewFindingLevel {
    pub open spec fn spec_name(self) -> Seq<char> {
        match self {
            PlanPreviewFindingLevel::Pass => "pass"@,
            PlanPreviewFindingLevel::Warning => "warning"@,
            PlanPreviewFindingLevel::Blocker => "blocker"@,
        }
    }

    pub fn as_str(self) -> (r: &'static str)
        ensures
            r@ == self.spec_name(),
    {
        match self {
            PlanPreviewFindingLevel::Pass => "pass",
            PlanPreviewFindingLevel::Warning => "warning",
            PlanPreviewFindingLevel::Blocker => "blocker",
        }
    }
}

/// One key that a preview would change.
#[derive(Clone, Debug, PartialEq, Eq)]
pub struct PlanPreviewChange {
    pub key: String,
    pub current: Option<String>,
    pub desired: String,
}

/// One finding of a preview.
#[derive(Clone, Debug, PartialEq, Eq)]
pub struct PlanPreviewFinding {
    pub code: String,
    pub level: PlanPreviewFindingLevel,
    pub message: String,
}

/// Who must approve a reviewed plan.
#[derive(Clone, Copy, Debug, PartialEq, Eq, Structural)]
pub enum PlanReviewApprovalClass {
    InteractiveUser,
    Administrator,
    DestructiveAction,
}

impl PlanReviewApprovalClass {
    pub open spec fn spec_name(self) -> Seq<char> {
        match self {
            PlanReviewApprovalClass::InteractiveUser => "interactive-user"@,
            PlanReviewApprovalClass::Administrator => "administrator"@,
            PlanReviewApprovalClass::DestructiveAction => "destructive-action"@,
        }
    }

    pub fn as_str(self) -> (r: &'static str)
        ensures
            r@ == self.spec_name(),
    {
        match self {
            PlanReviewApprovalClass::InteractiveUser => "interactive-user",
            PlanReviewApprovalClass::Administrator => "administrator",
            PlanReviewApprovalClass::DestructiveAction => "destructive-action",
        }
    }
}

/// The verdict of a plan review.
#[derive(Clone, Copy, Debug, PartialEq, Eq, Structural)]
pub enum PlanReviewDecision {
    Allow,
    Deny,
    RequireApproval,
    Blocked,
}

impl PlanReviewDecision {
    pub open spec fn spec_name(self) -> Seq<char> {
        match self {
            PlanReviewDecision::Allow => "allow"@,
            PlanReviewDecision::Deny => "deny"@,
            PlanReviewDecision::RequireApproval => "require-approval"@,
            PlanReviewDecision::Blocked => "blocked"@,
        }
    }

    pub fn as_str(self) -> (r: &'static str)
        ensures
            r@ == self.spec_name(),
    {
        match self {
            PlanReviewDecision::Allow => "allow",
            PlanReviewDecision::Deny => "deny",
            PlanReviewDecision::RequireApproval => "require-approval",
            PlanReviewDecision::Blocked => "blocked",
        }
    }
}

/// Distinct statuses, levels, approval classes and decisions have distinct
/// names, so a name identifies what it reports.
pub proof fn law_protocol_names_distinct(
    s1: PlanPreviewStatus,
    s2: PlanPreviewStatus,
    l1: PlanPreviewFindingLevel,
    l2: PlanPreviewFindingLevel,
    a1: PlanReviewApprovalClass,
    a2: PlanReviewApprovalClass,
    d1: PlanReviewDecision,
    d2: PlanReviewDecision,
)
    ensures
        s1.spec_name() == s2.spec_name() ==> s1 == s2,
        l1.spec_name() == l2.spec_name() ==> l1 == l2,
        a1.spec_name() == a2.spec_name() ==> a1 == a2,
        d1.spec_name() == d2.spec_name() ==> d1 == d2,
{
    reveal_strlit("no-change");
    reveal_strlit("change-proposed");
    reveal_strlit("blocked");
    reveal_strlit("pass");
    reveal_strlit("warning");
    reveal_strlit("blocker");
    reveal_strlit("interactive-user");
    reveal_strlit("administrator");
    reveal_strlit("destructive-action");
    reveal_strlit("allow");
    reveal_strlit("deny");
    reveal_strlit("require-approval");
    if s1.spec_name() == s2.spec_name() && s1 != s2 {
        assert(s1.spec_name().len() != s2.spec_name().len() || s1.spec_name()[0] != s2.spec_name()[0]);
    }
    if l1.spec_name() == l2.spec_name() && l1 != l2 {
        assert(l1.spec_name().len() != l2.spec_name().len() || l1.spec_name()[0] != l2.spec_name()[0]);
    }
    if a1.spec_name() == a2.spec_name() && a1 != a2 {
        assert(a1.spec_name().len() != a2.spec_name().len() || a1.spec_name()[0] != a2.spec_name()[0]);
    }
    if d1.spec_name() == d2.spec_name() && d1 != d2 {
        assert(d1.spec_name().len() != d2.spec_name().len() || d1.spec_name()[0] != d2.spec_name()[0]);
    }
}

} // verus!
