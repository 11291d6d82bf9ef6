//! The names under which actor kinds, requirement kinds, machine classes
//! and intent statuses are written, in portable artifacts and in the
//! Library's tables, and their parsers: an unknown name in an artifact is
//! a format error, in a table corruption.
use vstd::prelude::*;
use crate::library::error::LibraryError;
use crate::library::records::{status_named, IntentStatus};
use crate::text::{chars_eq, chars_of};

verus! {

/// Who states an intent.
#[derive(Clone, Copy, Debug, PartialEq, Eq, Structural)]
pub enum ActorKind {
    Human,
    Service,
    Agent,
    Remote,
}

/// What a requirement of an intent asks for.
#[derive(Clone, Copy, Debug, PartialEq, Eq, Structural)]
pub enum RequirementKind {
    Goal,
    Constraint,
    Preference,
    Prohibition,
}

/// The class of machine a profile is for.
#[derive(Clone, Copy, Debug, PartialEq, Eq, Structural)]
pub enum MachineClass {
    Workstation,
    Server,
    Edge,
}

impl ActorKind {
    pub open spec fn spec_name(self) -> Seq<char> {
        match self {
            ActorKind::Human => "human"@,
            ActorKind::Service => "service"@,
            ActorKind::Agent => "agent"@,
            ActorKind::Remote => "remote"@,
        }
    }
}

impl RequirementKind {
    pub open spec fn spec_name(self) -> Seq<char> {
        match self {
            RequirementKind::Goal => "goal"@,
            RequirementKind::Constraint => "constraint"@,
            RequirementKind::Preference => "preference"@,
            RequirementKind::Prohibition => "prohibition"@,
        }
    }
}

impl MachineClass {
    pub open spec fn spec_name(self) -> Seq<char> {
        match self {
            MachineClass::Workstation => "workstation"@,
            MachineClass::Server => "server"@,
            MachineClass::Edge => "edge"@,
        }
    }
}

pub open spec fn actor_kind_named(name: Seq<char>) -> Option<ActorKind> {
    if name == "human"@ {
        Some(ActorKind::Human)
    } else if name == "service"@ {
        Some(ActorKind::Service)
    } else if name == "agent"@ {
        Some(ActorKind::Agent)
    } else if name == "remote"@ {
        Some(ActorKind::Remote)
    } else {
        None
    }
}

pub open spec fn requirement_kind_named(name: Seq<char>) -> Option<RequirementKind> {
    if name == "goal"@ {
        Some(RequirementKind::Goal)
    } else if name == "constraint"@ {
        Some(RequirementKind::Constraint)
    } else if name == "preference"@ {
        Some(RequirementKind::Preference)
    } else if name == "prohibition"@ {
        Some(RequirementKind::Prohibition)
    } else {
        None
    }
}

pub open spec fn machine_class_named(name: Seq<char>) -> Option<MachineClass> {
    if name == "workstation"@ {
        Some(MachineClass::Workstation)
    } else if name == "server"@ {
        Some(MachineClass::Server)
    } else if name == "edge"@ {
        Some(MachineClass::Edge)
    } else {
        None
    }
}

fn str_eq(a: &str, b: &str) -> (r: bool)
    ensures
        r == (a@ == b@),
{
    chars_eq(&chars_of(a), &chars_of(b))
}

/// The written name of an actor kind.
pub fn actor_kind_str(kind: ActorKind) -> (r: &'static str)
    ensures
        r@ == kind.spec_name(),
{
    match kind {
        ActorKind::Human => "human",
        ActorKind::Service => "service",
        ActorKind::Agent => "agent",
        ActorKind::Remote => "remote",
    }
}

/// The written name of a requirement kind.
pub fn requirement_kind_str(kind: RequirementKind) -> (r: &'static str)
    ensures
        r@ == kind.spec_name(),
{
    match kind {
        RequirementKind::Goal => "goal",
        RequirementKind::Constraint => "constraint",
        RequirementKind::Preference => "preference",
        RequirementKind::Prohibition => "prohibition",
    }
}

/// The written name of a machine class.
pub fn machine_class_str(class: MachineClass) -> (r: &'static str)
    ensures
        r@ == class.spec_name(),
{
    match class {
        MachineClass::Workstation => "workstation",
        MachineClass::Server => "server",
        MachineClass::Edge => "edge",
    }
}

fn actor_kind_from(value: &str) -> (r: Option<ActorKind>)
    ensures
        r == actor_kind_named(value@),
{
    if str_eq(value, "human") {
        Some(ActorKind::Human)
    } else if str_eq(value, "service") {
        Some(ActorKind::Service)
    } else if str_eq(value, "agent") {
        Some(ActorKind::Agent)
    } else if str_eq(value, "remote") {
        Some(ActorKind::Remote)
    } else {
        None
    }
}

fn requirement_kind_from(value: &str) -> (r: Option<RequirementKind>)
    ensures
        r == requirement_kind_named(value@),
{
    if str_eq(value, "goal") {
        Some(RequirementKind::Goal)
    } else if str_eq(value, "constraint") {
        Some(RequirementKind::Constraint)
    } else if str_eq(value, "preference") {
        Some(RequirementKind::Preference)
    } else if str_eq(value, "prohibition") {
        Some(RequirementKind::Prohibition)
    } else {
        None
    }
}

fn machine_class_from(value: &str) -> (r: Option<MachineClass>)
    ensures
        r == machine_class_named(value@),
{
    if str_eq(value, "workstation") {
        Some(MachineClass::Workstation)
    } else if str_eq(value, "server") {
        Some(MachineClass::Server)
    } else if str_eq(value, "edge") {
        Some(MachineClass::Edge)
    } else {
        None
    }
}

fn intent_status_from(value: &str) -> (r: Option<IntentStatus>)
    ensures
        r == status_named(value@),
{
    if str_eq(value, "proposed") {
        Some(IntentStatus::Proposed)
    } else if str_eq(value, "active") {
        Some(IntentStatus::Active)
    } else if str_eq(value, "suspended") {
        Some(IntentStatus::Suspended)
    } else if str_eq(value, "superseded") {
        Some(IntentStatus::Superseded)
    } else if str_eq(value, "retired") {
        Some(IntentStatus::Retired)
    } else {
        None
    }
}

/// Reads an actor kind of a portable artifact.
pub fn parse_actor_kind(value: &str) -> (r: Result<ActorKind, LibraryError>)
    ensures
        match actor_kind_named(value@) {
            Some(k) => r == Ok::<ActorKind, LibraryError>(k),
            None => r matches Err(e) && e is PortableFormat,
        },
{
    match actor_kind_from(value) {
        Some(k) => Ok(k),
        None => Err(LibraryError::PortableFormat("unknown actor kind".to_string())),
    }
}

/// Reads a requirement kind of a portable artifact.
pub fn parse_requirement_kind(value: &str) -> (r: Result<RequirementKind, LibraryError>)
    ensures
        match requirement_kind_named(value@) {
            Some(k) => r == Ok::<RequirementKind, LibraryError>(k),
            None => r matches Err(e) && e is PortableFormat,
        },
{
    match requirement_kind_from(value) {
        Some(k) => Ok(k),
        None => Err(LibraryError::PortableFormat("unknown requirement kind".to_string())),
    }
}

/// Reads a machine class of a portable artifact.
pub fn parse_machine_class(value: &str) -> (r: Result<MachineClass, LibraryError>)
    ensures
        match machine_class_named(value@) {
            Some(c) => r == Ok::<MachineClass, LibraryError>(c),
            None => r matches Err(e) && e is PortableFormat,
        },
{
    match machine_class_from(value) {
        Some(c) => Ok(c),
        None => Err(LibraryError::PortableFormat("unknown machine class".to_string())),
    }
}

/// Reads an intent status of a portable artifact.
pub fn parse_portable_intent_status(value: &str) -> (r: Result<IntentStatus, LibraryError>)
    ensures
        match status_named(value@) {
            Some(s) => r == Ok::<IntentStatus, LibraryError>(s),
            None => r matches Err(e) && e is PortableFormat,
        },
{
    match intent_status_from(value) {
        Some(s) => Ok(s),
        None => Err(LibraryError::PortableFormat("unknown intent status".to_string())),
    }
}

/// Reads an actor kind stored in the Library's tables.
pub fn parse_persisted_actor_kind(value: &str) -> (r: Result<ActorKind, LibraryError>)
    ensures
        match actor_kind_named(value@) {
            Some(k) => r == Ok::<ActorKind, LibraryError>(k),
            None => r matches Err(e) && e is Corrupt,
        },
{
    match actor_kind_from(value) {
        Some(k) => Ok(k),
        None => Err(LibraryError::Corrupt("unknown persisted actor kind".to_string())),
    }
}

/// Reads a requirement kind stored in the Library's tables.
pub fn parse_persisted_requirement_kind(value: &str) -> (r: Result<RequirementKind, LibraryError>)
    ensures
        match requirement_kind_named(value@) {
            Some(k) => r == Ok::<RequirementKind, LibraryError>(k),
            None => r matches Err(e) && e is Corrupt,
        },
{
    match requirement_kind_from(value) {
        Some(k) => Ok(k),
        None => Err(LibraryError::Corrupt("unknown persisted requirement kind".to_string())),
    }
}

/// Reads a machine class stored in the Library's tables.
pub fn parse_persisted_machine_class(value: &str) -> (r: Result<MachineClass, LibraryError>)
    ensures
        match machine_class_named(value@) {
            Some(c) => r == Ok::<MachineClass, LibraryError>(c),
            None => r matches Err(e) && e is Corrupt,
        },
{
    match machine_class_from(value) {
        Some(c) => Ok(c),
        None => Err(LibraryError::Corrupt("unknown persisted machine class".to_string())),
    }
}

/// Each kind reads back from its written name.
pub proof fn law_kind_names_round_trip(a: ActorKind, k: RequirementKind, c: MachineClass)
    ensures
        actor_kind_named(a.spec_name()) == Some(a),
        requirement_kind_named(k.spec_name()) == Some(k),
        machine_class_named(c.spec_name()) == Some(c),
{
    reveal_strlit("human");
    reveal_strlit("service");
    reveal_strlit("agent");
    reveal_strlit("remote");
    reveal_strlit("goal");
    reveal_strlit("constraint");
    reveal_strlit("preference");
    reveal_strlit("prohibition");
    reveal_strlit("workstation");
    reveal_strlit("server");
    reveal_strlit("edge");
    assert("human"@[0] != "service"@[0] && "human"@[0] != "agent"@[0] && "human"@[0] != "remote"@[0]);
    assert("service"@[0] != "agent"@[0] && "service"@[0] != "remote"@[0] && "agent"@[0] != "remote"@[0]);
    assert("goal"@[0] != "constraint"@[0] && "goal"@[0] != "preference"@[0] && "goal"@[0] != "prohibition"@[0]);
    assert("constraint"@[0] != "preference"@[0] && "constraint"@[0] != "prohibition"@[0]);
    assert("preference"@[2] != "prohibition"@[2]);
    assert("workstation"@[0] != "server"@[0] && "workstation"@[0] != "edge"@[0] && "server"@[0] != "edge"@[0]);
}

} // verus!
