//! Resource identifiers of the systemd and NetworkManager observers.
use vstd::prelude::*;
use crate::observation::error::ProviderError;
use crate::text::{chars_of, has_prefix, slice_chars, starts_with, string_of};

verus! {

pub const SYSTEMD_PROVIDER: &'static str = "systemd";
pub const SYSTEMD_CAPABILITY: &'static str = "systemd.unit.observe";
pub const SYSTEMD_RESOURCE_PREFIX: &'static str = "systemd:unit:";

/// Attribute under which a unit's monotonic active-enter timestamp is
/// reported, so that a restart can be verified.
pub const SYSTEMD_ACTIVE_ENTER_TIMESTAMP_MONOTONIC_ATTRIBUTE: &'static str = "active_enter_timestamp_monotonic";

pub const NM_PROVIDER: &'static str = "networkmanager";
pub const NM_MANAGER_CAPABILITY: &'static str = "networkmanager.manager.observe";
pub const NM_DEVICE_CAPABILITY: &'static str = "networkmanager.device.observe";
pub const NM_MANAGER_RESOURCE: &'static str = "networkmanager:manager";
pub const NM_DEVICE_RESOURCE_PREFIX: &'static str = "networkmanager:device:";

/// The part of `resource` after `prefix`: unsupported without the prefix,
/// invalid when empty.
pub fn strip_resource_prefix(resource: &str, prefix: &str) -> (r: Result<String, ProviderError>)
    ensures
        !has_prefix(resource@, prefix@) ==> (r matches Err(e) && e is Unsupported),
        has_prefix(resource@, prefix@) && resource@.len() == prefix@.len() ==> (r matches Err(e) && e is InvalidState),
        has_prefix(resource@, prefix@) && resource@.len() > prefix@.len() ==> (r matches Ok(v) && v@ == resource@.skip(prefix@.len() as int)),
{
    let value = chars_of(resource);
    let p = chars_of(prefix);
    if !starts_with(&value, &p) {
        return Err(ProviderError::Unsupported("resource does not belong to this observer".to_string()));
    }
    if value.len() == p.len() {
        return Err(ProviderError::InvalidState("resource names an empty object".to_string()));
    }
    Ok(string_of(&slice_chars(&value, p.len(), value.len())))
}

/// The unit that a `systemd:unit:<name>` resource names.
pub fn unit_name(resource: &str) -> (r: Result<String, ProviderError>)
    ensures
        !has_prefix(resource@, SYSTEMD_RESOURCE_PREFIX@) ==> (r matches Err(e) && e is Unsupported),
        has_prefix(resource@, SYSTEMD_RESOURCE_PREFIX@) && resource@.len() == SYSTEMD_RESOURCE_PREFIX@.len() ==> (r matches Err(e) && e is InvalidState),
        has_prefix(resource@, SYSTEMD_RESOURCE_PREFIX@) && resource@.len() > SYSTEMD_RESOURCE_PREFIX@.len() ==> (r matches Ok(v) && v@ == resource@.skip(SYSTEMD_RESOURCE_PREFIX@.len() as int)),
{
    strip_resource_prefix(resource, SYSTEMD_RESOURCE_PREFIX)
}

/// The interface that a `networkmanager:device:<interface>` resource names.
pub fn device_interface(resource: &str) -> (r: Result<String, ProviderError>)
    ensures
        !has_prefix(resource@, NM_DEVICE_RESOURCE_PREFIX@) ==> (r matches Err(e) && e is Unsupported),
        has_prefix(resource@, NM_DEVICE_RESOURCE_PREFIX@) && resource@.len() == NM_DEVICE_RESOURCE_PREFIX@.len() ==> (r matches Err(e) && e is InvalidState),
        has_prefix(resource@, NM_DEVICE_RESOURCE_PREFIX@) && resource@.len() > NM_DEVICE_RESOURCE_PREFIX@.len() ==> (r matches Ok(v) && v@ == resource@.skip(NM_DEVICE_RESOURCE_PREFIX@.len() as int)),
{
    strip_resource_prefix(resource, NM_DEVICE_RESOURCE_PREFIX)
}

} // verus!
