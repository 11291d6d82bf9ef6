//! Errors that observation providers report.
use vstd::prelude::*;

verus! {

/// Why a provider could not produce an observation.
#[derive(Clone, Debug, PartialEq, Eq)]
pub enum ProviderError {
    Unavailable(String),
    Unsupported(String),
    InvalidState(String),
    Internal(String),
}

/// Whether a provider can currently be observed.
#[derive(Clone, Copy, Debug, PartialEq, Eq, Structural)]
pub enum ProviderAvailability {
    Available,
    Degraded,
    Unavailable,
}

/// A provider's reported health.
#[derive(Clone, Debug)]
pub struct ProviderHealth {
    pub availability: ProviderAvailability,
    pub reason: Option<String>,
}

/// A degraded provider may still be observed; an unavailable one reports
/// its reason, or a generic one when it gave none.
pub fn require_available(health: &ProviderHealth) -> (r: Result<(), ProviderError>)
    ensures
        r is Ok <==> !(health.availability is Unavailable),
        r matches Err(e) ==> (e matches ProviderError::Unavailable(m) && match health.reason {
            Some(reason) => m@ == reason@,
            None => m@ == "provider is unavailable"@,
        }),
{
    match health.availability {
        ProviderAvailability::Available | ProviderAvailability::Degraded => Ok(()),
        ProviderAvailability::Unavailable => {
            let message = match &health.reason {
                Some(reason) => reason.clone(),
                None => "provider is unavailable".to_string(),
            };
            Err(ProviderError::Unavailable(message))
        },
    }
}

} // verus!
