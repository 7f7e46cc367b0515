//! Platforms other than Linux and Windows: no service listing, no control.

use vstd::prelude::*;
use super::{ServiceAction, ServiceRow, Invocation};

verus! {

/// No services are listed on this platform.
pub fn fetch_services() -> (r: Vec<ServiceRow>)
    ensures
        r@.len() == 0,
{
    Vec::new()
}

/// The message for a platform without service control.
pub open spec fn unsupported_message() -> Seq<char> {
    "Contrôle de service non supporté sur cette plateforme."@
}

/// Service control is refused on this platform, whatever the service and
/// the action.
pub fn control_service(name: &str, action: ServiceAction) -> (r: Result<Vec<Invocation>, String>)
    ensures
        r matches Err(e) && e@ == unsupported_message(),
{
    Err(String::from_str("Contrôle de service non supporté sur cette plateforme."))
}

} // verus!
