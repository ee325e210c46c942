//! Invocation arguments and the usage rule: exactly one of an address
//! literal or a domain name must be given before any probing begins.

use vstd::prelude::*;

verus! {

/// The invocation arguments.
#[derive(Debug)]
pub struct GarRouteArgs {
    /// ip address to trace
    pub ip: Option<String>,
    /// domain address to trace
    pub domain: Option<String>,
}

/// Whether the arguments are usable: exactly one of the address and
/// the domain is given. Neither, or both, is a usage error, and no
/// probing may begin.
pub fn args_usable(args: &GarRouteArgs) -> (r: bool)
    ensures
        r == ((args.ip is Some && args.domain is None) || (args.ip is None
            && args.domain is Some)),
{
    (args.ip.is_some() && args.domain.is_none()) || (args.ip.is_none() && args.domain.is_some())
}

} // verus!
