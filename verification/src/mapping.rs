use vstd::prelude::*;

use crate::endpoint::{Endpoint, ipv4_text};
use crate::notify::script_arguments;
use crate::text::decimal;

verus! {

/// Why a mapping attempt stopped in the worker's own bookkeeping.
#[derive(Clone, Copy, Debug, PartialEq, Eq, Structural)]
pub enum MappingError {
    /// The first HTTP connection got an IPv6 local address, so no IPv4 port
    /// could be settled.
    Ipv6LocalAddress,
}

/// The local port to bind the HTTP connection to: the settled port, or 0 so
/// that the operating system picks one.
pub fn http_bind_port(local_port: Option<u16>) -> (port: u16)
    ensures
        port == match local_port {
            Some(settled) => settled,
            None => 0,
        },
{
    match local_port {
        Some(settled) => settled,
        None => 0,
    }
}

/// The local port a mapping uses after an HTTP connection whose local IPv4
/// port is `connected` (`None` for an IPv6 local address): a settled port
/// never changes; otherwise the connection's port is taken.
pub open spec fn settled_local_port(local_port: Option<u16>, connected: Option<u16>) -> Result<u16, MappingError> {
    match local_port {
        Some(settled) => Ok(settled),
        None => match connected {
            Some(port) => Ok(port),
            None => Err(MappingError::Ipv6LocalAddress),
        },
    }
}

/// The remembered local port after an HTTP connection with `connected`.
pub open spec fn local_port_after(local_port: Option<u16>, connected: Option<u16>) -> Option<u16> {
    match settled_local_port(local_port, connected) {
        Ok(port) => Some(port),
        Err(_) => local_port,
    }
}

/// Settles the mapping's local port once its HTTP connection is up.
pub fn settle_local_port(local_port: &mut Option<u16>, connected: Option<u16>) -> (res: Result<u16, MappingError>)
    ensures
        res == settled_local_port(*old(local_port), connected),
        *final(local_port) == local_port_after(*old(local_port), connected),
{
    match *local_port {
        Some(settled) => Ok(settled),
        None => match connected {
            Some(port) => {
                *local_port = Some(port);
                Ok(port)
            },
            None => Err(MappingError::Ipv6LocalAddress),
        },
    }
}

/// The script must run when STUN reports an endpoint other than the last
/// one the script installed.
pub open spec fn needs_notification(last_public: Option<Endpoint>, public: Endpoint) -> bool {
    last_public != Some(public)
}

/// The endpoint remembered after a notification for `public` ran and
/// `succeeded` or not: only a success replaces it.
pub open spec fn last_public_after(last_public: Option<Endpoint>, public: Endpoint, succeeded: bool) -> Option<Endpoint> {
    if succeeded {
        Some(public)
    } else {
        last_public
    }
}

/// The arguments to run the mapping script with, or `None` when the public
/// endpoint is the one the script last installed.
pub fn notification_arguments(last_public: Option<Endpoint>, public: Endpoint, local_port: u16) -> (res: Option<Vec<String>>)
    ensures
        res is Some <==> needs_notification(last_public, public),
        res matches Some(arguments) ==> {
            &&& arguments@.len() == 3
            &&& arguments@[0]@ == ipv4_text(public.ip)
            &&& arguments@[1]@ == decimal(public.port as nat)
            &&& arguments@[2]@ == decimal(local_port as nat)
        },
{
    let unchanged = match last_public {
        Some(last) => last == public,
        None => false,
    };
    if unchanged {
        None
    } else {
        Some(script_arguments(public, local_port))
    }
}

/// Records the outcome of running the mapping script for `public`.
pub fn record_notification(last_public: &mut Option<Endpoint>, public: Endpoint, succeeded: bool)
    ensures
        *final(last_public) == last_public_after(*old(last_public), public, succeeded),
{
    if succeeded {
        *last_public = Some(public);
    }
}

/// Once a port is settled, every later HTTP connection keeps it, whatever
/// local address that connection got.
pub proof fn lemma_local_port_stays_fixed(local_port: Option<u16>, first: Option<u16>, later: Option<u16>)
    requires
        settled_local_port(local_port, first) is Ok,
    ensures
        settled_local_port(local_port_after(local_port, first), later) == settled_local_port(local_port, first),
        local_port_after(local_port_after(local_port, first), later) == local_port_after(local_port, first),
{
}

/// After the script ran successfully for an endpoint, that endpoint needs
/// no further run, and any other endpoint does.
pub proof fn lemma_notified_endpoint_is_quiet(last_public: Option<Endpoint>, public: Endpoint, other: Endpoint)
    ensures
        !needs_notification(last_public_after(last_public, public, true), public),
        other != public ==> needs_notification(last_public_after(last_public, public, true), other),
{
}

/// A failed run leaves the remembered endpoint unchanged, so the same
/// endpoint change is notified again on the next attempt.
pub proof fn lemma_failed_notification_is_retried(last_public: Option<Endpoint>, public: Endpoint)
    requires
        needs_notification(last_public, public),
    ensures
        last_public_after(last_public, public, false) == last_public,
        needs_notification(last_public_after(last_public, public, false), public),
{
}

} // verus!
