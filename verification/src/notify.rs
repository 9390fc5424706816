use vstd::prelude::*;

use crate::endpoint::{Endpoint, ipv4_text, ipv4_string};
use crate::text::{decimal, decimal_string};

verus! {

/// Builds the three separate script arguments: the public address, the
/// public port and the local port, each in decimal.
pub fn script_arguments(public: Endpoint, local_port: u16) -> (arguments: Vec<String>)
    ensures
        arguments@.len() == 3,
        arguments@[0]@ == ipv4_text(public.ip),
        arguments@[1]@ == decimal(public.port as nat),
        arguments@[2]@ == decimal(local_port as nat),
{
    let mut arguments: Vec<String> = Vec::new();
    arguments.push(ipv4_string(public.ip));
    arguments.push(decimal_string(public.port as u64));
    arguments.push(decimal_string(local_port as u64));
    arguments
}

} // verus!
