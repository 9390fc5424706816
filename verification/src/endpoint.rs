use vstd::prelude::*;

use crate::text::{decimal, push_decimal};

verus! {

/// An IPv4 socket address: the address as a big-endian `u32` and a port.
#[derive(Clone, Copy, Debug, PartialEq, Eq, Structural)]
pub struct Endpoint {
    pub ip: u32,
    pub port: u16,
}

/// The big-endian value of four octets.
pub open spec fn ipv4_value(a: u8, b: u8, c: u8, d: u8) -> int {
    a * 0x100_0000 + b * 0x1_0000 + c * 0x100 + d
}

impl Endpoint {
    /// Builds the endpoint `a.b.c.d:port`.
    pub fn new(a: u8, b: u8, c: u8, d: u8, port: u16) -> (e: Endpoint)
        ensures
            e.ip == ipv4_value(a, b, c, d),
            e.port == port,
    {
        let ip: u32 = (a as u32) * 0x100_0000 + (b as u32) * 0x1_0000 + (c as u32) * 0x100 + (d as u32);
        Endpoint { ip, port }
    }
}

/// The dotted-decimal text of an IPv4 address, such as `203.0.113.7`.
pub open spec fn ipv4_text(ip: u32) -> Seq<char> {
    decimal((ip / 0x100_0000) as nat) + seq!['.'] + decimal(((ip / 0x1_0000) % 0x100) as nat) + seq!['.']
        + decimal(((ip / 0x100) % 0x100) as nat) + seq!['.'] + decimal((ip % 0x100) as nat)
}

/// The text of an endpoint, such as `203.0.113.7:42424`.
pub open spec fn endpoint_text(e: Endpoint) -> Seq<char> {
    ipv4_text(e.ip) + seq![':'] + decimal(e.port as nat)
}

/// Appends the dotted-decimal text of `ip` to `out`.
pub fn push_ipv4(out: &mut String, ip: u32)
    ensures
        final(out)@ == old(out)@ + ipv4_text(ip),
{
    proof {
        reveal_strlit(".");
    }
    let ghost start = out@;
    push_decimal(out, (ip / 0x100_0000) as u64);
    out.append(".");
    push_decimal(out, ((ip / 0x1_0000) % 0x100) as u64);
    out.append(".");
    push_decimal(out, ((ip / 0x100) % 0x100) as u64);
    out.append(".");
    push_decimal(out, (ip % 0x100) as u64);
    assert(out@ =~= start + ipv4_text(ip));
}

/// The dotted-decimal text of `ip`.
pub fn ipv4_string(ip: u32) -> (s: String)
    ensures
        s@ == ipv4_text(ip),
{
    let mut s = String::new();
    push_ipv4(&mut s, ip);
    assert(s@ =~= ipv4_text(ip));
    s
}

/// Appends the `address:port` text of `e` to `out`.
pub fn push_endpoint(out: &mut String, e: Endpoint)
    ensures
        final(out)@ == old(out)@ + endpoint_text(e),
{
    proof {
        reveal_strlit(":");
    }
    let ghost start = out@;
    push_ipv4(out, e.ip);
    out.append(":");
    push_decimal(out, e.port as u64);
    assert(out@ =~= start + endpoint_text(e));
}

} // verus!
