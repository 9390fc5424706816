use vstd::prelude::*;

use crate::bytes::{be16, be16_bytes, be32, be32_bytes, be64_bytes};
use crate::endpoint::Endpoint;

verus! {

/// The fixed value of bytes 4..8 of every STUN message.
pub const STUN_MAGIC_COOKIE: u32 = 0x2112_A442;

/// Message type of a Binding success response.
pub const STUN_BINDING_SUCCESS: u16 = 0x0101;

/// Attribute type of XOR-MAPPED-ADDRESS.
pub const XOR_MAPPED_ADDRESS: u16 = 0x0020;

/// The high 16 bits of the magic cookie, which mask the mapped port.
pub const STUN_PORT_MASK: u16 = 0x2112;

/// Message type of a Binding request.
pub const STUN_BINDING_REQUEST: u16 = 0x0001;

/// Length of the STUN message header.
pub const STUN_HEADER_LENGTH: usize = 20;

/// Why a STUN Binding response was refused.
#[derive(Clone, Copy, Debug, PartialEq, Eq, Structural)]
pub enum StunError {
    ShortHeader,
    NotBindingSuccess,
    MissingMagicCookie,
    TransactionMismatch,
    UnalignedLength,
    TruncatedBody,
    TrailingData,
    TruncatedAttributeHeader,
    TruncatedAttributeValue,
    ReservedAttributeType,
    DuplicateMappedAddress,
    InvalidMappedAddressLength,
    NonzeroReservedByte,
    NotIpv4,
    ZeroPort,
    NoMappedAddress,
}

/// An attribute value length rounded up to the next multiple of four.
pub open spec fn padded_length(length: int) -> int {
    ((length + 3) / 4) * 4
}

/// The port carried by an XOR-MAPPED-ADDRESS value whose port field holds `encoded`.
pub open spec fn xor_port(encoded: u16) -> u16 {
    encoded ^ STUN_PORT_MASK
}

/// The address carried by an XOR-MAPPED-ADDRESS value whose address field holds `encoded`.
pub open spec fn xor_ip(encoded: u32) -> u32 {
    encoded ^ STUN_MAGIC_COOKIE
}

/// Walks the attributes of a message body from `offset` on, with `found` the
/// XOR-MAPPED-ADDRESS seen so far; gives the address found at the end, or the
/// first framing or attribute fault met on the way.
pub open spec fn walk_attributes(body: Seq<u8>, offset: int, found: Option<Endpoint>) -> Result<Option<Endpoint>, StunError>
    decreases body.len() - offset,
{
    if offset < 0 || offset >= body.len() {
        Ok(found)
    } else if body.len() - offset < 4 {
        Err(StunError::TruncatedAttributeHeader)
    } else {
        let attribute_type = be16(body, offset);
        let attribute_length = be16(body, offset + 2);
        let value_start = offset + 4;
        let padded_end = value_start + padded_length(attribute_length);
        if padded_end > body.len() {
            Err(StunError::TruncatedAttributeValue)
        } else if attribute_type == 0 {
            Err(StunError::ReservedAttributeType)
        } else if attribute_type == XOR_MAPPED_ADDRESS {
            if found is Some {
                Err(StunError::DuplicateMappedAddress)
            } else if attribute_length != 8 {
                Err(StunError::InvalidMappedAddressLength)
            } else if body[value_start] != 0 {
                Err(StunError::NonzeroReservedByte)
            } else if body[value_start + 1] != 0x01 {
                Err(StunError::NotIpv4)
            } else {
                let port = xor_port(be16(body, value_start + 2) as u16);
                if port == 0 {
                    Err(StunError::ZeroPort)
                } else {
                    let ip = xor_ip(be32(body, value_start + 4) as u32);
                    walk_attributes(body, padded_end, Some(Endpoint { ip, port }))
                }
            }
        } else {
            walk_attributes(body, padded_end, found)
        }
    }
}

/// The outcome of strictly parsing `packet` as a Binding success response to
/// the request with `transaction_id`: the checks run in this order, and the
/// first that fails names the error.
pub open spec fn spec_parse_xor_mapped_address(packet: Seq<u8>, transaction_id: Seq<u8>) -> Result<Endpoint, StunError> {
    if packet.len() < 20 {
        Err(StunError::ShortHeader)
    } else if be16(packet, 0) != STUN_BINDING_SUCCESS {
        Err(StunError::NotBindingSuccess)
    } else if be32(packet, 4) != STUN_MAGIC_COOKIE {
        Err(StunError::MissingMagicCookie)
    } else if packet.subrange(8, 20) != transaction_id {
        Err(StunError::TransactionMismatch)
    } else if be16(packet, 2) % 4 != 0 {
        Err(StunError::UnalignedLength)
    } else if packet.len() < 20 + be16(packet, 2) {
        Err(StunError::TruncatedBody)
    } else if packet.len() != 20 + be16(packet, 2) {
        Err(StunError::TrailingData)
    } else {
        match walk_attributes(packet.subrange(20, packet.len() as int), 0, None) {
            Ok(Some(address)) => Ok(address),
            Ok(None) => Err(StunError::NoMappedAddress),
            Err(error) => Err(error),
        }
    }
}

fn read_be16(packet: &[u8], i: usize) -> (r: u16)
    requires
        i + 1 < packet@.len(),
    ensures
        r == be16(packet@, i as int),
{
    (packet[i] as u16) * 0x100 + (packet[i + 1] as u16)
}

fn read_be32(packet: &[u8], i: usize) -> (r: u32)
    requires
        i + 3 < packet@.len(),
    ensures
        r == be32(packet@, i as int),
{
    (packet[i] as u32) * 0x100_0000 + (packet[i + 1] as u32) * 0x1_0000 + (packet[i + 2] as u32) * 0x100
        + (packet[i + 3] as u32)
}

/// Strictly parses an IPv4 XOR-MAPPED-ADDRESS from a STUN Binding response.
pub fn parse_xor_mapped_address(packet: &[u8], transaction_id: [u8; 12]) -> (res: Result<Endpoint, StunError>)
    ensures
        res == spec_parse_xor_mapped_address(packet@, transaction_id@),
{
    let packet_len = packet.len();
    if packet_len < 20 {
        return Err(StunError::ShortHeader);
    }
    if read_be16(packet, 0) != STUN_BINDING_SUCCESS {
        return Err(StunError::NotBindingSuccess);
    }
    if read_be32(packet, 4) != STUN_MAGIC_COOKIE {
        return Err(StunError::MissingMagicCookie);
    }
    let mut k: usize = 0;
    while k < 12
        invariant
            k <= 12,
            packet_len == packet@.len(),
            packet_len >= 20,
            be16(packet@, 0) == STUN_BINDING_SUCCESS,
            be32(packet@, 4) == STUN_MAGIC_COOKIE,
            forall|j: int| 0 <= j < k ==> packet@[8 + j] == transaction_id@[j],
        decreases 12 - k,
    {
        if packet[8 + k] != transaction_id[k] {
            assert(packet@.subrange(8, 20)[k as int] != transaction_id@[k as int]);
            return Err(StunError::TransactionMismatch);
        }
        k = k + 1;
    }
    assert(packet@.subrange(8, 20) =~= transaction_id@);

    let body_length = read_be16(packet, 2) as usize;
    if body_length % 4 != 0 {
        return Err(StunError::UnalignedLength);
    }
    let body_end = 20 + body_length;
    if packet_len < body_end {
        return Err(StunError::TruncatedBody);
    }
    if packet_len != body_end {
        return Err(StunError::TrailingData);
    }

    let ghost body = packet@.subrange(20, packet_len as int);
    let mut offset: usize = 0;
    let mut mapped_address: Option<Endpoint> = None;
    while offset < body_length
        invariant
            packet_len == packet@.len(),
            packet_len == 20 + body_length,
            body_length < 0x1_0000,
            body == packet@.subrange(20, packet_len as int),
            be16(packet@, 0) == STUN_BINDING_SUCCESS,
            be32(packet@, 4) == STUN_MAGIC_COOKIE,
            packet@.subrange(8, 20) == transaction_id@,
            be16(packet@, 2) == body_length,
            body_length % 4 == 0,
            offset <= body_length,
            walk_attributes(body, 0, None) == walk_attributes(body, offset as int, mapped_address),
        decreases body_length - offset,
    {
        if body_length - offset < 4 {
            return Err(StunError::TruncatedAttributeHeader);
        }
        let attribute_type = read_be16(packet, 20 + offset);
        let attribute_length = read_be16(packet, 20 + offset + 2) as usize;
        assert(attribute_type == be16(body, offset as int));
        assert(attribute_length == be16(body, offset + 2));
        let value_start = offset + 4;
        let padded = (attribute_length + 3) / 4 * 4;
        let padded_end = value_start + padded;
        if padded_end > body_length {
            return Err(StunError::TruncatedAttributeValue);
        }
        if attribute_type == 0 {
            return Err(StunError::ReservedAttributeType);
        }
        if attribute_type == XOR_MAPPED_ADDRESS {
            if mapped_address.is_some() {
                return Err(StunError::DuplicateMappedAddress);
            }
            if attribute_length != 8 {
                return Err(StunError::InvalidMappedAddressLength);
            }
            if packet[20 + value_start] != 0 {
                return Err(StunError::NonzeroReservedByte);
            }
            if packet[20 + value_start + 1] != 0x01 {
                return Err(StunError::NotIpv4);
            }
            let encoded_port = read_be16(packet, 20 + value_start + 2);
            let encoded_ip = read_be32(packet, 20 + value_start + 4);
            assert(encoded_port == be16(body, value_start + 2));
            assert(encoded_ip == be32(body, value_start + 4));
            let port = encoded_port ^ STUN_PORT_MASK;
            if port == 0 {
                return Err(StunError::ZeroPort);
            }
            let ip = encoded_ip ^ STUN_MAGIC_COOKIE;
            mapped_address = Some(Endpoint { ip, port });
        }
        offset = padded_end;
    }

    match mapped_address {
        Some(address) => Ok(address),
        None => Err(StunError::NoMappedAddress),
    }
}


/// The Binding request that carries `transaction_id`: message type, a zero
/// body length, the magic cookie, then the transaction ID.
pub open spec fn binding_request_bytes(transaction_id: Seq<u8>) -> Seq<u8> {
    be16_bytes(STUN_BINDING_REQUEST) + be16_bytes(0) + be32_bytes(STUN_MAGIC_COOKIE) + transaction_id
}

/// Encodes a STUN Binding request with an empty body.
pub fn stun_binding_request(transaction_id: [u8; 12]) -> (request: [u8; 20])
    ensures
        request@ == binding_request_bytes(transaction_id@),
{
    let t = transaction_id;
    let request: [u8; 20] = [
        (STUN_BINDING_REQUEST / 0x100) as u8,
        (STUN_BINDING_REQUEST % 0x100) as u8,
        0,
        0,
        (STUN_MAGIC_COOKIE / 0x100_0000) as u8,
        ((STUN_MAGIC_COOKIE / 0x1_0000) % 0x100) as u8,
        ((STUN_MAGIC_COOKIE / 0x100) % 0x100) as u8,
        (STUN_MAGIC_COOKIE % 0x100) as u8,
        t[0], t[1], t[2], t[3], t[4], t[5], t[6], t[7], t[8], t[9], t[10], t[11],
    ];
    assert(request@ =~= binding_request_bytes(transaction_id@));
    request
}

/// The transaction ID made of a timestamp and a request counter: the eight
/// big-endian bytes of the timestamp, then the low four bytes of the counter.
pub open spec fn transaction_id_bytes(timestamp: u64, counter: u64) -> Seq<u8> {
    be64_bytes(timestamp) + be32_bytes((counter % 0x1_0000_0000) as u32)
}

/// Builds a transaction ID from a nanosecond timestamp and a per-process
/// request counter.
pub fn next_transaction_id(timestamp: u64, counter: u64) -> (transaction_id: [u8; 12])
    ensures
        transaction_id@ == transaction_id_bytes(timestamp, counter),
{
    let high: u32 = (timestamp / 0x1_0000_0000) as u32;
    let low: u32 = (timestamp % 0x1_0000_0000) as u32;
    let count: u32 = (counter % 0x1_0000_0000) as u32;
    let transaction_id: [u8; 12] = [
        (high / 0x100_0000) as u8,
        ((high / 0x1_0000) % 0x100) as u8,
        ((high / 0x100) % 0x100) as u8,
        (high % 0x100) as u8,
        (low / 0x100_0000) as u8,
        ((low / 0x1_0000) % 0x100) as u8,
        ((low / 0x100) % 0x100) as u8,
        (low % 0x100) as u8,
        (count / 0x100_0000) as u8,
        ((count / 0x1_0000) % 0x100) as u8,
        ((count / 0x100) % 0x100) as u8,
        (count % 0x100) as u8,
    ];
    assert(transaction_id@ =~= transaction_id_bytes(timestamp, counter));
    transaction_id
}

/// The length of the whole response announced by a STUN header: the header
/// itself plus the body length in bytes 2..4.
pub fn stun_response_length(header: &[u8; 20]) -> (length: usize)
    ensures
        length == 20 + be16(header@, 2),
{
    let body_length = (header[2] as usize) * 0x100 + (header[3] as usize);
    STUN_HEADER_LENGTH + body_length
}

/// A STUN header: message type, body length, magic cookie, transaction ID.
pub open spec fn stun_header_bytes(message_type: u16, body_length: u16, transaction_id: Seq<u8>) -> Seq<u8> {
    be16_bytes(message_type) + be16_bytes(body_length) + be32_bytes(STUN_MAGIC_COOKIE) + transaction_id
}

/// An IPv4 XOR-MAPPED-ADDRESS attribute for `public`.
pub open spec fn xor_mapped_attribute(public: Endpoint) -> Seq<u8> {
    be16_bytes(XOR_MAPPED_ADDRESS) + be16_bytes(8) + seq![0u8, 1u8] + be16_bytes(public.port ^ STUN_PORT_MASK)
        + be32_bytes(public.ip ^ STUN_MAGIC_COOKIE)
}

/// A Binding success response to `transaction_id` whose only attribute is an
/// XOR-MAPPED-ADDRESS for `public`.
pub open spec fn xor_mapped_success_response(transaction_id: Seq<u8>, public: Endpoint) -> Seq<u8> {
    stun_header_bytes(STUN_BINDING_SUCCESS, 12, transaction_id) + xor_mapped_attribute(public)
}

proof fn lemma_be16_bytes(s: Seq<u8>, i: int, x: u16)
    requires
        0 <= i,
        i + 1 < s.len(),
        s.subrange(i, i + 2) == be16_bytes(x),
    ensures
        be16(s, i) == x,
{
    assert(s[i] == s.subrange(i, i + 2)[0]);
    assert(s[i + 1] == s.subrange(i, i + 2)[1]);
}

proof fn lemma_be32_bytes(s: Seq<u8>, i: int, x: u32)
    requires
        0 <= i,
        i + 3 < s.len(),
        s.subrange(i, i + 4) == be32_bytes(x),
    ensures
        be32(s, i) == x,
{
    assert(s[i] == s.subrange(i, i + 4)[0]);
    assert(s[i + 1] == s.subrange(i, i + 4)[1]);
    assert(s[i + 2] == s.subrange(i, i + 4)[2]);
    assert(s[i + 3] == s.subrange(i, i + 4)[3]);
}

/// A well-formed Binding success response that echoes the transaction ID and
/// carries one XOR-MAPPED-ADDRESS for an endpoint with a non-zero port parses
/// back to exactly that endpoint.
pub proof fn lemma_parse_success_response(transaction_id: Seq<u8>, public: Endpoint)
    requires
        transaction_id.len() == 12,
        public.port != 0,
    ensures
        spec_parse_xor_mapped_address(xor_mapped_success_response(transaction_id, public), transaction_id)
            == Ok::<Endpoint, StunError>(public),
{
    let h = stun_header_bytes(STUN_BINDING_SUCCESS, 12, transaction_id);
    let body = xor_mapped_attribute(public);
    let p = h + body;
    assert(h.len() == 20);
    assert(body.len() == 12);
    assert(p.subrange(20, 32) =~= body);
    assert(p.subrange(8, 20) =~= transaction_id) by {
        assert forall|i: int| 0 <= i < 12 implies p.subrange(8, 20)[i] == transaction_id[i] by {
            assert(p[8 + i] == h[8 + i]);
        }
    }
    assert(be16(p, 0) == STUN_BINDING_SUCCESS) by {
        assert(h.subrange(0, 2) =~= be16_bytes(STUN_BINDING_SUCCESS));
        lemma_be16_bytes(h, 0, STUN_BINDING_SUCCESS);
        assert(p[0] == h[0] && p[1] == h[1]);
    }
    assert(be16(p, 2) == 12) by {
        assert(h.subrange(2, 4) =~= be16_bytes(12));
        lemma_be16_bytes(h, 2, 12);
        assert(p[2] == h[2] && p[3] == h[3]);
    }
    assert(be32(p, 4) == STUN_MAGIC_COOKIE) by {
        assert(h.subrange(4, 8) =~= be32_bytes(STUN_MAGIC_COOKIE));
        lemma_be32_bytes(h, 4, STUN_MAGIC_COOKIE);
        assert(p[4] == h[4] && p[5] == h[5] && p[6] == h[6] && p[7] == h[7]);
    }
    let encoded_port: u16 = public.port ^ STUN_PORT_MASK;
    let encoded_ip: u32 = public.ip ^ STUN_MAGIC_COOKIE;
    assert(body.subrange(0, 2) =~= be16_bytes(XOR_MAPPED_ADDRESS));
    assert(body.subrange(2, 4) =~= be16_bytes(8));
    assert(body.subrange(6, 8) =~= be16_bytes(encoded_port));
    assert(body.subrange(8, 12) =~= be32_bytes(encoded_ip));
    lemma_be16_bytes(body, 0, XOR_MAPPED_ADDRESS);
    lemma_be16_bytes(body, 2, 8);
    lemma_be16_bytes(body, 6, encoded_port);
    lemma_be32_bytes(body, 8, encoded_ip);
    assert(body[4] == 0u8);
    assert(body[5] == 1u8);
    let port = public.port;
    let ip = public.ip;
    assert((port ^ 0x2112u16) ^ 0x2112u16 == port) by (bit_vector);
    assert((ip ^ 0x2112_A442u32) ^ 0x2112_A442u32 == ip) by (bit_vector);
    assert(xor_port(encoded_port) == public.port);
    assert(xor_ip(encoded_ip) == public.ip);
    assert(walk_attributes(body, 12, Some(public)) == Ok::<Option<Endpoint>, StunError>(Some(public)));
    assert(walk_attributes(body, 0, None) == Ok::<Option<Endpoint>, StunError>(Some(public)));
}

/// The transaction ID a Binding request carries is the one a response to
/// it must echo in bytes 8..20.
pub proof fn lemma_request_carries_transaction_id(transaction_id: Seq<u8>)
    requires
        transaction_id.len() == 12,
    ensures
        binding_request_bytes(transaction_id).len() == 20,
        binding_request_bytes(transaction_id).subrange(8, 20) == transaction_id,
{
    assert(binding_request_bytes(transaction_id).subrange(8, 20) =~= transaction_id);
}

proof fn lemma_walk_stays_aligned(body: Seq<u8>, offset: int, found: Option<Endpoint>)
    requires
        body.len() % 4 == 0,
        offset % 4 == 0,
    ensures
        walk_attributes(body, offset, found) != Err::<Option<Endpoint>, StunError>(
            StunError::TruncatedAttributeHeader,
        ),
    decreases body.len() - offset,
{
    if 0 <= offset < body.len() {
        let attribute_length = be16(body, offset + 2);
        let padded_end = offset + 4 + padded_length(attribute_length);
        assert(padded_length(attribute_length) % 4 == 0);
        if padded_end <= body.len() {
            let port = xor_port(be16(body, offset + 4 + 2) as u16);
            let ip = xor_ip(be32(body, offset + 4 + 4) as u32);
            lemma_walk_stays_aligned(body, padded_end, found);
            lemma_walk_stays_aligned(body, padded_end, Some(Endpoint { ip, port }));
        }
    }
}

/// Because the body length and every padded attribute are multiples of four,
/// the walk over the attributes never stops on a truncated attribute header.
pub proof fn lemma_attribute_header_never_truncated(packet: Seq<u8>, transaction_id: Seq<u8>)
    ensures
        spec_parse_xor_mapped_address(packet, transaction_id) != Err::<Endpoint, StunError>(
            StunError::TruncatedAttributeHeader,
        ),
{
    if packet.len() >= 20 && be16(packet, 2) % 4 == 0 && packet.len() == 20 + be16(packet, 2) {
        lemma_walk_stays_aligned(packet.subrange(20, packet.len() as int), 0, None);
    }
}

/// Transaction IDs built from consecutive counter values differ, whatever the
/// two timestamps: their last four bytes hold different counter values.
pub proof fn lemma_consecutive_counters_give_distinct_ids(first_timestamp: u64, second_timestamp: u64, counter: u64)
    requires
        counter < u64::MAX,
    ensures
        transaction_id_bytes(first_timestamp, counter) != transaction_id_bytes(second_timestamp, (counter + 1) as u64),
{
    let a = transaction_id_bytes(first_timestamp, counter);
    let b = transaction_id_bytes(second_timestamp, (counter + 1) as u64);
    let low_a = (counter % 0x1_0000_0000) as u32;
    let low_b = (((counter + 1) as u64) % 0x1_0000_0000) as u32;
    assert(a.subrange(8, 12) =~= be32_bytes(low_a));
    assert(b.subrange(8, 12) =~= be32_bytes(low_b));
    lemma_be32_bytes(a, 8, low_a);
    lemma_be32_bytes(b, 8, low_b);
    assert(low_a != low_b);
    if a == b {
        assert(be32(a, 8) == be32(b, 8));
    }
}

/// Where the attribute starting at `offset` ends, its value padded to a
/// multiple of four bytes.
pub open spec fn attribute_end(body: Seq<u8>, offset: int) -> int {
    offset + 4 + padded_length(be16(body, offset + 2))
}

/// The attributes of `body` from `offset` on form an exact run: each has a
/// whole 4-byte header, a padded value inside the body and a non-zero type,
/// and the last ends exactly at the end of the body.
pub open spec fn attributes_framed(body: Seq<u8>, offset: int) -> bool
    decreases body.len() - offset,
{
    if offset < 0 || offset > body.len() {
        false
    } else if offset == body.len() {
        true
    } else {
        &&& body.len() - offset >= 4
        &&& attribute_end(body, offset) <= body.len()
        &&& be16(body, offset) != 0
        &&& attributes_framed(body, attribute_end(body, offset))
    }
}

/// How many XOR-MAPPED-ADDRESS attributes the run from `offset` holds.
pub open spec fn mapped_count(body: Seq<u8>, offset: int) -> nat
    decreases body.len() - offset,
{
    if offset < 0 || offset + 4 > body.len() {
        0
    } else {
        let rest = if attribute_end(body, offset) <= body.len() {
            mapped_count(body, attribute_end(body, offset))
        } else {
            0
        };
        (if be16(body, offset) == XOR_MAPPED_ADDRESS { 1nat } else { 0nat }) + rest
    }
}

/// The XOR-MAPPED-ADDRESS value at `offset` is a usable IPv4 one: length 8,
/// reserved byte 0, family 0x01 and a non-zero decoded port.
pub open spec fn valid_mapped_value(body: Seq<u8>, offset: int) -> bool {
    &&& be16(body, offset + 2) == 8
    &&& body[offset + 4] == 0
    &&& body[offset + 5] == 0x01
    &&& xor_port(be16(body, offset + 6) as u16) != 0
}

/// The endpoint the XOR-MAPPED-ADDRESS value at `offset` decodes to.
pub open spec fn decoded_mapped_address(body: Seq<u8>, offset: int) -> Endpoint {
    Endpoint { ip: xor_ip(be32(body, offset + 8) as u32), port: xor_port(be16(body, offset + 6) as u16) }
}

/// Every XOR-MAPPED-ADDRESS in the run from `offset` holds a usable value.
pub open spec fn mapped_values_valid(body: Seq<u8>, offset: int) -> bool
    decreases body.len() - offset,
{
    if offset < 0 || offset + 4 > body.len() {
        true
    } else {
        &&& (be16(body, offset) == XOR_MAPPED_ADDRESS ==> valid_mapped_value(body, offset))
        &&& (attribute_end(body, offset) <= body.len() ==> mapped_values_valid(body, attribute_end(body, offset)))
    }
}

/// The decoded first XOR-MAPPED-ADDRESS of the run from `offset`.
pub open spec fn first_mapped_address(body: Seq<u8>, offset: int) -> Option<Endpoint>
    decreases body.len() - offset,
{
    if offset < 0 || offset + 4 > body.len() {
        None
    } else if be16(body, offset) == XOR_MAPPED_ADDRESS {
        Some(decoded_mapped_address(body, offset))
    } else if attribute_end(body, offset) <= body.len() {
        first_mapped_address(body, attribute_end(body, offset))
    } else {
        None
    }
}

proof fn lemma_walk_shape(body: Seq<u8>, offset: int, found: Option<Endpoint>)
    requires
        0 <= offset <= body.len(),
        walk_attributes(body, offset, found) is Ok,
    ensures
        attributes_framed(body, offset),
        mapped_values_valid(body, offset),
        found is Some ==> mapped_count(body, offset) == 0 && walk_attributes(body, offset, found)
            == Ok::<Option<Endpoint>, StunError>(found),
        found is None ==> mapped_count(body, offset) <= 1 && walk_attributes(body, offset, found)
            == Ok::<Option<Endpoint>, StunError>(first_mapped_address(body, offset)) && (first_mapped_address(
            body,
            offset,
        ) is Some <==> mapped_count(body, offset) == 1),
    decreases body.len() - offset,
{
    if offset < body.len() {
        let end = attribute_end(body, offset);
        assert(padded_length(be16(body, offset + 2)) >= 0);
        if be16(body, offset) == XOR_MAPPED_ADDRESS {
            lemma_walk_shape(body, end, Some(decoded_mapped_address(body, offset)));
        } else {
            lemma_walk_shape(body, end, found);
        }
    }
}

/// What an accepted Binding response looks like: a success header with the
/// cookie and the expected transaction ID, a 4-byte aligned length that
/// covers exactly the rest of the packet, and a body that is an exact run of
/// padded attributes, none of type 0, with exactly one XOR-MAPPED-ADDRESS,
/// which is a usable IPv4 value and decodes to the result.
pub proof fn lemma_accepted_response_shape(packet: Seq<u8>, transaction_id: Seq<u8>)
    requires
        spec_parse_xor_mapped_address(packet, transaction_id) is Ok,
    ensures
        ({
            let address = spec_parse_xor_mapped_address(packet, transaction_id)->Ok_0;
            let body = packet.subrange(20, packet.len() as int);
            &&& packet.len() >= 20
            &&& be16(packet, 0) == STUN_BINDING_SUCCESS
            &&& be32(packet, 4) == STUN_MAGIC_COOKIE
            &&& packet.subrange(8, 20) == transaction_id
            &&& be16(packet, 2) % 4 == 0
            &&& packet.len() == 20 + be16(packet, 2)
            &&& attributes_framed(body, 0)
            &&& mapped_values_valid(body, 0)
            &&& mapped_count(body, 0) == 1
            &&& first_mapped_address(body, 0) == Some(address)
            &&& address.port != 0
        }),
{
    let body = packet.subrange(20, packet.len() as int);
    lemma_walk_shape(body, 0, None);
    let address = spec_parse_xor_mapped_address(packet, transaction_id)->Ok_0;
    lemma_first_mapped_is_valid(body, 0);
}

proof fn lemma_first_mapped_is_valid(body: Seq<u8>, offset: int)
    requires
        mapped_values_valid(body, offset),
    ensures
        first_mapped_address(body, offset) matches Some(address) ==> address.port != 0,
    decreases body.len() - offset,
{
    if 0 <= offset && offset + 4 <= body.len() && be16(body, offset) != XOR_MAPPED_ADDRESS
        && attribute_end(body, offset) <= body.len() {
        lemma_first_mapped_is_valid(body, attribute_end(body, offset));
    }
}

/// A response whose body is not an exact run of attributes, or that has no
/// XOR-MAPPED-ADDRESS, two of them, or one with a bad length, reserved
/// byte, family or a zero port, is refused.
pub proof fn lemma_bad_mapped_address_refused(packet: Seq<u8>, transaction_id: Seq<u8>)
    requires
        packet.len() >= 20,
        ({
            let body = packet.subrange(20, packet.len() as int);
            !attributes_framed(body, 0) || !mapped_values_valid(body, 0) || mapped_count(body, 0) != 1
        }),
    ensures
        spec_parse_xor_mapped_address(packet, transaction_id) is Err,
{
    if spec_parse_xor_mapped_address(packet, transaction_id) is Ok {
        lemma_accepted_response_shape(packet, transaction_id);
    }
}

proof fn lemma_walk_accepts(body: Seq<u8>, offset: int, found: Option<Endpoint>)
    requires
        0 <= offset <= body.len(),
        attributes_framed(body, offset),
        mapped_values_valid(body, offset),
        found is Some ==> mapped_count(body, offset) == 0,
        found is None ==> mapped_count(body, offset) == 1,
    ensures
        found is Some ==> walk_attributes(body, offset, found) == Ok::<Option<Endpoint>, StunError>(found),
        found is None ==> first_mapped_address(body, offset) is Some && walk_attributes(body, offset, found)
            == Ok::<Option<Endpoint>, StunError>(first_mapped_address(body, offset)),
    decreases body.len() - offset,
{
    if offset < body.len() {
        let end = attribute_end(body, offset);
        assert(padded_length(be16(body, offset + 2)) >= 0);
        if be16(body, offset) == XOR_MAPPED_ADDRESS {
            lemma_walk_accepts(body, end, Some(decoded_mapped_address(body, offset)));
        } else {
            lemma_walk_accepts(body, end, found);
        }
    }
}

/// The converse of the accepted-response shape: a Binding success header
/// with the cookie and the expected transaction ID, a 4-byte aligned length
/// covering exactly the rest of the packet, and a body that is an exact run
/// of padded attributes with no type 0 and exactly one XOR-MAPPED-ADDRESS,
/// holding a usable IPv4 value, is accepted with the endpoint that
/// attribute decodes to, whatever other attributes stand before or after it.
pub proof fn lemma_well_formed_response_accepted(packet: Seq<u8>, transaction_id: Seq<u8>)
    requires
        packet.len() >= 20,
        be16(packet, 0) == STUN_BINDING_SUCCESS,
        be32(packet, 4) == STUN_MAGIC_COOKIE,
        packet.subrange(8, 20) == transaction_id,
        be16(packet, 2) % 4 == 0,
        packet.len() == 20 + be16(packet, 2),
        attributes_framed(packet.subrange(20, packet.len() as int), 0),
        mapped_values_valid(packet.subrange(20, packet.len() as int), 0),
        mapped_count(packet.subrange(20, packet.len() as int), 0) == 1,
    ensures
        first_mapped_address(packet.subrange(20, packet.len() as int), 0) is Some,
        spec_parse_xor_mapped_address(packet, transaction_id) == Ok::<Endpoint, StunError>(
            first_mapped_address(packet.subrange(20, packet.len() as int), 0)->0,
        ),
{
    lemma_walk_accepts(packet.subrange(20, packet.len() as int), 0, None);
}

} // verus!
