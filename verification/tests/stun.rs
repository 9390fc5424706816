use punchhole::endpoint::Endpoint;
use punchhole::stun::{
    STUN_BINDING_SUCCESS, STUN_MAGIC_COOKIE, StunError, XOR_MAPPED_ADDRESS, next_transaction_id,
    parse_xor_mapped_address, stun_binding_request, stun_response_length,
};

fn public_endpoint() -> Endpoint {
    Endpoint::new(203, 0, 113, 7, 42_424)
}

fn encoded_port(port: u16) -> u16 {
    port ^ (STUN_MAGIC_COOKIE >> 16) as u16
}

fn encoded_ip(octets: [u8; 4]) -> u32 {
    u32::from_be_bytes(octets) ^ STUN_MAGIC_COOKIE
}

fn success_packet(transaction_id: [u8; 12], body_length: u16, total: usize) -> Vec<u8> {
    let mut packet = vec![0; total];
    packet[0..2].copy_from_slice(&STUN_BINDING_SUCCESS.to_be_bytes());
    packet[2..4].copy_from_slice(&body_length.to_be_bytes());
    packet[4..8].copy_from_slice(&STUN_MAGIC_COOKIE.to_be_bytes());
    packet[8..20].copy_from_slice(&transaction_id);
    packet
}

#[test]
fn parses_ipv4_xor_mapped_address() {
    let transaction_id = [0x11; 12];
    let mut packet = success_packet(transaction_id, 12, 20 + 12);
    packet[20..22].copy_from_slice(&XOR_MAPPED_ADDRESS.to_be_bytes());
    packet[22..24].copy_from_slice(&8_u16.to_be_bytes());
    packet[24] = 0;
    packet[25] = 1;
    packet[26..28].copy_from_slice(&encoded_port(42_424).to_be_bytes());
    packet[28..32].copy_from_slice(&encoded_ip([203, 0, 113, 7]).to_be_bytes());

    assert_eq!(parse_xor_mapped_address(&packet, transaction_id).unwrap(), public_endpoint());
}

#[test]
fn rejects_stun_wrong_type_or_transaction() {
    let transaction_id = [0x22; 12];
    let mut packet = success_packet(transaction_id, 12, 20 + 12);
    packet[20..22].copy_from_slice(&XOR_MAPPED_ADDRESS.to_be_bytes());
    packet[22..24].copy_from_slice(&8_u16.to_be_bytes());
    packet[25] = 1;
    packet[26..28].copy_from_slice(&encoded_port(0xa5b8).to_be_bytes());
    packet[28..32].copy_from_slice(&encoded_ip([203, 0, 113, 7]).to_be_bytes());

    let mut wrong_type = packet.clone();
    wrong_type[0..2].copy_from_slice(&0x0111_u16.to_be_bytes());
    assert!(parse_xor_mapped_address(&wrong_type, transaction_id).is_err());

    let mut wrong_transaction = packet;
    wrong_transaction[19] ^= 1;
    assert!(parse_xor_mapped_address(&wrong_transaction, transaction_id).is_err());
}

#[test]
fn rejects_stun_malformed_framing() {
    let transaction_id = [0x33; 12];
    let mut packet = success_packet(transaction_id, 12, 20 + 12);
    packet[20..22].copy_from_slice(&XOR_MAPPED_ADDRESS.to_be_bytes());
    packet[22..24].copy_from_slice(&8_u16.to_be_bytes());
    packet[25] = 1;
    packet[26..28].copy_from_slice(&encoded_port(0xa5b8).to_be_bytes());
    packet[28..32].copy_from_slice(&encoded_ip([203, 0, 113, 7]).to_be_bytes());

    let mut unaligned = packet.clone();
    unaligned[2..4].copy_from_slice(&11_u16.to_be_bytes());
    assert!(parse_xor_mapped_address(&unaligned, transaction_id).is_err());

    let mut truncated = packet;
    truncated.truncate(31);
    assert!(parse_xor_mapped_address(&truncated, transaction_id).is_err());
}

#[test]
fn rejects_attribute_truncated_after_xor_mapped_address() {
    let transaction_id = [0x44; 12];
    let mut packet = success_packet(transaction_id, 16, 20 + 16);
    packet[20..22].copy_from_slice(&XOR_MAPPED_ADDRESS.to_be_bytes());
    packet[22..24].copy_from_slice(&8_u16.to_be_bytes());
    packet[25] = 1;
    packet[26..28].copy_from_slice(&encoded_port(42_424).to_be_bytes());
    packet[28..32].copy_from_slice(&encoded_ip([203, 0, 113, 7]).to_be_bytes());
    packet[32..34].copy_from_slice(&0x0006_u16.to_be_bytes());
    packet[34..36].copy_from_slice(&4_u16.to_be_bytes());

    assert!(parse_xor_mapped_address(&packet, transaction_id).is_err());
    assert_eq!(
        parse_xor_mapped_address(&packet, transaction_id),
        Err(StunError::TruncatedAttributeValue)
    );
}

#[test]
fn rejects_nonzero_xor_mapped_address_reserved_byte() {
    let transaction_id = [0x55; 12];
    let mut packet = success_packet(transaction_id, 12, 20 + 12);
    packet[20..22].copy_from_slice(&XOR_MAPPED_ADDRESS.to_be_bytes());
    packet[22..24].copy_from_slice(&8_u16.to_be_bytes());
    packet[24] = 1;
    packet[25] = 1;
    packet[26..28].copy_from_slice(&encoded_port(42_424).to_be_bytes());
    packet[28..32].copy_from_slice(&encoded_ip([203, 0, 113, 7]).to_be_bytes());

    assert!(parse_xor_mapped_address(&packet, transaction_id).is_err());
}

#[test]
fn ignores_nonzero_optional_attribute_padding() {
    let transaction_id = [0x66; 12];
    let mut packet = success_packet(transaction_id, 20, 20 + 20);
    packet[20..22].copy_from_slice(&0x8001_u16.to_be_bytes());
    packet[22..24].copy_from_slice(&1_u16.to_be_bytes());
    packet[24] = 0x42;
    packet[25..28].copy_from_slice(&[0xaa, 0xbb, 0xcc]);
    packet[28..30].copy_from_slice(&XOR_MAPPED_ADDRESS.to_be_bytes());
    packet[30..32].copy_from_slice(&8_u16.to_be_bytes());
    packet[33] = 1;
    packet[34..36].copy_from_slice(&encoded_port(42_424).to_be_bytes());
    packet[36..40].copy_from_slice(&encoded_ip([203, 0, 113, 7]).to_be_bytes());

    assert_eq!(parse_xor_mapped_address(&packet, transaction_id).unwrap(), public_endpoint());
}

#[test]
fn rejects_reserved_stun_attribute_type_zero() {
    let transaction_id = [0x66; 12];
    let mut packet = success_packet(transaction_id, 16, 20 + 16);
    packet[20..22].copy_from_slice(&XOR_MAPPED_ADDRESS.to_be_bytes());
    packet[22..24].copy_from_slice(&8_u16.to_be_bytes());
    packet[25] = 1;
    packet[26..28].copy_from_slice(&encoded_port(42_424).to_be_bytes());
    packet[28..32].copy_from_slice(&encoded_ip([203, 0, 113, 7]).to_be_bytes());
    packet[32..34].copy_from_slice(&0_u16.to_be_bytes());
    packet[34..36].copy_from_slice(&0_u16.to_be_bytes());

    assert!(parse_xor_mapped_address(&packet, transaction_id).is_err());
}

fn valid_packet(transaction_id: [u8; 12]) -> Vec<u8> {
    let mut packet = success_packet(transaction_id, 12, 20 + 12);
    packet[20..22].copy_from_slice(&XOR_MAPPED_ADDRESS.to_be_bytes());
    packet[22..24].copy_from_slice(&8_u16.to_be_bytes());
    packet[25] = 1;
    packet[26..28].copy_from_slice(&encoded_port(42_424).to_be_bytes());
    packet[28..32].copy_from_slice(&encoded_ip([203, 0, 113, 7]).to_be_bytes());
    packet
}

#[test]
fn names_each_stun_error() {
    let transaction_id = [0x77; 12];
    let packet = valid_packet(transaction_id);
    assert_eq!(parse_xor_mapped_address(&packet[..19], transaction_id), Err(StunError::ShortHeader));

    let mut wrong_type = packet.clone();
    wrong_type[1] = 0x11;
    assert_eq!(parse_xor_mapped_address(&wrong_type, transaction_id), Err(StunError::NotBindingSuccess));

    let mut no_cookie = packet.clone();
    no_cookie[7] = 0;
    assert_eq!(parse_xor_mapped_address(&no_cookie, transaction_id), Err(StunError::MissingMagicCookie));

    assert_eq!(parse_xor_mapped_address(&packet, [0x78; 12]), Err(StunError::TransactionMismatch));

    let mut unaligned = packet.clone();
    unaligned[3] = 11;
    assert_eq!(parse_xor_mapped_address(&unaligned, transaction_id), Err(StunError::UnalignedLength));

    assert_eq!(parse_xor_mapped_address(&packet[..28], transaction_id), Err(StunError::TruncatedBody));

    let mut trailing = packet.clone();
    trailing.push(0);
    assert_eq!(parse_xor_mapped_address(&trailing, transaction_id), Err(StunError::TrailingData));

    let mut short_attribute = success_packet(transaction_id, 4, 24);
    short_attribute[20..22].copy_from_slice(&0x8022_u16.to_be_bytes());
    short_attribute[22..24].copy_from_slice(&8_u16.to_be_bytes());
    assert_eq!(
        parse_xor_mapped_address(&short_attribute, transaction_id),
        Err(StunError::TruncatedAttributeValue)
    );

    let mut duplicate = success_packet(transaction_id, 24, 44);
    duplicate[20..32].copy_from_slice(&packet[20..32]);
    duplicate[32..44].copy_from_slice(&packet[20..32]);
    assert_eq!(
        parse_xor_mapped_address(&duplicate, transaction_id),
        Err(StunError::DuplicateMappedAddress)
    );

    let mut long_value = success_packet(transaction_id, 16, 36);
    long_value[20..22].copy_from_slice(&XOR_MAPPED_ADDRESS.to_be_bytes());
    long_value[22..24].copy_from_slice(&12_u16.to_be_bytes());
    long_value[25] = 1;
    assert_eq!(
        parse_xor_mapped_address(&long_value, transaction_id),
        Err(StunError::InvalidMappedAddressLength)
    );

    let mut ipv6_family = packet.clone();
    ipv6_family[25] = 2;
    assert_eq!(parse_xor_mapped_address(&ipv6_family, transaction_id), Err(StunError::NotIpv4));

    let mut zero_port = packet.clone();
    zero_port[26..28].copy_from_slice(&encoded_port(0).to_be_bytes());
    assert_eq!(parse_xor_mapped_address(&zero_port, transaction_id), Err(StunError::ZeroPort));

    let mut other_attribute = packet.clone();
    other_attribute[20..22].copy_from_slice(&0x8028_u16.to_be_bytes());
    assert_eq!(
        parse_xor_mapped_address(&other_attribute, transaction_id),
        Err(StunError::NoMappedAddress)
    );

    let empty_body = success_packet(transaction_id, 0, 20);
    assert_eq!(parse_xor_mapped_address(&empty_body, transaction_id), Err(StunError::NoMappedAddress));

    let mut header_only_attribute = success_packet(transaction_id, 4, 24);
    header_only_attribute[20..22].copy_from_slice(&0x8022_u16.to_be_bytes());
    assert_eq!(parse_xor_mapped_address(&header_only_attribute, transaction_id), Err(StunError::NoMappedAddress));
}

#[test]
fn decodes_address_and_port_by_xor_with_cookie() {
    let transaction_id = [0x01; 12];
    let mut packet = valid_packet(transaction_id);
    packet[26..28].copy_from_slice(&0x2113_u16.to_be_bytes());
    packet[28..32].copy_from_slice(&0x2112_A442_u32.to_be_bytes());
    assert_eq!(
        parse_xor_mapped_address(&packet, transaction_id).unwrap(),
        Endpoint { ip: 0, port: 1 }
    );
}

#[test]
fn encodes_binding_request() {
    let transaction_id = [1, 2, 3, 4, 5, 6, 7, 8, 9, 10, 11, 12];
    assert_eq!(
        stun_binding_request(transaction_id),
        [0x00, 0x01, 0x00, 0x00, 0x21, 0x12, 0xA4, 0x42, 1, 2, 3, 4, 5, 6, 7, 8, 9, 10, 11, 12]
    );
}

#[test]
fn builds_transaction_id_from_timestamp_and_counter() {
    let timestamp: u64 = 0x0102_0304_0506_0708;
    let counter: u64 = 0xAABB_CCDD_1122_3344;
    let mut expected = [0_u8; 12];
    expected[..8].copy_from_slice(&timestamp.to_be_bytes());
    expected[8..].copy_from_slice(&counter.to_be_bytes()[4..]);
    assert_eq!(next_transaction_id(timestamp, counter), expected);
    assert_eq!(
        next_transaction_id(timestamp, counter),
        [1, 2, 3, 4, 5, 6, 7, 8, 0x11, 0x22, 0x33, 0x44]
    );
}

#[test]
fn reads_response_length_from_header() {
    let mut header = [0_u8; 20];
    header[2] = 0x01;
    header[3] = 0x04;
    assert_eq!(stun_response_length(&header), 20 + 260);
    assert_eq!(stun_response_length(&[0; 20]), 20);
}

#[test]
fn request_transaction_id_is_echoed_by_accepted_response() {
    let transaction_id = next_transaction_id(42, 7);
    let request = stun_binding_request(transaction_id);
    let mut echoed = [0_u8; 12];
    echoed.copy_from_slice(&request[8..20]);
    let packet = valid_packet(echoed);
    assert_eq!(parse_xor_mapped_address(&packet, transaction_id).unwrap(), public_endpoint());
}

#[test]
fn consecutive_counters_give_distinct_ids() {
    assert_ne!(next_transaction_id(5, 41), next_transaction_id(5, 42));
    assert_ne!(next_transaction_id(5, 0xFFFF_FFFF), next_transaction_id(6, 0x1_0000_0000));
}
