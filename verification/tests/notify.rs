use punchhole::endpoint::{Endpoint, ipv4_string};
use punchhole::notify::script_arguments;
use punchhole::text::decimal_string;

#[test]
fn builds_three_separate_script_arguments() {
    assert_eq!(
        script_arguments(Endpoint::new(203, 0, 113, 7, 42424), 10001),
        vec!["203.0.113.7", "42424", "10001"]
    );
}

#[test]
fn formats_decimal_numbers() {
    assert_eq!(decimal_string(0), "0");
    assert_eq!(decimal_string(7), "7");
    assert_eq!(decimal_string(10), "10");
    assert_eq!(decimal_string(65535), "65535");
    assert_eq!(decimal_string(u64::MAX), u64::MAX.to_string());
}

#[test]
fn formats_dotted_ipv4_addresses() {
    assert_eq!(ipv4_string(0), "0.0.0.0");
    assert_eq!(ipv4_string(u32::MAX), "255.255.255.255");
    assert_eq!(ipv4_string(0x7f00_0001), "127.0.0.1");
    assert_eq!(Endpoint::new(10, 0, 255, 1, 1).ip, 0x0a00_ff01);
}
