use send::network::Ipv4Address;
use send::text::{decimal_text, signed_decimal_text};

#[test]
fn decimals() {
    assert_eq!(decimal_text(0), "0");
    assert_eq!(decimal_text(7), "7");
    assert_eq!(decimal_text(10), "10");
    assert_eq!(decimal_text(2222), "2222");
    assert_eq!(decimal_text(u64::MAX), "18446744073709551615");
    assert_eq!(signed_decimal_text(-3), "-3");
    assert_eq!(signed_decimal_text(i64::MIN), "-9223372036854775808");
    assert_eq!(signed_decimal_text(42), "42");
}

#[test]
fn dotted_addresses() {
    assert_eq!(Ipv4Address::new(127, 0, 0, 1).dotted(), "127.0.0.1");
    assert_eq!(Ipv4Address::from_bits(u32::MAX).dotted(), "255.255.255.255");
    assert_eq!(Ipv4Address::from_bits(0).dotted(), "0.0.0.0");
}
