use send::network::Ipv4Address;
use send::transport::{ClientTransport, Transport, Transportable};

#[test]
fn address_from_octets() {
    let a = Ipv4Address::new(192, 168, 1, 2);
    assert_eq!(a.to_bits(), 0xc0a8_0102);
    assert_eq!(a.octets(), [192, 168, 1, 2]);
    assert_eq!(Ipv4Address::from_bits(0x7f00_0001), Ipv4Address::new(127, 0, 0, 1));
    assert_eq!(Ipv4Address::from_bits(u32::MAX).octets(), [255, 255, 255, 255]);
}

#[test]
fn address_transport_covers_all_32_bits() {
    let a = Ipv4Address::new(10, 1, 2, 3);
    let t = a.make_transport();
    assert_eq!(t.state(), 0x0a01_0203);
    assert_eq!(t.max_state(), u32::MAX);
    assert_eq!(Ipv4Address::from_transport(ClientTransport::new(t.state())), a);
}
