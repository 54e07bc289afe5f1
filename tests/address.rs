use aquarius::address::{Host, Server};
use aquarius::error::AddressError;

fn round_trip(text: &str) -> String {
    Server::parse(text).unwrap().render()
}

#[test]
fn ipv4_loopback_can_be_parsed() {
    let server = Server::parse("127.0.0.1:8080").unwrap();
    assert_eq!(server, Server { host: Host::Ipv4(0x7f00_0001), port: 8080 });
}

#[test]
fn ipv6_loopback_can_be_parsed() {
    let server = Server::parse("[::1]:8080").unwrap();
    assert_eq!(server, Server { host: Host::localhost(), port: 8080 });
}

#[test]
fn localhost_port_can_be_parsed() {
    let server = Server::parse("localhost:8080").unwrap();
    assert_eq!(server, Server { host: Host::Domain("localhost".to_string()), port: 8080 });
}

#[test]
fn port_must_be_a_number() {
    assert_eq!(Server::parse("localhost:abc"), Err(AddressError::InvalidPort));
}

#[test]
fn port_must_be_a_u16() {
    const TOO_BIG: u32 = u16::MAX as u32 + 1;
    assert_eq!(Server::parse(&format!("localhost:{TOO_BIG}")), Err(AddressError::InvalidPort));
}

#[test]
fn port_bounds() {
    assert_eq!(Server::parse("localhost:0").unwrap().port, 0);
    assert_eq!(Server::parse("localhost:65535").unwrap().port, 65535);
    assert_eq!(Server::parse("localhost:65536"), Err(AddressError::InvalidPort));
    assert_eq!(Server::parse("localhost:"), Err(AddressError::InvalidPort));
    assert_eq!(Server::parse("localhost:+80").unwrap().port, 80);
    assert_eq!(Server::parse("localhost:-80"), Err(AddressError::InvalidPort));
    assert_eq!(Server::parse("localhost:0080").unwrap().port, 80);
}

#[test]
fn address_needs_a_colon() {
    assert_eq!(Server::parse("localhost"), Err(AddressError::MissingPort));
    assert_eq!(Server::parse(""), Err(AddressError::MissingPort));
}

#[test]
fn host_must_be_valid() {
    assert_eq!(Server::parse(":8080"), Err(AddressError::InvalidHost));
    assert_eq!(Server::parse("[::1:8080"), Err(AddressError::InvalidHost));
    assert_eq!(Server::parse("a b:8080"), Err(AddressError::InvalidHost));
}

#[test]
fn canonical_addresses_round_trip() {
    assert_eq!(round_trip("127.0.0.1:8080"), "127.0.0.1:8080");
    assert_eq!(round_trip("[::1]:8080"), "[::1]:8080");
    assert_eq!(round_trip("localhost:8080"), "localhost:8080");
    assert_eq!(round_trip("[2001:db8::8a2e:370:7334]:443"), "[2001:db8::8a2e:370:7334]:443");
}

#[test]
fn addresses_render_in_canonical_form() {
    assert_eq!(round_trip("LocalHost:080"), "localhost:80");
    assert_eq!(round_trip("[0:0:0:0:0:0:0:1]:1"), "[::1]:1");
    assert_eq!(Host::Ipv4(0x0a00_0102).to_text(), "10.0.1.2");
    assert_eq!(Host::localhost().to_text(), "[::1]");
}
