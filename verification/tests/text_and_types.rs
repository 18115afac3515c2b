use electrum_discovery::address::{IpAddress, Lookup, ServerAddr, Service};
use electrum_discovery::error::{DiscoveryError, Incompatibility, ProbeFailure};
use electrum_discovery::features::ProtocolVersion;
use electrum_discovery::text::{ends_with, push_decimal, tagged_decimal};

fn found(looked_up: Option<IpAddress>) -> Lookup {
    Lookup { literal: None, resolved: looked_up }
}

#[test]
fn decimal_of_zero_is_one_digit() {
    let mut s = String::new();
    push_decimal(&mut s, 0);
    assert_eq!(s, "0");
}

#[test]
fn decimal_of_small_and_large_numbers() {
    assert_eq!(tagged_decimal("", 7), "7");
    assert_eq!(tagged_decimal("", 10), "10");
    assert_eq!(tagged_decimal("", 100), "100");
    assert_eq!(tagged_decimal("", 60001), "60001");
    assert_eq!(tagged_decimal("", 1234567890), "1234567890");
    assert_eq!(tagged_decimal("", u64::MAX), "18446744073709551615");
}

#[test]
fn decimal_is_appended_to_what_is_there() {
    let mut s = String::from("port ");
    push_decimal(&mut s, 50002);
    assert_eq!(s, "port 50002");
    push_decimal(&mut s, 9);
    assert_eq!(s, "port 500029");
}

#[test]
fn decimal_agrees_with_the_standard_rendering() {
    let samples: [u64; 9] = [0, 1, 9, 10, 11, 99, 101, 65535, 4294967296];
    for n in samples {
        assert_eq!(tagged_decimal("p", n), format!("p{}", n));
    }
}

#[test]
fn suffix_test_on_plain_strings() {
    assert!(ends_with("abc.onion", ".onion"));
    assert!(ends_with(".onion", ".onion"));
    assert!(!ends_with("onion", ".onion"));
    assert!(!ends_with("abc.onion.", ".onion"));
    assert!(!ends_with("abc.onio", ".onion"));
    assert!(ends_with("anything", ""));
    assert!(ends_with("", ""));
    assert!(!ends_with("", "x"));
}

#[test]
fn suffix_test_counts_characters_not_bytes() {
    assert!(ends_with("été.onion", ".onion"));
    assert!(ends_with("日本語", "本語"));
    assert!(!ends_with("日本語", "日本"));
}

#[test]
fn service_is_written_with_its_letter_and_port() {
    assert_eq!(Service::Tcp(60001).to_string(), "t60001");
    assert_eq!(Service::Ssl(60002).to_string(), "s60002");
    assert_eq!(Service::Tcp(0).to_string(), "t0");
    assert_eq!(Service::Ssl(65535).to_string(), "s65535");
}

#[test]
fn services_are_equal_by_kind_and_port() {
    assert_eq!(Service::Tcp(50001), Service::Tcp(50001));
    assert_ne!(Service::Tcp(50001), Service::Ssl(50001));
    assert_ne!(Service::Tcp(50001), Service::Tcp(50002));
}

#[test]
fn protocol_version_is_written_with_a_dot() {
    assert_eq!(ProtocolVersion::new(1, 4).to_string(), "1.4");
    assert_eq!(ProtocolVersion::new(0, 0).to_string(), "0.0");
    assert_eq!(ProtocolVersion::new(12, 345).to_string(), "12.345");
}

#[test]
fn protocol_versions_are_ordered_by_major_then_minor() {
    let v = ProtocolVersion::new;
    assert!(v(1, 0).is_at_most(&v(1, 4)));
    assert!(v(1, 4).is_at_most(&v(1, 4)));
    assert!(!v(1, 4).is_at_most(&v(1, 2)));
    assert!(v(1, 9).is_at_most(&v(2, 0)));
    assert!(!v(2, 0).is_at_most(&v(1, 9)));
    assert!(v(1, 2) < v(1, 4));
    assert!(v(1, 10) > v(1, 9));
}

#[test]
fn onion_names_are_told_by_their_suffix() {
    assert!(ServerAddr::is_onion(
        "explorerzydxu5ecjrkwceayqybizmpjjznk5izmitf2modhcusuqlid.onion"
    ));
    assert!(!ServerAddr::is_onion("electrum.blockstream.info"));
    assert!(!ServerAddr::is_onion("onion"));
    assert!(!ServerAddr::is_onion("example.onion.com"));
}

#[test]
fn onion_name_resolves_to_itself_without_a_lookup() {
    let addr = ServerAddr::resolve("abcdef.onion", found(None));
    assert_eq!(addr, Ok(ServerAddr::Onion("abcdef.onion".to_string())));
    let addr = ServerAddr::resolve("abcdef.onion", found(Some(IpAddress::V4(0x7f000001))));
    assert_eq!(addr, Ok(ServerAddr::Onion("abcdef.onion".to_string())));
}

#[test]
fn other_name_resolves_to_what_was_looked_up() {
    let ip = IpAddress::V4(0x0a000001);
    assert_eq!(ServerAddr::resolve("tn.not.fyi", found(Some(ip))), Ok(ServerAddr::Clearnet(ip)));
    let ip6 = IpAddress::V6(1);
    assert_eq!(ServerAddr::resolve("localhost", found(Some(ip6))), Ok(ServerAddr::Clearnet(ip6)));
}

#[test]
fn name_that_was_not_found_fails_to_resolve() {
    assert_eq!(ServerAddr::resolve("tn.not.fyi", found(None)), Err(DiscoveryError::ResolutionError));
    assert_eq!(ServerAddr::resolve("", found(None)), Err(DiscoveryError::ResolutionError));
}

#[test]
fn addresses_compare_by_kind_and_value() {
    let a = ServerAddr::Clearnet(IpAddress::V4(1));
    let b = ServerAddr::Clearnet(IpAddress::V6(1));
    let c = ServerAddr::Onion("x.onion".to_string());
    assert!(a.same_as(&a.clone()));
    assert!(!a.same_as(&b));
    assert!(!a.same_as(&c));
    assert!(c.same_as(&ServerAddr::Onion("x.onion".to_string())));
    assert!(!c.same_as(&ServerAddr::Onion("y.onion".to_string())));
    assert_eq!(c.clone(), c);
}

#[test]
fn every_error_has_its_message() {
    assert_eq!(DiscoveryError::ResolutionError.message(), "hostname resolution failed");
    assert_eq!(
        DiscoveryError::IncompatiblePeer(Incompatibility::Network).message(),
        "incompatible networks"
    );
    assert_eq!(
        DiscoveryError::IncompatiblePeer(Incompatibility::ProtocolVersion).message(),
        "incompatible protocol versions"
    );
    assert_eq!(
        DiscoveryError::IncompatiblePeer(Incompatibility::HashFunction).message(),
        "incompatible hash function"
    );
    assert_eq!(DiscoveryError::QueueFull.message(), "queue size exceeded");
    assert_eq!(DiscoveryError::NoNewEntries.message(), "no new valid entries");
    assert_eq!(
        DiscoveryError::ProbeFailure(ProbeFailure::NoProxyConfigured).message(),
        "no tor proxy configured, onion hosts are unsupported"
    );
    assert_eq!(
        DiscoveryError::ProbeFailure(ProbeFailure::UnsupportedTransport).message(),
        "ssl over onion is unsupported"
    );
    assert_eq!(
        DiscoveryError::ProbeFailure(ProbeFailure::Unreachable).message(),
        "peer is unreachable"
    );
}
