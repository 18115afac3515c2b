use bitcoin::BlockHash;
use electrum_discovery::address::{IpAddress, ServerAddr, Service};
use electrum_discovery::features::{ProtocolVersion, ServerFeatures};
use electrum_discovery::registry::{HealthyServers, Server};

fn features(max_minor: usize, pruning: Option<usize>) -> ServerFeatures {
    ServerFeatures {
        hosts: Vec::new(),
        genesis_hash: bitcoin::hashes::Hash::from_byte_array([7u8; 32]),
        server_version: "electrs-esplora 0.4.1".to_string(),
        protocol_min: ProtocolVersion::new(1, 0),
        protocol_max: ProtocolVersion::new(1, max_minor),
        pruning,
        hash_function: "sha256".to_string(),
    }
}

fn clearnet(n: u32) -> ServerAddr {
    ServerAddr::Clearnet(IpAddress::V4(n))
}

#[test]
fn new_server_has_no_service() {
    let server = Server::new("a.example".to_string(), features(4, None));
    assert!(server.services.is_empty());
    assert_eq!(server.hostname, "a.example");
    assert_eq!(server.features.protocol_max, ProtocolVersion::new(1, 4));
    assert_eq!(server.feature_strs(), vec!["v1.4".to_string()]);
}

#[test]
fn feature_strings_of_a_pruning_server_with_two_services() {
    let mut registry = HealthyServers::new();
    let addr = clearnet(0x01020304);
    let name = "electrum.example".to_string();
    registry.add_service(&addr, &name, Service::Tcp(60001), features(4, Some(100)));
    registry.add_service(&addr, &name, Service::Ssl(60002), features(4, Some(100)));
    let listing = registry.entries();
    assert_eq!(listing.len(), 1);
    assert_eq!(listing[0].0, addr);
    assert_eq!(listing[0].1, "electrum.example");
    assert_eq!(listing[0].2.len(), 4);
    assert_eq!(listing[0].2[0], "v1.4");
    assert_eq!(listing[0].2[1], "p100");
    let mut services = listing[0].2[2..].to_vec();
    services.sort();
    assert_eq!(services, vec!["s60002".to_string(), "t60001".to_string()]);
    assert_eq!(listing[0].2, vec!["v1.4", "p100", "t60001", "s60002"]);
}

#[test]
fn feature_strings_without_pruning_have_no_p() {
    let mut server = Server::new("a.example".to_string(), features(2, None));
    server.services.push(Service::Ssl(50002));
    assert_eq!(server.feature_strs(), vec!["v1.2", "s50002"]);
}

#[test]
fn feature_strings_with_pruning_depth_zero() {
    let server = Server::new("a.example".to_string(), features(4, Some(0)));
    assert_eq!(server.feature_strs(), vec!["v1.4", "p0"]);
}

#[test]
fn first_healthy_service_enters_the_server() {
    let mut registry = HealthyServers::new();
    assert_eq!(registry.len(), 0);
    assert!(registry.position(&clearnet(1)).is_none());
    registry.add_service(&clearnet(1), &"one.example".to_string(), Service::Tcp(1), features(4, None));
    assert_eq!(registry.len(), 1);
    assert_eq!(registry.position(&clearnet(1)), Some(0));
    assert!(registry.lists(&clearnet(1), Service::Tcp(1)));
    assert!(!registry.lists(&clearnet(1), Service::Ssl(1)));
    assert!(!registry.lists(&clearnet(2), Service::Tcp(1)));
}

#[test]
fn later_service_keeps_the_first_host_name_and_features() {
    let mut registry = HealthyServers::new();
    registry.add_service(&clearnet(1), &"first.example".to_string(), Service::Tcp(1), features(4, None));
    registry.add_service(&clearnet(1), &"second.example".to_string(), Service::Ssl(2), features(5, Some(9)));
    assert_eq!(registry.len(), 1);
    let listing = registry.entries();
    assert_eq!(listing[0].1, "first.example");
    assert_eq!(listing[0].2, vec!["v1.4", "t1", "s2"]);
}

#[test]
fn server_leaves_with_its_last_service() {
    let mut registry = HealthyServers::new();
    let name = "one.example".to_string();
    registry.add_service(&clearnet(1), &name, Service::Tcp(1), features(4, None));
    registry.add_service(&clearnet(1), &name, Service::Ssl(2), features(4, None));
    registry.add_service(&clearnet(2), &name, Service::Tcp(1), features(4, None));
    registry.drop_service(&clearnet(1), Service::Tcp(1));
    assert_eq!(registry.len(), 2);
    assert!(!registry.lists(&clearnet(1), Service::Tcp(1)));
    assert!(registry.lists(&clearnet(1), Service::Ssl(2)));
    registry.drop_service(&clearnet(1), Service::Ssl(2));
    assert_eq!(registry.len(), 1);
    assert!(registry.position(&clearnet(1)).is_none());
    assert_eq!(registry.position(&clearnet(2)), Some(0));
    registry.drop_service(&clearnet(2), Service::Tcp(1));
    assert_eq!(registry.len(), 0);
    assert!(registry.entries().is_empty());
}

#[test]
fn directory_lists_servers_in_the_order_they_came() {
    let mut registry = HealthyServers::new();
    let onion = ServerAddr::Onion("abc.onion".to_string());
    registry.add_service(&clearnet(9), &"nine.example".to_string(), Service::Tcp(50001), features(4, None));
    registry.add_service(&onion, &"abc.onion".to_string(), Service::Tcp(143), features(4, Some(2016)));
    let listing = registry.entries();
    assert_eq!(listing.len(), 2);
    assert_eq!(listing[0].0, clearnet(9));
    assert_eq!(listing[0].2, vec!["v1.4", "t50001"]);
    assert_eq!(listing[1].0, onion);
    assert_eq!(listing[1].1, "abc.onion");
    assert_eq!(listing[1].2, vec!["v1.4", "p2016", "t143"]);
}
