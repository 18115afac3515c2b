use bitcoin::BlockHash;
use electrum_discovery::address::{Hostname, IpAddress, Lookup, ServerAddr, Service};
use electrum_discovery::admission::{
    collect_jobs, find_address, must_look_up, names_to_look_up, vet_host, vet_name,
};
use electrum_discovery::error::{DiscoveryError, Incompatibility};
use electrum_discovery::features::{ProtocolVersion, ServerFeatures, ServerPorts};
use electrum_discovery::manager::DiscoveryManager;
use electrum_discovery::queue::JobQueue;

fn found(looked_up: Option<IpAddress>) -> Lookup {
    Lookup { literal: None, resolved: looked_up }
}

const REPORTER: IpAddress = IpAddress::V4(0xc0a80001);
const STRANGER: IpAddress = IpAddress::V4(0xc0a80002);

fn our_hash() -> BlockHash {
    bitcoin::hashes::Hash::from_byte_array([7u8; 32])
}

fn manager() -> DiscoveryManager {
    DiscoveryManager::new(our_hash(), ProtocolVersion::new(1, 4), None)
}

fn ports(tcp: Option<u16>, ssl: Option<u16>) -> ServerPorts {
    ServerPorts { tcp_port: tcp, ssl_port: ssl }
}

fn announcing(hosts: Vec<(&str, ServerPorts)>) -> ServerFeatures {
    ServerFeatures {
        hosts: hosts.into_iter().map(|(h, p)| (h.to_string(), p)).collect(),
        genesis_hash: our_hash(),
        server_version: "electrs 0.8".to_string(),
        protocol_min: ProtocolVersion::new(1, 0),
        protocol_max: ProtocolVersion::new(1, 4),
        pruning: None,
        hash_function: "sha256".to_string(),
    }
}

fn table(lines: Vec<(&str, IpAddress)>) -> Vec<(Hostname, Lookup)> {
    lines.into_iter().map(|(h, ip)| (h.to_string(), found(Some(ip)))).collect()
}

fn queued(manager: &DiscoveryManager) -> Vec<(ServerAddr, String, Service)> {
    manager.queue.jobs.iter().map(|j| (j.addr.clone(), j.hostname.clone(), j.service)).collect()
}

#[test]
fn table_gives_the_first_address_of_a_name() {
    let t = table(vec![("a.example", REPORTER), ("b.example", STRANGER), ("a.example", STRANGER)]);
    assert_eq!(find_address(&t, &"a.example".to_string()), found(Some(REPORTER)));
    assert_eq!(find_address(&t, &"b.example".to_string()), found(Some(STRANGER)));
    assert_eq!(find_address(&t, &"c.example".to_string()), Lookup::nothing());
    assert_eq!(find_address(&Vec::new(), &"a.example".to_string()), Lookup::nothing());
}

#[test]
fn announced_host_at_the_reporting_address_is_admitted() {
    let mut m = manager();
    let features = announcing(vec![("a.example", ports(Some(50001), Some(50002)))]);
    let r = m.add_server_request(REPORTER, features, &table(vec![("a.example", REPORTER)]));
    assert_eq!(r, Ok(()));
    assert_eq!(
        queued(&m),
        vec![
            (ServerAddr::Clearnet(REPORTER), "a.example".to_string(), Service::Tcp(50001)),
            (ServerAddr::Clearnet(REPORTER), "a.example".to_string(), Service::Ssl(50002)),
        ]
    );
    for job in m.queue.jobs.iter() {
        assert!(!job.is_default);
        assert_eq!(job.added_by, Some(REPORTER));
        assert_eq!(job.last_check, None);
        assert_eq!(job.last_healthy, None);
        assert_eq!(job.consecutive_failures, 0);
    }
    assert_eq!(m.healthy.len(), 0);
}

#[test]
fn announced_host_at_another_address_is_never_admitted() {
    let mut m = manager();
    let features = announcing(vec![
        ("victim.example", ports(Some(50001), Some(50002))),
        ("me.example", ports(Some(50001), None)),
    ]);
    let lookups = table(vec![("victim.example", STRANGER), ("me.example", REPORTER)]);
    assert_eq!(m.add_server_request(REPORTER, features, &lookups), Ok(()));
    assert_eq!(
        queued(&m),
        vec![(ServerAddr::Clearnet(REPORTER), "me.example".to_string(), Service::Tcp(50001))]
    );
}

#[test]
fn announcement_of_other_hosts_only_adds_nothing() {
    let mut m = manager();
    let features = announcing(vec![("victim.example", ports(Some(50001), Some(50002)))]);
    let lookups = table(vec![("victim.example", STRANGER)]);
    assert_eq!(
        m.add_server_request(REPORTER, features, &lookups),
        Err(DiscoveryError::NoNewEntries)
    );
    assert_eq!(m.queue.len(), 0);
}

#[test]
fn address_families_are_told_apart() {
    let mut m = manager();
    let features = announcing(vec![("six.example", ports(Some(50001), None))]);
    let lookups = table(vec![("six.example", IpAddress::V6(0xc0a80001))]);
    assert_eq!(
        m.add_server_request(REPORTER, features, &lookups),
        Err(DiscoveryError::NoNewEntries)
    );
}

#[test]
fn onion_host_is_admitted_whoever_announces_it() {
    let mut m = manager();
    let features = announcing(vec![("hiddenservice.onion", ports(Some(143), None))]);
    assert_eq!(m.add_server_request(REPORTER, features, &Vec::new()), Ok(()));
    assert_eq!(
        queued(&m),
        vec![(
            ServerAddr::Onion("hiddenservice.onion".to_string()),
            "hiddenservice.onion".to_string(),
            Service::Tcp(143)
        )]
    );
    assert_eq!(m.queue.jobs[0].added_by, Some(REPORTER));
}

#[test]
fn host_name_is_put_in_lower_case() {
    let mut m = manager();
    let features = announcing(vec![
        ("HiddenService.ONION", ports(Some(143), None)),
        ("Me.Example", ports(None, Some(50002))),
    ]);
    let lookups = table(vec![("me.example", REPORTER)]);
    assert_eq!(m.add_server_request(REPORTER, features, &lookups), Ok(()));
    assert_eq!(
        queued(&m),
        vec![
            (
                ServerAddr::Onion("hiddenservice.onion".to_string()),
                "hiddenservice.onion".to_string(),
                Service::Tcp(143)
            ),
            (ServerAddr::Clearnet(REPORTER), "me.example".to_string(), Service::Ssl(50002)),
        ]
    );
}

#[test]
fn lookup_is_made_under_the_lower_case_name() {
    let mut m = manager();
    let features = announcing(vec![("Me.Example", ports(None, Some(50002)))]);
    let lookups = table(vec![("Me.Example", REPORTER)]);
    assert_eq!(
        m.add_server_request(REPORTER, features, &lookups),
        Err(DiscoveryError::NoNewEntries)
    );
}

#[test]
fn host_name_length_is_counted_in_characters() {
    let name = format!("{}.onion", "é".repeat(94));
    assert_eq!(name.chars().count(), 100);
    assert_eq!(name.len(), 194);
    let longer = format!("{}.onion", "é".repeat(95));
    let mut m = manager();
    let features = announcing(vec![
        (longer.as_str(), ports(Some(1), None)),
        (name.as_str(), ports(Some(2), None)),
    ]);
    assert_eq!(m.add_server_request(REPORTER, features, &Vec::new()), Ok(()));
    assert_eq!(queued(&m), vec![(ServerAddr::Onion(name.clone()), name, Service::Tcp(2))]);
}

#[test]
fn host_name_of_more_than_a_hundred_characters_is_passed_over() {
    let long = format!("{}.onion", "a".repeat(95));
    assert_eq!(long.len(), 101);
    let just = format!("{}.onion", "b".repeat(94));
    assert_eq!(just.len(), 100);
    let mut m = manager();
    let features = announcing(vec![
        (long.as_str(), ports(Some(1), None)),
        (just.as_str(), ports(Some(2), None)),
    ]);
    assert_eq!(m.add_server_request(REPORTER, features, &Vec::new()), Ok(()));
    assert_eq!(queued(&m), vec![(ServerAddr::Onion(just.clone()), just, Service::Tcp(2))]);
}

#[test]
fn host_that_does_not_resolve_is_passed_over() {
    let mut m = manager();
    let features = announcing(vec![
        ("gone.example", ports(Some(1), None)),
        ("me.example", ports(Some(2), None)),
    ]);
    let lookups = table(vec![("me.example", REPORTER)]);
    assert_eq!(m.add_server_request(REPORTER, features, &lookups), Ok(()));
    assert_eq!(
        queued(&m),
        vec![(ServerAddr::Clearnet(REPORTER), "me.example".to_string(), Service::Tcp(2))]
    );
}

#[test]
fn only_the_first_three_hosts_are_read() {
    let mut m = manager();
    let features = announcing(vec![
        ("a.onion", ports(Some(1), None)),
        ("b.onion", ports(Some(2), None)),
        ("c.onion", ports(Some(3), None)),
        ("d.onion", ports(Some(4), None)),
    ]);
    assert_eq!(m.add_server_request(REPORTER, features, &Vec::new()), Ok(()));
    let services: Vec<Service> = m.queue.jobs.iter().map(|j| j.service).collect();
    assert_eq!(services, vec![Service::Tcp(1), Service::Tcp(2), Service::Tcp(3)]);
}

#[test]
fn three_hosts_with_two_services_each_add_six_jobs() {
    let mut m = manager();
    let features = announcing(vec![
        ("a.onion", ports(Some(1), Some(2))),
        ("b.onion", ports(Some(3), Some(4))),
        ("c.onion", ports(Some(5), Some(6))),
    ]);
    assert_eq!(m.add_server_request(REPORTER, features, &Vec::new()), Ok(()));
    assert_eq!(m.queue.len(), 6);
}

#[test]
fn service_that_is_pending_is_not_added_again() {
    let mut m = manager();
    let lookups = table(vec![("me.example", REPORTER)]);
    let first = announcing(vec![("me.example", ports(Some(50001), None))]);
    assert_eq!(m.add_server_request(REPORTER, first, &lookups), Ok(()));
    let second = announcing(vec![("me.example", ports(Some(50001), Some(50002)))]);
    assert_eq!(m.add_server_request(REPORTER, second, &lookups), Ok(()));
    assert_eq!(
        queued(&m),
        vec![
            (ServerAddr::Clearnet(REPORTER), "me.example".to_string(), Service::Tcp(50001)),
            (ServerAddr::Clearnet(REPORTER), "me.example".to_string(), Service::Ssl(50002)),
        ]
    );
    let third = announcing(vec![("me.example", ports(Some(50001), Some(50002)))]);
    assert_eq!(m.add_server_request(REPORTER, third, &lookups), Err(DiscoveryError::NoNewEntries));
    assert_eq!(m.queue.len(), 2);
}

#[test]
fn announcement_without_hosts_adds_nothing() {
    let mut m = manager();
    assert_eq!(
        m.add_server_request(REPORTER, announcing(Vec::new()), &Vec::new()),
        Err(DiscoveryError::NoNewEntries)
    );
    let no_ports = announcing(vec![("a.onion", ports(None, None))]);
    assert_eq!(
        m.add_server_request(REPORTER, no_ports, &Vec::new()),
        Err(DiscoveryError::NoNewEntries)
    );
}

#[test]
fn peer_of_another_network_is_turned_down() {
    let mut m = manager();
    let mut features = announcing(vec![("a.onion", ports(Some(1), None))]);
    features.genesis_hash = bitcoin::hashes::Hash::from_byte_array([8u8; 32]);
    assert_eq!(
        m.add_server_request(REPORTER, features, &Vec::new()),
        Err(DiscoveryError::IncompatiblePeer(Incompatibility::Network))
    );
    assert_eq!(m.queue.len(), 0);
}

#[test]
fn peer_whose_protocol_range_excludes_our_version_is_rejected() {
    let m = manager();
    let mut features = announcing(Vec::new());
    features.protocol_min = ProtocolVersion::new(1, 0);
    features.protocol_max = ProtocolVersion::new(1, 2);
    assert_eq!(
        m.verify_compatibility(&features),
        Err(DiscoveryError::IncompatiblePeer(Incompatibility::ProtocolVersion))
    );
    features.protocol_min = ProtocolVersion::new(1, 5);
    features.protocol_max = ProtocolVersion::new(2, 0);
    assert_eq!(
        m.verify_compatibility(&features),
        Err(DiscoveryError::IncompatiblePeer(Incompatibility::ProtocolVersion))
    );
}

#[test]
fn peer_whose_protocol_range_holds_our_version_is_fit() {
    let m = manager();
    let mut features = announcing(Vec::new());
    assert_eq!(m.verify_compatibility(&features), Ok(()));
    features.protocol_min = ProtocolVersion::new(1, 4);
    features.protocol_max = ProtocolVersion::new(1, 4);
    assert_eq!(m.verify_compatibility(&features), Ok(()));
    features.protocol_min = ProtocolVersion::new(0, 9);
    features.protocol_max = ProtocolVersion::new(2, 0);
    assert_eq!(m.verify_compatibility(&features), Ok(()));
}

#[test]
fn peer_with_another_hash_function_is_turned_down() {
    let m = manager();
    let mut features = announcing(Vec::new());
    features.hash_function = "sha512".to_string();
    assert_eq!(
        m.verify_compatibility(&features),
        Err(DiscoveryError::IncompatiblePeer(Incompatibility::HashFunction))
    );
    features.hash_function = "SHA256".to_string();
    assert_eq!(
        m.verify_compatibility(&features),
        Err(DiscoveryError::IncompatiblePeer(Incompatibility::HashFunction))
    );
}

#[test]
fn network_is_looked_at_before_version_and_hash_function() {
    let m = manager();
    let mut features = announcing(Vec::new());
    features.hash_function = "md5".to_string();
    features.protocol_max = ProtocolVersion::new(1, 1);
    assert_eq!(
        m.verify_compatibility(&features),
        Err(DiscoveryError::IncompatiblePeer(Incompatibility::ProtocolVersion))
    );
    features.genesis_hash = bitcoin::hashes::Hash::all_zeros();
    assert_eq!(
        m.verify_compatibility(&features),
        Err(DiscoveryError::IncompatiblePeer(Incompatibility::Network))
    );
}

#[test]
fn genesis_hashes_of_two_networks_differ() {
    let mainnet = bitcoin::blockdata::constants::genesis_block(bitcoin::Network::Bitcoin).block_hash();
    let testnet = bitcoin::blockdata::constants::genesis_block(bitcoin::Network::Testnet).block_hash();
    let m = DiscoveryManager::new(testnet, ProtocolVersion::new(1, 4), None);
    let mut features = announcing(Vec::new());
    features.genesis_hash = testnet;
    assert_eq!(m.verify_compatibility(&features), Ok(()));
    features.genesis_hash = mainnet;
    assert_eq!(
        m.verify_compatibility(&features),
        Err(DiscoveryError::IncompatiblePeer(Incompatibility::Network))
    );
}

fn fill(m: &mut DiscoveryManager, n: u16) {
    let services: Vec<Service> = (0..n).map(Service::Tcp).collect();
    assert_eq!(m.add_default_server("seed.onion".to_string(), services, found(None)), Ok(()));
}

#[test]
fn full_queue_takes_no_announcement() {
    let mut m = manager();
    fill(&mut m, 500);
    let features = announcing(vec![("a.onion", ports(Some(1), None))]);
    assert_eq!(m.hosts_to_look_up(&features), Err(DiscoveryError::QueueFull));
    assert_eq!(m.add_server_request(REPORTER, features, &Vec::new()), Err(DiscoveryError::QueueFull));
    assert_eq!(m.queue.len(), 500);
}

#[test]
fn announcement_that_would_overfill_the_queue_adds_none_of_its_jobs() {
    let mut m = manager();
    fill(&mut m, 499);
    let two = announcing(vec![("a.onion", ports(Some(1), Some(2)))]);
    assert_eq!(m.add_server_request(REPORTER, two, &Vec::new()), Err(DiscoveryError::NoNewEntries));
    assert_eq!(m.queue.len(), 499);
    let one = announcing(vec![("a.onion", ports(Some(1), None))]);
    assert_eq!(m.add_server_request(REPORTER, one, &Vec::new()), Ok(()));
    assert_eq!(m.queue.len(), 500);
}

#[test]
fn default_servers_are_exempt_from_the_bound_on_the_queue() {
    let mut m = manager();
    fill(&mut m, 500);
    fill(&mut m, 3);
    assert_eq!(m.queue.len(), 503);
}

#[test]
fn default_server_gets_one_default_job_per_service() {
    let mut m = manager();
    let ip = IpAddress::V4(0x01010101);
    let r = m.add_default_server(
        "tn.not.fyi".to_string(),
        vec![Service::Tcp(55001), Service::Ssl(55002)],
        found(Some(ip)),
    );
    assert_eq!(r, Ok(()));
    assert_eq!(
        queued(&m),
        vec![
            (ServerAddr::Clearnet(ip), "tn.not.fyi".to_string(), Service::Tcp(55001)),
            (ServerAddr::Clearnet(ip), "tn.not.fyi".to_string(), Service::Ssl(55002)),
        ]
    );
    for job in m.queue.jobs.iter() {
        assert!(job.is_default);
        assert_eq!(job.added_by, None);
        assert_eq!(job.last_check, None);
    }
}

#[test]
fn default_server_that_does_not_resolve_is_not_added() {
    let mut m = manager();
    let r = m.add_default_server("tn.not.fyi".to_string(), vec![Service::Tcp(55001)], found(None));
    assert_eq!(r, Err(DiscoveryError::ResolutionError));
    assert_eq!(m.queue.len(), 0);
}

#[test]
fn default_server_name_is_kept_as_given() {
    let mut m = manager();
    let r = m.add_default_server("Seed.ONION".to_string(), vec![Service::Tcp(1)], found(None));
    assert_eq!(r, Err(DiscoveryError::ResolutionError));
    let r = m.add_default_server("Seed.onion".to_string(), vec![Service::Tcp(1)], found(None));
    assert_eq!(r, Ok(()));
    assert_eq!(m.queue.jobs[0].addr, ServerAddr::Onion("Seed.onion".to_string()));
}

#[test]
fn names_to_look_up_are_the_clearnet_names_in_lower_case() {
    let m = manager();
    let long = "x".repeat(101);
    let features = announcing(vec![
        ("A.Example", ports(Some(1), None)),
        ("b.ONION", ports(Some(1), None)),
        (long.as_str(), ports(Some(1), None)),
        ("d.example", ports(Some(1), None)),
    ]);
    assert_eq!(m.hosts_to_look_up(&features), Ok(vec!["a.example".to_string()]));
    assert_eq!(names_to_look_up(&features.hosts), vec!["a.example".to_string()]);
}

#[test]
fn no_name_is_looked_up_for_an_unfit_peer() {
    let m = manager();
    let mut features = announcing(vec![("a.example", ports(Some(1), None))]);
    features.hash_function = "blake2".to_string();
    assert_eq!(
        m.hosts_to_look_up(&features),
        Err(DiscoveryError::IncompatiblePeer(Incompatibility::HashFunction))
    );
}

#[test]
fn vetting_a_host_gives_its_address_and_lower_case_name() {
    let t = table(vec![("a.example", REPORTER)]);
    assert_eq!(
        vet_host(REPORTER, &t, &"A.EXAMPLE".to_string()),
        Some((ServerAddr::Clearnet(REPORTER), "a.example".to_string()))
    );
    assert_eq!(vet_host(STRANGER, &t, &"a.example".to_string()), None);
    assert_eq!(vet_host(REPORTER, &t, &"b.example".to_string()), None);
    assert_eq!(
        vet_host(STRANGER, &t, &"B.Onion".to_string()),
        Some((ServerAddr::Onion("b.onion".to_string()), "b.onion".to_string()))
    );
}

#[test]
fn two_names_of_one_address_bring_one_job_for_one_service() {
    let q = JobQueue::new();
    let hosts = vec![
        ("a.example".to_string(), ports(Some(50001), None)),
        ("b.example".to_string(), ports(Some(50001), Some(50002))),
    ];
    let t = table(vec![("a.example", REPORTER), ("b.example", REPORTER)]);
    let jobs = collect_jobs(&q, REPORTER, &hosts, &t);
    assert_eq!(jobs.len(), 2);
    assert_eq!(jobs[0].hostname, "a.example");
    assert_eq!(jobs[0].service, Service::Tcp(50001));
    assert_eq!(jobs[1].hostname, "b.example");
    assert_eq!(jobs[1].service, Service::Ssl(50002));
    assert_eq!(jobs[0].addr, jobs[1].addr);
}

#[test]
fn two_spellings_of_one_onion_name_bring_one_job() {
    let mut m = manager();
    let features = announcing(vec![
        ("A.onion", ports(Some(50001), None)),
        ("a.onion", ports(Some(50001), None)),
    ]);
    assert_eq!(m.add_server_request(IpAddress::V4(0x0a000001), features, &Vec::new()), Ok(()));
    assert_eq!(m.queue.len(), 1);
    assert_eq!(
        queued(&m),
        vec![(ServerAddr::Onion("a.onion".to_string()), "a.onion".to_string(), Service::Tcp(50001))]
    );
}

#[test]
fn name_that_is_announced_twice_brings_its_jobs_once() {
    let mut m = manager();
    let features = announcing(vec![
        ("me.example", ports(Some(50001), Some(50002))),
        ("me.example", ports(Some(50001), Some(50002))),
        ("me.example", ports(Some(50003), None)),
    ]);
    let lookups = table(vec![("me.example", REPORTER)]);
    assert_eq!(m.add_server_request(REPORTER, features, &lookups), Ok(()));
    let services: Vec<Service> = m.queue.jobs.iter().map(|j| j.service).collect();
    assert_eq!(services, vec![Service::Tcp(50001), Service::Ssl(50002), Service::Tcp(50003)]);
}

#[test]
fn announcement_that_only_repeats_itself_after_the_queue_adds_nothing() {
    let mut m = manager();
    let lookups = table(vec![("a.example", REPORTER), ("b.example", REPORTER)]);
    let first = announcing(vec![("a.example", ports(Some(50001), None))]);
    assert_eq!(m.add_server_request(REPORTER, first, &lookups), Ok(()));
    let second = announcing(vec![
        ("b.example", ports(Some(50001), None)),
        ("a.example", ports(Some(50001), None)),
    ]);
    assert_eq!(m.add_server_request(REPORTER, second, &lookups), Err(DiscoveryError::NoNewEntries));
    assert_eq!(m.queue.len(), 1);
}

#[test]
fn ip_literal_goes_before_what_name_resolution_gave() {
    let both = Lookup { literal: Some(REPORTER), resolved: Some(STRANGER) };
    assert_eq!(both.found(), Some(REPORTER));
    assert_eq!(found(Some(STRANGER)).found(), Some(STRANGER));
    assert_eq!(Lookup::nothing().found(), None);
    assert_eq!(Lookup::nothing(), Lookup { literal: None, resolved: None });
    assert_eq!(ServerAddr::resolve("192.168.0.1", both), Ok(ServerAddr::Clearnet(REPORTER)));
    assert_eq!(
        ServerAddr::resolve("x.onion", both),
        Ok(ServerAddr::Onion("x.onion".to_string()))
    );
    let mut m = manager();
    let features = announcing(vec![("192.168.0.1", ports(Some(50001), None))]);
    let lookups = vec![("192.168.0.1".to_string(), both)];
    assert_eq!(m.add_server_request(REPORTER, features, &lookups), Ok(()));
    assert_eq!(m.queue.jobs[0].addr, ServerAddr::Clearnet(REPORTER));
}

#[test]
fn name_resolution_is_asked_for_names_that_are_neither_onion_nor_literal() {
    assert!(ServerAddr::needs_resolution("tn.not.fyi", None));
    assert!(!ServerAddr::needs_resolution("10.0.0.1", Some(IpAddress::V4(0x0a000001))));
    assert!(!ServerAddr::needs_resolution("abc.onion", None));
    assert!(!ServerAddr::needs_resolution("abc.onion", Some(REPORTER)));
}

#[test]
fn vetting_a_name_takes_it_as_it_is() {
    let t = table(vec![("a.example", REPORTER), ("A.Example", STRANGER)]);
    assert_eq!(
        vet_name(REPORTER, &t, "a.example".to_string()),
        Some((ServerAddr::Clearnet(REPORTER), "a.example".to_string()))
    );
    assert_eq!(vet_name(REPORTER, &t, "A.Example".to_string()), None);
    assert_eq!(
        vet_name(STRANGER, &t, "A.Example".to_string()),
        Some((ServerAddr::Clearnet(STRANGER), "A.Example".to_string()))
    );
    assert_eq!(vet_name(REPORTER, &t, "x.ONION".to_string()), None);
    assert_eq!(vet_name(REPORTER, &t, "x".repeat(101)), None);
}

#[test]
fn name_is_looked_up_unless_it_is_too_long_or_an_onion_name() {
    assert!(must_look_up("a.example"));
    assert!(must_look_up("1.2.3.4"));
    assert!(must_look_up(""));
    assert!(!must_look_up("a.onion"));
    assert!(must_look_up(&"x".repeat(100)));
    assert!(!must_look_up(&"x".repeat(101)));
}
