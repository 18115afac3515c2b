//! The discovery manager: it admits servers, hands out the health check that
//! is due, books its outcome, and lists the servers that are healthy.
use crate::address::{
    resolved, AddrView, Hostname, IpAddress, Lookup, Port, ServerAddr, Service, SocketAddress,
};
use crate::coherence::{
    clock_moved_on, law_announcement_keeps_coherence, law_default_server_keeps_coherence,
    law_empty_manager_coherent, law_health_check_keeps_coherence, law_start_keeps_coherence,
};
use crate::admission::{
    admitted_jobs, collect_jobs, considered, law_admitted_jobs, lookup_names, lookup_views,
    names_to_look_up, vouched_for, MAX_QUEUE_SIZE,
};
use crate::error::{DiscoveryError, Incompatibility, ProbeFailure};
use crate::features::{
    host_views, same_block_hash, FeaturesView, ProtocolVersion, ServerFeatures,
};
use crate::job::{one_job_per_service, HealthCheck, JobView, Timestamp};
use crate::queue::{enqueue, enqueue_all, in_order, law_nothing_due_behind_the_head, JobQueue};
use crate::registry::{
    directory, entry_views, lists, with_service, without_service, HealthyServers, ServerEntry,
    ServerView,
};
use crate::text::texts;
use bitcoin::BlockHash;
use vstd::prelude::*;
use vstd::string::*;

verus! {

/// The directory of the servers of our network that are known and of those
/// among them that answered their last probe.
#[derive(Debug)]
pub struct DiscoveryManager {
    /// The scheduled health check jobs: of healthy, unhealthy and untested
    /// servers alike.
    pub queue: JobQueue,
    /// The servers that were found healthy on their last health check.
    pub healthy: HealthyServers,
    /// The genesis hash of our network; a peer of another one is of no use.
    pub our_genesis_hash: BlockHash,
    /// The protocol version we speak.
    pub our_version: ProtocolVersion,
    /// The proxy through which onion hosts are reached, if there is one.
    pub tor_proxy: Option<SocketAddress>,
}

/// A `DiscoveryManager` as contracts see it.
pub struct ManagerView {
    pub queue: Seq<JobView>,
    pub healthy: Seq<(AddrView, ServerView)>,
    pub our_genesis_hash: BlockHash,
    pub our_version: ProtocolVersion,
    pub tor_proxy: Option<SocketAddress>,
}

impl View for DiscoveryManager {
    type V = ManagerView;

    open spec fn view(&self) -> ManagerView {
        ManagerView {
            queue: self.queue@,
            healthy: self.healthy@,
            our_genesis_hash: self.our_genesis_hash,
            our_version: self.our_version,
            tor_proxy: self.tor_proxy,
        }
    }
}

/// How a service is to be reached.
#[derive(Debug)]
pub enum Transport {
    /// A plain connection to an IP address.
    Plain { ip: IpAddress, port: Port },
    /// TLS to a host that is found and greeted by its name.
    Tls { hostname: Hostname, port: Port },
    /// A plain connection to an onion host by way of a proxy.
    Proxied { hostname: Hostname, port: Port, proxy: SocketAddress },
}

/// A `Transport` as contracts see it.
pub enum TransportView {
    Plain { ip: IpAddress, port: Port },
    Tls { hostname: Seq<char>, port: Port },
    Proxied { hostname: Seq<char>, port: Port, proxy: SocketAddress },
}

impl View for Transport {
    type V = TransportView;

    open spec fn view(&self) -> TransportView {
        match *self {
            Transport::Plain { ip, port } => TransportView::Plain { ip, port },
            Transport::Tls { hostname, port } => TransportView::Tls { hostname: hostname@, port },
            Transport::Proxied { hostname, port, proxy } => TransportView::Proxied {
                hostname: hostname@,
                port,
                proxy,
            },
        }
    }
}

/// The one hash function that peers must use.
pub open spec fn required_hash_function() -> Seq<char> {
    "sha256"@
}

/// What, if anything, makes a peer with these features unfit for a node of
/// this network and version. The network is looked at first, then the
/// protocol range, then the hash function.
pub open spec fn compatibility(
    our_genesis_hash: BlockHash,
    our_version: ProtocolVersion,
    features: FeaturesView,
) -> Option<Incompatibility> {
    if features.genesis_hash != our_genesis_hash {
        Some(Incompatibility::Network)
    } else if !(features.protocol_min.at_most(our_version) && our_version.at_most(
        features.protocol_max,
    )) {
        Some(Incompatibility::ProtocolVersion)
    } else if features.hash_function != required_hash_function() {
        Some(Incompatibility::HashFunction)
    } else {
        None
    }
}

/// The way to reach `service` at `addr`: an IP address directly, by its number
/// for a plain service and by its host name for TLS; an onion host through
/// the proxy, and not at all with TLS.
pub open spec fn transport_for(
    addr: AddrView,
    hostname: Seq<char>,
    service: Service,
    tor_proxy: Option<SocketAddress>,
) -> Result<TransportView, DiscoveryError> {
    match (addr, service) {
        (AddrView::Clearnet(ip), Service::Tcp(port)) => Ok(TransportView::Plain { ip, port }),
        (AddrView::Clearnet(_), Service::Ssl(port)) => Ok(TransportView::Tls { hostname, port }),
        (AddrView::Onion(name), Service::Tcp(port)) => match tor_proxy {
            Some(proxy) => Ok(TransportView::Proxied { hostname: name, port, proxy }),
            None => Err(DiscoveryError::ProbeFailure(ProbeFailure::NoProxyConfigured)),
        },
        (AddrView::Onion(_), Service::Ssl(_)) => Err(
            DiscoveryError::ProbeFailure(ProbeFailure::UnsupportedTransport),
        ),
    }
}

/// The outcome of a probe as contracts see it.
pub open spec fn probe_view(probed: Result<ServerFeatures, DiscoveryError>) -> Result<
    FeaturesView,
    DiscoveryError,
> {
    match probed {
        Ok(features) => Ok(features@),
        Err(e) => Err(e),
    }
}

/// The default jobs for the services of one server.
pub open spec fn default_jobs(addr: AddrView, hostname: Seq<char>, services: Seq<Service>) -> Seq<
    JobView,
> {
    Seq::new(services.len(), |i: int| JobView::fresh(addr, hostname, services[i], None))
}

/// Default servers as contracts see them: each with its host name, its
/// services, and what looking it up gave.
pub open spec fn seed_views(seeds: Seq<(Hostname, Vec<Service>, Lookup)>) -> Seq<
    (Seq<char>, Seq<Service>, Lookup),
> {
    Seq::new(seeds.len(), |i: int| (seeds[i].0@, seeds[i].1@, seeds[i].2))
}

/// The queue once the first `n` default servers were added to an empty one,
/// each with all of its services; one that does not resolve is passed over.
pub open spec fn seeded_queue(
    seeds: Seq<(Seq<char>, Seq<Service>, Lookup)>,
    n: int,
) -> Seq<JobView>
    decreases n,
{
    if n <= 0 {
        Seq::empty()
    } else {
        let queue = seeded_queue(seeds, n - 1);
        let (hostname, services, found) = seeds[n - 1];
        match resolved(hostname, found) {
            Some(addr) => enqueue_all(queue, default_jobs(addr, hostname, services)),
            None => queue,
        }
    }
}

impl ManagerView {
    /// Why a peer with these features is turned down, if it is.
    pub open spec fn incompatibility(self, features: FeaturesView) -> Option<Incompatibility> {
        compatibility(self.our_genesis_hash, self.our_version, features)
    }

    /// What there is to say before any name of an announcement is looked up:
    /// the peer is unfit, or the queue is full, or nothing.
    pub open spec fn refusal(self, features: FeaturesView) -> Option<DiscoveryError> {
        match self.incompatibility(features) {
            Some(why) => Some(DiscoveryError::IncompatiblePeer(why)),
            None => if self.queue.len() >= MAX_QUEUE_SIZE {
                Some(DiscoveryError::QueueFull)
            } else {
                None
            },
        }
    }

    /// The jobs that an announcement adds, or the reason for which it adds
    /// none: the peer is unfit, the queue is full, or the announcement brings
    /// no job, or more jobs than the queue has room for. An announcement adds
    /// all of its jobs or none.
    pub open spec fn admission(
        self,
        added_by: IpAddress,
        features: FeaturesView,
        table: Seq<(Seq<char>, Lookup)>,
    ) -> Result<Seq<JobView>, DiscoveryError> {
        match self.refusal(features) {
            Some(e) => Err(e),
            None => {
                let jobs = admitted_jobs(self.queue, added_by, table, features.hosts);
                if jobs.len() == 0 || self.queue.len() + jobs.len() > MAX_QUEUE_SIZE {
                    Err(DiscoveryError::NoNewEntries)
                } else {
                    Ok(jobs)
                }
            },
        }
    }

    /// What a probe comes to: the features of a peer that answered and is fit,
    /// or the reason for which the probe counts as failed.
    pub open spec fn verdict(self, probed: Result<FeaturesView, DiscoveryError>) -> Result<
        FeaturesView,
        DiscoveryError,
    > {
        match probed {
            Ok(features) => match self.incompatibility(features) {
                None => Ok(features),
                Some(why) => Err(DiscoveryError::IncompatiblePeer(why)),
            },
            Err(e) => Err(e),
        }
    }

    /// The registry says of the job's service what the job says of itself, as
    /// far as booking this verdict depends on it: a service that turns
    /// healthy is not listed yet, and one that stops being healthy is listed.
    pub open spec fn agrees_with(self, job: JobView, succeeded: bool) -> bool {
        if succeeded {
            job.is_healthy() || !lists(self.healthy, job.addr, job.service)
        } else {
            !job.is_healthy() || lists(self.healthy, job.addr, job.service)
        }
    }

    /// The manager after a probe of `job` at `now` that succeeded with
    /// `features`: a service that was not healthy before is entered in the
    /// registry, and the job is queued again with the success booked.
    pub open spec fn after_success(
        self,
        job: JobView,
        features: FeaturesView,
        now: Timestamp,
    ) -> ManagerView {
        ManagerView {
            healthy: if job.is_healthy() {
                self.healthy
            } else {
                with_service(self.healthy, job.addr, job.hostname, features, job.service)
            },
            queue: enqueue(self.queue, job.after_success(now)),
            ..self
        }
    }

    /// The manager after a probe of `job` at `now` that failed: a service
    /// that was healthy before leaves the registry, and the job is queued
    /// again with the failure booked, unless it is given up.
    pub open spec fn after_failure(self, job: JobView, now: Timestamp) -> ManagerView {
        ManagerView {
            healthy: if job.is_healthy() {
                without_service(self.healthy, job.addr, job.service)
            } else {
                self.healthy
            },
            queue: if job.after_failure(now).should_retry() {
                enqueue(self.queue, job.after_failure(now))
            } else {
                self.queue
            },
            ..self
        }
    }

    /// The manager after the health check of `job` ended at `now` with
    /// `probed`.
    pub open spec fn after_health_check(
        self,
        job: JobView,
        probed: Result<FeaturesView, DiscoveryError>,
        now: Timestamp,
    ) -> ManagerView {
        match self.verdict(probed) {
            Ok(features) => self.after_success(job, features, now),
            Err(_) => self.after_failure(job, now),
        }
    }
}

impl DiscoveryManager {
    /// Queue and registry fit together while no health check is under way.
    /// This holds of a new manager and is kept by every announcement;
    /// `add_default_server`, `start_health_check` and `finish_health_check`
    /// say how they keep it.
    pub open spec fn wf(&self) -> bool {
        self@.coherent(None)
    }

    /// A manager for a node of the network with this genesis hash that speaks
    /// this protocol version. It starts with no job and no server.
    pub fn new(
        our_genesis_hash: BlockHash,
        our_version: ProtocolVersion,
        tor_proxy: Option<SocketAddress>,
    ) -> (manager: DiscoveryManager)
        ensures
            manager@ == (ManagerView {
                queue: Seq::<JobView>::empty(),
                healthy: Seq::<(AddrView, ServerView)>::empty(),
                our_genesis_hash,
                our_version,
                tor_proxy,
            }),
            manager.wf(),
    {
        let manager = DiscoveryManager {
            queue: JobQueue::new(),
            healthy: HealthyServers::new(),
            our_genesis_hash,
            our_version,
            tor_proxy,
        };
        proof {
            law_empty_manager_coherent(manager@);
        }
        manager
    }

    /// A manager like a new one, with the default servers added. Each comes
    /// with its host name, its services, and what looking it up gave; one
    /// that does not resolve is passed over.
    pub fn with_default_servers(
        our_genesis_hash: BlockHash,
        our_version: ProtocolVersion,
        tor_proxy: Option<SocketAddress>,
        default_servers: Vec<(Hostname, Vec<Service>, Lookup)>,
    ) -> (manager: DiscoveryManager)
        ensures
            manager@ == (ManagerView {
                queue: seeded_queue(seed_views(default_servers@), default_servers@.len() as int),
                healthy: Seq::<(AddrView, ServerView)>::empty(),
                our_genesis_hash,
                our_version,
                tor_proxy,
            }),
            in_order(manager@.queue),
    {
        let mut manager = DiscoveryManager::new(our_genesis_hash, our_version, tor_proxy);
        let ghost seeds = seed_views(default_servers@);
        let ghost empty = manager@;
        let mut rest = default_servers;
        let ghost mut done: int = 0;
        while rest.len() > 0
            invariant
                0 <= done <= seeds.len(),
                rest@.len() == seeds.len() - done,
                seed_views(rest@) =~= seeds.skip(done),
                manager@ == (ManagerView { queue: seeded_queue(seeds, done), ..empty }),
                in_order(manager@.queue),
            decreases rest.len(),
        {
            assert(seed_views(rest@)[0] == seeds.skip(done)[0]);
            let ghost before = rest@;
            let (hostname, services, found) = rest.remove(0);
            assert forall|k: int| 0 <= k < rest@.len() implies seed_views(rest@)[k] == seeds[done
                + 1 + k] by {
                assert(rest@[k] == before[k + 1]);
                assert(seed_views(before)[k + 1] == seeds.skip(done)[k + 1]);
            }
            let _ = manager.add_default_server(hostname, services, found);
            proof {
                done = done + 1;
            }
        }
        manager
    }

    /// Whether a peer with these features is of our network, speaks our
    /// protocol version, and hashes as required.
    pub fn verify_compatibility(&self, features: &ServerFeatures) -> (fit: Result<
        (),
        DiscoveryError,
    >)
        ensures
            fit == match self@.incompatibility(features@) {
                None => Ok::<(), DiscoveryError>(()),
                Some(why) => Err(DiscoveryError::IncompatiblePeer(why)),
            },
    {
        if !same_block_hash(&features.genesis_hash, &self.our_genesis_hash) {
            return Err(DiscoveryError::IncompatiblePeer(Incompatibility::Network));
        }
        if !(features.protocol_min.is_at_most(&self.our_version) && self.our_version.is_at_most(
            &features.protocol_max,
        )) {
            return Err(DiscoveryError::IncompatiblePeer(Incompatibility::ProtocolVersion));
        }
        let required = String::from_str("sha256");
        if !(features.hash_function == required) {
            return Err(DiscoveryError::IncompatiblePeer(Incompatibility::HashFunction));
        }
        Ok(())
    }

    /// How to reach `service` of the server at `addr`, or why it cannot be
    /// reached from here.
    pub fn check_server(&self, addr: &ServerAddr, hostname: &Hostname, service: Service) -> (way:
        Result<Transport, DiscoveryError>)
        ensures
            match way {
                Ok(transport) => transport_for(addr@, hostname@, service, self@.tor_proxy) == Ok::<
                    TransportView,
                    DiscoveryError,
                >(transport@),
                Err(e) => transport_for(addr@, hostname@, service, self@.tor_proxy) == Err::<
                    TransportView,
                    DiscoveryError,
                >(e),
            },
    {
        match (addr, service) {
            (ServerAddr::Clearnet(ip), Service::Tcp(port)) => Ok(
                Transport::Plain { ip: *ip, port },
            ),
            (ServerAddr::Clearnet(_), Service::Ssl(port)) => Ok(
                Transport::Tls { hostname: hostname.clone(), port },
            ),
            (ServerAddr::Onion(name), Service::Tcp(port)) => match self.tor_proxy {
                Some(proxy) => Ok(Transport::Proxied { hostname: name.clone(), port, proxy }),
                None => Err(DiscoveryError::ProbeFailure(ProbeFailure::NoProxyConfigured)),
            },
            (ServerAddr::Onion(_), Service::Ssl(_)) => Err(
                DiscoveryError::ProbeFailure(ProbeFailure::UnsupportedTransport),
            ),
        }
    }

    /// The names of an announcement that have to be looked up before it can
    /// be admitted, in lower case; or the reason for which it is turned down
    /// before any lookup is made.
    pub fn hosts_to_look_up(&self, features: &ServerFeatures) -> (found: Result<
        Vec<Hostname>,
        DiscoveryError,
    >)
        ensures
            match found {
                Ok(hosts) => self@.refusal(features@) is None && texts(hosts@) == lookup_names(
                    features@.hosts,
                    considered(features@.hosts),
                ),
                Err(e) => self@.refusal(features@) == Some(e),
            },
    {
        match self.verify_compatibility(features) {
            Err(e) => {
                return Err(e);
            },
            Ok(()) => {},
        }
        if self.queue.len() >= MAX_QUEUE_SIZE {
            return Err(DiscoveryError::QueueFull);
        }
        Ok(names_to_look_up(&features.hosts))
    }

    /// Adds the servers that a peer at `added_by` announces with `features`:
    /// one job for each service of each address that has none in the queue.
    /// `lookups` holds what looking up the names of `hosts_to_look_up` gave;
    /// a name that is missing there did not resolve.
    pub fn add_server_request(
        &mut self,
        added_by: IpAddress,
        features: ServerFeatures,
        lookups: &Vec<(Hostname, Lookup)>,
    ) -> (added: Result<(), DiscoveryError>)
        ensures
            match old(self)@.admission(added_by, features@, lookup_views(lookups@)) {
                Ok(jobs) => added is Ok && final(self)@ == (ManagerView {
                    queue: enqueue_all(old(self)@.queue, jobs),
                    ..old(self)@
                }),
                Err(e) => added == Err::<(), DiscoveryError>(e) && final(self)@ == old(self)@,
            },
            in_order(old(self)@.queue) ==> in_order(final(self)@.queue),
            added is Ok ==> old(self)@.queue.len() < final(self)@.queue.len() <= MAX_QUEUE_SIZE,
            old(self).wf() ==> final(self).wf(),
            one_job_per_service(
                admitted_jobs(
                    old(self)@.queue,
                    added_by,
                    lookup_views(lookups@),
                    features@.hosts,
                ),
            ),
            forall|k: int|
                0 <= k < admitted_jobs(
                    old(self)@.queue,
                    added_by,
                    lookup_views(lookups@),
                    features@.hosts,
                ).len() ==> vouched_for(
                    old(self)@.queue,
                    added_by,
                    #[trigger] admitted_jobs(
                        old(self)@.queue,
                        added_by,
                        lookup_views(lookups@),
                        features@.hosts,
                    )[k],
                ),
    {
        proof {
            law_admitted_jobs(self@.queue, added_by, lookup_views(lookups@), features@.hosts);
            if self.wf() {
                law_announcement_keeps_coherence(
                    self@,
                    None,
                    added_by,
                    features@,
                    lookup_views(lookups@),
                );
            }
        }
        match self.verify_compatibility(&features) {
            Err(e) => {
                return Err(e);
            },
            Ok(()) => {},
        }
        if self.queue.len() >= MAX_QUEUE_SIZE {
            return Err(DiscoveryError::QueueFull);
        }
        let jobs = collect_jobs(&self.queue, added_by, &features.hosts, lookups);
        if jobs.len() == 0 || jobs.len() > MAX_QUEUE_SIZE - self.queue.len() {
            return Err(DiscoveryError::NoNewEntries);
        }
        self.queue.extend(jobs);
        Ok(())
    }

    /// Adds a default server. Default servers are exempt from limits and are
    /// given more leniency before they are removed for being unavailable.
    /// Each of the services gets a job, whether or not it has one already.
    /// `found` is what looking `hostname` up gave.
    pub fn add_default_server(
        &mut self,
        hostname: Hostname,
        services: Vec<Service>,
        found: Lookup,
    ) -> (added: Result<(), DiscoveryError>)
        ensures
            match resolved(hostname@, found) {
                Some(addr) => added is Ok && final(self)@ == (ManagerView {
                    queue: enqueue_all(old(self)@.queue, default_jobs(addr, hostname@, services@)),
                    ..old(self)@
                }),
                None => added == Err::<(), DiscoveryError>(DiscoveryError::ResolutionError)
                    && final(self)@ == old(self)@,
            },
            in_order(old(self)@.queue) ==> in_order(final(self)@.queue),
            old(self).wf() && (match resolved(hostname@, found) {
                Some(addr) => one_job_per_service(
                    old(self)@.queue + default_jobs(addr, hostname@, services@),
                ),
                None => true,
            }) ==> final(self).wf(),
    {
        let addr = match ServerAddr::resolve(hostname.as_str(), found) {
            Ok(addr) => addr,
            Err(e) => {
                return Err(e);
            },
        };
        proof {
            if self.wf() && one_job_per_service(
                self@.queue + default_jobs(addr@, hostname@, services@),
            ) {
                law_default_server_keeps_coherence(self@, None, addr@, hostname@, services@);
            }
        }
        let ghost all = default_jobs(addr@, hostname@, services@);
        let mut i: usize = 0;
        assert(all.take(0) =~= Seq::<JobView>::empty());
        while i < services.len()
            invariant
                i <= services.len(),
                all == default_jobs(addr@, hostname@, services@),
                self@ == (ManagerView {
                    queue: enqueue_all(old(self)@.queue, all.take(i as int)),
                    ..old(self)@
                }),
                in_order(old(self)@.queue) ==> in_order(self@.queue),
            decreases services.len() - i,
        {
            let job = HealthCheck::new(addr.clone(), hostname.clone(), services[i], None);
            assert(all.take(i + 1).drop_last() =~= all.take(i as int));
            assert(all.take(i + 1).last() == job@);
            self.queue.push(job);
            i += 1;
        }
        assert(all.take(i as int) =~= all);
        Ok(())
    }

    /// The list of healthy servers, as peers that subscribe to it get it.
    pub fn get_servers(&self) -> (listing: Vec<ServerEntry>)
        ensures
            entry_views(listing@) == directory(self@.healthy),
    {
        self.healthy.entries()
    }

    /// Enters the service of `health_check` in the registry of healthy
    /// servers.
    pub fn save_healthy_service(&mut self, health_check: &HealthCheck, features: ServerFeatures)
        requires
            !lists(old(self)@.healthy, health_check@.addr, health_check@.service),
        ensures
            final(self)@ == (ManagerView {
                healthy: with_service(
                    old(self)@.healthy,
                    health_check@.addr,
                    health_check@.hostname,
                    features@,
                    health_check@.service,
                ),
                ..old(self)@
            }),
    {
        self.healthy.add_service(
            &health_check.addr,
            &health_check.hostname,
            health_check.service,
            features,
        );
    }

    /// Removes the service of `health_check` from the registry, and the
    /// server with it if no other of its services is healthy.
    pub fn remove_unhealthy_service(&mut self, health_check: &HealthCheck)
        requires
            lists(old(self)@.healthy, health_check@.addr, health_check@.service),
        ensures
            final(self)@ == (ManagerView {
                healthy: without_service(
                    old(self)@.healthy,
                    health_check@.addr,
                    health_check@.service,
                ),
                ..old(self)@
            }),
    {
        self.healthy.drop_service(&health_check.addr, health_check.service);
    }

    /// Whether there is a health check to run at `now`: the queue is not
    /// empty, and the job that is next is due.
    pub fn health_check_is_due(&self, now: Timestamp) -> (due: bool)
        ensures
            due == (self@.queue.len() > 0 && self@.queue[0].is_due(now)),
    {
        match self.queue.peek() {
            Some(job) => job.is_due(now),
            None => false,
        }
    }

    /// Takes the next health check out of the queue, if there is one and it
    /// is due at `now`. The caller probes the service and hands the job back
    /// to `finish_health_check`.
    pub fn start_health_check(&mut self, now: Timestamp) -> (next: Option<HealthCheck>)
        ensures
            match next {
                Some(job) => old(self)@.queue.len() > 0 && old(self)@.queue[0].is_due(now) && job@
                    == old(self)@.queue[0] && final(self)@ == (ManagerView {
                    queue: old(self)@.queue.drop_first(),
                    ..old(self)@
                }),
                None => (old(self)@.queue.len() == 0 || !old(self)@.queue[0].is_due(now))
                    && final(self)@ == old(self)@,
            },
            in_order(old(self)@.queue) ==> in_order(final(self)@.queue),
            old(self)@.coherent(None) ==> match next {
                Some(job) => final(self)@.coherent(Some(job@)) && clock_moved_on(job@, now),
                None => final(self)@.coherent(None),
            },
            in_order(old(self)@.queue) && next is None ==> forall|i: int|
                0 <= i < old(self)@.queue.len() ==> !(#[trigger] old(self)@.queue[i]).is_due(now),
    {
        proof {
            if in_order(self@.queue) && self@.queue.len() > 0 && !self@.queue[0].is_due(now) {
                assert forall|i: int| 0 <= i < self@.queue.len() implies !(#[trigger] self@.queue[i])
                    .is_due(now) by {
                    law_nothing_due_behind_the_head(self@.queue, now, i);
                }
            }
        }
        // nothing to do if the queue is empty, or if it is still too early
        // for the job that is next
        if self.health_check_is_due(now) {
            proof {
                if self@.coherent(None) {
                    law_start_keeps_coherence(self@);
                }
            }
            self.queue.pop()
        } else {
            None
        }
    }

    /// Whether the outcome of a health check can be booked: whether the
    /// registry says of the job's service what the job says of itself, and a
    /// failure can still be counted. Where the registry disagrees, the state
    /// is corrupted and there is nothing left to do but to stop.
    pub fn can_finish(
        &self,
        health_check: &HealthCheck,
        probed: &Result<ServerFeatures, DiscoveryError>,
    ) -> (sound: bool)
        ensures
            sound == ((self@.verdict(probe_view(*probed)) is Err
                ==> health_check.consecutive_failures < usize::MAX) && self@.agrees_with(
                health_check@,
                self@.verdict(probe_view(*probed)) is Ok,
            )),
    {
        let succeeded = match probed {
            Ok(features) => self.verify_compatibility(features).is_ok(),
            Err(_) => false,
        };
        let listed = self.healthy.lists(&health_check.addr, health_check.service);
        let agrees = if succeeded {
            health_check.is_healthy() || !listed
        } else {
            !health_check.is_healthy() || listed
        };
        (succeeded || health_check.consecutive_failures < usize::MAX) && agrees
    }

    /// Books the outcome of the health check that `start_health_check` handed
    /// out: `probed` holds the features that the service answered with, or
    /// the reason for which it could not be reached, and `now` is the time at
    /// which the probe ended. A peer that answers and is unfit counts as
    /// failed. The result says whether the service is healthy.
    pub fn finish_health_check(
        &mut self,
        health_check: HealthCheck,
        probed: Result<ServerFeatures, DiscoveryError>,
        now: Timestamp,
    ) -> (outcome: Result<(), DiscoveryError>)
        requires
            old(self)@.verdict(probe_view(probed)) is Err ==> health_check.consecutive_failures
                < usize::MAX,
            old(self)@.agrees_with(
                health_check@,
                old(self)@.verdict(probe_view(probed)) is Ok,
            ),
        ensures
            final(self)@ == old(self)@.after_health_check(health_check@, probe_view(probed), now),
            outcome == match old(self)@.verdict(probe_view(probed)) {
                Ok(_) => Ok::<(), DiscoveryError>(()),
                Err(e) => Err(e),
            },
            in_order(old(self)@.queue) ==> in_order(final(self)@.queue),
            old(self)@.coherent(Some(health_check@)) && clock_moved_on(health_check@, now)
                ==> final(self)@.coherent(None),
    {
        proof {
            if self@.coherent(Some(health_check@)) && clock_moved_on(health_check@, now) {
                law_health_check_keeps_coherence(self@, health_check@, probe_view(probed), now);
            }
        }
        let mut health_check = health_check;
        let was_healthy = health_check.is_healthy();
        let verdict = match probed {
            Ok(features) => match self.verify_compatibility(&features) {
                Ok(()) => Ok(features),
                Err(e) => Err(e),
            },
            Err(e) => Err(e),
        };
        match verdict {
            Ok(features) => {
                if !was_healthy {
                    self.save_healthy_service(&health_check, features);
                }
                health_check.record_success(now);
                // schedule the next health check
                self.queue.push(health_check);
                Ok(())
            },
            Err(e) => {
                if was_healthy {
                    self.remove_unhealthy_service(&health_check);
                }
                health_check.record_failure(now);
                if health_check.should_retry() {
                    self.queue.push(health_check);
                }
                Err(e)
            },
        }
    }
}

} // verus!
