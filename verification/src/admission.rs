//! Which jobs an announcement brings: the hosts it may vouch for, and their
//! services that are not queued yet.
use crate::address::{
    is_onion_name, resolved, AddrView, Hostname, IpAddress, Lookup, ServerAddr, Service,
};
use crate::features::{host_views, ServerPorts};
use crate::job::{
    job_views, no_job_like, one_job_per_service, same_service, HealthCheck, JobView,
};
use crate::queue::{any_job_for, lemma_pending_in_either, pending, JobQueue};
use crate::text::{lowercase, lowercase_of, texts};
use vstd::prelude::*;
use vstd::string::*;

verus! {

/// New servers are refused while this many health check jobs are queued.
pub const MAX_QUEUE_SIZE: usize = 500;

/// The number of hosts that are read from one announcement.
pub const MAX_SERVERS_PER_REQUEST: usize = 3;

/// The number of services that one announcement can add.
pub const MAX_SERVICES_PER_REQUEST: usize = 6;

/// A host name of more characters than this is passed over.
pub const MAX_HOSTNAME_LEN: usize = 100;

/// A table of looked-up names as contracts see it.
pub open spec fn lookup_views(table: Seq<(Hostname, Lookup)>) -> Seq<(Seq<char>, Lookup)> {
    Seq::new(table.len(), |i: int| (table[i].0@, table[i].1))
}

/// The names of a table of looked-up names.
pub open spec fn names(table: Seq<(Seq<char>, Lookup)>) -> Seq<Seq<char>> {
    Seq::new(table.len(), |i: int| table[i].0)
}

/// What the table holds for `host`: the lookup of its first line for `host`,
/// and nothing found if it has no such line.
pub open spec fn found_address(table: Seq<(Seq<char>, Lookup)>, host: Seq<char>) -> Lookup {
    match names(table).index_of_first(host) {
        Some(i) => table[i].1,
        None => Lookup { literal: None, resolved: None },
    }
}

/// The name as announced, made ready for a lookup: in lower case.
pub open spec fn canonical(raw: Seq<char>) -> Seq<char> {
    lowercase_of(raw)
}

/// A name in lower case has to be looked up before its host can be admitted:
/// it is of admissible length, and not an onion name.
pub open spec fn name_needs_lookup(host: Seq<char>) -> bool {
    host.len() <= MAX_HOSTNAME_LEN && !is_onion_name(host)
}

/// A host name as announced has to be looked up, once in lower case.
pub open spec fn needs_lookup(raw: Seq<char>) -> bool {
    name_needs_lookup(canonical(raw))
}

/// The address and name under which a host can be admitted, if it can, given
/// its name in lower case. The name must not be too long; it must resolve;
/// and if it resolves to an IP address, that must be the address of the peer
/// that announces it. An onion name vouches for itself.
pub open spec fn vetted_name(
    added_by: IpAddress,
    table: Seq<(Seq<char>, Lookup)>,
    host: Seq<char>,
) -> Option<(AddrView, Seq<char>)> {
    if host.len() > MAX_HOSTNAME_LEN {
        None
    } else {
        match resolved(host, found_address(table, host)) {
            None => None,
            Some(AddrView::Clearnet(ip)) => if ip == added_by {
                Some((AddrView::Clearnet(ip), host))
            } else {
                None
            },
            Some(AddrView::Onion(name)) => Some((AddrView::Onion(name), host)),
        }
    }
}

/// The address and name under which an announced host can be admitted, if it
/// can: those of its name in lower case.
pub open spec fn vetted_host(
    added_by: IpAddress,
    table: Seq<(Seq<char>, Lookup)>,
    raw: Seq<char>,
) -> Option<(AddrView, Seq<char>)> {
    vetted_name(added_by, table, canonical(raw))
}

/// The job for one service of an admitted host: none if the service has a
/// job among `known` already.
pub open spec fn service_job(
    known: Seq<JobView>,
    addr: AddrView,
    host: Seq<char>,
    added_by: IpAddress,
    service: Service,
) -> Seq<JobView> {
    if pending(known, addr, service) {
        Seq::empty()
    } else {
        seq![JobView::fresh(addr, host, service, Some(added_by))]
    }
}

/// The jobs that one announced host brings, given the jobs that are `known`
/// already: for its plain service, then for its TLS service, as far as it
/// has them and they have no job yet.
pub open spec fn host_jobs(
    known: Seq<JobView>,
    added_by: IpAddress,
    table: Seq<(Seq<char>, Lookup)>,
    entry: (Seq<char>, ServerPorts),
) -> Seq<JobView> {
    match vetted_host(added_by, table, entry.0) {
        None => Seq::empty(),
        Some((addr, host)) => {
            let tcp = match entry.1.tcp_port {
                Some(port) => service_job(known, addr, host, added_by, Service::Tcp(port)),
                None => Seq::empty(),
            };
            let ssl = match entry.1.ssl_port {
                Some(port) => service_job(known, addr, host, added_by, Service::Ssl(port)),
                None => Seq::empty(),
            };
            tcp + ssl
        },
    }
}

/// The jobs that the first `n` announced hosts bring: one for each service
/// of each address that has no job in the queue. Where two hosts name the
/// same service of the same address, the one that is announced first brings
/// the job.
pub open spec fn candidate_jobs(
    queue: Seq<JobView>,
    added_by: IpAddress,
    table: Seq<(Seq<char>, Lookup)>,
    hosts: Seq<(Seq<char>, ServerPorts)>,
    n: int,
) -> Seq<JobView>
    decreases n,
{
    if n <= 0 {
        Seq::empty()
    } else {
        let front = candidate_jobs(queue, added_by, table, hosts, n - 1);
        front + host_jobs(queue + front, added_by, table, hosts[n - 1])
    }
}

/// How many of the announced hosts are read.
pub open spec fn considered(hosts: Seq<(Seq<char>, ServerPorts)>) -> int {
    if hosts.len() <= MAX_SERVERS_PER_REQUEST {
        hosts.len() as int
    } else {
        MAX_SERVERS_PER_REQUEST as int
    }
}

/// The jobs that an announcement brings: those of the hosts that are read, cut
/// off at the most that one announcement can add.
pub open spec fn admitted_jobs(
    queue: Seq<JobView>,
    added_by: IpAddress,
    table: Seq<(Seq<char>, Lookup)>,
    hosts: Seq<(Seq<char>, ServerPorts)>,
) -> Seq<JobView> {
    let found = candidate_jobs(queue, added_by, table, hosts, considered(hosts));
    if found.len() <= MAX_SERVICES_PER_REQUEST {
        found
    } else {
        found.take(MAX_SERVICES_PER_REQUEST as int)
    }
}

/// The names that have to be looked up among the first `n` announced hosts.
pub open spec fn lookup_names(hosts: Seq<(Seq<char>, ServerPorts)>, n: int) -> Seq<Seq<char>>
    decreases n,
{
    if n <= 0 {
        Seq::empty()
    } else if needs_lookup(hosts[n - 1].0) {
        lookup_names(hosts, n - 1).push(canonical(hosts[n - 1].0))
    } else {
        lookup_names(hosts, n - 1)
    }
}

/// What holds of a job that an announcement brings.
pub open spec fn vouched_for(queue: Seq<JobView>, added_by: IpAddress, job: JobView) -> bool {
    &&& job.added_by == Some(added_by)
    &&& !job.is_default
    &&& job.last_check is None
    &&& job.last_healthy is None
    &&& job.consecutive_failures == 0
    &&& !pending(queue, job.addr, job.service)
    &&& job.hostname.len() <= MAX_HOSTNAME_LEN
    &&& match job.addr {
        AddrView::Clearnet(ip) => ip == added_by,
        AddrView::Onion(name) => name == job.hostname && is_onion_name(name),
    }
}

/// Every job that one announced host brings is vouched for, they are two at
/// most, and they are for two services.
pub proof fn lemma_host_jobs(
    known: Seq<JobView>,
    added_by: IpAddress,
    table: Seq<(Seq<char>, Lookup)>,
    entry: (Seq<char>, ServerPorts),
)
    ensures
        host_jobs(known, added_by, table, entry).len() <= 2,
        one_job_per_service(host_jobs(known, added_by, table, entry)),
        forall|k: int|
            0 <= k < host_jobs(known, added_by, table, entry).len() ==> vouched_for(
                known,
                added_by,
                #[trigger] host_jobs(known, added_by, table, entry)[k],
            ),
{
}

/// A job that is vouched for given the queue and more jobs is vouched for
/// given the queue, and is for another service than each of those jobs.
pub proof fn lemma_vouched_for_beyond(
    queue: Seq<JobView>,
    more: Seq<JobView>,
    added_by: IpAddress,
    job: JobView,
)
    requires
        vouched_for(queue + more, added_by, job),
    ensures
        vouched_for(queue, added_by, job),
        no_job_like(more, job),
{
    lemma_pending_in_either(queue, more, job.addr, job.service);
    assert forall|k: int| 0 <= k < more.len() implies !same_service(#[trigger] more[k], job) by {
        if same_service(more[k], job) {
            assert(more[k].addr == job.addr && more[k].service == job.service);
            assert(pending(more, job.addr, job.service));
        }
    }
}

/// Every job that the first `n` announced hosts bring is vouched for; they
/// bring two jobs each at most, and no two jobs for one service.
pub proof fn lemma_candidate_jobs(
    queue: Seq<JobView>,
    added_by: IpAddress,
    table: Seq<(Seq<char>, Lookup)>,
    hosts: Seq<(Seq<char>, ServerPorts)>,
    n: int,
)
    requires
        0 <= n,
    ensures
        candidate_jobs(queue, added_by, table, hosts, n).len() <= 2 * n,
        one_job_per_service(candidate_jobs(queue, added_by, table, hosts, n)),
        forall|k: int|
            0 <= k < candidate_jobs(queue, added_by, table, hosts, n).len() ==> vouched_for(
                queue,
                added_by,
                #[trigger] candidate_jobs(queue, added_by, table, hosts, n)[k],
            ),
    decreases n,
{
    if n > 0 {
        let front = candidate_jobs(queue, added_by, table, hosts, n - 1);
        let back = host_jobs(queue + front, added_by, table, hosts[n - 1]);
        lemma_candidate_jobs(queue, added_by, table, hosts, n - 1);
        lemma_host_jobs(queue + front, added_by, table, hosts[n - 1]);
        assert forall|k: int| 0 <= k < back.len() implies vouched_for(
            queue,
            added_by,
            #[trigger] back[k],
        ) && no_job_like(front, back[k]) by {
            lemma_vouched_for_beyond(queue, front, added_by, back[k]);
        }
        assert forall|k: int| 0 <= k < (front + back).len() implies vouched_for(
            queue,
            added_by,
            #[trigger] (front + back)[k],
        ) by {
            if k < front.len() {
                assert((front + back)[k] == front[k]);
            } else {
                assert((front + back)[k] == back[k - front.len()]);
            }
        }
        assert forall|i: int, j: int| 0 <= i < j < (front + back).len() implies !same_service(
            #[trigger] (front + back)[i],
            #[trigger] (front + back)[j],
        ) by {
            if j < front.len() {
                assert(!same_service(front[i], front[j]));
            } else if i >= front.len() {
                assert(!same_service(back[i - front.len()], back[j - front.len()]));
            } else {
                assert(no_job_like(front, back[j - front.len()]));
                assert(!same_service(front[i], back[j - front.len()]));
            }
        }
    }
}

/// An announcement never brings a job for a server at an IP address other
/// than that of the peer that makes it, whatever else it names; nor a job
/// for a service that has one in the queue; nor two jobs for one service.
/// What it brings are new jobs that are not default jobs. The hosts that are
/// read cannot bring more jobs than one announcement may add, so none of
/// their jobs is cut off.
pub proof fn law_admitted_jobs(
    queue: Seq<JobView>,
    added_by: IpAddress,
    table: Seq<(Seq<char>, Lookup)>,
    hosts: Seq<(Seq<char>, ServerPorts)>,
)
    ensures
        admitted_jobs(queue, added_by, table, hosts) == candidate_jobs(
            queue,
            added_by,
            table,
            hosts,
            considered(hosts),
        ),
        admitted_jobs(queue, added_by, table, hosts).len() <= MAX_SERVICES_PER_REQUEST,
        one_job_per_service(admitted_jobs(queue, added_by, table, hosts)),
        forall|k: int|
            0 <= k < admitted_jobs(queue, added_by, table, hosts).len() ==> vouched_for(
                queue,
                added_by,
                #[trigger] admitted_jobs(queue, added_by, table, hosts)[k],
            ),
{
    lemma_candidate_jobs(queue, added_by, table, hosts, considered(hosts));
}

/// What `table` holds for `host`.
pub fn find_address(table: &Vec<(Hostname, Lookup)>, host: &String) -> (found: Lookup)
    ensures
        found == found_address(lookup_views(table@), host@),
{
    let ghost lines = lookup_views(table@);
    let mut i: usize = 0;
    while i < table.len()
        invariant
            i <= table.len(),
            lines == lookup_views(table@),
            forall|k: int| 0 <= k < i ==> names(lines)[k] != host@,
        decreases table.len() - i,
    {
        if table[i].0 == *host {
            proof {
                names(lines).index_of_first_ensures(host@);
                assert(names(lines)[i as int] == host@);
            }
            return table[i].1;
        }
        i += 1;
    }
    proof {
        names(lines).index_of_first_ensures(host@);
    }
    Lookup::nothing()
}

/// The address and name under which a host can be admitted, given its name
/// in lower case.
pub fn vet_name(added_by: IpAddress, table: &Vec<(Hostname, Lookup)>, hostname: Hostname) -> (vetted:
    Option<(ServerAddr, Hostname)>)
    ensures
        match vetted {
            Some((addr, host)) => vetted_name(added_by, lookup_views(table@), hostname@) == Some(
                (addr@, host@),
            ),
            None => vetted_name(added_by, lookup_views(table@), hostname@) is None,
        },
{
    if hostname.as_str().unicode_len() > MAX_HOSTNAME_LEN {
        return None;
    }
    let found = find_address(table, &hostname);
    match ServerAddr::resolve(hostname.as_str(), found) {
        Err(_) => None,
        Ok(addr) => {
            // the server must be at the address that announced it; onion
            // hosts are exempt
            let vouched = match &addr {
                ServerAddr::Clearnet(ip) => *ip == added_by,
                ServerAddr::Onion(_) => true,
            };
            if vouched {
                Some((addr, hostname))
            } else {
                None
            }
        },
    }
}

/// The address and name under which an announced host can be admitted.
pub fn vet_host(added_by: IpAddress, table: &Vec<(Hostname, Lookup)>, raw: &String) -> (vetted:
    Option<(ServerAddr, Hostname)>)
    ensures
        match vetted {
            Some((addr, host)) => vetted_host(added_by, lookup_views(table@), raw@) == Some(
                (addr@, host@),
            ),
            None => vetted_host(added_by, lookup_views(table@), raw@) is None,
        },
{
    vet_name(added_by, table, lowercase(raw.as_str()))
}

/// Whether a name in lower case has to be looked up before its host can be
/// admitted.
pub fn must_look_up(hostname: &str) -> (needed: bool)
    ensures
        needed == name_needs_lookup(hostname@),
{
    hostname.unicode_len() <= MAX_HOSTNAME_LEN && !ServerAddr::is_onion(hostname)
}

/// The jobs that an announcement by `added_by` brings, given the queue as it
/// is, the hosts it names, and the addresses that were looked up for them.
pub fn collect_jobs(
    queue: &JobQueue,
    added_by: IpAddress,
    hosts: &Vec<(Hostname, ServerPorts)>,
    table: &Vec<(Hostname, Lookup)>,
) -> (jobs: Vec<HealthCheck>)
    ensures
        job_views(jobs@) == admitted_jobs(
            queue@,
            added_by,
            lookup_views(table@),
            host_views(hosts@),
        ),
        jobs@.len() <= MAX_SERVICES_PER_REQUEST,
        one_job_per_service(job_views(jobs@)),
        forall|k: int| 0 <= k < jobs@.len() ==> vouched_for(queue@, added_by, (#[trigger] jobs@[k])@),
{
    let ghost q = queue@;
    let ghost lines = lookup_views(table@);
    let ghost named = host_views(hosts@);
    let limit = if hosts.len() <= MAX_SERVERS_PER_REQUEST {
        hosts.len()
    } else {
        MAX_SERVERS_PER_REQUEST
    };
    let mut jobs: Vec<HealthCheck> = Vec::new();
    let mut i: usize = 0;
    while i < limit
        invariant
            i <= limit <= hosts.len(),
            q == queue@,
            lines == lookup_views(table@),
            named == host_views(hosts@),
            job_views(jobs@) =~= candidate_jobs(q, added_by, lines, named, i as int),
        decreases limit - i,
    {
        let ghost before = job_views(jobs@);
        assert(named[i as int] == (hosts@[i as int].0@, hosts@[i as int].1));
        match vet_host(added_by, table, &hosts[i].0) {
            None => {},
            Some((addr, hostname)) => {
                // a service brings a job unless it has one, in the queue or
                // from a host that was read before this one
                let tcp = match hosts[i].1.tcp_port {
                    Some(port) => {
                        proof {
                            lemma_pending_in_either(q, before, addr@, Service::Tcp(port));
                        }
                        if queue.holds(&addr, Service::Tcp(port)) || any_job_for(
                            &jobs,
                            &addr,
                            Service::Tcp(port),
                        ) {
                            None
                        } else {
                            Some(Service::Tcp(port))
                        }
                    },
                    None => None,
                };
                let ssl = match hosts[i].1.ssl_port {
                    Some(port) => {
                        proof {
                            lemma_pending_in_either(q, before, addr@, Service::Ssl(port));
                        }
                        if queue.holds(&addr, Service::Ssl(port)) || any_job_for(
                            &jobs,
                            &addr,
                            Service::Ssl(port),
                        ) {
                            None
                        } else {
                            Some(Service::Ssl(port))
                        }
                    },
                    None => None,
                };
                if let Some(service) = tcp {
                    jobs.push(
                        HealthCheck::new(addr.clone(), hostname.clone(), service, Some(added_by)),
                    );
                }
                if let Some(service) = ssl {
                    jobs.push(
                        HealthCheck::new(addr.clone(), hostname.clone(), service, Some(added_by)),
                    );
                }
            },
        }
        assert(job_views(jobs@) =~= before + host_jobs(
            q + before,
            added_by,
            lines,
            named[i as int],
        ));
        i += 1;
    }
    jobs.truncate(MAX_SERVICES_PER_REQUEST);
    assert(job_views(jobs@) =~= admitted_jobs(q, added_by, lines, named));
    proof {
        law_admitted_jobs(q, added_by, lines, named);
        assert forall|k: int| 0 <= k < jobs@.len() implies vouched_for(
            q,
            added_by,
            (#[trigger] jobs@[k])@,
        ) by {
            assert(job_views(jobs@)[k] == jobs@[k]@);
        }
    }
    jobs
}

/// The names among the announced hosts that have to be looked up, in lower
/// case, in the order of the announcement.
pub fn names_to_look_up(hosts: &Vec<(Hostname, ServerPorts)>) -> (found: Vec<Hostname>)
    ensures
        texts(found@) == lookup_names(
            host_views(hosts@),
            considered(host_views(hosts@)),
        ),
{
    let ghost named = host_views(hosts@);
    let limit = if hosts.len() <= MAX_SERVERS_PER_REQUEST {
        hosts.len()
    } else {
        MAX_SERVERS_PER_REQUEST
    };
    let mut found: Vec<Hostname> = Vec::new();
    let mut i: usize = 0;
    while i < limit
        invariant
            i <= limit <= hosts.len(),
            named == host_views(hosts@),
            texts(found@) =~= lookup_names(named, i as int),
        decreases limit - i,
    {
        assert(named[i as int].0 == hosts@[i as int].0@);
        let hostname = lowercase(hosts[i].0.as_str());
        if must_look_up(hostname.as_str()) {
            found.push(hostname);
        }
        i += 1;
    }
    found
}

} // verus!
