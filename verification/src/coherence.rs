//! What the queue and the registry have to do with each other: the registry
//! lists a service exactly while the job for it is healthy. This holds of a
//! new manager and is kept from one operation to the next, as long as no
//! service gets a second job and the clock moves on between two probes of
//! one job.
use crate::address::{AddrView, IpAddress, Lookup, Service};
use crate::admission::{admitted_jobs, law_admitted_jobs, vouched_for};
use crate::features::FeaturesView;
use crate::job::{no_job_like, one_job_per_service, same_service, JobView, Timestamp};
use crate::manager::{default_jobs, ManagerView};
use crate::queue::{enqueue, enqueue_all, in_order, lemma_enqueue_in_order, lemma_slot, slot};
use crate::registry::{
    has_entry, lemma_has_entry, lemma_lists, lemma_with_service, lemma_without_service, lists,
    registry_wf, ServerView,
};
use vstd::prelude::*;

verus! {

/// The jobs that the manager answers for: those in the queue, and the one
/// that is out for its probe, if one is.
pub open spec fn all_jobs(queue: Seq<JobView>, in_flight: Option<JobView>) -> Seq<JobView> {
    match in_flight {
        Some(job) => queue.push(job),
        None => queue,
    }
}

/// Every job is well formed.
pub open spec fn all_wf(jobs: Seq<JobView>) -> bool {
    forall|i: int| 0 <= i < jobs.len() ==> (#[trigger] jobs[i]).wf()
}

/// Some job for `service` at `addr` is healthy.
pub open spec fn healthy_job(jobs: Seq<JobView>, addr: AddrView, service: Service) -> bool {
    exists|i: int|
        0 <= i < jobs.len() && (#[trigger] jobs[i]).addr == addr && jobs[i].service == service
            && jobs[i].is_healthy()
}

/// Some job for a service at `addr` is healthy.
pub open spec fn healthy_at(jobs: Seq<JobView>, addr: AddrView) -> bool {
    exists|i: int| 0 <= i < jobs.len() && (#[trigger] jobs[i]).addr == addr && jobs[i].is_healthy()
}

/// The registry lists exactly the services whose job is healthy.
pub open spec fn mirrors(reg: Seq<(AddrView, ServerView)>, jobs: Seq<JobView>) -> bool {
    forall|addr: AddrView, service: Service|
        #![trigger lists(reg, addr, service)]
        #![trigger healthy_job(jobs, addr, service)]
        lists(reg, addr, service) <==> healthy_job(jobs, addr, service)
}

/// The clock has moved on since the job was last probed.
pub open spec fn clock_moved_on(job: JobView, now: Timestamp) -> bool {
    match job.last_check {
        Some(t) => t < now,
        None => true,
    }
}

/// None of `jobs` was ever probed.
pub open spec fn all_unprobed(jobs: Seq<JobView>) -> bool {
    forall|k: int|
        0 <= k < jobs.len() ==> (#[trigger] jobs[k]).last_check is None && jobs[k].last_healthy
            is None
}

impl ManagerView {
    /// Queue and registry fit together, given the job that is out for its
    /// probe: the registry is well formed, the queue is in order, every
    /// service has one job at most, and the registry lists a service exactly
    /// when its job is healthy.
    pub open spec fn coherent(self, in_flight: Option<JobView>) -> bool {
        let jobs = all_jobs(self.queue, in_flight);
        &&& registry_wf(self.healthy)
        &&& in_order(self.queue)
        &&& one_job_per_service(jobs)
        &&& all_wf(jobs)
        &&& mirrors(self.healthy, jobs)
    }
}

/// What a job that is put into a sequence of jobs changes: it has to be well
/// formed and the only one for its service, and it counts as a healthy job
/// if it is one.
pub proof fn lemma_jobs_insert(q: Seq<JobView>, p: int, x: JobView)
    requires
        0 <= p <= q.len(),
    ensures
        all_wf(q.insert(p, x)) <==> all_wf(q) && x.wf(),
        one_job_per_service(q.insert(p, x)) <==> one_job_per_service(q) && no_job_like(q, x),
        forall|a: AddrView, s: Service| #[trigger]
            healthy_job(q.insert(p, x), a, s) <==> healthy_job(q, a, s) || (x.addr == a
                && x.service == s && x.is_healthy()),
{
    let r = q.insert(p, x);
    q.insert_ensures(p, x);
    // where a job of `q` stands in `r`, and the other way round
    let up = |i: int| if i < p { i } else { i + 1 };
    let down = |k: int| if k < p { k } else { k - 1 };
    assert forall|i: int| 0 <= i < q.len() implies r[up(i)] == q[i] by {}
    assert forall|k: int| 0 <= k < r.len() && k != p implies r[k] == q[down(k)] by {}
    if all_wf(r) {
        assert forall|i: int| 0 <= i < q.len() implies (#[trigger] q[i]).wf() by {
            assert(r[up(i)].wf());
        }
    }
    if one_job_per_service(r) {
        assert forall|i: int, j: int| 0 <= i < j < q.len() implies !same_service(
            #[trigger] q[i],
            #[trigger] q[j],
        ) by {
            assert(!same_service(r[up(i)], r[up(j)]));
        }
        assert forall|k: int| 0 <= k < q.len() implies !same_service(#[trigger] q[k], x) by {
            assert(r[up(k)] == q[k] && r[p] == x);
        }
    }
    if one_job_per_service(q) && no_job_like(q, x) {
        assert forall|i: int, j: int| 0 <= i < j < r.len() implies !same_service(
            #[trigger] r[i],
            #[trigger] r[j],
        ) by {
            assert(i == p || r[i] == q[down(i)]);
            assert(j == p || r[j] == q[down(j)]);
        }
    }
    assert forall|a: AddrView, s: Service| #[trigger]
        healthy_job(r, a, s) <==> healthy_job(q, a, s) || (x.addr == a && x.service == s
            && x.is_healthy()) by {
        if healthy_job(r, a, s) {
            let k = choose|k: int|
                0 <= k < r.len() && (#[trigger] r[k]).addr == a && r[k].service == s
                    && r[k].is_healthy();
            assert(k == p || r[k] == q[down(k)]);
        }
        if healthy_job(q, a, s) {
            let i = choose|i: int|
                0 <= i < q.len() && (#[trigger] q[i]).addr == a && q[i].service == s
                    && q[i].is_healthy();
            assert(r[up(i)] == q[i]);
        }
        assert(r[p] == x);
    }
}

/// The same for a job that is put at the end.
pub proof fn lemma_jobs_push(q: Seq<JobView>, x: JobView)
    ensures
        all_wf(q.push(x)) <==> all_wf(q) && x.wf(),
        one_job_per_service(q.push(x)) <==> one_job_per_service(q) && no_job_like(q, x),
        forall|a: AddrView, s: Service| #[trigger]
            healthy_job(q.push(x), a, s) <==> healthy_job(q, a, s) || (x.addr == a && x.service
                == s && x.is_healthy()),
{
    assert(q.push(x) =~= q.insert(q.len() as int, x));
    lemma_jobs_insert(q, q.len() as int, x);
}

/// The registry holds a server exactly while one of the services at its
/// address has a healthy job, that is one whose last probe succeeded.
pub proof fn law_server_listed_iff_healthy(
    manager: ManagerView,
    in_flight: Option<JobView>,
    addr: AddrView,
)
    requires
        manager.coherent(in_flight),
    ensures
        has_entry(manager.healthy, addr) <==> healthy_at(
            all_jobs(manager.queue, in_flight),
            addr,
        ),
{
    let reg = manager.healthy;
    let jobs = all_jobs(manager.queue, in_flight);
    lemma_has_entry(reg, addr);
    if has_entry(reg, addr) {
        // the server has a service, which is listed: its job is healthy
        let i = choose|i: int| 0 <= i < reg.len() && (#[trigger] reg[i]).0 == addr;
        let service = reg[i].1.services[0];
        lemma_lists(reg, addr, service);
        assert(healthy_job(jobs, addr, service));
    }
    if healthy_at(jobs, addr) {
        // the service of the healthy job is listed
        let k = choose|k: int|
            0 <= k < jobs.len() && (#[trigger] jobs[k]).addr == addr && jobs[k].is_healthy();
        assert(lists(reg, addr, jobs[k].service));
    }
}

/// A manager with no job and no server is coherent.
pub proof fn law_empty_manager_coherent(manager: ManagerView)
    requires
        manager.queue.len() == 0,
        manager.healthy.len() == 0,
    ensures
        manager.coherent(None),
{
    let reg = manager.healthy;
    assert forall|addr: AddrView, service: Service| !lists(reg, addr, service) by {
        lemma_lists(reg, addr, service);
    }
}

/// Handing out the job at the head of the queue keeps the manager coherent:
/// the job is out of the queue, and still answered for.
pub proof fn law_start_keeps_coherence(manager: ManagerView)
    requires
        manager.coherent(None),
        manager.queue.len() > 0,
    ensures
        (ManagerView { queue: manager.queue.drop_first(), ..manager }).coherent(
            Some(manager.queue[0]),
        ),
{
    let q = manager.queue;
    let rest = q.drop_first();
    let head = q[0];
    assert(q =~= rest.insert(0, head));
    lemma_jobs_insert(rest, 0, head);
    lemma_jobs_push(rest, head);
    assert forall|i: int, j: int| 0 <= i <= j < rest.len() implies rest[i].priority()
        <= rest[j].priority() by {
        assert(rest[i] == q[i + 1] && rest[j] == q[j + 1]);
    }
}

/// In a coherent manager the registry says of the job that is out for its
/// probe what the job says of itself, so that every outcome can be booked.
pub proof fn law_coherent_agrees(manager: ManagerView, job: JobView, succeeded: bool)
    requires
        manager.coherent(Some(job)),
    ensures
        manager.agrees_with(job, succeeded),
{
    let q = manager.queue;
    lemma_jobs_push(q, job);
    // no job in the queue is for the service of `job`, healthy or not
    assert(!healthy_job(q, job.addr, job.service));
    assert(healthy_job(q.push(job), job.addr, job.service) <==> job.is_healthy());
}

/// Booking a success keeps the manager coherent.
pub proof fn law_success_keeps_coherence(
    manager: ManagerView,
    job: JobView,
    features: FeaturesView,
    now: Timestamp,
)
    requires
        manager.coherent(Some(job)),
    ensures
        manager.after_success(job, features, now).coherent(None),
{
    let q = manager.queue;
    let reg = manager.healthy;
    let after = manager.after_success(job, features, now);
    let booked = job.after_success(now);
    let p = slot(q, booked.priority());
    lemma_slot(q, booked.priority());
    lemma_enqueue_in_order(q, booked);
    lemma_jobs_push(q, job);
    lemma_jobs_insert(q, p, booked);
    law_coherent_agrees(manager, job, true);
    assert(same_service(booked, job) && booked.is_healthy() && booked.wf());
    assert(no_job_like(q, booked));
    if !job.is_healthy() {
        lemma_with_service(reg, job.addr, job.hostname, features, job.service);
    }
    assert(mirrors(after.healthy, after.queue));
}

/// Booking a failure keeps the manager coherent, if the clock has moved on
/// since the job was last probed.
pub proof fn law_failure_keeps_coherence(manager: ManagerView, job: JobView, now: Timestamp)
    requires
        manager.coherent(Some(job)),
        clock_moved_on(job, now),
    ensures
        manager.after_failure(job, now).coherent(None),
{
    let q = manager.queue;
    let reg = manager.healthy;
    let after = manager.after_failure(job, now);
    let booked = job.after_failure(now);
    let p = slot(q, booked.priority());
    lemma_slot(q, booked.priority());
    lemma_enqueue_in_order(q, booked);
    lemma_jobs_push(q, job);
    lemma_jobs_insert(q, p, booked);
    law_coherent_agrees(manager, job, false);
    // the clock has moved on: the failure is later than the last success
    assert(same_service(booked, job) && !booked.is_healthy() && booked.wf());
    assert(no_job_like(q, booked));
    if job.is_healthy() {
        lemma_without_service(reg, job.addr, job.service);
    }
    assert(!healthy_job(q, job.addr, job.service));
    assert(mirrors(after.healthy, after.queue));
}

/// Booking the outcome of a health check keeps the manager coherent, if the
/// clock has moved on since the job was last probed.
pub proof fn law_health_check_keeps_coherence(
    manager: ManagerView,
    job: JobView,
    probed: Result<FeaturesView, crate::error::DiscoveryError>,
    now: Timestamp,
)
    requires
        manager.coherent(Some(job)),
        clock_moved_on(job, now),
    ensures
        manager.after_health_check(job, probed, now).coherent(None),
{
    match manager.verdict(probed) {
        Ok(features) => law_success_keeps_coherence(manager, job, features, now),
        Err(_) => law_failure_keeps_coherence(manager, job, now),
    }
}

/// For a job that was due when it was handed out, the clock has moved on
/// by the time its probe ends, unless it runs backwards.
pub proof fn law_due_job_sees_clock_move(job: JobView, started: Timestamp, now: Timestamp)
    requires
        job.is_due(started),
        started <= now,
    ensures
        clock_moved_on(job, now),
{
}

/// Adding jobs that were never probed keeps the manager coherent, if every
/// service still has one job at most.
pub proof fn law_enqueue_keeps_coherence(
    manager: ManagerView,
    in_flight: Option<JobView>,
    jobs: Seq<JobView>,
)
    requires
        manager.coherent(in_flight),
        all_unprobed(jobs),
        one_job_per_service(all_jobs(manager.queue, in_flight) + jobs),
    ensures
        (ManagerView { queue: enqueue_all(manager.queue, jobs), ..manager }).coherent(in_flight),
    decreases jobs.len(),
{
    if jobs.len() > 0 {
        let q = manager.queue;
        let front = jobs.drop_last();
        let x = jobs.last();
        let old_jobs = all_jobs(q, in_flight);
        assert forall|i: int, j: int| 0 <= i < j < (old_jobs + front).len() implies !same_service(
            #[trigger] (old_jobs + front)[i],
            #[trigger] (old_jobs + front)[j],
        ) by {
            assert((old_jobs + front)[i] == (old_jobs + jobs)[i]);
            assert((old_jobs + front)[j] == (old_jobs + jobs)[j]);
        }
        assert forall|k: int| 0 <= k < front.len() implies (#[trigger] front[k]).last_check
            is None && front[k].last_healthy is None by {
            assert(front[k] == jobs[k]);
        }
        law_enqueue_keeps_coherence(manager, in_flight, front);
        let mid = ManagerView { queue: enqueue_all(q, front), ..manager };
        lemma_jobs_after_enqueue_all(q, in_flight, front);
        let mid_jobs = all_jobs(mid.queue, in_flight);
        // the last job clashes with none of those that are there by now
        assert(no_job_like(mid_jobs, x)) by {
            assert forall|k: int| 0 <= k < mid_jobs.len() implies !same_service(
                #[trigger] mid_jobs[k],
                x,
            ) by {
                let i = choose|i: int|
                    0 <= i < (old_jobs + front).len() && (old_jobs + front)[i] == mid_jobs[k];
                assert((old_jobs + jobs)[i] == mid_jobs[k]);
                assert((old_jobs + jobs)[old_jobs.len() + jobs.len() - 1] == x);
            }
        }
        let p = slot(mid.queue, x.priority());
        lemma_slot(mid.queue, x.priority());
        lemma_enqueue_in_order(mid.queue, x);
        lemma_jobs_insert(mid.queue, p, x);
        let next = enqueue(mid.queue, x);
        match in_flight {
            Some(out) => {
                lemma_jobs_push(mid.queue, out);
                lemma_jobs_push(next, out);
                assert(no_job_like(mid.queue, x) && !same_service(out, x)) by {
                    assert forall|k: int| 0 <= k < mid.queue.len() implies !same_service(
                        #[trigger] mid.queue[k],
                        x,
                    ) by {
                        assert(mid_jobs[k] == mid.queue[k]);
                    }
                    assert(mid_jobs[mid.queue.len() as int] == out);
                }
                assert(no_job_like(next, out)) by {
                    next.insert_ensures(0, out);
                    mid.queue.insert_ensures(p, x);
                    assert forall|k: int| 0 <= k < next.len() implies !same_service(
                        #[trigger] next[k],
                        out,
                    ) by {
                        if k < p {
                            assert(next[k] == mid.queue[k]);
                        } else if k > p {
                            assert(next[k] == mid.queue[k - 1]);
                        }
                    }
                }
            },
            None => {},
        }
        let after = ManagerView { queue: next, ..manager };
        assert forall|addr: AddrView, service: Service|
            lists(after.healthy, addr, service) <==> healthy_job(
                all_jobs(next, in_flight),
                addr,
                service,
            ) by {
            assert(lists(mid.healthy, addr, service) <==> healthy_job(mid_jobs, addr, service));
        }
    }
}

/// Adding a default server keeps the manager coherent, if none of its
/// services has a job already and none is named twice.
pub proof fn law_default_server_keeps_coherence(
    manager: ManagerView,
    in_flight: Option<JobView>,
    addr: AddrView,
    hostname: Seq<char>,
    services: Seq<Service>,
)
    requires
        manager.coherent(in_flight),
        one_job_per_service(
            all_jobs(manager.queue, in_flight) + default_jobs(addr, hostname, services),
        ),
    ensures
        (ManagerView {
            queue: enqueue_all(manager.queue, default_jobs(addr, hostname, services)),
            ..manager
        }).coherent(in_flight),
{
    law_enqueue_keeps_coherence(manager, in_flight, default_jobs(addr, hostname, services));
}

/// An announcement that is admitted keeps the manager coherent, if it brings
/// no job for the service whose job is out for its probe. It cannot bring
/// one for a service that has a job in the queue, nor two for one service.
pub proof fn law_announcement_keeps_coherence(
    manager: ManagerView,
    in_flight: Option<JobView>,
    added_by: IpAddress,
    features: FeaturesView,
    table: Seq<(Seq<char>, Lookup)>,
)
    requires
        manager.coherent(in_flight),
        match in_flight {
            Some(out) => no_job_like(
                admitted_jobs(manager.queue, added_by, table, features.hosts),
                out,
            ),
            None => true,
        },
    ensures
        (ManagerView {
            queue: enqueue_all(
                manager.queue,
                admitted_jobs(manager.queue, added_by, table, features.hosts),
            ),
            ..manager
        }).coherent(in_flight),
{
    let q = manager.queue;
    let jobs = admitted_jobs(q, added_by, table, features.hosts);
    let known = all_jobs(q, in_flight);
    law_admitted_jobs(q, added_by, table, features.hosts);
    assert forall|i: int, j: int| 0 <= i < j < (known + jobs).len() implies !same_service(
        #[trigger] (known + jobs)[i],
        #[trigger] (known + jobs)[j],
    ) by {
        if j < known.len() {
            assert(!same_service(known[i], known[j]));
        } else if i >= known.len() {
            assert(!same_service(jobs[i - known.len()], jobs[j - known.len()]));
        } else {
            let new = jobs[j - known.len()];
            assert(vouched_for(q, added_by, new));
            if i < q.len() {
                assert(known[i] == q[i]);
                assert(!same_service(q[i], new));
            } else {
                assert(in_flight == Some(known[i]));
                assert(!same_service(new, known[i]));
            }
        }
    }
    assert forall|k: int| 0 <= k < jobs.len() implies (#[trigger] jobs[k]).last_check is None
        && jobs[k].last_healthy is None by {
        assert(vouched_for(q, added_by, jobs[k]));
    }
    law_enqueue_keeps_coherence(manager, in_flight, jobs);
}

/// Every job that is there after some jobs were added was there before or
/// is one of those.
pub proof fn lemma_jobs_after_enqueue_all(
    queue: Seq<JobView>,
    in_flight: Option<JobView>,
    jobs: Seq<JobView>,
)
    ensures
        forall|k: int|
            0 <= k < all_jobs(enqueue_all(queue, jobs), in_flight).len() ==> exists|i: int|
                0 <= i < (all_jobs(queue, in_flight) + jobs).len() && (all_jobs(
                    queue,
                    in_flight,
                ) + jobs)[i] == #[trigger] all_jobs(enqueue_all(queue, jobs), in_flight)[k],
    decreases jobs.len(),
{
    let before = all_jobs(queue, in_flight) + jobs;
    let after = all_jobs(enqueue_all(queue, jobs), in_flight);
    if jobs.len() == 0 {
        assert forall|k: int| 0 <= k < after.len() implies exists|i: int|
            0 <= i < before.len() && before[i] == #[trigger] after[k] by {
            assert(before[k] == after[k]);
        }
    } else {
        let front = jobs.drop_last();
        let x = jobs.last();
        lemma_jobs_after_enqueue_all(queue, in_flight, front);
        let mid_queue = enqueue_all(queue, front);
        let mid_before = all_jobs(queue, in_flight) + front;
        let mid = all_jobs(mid_queue, in_flight);
        let p = slot(mid_queue, x.priority());
        lemma_slot(mid_queue, x.priority());
        mid_queue.insert_ensures(p, x);
        let next = enqueue(mid_queue, x);
        assert forall|k: int| 0 <= k < after.len() implies exists|i: int|
            0 <= i < before.len() && before[i] == #[trigger] after[k] by {
            if k == p {
                assert(before[before.len() - 1] == x);
            } else {
                // the job stood in the queue before `x` came, or is out
                let m = if k < p { k } else { k - 1 };
                assert(mid[m] == after[k]);
                let i = choose|i: int| 0 <= i < mid_before.len() && mid_before[i] == mid[m];
                assert(before[i] == mid_before[i]);
            }
        }
    }
}

} // verus!
