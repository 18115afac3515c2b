//! A health check job: one service of one server, and how its probes went.
use crate::address::{AddrView, Hostname, IpAddress, ServerAddr, Service};
use vstd::prelude::*;

verus! {

/// A reading of a clock that never runs backwards, in seconds.
pub type Timestamp = u64;

/// The seconds that pass between two probes of one service.
pub const HEALTH_CHECK_FREQ: u64 = 3600;

/// The seconds from the start of one health check to the start of the next.
pub const JOB_INTERVAL: u64 = 1;

/// A job that has failed this many times in a row is given up.
pub const MAX_CONSECUTIVE_FAILURES: usize = 24;

/// A queued health check job, one per service and port, not per server.
#[derive(Debug)]
pub struct HealthCheck {
    pub addr: ServerAddr,
    /// The name the server was added under: dialled for onion services, sent
    /// as the server name with TLS.
    pub hostname: Hostname,
    pub service: Service,
    /// Seeded by the operator, not announced by a peer.
    pub is_default: bool,
    /// Who announced the server; nobody, for a default server.
    pub added_by: Option<IpAddress>,
    /// When the service was last probed, if ever.
    pub last_check: Option<Timestamp>,
    /// When a probe last succeeded, if ever.
    pub last_healthy: Option<Timestamp>,
    pub consecutive_failures: usize,
}

/// A `HealthCheck` as contracts see it.
pub struct JobView {
    pub addr: AddrView,
    pub hostname: Seq<char>,
    pub service: Service,
    pub is_default: bool,
    pub added_by: Option<IpAddress>,
    pub last_check: Option<Timestamp>,
    pub last_healthy: Option<Timestamp>,
    pub consecutive_failures: usize,
}

impl View for HealthCheck {
    type V = JobView;

    open spec fn view(&self) -> JobView {
        JobView {
            addr: self.addr@,
            hostname: self.hostname@,
            service: self.service,
            is_default: self.is_default,
            added_by: self.added_by,
            last_check: self.last_check,
            last_healthy: self.last_healthy,
            consecutive_failures: self.consecutive_failures,
        }
    }
}

/// The jobs of a sequence as contracts see them.
pub open spec fn job_views(jobs: Seq<HealthCheck>) -> Seq<JobView> {
    Seq::new(jobs.len(), |i: int| jobs[i]@)
}

/// Where a time of last check stands in the schedule: never checked comes
/// before every time, and an earlier time before a later one.
pub open spec fn urgency(last_check: Option<Timestamp>) -> int {
    match last_check {
        None => -1,
        Some(t) => t as int,
    }
}

impl JobView {
    /// A job as it is when it enters the queue: never probed, a default job
    /// exactly when nobody announced it.
    pub open spec fn fresh(
        addr: AddrView,
        hostname: Seq<char>,
        service: Service,
        added_by: Option<IpAddress>,
    ) -> JobView {
        JobView {
            addr,
            hostname,
            service,
            is_default: added_by is None,
            added_by,
            last_check: None,
            last_healthy: None,
            consecutive_failures: 0,
        }
    }

    /// The most recent probe succeeded.
    pub open spec fn is_healthy(self) -> bool {
        self.last_check is Some && self.last_check == self.last_healthy
    }

    /// A failing job stays in the schedule if it was healthy once or is a
    /// default job, and has not failed too often in a row.
    pub open spec fn should_retry(self) -> bool {
        (self.last_healthy is Some || self.is_default) && self.consecutive_failures
            < MAX_CONSECUTIVE_FAILURES
    }

    /// The job may be probed at `now`: it never was, or a full period has
    /// passed since.
    pub open spec fn is_due(self, now: Timestamp) -> bool {
        match self.last_check {
            None => true,
            Some(t) => now - t >= HEALTH_CHECK_FREQ,
        }
    }

    pub open spec fn priority(self) -> int {
        urgency(self.last_check)
    }

    /// The job after a probe at `now` that succeeded.
    pub open spec fn after_success(self, now: Timestamp) -> JobView {
        JobView {
            last_check: Some(now),
            last_healthy: Some(now),
            consecutive_failures: 0,
            ..self
        }
    }

    /// The job after a probe at `now` that failed.
    pub open spec fn after_failure(self, now: Timestamp) -> JobView {
        JobView {
            last_check: Some(now),
            consecutive_failures: (self.consecutive_failures + 1) as usize,
            ..self
        }
    }

    /// No success is recorded later than the last probe.
    pub open spec fn wf(self) -> bool {
        match self.last_healthy {
            None => true,
            Some(h) => self.last_check matches Some(c) && h <= c,
        }
    }
}

/// Two jobs are for the same service of the same server.
pub open spec fn same_service(a: JobView, b: JobView) -> bool {
    a.addr == b.addr && a.service == b.service
}

/// No service of any server has two jobs.
pub open spec fn one_job_per_service(jobs: Seq<JobView>) -> bool {
    forall|i: int, j: int|
        0 <= i < j < jobs.len() ==> !same_service(#[trigger] jobs[i], #[trigger] jobs[j])
}

/// None of `jobs` is for the service that `job` is for.
pub open spec fn no_job_like(jobs: Seq<JobView>, job: JobView) -> bool {
    forall|k: int| 0 <= k < jobs.len() ==> !same_service(#[trigger] jobs[k], job)
}

/// A job that fails is kept if it is a default job or was healthy once, and
/// this failure is not the last of as many in a row as are borne.
pub proof fn law_retry_policy(job: JobView, now: Timestamp)
    requires
        job.consecutive_failures < usize::MAX,
    ensures
        job.after_failure(now).should_retry() <==> (job.is_default || job.last_healthy is Some)
            && job.consecutive_failures + 1 < MAX_CONSECUTIVE_FAILURES,
{
}

/// A default job is kept at every failure in a row short of the limit, the
/// 23rd being the last such, and given up at the one that reaches it.
pub proof fn law_default_job_is_given_time(job: JobView, now: Timestamp)
    requires
        job.is_default,
        job.consecutive_failures < usize::MAX,
    ensures
        job.after_failure(now).should_retry() <==> job.after_failure(now).consecutive_failures
            < MAX_CONSECUTIVE_FAILURES,
        job.consecutive_failures == 22 ==> job.after_failure(now).should_retry(),
        job.consecutive_failures == 23 ==> !job.after_failure(now).should_retry(),
{
}

/// An announced job that was never healthy is given up at its first failure.
pub proof fn law_announced_job_must_prove_itself(job: JobView, now: Timestamp)
    requires
        !job.is_default,
        job.last_healthy is None,
    ensures
        !job.after_failure(now).should_retry(),
{
}

/// A success sets the count of failures in a row to zero and makes the job
/// healthy; a failure raises the count by one and leaves the job unhealthy,
/// if the clock has moved on since the job was last healthy.
pub proof fn law_failure_count(job: JobView, now: Timestamp)
    ensures
        job.after_success(now).consecutive_failures == 0,
        job.after_success(now).is_healthy(),
        job.consecutive_failures < usize::MAX ==> job.after_failure(now).consecutive_failures
            == job.consecutive_failures + 1,
        job.last_healthy != Some(now) ==> !job.after_failure(now).is_healthy(),
{
}

impl HealthCheck {
    pub fn new(
        addr: ServerAddr,
        hostname: Hostname,
        service: Service,
        added_by: Option<IpAddress>,
    ) -> (job: HealthCheck)
        ensures
            job@ == JobView::fresh(addr@, hostname@, service, added_by),
    {
        HealthCheck {
            addr,
            hostname,
            service,
            is_default: added_by.is_none(),
            added_by,
            last_check: None,
            last_healthy: None,
            consecutive_failures: 0,
        }
    }

    pub fn is_healthy(&self) -> (healthy: bool)
        ensures
            healthy == self@.is_healthy(),
    {
        match (self.last_check, self.last_healthy) {
            (Some(last_check), Some(last_healthy)) => last_check == last_healthy,
            _ => false,
        }
    }

    /// Allow the server to fail up to `MAX_CONSECUTIVE_FAILURES` times before
    /// giving up on it. A server that is not a default server and fails its
    /// very first probe is given up at once.
    pub fn should_retry(&self) -> (retry: bool)
        ensures
            retry == self@.should_retry(),
    {
        (self.last_healthy.is_some() || self.is_default) && self.consecutive_failures
            < MAX_CONSECUTIVE_FAILURES
    }

    /// Whether it is time to probe the job again.
    pub fn is_due(&self, now: Timestamp) -> (due: bool)
        ensures
            due == self@.is_due(now),
    {
        match self.last_check {
            None => true,
            Some(t) => now >= t && now - t >= HEALTH_CHECK_FREQ,
        }
    }

    /// Whether `self` comes after `other` in the schedule.
    pub fn is_after(&self, other: &HealthCheck) -> (after: bool)
        ensures
            after == (self@.priority() > other@.priority()),
    {
        match (self.last_check, other.last_check) {
            (None, _) => false,
            (Some(_), None) => true,
            (Some(a), Some(b)) => a > b,
        }
    }

    /// Whether the job is the one for `service` at `addr`.
    pub fn is_for(&self, addr: &ServerAddr, service: Service) -> (r: bool)
        ensures
            r == (self@.addr == addr@ && self@.service == service),
    {
        self.service == service && self.addr.same_as(addr)
    }

    /// Books a probe at `now` that succeeded.
    pub fn record_success(&mut self, now: Timestamp)
        ensures
            final(self)@ == old(self)@.after_success(now),
            final(self)@.consecutive_failures == 0,
            final(self)@.is_healthy(),
    {
        self.last_check = Some(now);
        self.last_healthy = self.last_check;
        self.consecutive_failures = 0;
    }

    /// Books a probe at `now` that failed.
    pub fn record_failure(&mut self, now: Timestamp)
        requires
            old(self).consecutive_failures < usize::MAX,
        ensures
            final(self)@ == old(self)@.after_failure(now),
            final(self)@.consecutive_failures == old(self)@.consecutive_failures + 1,
    {
        self.last_check = Some(now);
        self.consecutive_failures += 1;
    }
}

} // verus!
