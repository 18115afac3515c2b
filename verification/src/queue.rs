//! The schedule: health check jobs in the order in which they fall due.
use crate::address::{AddrView, ServerAddr, Service};
use crate::job::{job_views, HealthCheck, JobView, Timestamp};
use vstd::prelude::*;

verus! {

/// A queue of health check jobs, the most overdue first. Jobs that were never
/// checked come before all others; among jobs of one urgency the one that
/// entered first leaves first.
#[derive(Debug)]
pub struct JobQueue {
    pub jobs: Vec<HealthCheck>,
}

impl View for JobQueue {
    type V = Seq<JobView>;

    open spec fn view(&self) -> Seq<JobView> {
        job_views(self.jobs@)
    }
}

/// Every job is at least as overdue as those behind it.
pub open spec fn in_order(q: Seq<JobView>) -> bool {
    forall|i: int, j: int| 0 <= i <= j < q.len() ==> q[i].priority() <= q[j].priority()
}

/// Where a job of the given priority goes: behind the last job that is at
/// least as overdue.
pub open spec fn slot(q: Seq<JobView>, priority: int) -> int
    decreases q.len(),
{
    if q.len() == 0 {
        0
    } else if q.last().priority() <= priority {
        q.len() as int
    } else {
        slot(q.drop_last(), priority)
    }
}

/// The queue with `job` added.
pub open spec fn enqueue(q: Seq<JobView>, job: JobView) -> Seq<JobView> {
    q.insert(slot(q, job.priority()), job)
}

/// The queue with each of `jobs` added, the first of them first.
pub open spec fn enqueue_all(q: Seq<JobView>, jobs: Seq<JobView>) -> Seq<JobView>
    decreases jobs.len(),
{
    if jobs.len() == 0 {
        q
    } else {
        enqueue(enqueue_all(q, jobs.drop_last()), jobs.last())
    }
}

/// Some job in the queue is for `service` at `addr`.
pub open spec fn pending(q: Seq<JobView>, addr: AddrView, service: Service) -> bool {
    exists|i: int| 0 <= i < q.len() && (#[trigger] q[i]).addr == addr && q[i].service == service
}

/// The slot lies within the queue, and every job from it on is less overdue.
pub proof fn lemma_slot(q: Seq<JobView>, priority: int)
    ensures
        0 <= slot(q, priority) <= q.len(),
        forall|i: int| slot(q, priority) <= i < q.len() ==> (#[trigger] q[i]).priority() > priority,
        slot(q, priority) > 0 ==> q[slot(q, priority) - 1].priority() <= priority,
    decreases q.len(),
{
    if q.len() > 0 && q.last().priority() > priority {
        let front = q.drop_last();
        lemma_slot(front, priority);
        assert forall|i: int| slot(q, priority) <= i < q.len() implies (#[trigger] q[i]).priority()
            > priority by {
            if i < front.len() {
                assert(q[i] == front[i]);
            }
        }
    }
}

/// Adding a job to a queue that is in order leaves it in order.
pub proof fn lemma_enqueue_in_order(q: Seq<JobView>, job: JobView)
    requires
        in_order(q),
    ensures
        in_order(enqueue(q, job)),
        enqueue(q, job).len() == q.len() + 1,
{
    let p = slot(q, job.priority());
    lemma_slot(q, job.priority());
    q.insert_ensures(p, job);
    let r = enqueue(q, job);
    assert forall|i: int, j: int| 0 <= i <= j < r.len() implies r[i].priority()
        <= r[j].priority() by {
        if i < p {
            assert(r[i] == q[i]);
            assert(q[i].priority() <= q[p - 1].priority());
        } else if i > p {
            assert(r[i] == q[i - 1]);
        }
        if j < p {
            assert(r[j] == q[j]);
        } else if j > p {
            assert(r[j] == q[j - 1]);
        }
    }
}

/// Adding jobs makes the queue longer by as many.
pub proof fn lemma_enqueue_all_len(q: Seq<JobView>, jobs: Seq<JobView>)
    ensures
        enqueue_all(q, jobs).len() == q.len() + jobs.len(),
    decreases jobs.len(),
{
    if jobs.len() > 0 {
        lemma_enqueue_all_len(q, jobs.drop_last());
        let mid = enqueue_all(q, jobs.drop_last());
        lemma_slot(mid, jobs.last().priority());
        mid.insert_ensures(slot(mid, jobs.last().priority()), jobs.last());
    }
}

/// While the job at the head of a queue that is in order is not due, no job
/// is: whenever some job is due, the head is.
pub proof fn law_nothing_due_behind_the_head(q: Seq<JobView>, now: Timestamp, i: int)
    requires
        in_order(q),
        0 <= i < q.len(),
        !q[0].is_due(now),
    ensures
        !q[i].is_due(now),
{
    assert(q[0].priority() <= q[i].priority());
}

/// While a job that was never checked is queued, the job at the head of a
/// queue that is in order is one that was never checked.
pub proof fn law_never_checked_goes_first(q: Seq<JobView>, i: int)
    requires
        in_order(q),
        0 <= i < q.len(),
        q[i].last_check is None,
    ensures
        q[0].last_check is None,
{
    assert(q[0].priority() <= q[i].priority());
}

/// The head of a queue that is in order is at least as overdue as every job.
pub proof fn law_head_is_most_overdue(q: Seq<JobView>, i: int)
    requires
        in_order(q),
        0 <= i < q.len(),
    ensures
        q[0].priority() <= q[i].priority(),
{
}

impl JobQueue {
    /// The queue is in order. A new queue is, and every method keeps it so.
    pub open spec fn wf(&self) -> bool {
        in_order(self@)
    }

    pub fn new() -> (queue: JobQueue)
        ensures
            queue@ == Seq::<JobView>::empty(),
            queue.wf(),
    {
        let queue = JobQueue { jobs: Vec::new() };
        assert(queue@ =~= Seq::<JobView>::empty());
        queue
    }

    pub fn len(&self) -> (n: usize)
        ensures
            n == self@.len(),
    {
        self.jobs.len()
    }

    /// The job that is next, if there is one.
    pub fn peek(&self) -> (head: Option<&HealthCheck>)
        ensures
            match head {
                Some(job) => self@.len() > 0 && job@ == self@[0],
                None => self@.len() == 0,
            },
    {
        if self.jobs.len() == 0 {
            None
        } else {
            Some(&self.jobs[0])
        }
    }

    /// Takes the job that is next out of the queue.
    pub fn pop(&mut self) -> (head: Option<HealthCheck>)
        ensures
            match head {
                Some(job) => old(self)@.len() > 0 && job@ == old(self)@[0] && final(self)@ == old(
                    self,
                )@.drop_first(),
                None => old(self)@.len() == 0 && final(self)@ == old(self)@,
            },
            in_order(old(self)@) ==> in_order(final(self)@),
    {
        if self.jobs.len() == 0 {
            None
        } else {
            let job = self.jobs.remove(0);
            assert(self@ =~= old(self)@.drop_first());
            Some(job)
        }
    }

    /// Adds a job, behind the jobs that are at least as overdue as it is.
    pub fn push(&mut self, job: HealthCheck)
        ensures
            final(self)@ == enqueue(old(self)@, job@),
            final(self)@.len() == old(self)@.len() + 1,
            in_order(old(self)@) ==> in_order(final(self)@),
    {
        let ghost q = self@;
        let ghost priority = job@.priority();
        let mut i = self.jobs.len();
        assert(q.take(i as int) =~= q);
        while i > 0 && self.jobs[i - 1].is_after(&job)
            invariant
                i <= self.jobs.len(),
                q == self@,
                priority == job@.priority(),
                slot(q, priority) == slot(q.take(i as int), priority),
            decreases i,
        {
            assert(q.take(i as int).drop_last() =~= q.take(i - 1));
            i -= 1;
        }
        proof {
            lemma_slot(q, priority);
            if in_order(q) {
                lemma_enqueue_in_order(q, job@);
            }
        }
        self.jobs.insert(i, job);
        assert(self@ =~= enqueue(q, job@));
    }

    /// Adds each of `jobs`, the first of them first.
    pub fn extend(&mut self, jobs: Vec<HealthCheck>)
        ensures
            final(self)@ == enqueue_all(old(self)@, job_views(jobs@)),
            final(self)@.len() == old(self)@.len() + jobs@.len(),
            in_order(old(self)@) ==> in_order(final(self)@),
    {
        let ghost all = job_views(jobs@);
        proof {
            lemma_enqueue_all_len(self@, all);
        }
        let mut rest = jobs;
        let ghost mut done: int = 0;
        assert(all.take(0) =~= Seq::<JobView>::empty());
        assert(job_views(rest@) =~= all.skip(0));
        while rest.len() > 0
            invariant
                0 <= done <= all.len(),
                rest@.len() == all.len() - done,
                job_views(rest@) =~= all.skip(done),
                self@ == enqueue_all(old(self)@, all.take(done)),
                in_order(old(self)@) ==> in_order(self@),
            decreases rest.len(),
        {
            assert(job_views(rest@)[0] == all.skip(done)[0]);
            let ghost before = rest@;
            let job = rest.remove(0);
            assert(job@ == all[done]);
            assert(all.take(done + 1).drop_last() =~= all.take(done));
            assert(all.take(done + 1).last() == all[done]);
            self.push(job);
            assert forall|k: int| 0 <= k < rest@.len() implies job_views(rest@)[k] == all[done
                + 1 + k] by {
                assert(rest@[k] == before[k + 1]);
                assert(job_views(before)[k + 1] == all.skip(done)[k + 1]);
            }
            proof {
                done = done + 1;
            }
            assert(job_views(rest@) =~= all.skip(done));
        }
        assert(all.take(done) =~= all);
    }

    /// Whether a job is queued for `service` at `addr`.
    pub fn holds(&self, addr: &ServerAddr, service: Service) -> (found: bool)
        ensures
            found == pending(self@, addr@, service),
    {
        any_job_for(&self.jobs, addr, service)
    }
}

/// Whether one of `jobs` is for `service` at `addr`.
pub fn any_job_for(jobs: &Vec<HealthCheck>, addr: &ServerAddr, service: Service) -> (found: bool)
    ensures
        found == pending(job_views(jobs@), addr@, service),
{
    let ghost q = job_views(jobs@);
    let mut i: usize = 0;
    while i < jobs.len()
        invariant
            i <= jobs.len(),
            q == job_views(jobs@),
            forall|k: int|
                0 <= k < i ==> !((#[trigger] q[k]).addr == addr@ && q[k].service == service),
        decreases jobs.len() - i,
    {
        if jobs[i].is_for(addr, service) {
            assert(q[i as int].addr == addr@);
            return true;
        }
        i += 1;
    }
    false
}

/// A job is pending in two sequences put together exactly when it is pending
/// in one of them.
pub proof fn lemma_pending_in_either(
    a: Seq<JobView>,
    b: Seq<JobView>,
    addr: AddrView,
    service: Service,
)
    ensures
        pending(a + b, addr, service) <==> pending(a, addr, service) || pending(b, addr, service),
{
    if pending(a + b, addr, service) {
        let i = choose|i: int|
            0 <= i < (a + b).len() && (#[trigger] (a + b)[i]).addr == addr && (a + b)[i].service
                == service;
        if i < a.len() {
            assert(a[i].addr == addr);
        } else {
            assert(b[i - a.len()].addr == addr);
        }
    }
    if pending(a, addr, service) {
        let i = choose|i: int|
            0 <= i < a.len() && (#[trigger] a[i]).addr == addr && a[i].service == service;
        assert((a + b)[i].addr == addr);
    }
    if pending(b, addr, service) {
        let i = choose|i: int|
            0 <= i < b.len() && (#[trigger] b[i]).addr == addr && b[i].service == service;
        assert((a + b)[a.len() + i].addr == addr);
    }
}

} // verus!
