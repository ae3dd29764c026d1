//! The streaming deployment: the ingest decision that turns check-in stream
//! events into badge jobs, and the bounded FIFO queue a fixed pool of
//! printer-bound workers drains. A full queue makes the ingest thread block
//! rather than grow memory without bound; the model here exposes that as
//! `try_submit` refusing the job until a worker drains an entry.

use vstd::prelude::*;

verus! {

/// One label to print: the badge holder's display name and whether a
/// guardian/pickup-authorization notice applies.
pub struct BadgeJob {
    pub display_name: String,
    pub minor: bool,
}

/// Mathematical image of a `BadgeJob`.
pub ghost struct JobModel {
    pub display_name: Seq<char>,
    pub minor: bool,
}

impl View for BadgeJob {
    type V = JobModel;

    open spec fn view(&self) -> JobModel {
        JobModel { display_name: self.display_name@, minor: self.minor }
    }
}

/// One event from the check-in stream: whether it records a successful
/// check-in, and the user identity it concerns.
pub struct CheckinEvent {
    pub successful: bool,
    pub display_name: String,
}

/// The ingest gate: only events that record a successful check-in are
/// processed; every other event is discarded with no job.
pub fn ingest_decision(event: &CheckinEvent) -> (r: Option<String>)
    ensures
        event.successful ==> (r matches Some(n) && n@ == event.display_name@),
        !event.successful ==> r is None,
{
    if event.successful {
        Some(event.display_name.clone())
    } else {
        None
    }
}

/// Build the job for a processed event: a non-empty pickup-authorization
/// answer marks the holder a minor.
pub fn build_job(display_name: String, authorization_count: usize) -> (j: BadgeJob)
    ensures
        j@.display_name == display_name@,
        j@.minor == (authorization_count > 0),
{
    BadgeJob { minor: authorization_count > 0, display_name }
}

/// The queue and its fixed capacity, as mathematical values.
pub ghost struct QueueModel {
    pub jobs: Seq<JobModel>,
    pub capacity: nat,
}

/// Whether a submit would be accepted now; when false, the ingest thread
/// blocks until a worker drains an entry.
pub open spec fn submit_would_accept(jobs: Seq<JobModel>, capacity: nat) -> bool {
    jobs.len() < capacity
}

/// The queue contents after submitting a batch in order, or `None` from the
/// point a submit would block.
pub open spec fn submit_all(
    jobs: Seq<JobModel>,
    capacity: nat,
    incoming: Seq<JobModel>,
) -> Option<Seq<JobModel>>
    decreases incoming.len(),
{
    if incoming.len() == 0 {
        Some(jobs)
    } else if submit_would_accept(jobs, capacity) {
        submit_all(jobs.push(incoming[0]), capacity, incoming.drop_first())
    } else {
        None
    }
}

/// Law: a batch that fits within the capacity is accepted whole, and the
/// queue then holds it in submission order behind what was already queued;
/// since `take` always yields the front, a lone worker draining the queue
/// prints it in submission order.
pub proof fn lemma_batch_fits(jobs: Seq<JobModel>, capacity: nat, incoming: Seq<JobModel>)
    requires
        jobs.len() + incoming.len() <= capacity,
    ensures
        submit_all(jobs, capacity, incoming) == Some(jobs + incoming),
    decreases incoming.len(),
{
    if incoming.len() == 0 {
        assert(jobs + incoming =~= jobs);
    } else {
        lemma_batch_fits(jobs.push(incoming[0]), capacity, incoming.drop_first());
        assert(jobs.push(incoming[0]) + incoming.drop_first() =~= jobs + incoming);
    }
}

/// Law: a queue at capacity blocks the ingest thread, and a single drained
/// entry is enough to unblock it.
pub proof fn lemma_backpressure(jobs: Seq<JobModel>, capacity: nat)
    requires
        jobs.len() == capacity,
        capacity > 0,
    ensures
        !submit_would_accept(jobs, capacity),
        submit_would_accept(jobs.drop_first(), capacity),
{
}

/// The bounded FIFO job queue shared by the ingest thread and the workers.
pub struct JobQueue {
    jobs: Vec<BadgeJob>,
    capacity: usize,
}

impl View for JobQueue {
    type V = QueueModel;

    closed spec fn view(&self) -> QueueModel {
        QueueModel {
            jobs: self.jobs@.map_values(|j: BadgeJob| j@),
            capacity: self.capacity as nat,
        }
    }
}

impl JobQueue {
    /// The queue never holds more than its capacity, which is positive.
    pub open spec fn wf(&self) -> bool {
        &&& self@.jobs.len() <= self@.capacity
        &&& self@.capacity > 0
    }

    /// An empty queue with this capacity.
    pub fn new(capacity: usize) -> (q: JobQueue)
        requires
            capacity >= 1,
        ensures
            q@.jobs == Seq::<JobModel>::empty(),
            q@.capacity == capacity as nat,
            q.wf(),
    {
        let q = JobQueue { jobs: Vec::new(), capacity };
        proof {
            assert(q@.jobs =~= Seq::<JobModel>::empty());
        }
        q
    }

    /// How many jobs are waiting.
    pub fn len(&self) -> (n: usize)
        ensures
            n == self@.jobs.len(),
    {
        self.jobs.len()
    }

    /// The fixed capacity the queue was built with.
    pub fn capacity(&self) -> (n: usize)
        ensures
            n == self@.capacity,
    {
        self.capacity
    }

    /// Append a job, unless the queue is full: then the job is refused and
    /// the caller blocks (backpressure) and retries after a worker drains.
    pub fn try_submit(&mut self, job: BadgeJob) -> (accepted: bool)
        requires
            old(self).wf(),
        ensures
            final(self).wf(),
            final(self)@.capacity == old(self)@.capacity,
            accepted == submit_would_accept(old(self)@.jobs, old(self)@.capacity),
            accepted ==> final(self)@.jobs == old(self)@.jobs.push(job@),
            !accepted ==> final(self)@.jobs == old(self)@.jobs,
    {
        if self.jobs.len() < self.capacity {
            self.jobs.push(job);
            proof {
                assert(self@.jobs =~= old(self)@.jobs.push(job@));
            }
            true
        } else {
            false
        }
    }

    /// Take the oldest job, if any: jobs leave in submission order.
    pub fn take(&mut self) -> (r: Option<BadgeJob>)
        requires
            old(self).wf(),
        ensures
            final(self).wf(),
            final(self)@.capacity == old(self)@.capacity,
            old(self)@.jobs.len() == 0 ==> r is None && final(self)@.jobs == old(self)@.jobs,
            old(self)@.jobs.len() > 0 ==> (r matches Some(j) && j@ == old(self)@.jobs[0]
                && final(self)@.jobs == old(self)@.jobs.drop_first()),
    {
        if self.jobs.len() == 0 {
            None
        } else {
            let job = self.jobs.remove(0);
            proof {
                assert(self@.jobs =~= old(self)@.jobs.drop_first());
            }
            Some(job)
        }
    }

    /// Take every queued job in order: exactly what a lone worker prints
    /// when no more submissions arrive.
    pub fn drain_all(&mut self) -> (out: Vec<BadgeJob>)
        requires
            old(self).wf(),
        ensures
            final(self).wf(),
            final(self)@.capacity == old(self)@.capacity,
            final(self)@.jobs == Seq::<JobModel>::empty(),
            out@.map_values(|j: BadgeJob| j@) == old(self)@.jobs,
    {
        let mut out: Vec<BadgeJob> = Vec::new();
        proof {
            assert(out@.map_values(|j: BadgeJob| j@) + self@.jobs =~= old(self)@.jobs);
        }
        while self.jobs.len() > 0
            invariant
                self.wf(),
                self@.capacity == old(self)@.capacity,
                out@.map_values(|j: BadgeJob| j@) + self@.jobs == old(self)@.jobs,
            decreases self@.jobs.len(),
        {
            let ghost pre_out = out@;
            let ghost pre_jobs = self@.jobs;
            let job = self.jobs.remove(0);
            out.push(job);
            proof {
                assert(self@.jobs =~= pre_jobs.drop_first());
                assert(out@.map_values(|j: BadgeJob| j@) =~= pre_out.map_values(
                    |j: BadgeJob| j@,
                ).push(pre_jobs[0]));
                assert(out@.map_values(|j: BadgeJob| j@) + self@.jobs =~= old(self)@.jobs);
            }
        }
        proof {
            assert(self@.jobs =~= Seq::<JobModel>::empty());
            assert(out@.map_values(|j: BadgeJob| j@) =~= old(self)@.jobs);
        }
        out
    }
}

} // verus!
