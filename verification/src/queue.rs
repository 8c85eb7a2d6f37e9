//! The queue of capture files that still await conversion.
//!
//! The queue is filled once, before any worker starts, and from then on only
//! drained. Its view is the sequence of pending jobs in the order in which
//! they will be handed out.

use vstd::prelude::*;

verus! {

/// What a request for a job is answered with when `pending` is the queue:
/// its first job, or `None` where it is empty.
pub open spec fn next_job<T>(pending: Seq<T>) -> Option<T> {
    if pending.len() == 0 {
        None
    } else {
        Some(pending[0])
    }
}

/// The queue that a request for a job leaves behind: `pending` without its
/// first job.
pub open spec fn rest_jobs<T>(pending: Seq<T>) -> Seq<T> {
    if pending.len() == 0 {
        pending
    } else {
        pending.skip(1)
    }
}

/// The queue that is left of `files` once `requests` jobs were asked for.
pub open spec fn after_requests<T>(files: Seq<T>, requests: nat) -> Seq<T>
    decreases requests,
{
    if requests == 0 {
        files
    } else {
        rest_jobs(after_requests(files, (requests - 1) as nat))
    }
}

/// A drain-only queue of jobs.
///
/// Jobs are stored back to front, so that handing one out is a `pop` from the
/// end of the vector.
#[derive(Debug)]
pub struct JobQueue<T> {
    pending: Vec<T>,
}

impl<T> View for JobQueue<T> {
    type V = Seq<T>;

    closed spec fn view(&self) -> Seq<T> {
        self.pending@.reverse()
    }
}

impl<T> JobQueue<T> {
    /// Builds the queue from the discovered files. The first file discovered
    /// is the first one handed out.
    pub fn new(files: Vec<T>) -> (queue: JobQueue<T>)
        ensures
            queue@ == files@,
    {
        let ghost all = files@;
        let mut files = files;
        let mut pending: Vec<T> = Vec::new();
        loop
            invariant
                files@.len() + pending@.len() == all.len(),
                files@ == all.take(files@.len() as int),
                pending@ == all.skip(files@.len() as int).reverse(),
            ensures
                files@.len() == 0,
            decreases files@.len(),
        {
            match files.pop() {
                Some(job) => {
                    proof {
                        let k = files@.len() as int;
                        assert(all.skip(k).reverse() =~= all.skip(k + 1).reverse().push(all[k]));
                    }
                    pending.push(job);
                },
                None => {
                    break ;
                },
            }
        }
        proof {
            assert(all.skip(0) =~= all);
            assert(all.reverse().reverse() =~= all);
        }
        JobQueue { pending }
    }

    /// The number of jobs that no worker has taken yet.
    pub fn len(&self) -> (n: usize)
        ensures
            n == self@.len(),
    {
        self.pending.len()
    }

    /// Whether every job has been taken.
    pub fn is_empty(&self) -> (empty: bool)
        ensures
            empty <==> self@.len() == 0,
    {
        self.pending.len() == 0
    }

    /// Hands out the next pending job, or `None` once the queue is drained.
    /// A job that was handed out is gone from the queue.
    pub fn take_one(&mut self) -> (job: Option<T>)
        ensures
            job == next_job(old(self)@),
            final(self)@ == rest_jobs(old(self)@),
    {
        let ghost before = self.pending@;
        let job = self.pending.pop();
        proof {
            if before.len() > 0 {
                assert(before.drop_last().reverse() =~= before.reverse().skip(1));
            }
        }
        job
    }
}

/// Decides whether there is a batch to run: `None` when no input was found,
/// otherwise the queue that holds every discovered file.
pub fn prepare_batch<T>(files: Vec<T>) -> (batch: Option<JobQueue<T>>)
    ensures
        files@.len() == 0 <==> batch is None,
        batch matches Some(queue) ==> queue@ == files@,
{
    if files.len() == 0 {
        None
    } else {
        Some(JobQueue::new(files))
    }
}

/// Draining hands out every file exactly once, in the order of discovery,
/// whoever asks: the request number `n` (counting from 0) is answered with
/// the file number `n`, and every request after the last file with `None`.
pub proof fn lemma_drain<T>(files: Seq<T>, n: nat)
    ensures
        n <= files.len() ==> after_requests(files, n) == files.skip(n as int),
        n < files.len() ==> next_job(after_requests(files, n)) == Some(files[n as int]),
        n >= files.len() ==> after_requests(files, n).len() == 0 && next_job(
            after_requests(files, n),
        ) is None,
    decreases n,
{
    if n == 0 {
        assert(files.skip(0) =~= files);
    } else {
        lemma_drain(files, (n - 1) as nat);
        if n <= files.len() {
            assert(files.skip(n - 1).skip(1) =~= files.skip(n as int));
        }
    }
}

} // verus!
