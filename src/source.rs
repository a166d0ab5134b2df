use rand::Rng;
use vstd::prelude::*;

verus! {

/// How many ids a freshly generated batch holds.
pub const BATCH_SIZE: usize = 5;

/// Smallest id a generated batch may hold.
pub const ID_LOW: u32 = 1000;

/// One past the largest id a generated batch may hold.
pub const ID_HIGH: u32 = 10000;

/// What a poll at `cursor` yields: the id there, or `None` past the end.
pub open spec fn next_of(jobs: Seq<u32>, cursor: nat) -> Option<u32> {
    if cursor < jobs.len() {
        Some(jobs[cursor as int])
    } else {
        None
    }
}

/// Where the cursor stands after a poll at `cursor`.
pub open spec fn advance(jobs: Seq<u32>, cursor: nat) -> nat {
    if cursor < jobs.len() {
        cursor + 1
    } else {
        cursor
    }
}

/// Where the cursor stands after `n` polls starting at `cursor`.
pub open spec fn cursor_after(jobs: Seq<u32>, cursor: nat, n: nat) -> nat
    decreases n,
{
    if n == 0 {
        cursor
    } else {
        cursor_after(jobs, advance(jobs, cursor), (n - 1) as nat)
    }
}

/// The results of `n` polls starting at `cursor`, in order.
pub open spec fn polls_from(jobs: Seq<u32>, cursor: nat, n: nat) -> Seq<Option<u32>>
    decreases n,
{
    if n == 0 {
        Seq::empty()
    } else {
        seq![next_of(jobs, cursor)].add(polls_from(jobs, advance(jobs, cursor), (n - 1) as nat))
    }
}

/// Once the cursor has passed the end, every later poll reports exhaustion
/// and the cursor no longer moves.
pub proof fn lemma_exhaustion_is_permanent(jobs: Seq<u32>, cursor: nat, n: nat)
    requires
        cursor >= jobs.len(),
    ensures
        cursor_after(jobs, cursor, n) == cursor,
        polls_from(jobs, cursor, n).len() == n,
        forall|i: int| 0 <= i < n ==> #[trigger] polls_from(jobs, cursor, n)[i] == None::<u32>,
    decreases n,
{
    if n > 0 {
        lemma_exhaustion_is_permanent(jobs, cursor, (n - 1) as nat);
        let rest = polls_from(jobs, cursor, (n - 1) as nat);
        assert forall|i: int| 0 <= i < n implies #[trigger] polls_from(jobs, cursor, n)[i]
            == None::<u32> by {
            if i > 0 {
                assert(polls_from(jobs, cursor, n)[i] == rest[i - 1]);
            }
        }
    }
}

/// Relies on rand's `thread_rng().gen_range(low..high)`: a value drawn from
/// the half-open range, which it requires to be non-empty.
#[verifier::external_body]
fn random_id_in(low: u32, high: u32) -> (r: u32)
    requires
        low < high,
    ensures
        low <= r < high,
{
    rand::thread_rng().gen_range(low..high)
}

/// A finite, ordered sequence of job ids with a cursor that only advances.
pub struct JobPoller {
    jobs: Vec<u32>,
    index: usize,
}

impl JobPoller {
    /// The ids this source yields, in order.
    pub closed spec fn jobs(&self) -> Seq<u32> {
        self.jobs@
    }

    /// How many polls have yielded an id so far.
    pub closed spec fn cursor(&self) -> nat {
        self.index as nat
    }

    /// The cursor never passes the end of the ids.
    pub open spec fn wf(&self) -> bool {
        self.cursor() <= self.jobs().len()
    }

    /// Whether every id has been handed out.
    pub open spec fn is_exhausted(&self) -> bool {
        self.cursor() >= self.jobs().len()
    }

    /// A source over a batch of `BATCH_SIZE` random ids in `ID_LOW..ID_HIGH`.
    pub fn new() -> (r: JobPoller)
        ensures
            r.wf(),
            r.cursor() == 0,
            r.jobs().len() == BATCH_SIZE,
            forall|i: int| 0 <= i < BATCH_SIZE ==> ID_LOW <= #[trigger] r.jobs()[i] < ID_HIGH,
    {
        let mut jobs: Vec<u32> = Vec::new();
        let mut k: usize = 0;
        while k < BATCH_SIZE
            invariant
                k <= BATCH_SIZE,
                jobs@.len() == k,
                forall|i: int| 0 <= i < k ==> ID_LOW <= #[trigger] jobs@[i] < ID_HIGH,
            decreases BATCH_SIZE - k,
        {
            let id = random_id_in(ID_LOW, ID_HIGH);
            jobs.push(id);
            k = k + 1;
        }
        JobPoller::from_jobs(jobs)
    }

    /// A source over the given ids, none handed out yet.
    pub fn from_jobs(jobs: Vec<u32>) -> (r: JobPoller)
        ensures
            r.wf(),
            r.cursor() == 0,
            r.jobs() == jobs@,
    {
        JobPoller { jobs, index: 0 }
    }

    /// Yields the next id and advances, or reports exhaustion (`None`) and
    /// stays put; it keeps reporting exhaustion on every later call.
    pub fn poll_for_jobs(&mut self) -> (r: Option<u32>)
        requires
            old(self).wf(),
        ensures
            final(self).wf(),
            final(self).jobs() == old(self).jobs(),
            r == next_of(old(self).jobs(), old(self).cursor()),
            final(self).cursor() == advance(old(self).jobs(), old(self).cursor()),
    {
        if self.index < self.jobs.len() {
            let job = self.jobs[self.index];
            self.index = self.index + 1;
            Some(job)
        } else {
            None
        }
    }
}

} // verus!
