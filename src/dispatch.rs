use crate::gate::DedupGate;
use crate::source::{advance, cursor_after, next_of, polls_from, JobPoller};
use vstd::prelude::*;

verus! {

/// How the loop paces itself: after an admission it waits `pauses` times for
/// `pause_ms` milliseconds; after exhaustion it waits `idle_ms` once.
#[derive(Clone, Copy, Debug, PartialEq, Eq, Structural)]
pub struct PacingConfig {
    pub pauses: u32,
    pub pause_ms: u64,
    pub idle_ms: u64,
}

impl PacingConfig {
    /// Four pauses of half a second after each admission, five seconds of
    /// idle backoff.
    pub fn standard() -> (r: PacingConfig)
        ensures
            r.pauses == 4,
            r.pause_ms == 500,
            r.idle_ms == 5000,
    {
        PacingConfig { pauses: 4, pause_ms: 500, idle_ms: 5000 }
    }
}

/// What the loop does after one poll.
#[derive(Clone, Copy, Debug, PartialEq, Eq, Structural)]
pub enum Action {
    /// Hand `id` to the offloader without waiting for it, then pause
    /// `pauses` times for `pause_ms` milliseconds each.
    Dispatch { id: u32, pauses: u32, pause_ms: u64 },
    /// `id` was admitted before: poll again at once.
    Skip { id: u32 },
    /// The source is exhausted: wait `ms` milliseconds, then poll again.
    Backoff { ms: u64 },
}

/// The total delay, in milliseconds, that the loop spends after `a`.
pub open spec fn delay_ms(a: Action) -> int {
    match a {
        Action::Dispatch { pauses, pause_ms, .. } => pauses * pause_ms,
        Action::Skip { .. } => 0,
        Action::Backoff { ms } => ms as int,
    }
}

/// The action that follows a poll yielding `polled` with `seen` admitted.
pub open spec fn decide_spec(seen: Set<u32>, polled: Option<u32>, cfg: PacingConfig) -> Action {
    match polled {
        Some(id) => if seen.contains(id) {
            Action::Skip { id }
        } else {
            Action::Dispatch { id, pauses: cfg.pauses, pause_ms: cfg.pause_ms }
        },
        None => Action::Backoff { ms: cfg.idle_ms },
    }
}

/// The admitted set after a poll yielding `polled`.
pub open spec fn seen_after(seen: Set<u32>, polled: Option<u32>) -> Set<u32> {
    match polled {
        Some(id) => seen.insert(id),
        None => seen,
    }
}

/// The admitted set after the polls `polls`, starting from `seen`.
pub open spec fn seen_through(seen: Set<u32>, polls: Seq<Option<u32>>) -> Set<u32>
    decreases polls.len(),
{
    if polls.len() == 0 {
        seen
    } else {
        seen_after(seen_through(seen, polls.drop_last()), polls.last())
    }
}

/// The actions the loop takes over the polls `polls`, starting from `seen`.
pub open spec fn run_actions(seen: Set<u32>, polls: Seq<Option<u32>>, cfg: PacingConfig) -> Seq<
    Action,
>
    decreases polls.len(),
{
    if polls.len() == 0 {
        Seq::empty()
    } else {
        run_actions(seen, polls.drop_last(), cfg).push(
            decide_spec(seen_through(seen, polls.drop_last()), polls.last(), cfg),
        )
    }
}

/// The ids handed to the offloader by `actions`, in order.
pub open spec fn dispatched(actions: Seq<Action>) -> Seq<u32>
    decreases actions.len(),
{
    if actions.len() == 0 {
        Seq::empty()
    } else {
        let prev = dispatched(actions.drop_last());
        match actions.last() {
            Action::Dispatch { id, .. } => prev.push(id),
            _ => prev,
        }
    }
}

/// Decides what follows a poll: admits a new id, skips one
/// seen before, and backs off when the source is exhausted.
pub fn decide(gate: &mut DedupGate, polled: Option<u32>, cfg: &PacingConfig) -> (r: Action)
    ensures
        r == decide_spec(old(gate).admitted(), polled, *cfg),
        final(gate).admitted() == seen_after(old(gate).admitted(), polled),
{
    match polled {
        Some(id) => {
            if gate.try_admit(id) {
                Action::Dispatch { id, pauses: cfg.pauses, pause_ms: cfg.pause_ms }
            } else {
                Action::Skip { id }
            }
        },
        None => Action::Backoff { ms: cfg.idle_ms },
    }
}

/// The state of one dispatch run: the source, the admitted ids and the pacing.
pub struct Dispatcher {
    poller: JobPoller,
    gate: DedupGate,
    config: PacingConfig,
}

impl Dispatcher {
    /// The ids the source yields, in order.
    pub closed spec fn jobs(&self) -> Seq<u32> {
        self.poller.jobs()
    }

    /// How many polls have yielded an id so far.
    pub closed spec fn cursor(&self) -> nat {
        self.poller.cursor()
    }

    /// The ids admitted so far in this run.
    pub closed spec fn admitted(&self) -> Set<u32> {
        self.gate.admitted()
    }

    /// The pacing policy of this run.
    pub closed spec fn config(&self) -> PacingConfig {
        self.config
    }

    /// The cursor never passes the end of the source.
    pub open spec fn wf(&self) -> bool {
        self.cursor() <= self.jobs().len()
    }

    /// A run over `poller` with a gate that has admitted nothing.
    pub fn new(poller: JobPoller, config: PacingConfig) -> (r: Dispatcher)
        requires
            poller.wf(),
        ensures
            r.wf(),
            r.jobs() == poller.jobs(),
            r.cursor() == poller.cursor(),
            r.admitted() == Set::<u32>::empty(),
            r.config() == config,
    {
        Dispatcher { poller, gate: DedupGate::new(), config }
    }

    /// Polls the source once and decides what the loop does next.
    pub fn step(&mut self) -> (r: Action)
        requires
            old(self).wf(),
        ensures
            final(self).wf(),
            final(self).jobs() == old(self).jobs(),
            final(self).config() == old(self).config(),
            final(self).cursor() == advance(old(self).jobs(), old(self).cursor()),
            r == decide_spec(
                old(self).admitted(),
                next_of(old(self).jobs(), old(self).cursor()),
                old(self).config(),
            ),
            final(self).admitted() == seen_after(
                old(self).admitted(),
                next_of(old(self).jobs(), old(self).cursor()),
            ),
    {
        let polled = self.poller.poll_for_jobs();
        decide(&mut self.gate, polled, &self.config)
    }

    /// Runs the loop for `polls` polls, without waiting, and returns the
    /// actions taken in order.
    pub fn run_for(&mut self, polls: usize) -> (r: Vec<Action>)
        requires
            old(self).wf(),
        ensures
            final(self).wf(),
            final(self).jobs() == old(self).jobs(),
            final(self).config() == old(self).config(),
            final(self).cursor() == cursor_after(old(self).jobs(), old(self).cursor(), polls as nat),
            r@ == run_actions(
                old(self).admitted(),
                polls_from(old(self).jobs(), old(self).cursor(), polls as nat),
                old(self).config(),
            ),
            final(self).admitted() == seen_through(
                old(self).admitted(),
                polls_from(old(self).jobs(), old(self).cursor(), polls as nat),
            ),
    {
        let ghost jobs = self.jobs();
        let ghost c0 = self.cursor();
        let ghost seen0 = self.admitted();
        let ghost cfg = self.config();
        let mut actions: Vec<Action> = Vec::new();
        let mut k: usize = 0;
        while k < polls
            invariant
                k <= polls,
                self.wf(),
                self.jobs() == jobs,
                self.config() == cfg,
                self.cursor() == cursor_after(jobs, c0, k as nat),
                actions@ == run_actions(seen0, polls_from(jobs, c0, k as nat), cfg),
                self.admitted() == seen_through(seen0, polls_from(jobs, c0, k as nat)),
            decreases polls - k,
        {
            proof {
                lemma_polls_from_extend(jobs, c0, k as nat);
                let ps = polls_from(jobs, c0, (k + 1) as nat);
                assert(ps.drop_last() == polls_from(jobs, c0, k as nat));
            }
            let a = self.step();
            actions.push(a);
            proof {
                lemma_cursor_after_extend(jobs, c0, k as nat);
            }
            k = k + 1;
        }
        actions
    }
}

/// One more poll appends what a poll at the current cursor yields.
proof fn lemma_polls_from_extend(jobs: Seq<u32>, cursor: nat, n: nat)
    ensures
        polls_from(jobs, cursor, n).len() == n,
        polls_from(jobs, cursor, n + 1) == polls_from(jobs, cursor, n).push(
            next_of(jobs, cursor_after(jobs, cursor, n)),
        ),
    decreases n,
{
    if n > 0 {
        lemma_polls_from_extend(jobs, advance(jobs, cursor), (n - 1) as nat);
        assert(polls_from(jobs, cursor, n + 1) =~= polls_from(jobs, cursor, n).push(
            next_of(jobs, cursor_after(jobs, cursor, n)),
        ));
    } else {
        assert(polls_from(jobs, advance(jobs, cursor), 0) == Seq::<Option<u32>>::empty());
        assert(polls_from(jobs, cursor, 1) =~= seq![next_of(jobs, cursor)]);
    }
}

/// One more poll moves the cursor as a single poll does.
proof fn lemma_cursor_after_extend(jobs: Seq<u32>, cursor: nat, n: nat)
    ensures
        cursor_after(jobs, cursor, n + 1) == advance(jobs, cursor_after(jobs, cursor, n)),
    decreases n,
{
    if n > 0 {
        lemma_cursor_after_extend(jobs, advance(jobs, cursor), (n - 1) as nat);
    } else {
        assert(cursor_after(jobs, advance(jobs, cursor), 0) == advance(jobs, cursor));
    }
}

/// Whatever the polls yield, repeats included, no id is handed to the
/// offloader twice in a run, nor one that had been admitted before the
/// run; every id handed out is admitted afterwards.
pub proof fn lemma_no_duplicate_dispatch(seen: Set<u32>, polls: Seq<Option<u32>>, cfg: PacingConfig)
    ensures
        dispatched(run_actions(seen, polls, cfg)).no_duplicates(),
        forall|i: int|
            0 <= i < dispatched(run_actions(seen, polls, cfg)).len() ==> !seen.contains(
                #[trigger] dispatched(run_actions(seen, polls, cfg))[i],
            ),
        forall|i: int|
            0 <= i < dispatched(run_actions(seen, polls, cfg)).len() ==> seen_through(
                seen,
                polls,
            ).contains(#[trigger] dispatched(run_actions(seen, polls, cfg))[i]),
        seen.subset_of(seen_through(seen, polls)),
    decreases polls.len(),
{
    if polls.len() > 0 {
        let pre = polls.drop_last();
        lemma_no_duplicate_dispatch(seen, pre, cfg);
        let acts = run_actions(seen, polls, cfg);
        assert(acts.drop_last() == run_actions(seen, pre, cfg));
        let prev = dispatched(run_actions(seen, pre, cfg));
        let s = seen_through(seen, pre);
        match decide_spec(s, polls.last(), cfg) {
            Action::Dispatch { id, .. } => {
                assert(dispatched(acts) == prev.push(id));
                assert(!s.contains(id));
                assert forall|i: int| 0 <= i < prev.len() implies prev[i] != id by {
                    assert(s.contains(prev[i]));
                }
            },
            _ => {
                assert(dispatched(acts) == prev);
            },
        }
    }
}

/// An id seen before costs no delay: the loop polls again at once.
pub proof fn lemma_skip_has_no_delay(seen: Set<u32>, id: u32, cfg: PacingConfig)
    requires
        seen.contains(id),
    ensures
        decide_spec(seen, Some(id), cfg) == (Action::Skip { id }),
        delay_ms(decide_spec(seen, Some(id), cfg)) == 0,
        seen_after(seen, Some(id)) == seen,
{
}

/// Once the source is exhausted, every later poll ends in an idle backoff of
/// the configured length, and nothing more is admitted.
pub proof fn lemma_exhausted_backs_off(
    jobs: Seq<u32>,
    cursor: nat,
    seen: Set<u32>,
    cfg: PacingConfig,
    n: nat,
)
    requires
        cursor >= jobs.len(),
    ensures
        run_actions(seen, polls_from(jobs, cursor, n), cfg).len() == n,
        forall|i: int|
            0 <= i < n ==> #[trigger] run_actions(seen, polls_from(jobs, cursor, n), cfg)[i] == (
            Action::Backoff { ms: cfg.idle_ms }),
        seen_through(seen, polls_from(jobs, cursor, n)) == seen,
        dispatched(run_actions(seen, polls_from(jobs, cursor, n), cfg)).len() == 0,
    decreases n,
{
    crate::source::lemma_exhaustion_is_permanent(jobs, cursor, n);
    if n > 0 {
        let m = (n - 1) as nat;
        lemma_exhausted_backs_off(jobs, cursor, seen, cfg, m);
        lemma_polls_from_extend(jobs, cursor, m);
        crate::source::lemma_exhaustion_is_permanent(jobs, cursor, m);
        let ps = polls_from(jobs, cursor, n);
        assert(ps.drop_last() == polls_from(jobs, cursor, m));
        let acts = run_actions(seen, ps, cfg);
        let prev = run_actions(seen, polls_from(jobs, cursor, m), cfg);
        assert(acts == prev.push(Action::Backoff { ms: cfg.idle_ms }));
        assert(acts.drop_last() == prev);
        assert forall|i: int| 0 <= i < n implies #[trigger] acts[i] == (Action::Backoff {
            ms: cfg.idle_ms,
        }) by {
            if i < m {
                assert(acts[i] == prev[i]);
            }
        }
    }
}

} // verus!
