//! The broker's side of a session: who gets which message, the sum of the
//! workers' counters, and what to do about a worker that ended.

use vstd::prelude::*;

verus! {

/// The counters of one fuzzing session, as a worker reports them and as the
/// broker sums them up.
#[derive(Clone, Copy, Debug, PartialEq, Eq, Structural)]
pub struct RunStatistics {
    /// Executions of the target so far.
    pub executions: u64,
    /// Test cases in the corpus.
    pub corpus_size: u64,
    /// Crashes seen, duplicates included.
    pub crashes: u64,
    /// Seconds since the session began.
    pub uptime: u64,
}

/// The three kinds of message that workers send.
#[derive(Clone, Copy, Debug, PartialEq, Eq, Structural)]
pub enum MessageKind {
    NewTestCase,
    NewCrash,
    StatUpdate,
}

/// A message from a worker.
#[derive(Clone, Debug, PartialEq, Eq)]
pub enum Message {
    /// An input that the sender admitted, with the coverage that it added.
    NewTestCase { bytes: Vec<u8>, coverage: Vec<u8> },
    /// A crash that the sender persisted.
    NewCrash { signature: u64, bytes: Vec<u8> },
    /// The sender's counters.
    StatUpdate { stats: RunStatistics },
}

impl Message {
    /// The kind of the message.
    pub open spec fn kind_spec(&self) -> MessageKind {
        match self {
            Message::NewTestCase { .. } => MessageKind::NewTestCase,
            Message::NewCrash { .. } => MessageKind::NewCrash,
            Message::StatUpdate { .. } => MessageKind::StatUpdate,
        }
    }

    /// The kind of the message.
    pub fn kind(&self) -> (k: MessageKind)
        ensures
            k == self.kind_spec(),
    {
        match self {
            Message::NewTestCase { .. } => MessageKind::NewTestCase,
            Message::NewCrash { .. } => MessageKind::NewCrash,
            Message::StatUpdate { .. } => MessageKind::StatUpdate,
        }
    }
}

/// Whether the broker passes a message of this kind from `sender` on to
/// `worker`: discoveries go to every other worker, counters to none.
pub open spec fn forwarded_to(kind: MessageKind, sender: usize, workers: usize, worker: usize) -> bool {
    kind != MessageKind::StatUpdate && worker < workers && worker != sender
}

/// The workers below `n` that a message is passed on to, in increasing
/// order.
pub open spec fn recipients_below(kind: MessageKind, sender: usize, workers: usize, n: nat) -> Seq<
    usize,
>
    decreases n,
{
    if n == 0 {
        Seq::empty()
    } else {
        let before = recipients_below(kind, sender, workers, (n - 1) as nat);
        if forwarded_to(kind, sender, workers, (n - 1) as usize) {
            before.push((n - 1) as usize)
        } else {
            before
        }
    }
}

/// The workers that the broker passes a message on to: for a new test case
/// or a new crash every worker but the sender, in increasing order; for
/// counters none, the broker keeps them.
pub fn recipients(kind: MessageKind, sender: usize, workers: usize) -> (to: Vec<usize>)
    ensures
        to@ == recipients_below(kind, sender, workers, workers as nat),
        forall|w: usize| to@.contains(w) <==> forwarded_to(kind, sender, workers, w),
{
    let mut to: Vec<usize> = Vec::new();
    let forward: bool = match kind {
        MessageKind::StatUpdate => false,
        _ => true,
    };
    let mut w: usize = 0;
    while w < workers
        invariant
            w <= workers,
            forward == (kind != MessageKind::StatUpdate),
            to@ == recipients_below(kind, sender, workers, w as nat),
            forall|x: usize| to@.contains(x) <==> x < w && forwarded_to(kind, sender, workers, x),
        decreases workers - w,
    {
        let ghost before = to@;
        if forward && w != sender {
            to.push(w);
            assert forall|x: usize| to@.contains(x) <==> x < w + 1 && forwarded_to(
                kind,
                sender,
                workers,
                x,
            ) by {
                if to@.contains(x) {
                    let i = choose|i: int| 0 <= i < to@.len() && to@[i] == x;
                    if i < before.len() {
                        assert(before[i] == x);
                        assert(before.contains(x));
                    }
                }
                if x < w + 1 && forwarded_to(kind, sender, workers, x) {
                    if x < w {
                        assert(before.contains(x));
                        let i = choose|i: int| 0 <= i < before.len() && before[i] == x;
                        assert(to@[i] == x);
                    } else {
                        assert(to@[before.len() as int] == x);
                    }
                }
            }
        }
        w = w + 1;
    }
    to
}

/// `a + b`, or the largest value where the sum does not fit.
pub open spec fn capped_sum(a: u64, b: u64) -> u64 {
    if a + b > u64::MAX {
        u64::MAX
    } else {
        (a + b) as u64
    }
}

/// The larger of the two.
pub open spec fn larger(a: u64, b: u64) -> u64 {
    if a >= b {
        a
    } else {
        b
    }
}

/// The counters of two workers taken together: executions, corpus sizes and
/// crashes add up, and the uptime is the longer one.
pub open spec fn combined(a: RunStatistics, b: RunStatistics) -> RunStatistics {
    RunStatistics {
        executions: capped_sum(a.executions, b.executions),
        corpus_size: capped_sum(a.corpus_size, b.corpus_size),
        crashes: capped_sum(a.crashes, b.crashes),
        uptime: larger(a.uptime, b.uptime),
    }
}

/// Counters that are all 0.
pub open spec fn no_statistics() -> RunStatistics {
    RunStatistics { executions: 0, corpus_size: 0, crashes: 0, uptime: 0 }
}

/// The reports taken together, from the first on.
pub open spec fn totals_of(reports: Seq<RunStatistics>) -> RunStatistics
    decreases reports.len(),
{
    if reports.len() == 0 {
        no_statistics()
    } else {
        combined(totals_of(reports.drop_last()), reports.last())
    }
}

/// Executions per second over the session; with no second gone yet, the
/// number of executions.
pub open spec fn rate_of(stats: RunStatistics) -> u64 {
    if stats.uptime == 0 {
        stats.executions
    } else {
        (stats.executions / stats.uptime) as u64
    }
}

fn add_capped(a: u64, b: u64) -> (sum: u64)
    ensures
        sum == capped_sum(a, b),
{
    if a > u64::MAX - b {
        u64::MAX
    } else {
        a + b
    }
}

/// Takes the counters of two workers together.
pub fn combine(a: RunStatistics, b: RunStatistics) -> (sum: RunStatistics)
    ensures
        sum == combined(a, b),
{
    RunStatistics {
        executions: add_capped(a.executions, b.executions),
        corpus_size: add_capped(a.corpus_size, b.corpus_size),
        crashes: add_capped(a.crashes, b.crashes),
        uptime: if a.uptime >= b.uptime {
            a.uptime
        } else {
            b.uptime
        },
    }
}

/// The broker's book of the workers' latest reports.
pub struct Broker {
    reports: Vec<RunStatistics>,
}

impl View for Broker {
    type V = Seq<RunStatistics>;

    closed spec fn view(&self) -> Seq<RunStatistics> {
        self.reports@
    }
}

impl Broker {
    /// A broker for `workers` workers, none of which has reported yet.
    pub fn new(workers: usize) -> (broker: Broker)
        ensures
            broker@ == Seq::new(workers as nat, |i: int| no_statistics()),
    {
        let mut reports: Vec<RunStatistics> = Vec::new();
        let mut i: usize = 0;
        while i < workers
            invariant
                i <= workers,
                reports@ =~= Seq::new(i as nat, |k: int| no_statistics()),
            decreases workers - i,
        {
            reports.push(RunStatistics { executions: 0, corpus_size: 0, crashes: 0, uptime: 0 });
            i = i + 1;
        }
        Broker { reports }
    }

    /// The number of workers.
    pub fn workers(&self) -> (n: usize)
        ensures
            n == self@.len(),
    {
        self.reports.len()
    }

    /// Takes in the counters that `worker` reports; they replace its earlier
    /// report. A report from a worker that the broker does not know is
    /// dropped, and the result says so.
    pub fn report(&mut self, worker: usize, stats: RunStatistics) -> (taken: bool)
        ensures
            taken == (worker < old(self)@.len()),
            final(self)@ == (if taken {
                old(self)@.update(worker as int, stats)
            } else {
                old(self)@
            }),
    {
        if worker < self.reports.len() {
            self.reports.set(worker, stats);
            true
        } else {
            false
        }
    }

    /// The counters of all workers taken together.
    pub fn totals(&self) -> (sum: RunStatistics)
        ensures
            sum == totals_of(self@),
    {
        let mut sum: RunStatistics = RunStatistics {
            executions: 0,
            corpus_size: 0,
            crashes: 0,
            uptime: 0,
        };
        let mut i: usize = 0;
        while i < self.reports.len()
            invariant
                i <= self.reports@.len(),
                sum == totals_of(self.reports@.take(i as int)),
            decreases self.reports@.len() - i,
        {
            assert(self.reports@.take(i + 1).drop_last() =~= self.reports@.take(i as int));
            sum = combine(sum, self.reports[i]);
            i = i + 1;
        }
        assert(self.reports@.take(i as int) =~= self.reports@);
        sum
    }

    /// Executions per second over all workers.
    pub fn executions_per_second(&self) -> (rate: u64)
        ensures
            rate == rate_of(totals_of(self@)),
    {
        let sum: RunStatistics = self.totals();
        if sum.uptime == 0 {
            sum.executions
        } else {
            sum.executions / sum.uptime
        }
    }
}

/// The number of workers to start for the requested cores: one for each, and
/// a single unbound one where no core is requested.
pub fn worker_count(cores: usize) -> (n: usize)
    ensures
        n == (if cores == 0 {
            1
        } else {
            cores as int
        }),
{
    if cores == 0 {
        1
    } else {
        cores
    }
}

/// How a worker process ended.
#[derive(Clone, Copy, Debug, PartialEq, Eq, Structural)]
pub enum Exit {
    /// The worker shut down in order.
    Clean,
    /// The worker was killed after an execution hung past its deadline.
    Killed,
    /// The target took the worker process down with it.
    Died,
}

/// What the coordinator does about a worker that ended.
#[derive(Clone, Copy, Debug, PartialEq, Eq, Structural)]
pub enum Decision {
    /// Nothing: the worker is done.
    Done,
    /// Start the worker again on its corpus on disk.
    Restart,
    /// Stop: the worker keeps failing without getting anywhere.
    GiveUp,
}

/// Counts the restarts of a worker that brought no progress.
pub struct Supervisor {
    idle_restarts: u32,
    limit: u32,
}

/// The number of idle restarts after a worker ended.
pub open spec fn idle_after(idle: u32, limit: u32, exit: Exit, progressed: bool) -> u32 {
    if exit == Exit::Clean {
        idle
    } else if progressed {
        0
    } else if idle < limit {
        (idle + 1) as u32
    } else {
        idle
    }
}

/// The decision on a worker that ended: a clean exit needs nothing; a worker
/// that failed is started again, unless it has failed `limit` times in a row
/// before without its corpus growing and fails so once more.
pub open spec fn decision_for(idle: u32, limit: u32, exit: Exit, progressed: bool) -> Decision {
    if exit == Exit::Clean {
        Decision::Done
    } else if progressed || idle < limit {
        Decision::Restart
    } else {
        Decision::GiveUp
    }
}

impl Supervisor {
    /// The restarts in a row so far that brought no progress.
    pub closed spec fn idle(&self) -> u32 {
        self.idle_restarts
    }

    /// How many such restarts in a row are put up with.
    pub closed spec fn limit(&self) -> u32 {
        self.limit
    }

    /// A supervisor that gives up after `limit` restarts in a row that
    /// brought no progress.
    pub fn new(limit: u32) -> (s: Supervisor)
        ensures
            s.idle() == 0,
            s.limit() == limit,
    {
        Supervisor { idle_restarts: 0, limit }
    }

    /// Decides on a worker that ended. `progressed` says whether its corpus
    /// on disk grew since it was started.
    pub fn on_exit(&mut self, exit: Exit, progressed: bool) -> (decision: Decision)
        ensures
            decision == decision_for(old(self).idle(), old(self).limit(), exit, progressed),
            final(self).idle() == idle_after(old(self).idle(), old(self).limit(), exit, progressed),
            final(self).limit() == old(self).limit(),
    {
        match exit {
            Exit::Clean => Decision::Done,
            _ => {
                if progressed {
                    self.idle_restarts = 0;
                    Decision::Restart
                } else if self.idle_restarts < self.limit {
                    self.idle_restarts = self.idle_restarts + 1;
                    Decision::Restart
                } else {
                    Decision::GiveUp
                }
            },
        }
    }
}

} // verus!
