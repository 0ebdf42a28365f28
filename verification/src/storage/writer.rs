//! The single writer's decisions.
//!
//! The writer gathers what has already arrived, runs it as one transaction, and acknowledges
//! every job of it once the outcome is known. It never waits for company: a lone write is not
//! held back, and a burst is committed together.

use crate::exchange::moment::Instant;
use crate::storage::store::{should_checkpoint, Stats, CHECKPOINT_INTERVAL, CHECKPOINT_WAL_BYTES, MAX_BATCH};
use vstd::prelude::*;

verus! {

/// What the writer asks for.
#[derive(Debug, PartialEq, Eq)]
pub enum Action {
    /// Wait for a job.
    Wait,
    /// Take a job if one is waiting.
    Poll,
    /// Begin a transaction that takes the write lock at once.
    Begin,
    /// Execute one statement of one job of the batch.
    Execute { job: usize, write: usize },
    Commit,
    RollBack,
    /// Answer every job of the batch, and say what time it is and how large the log has grown.
    Acknowledge { failure: Option<String> },
    /// Move the write-ahead log back into the database file.
    Checkpoint,
    Stop,
}

/// What came of it.
#[derive(Debug, PartialEq, Eq)]
pub enum Answer {
    /// A job with so many statements.
    Job(usize),
    /// No job is waiting.
    Empty,
    /// There will be no more jobs.
    Closed,
    /// The statement went through.
    Ran,
    /// The statement did not.
    Failed(String),
    Acknowledged { now: Instant, wal_bytes: u64 },
    Checkpointed { ok: bool, now: Instant },
}

#[derive(Debug)]
enum Stage {
    Waiting,
    Gathering,
    Beginning,
    Writing { job: usize, write: usize },
    Committing,
    RollingBack { why: String },
    Answering { failure: Option<String> },
    Folding,
    Stopped,
}

/// Where the writer is.
pub enum StageView {
    Waiting,
    Gathering,
    Beginning,
    Writing(int, int),
    Committing,
    RollingBack(Seq<char>),
    /// What the batch failed with, if it failed.
    Answering(Option<Seq<char>>),
    Folding,
    Stopped,
}

pub open spec fn failure_view(failure: Option<String>) -> Option<Seq<char>> {
    match failure {
        Some(why) => Some(why@),
        None => None,
    }
}

impl View for Stage {
    type V = StageView;

    closed spec fn view(&self) -> StageView {
        match self {
            Stage::Waiting => StageView::Waiting,
            Stage::Gathering => StageView::Gathering,
            Stage::Beginning => StageView::Beginning,
            Stage::Writing { job, write } => StageView::Writing(*job as int, *write as int),
            Stage::Committing => StageView::Committing,
            Stage::RollingBack { why } => StageView::RollingBack(why@),
            Stage::Answering { failure } => StageView::Answering(failure_view(*failure)),
            Stage::Folding => StageView::Folding,
            Stage::Stopped => StageView::Stopped,
        }
    }
}

/// The one thread that writes, as a state machine.
pub struct Writer {
    stage: Stage,
    sizes: Vec<usize>,
    stats: Stats,
    last_checkpoint: Instant,
}

/// What a [`Writer`] holds.
#[verifier::ext_equal]
pub struct WriterView {
    pub stage: StageView,
    /// How many statements each job of the batch has.
    pub sizes: Seq<usize>,
    pub stats: Stats,
    pub last_checkpoint: Instant,
}

impl View for Writer {
    type V = WriterView;

    closed spec fn view(&self) -> WriterView {
        WriterView {
            stage: self.stage@,
            sizes: self.sizes@,
            stats: self.stats,
            last_checkpoint: self.last_checkpoint,
        }
    }
}

/// The first statement at or behind a place, jobs without statements skipped.
pub open spec fn statement_from(sizes: Seq<usize>, job: int, write: int) -> Option<(int, int)>
    decreases sizes.len() - job,
{
    if job >= sizes.len() {
        None
    } else if write < sizes[job] {
        Some((job, write))
    } else {
        statement_from(sizes, job + 1, 0)
    }
}

/// How many statements there are.
pub open spec fn statements(sizes: Seq<usize>) -> int
    decreases sizes.len(),
{
    if sizes.len() == 0 {
        0
    } else {
        statements(sizes.drop_last()) + sizes.last()
    }
}

/// How many statements there are, as a counter of sixty-four bits counts them.
pub open spec fn counted(sizes: Seq<usize>) -> u64
    decreases sizes.len(),
{
    if sizes.len() == 0 {
        0
    } else {
        counted(sizes.drop_last()).wrapping_add(sizes.last() as u64)
    }
}

/// The stage for a statement, or for the commit where none is left.
pub open spec fn writing(statement: Option<(int, int)>) -> StageView {
    match statement {
        Some((job, write)) => StageView::Writing(job, write),
        None => StageView::Committing,
    }
}

impl WriterView {
    /// Whether the writer can be in this state.
    pub open spec fn wf(self) -> bool {
        match self.stage {
            StageView::Gathering => 1 <= self.sizes.len() < MAX_BATCH,
            StageView::Beginning => 1 <= self.sizes.len() <= MAX_BATCH,
            StageView::Writing(job, write) => {
                &&& 1 <= self.sizes.len() <= MAX_BATCH
                &&& 0 <= job < self.sizes.len()
                &&& 0 <= write < self.sizes[job]
            },
            StageView::Committing => 1 <= self.sizes.len() <= MAX_BATCH,
            StageView::RollingBack(_) => 1 <= self.sizes.len() <= MAX_BATCH,
            StageView::Answering(_) => 1 <= self.sizes.len() <= MAX_BATCH,
            _ => self.sizes.len() == 0,
        }
    }

    pub open spec fn at(self, stage: StageView) -> WriterView {
        WriterView { stage, ..self }
    }

    /// The outcome of the batch is known. Only a commit counts.
    pub open spec fn decided(self, failure: Option<Seq<char>>) -> WriterView {
        WriterView {
            stage: StageView::Answering(failure),
            stats: if failure is None {
                Stats {
                    committed: self.stats.committed.wrapping_add(counted(self.sizes)),
                    batches: self.stats.batches.wrapping_add(1),
                    ..self.stats
                }
            } else {
                self.stats
            },
            ..self
        }
    }

    /// Whether a checkpoint is due.
    pub open spec fn checkpoint_due(self, now: Instant, wal_bytes: u64) -> bool {
        &&& now.nanos >= self.last_checkpoint.nanos
        &&& now.nanos - self.last_checkpoint.nanos >= CHECKPOINT_INTERVAL * 1_000_000
        &&& wal_bytes > CHECKPOINT_WAL_BYTES
    }

    /// The writer after an answer. One that answers something else than was asked for changes
    /// nothing.
    pub open spec fn after(self, answer: Answer) -> WriterView {
        match (self.stage, answer) {
            (StageView::Waiting, Answer::Job(n)) => WriterView {
                stage: StageView::Gathering,
                sizes: seq![n],
                ..self
            },
            (StageView::Waiting, Answer::Closed) => self.at(StageView::Stopped),
            (StageView::Gathering, Answer::Job(n)) => WriterView {
                stage: if self.sizes.len() + 1 < MAX_BATCH {
                    StageView::Gathering
                } else {
                    StageView::Beginning
                },
                sizes: self.sizes.push(n),
                ..self
            },
            (StageView::Gathering, Answer::Empty) => self.at(StageView::Beginning),
            (StageView::Gathering, Answer::Closed) => self.at(StageView::Beginning),
            (StageView::Beginning, Answer::Ran) => self.at(
                writing(statement_from(self.sizes, 0, 0)),
            ),
            (StageView::Beginning, Answer::Failed(why)) => self.decided(Some(why@)),
            (StageView::Writing(job, write), Answer::Ran) => self.at(
                writing(statement_from(self.sizes, job, write + 1)),
            ),
            (StageView::Writing(_, _), Answer::Failed(why)) => self.at(
                StageView::RollingBack(why@),
            ),
            (StageView::Committing, Answer::Ran) => self.decided(None),
            (StageView::Committing, Answer::Failed(why)) => self.decided(Some(why@)),
            (StageView::RollingBack(why), Answer::Ran) => self.decided(Some(why)),
            (StageView::RollingBack(why), Answer::Failed(_)) => self.decided(Some(why)),
            (StageView::Answering(_), Answer::Acknowledged { now, wal_bytes }) => WriterView {
                stage: if self.checkpoint_due(now, wal_bytes) {
                    StageView::Folding
                } else {
                    StageView::Waiting
                },
                sizes: Seq::empty(),
                ..self
            },
            (StageView::Folding, Answer::Checkpointed { ok, now }) => WriterView {
                stage: StageView::Waiting,
                stats: if ok {
                    Stats { checkpoints: self.stats.checkpoints.wrapping_add(1), ..self.stats }
                } else {
                    self.stats
                },
                last_checkpoint: now,
                ..self
            },
            _ => self,
        }
    }
}

/// Whether an action is what a stage asks for.
pub open spec fn asks(stage: StageView, action: Action) -> bool {
    match stage {
        StageView::Waiting => action is Wait,
        StageView::Gathering => action is Poll,
        StageView::Beginning => action is Begin,
        StageView::Writing(j, w) => action matches Action::Execute { job, write } && job == j
            && write == w,
        StageView::Committing => action is Commit,
        StageView::RollingBack(_) => action is RollBack,
        StageView::Answering(f) => action matches Action::Acknowledge { failure } && failure_view(
            failure,
        ) == f,
        StageView::Folding => action is Checkpoint,
        StageView::Stopped => action is Stop,
    }
}

impl Writer {
    pub fn new(now: Instant) -> (w: Writer)
        ensures
            w@.wf(),
            w@.stage is Waiting,
            w@.stats == (Stats { committed: 0, batches: 0, checkpoints: 0, blocked: 0 }),
            w@.last_checkpoint == now,
    {
        Writer {
            stage: Stage::Waiting,
            sizes: Vec::new(),
            stats: Stats { committed: 0, batches: 0, checkpoints: 0, blocked: 0 },
            last_checkpoint: now,
        }
    }

    pub fn stats(&self) -> (s: Stats)
        ensures
            s == self@.stats,
    {
        self.stats
    }

    /// What to do next.
    pub fn next(&self) -> (a: Action)
        ensures
            asks(self@.stage, a),
    {
        match &self.stage {
            Stage::Waiting => Action::Wait,
            Stage::Gathering => Action::Poll,
            Stage::Beginning => Action::Begin,
            Stage::Writing { job, write } => Action::Execute { job: *job, write: *write },
            Stage::Committing => Action::Commit,
            Stage::RollingBack { .. } => Action::RollBack,
            Stage::Answering { failure } => Action::Acknowledge {
                failure: match failure {
                    Some(why) => Some(why.clone()),
                    None => None,
                },
            },
            Stage::Folding => Action::Checkpoint,
            Stage::Stopped => Action::Stop,
        }
    }

    /// Take in what came of it.
    pub fn step(&mut self, answer: Answer)
        requires
            old(self)@.wf(),
        ensures
            final(self)@ == old(self)@.after(answer),
            final(self)@.wf(),
    {
        let ghost v0 = self@;
        let mut stage = Stage::Stopped;
        std::mem::swap(&mut stage, &mut self.stage);
        match (stage, answer) {
            (Stage::Waiting, Answer::Job(n)) => {
                self.sizes = vec![n];
                self.stage = Stage::Gathering;
            },
            (Stage::Waiting, Answer::Closed) => {
                self.stage = Stage::Stopped;
            },
            (Stage::Gathering, Answer::Job(n)) => {
                self.sizes.push(n);
                self.stage = if self.sizes.len() < MAX_BATCH {
                    Stage::Gathering
                } else {
                    Stage::Beginning
                };
            },
            (Stage::Gathering, Answer::Empty) => {
                self.stage = Stage::Beginning;
            },
            // What has been gathered is still written.
            (Stage::Gathering, Answer::Closed) => {
                self.stage = Stage::Beginning;
            },
            (Stage::Beginning, Answer::Ran) => {
                self.stage = self.stage_from(0, 0);
            },
            (Stage::Beginning, Answer::Failed(why)) => {
                self.decide(Some(why));
            },
            (Stage::Writing { job, write }, Answer::Ran) => {
                self.stage = self.stage_from(job, write + 1);
            },
            (Stage::Writing { .. }, Answer::Failed(why)) => {
                self.stage = Stage::RollingBack { why };
            },
            (Stage::Committing, Answer::Ran) => {
                self.decide(None);
            },
            (Stage::Committing, Answer::Failed(why)) => {
                self.decide(Some(why));
            },
            (Stage::RollingBack { why }, Answer::Ran) => {
                self.decide(Some(why));
            },
            (Stage::RollingBack { why }, Answer::Failed(_)) => {
                self.decide(Some(why));
            },
            (Stage::Answering { .. }, Answer::Acknowledged { now, wal_bytes }) => {
                self.sizes = Vec::new();
                self.stage = if should_checkpoint(
                    now.duration_since(self.last_checkpoint),
                    wal_bytes,
                ) {
                    Stage::Folding
                } else {
                    Stage::Waiting
                };
            },
            (Stage::Folding, Answer::Checkpointed { ok, now }) => {
                if ok {
                    self.stats.checkpoints = self.stats.checkpoints.wrapping_add(1);
                }
                self.last_checkpoint = now;
                self.stage = Stage::Waiting;
            },
            (other, _) => {
                self.stage = other;
            },
        }
        assert(self@ =~= v0.after(answer));
    }

    /// The stage for the first statement at or behind a place.
    fn stage_from(&self, job: usize, write: usize) -> (s: Stage)
        requires
            job <= self@.sizes.len(),
        ensures
            s@ == writing(statement_from(self@.sizes, job as int, write as int)),
            s@ matches StageView::Writing(j, w) ==> 0 <= j < self@.sizes.len() && 0 <= w
                < self@.sizes[j],
    {
        let mut j: usize = job;
        let mut w: usize = write;
        while j < self.sizes.len()
            invariant
                job <= j <= self.sizes@.len(),
                statement_from(self.sizes@, j as int, w as int) == statement_from(
                    self.sizes@,
                    job as int,
                    write as int,
                ),
            decreases self.sizes@.len() - j,
        {
            if w < self.sizes[j] {
                return Stage::Writing { job: j, write: w };
            }
            j += 1;
            w = 0;
        }
        Stage::Committing
    }

    fn decide(&mut self, failure: Option<String>)
        ensures
            final(self)@ == old(self)@.decided(failure_view(failure)),
    {
        if failure.is_none() {
            let mut rows: u64 = 0;
            let mut i: usize = 0;
            assert(self.sizes@.take(0) =~= Seq::<usize>::empty());
            while i < self.sizes.len()
                invariant
                    i <= self.sizes@.len(),
                    rows == counted(self.sizes@.take(i as int)),
                decreases self.sizes@.len() - i,
            {
                assert(self.sizes@.take(i + 1).drop_last() =~= self.sizes@.take(i as int));
                rows = rows.wrapping_add(self.sizes[i] as u64);
                i += 1;
            }
            assert(self.sizes@.take(i as int) =~= self.sizes@);
            self.stats.committed = self.stats.committed.wrapping_add(rows);
            self.stats.batches = self.stats.batches.wrapping_add(1);
        }
        self.stage = Stage::Answering { failure };
    }
}

/// A job is told that its write is durable only when a commit has gone through.
pub proof fn acknowledged_only_after_the_commit(writer: WriterView, answer: Answer)
    requires
        !(writer.stage is Answering),
        writer.after(answer).stage == StageView::Answering(None),
    ensures
        writer.stage is Committing,
        answer is Ran,
{
}

/// One statement that fails takes the whole batch with it: the transaction is rolled back, it is
/// not committed, nothing is counted, and every job is told what failed.
pub proof fn a_failure_takes_the_whole_batch(writer: WriterView, why: String, rollback: Answer)
    requires
        writer.stage is Writing,
        rollback is Ran || rollback is Failed,
    ensures
        ({
            let failed = writer.after(Answer::Failed(why));
            let answered = failed.after(rollback);
            &&& failed.stage is RollingBack
            &&& answered.stage == StageView::Answering(Some(why@))
            &&& answered.sizes == writer.sizes
            &&& answered.stats == writer.stats
        }),
{
}

/// The writer after `n` statements have gone through.
pub open spec fn after_runs(writer: WriterView, n: int) -> WriterView
    decreases n,
{
    if n <= 0 {
        writer
    } else {
        after_runs(writer, n - 1).after(Answer::Ran)
    }
}

/// How many statements stand in front of a place.
pub open spec fn in_front(sizes: Seq<usize>, job: int, write: int) -> int {
    statements(sizes.take(job)) + write
}

proof fn lemma_statement_from(sizes: Seq<usize>, job: int, write: int)
    requires
        0 <= job <= sizes.len(),
        0 <= write,
        job < sizes.len() ==> write <= sizes[job],
        job == sizes.len() ==> write == 0,
    ensures
        match statement_from(sizes, job, write) {
            Some((j, w)) => {
                &&& job <= j < sizes.len()
                &&& 0 <= w < sizes[j]
                &&& in_front(sizes, j, w) == in_front(sizes, job, write)
            },
            None => in_front(sizes, job, write) == statements(sizes),
        },
    decreases sizes.len() - job,
{
    if job == sizes.len() {
        assert(sizes.take(job) =~= sizes);
    } else if write == sizes[job] {
        assert(sizes.take(job + 1).drop_last() =~= sizes.take(job));
        lemma_statement_from(sizes, job + 1, 0);
    }
}

proof fn lemma_statements_from(sizes: Seq<usize>, job: int)
    requires
        0 <= job <= sizes.len(),
    ensures
        statements(sizes.take(job)) <= statements(sizes),
    decreases sizes.len() - job,
{
    if job < sizes.len() {
        assert(sizes.take(job + 1).drop_last() =~= sizes.take(job));
        lemma_statements_from(sizes, job + 1);
    } else {
        assert(sizes.take(job) =~= sizes);
    }
}

/// Every statement of a batch is run once, in the order in which the jobs came, before the
/// commit: after the transaction has begun and `n - 1` statements have gone through, the `n`th
/// is next, and the commit comes when none is left.
pub proof fn every_statement_runs_before_the_commit(writer: WriterView, n: int)
    requires
        writer.wf(),
        writer.stage is Beginning,
        1 <= n <= statements(writer.sizes) + 1,
    ensures
        after_runs(writer, n).sizes == writer.sizes,
        after_runs(writer, n).stats == writer.stats,
        n <= statements(writer.sizes) ==> (after_runs(writer, n).stage matches StageView::Writing(
            job,
            write,
        ) && 0 <= job < writer.sizes.len() && 0 <= write < writer.sizes[job] && in_front(
            writer.sizes,
            job,
            write,
        ) == n - 1),
        n == statements(writer.sizes) + 1 ==> after_runs(writer, n).stage is Committing,
    decreases n,
{
    let sizes = writer.sizes;
    assert(sizes.take(0) =~= Seq::<usize>::empty());
    if n == 1 {
        assert(after_runs(writer, 0) == writer);
        lemma_statement_from(sizes, 0, 0);
        if let Some((j, w)) = statement_from(sizes, 0, 0) {
            lemma_statements_from(sizes, j + 1);
            assert(sizes.take(j + 1).drop_last() =~= sizes.take(j));
        }
    } else {
        every_statement_runs_before_the_commit(writer, n - 1);
        let before = after_runs(writer, n - 1);
        if let StageView::Writing(job, write) = before.stage {
            lemma_statement_from(sizes, job, write + 1);
            if let Some((j, w)) = statement_from(sizes, job, write + 1) {
                lemma_statements_from(sizes, j + 1);
                assert(sizes.take(j + 1).drop_last() =~= sizes.take(j));
            }
        }
    }
}

/// A commit is counted once, with all the statements of its batch.
pub proof fn a_commit_counts_its_statements(writer: WriterView)
    requires
        writer.stage is Committing,
        writer.stats.committed + statements(writer.sizes) <= u64::MAX,
        writer.stats.batches < u64::MAX,
    ensures
        writer.after(Answer::Ran).stats.committed == writer.stats.committed + statements(
            writer.sizes,
        ),
        writer.after(Answer::Ran).stats.batches == writer.stats.batches + 1,
{
    lemma_counted(writer.sizes);
}

proof fn lemma_counted(sizes: Seq<usize>)
    requires
        statements(sizes) <= u64::MAX,
    ensures
        counted(sizes) == statements(sizes),
        statements(sizes) >= 0,
    decreases sizes.len(),
{
    if sizes.len() > 0 {
        lemma_statements_from(sizes, sizes.len() - 1);
        assert(sizes.take(sizes.len() - 1) =~= sizes.drop_last());
        lemma_counted(sizes.drop_last());
    }
}

/// Checkpointing takes both conditions: enough time since the last one, and enough in the log.
pub proof fn checkpointing_takes_both_conditions(
    writer: WriterView,
    now: Instant,
    wal_bytes: u64,
)
    requires
        writer.stage is Answering,
        writer.after(Answer::Acknowledged { now, wal_bytes }).stage is Folding,
    ensures
        now.nanos - writer.last_checkpoint.nanos >= CHECKPOINT_INTERVAL * 1_000_000,
        wal_bytes > CHECKPOINT_WAL_BYTES,
{
}

/// A checkpoint is made once a minute has passed since the last one and the log holds more than
/// thirty-two mebibytes, and only then. Whatever came of it, the minute starts over.
pub proof fn a_checkpoint_is_made_when_due(
    writer: WriterView,
    now: Instant,
    wal_bytes: u64,
    ok: bool,
)
    requires
        writer.stage is Answering,
        now.nanos >= writer.last_checkpoint.nanos,
    ensures
        ({
            let after = writer.after(Answer::Acknowledged { now, wal_bytes });
            let folded = after.after(Answer::Checkpointed { ok, now });
            let due = now.nanos - writer.last_checkpoint.nanos >= 60_000_000_000 && wal_bytes
                > 33_554_432;
            &&& after.stage is Folding <==> due
            &&& !due ==> after.stage is Waiting
            &&& after.sizes.len() == 0
            &&& after.stats == writer.stats
            &&& due ==> folded.stage is Waiting && folded.last_checkpoint == now
            &&& due && ok && writer.stats.checkpoints < u64::MAX ==> folded.stats.checkpoints
                == writer.stats.checkpoints + 1
            &&& due && !ok ==> folded.stats == writer.stats
        }),
{
}

/// A lone write is not held back for company: the transaction begins as soon as nothing more is
/// waiting, or the batch has its five hundred and twelve jobs. What came together is written
/// together, in the order it came, even where nothing more will come.
pub proof fn nothing_waits_for_company(writer: WriterView, n: usize)
    requires
        writer.wf(),
    ensures
        writer.stage is Waiting ==> writer.after(Answer::Job(n)).stage is Gathering
            && writer.after(Answer::Job(n)).sizes == seq![n],
        writer.stage is Gathering ==> {
            &&& writer.after(Answer::Empty) == (WriterView {
                stage: StageView::Beginning,
                ..writer
            })
            &&& writer.after(Answer::Closed) == (WriterView {
                stage: StageView::Beginning,
                ..writer
            })
            &&& writer.after(Answer::Job(n)).sizes == writer.sizes.push(n)
            &&& writer.after(Answer::Job(n)).stage is Beginning <==> writer.sizes.len() + 1 == 512
            &&& writer.after(Answer::Job(n)).stage is Gathering <==> writer.sizes.len() + 1 < 512
        },
        writer.stage is Waiting ==> writer.after(Answer::Closed).stage is Stopped,
{
}

/// A transaction that cannot be begun or committed counts for nothing, and every job of it is told
/// why.
pub proof fn what_is_not_committed_does_not_count(writer: WriterView, why: String)
    requires
        writer.stage is Beginning || writer.stage is Committing,
    ensures
        writer.after(Answer::Failed(why)).stage == StageView::Answering(Some(why@)),
        writer.after(Answer::Failed(why)).stats == writer.stats,
        writer.after(Answer::Failed(why)).sizes == writer.sizes,
{
}

/// However many jobs are waiting, a transaction takes no more than its share of them.
pub proof fn a_batch_is_bounded(writer: WriterView, answer: Answer)
    requires
        writer.wf(),
    ensures
        writer.after(answer).wf(),
        writer.after(answer).sizes.len() <= MAX_BATCH,
{
    let sizes = writer.sizes;
    lemma_statement_from(sizes, 0, 0);
    if let StageView::Writing(job, write) = writer.stage {
        lemma_statement_from(sizes, job, write + 1);
    }
}

} // verus!
