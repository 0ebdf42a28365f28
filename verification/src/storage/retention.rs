//! Throwing away what is no longer worth keeping.
//!
//! The fine series age out and the coarse ones, which are what history is read from, do not. It
//! happens in small batches: one large delete holds the write lock for as long as it takes, and
//! for as long nothing else can be recorded, a fill included. So a sweep deletes a few thousand
//! rows at a time and stands aside in between, and the longest it can hold the lock is one batch.

use crate::storage::schema::sql;
use crate::storage::store::{Value, ValueView, Write, WriteView};
use vstd::prelude::*;

verus! {

/// Rows removed per transaction.
pub const BATCH: i64 = 5_000;

/// How long to stand aside between batches, so that a writer that is waiting gets the lock, in
/// milliseconds.
pub const YIELD_BETWEEN_BATCHES: u64 = 5;

const DAY_MS: i64 = 86_400_000;

/// How long each series is kept, in days.
#[derive(Clone, Copy, Debug, PartialEq, Eq, Structural)]
pub struct Policy {
    pub minute_days: i64,
    pub five_minute_days: i64,
    pub hourly_and_above_days: i64,
    pub audit_days: i64,
}

impl Default for Policy {
    fn default() -> (p: Self)
        ensures
            p == (Policy {
                minute_days: 30,
                five_minute_days: 15,
                hourly_and_above_days: 3_650,
                audit_days: 365,
            }),
    {
        Policy {
            minute_days: 30,
            five_minute_days: 15,
            hourly_and_above_days: 3_650,
            audit_days: 365,
        }
    }
}

/// The moment so many days ago.
pub open spec fn days_ago(now_ms: i64, days: i64) -> int {
    now_ms - days * 86_400_000
}

/// Whether a moment that many days ago can be told.
pub open spec fn can_go_back(now_ms: i64, days: i64) -> bool {
    &&& i64::MIN <= days * 86_400_000 <= i64::MAX
    &&& i64::MIN <= days_ago(now_ms, days) <= i64::MAX
}

impl Policy {
    /// How many days the candles of a timeframe are kept. Anything finer than a minute is at least
    /// as expensive as a minute and treated as one.
    pub open spec fn candle_days(self, tf_ms: i64) -> i64 {
        if tf_ms <= 60_000 {
            self.minute_days
        } else if tf_ms <= 3_599_999 {
            self.five_minute_days
        } else {
            self.hourly_and_above_days
        }
    }

    /// Whether every horizon of the policy can be told at a moment.
    pub open spec fn holds_at(self, now_ms: i64) -> bool {
        &&& can_go_back(now_ms, self.minute_days)
        &&& can_go_back(now_ms, self.five_minute_days)
        &&& can_go_back(now_ms, self.hourly_and_above_days)
        &&& can_go_back(now_ms, self.audit_days)
    }

    /// Whether a candle is past its horizon.
    pub open spec fn drops_candle(self, now_ms: i64, tf_ms: i64, open_time: i64) -> bool {
        open_time < days_ago(now_ms, self.candle_days(tf_ms))
    }

    /// Whether a record of the audit trail is past its horizon.
    pub open spec fn drops_audit(self, now_ms: i64, at_ms: i64) -> bool {
        at_ms < days_ago(now_ms, self.audit_days)
    }

    /// Oldest moment to keep for a timeframe.
    pub fn keep_candles_from(&self, tf_ms: i64, now_ms: i64) -> (r: i64)
        requires
            can_go_back(now_ms, self.candle_days(tf_ms)),
        ensures
            r == days_ago(now_ms, self.candle_days(tf_ms)),
    {
        let days: i64 = if tf_ms <= 60_000 {
            self.minute_days
        } else if tf_ms <= 3_599_999 {
            self.five_minute_days
        } else {
            self.hourly_and_above_days
        };
        now_ms - days * DAY_MS
    }

    /// Oldest moment of the audit trail to keep.
    pub fn keep_audit_from(&self, now_ms: i64) -> (r: i64)
        requires
            can_go_back(now_ms, self.audit_days),
        ensures
            r == days_ago(now_ms, self.audit_days),
    {
        now_ms - self.audit_days * DAY_MS
    }
}

/// What one sweep removed.
#[derive(Clone, Copy, Debug, PartialEq, Eq, Structural)]
pub struct Swept {
    pub candles: i64,
    pub audit: i64,
    pub batches: i64,
}

impl Default for Swept {
    fn default() -> (s: Self)
        ensures
            s == (Swept { candles: 0, audit: 0, batches: 0 }),
    {
        Swept { candles: 0, audit: 0, batches: 0 }
    }
}

/// A sweep over everything past its retention, a batch at a time.
///
/// Each timeframe is swept by itself, because each has its own horizon, and the audit trail after
/// them. [`Sweep::next`] says what to delete, and [`Sweep::removed`] takes the number of rows of
/// that table before and after.
pub struct Sweep {
    policy: Policy,
    now_ms: i64,
    timeframes: Vec<i64>,
    at: usize,
    swept: Swept,
    done: bool,
}

/// What a [`Sweep`] holds.
#[verifier::ext_equal]
pub struct SweepView {
    pub policy: Policy,
    pub now_ms: i64,
    pub timeframes: Seq<i64>,
    /// How many timeframes are swept.
    pub at: int,
    pub swept: Swept,
    pub done: bool,
}

impl View for Sweep {
    type V = SweepView;

    closed spec fn view(&self) -> SweepView {
        SweepView {
            policy: self.policy,
            now_ms: self.now_ms,
            timeframes: self.timeframes@,
            at: self.at as int,
            swept: self.swept,
            done: self.done,
        }
    }
}

impl SweepView {
    pub open spec fn wf(self) -> bool {
        &&& self.policy.holds_at(self.now_ms)
        &&& 0 <= self.at <= self.timeframes.len()
        &&& self.done ==> self.at == self.timeframes.len()
    }

    /// What is deleted next, no more than a batch of it.
    pub open spec fn deletes(self) -> Option<WriteView> {
        if self.at < self.timeframes.len() {
            let tf_ms = self.timeframes[self.at];
            Some(
                WriteView {
                    sql: sql::DELETE_CANDLES@,
                    params: seq![
                        ValueView::Int(tf_ms as int),
                        ValueView::Int(days_ago(self.now_ms, self.policy.candle_days(tf_ms))),
                        ValueView::Int(BATCH as int),
                    ],
                },
            )
        } else if self.done {
            None
        } else {
            Some(
                WriteView {
                    sql: sql::DELETE_AUDIT@,
                    params: seq![
                        ValueView::Int(days_ago(self.now_ms, self.policy.audit_days)),
                        ValueView::Int(BATCH as int),
                    ],
                },
            )
        }
    }

    /// Whether the counters can take so many rows.
    pub open spec fn has_room(self, rows: int) -> bool {
        &&& 0 <= rows
        &&& self.swept.candles + rows <= i64::MAX
        &&& self.swept.audit + rows <= i64::MAX
        &&& self.swept.batches + 1 <= i64::MAX
    }

    /// The sweep after a batch. A full batch is followed by another of the same kind; one that is
    /// not full was the last.
    pub open spec fn after(self, rows: int) -> SweepView {
        let last = rows < BATCH;
        if self.at < self.timeframes.len() {
            SweepView {
                at: if last {
                    self.at + 1
                } else {
                    self.at
                },
                swept: Swept {
                    candles: (self.swept.candles + rows) as i64,
                    batches: (self.swept.batches + 1) as i64,
                    ..self.swept
                },
                ..self
            }
        } else if self.done {
            self
        } else {
            SweepView {
                done: last,
                swept: Swept {
                    audit: (self.swept.audit + rows) as i64,
                    batches: (self.swept.batches + 1) as i64,
                    ..self.swept
                },
                ..self
            }
        }
    }
}

/// How many rows went, told by how many there were and how many there are.
pub open spec fn gone(before: i64, after: i64) -> int {
    if before > after {
        before - after
    } else {
        0
    }
}

impl Sweep {
    /// A sweep at a moment, over the timeframes that there are candles of.
    pub fn new(policy: Policy, now_ms: i64, timeframes: Vec<i64>) -> (s: Sweep)
        requires
            policy.holds_at(now_ms),
        ensures
            s@ == (SweepView {
                policy,
                now_ms,
                timeframes: timeframes@,
                at: 0,
                swept: Swept { candles: 0, audit: 0, batches: 0 },
                done: false,
            }),
            s@.wf(),
    {
        Sweep {
            policy,
            now_ms,
            timeframes,
            at: 0,
            swept: Swept { candles: 0, audit: 0, batches: 0 },
            done: false,
        }
    }

    pub fn swept(&self) -> (s: Swept)
        ensures
            s == self@.swept,
    {
        self.swept
    }

    /// The next batch to delete, nothing once all is swept.
    pub fn next(&self) -> (r: Option<Write>)
        requires
            self@.wf(),
        ensures
            match r {
                Some(w) => self@.deletes() == Some(w@),
                None => self@.deletes() is None,
            },
    {
        if self.at < self.timeframes.len() {
            let tf_ms: i64 = self.timeframes[self.at];
            let cutoff: i64 = self.policy.keep_candles_from(tf_ms, self.now_ms);
            let params = vec![Value::Int(tf_ms), Value::Int(cutoff), Value::Int(BATCH)];
            let w = Write::new(sql::DELETE_CANDLES, params);
            assert(w@ =~= self@.deletes()->0);
            return Some(w);
        }
        if self.done {
            return None;
        }
        let cutoff: i64 = self.policy.keep_audit_from(self.now_ms);
        let params = vec![Value::Int(cutoff), Value::Int(BATCH)];
        let w = Write::new(sql::DELETE_AUDIT, params);
        assert(w@ =~= self@.deletes()->0);
        Some(w)
    }

    /// Take in what the last batch removed. Says whether to stand aside before the next one.
    pub fn removed(&mut self, before: i64, after: i64) -> (pause: bool)
        requires
            old(self)@.wf(),
            before >= 0,
            after >= 0,
            old(self)@.has_room(gone(before, after)),
        ensures
            final(self)@ == old(self)@.after(gone(before, after)),
            final(self)@.wf(),
            pause == (gone(before, after) >= BATCH),
    {
        let ghost v0 = self@;
        let rows: i64 = if before > after {
            before - after
        } else {
            0
        };
        let last: bool = rows < BATCH;
        if self.at < self.timeframes.len() {
            self.swept.candles = self.swept.candles + rows;
            self.swept.batches = self.swept.batches + 1;
            if last {
                self.at = self.at + 1;
            }
        } else if !self.done {
            self.swept.audit = self.swept.audit + rows;
            self.swept.batches = self.swept.batches + 1;
            self.done = last;
        }
        assert(self@ =~= v0.after(gone(before, after)));
        !last
    }
}

/// The sweep after one kind of row has been deleted batch by batch, where so many of it are past
/// their horizon: each batch takes as many as it may.
pub open spec fn drained(sweep: SweepView, left: int) -> SweepView
    decreases left,
{
    if left < BATCH {
        sweep.after(left)
    } else {
        drained(sweep.after(BATCH as int), left - BATCH)
    }
}

/// Whatever is past its horizon goes, however many batches that takes, and a series takes one
/// batch more than it fills.
pub proof fn a_series_is_swept(sweep: SweepView, left: int)
    requires
        sweep.wf(),
        0 <= sweep.at < sweep.timeframes.len(),
        left >= 0,
        sweep.swept.candles + left <= i64::MAX,
        sweep.swept.batches + left / (BATCH as int) + 1 <= i64::MAX,
        sweep.swept.candles >= 0,
        sweep.swept.batches >= 0,
    ensures
        drained(sweep, left) == (SweepView {
            at: sweep.at + 1,
            swept: Swept {
                candles: (sweep.swept.candles + left) as i64,
                batches: (sweep.swept.batches + left / (BATCH as int) + 1) as i64,
                ..sweep.swept
            },
            ..sweep
        }),
    decreases left,
{
    if left >= BATCH {
        a_series_is_swept(sweep.after(BATCH as int), left - BATCH);
    }
}

/// The audit trail is swept in the same way, and with it the sweep is done.
pub proof fn the_audit_trail_is_swept(sweep: SweepView, left: int)
    requires
        sweep.wf(),
        sweep.at == sweep.timeframes.len(),
        !sweep.done,
        left >= 0,
        sweep.swept.audit + left <= i64::MAX,
        sweep.swept.batches + left / (BATCH as int) + 1 <= i64::MAX,
        sweep.swept.audit >= 0,
        sweep.swept.batches >= 0,
    ensures
        drained(sweep, left) == (SweepView {
            done: true,
            swept: Swept {
                audit: (sweep.swept.audit + left) as i64,
                batches: (sweep.swept.batches + left / (BATCH as int) + 1) as i64,
                ..sweep.swept
            },
            ..sweep
        }),
        drained(sweep, left).deletes() is None,
    decreases left,
{
    if left >= BATCH {
        the_audit_trail_is_swept(sweep.after(BATCH as int), left - BATCH);
    }
}

/// The candles past their horizon, of all timeframes.
pub open spec fn expired_candles(policy: Policy, now_ms: i64, candles: Seq<(i64, i64)>) -> int
    decreases candles.len(),
{
    if candles.len() == 0 {
        0
    } else {
        expired_candles(policy, now_ms, candles.drop_last()) + if policy.drops_candle(
            now_ms,
            candles.last().0,
            candles.last().1,
        ) {
            1int
        } else {
            0
        }
    }
}

/// The candles of one timeframe past their horizon: what a sweep of that timeframe removes.
pub open spec fn expired_of(policy: Policy, now_ms: i64, candles: Seq<(i64, i64)>, tf: i64) -> int
    decreases candles.len(),
{
    if candles.len() == 0 {
        0
    } else {
        expired_of(policy, now_ms, candles.drop_last(), tf) + if candles.last().0 == tf
            && policy.drops_candle(now_ms, tf, candles.last().1) {
            1int
        } else {
            0
        }
    }
}

/// The records of the audit trail past their horizon.
pub open spec fn expired_audit(policy: Policy, now_ms: i64, audit: Seq<i64>) -> int
    decreases audit.len(),
{
    if audit.len() == 0 {
        0
    } else {
        expired_audit(policy, now_ms, audit.drop_last()) + if policy.drops_audit(
            now_ms,
            audit.last(),
        ) {
            1int
        } else {
            0
        }
    }
}

/// Rows that a sweep would remove, without removing them: of candles, told by timeframe and open
/// time, and of the audit trail, told by time.
///
/// For a dry run before retention is enabled on a database that has been accumulating for a year.
pub fn would_sweep(policy: &Policy, now_ms: i64, candles: &[(i64, i64)], audit: &[i64]) -> (r:
    Swept)
    requires
        policy.holds_at(now_ms),
        candles@.len() <= i64::MAX,
        audit@.len() <= i64::MAX,
    ensures
        r.candles == expired_candles(*policy, now_ms, candles@),
        r.audit == expired_audit(*policy, now_ms, audit@),
        r.batches == 0,
{
    let mut swept = Swept { candles: 0, audit: 0, batches: 0 };
    let mut i: usize = 0;
    assert(candles@.take(0) =~= Seq::<(i64, i64)>::empty());
    while i < candles.len()
        invariant
            i <= candles@.len() <= i64::MAX,
            policy.holds_at(now_ms),
            swept.candles == expired_candles(*policy, now_ms, candles@.take(i as int)),
            0 <= swept.candles <= i,
            swept.audit == 0,
            swept.batches == 0,
        decreases candles@.len() - i,
    {
        assert(candles@.take(i + 1).drop_last() =~= candles@.take(i as int));
        let (tf_ms, open_time) = candles[i];
        if open_time < policy.keep_candles_from(tf_ms, now_ms) {
            swept.candles = swept.candles + 1;
        }
        i += 1;
    }
    assert(candles@.take(i as int) =~= candles@);
    let cutoff: i64 = policy.keep_audit_from(now_ms);
    let mut j: usize = 0;
    assert(audit@.take(0) =~= Seq::<i64>::empty());
    while j < audit.len()
        invariant
            j <= audit@.len() <= i64::MAX,
            cutoff == days_ago(now_ms, policy.audit_days),
            swept.candles == expired_candles(*policy, now_ms, candles@),
            swept.audit == expired_audit(*policy, now_ms, audit@.take(j as int)),
            0 <= swept.audit <= j,
            swept.batches == 0,
        decreases audit@.len() - j,
    {
        assert(audit@.take(j + 1).drop_last() =~= audit@.take(j as int));
        if audit[j] < cutoff {
            swept.audit = swept.audit + 1;
        }
        j += 1;
    }
    assert(audit@.take(j as int) =~= audit@);
    swept
}

/// What is past its horizon, timeframe by timeframe.
pub open spec fn expired_over(
    policy: Policy,
    now_ms: i64,
    candles: Seq<(i64, i64)>,
    timeframes: Seq<i64>,
) -> int
    decreases timeframes.len(),
{
    if timeframes.len() == 0 {
        0
    } else {
        expired_over(policy, now_ms, candles, timeframes.drop_last()) + expired_of(
            policy,
            now_ms,
            candles,
            timeframes.last(),
        )
    }
}

/// What is past its horizon is counted once, whether all at once or timeframe by timeframe.
proof fn lemma_expired_over(
    policy: Policy,
    now_ms: i64,
    candles: Seq<(i64, i64)>,
    timeframes: Seq<i64>,
)
    requires
        timeframes.no_duplicates(),
        forall|i: int| 0 <= i < candles.len() ==> timeframes.contains((#[trigger] candles[i]).0),
    ensures
        expired_over(policy, now_ms, candles, timeframes) == expired_candles(
            policy,
            now_ms,
            candles,
        ),
    decreases candles.len(),
{
    if candles.len() == 0 {
        assert(candles =~= Seq::<(i64, i64)>::empty());
        lemma_nothing_expired(policy, now_ms, timeframes);
    } else {
        let rest = candles.drop_last();
        assert forall|i: int| 0 <= i < rest.len() implies timeframes.contains(
            (#[trigger] rest[i]).0,
        ) by {
            assert(rest[i] == candles[i]);
        }
        lemma_expired_over(policy, now_ms, rest, timeframes);
        assert(timeframes.contains(candles[candles.len() - 1].0));
        lemma_one_more(policy, now_ms, candles, timeframes);
    }
}

proof fn lemma_nothing_expired(policy: Policy, now_ms: i64, timeframes: Seq<i64>)
    ensures
        expired_over(policy, now_ms, Seq::empty(), timeframes) == 0,
    decreases timeframes.len(),
{
    if timeframes.len() > 0 {
        lemma_nothing_expired(policy, now_ms, timeframes.drop_last());
    }
}

/// One more candle counts for its own timeframe and for no other.
proof fn lemma_one_more(
    policy: Policy,
    now_ms: i64,
    candles: Seq<(i64, i64)>,
    timeframes: Seq<i64>,
)
    requires
        candles.len() > 0,
        timeframes.no_duplicates(),
    ensures
        expired_over(policy, now_ms, candles, timeframes) == expired_over(
            policy,
            now_ms,
            candles.drop_last(),
            timeframes,
        ) + if timeframes.contains(candles.last().0) && policy.drops_candle(
            now_ms,
            candles.last().0,
            candles.last().1,
        ) {
            1int
        } else {
            0
        },
    decreases timeframes.len(),
{
    if timeframes.len() > 0 {
        let rest = timeframes.drop_last();
        let tf = candles.last().0;
        assert(rest.no_duplicates());
        lemma_one_more(policy, now_ms, candles, rest);
        assert(timeframes.contains(tf) == (rest.contains(tf) || timeframes.last() == tf)) by {
            if timeframes.contains(tf) {
                let k = timeframes.index_of(tf);
                if k < rest.len() {
                    assert(rest[k] == tf);
                }
            }
            if rest.contains(tf) {
                let k = rest.index_of(tf);
                assert(timeframes[k] == tf);
            }
            if timeframes.last() == tf {
                assert(timeframes[timeframes.len() - 1] == tf);
            }
        }
        if rest.contains(tf) && timeframes.last() == tf {
            let k = rest.index_of(tf);
            assert(timeframes[k] == timeframes[timeframes.len() - 1]);
        }
    }
}

/// A sweep after so many timeframes, over a database that holds these candles.
pub open spec fn swept_to(sweep: SweepView, candles: Seq<(i64, i64)>, n: int) -> SweepView
    decreases n,
{
    if n <= 0 {
        sweep
    } else {
        drained(
            swept_to(sweep, candles, n - 1),
            expired_of(sweep.policy, sweep.now_ms, candles, sweep.timeframes[n - 1]),
        )
    }
}

/// A dry run counts what a sweep removes: over the same candles and the same audit trail, a sweep
/// that goes through every timeframe once ends having removed what the dry run counted.
pub proof fn a_dry_run_counts_what_a_sweep_removes(
    sweep: SweepView,
    candles: Seq<(i64, i64)>,
    audit: Seq<i64>,
)
    requires
        sweep.wf(),
        sweep.at == 0,
        !sweep.done,
        sweep.swept == (Swept { candles: 0, audit: 0, batches: 0 }),
        sweep.timeframes.no_duplicates(),
        forall|i: int|
            0 <= i < candles.len() ==> sweep.timeframes.contains((#[trigger] candles[i]).0),
        candles.len() + audit.len() + sweep.timeframes.len() < i64::MAX,
    ensures
        ({
            let end = drained(
                swept_to(sweep, candles, sweep.timeframes.len() as int),
                expired_audit(sweep.policy, sweep.now_ms, audit),
            );
            &&& end.deletes() is None
            &&& end.swept.candles == expired_candles(sweep.policy, sweep.now_ms, candles)
            &&& end.swept.audit == expired_audit(sweep.policy, sweep.now_ms, audit)
        }),
{
    let p = sweep.policy;
    let n = sweep.timeframes.len() as int;
    lemma_expired_over(p, sweep.now_ms, candles, sweep.timeframes);
    lemma_expired_bounds(p, sweep.now_ms, candles, audit);
    lemma_swept_to(sweep, candles, n);
    assert(sweep.timeframes.take(n) =~= sweep.timeframes);
    the_audit_trail_is_swept(
        swept_to(sweep, candles, n),
        expired_audit(p, sweep.now_ms, audit),
    );
}

proof fn lemma_expired_bounds(
    policy: Policy,
    now_ms: i64,
    candles: Seq<(i64, i64)>,
    audit: Seq<i64>,
)
    ensures
        0 <= expired_candles(policy, now_ms, candles) <= candles.len(),
        0 <= expired_audit(policy, now_ms, audit) <= audit.len(),
    decreases candles.len() + audit.len(),
{
    if candles.len() > 0 {
        lemma_expired_bounds(policy, now_ms, candles.drop_last(), audit);
    }
    if audit.len() > 0 {
        lemma_expired_bounds(policy, now_ms, candles, audit.drop_last());
    }
}

proof fn lemma_expired_of_bounds(policy: Policy, now_ms: i64, candles: Seq<(i64, i64)>, tf: i64)
    ensures
        0 <= expired_of(policy, now_ms, candles, tf),
    decreases candles.len(),
{
    if candles.len() > 0 {
        lemma_expired_of_bounds(policy, now_ms, candles.drop_last(), tf);
    }
}

proof fn lemma_expired_over_grows(
    policy: Policy,
    now_ms: i64,
    candles: Seq<(i64, i64)>,
    timeframes: Seq<i64>,
    n: int,
)
    requires
        0 <= n <= timeframes.len(),
    ensures
        0 <= expired_over(policy, now_ms, candles, timeframes.take(n)) <= expired_over(
            policy,
            now_ms,
            candles,
            timeframes,
        ),
    decreases timeframes.len() - n + timeframes.len(),
{
    if n < timeframes.len() {
        lemma_expired_over_grows(policy, now_ms, candles, timeframes, n + 1);
        assert(timeframes.take(n + 1).drop_last() =~= timeframes.take(n));
        lemma_expired_of_bounds(policy, now_ms, candles, timeframes[n]);
        lemma_expired_over_positive(policy, now_ms, candles, timeframes.take(n));
    } else {
        assert(timeframes.take(n) =~= timeframes);
        lemma_expired_over_positive(policy, now_ms, candles, timeframes);
    }
}

proof fn lemma_expired_over_positive(
    policy: Policy,
    now_ms: i64,
    candles: Seq<(i64, i64)>,
    timeframes: Seq<i64>,
)
    ensures
        0 <= expired_over(policy, now_ms, candles, timeframes),
    decreases timeframes.len(),
{
    if timeframes.len() > 0 {
        lemma_expired_over_positive(policy, now_ms, candles, timeframes.drop_last());
        lemma_expired_of_bounds(policy, now_ms, candles, timeframes.last());
    }
}

proof fn lemma_swept_to(sweep: SweepView, candles: Seq<(i64, i64)>, n: int)
    requires
        sweep.wf(),
        sweep.at == 0,
        !sweep.done,
        sweep.swept == (Swept { candles: 0, audit: 0, batches: 0 }),
        0 <= n <= sweep.timeframes.len(),
        expired_over(sweep.policy, sweep.now_ms, candles, sweep.timeframes)
            + sweep.timeframes.len() < i64::MAX,
    ensures
        ({
            let v = swept_to(sweep, candles, n);
            let so_far = expired_over(
                sweep.policy,
                sweep.now_ms,
                candles,
                sweep.timeframes.take(n),
            );
            &&& v.wf()
            &&& v.at == n
            &&& !v.done
            &&& v.policy == sweep.policy
            &&& v.now_ms == sweep.now_ms
            &&& v.timeframes == sweep.timeframes
            &&& v.swept.candles == so_far
            &&& v.swept.audit == 0
            &&& 0 <= v.swept.batches <= so_far + n
        }),
    decreases n,
{
    let p = sweep.policy;
    if n == 0 {
        assert(sweep.timeframes.take(0) =~= Seq::<i64>::empty());
    } else {
        lemma_swept_to(sweep, candles, n - 1);
        lemma_expired_over_grows(p, sweep.now_ms, candles, sweep.timeframes, n);
        lemma_expired_over_grows(p, sweep.now_ms, candles, sweep.timeframes, n - 1);
        assert(sweep.timeframes.take(n).drop_last() =~= sweep.timeframes.take(n - 1));
        let left = expired_of(p, sweep.now_ms, candles, sweep.timeframes[n - 1]);
        lemma_expired_of_bounds(p, sweep.now_ms, candles, sweep.timeframes[n - 1]);
        assert(left / 5000 <= left);
        a_series_is_swept(swept_to(sweep, candles, n - 1), left);
    }
}

/// A candle is dropped once it is older than the days its timeframe is kept for, and not before:
/// those of up to a minute, those below an hour, and those of an hour and above.
pub proof fn a_candle_is_kept_its_days(policy: Policy, now_ms: i64, tf_ms: i64, open_time: i64)
    ensures
        tf_ms <= 60_000 ==> (policy.drops_candle(now_ms, tf_ms, open_time) <==> now_ms - open_time
            > policy.minute_days * 86_400_000),
        60_000 < tf_ms < 3_600_000 ==> (policy.drops_candle(now_ms, tf_ms, open_time) <==> now_ms
            - open_time > policy.five_minute_days * 86_400_000),
        tf_ms >= 3_600_000 ==> (policy.drops_candle(now_ms, tf_ms, open_time) <==> now_ms
            - open_time > policy.hourly_and_above_days * 86_400_000),
        policy.drops_audit(now_ms, open_time) <==> now_ms - open_time > policy.audit_days
            * 86_400_000,
{
}

/// A dry run counts the candles and the records that are past their horizon, each of them once.
pub proof fn a_dry_run_counts_each_once(
    policy: Policy,
    now_ms: i64,
    candles: Seq<(i64, i64)>,
    audit: Seq<i64>,
)
    ensures
        expired_candles(policy, now_ms, candles) == candles.filter(
            |c: (i64, i64)| policy.drops_candle(now_ms, c.0, c.1),
        ).len(),
        expired_audit(policy, now_ms, audit) == audit.filter(
            |at_ms: i64| policy.drops_audit(now_ms, at_ms),
        ).len(),
    decreases candles.len() + audit.len(),
{
    reveal(Seq::filter);
    if candles.len() > 0 {
        a_dry_run_counts_each_once(policy, now_ms, candles.drop_last(), audit);
    }
    if audit.len() > 0 {
        a_dry_run_counts_each_once(policy, now_ms, candles, audit.drop_last());
    }
}

/// What a sweep deletes next is what is past its horizon and nothing else, five thousand rows of it
/// at most: candles of one timeframe before their horizon, or of the audit trail before its own.
pub proof fn a_batch_is_of_what_is_past_its_horizon(sweep: SweepView, tf_ms: i64, at_ms: i64)
    ensures
        sweep.at < sweep.timeframes.len() && tf_ms == sweep.timeframes[sweep.at] ==> {
            let w = sweep.deletes()->0;
            &&& sweep.deletes() is Some
            &&& w.sql == sql::DELETE_CANDLES@
            &&& w.params.len() == 3
            &&& w.params[0] == ValueView::Int(tf_ms as int)
            &&& w.params[1] matches ValueView::Int(cutoff) && (at_ms < cutoff
                <==> sweep.policy.drops_candle(sweep.now_ms, tf_ms, at_ms))
            &&& w.params[2] == ValueView::Int(5_000)
        },
        sweep.at >= sweep.timeframes.len() && !sweep.done ==> {
            let w = sweep.deletes()->0;
            &&& sweep.deletes() is Some
            &&& w.sql == sql::DELETE_AUDIT@
            &&& w.params.len() == 2
            &&& w.params[0] matches ValueView::Int(cutoff) && (at_ms < cutoff
                <==> sweep.policy.drops_audit(sweep.now_ms, at_ms))
            &&& w.params[1] == ValueView::Int(5_000)
        },
{
}

/// Where a policy keeps hourly bars at least as long as finer ones, what is left of an hourly
/// series reaches at least as far back as what is left of a finer one.
pub proof fn coarse_history_outlives_fine(policy: Policy, now_ms: i64, fine: i64, coarse: i64)
    requires
        policy.minute_days <= policy.hourly_and_above_days,
        policy.five_minute_days <= policy.hourly_and_above_days,
        fine < 3_600_000 <= coarse,
    ensures
        days_ago(now_ms, policy.candle_days(coarse)) <= days_ago(now_ms, policy.candle_days(fine)),
{
}

} // verus!
