//! The write side of the database: one writer, a bounded queue, and an acknowledgement that
//! means the data is on disk.
//!
//! An unbounded queue does not remove backpressure, it turns it into memory. So the queue has a
//! depth, and a producer that outruns the disk blocks. There is one writer because SQLite has
//! one anyway; one thread makes the serialisation explicit and lets writes share a transaction.
//! And an acknowledgement comes after the commit and not before: an order that is believed
//! durable and is not is a position that nobody manages.
//!
//! Nothing here touches a file. [`Writer`] says what to do next, and whoever holds the
//! connection does it and says what came of it.

use crate::exchange::moment::Duration;
use vstd::prelude::*;

verus! {

/// Jobs that may be waiting at once: deep enough that a disk hiccup is invisible, shallow enough
/// that the memory it can hold is bounded and small.
pub const QUEUE_DEPTH: usize = 16_384;

/// Jobs gathered into one transaction. SQLite pays for durability per transaction, not per
/// statement, so this is where the throughput comes from.
pub const MAX_BATCH: usize = 512;

/// How long to wait for another writer before giving up, in milliseconds.
pub const BUSY_TIMEOUT: u64 = 3_000;

/// Never checkpoint more often than this, in milliseconds.
pub const CHECKPOINT_INTERVAL: u64 = 60_000;

/// And only when the write-ahead log has grown past this.
///
/// A checkpoint blocks writers for as long as it takes. On a timer alone it would stall the
/// writer every minute of a quiet day, on size alone the log would grow all week.
pub const CHECKPOINT_WAL_BYTES: u64 = 33_554_432;

#[derive(Debug, PartialEq, Eq)]
pub enum StoreError {
    Sqlite(String),
    /// The store has shut down.
    Closed,
    Io(String),
}

impl StoreError {
    pub open spec fn text(self) -> Seq<char> {
        match self {
            StoreError::Sqlite(why) => "sqlite: "@ + why@,
            StoreError::Closed => "the store has shut down"@,
            StoreError::Io(why) => "io: "@ + why@,
        }
    }

    pub fn to_string(&self) -> (r: String)
        ensures
            r@ == self.text(),
    {
        match self {
            StoreError::Sqlite(why) => {
                let mut r = "sqlite: ".to_owned();
                r.append(why.as_str());
                r
            },
            StoreError::Closed => "the store has shut down".to_owned(),
            StoreError::Io(why) => {
                let mut r = "io: ".to_owned();
                r.append(why.as_str());
                r
            },
        }
    }
}

/// What a parameter of a statement can be. Deliberately small.
#[derive(Debug, PartialEq, Eq)]
pub enum Value {
    Int(i64),
    /// The bits of a double.
    Real(u64),
    /// Money and identities. Decimal values arrive as their exact text.
    Text(String),
    Blob(Vec<u8>),
    Null,
}

/// What a [`Value`] says.
pub enum ValueView {
    Int(int),
    Real(u64),
    Text(Seq<char>),
    Blob(Seq<u8>),
    Null,
}

impl View for Value {
    type V = ValueView;

    open spec fn view(&self) -> ValueView {
        match self {
            Value::Int(n) => ValueView::Int(*n as int),
            Value::Real(bits) => ValueView::Real(*bits),
            Value::Text(t) => ValueView::Text(t@),
            Value::Blob(b) => ValueView::Blob(b@),
            Value::Null => ValueView::Null,
        }
    }
}

/// One statement and its parameters, ready to execute.
#[derive(Debug, PartialEq, Eq)]
pub struct Write {
    pub sql: String,
    pub params: Vec<Value>,
}

/// What a [`Write`] says.
#[verifier::ext_equal]
pub struct WriteView {
    pub sql: Seq<char>,
    pub params: Seq<ValueView>,
}

impl View for Write {
    type V = WriteView;

    open spec fn view(&self) -> WriteView {
        WriteView { sql: self.sql@, params: self.params@.map_values(|v: Value| v@) }
    }
}

impl Write {
    pub fn new(sql: &str, params: Vec<Value>) -> (w: Write)
        ensures
            w@ == (WriteView { sql: sql@, params: params@.map_values(|v: Value| v@) }),
    {
        Write { sql: sql.to_owned(), params }
    }

    pub fn owned(sql: String, params: Vec<Value>) -> (w: Write)
        ensures
            w@ == (WriteView { sql: sql@, params: params@.map_values(|v: Value| v@) }),
    {
        Write { sql, params }
    }

    /// Whether there is nothing to bind, so that the text may hold several statements.
    pub fn is_script(&self) -> (r: bool)
        ensures
            r == (self@.params.len() == 0),
    {
        self.params.len() == 0
    }
}

/// Counters an operator can see. A queue that is regularly full means the disk cannot keep up.
#[derive(Clone, Copy, Debug, PartialEq, Eq, Structural)]
pub struct Stats {
    pub committed: u64,
    pub batches: u64,
    pub checkpoints: u64,
    /// Times a producer had to block because the queue was full.
    pub blocked: u64,
}

impl Default for Stats {
    fn default() -> (s: Self)
        ensures
            s == (Stats { committed: 0, batches: 0, checkpoints: 0, blocked: 0 }),
    {
        Stats { committed: 0, batches: 0, checkpoints: 0, blocked: 0 }
    }
}

/// What came of offering a job to the queue without waiting.
#[derive(Clone, Copy, Debug, PartialEq, Eq, Structural)]
pub enum Offered {
    Taken,
    Full,
    /// The writer is gone.
    Disconnected,
}

/// What a producer does next.
#[derive(Clone, Copy, Debug, PartialEq, Eq, Structural)]
pub enum Queueing {
    /// The job is in the queue.
    Queued,
    /// Wait until there is room.
    Block,
    /// The store has shut down.
    Refused,
}

impl Stats {
    /// What a producer does after offering a job. A full queue is waited for and never grown.
    pub fn offered(&mut self, offered: Offered) -> (r: Queueing)
        ensures
            r == (match offered {
                Offered::Taken => Queueing::Queued,
                Offered::Full => Queueing::Block,
                Offered::Disconnected => Queueing::Refused,
            }),
            *final(self) == (Stats {
                blocked: if offered is Full {
                    old(self).blocked.wrapping_add(1)
                } else {
                    old(self).blocked
                },
                ..*old(self)
            }),
    {
        match offered {
            Offered::Taken => Queueing::Queued,
            Offered::Full => {
                self.blocked = self.blocked.wrapping_add(1);
                Queueing::Block
            },
            Offered::Disconnected => Queueing::Refused,
        }
    }
}

/// What the writer said of a job, if it said anything before it was gone.
#[derive(Debug, PartialEq, Eq)]
pub struct WriteAck(pub Option<Result<(), StoreError>>);

impl WriteAck {
    /// What came of the job: the writer's answer, which comes after the commit, or that the
    /// store has shut down.
    pub fn wait(self) -> (r: Result<(), StoreError>)
        ensures
            r == match self.0 {
                Some(answer) => answer,
                None => Err(StoreError::Closed),
            },
    {
        match self.0 {
            Some(answer) => answer,
            None => Err(StoreError::Closed),
        }
    }
}

/// Both conditions, not either: long enough ago, and enough in the log to be worth it.
pub fn should_checkpoint(elapsed: Duration, wal_bytes: u64) -> (r: bool)
    ensures
        r == (elapsed.nanos >= CHECKPOINT_INTERVAL * 1_000_000 && wal_bytes
            > CHECKPOINT_WAL_BYTES),
        r == (elapsed.nanos >= 60_000_000_000 && wal_bytes > 33_554_432),
{
    elapsed.nanos >= CHECKPOINT_INTERVAL * 1_000_000 && wal_bytes > CHECKPOINT_WAL_BYTES
}

} // verus!
