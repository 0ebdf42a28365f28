use moon_own::decimal::Decimal;
use moon_own::domain::ids::{ExchangeId, MarketKind, Symbol};
use moon_own::domain::order::{
    ClientOrderId, NewOrder, Order, OrderStatus, OrderType, PositionSide, Side, TimeInForce,
};
use moon_own::domain::time::Timestamp;
use moon_own::exchange::moment::{Duration, Instant};
use moon_own::storage::maintenance::{
    check, files_of, quarantine_folder, quarantine_place, recover, total_size, vacuum, Health, Move,
    Recovered, QUARANTINE,
};
use moon_own::storage::orders::{
    record_intent, record_never_placed, record_update, side_of, status_of, type_of, PENDING,
};
use moon_own::storage::read::{
    is_resolved, period_summary, unresolved_orders, DealRow, OrderRow, PeriodSummary,
};
use moon_own::storage::retention::{would_sweep, Policy, Sweep, Swept, BATCH};
use moon_own::storage::schema::sql;
use moon_own::storage::schema::{expected_version, text, MigrationError, Migrator};
use moon_own::storage::store::{
    should_checkpoint, Offered, Queueing, Stats, StoreError, Value, Write, WriteAck,
    CHECKPOINT_INTERVAL, CHECKPOINT_WAL_BYTES, MAX_BATCH, QUEUE_DEPTH,
};
use moon_own::storage::writer::{Action, Answer, Writer};
use rusqlite::{Connection, OpenFlags};
use std::collections::VecDeque;

const DAY: i64 = 86_400_000;
const NOW: i64 = 1_700_000_000_000;

fn dec(text: &str) -> Decimal {
    Decimal::parse(text).unwrap()
}

/// A database that outlives the stores opened on it.
struct Disk {
    uri: String,
    _keeper: Connection,
}

fn attach(uri: &str) -> Connection {
    Connection::open_with_flags(
        uri,
        OpenFlags::SQLITE_OPEN_READ_WRITE
            | OpenFlags::SQLITE_OPEN_CREATE
            | OpenFlags::SQLITE_OPEN_URI,
    )
    .expect("opens")
}

impl Disk {
    fn new(tag: &str) -> Disk {
        let uri = format!("file:{tag}?mode=memory&cache=shared");
        let keeper = attach(&uri);
        Disk { uri, _keeper: keeper }
    }
}

fn bind(value: &Value) -> rusqlite::types::Value {
    match value {
        Value::Int(n) => rusqlite::types::Value::Integer(*n),
        Value::Real(bits) => rusqlite::types::Value::Real(f64::from_bits(*bits)),
        Value::Text(t) => rusqlite::types::Value::Text(t.clone()),
        Value::Blob(b) => rusqlite::types::Value::Blob(b.clone()),
        Value::Null => rusqlite::types::Value::Null,
    }
}

/// Does what the writer asks for, against a real database.
struct Store {
    connection: Connection,
    queue: VecDeque<Vec<Write>>,
    writer: Writer,
    producers: Stats,
    answers: Vec<Option<String>>,
    wal_bytes: u64,
    clock: u64,
}

impl Store {
    fn open(disk: &Disk) -> Store {
        let connection = attach(&disk.uri);
        connection.execute_batch("PRAGMA foreign_keys = ON").unwrap();
        Store {
            connection,
            queue: VecDeque::new(),
            writer: Writer::new(Instant { nanos: 0 }),
            producers: Stats::default(),
            answers: Vec::new(),
            wal_bytes: 0,
            clock: 0,
        }
    }

    fn now(&self) -> Instant {
        Instant { nanos: self.clock }
    }

    fn ran(outcome: Result<(), rusqlite::Error>) -> Answer {
        match outcome {
            Ok(()) => Answer::Ran,
            Err(e) => Answer::Failed(e.to_string()),
        }
    }

    /// Works off what is queued.
    fn drain(&mut self) {
        let mut batch: Vec<Vec<Write>> = Vec::new();
        loop {
            let answer = match self.writer.next() {
                Action::Wait => match self.queue.pop_front() {
                    Some(job) => {
                        let size = job.len();
                        batch.push(job);
                        Answer::Job(size)
                    }
                    None => return,
                },
                Action::Poll => match self.queue.pop_front() {
                    Some(job) => {
                        let size = job.len();
                        batch.push(job);
                        Answer::Job(size)
                    }
                    None => Answer::Empty,
                },
                Action::Begin => Self::ran(self.connection.execute_batch("BEGIN IMMEDIATE")),
                Action::Execute { job, write } => {
                    let write = &batch[job][write];
                    Self::ran(if write.is_script() {
                        self.connection.execute_batch(&write.sql)
                    } else {
                        let params: Vec<_> = write.params.iter().map(bind).collect();
                        self.connection
                            .execute(&write.sql, rusqlite::params_from_iter(params))
                            .map(|_| ())
                    })
                }
                Action::Commit => Self::ran(self.connection.execute_batch("COMMIT")),
                Action::RollBack => Self::ran(self.connection.execute_batch("ROLLBACK")),
                Action::Acknowledge { failure } => {
                    for _ in batch.drain(..) {
                        self.answers.push(failure.clone());
                    }
                    Answer::Acknowledged { now: self.now(), wal_bytes: self.wal_bytes }
                }
                Action::Checkpoint => {
                    self.wal_bytes = 0;
                    Answer::Checkpointed { ok: true, now: self.now() }
                }
                Action::Stop => return,
            };
            self.writer.step(answer);
        }
    }

    fn write(&mut self, writes: Vec<Write>) {
        let offered =
            if self.queue.len() < QUEUE_DEPTH { Offered::Taken } else { Offered::Full };
        match self.producers.offered(offered) {
            Queueing::Queued => {}
            Queueing::Block => self.drain(),
            Queueing::Refused => unreachable!("the writer is there"),
        }
        self.queue.push_back(writes);
    }

    fn write_durable(&mut self, writes: Vec<Write>) -> Result<(), StoreError> {
        self.write(writes);
        self.drain();
        WriteAck(self.answers.last().map(|failure| match failure {
            None => Ok(()),
            Some(why) => Err(StoreError::Sqlite(why.clone())),
        }))
        .wait()
    }

    fn version(&self) -> i64 {
        self.connection.query_row("PRAGMA user_version", [], |r| r.get(0)).unwrap()
    }

    fn migrate(&mut self) -> Result<i64, MigrationError> {
        for step in Migrator::migrate(self.version())? {
            let what = step.what;
            let version = step.version;
            if let Err(e) = self.write_durable(vec![step.write]) {
                return Err(MigrationError::Failed {
                    version,
                    what: what.to_string(),
                    why: e.to_string(),
                });
            }
        }
        Ok(expected_version())
    }

    fn number(&self, query: &str) -> i64 {
        self.connection.query_row(query, [], |r| r.get(0)).unwrap()
    }

    fn count(&self, table: &str) -> i64 {
        self.number(&format!("SELECT COUNT(*) FROM {table}"))
    }

    fn unresolved(&self) -> Vec<String> {
        let mut stmt =
            self.connection.prepare("SELECT client_id, status, created_at FROM orders").unwrap();
        let rows: Vec<OrderRow> = stmt
            .query_map([], |r| {
                Ok(OrderRow { client_id: r.get(0)?, status: r.get(1)?, created_at: r.get(2)? })
            })
            .unwrap()
            .map(Result::unwrap)
            .collect();
        unresolved_orders(&rows)
    }

    fn summary(&self, core_uid: i64, from_ms: i64, to_ms: i64) -> PeriodSummary {
        let mut stmt = self
            .connection
            .prepare("SELECT core_uid, phase, closed_at, realized FROM deals")
            .unwrap();
        let rows: Vec<DealRow> = stmt
            .query_map([], |r| {
                Ok(DealRow {
                    core_uid: r.get(0)?,
                    phase: r.get(1)?,
                    closed_at: r.get(2)?,
                    realized: r.get(3)?,
                })
            })
            .unwrap()
            .map(Result::unwrap)
            .collect();
        period_summary(&rows, core_uid, from_ms, to_ms).expect("within range")
    }

    fn sweep(&mut self, policy: &Policy, now_ms: i64) -> Swept {
        let timeframes = {
            let mut stmt = self
                .connection
                .prepare("SELECT DISTINCT tf_ms FROM candles ORDER BY tf_ms")
                .unwrap();
            let rows: Vec<i64> = stmt.query_map([], |r| r.get(0)).unwrap().map(Result::unwrap).collect();
            rows
        };
        let mut sweep = Sweep::new(*policy, now_ms, timeframes);
        while let Some(write) = sweep.next() {
            let table = if write.sql.contains("FROM candles") { "candles" } else { "audit" };
            let before = self.count(table);
            self.write_durable(vec![write]).unwrap();
            let after = self.count(table);
            sweep.removed(before, after);
        }
        sweep.swept()
    }

    fn would_sweep(&self, policy: &Policy, now_ms: i64) -> Swept {
        let mut stmt = self.connection.prepare("SELECT tf_ms, open_time FROM candles").unwrap();
        let candles: Vec<(i64, i64)> = stmt
            .query_map([], |r| Ok((r.get(0)?, r.get(1)?)))
            .unwrap()
            .map(Result::unwrap)
            .collect();
        let mut stmt = self.connection.prepare("SELECT at_ms FROM audit").unwrap();
        let audit: Vec<i64> = stmt.query_map([], |r| r.get(0)).unwrap().map(Result::unwrap).collect();
        would_sweep(policy, now_ms, &candles, &audit)
    }
}

fn migrated(tag: &str) -> (Disk, Store) {
    let disk = Disk::new(tag);
    let mut store = Store::open(&disk);
    store.migrate().expect("migrates");
    (disk, store)
}

// -------------------------------------------------------------------- orders

fn new_order(client_id: &str) -> NewOrder {
    NewOrder {
        client_id: ClientOrderId(client_id.into()),
        symbol: Symbol::new(ExchangeId::Binance, MarketKind::LinearPerp, "BTCUSDT"),
        side: Side::Buy,
        order_type: OrderType::Limit,
        qty: dec("0.5"),
        price: Some(dec("63096.01")),
        trigger_price: None,
        tif: TimeInForce::Gtc,
        position_side: PositionSide::Long,
        reduce_only: false,
    }
}

fn placed(client_id: &str, status: OrderStatus) -> Order {
    let n = new_order(client_id);
    Order {
        client_id: n.client_id,
        venue_id: Some("v-1".into()),
        symbol: n.symbol,
        side: n.side,
        order_type: n.order_type,
        status,
        qty: n.qty,
        filled_qty: dec("0.25"),
        price: n.price,
        trigger_price: None,
        avg_price: dec("63096.01"),
        tif: n.tif,
        position_side: n.position_side,
        reduce_only: false,
        created_at: Timestamp::from_millis(NOW),
        updated_at: Timestamp::from_millis(NOW + 1),
    }
}

fn status(store: &Store, client_id: &str) -> String {
    store
        .connection
        .query_row("SELECT status FROM orders WHERE client_id = ?1", [client_id], |r| r.get(0))
        .unwrap()
}

#[test]
fn an_order_killed_between_the_write_and_the_send_is_found_at_startup() {
    let disk = Disk::new("crash");
    {
        let mut store = Store::open(&disk);
        store.migrate().unwrap();
        store
            .write_durable(vec![record_intent(&new_order("c-1"), 0, NOW)])
            .expect("recorded before sending");
        // …and here the process dies. Nothing was sent.
    }

    let store = Store::open(&disk);
    assert_eq!(store.unresolved(), vec!["c-1"], "the order must be waiting for reconciliation");
    assert_eq!(status(&store, "c-1"), PENDING, "and must say it was never confirmed");
}

#[test]
fn the_write_has_committed_before_record_intent_returns() {
    let (disk, mut store) = migrated("durable");
    store.write_durable(vec![record_intent(&new_order("c-1"), 0, NOW)]).unwrap();

    // An independent connection, which knows nothing of the writer's in-memory state.
    let independent = attach(&disk.uri);
    let count: i64 = independent
        .query_row("SELECT COUNT(*) FROM orders WHERE client_id='c-1'", [], |r| r.get(0))
        .unwrap();
    assert_eq!(count, 1, "the row must be on disk when the call returns");
}

#[test]
fn pending_is_not_a_status_the_venue_can_report() {
    // `Pending` is the exception: it maps to the same name on purpose.
    for status in [
        OrderStatus::New,
        OrderStatus::PartiallyFilled,
        OrderStatus::Filled,
        OrderStatus::Canceled,
        OrderStatus::Rejected,
        OrderStatus::Expired,
    ] {
        assert_ne!(status_of(status), PENDING);
    }
    assert_eq!(status_of(OrderStatus::Pending), PENDING);
}

#[test]
fn an_order_moves_out_of_pending_once_the_venue_answers() {
    let (_disk, mut store) = migrated("confirm");
    store.write_durable(vec![record_intent(&new_order("c-1"), 0, NOW)]).unwrap();
    assert_eq!(status(&store, "c-1"), PENDING);

    store.write_durable(vec![record_update(&placed("c-1", OrderStatus::New), NOW + 10)]).unwrap();
    assert_eq!(status(&store, "c-1"), "new");
    assert_eq!(
        store.unresolved(),
        vec!["c-1"],
        "still unresolved: a live order is exactly what reconciliation is for"
    );
}

#[test]
fn a_filled_order_leaves_the_reconciliation_list() {
    let (_disk, mut store) = migrated("filled");
    store.write_durable(vec![record_intent(&new_order("c-1"), 0, NOW)]).unwrap();
    store.write_durable(vec![record_update(&placed("c-1", OrderStatus::Filled), NOW + 10)]).unwrap();
    assert!(store.unresolved().is_empty());
}

#[test]
fn a_canceled_order_leaves_the_reconciliation_list_too() {
    let (_disk, mut store) = migrated("canceled");
    store.write_durable(vec![record_intent(&new_order("c-1"), 0, NOW)]).unwrap();
    store
        .write_durable(vec![record_update(&placed("c-1", OrderStatus::Canceled), NOW + 10)])
        .unwrap();
    assert!(store.unresolved().is_empty());
}

#[test]
fn an_order_the_venue_never_received_is_closed_out() {
    let (_disk, mut store) = migrated("never");
    store.write_durable(vec![record_intent(&new_order("c-1"), 0, NOW)]).unwrap();
    store.write_durable(vec![record_never_placed("c-1", NOW + 10)]).unwrap();

    assert_eq!(status(&store, "c-1"), "rejected");
    assert!(store.unresolved().is_empty());
}

#[test]
fn closing_out_only_touches_orders_still_pending() {
    let (_disk, mut store) = migrated("late");
    store.write_durable(vec![record_intent(&new_order("c-1"), 0, NOW)]).unwrap();
    store.write_durable(vec![record_update(&placed("c-1", OrderStatus::New), NOW + 10)]).unwrap();

    store.write_durable(vec![record_never_placed("c-1", NOW + 20)]).unwrap();
    assert_eq!(status(&store, "c-1"), "new", "a confirmed order must not be closed out");
}

#[test]
fn the_revision_moves_with_every_update() {
    let (_disk, mut store) = migrated("rev");
    store.write_durable(vec![record_intent(&new_order("c-1"), 0, NOW)]).unwrap();

    let rev = |s: &Store| s.number("SELECT rev FROM orders WHERE client_id='c-1'");
    assert_eq!(rev(&store), 0);

    store.write_durable(vec![record_update(&placed("c-1", OrderStatus::New), NOW + 1)]).unwrap();
    assert_eq!(rev(&store), 1);
    store
        .write_durable(vec![record_update(&placed("c-1", OrderStatus::PartiallyFilled), NOW + 2)])
        .unwrap();
    assert_eq!(rev(&store), 2);
}

#[test]
fn the_recorded_order_carries_what_reconciliation_needs_to_ask_the_venue() {
    let (_disk, mut store) = migrated("fields");
    store.write_durable(vec![record_intent(&new_order("c-1"), 7, NOW)]).unwrap();

    let (symbol, side, qty, price, core_uid): (String, String, String, String, i64) = store
        .connection
        .query_row(
            "SELECT symbol, side, qty, price, core_uid FROM orders WHERE client_id='c-1'",
            [],
            |r| Ok((r.get(0)?, r.get(1)?, r.get(2)?, r.get(3)?, r.get(4)?)),
        )
        .unwrap();

    assert_eq!(symbol, "BTCUSDT");
    assert_eq!(side, "buy");
    assert_eq!(qty, "0.5");
    assert_eq!(price, "63096.01", "the exact decimal, not a rounded one");
    assert_eq!(core_uid, 7);
}

#[test]
fn two_orders_with_the_same_id_cannot_both_exist() {
    let (_disk, mut store) = migrated("dup");
    store.write_durable(vec![record_intent(&new_order("c-1"), 0, NOW)]).unwrap();
    assert!(store.write_durable(vec![record_intent(&new_order("c-1"), 0, NOW)]).is_err());
}

#[test]
fn status_names_are_written_out_rather_than_derived() {
    assert_eq!(status_of(OrderStatus::PartiallyFilled), "partially_filled");
    assert_eq!(status_of(OrderStatus::Filled), "filled");
    assert_eq!(side_of(Side::Sell), "sell");
}

#[test]
fn order_types_are_stored_in_small_letters() {
    assert_eq!(type_of(OrderType::Limit), "limit");
    assert_eq!(type_of(OrderType::Market), "market");
}

// ---------------------------------------------------------------------- read

fn closed_deal(id: i64, closed_at: i64, realized: &str) -> Write {
    Write::new(
        sql::INSERT_DEAL,
        vec![
            Value::Int(id),
            Value::Int(0),
            text("binance"),
            text("linear_perp"),
            text("BTCUSDT"),
            text("buy"),
            text("closed"),
            text("0.5"),
            text("63000"),
            text("63100"),
            text(realized),
            text("0.01"),
            text("take_profit"),
            Value::Int(closed_at - 1_000),
            Value::Int(closed_at),
        ],
    )
}

fn order(client_id: &str, status: &str, created_at: i64) -> Write {
    Write::new(
        sql::INSERT_ORDER,
        vec![
            text(client_id),
            Value::Null,
            Value::Null,
            Value::Int(0),
            text("binance"),
            text("linear_perp"),
            text("BTCUSDT"),
            text("buy"),
            text("limit"),
            text(status),
            text("0.5"),
            text("0"),
            text("63000"),
            Value::Null,
            text("0"),
            Value::Int(0),
            Value::Int(created_at),
            Value::Int(created_at),
            Value::Int(0),
        ],
    )
}

#[test]
fn a_period_summary_counts_only_what_closed_inside_it() {
    let (_disk, mut store) = migrated("period");
    store.write_durable(vec![closed_deal(1, 500, "10")]).unwrap();
    store.write_durable(vec![closed_deal(2, 1_500, "20")]).unwrap();
    store.write_durable(vec![closed_deal(3, 2_500, "-5")]).unwrap();

    let summary = store.summary(0, 1_000, 3_000);
    assert_eq!(summary.deals, 2, "the one that closed before the period is excluded");
    assert_eq!(summary.wins, 1);
    assert_eq!(summary.losses, 1);
    assert_eq!(summary.realized, "15");
}

#[test]
fn the_total_is_summed_exactly_and_not_through_a_float() {
    let (_disk, mut store) = migrated("exact");
    for (id, amount) in [(1, "0.1"), (2, "0.2"), (3, "0.00000001")] {
        store.write_durable(vec![closed_deal(id, 1_000 + id, amount)]).unwrap();
    }
    assert_eq!(store.summary(0, 0, 9_999).realized, "0.30000001", "the total must be exact");
}

#[test]
fn a_period_with_nothing_in_it_is_zero_rather_than_an_error() {
    let (_disk, store) = migrated("empty");
    assert_eq!(
        store.summary(0, 0, 1),
        PeriodSummary { deals: 0, realized: "0".into(), wins: 0, losses: 0 }
    );
}

#[test]
fn a_break_even_deal_is_neither_a_win_nor_a_loss() {
    let (_disk, mut store) = migrated("flat");
    store.write_durable(vec![closed_deal(1, 1_000, "0")]).unwrap();
    let summary = store.summary(0, 0, 9_999);
    assert_eq!((summary.deals, summary.wins, summary.losses), (1, 0, 0));
}

#[test]
fn one_cores_deals_do_not_appear_in_anothers_report() {
    let (_disk, mut store) = migrated("cores");
    store.write_durable(vec![closed_deal(1, 1_000, "10")]).unwrap();
    assert_eq!(store.summary(99, 0, 9_999).deals, 0);
}

#[test]
fn unresolved_orders_are_what_reconciliation_starts_from() {
    let (_disk, mut store) = migrated("unresolved");
    store.write_durable(vec![order("c-1", "pending", 1)]).unwrap();
    store.write_durable(vec![order("c-2", "new", 2)]).unwrap();
    store.write_durable(vec![order("c-3", "filled", 3)]).unwrap();
    store.write_durable(vec![order("c-4", "cancelled", 4)]).unwrap();
    assert_eq!(store.unresolved(), vec!["c-1", "c-2"], "terminal states must not be reconciled again");
}

#[test]
fn unresolved_orders_come_back_oldest_first() {
    let (_disk, mut store) = migrated("order");
    store.write_durable(vec![order("later", "new", 200)]).unwrap();
    store.write_durable(vec![order("earlier", "new", 100)]).unwrap();
    assert_eq!(store.unresolved(), vec!["earlier", "later"]);
}

#[test]
fn a_clean_start_has_nothing_to_reconcile() {
    let (_disk, store) = migrated("clean");
    assert!(store.unresolved().is_empty());
}

#[test]
fn a_total_that_does_not_fit_is_not_given() {
    let row = |realized: &str| DealRow {
        core_uid: 0,
        phase: "closed".into(),
        closed_at: Some(1),
        realized: realized.into(),
    };
    let most = "79228162514264337593543950335";
    assert!(period_summary(&[row(most), row(most)], 0, 0, 2).is_none());
    // What is no amount counts as a deal that earned nothing.
    let summary = period_summary(&[row("n/a"), row("-1.50")], 0, 0, 2).unwrap();
    assert_eq!(
        summary,
        PeriodSummary { deals: 2, realized: "-1.50".into(), wins: 0, losses: 1 }
    );
}

#[test]
fn both_spellings_of_cancelled_are_resolved() {
    for done in ["filled", "canceled", "cancelled", "rejected", "expired"] {
        assert!(is_resolved(done));
    }
    for open in ["pending", "new", "partially_filled", ""] {
        assert!(!is_resolved(open));
    }
}

// ----------------------------------------------------------------- retention

fn candles(store: &mut Store, tf_ms: i64, count: i64, oldest_ms: i64, step_ms: i64) {
    for start in (0..count).step_by(500) {
        let writes = (start..(start + 500).min(count))
            .map(|i| {
                Write::new(
                    sql::UPSERT_CANDLE,
                    vec![
                        text("binance"),
                        text("linear_perp"),
                        text("BTCUSDT"),
                        Value::Int(tf_ms),
                        Value::Int(oldest_ms + i * step_ms),
                        text("1"),
                        text("2"),
                        text("0.5"),
                        text("1.5"),
                        text("10"),
                        Value::Int(1),
                    ],
                )
            })
            .collect();
        store.write_durable(writes).unwrap();
    }
}

fn audit_rows(store: &mut Store, count: i64, oldest_ms: i64, step_ms: i64) {
    for start in (0..count).step_by(500) {
        let writes = (start..(start + 500).min(count))
            .map(|i| {
                Write::new(
                    sql::INSERT_AUDIT,
                    vec![
                        Value::Int(oldest_ms + i * step_ms),
                        Value::Int(1),
                        text("device"),
                        text("127.0.0.1"),
                        text("trader"),
                        Value::Int(i),
                        text("place_order"),
                        Value::Blob(vec![1]),
                        text("succeeded"),
                        Value::Null,
                    ],
                )
            })
            .collect();
        store.write_durable(writes).unwrap();
    }
}

#[test]
fn each_timeframe_has_its_own_horizon() {
    let policy = Policy::default();
    assert_eq!(policy.keep_candles_from(60_000, NOW), NOW - 30 * DAY);
    assert_eq!(policy.keep_candles_from(300_000, NOW), NOW - 15 * DAY);
    assert_eq!(policy.keep_candles_from(3_600_000, NOW), NOW - 3_650 * DAY);
    assert_eq!(policy.keep_candles_from(86_400_000, NOW), NOW - 3_650 * DAY);
}

#[test]
fn a_second_bar_is_treated_as_finely_as_a_minute_bar() {
    assert_eq!(Policy::default().keep_candles_from(1_000, NOW), NOW - 30 * DAY);
}

#[test]
fn old_minute_candles_go_and_recent_ones_stay() {
    // Sixty daily-spaced bars ending at now, so the horizon falls exactly halfway.
    let (_disk, mut store) = migrated("minutes");
    candles(&mut store, 60_000, 60, NOW - 60 * DAY, DAY);

    let swept = store.sweep(&Policy::default(), NOW);
    assert_eq!(swept.candles, 30, "everything older than thirty days goes");
    assert_eq!(store.count("candles"), 30, "and everything newer stays");
}

#[test]
fn hourly_candles_are_not_touched_by_a_sweep_that_removes_minute_ones() {
    let (_disk, mut store) = migrated("mixed");
    candles(&mut store, 60_000, 60, NOW - 60 * DAY, DAY);
    candles(&mut store, 3_600_000, 60, NOW - 60 * DAY, DAY);

    store.sweep(&Policy::default(), NOW);
    let hourly = store.number("SELECT COUNT(*) FROM candles WHERE tf_ms = 3600000");
    assert_eq!(hourly, 60, "hourly history must survive");
}

#[test]
fn the_audit_trail_is_kept_for_a_year() {
    let (_disk, mut store) = migrated("audit");
    audit_rows(&mut store, 800, NOW - 800 * DAY, DAY);

    store.sweep(&Policy::default(), NOW);
    assert_eq!(store.count("audit"), 365, "a year of it stays");
}

#[test]
fn a_sweep_with_nothing_to_do_is_cheap_and_reports_nothing() {
    let (_disk, mut store) = migrated("noop");
    candles(&mut store, 60_000, 10, NOW - DAY, 60_000);

    let swept = store.sweep(&Policy::default(), NOW);
    assert_eq!(swept.candles, 0);
    assert_eq!(store.count("candles"), 10);
    assert_eq!(swept, Swept { candles: 0, audit: 0, batches: 2 });
}

#[test]
fn deleting_a_lot_never_holds_the_lock_for_a_whole_sweep() {
    let (_disk, mut store) = migrated("batched");
    candles(&mut store, 60_000, 12_000, NOW - 400 * DAY, 60_000);

    let swept = store.sweep(&Policy::default(), NOW);
    assert!(swept.candles >= 12_000, "everything past the horizon must go");
    assert!(swept.batches >= 3, "12 000 rows must take several batches, got {}", swept.batches);
}

#[test]
fn a_sweep_stands_aside_after_every_full_batch() {
    let mut sweep = Sweep::new(Policy::default(), NOW, vec![60_000]);
    assert!(sweep.removed(BATCH + 7, 7), "a full batch is followed by a pause");
    assert!(!sweep.removed(7, 0), "and a short one ends the series");
    assert!(!sweep.removed(0, 0));
    assert!(sweep.next().is_none());
    assert_eq!(sweep.swept(), Swept { candles: BATCH + 7, audit: 0, batches: 3 });
}

#[test]
fn a_dry_run_counts_without_deleting() {
    let (_disk, mut store) = migrated("dry");
    candles(&mut store, 60_000, 100, NOW - 60 * DAY, DAY);
    let before = store.count("candles");

    let would = store.would_sweep(&Policy::default(), NOW);
    assert!(would.candles > 0);
    assert_eq!(store.count("candles"), before, "a dry run must remove nothing");

    let actual = store.sweep(&Policy::default(), NOW);
    assert_eq!(actual.candles, would.candles, "the estimate must match what happens");
}

#[test]
fn a_custom_policy_is_respected() {
    let (_disk, mut store) = migrated("custom");
    candles(&mut store, 60_000, 60, NOW - 60 * DAY, DAY);

    let strict = Policy { minute_days: 5, ..Policy::default() };
    store.sweep(&strict, NOW);
    assert_eq!(store.count("candles"), 5, "only the last five days survive");
}

// -------------------------------------------------------------------- schema

fn deal(phase: &str, closed_at: Value, realized: Value) -> Vec<Write> {
    vec![Write::new(
        sql::INSERT_DEAL,
        vec![
            Value::Int(1),
            Value::Int(0),
            text("binance"),
            text("linear_perp"),
            text("BTCUSDT"),
            text("buy"),
            text(phase),
            text("0.5"),
            text("63000.00"),
            text("63100.00"),
            realized,
            text("0.01"),
            Value::Null,
            Value::Int(1_700_000_000_000),
            closed_at,
        ],
    )]
}

fn order_params(client_id: &str) -> Vec<Value> {
    vec![
        text(client_id),
        Value::Null,
        Value::Null,
        Value::Int(0),
        text("binance"),
        text("linear_perp"),
        text("BTCUSDT"),
        text("buy"),
        text("limit"),
        text("new"),
        text("0.5"),
        text("0"),
        text("63096.01000000"),
        Value::Null,
        text("0"),
        Value::Int(0),
        Value::Int(1_700_000_000_000),
        Value::Int(1_700_000_000_000),
        Value::Int(0),
    ]
}

fn names(store: &Store, query: &str) -> Vec<String> {
    let mut stmt = store.connection.prepare(query).unwrap();
    let rows: Vec<String> = stmt.query_map([], |r| r.get(0)).unwrap().map(Result::unwrap).collect();
    rows
}

fn tables(store: &Store) -> Vec<String> {
    names(store, "SELECT name FROM sqlite_master WHERE type='table' ORDER BY name")
}

#[test]
fn a_closed_deal_without_a_closing_time_cannot_exist() {
    let (_disk, mut store) = migrated("closed_at");

    let refused = store.write_durable(deal("closed", Value::Null, text("100")));
    assert!(refused.is_err(), "a closed deal with no closing time must be impossible");

    let accepted =
        store.write_durable(deal("closed", Value::Int(1_700_000_001_000), text("100")));
    assert!(accepted.is_ok(), "with a closing time it is a normal row");
}

#[test]
fn a_closed_deal_must_also_have_a_realised_figure() {
    let (_disk, mut store) = migrated("realized");
    assert!(store.write_durable(deal("closed", Value::Int(1), Value::Null)).is_err());
}

#[test]
fn an_open_deal_may_have_neither() {
    let (_disk, mut store) = migrated("open");
    assert!(store.write_durable(deal("open", Value::Null, Value::Null)).is_ok());
}

#[test]
fn migrating_a_fresh_file_creates_everything_and_records_the_version() {
    let (_disk, store) = migrated("fresh");
    assert_eq!(store.version(), expected_version());

    let found = tables(&store);
    for expected in ["deals", "orders", "fills", "candles", "audit"] {
        assert!(found.contains(&expected.to_string()), "{expected} is missing from {found:?}");
    }
}

#[test]
fn migrating_twice_does_nothing_the_second_time() {
    let (_disk, mut store) = migrated("twice");
    let before = store.version();
    assert_eq!(store.migrate().ok(), Some(before));
    assert_eq!(store.version(), before);
}

#[test]
fn a_file_from_a_newer_build_is_refused_rather_than_guessed_at() {
    let disk = Disk::new("future");
    let mut store = Store::open(&disk);
    store.write_durable(vec![Write::new("PRAGMA user_version = 999", vec![])]).unwrap();

    let err = store.migrate().err().unwrap();
    assert!(matches!(err, MigrationError::FromTheFuture { found: 999, .. }));
    assert!(err.to_string().contains("999"), "the message must name the version found");
}

#[test]
fn the_version_and_the_shape_move_together() {
    let (_disk, store) = migrated("atomic");
    assert_eq!(store.version(), 1);
    assert!(tables(&store).contains(&"deals".to_string()));
}

#[test]
fn a_fresh_database_reports_version_zero() {
    let disk = Disk::new("zero");
    let store = Store::open(&disk);
    assert_eq!(store.version(), 0);
}

#[test]
fn a_fill_cannot_belong_to_an_order_that_was_never_placed() {
    let (_disk, mut store) = migrated("fk");
    let orphan = vec![Write::new(
        sql::INSERT_FILL,
        vec![
            text("t-1"),
            text("no-such-order"),
            text("BTCUSDT"),
            text("buy"),
            text("63000"),
            text("0.1"),
            text("0.01"),
            text("USDT"),
            Value::Int(0),
            Value::Int(1),
        ],
    )];
    assert!(store.write_durable(orphan).is_err(), "foreign keys must be enforced");
}

#[test]
fn a_replayed_execution_is_recorded_once() {
    let (_disk, mut store) = migrated("replay");
    store.write_durable(vec![Write::new(sql::INSERT_ORDER, order_params("c-1"))]).unwrap();

    let fill = || {
        Write::new(
            sql::INSERT_FILL,
            vec![
                text("t-1"),
                text("c-1"),
                text("BTCUSDT"),
                text("buy"),
                text("63000"),
                text("0.1"),
                text("0.01"),
                text("USDT"),
                Value::Int(0),
                Value::Int(1),
            ],
        )
    };
    store.write_durable(vec![fill()]).unwrap();
    store.write_durable(vec![fill()]).unwrap();
    assert_eq!(store.count("fills"), 1, "a replayed execution must not be counted twice");
}

#[test]
fn a_candle_is_rewritten_as_it_closes() {
    let (_disk, mut store) = migrated("candle");
    let candle = |close: &str| {
        Write::new(
            sql::UPSERT_CANDLE,
            vec![
                text("binance"),
                text("linear_perp"),
                text("BTCUSDT"),
                Value::Int(60_000),
                Value::Int(1_700_000_000_000),
                text("63000"),
                text("63100"),
                text("62900"),
                text(close),
                text("12.5"),
                Value::Int(400),
            ],
        )
    };
    store.write_durable(vec![candle("63050")]).unwrap();
    store.write_durable(vec![candle("63075")]).unwrap();

    let last = names(&store, "SELECT close FROM candles");
    assert_eq!((store.count("candles"), last[0].as_str()), (1, "63075"));
}

#[test]
fn a_side_outside_the_two_that_exist_is_refused() {
    let (_disk, mut store) = migrated("side");
    let mut params = order_params("c-2");
    params[7] = text("Buy");
    assert!(store.write_durable(vec![Write::new(sql::INSERT_ORDER, params)]).is_err());
}

#[test]
fn money_columns_hold_text_so_precision_is_not_lost() {
    let (_disk, mut store) = migrated("money");
    store.write_durable(vec![Write::new(sql::INSERT_ORDER, order_params("c-3"))]).unwrap();

    let price = names(&store, "SELECT price FROM orders WHERE client_id='c-3'");
    assert_eq!(price[0], "63096.01000000", "the exact decimal string must survive");

    let kind = names(&store, "SELECT type FROM pragma_table_info('orders') WHERE name='price'");
    assert_eq!(kind[0], "TEXT", "a REAL column here would undo every decision upstream");
}

#[test]
fn the_indexes_the_report_queries_need_are_present() {
    let (_disk, store) = migrated("indexes");
    let found = names(
        &store,
        "SELECT name FROM sqlite_master WHERE type='index' AND name NOT LIKE 'sqlite_%'",
    );
    for expected in ["deals_by_close", "orders_open", "fills_by_time", "audit_by_time"] {
        assert!(found.contains(&expected.to_string()), "{expected} is missing from {found:?}");
    }
}

#[test]
fn migration_errors_say_what_went_wrong() {
    let future = match Migrator::migrate(7) {
        Err(e) => e,
        Ok(_) => panic!("a newer file is refused"),
    };
    assert_eq!(
        future.to_string(),
        "database is at version 7, this build only knows up to 1 — it was written by a newer core"
    );
    let step = Migrator::migrate(0).ok().unwrap().remove(0);
    assert_eq!(step.version, 1);
    assert_eq!(
        step.failed(&StoreError::Closed).to_string(),
        format!("migration 1 ({}) failed: the store has shut down", step.what)
    );
    assert_eq!(MigrationError::Store(StoreError::Io("gone".into())).to_string(), "io: gone");
    assert_eq!(StoreError::Sqlite("locked".into()).to_string(), "sqlite: locked");
}

// --------------------------------------------------------------------- store

fn opened(tag: &str) -> (Disk, Store) {
    let disk = Disk::new(tag);
    let mut store = Store::open(&disk);
    store
        .write_durable(vec![Write::new(
            "CREATE TABLE IF NOT EXISTS t (id INTEGER PRIMARY KEY, v TEXT NOT NULL)",
            vec![],
        )])
        .expect("schema");
    (disk, store)
}

fn insert(v: &str) -> Write {
    Write::new("INSERT INTO t (v) VALUES (?1)", vec![Value::Text(v.into())])
}

#[test]
fn an_unbounded_write_queue_is_impossible() {
    let (_disk, mut store) = opened("bounded");
    assert_eq!(QUEUE_DEPTH, 16_384);

    for i in 0..QUEUE_DEPTH as i64 + 1_000 {
        store.write(vec![insert(&format!("row-{i}"))]);
        assert!(store.queue.len() <= QUEUE_DEPTH);
    }
    store.drain();
    assert_eq!(store.count("t"), QUEUE_DEPTH as i64 + 1_000, "nothing was dropped under pressure");
}

#[test]
fn an_acknowledgement_means_the_data_is_committed() {
    let (disk, mut store) = opened("ack");
    store.write_durable(vec![insert("committed")]).expect("commits");

    // Read through a connection that knows nothing of the writer's in-memory state.
    let reader = attach(&disk.uri);
    let found: i64 = reader.query_row("SELECT COUNT(*) FROM t", [], |r| r.get(0)).unwrap();
    assert_eq!(found, 1, "the row must be visible to an independent connection");
}

#[test]
fn dropping_the_store_finishes_what_was_queued() {
    let (_disk, mut store) = opened("drain");
    for i in 0..1_000 {
        store.write(vec![insert(&format!("r{i}"))]);
    }
    store.drain();
    assert_eq!(store.count("t"), 1_000, "queued writes must not be abandoned on shutdown");
    assert_eq!(store.writer.next(), Action::Wait);
    store.writer.step(Answer::Closed);
    assert_eq!(store.writer.next(), Action::Stop);
}

#[test]
fn what_is_gathered_when_the_queue_closes_is_still_written() {
    let (_disk, mut store) = opened("closing");
    store.writer.step(Answer::Job(1));
    assert_eq!(store.writer.next(), Action::Poll);
    store.writer.step(Answer::Closed);
    assert_eq!(store.writer.next(), Action::Begin);
}

#[test]
fn a_burst_is_committed_as_far_fewer_transactions_than_writes() {
    let (_disk, mut store) = opened("batch");
    for i in 0..5_000 {
        store.write(vec![insert(&format!("r{i}"))]);
    }
    store.drain();

    let stats = store.writer.stats();
    // 5 001: the schema statement from `opened` committed first, in its own transaction.
    assert_eq!(stats.committed, 5_001);
    assert!(stats.batches < 100, "5 000 writes in {} transactions is not batching", stats.batches);
    assert_eq!(stats.batches, 1 + 5_000u64.div_ceil(MAX_BATCH as u64));
}

#[test]
fn a_lone_write_is_not_held_back_waiting_for_company() {
    // What is there is gathered; nothing is waited for.
    let mut writer = Writer::new(Instant { nanos: 0 });
    assert_eq!(writer.next(), Action::Wait);
    writer.step(Answer::Job(1));
    assert_eq!(writer.next(), Action::Poll);
    writer.step(Answer::Empty);
    assert_eq!(writer.next(), Action::Begin);
}

#[test]
fn a_failing_statement_rolls_back_the_whole_batch() {
    let (_disk, mut store) = opened("rollback");
    store.write_durable(vec![insert("first")]).unwrap();

    let bad = store.write_durable(vec![
        insert("good"),
        Write::new("INSERT INTO nonexistent (v) VALUES (?1)", vec![Value::Int(1)]),
    ]);
    assert!(bad.is_err(), "the batch must fail");
    assert_eq!(store.count("t"), 1, "the good statement must not have committed alone");
}

#[test]
fn a_failure_is_reported_to_the_caller_not_swallowed() {
    let (_disk, mut store) = opened("report");
    let err = store.write_durable(vec![Write::new("THIS IS NOT SQL", vec![])]).err().unwrap();
    assert!(matches!(err, StoreError::Sqlite(_)));
}

#[test]
fn writing_to_a_closed_store_is_an_error_rather_than_a_hang() {
    assert_eq!(WriteAck(None).wait(), Err(StoreError::Closed));
    assert_eq!(WriteAck(Some(Ok(()))).wait(), Ok(()));
}

#[test]
fn every_job_of_a_failed_batch_is_told() {
    let (_disk, mut store) = opened("told");
    store.answers.clear();
    store.write(vec![insert("a")]);
    store.write(vec![Write::new("THIS IS NOT SQL", vec![])]);
    store.write(vec![insert("b")]);
    store.drain();
    assert_eq!(store.answers.len(), 3);
    assert!(store.answers.iter().all(|a| a.is_some()));
    assert_eq!(store.writer.stats().batches, 1, "only the schema went through");
}

#[test]
fn checkpointing_needs_both_conditions_not_either() {
    assert_eq!(CHECKPOINT_INTERVAL, 60_000);
    assert_eq!(CHECKPOINT_WAL_BYTES, 32 * 1024 * 1024);

    assert!(!should_checkpoint(Duration::zero(), u64::MAX), "too soon, whatever the size");
    assert!(!should_checkpoint(Duration::from_secs(61), CHECKPOINT_WAL_BYTES), "too little");
    assert!(should_checkpoint(Duration::from_secs(60), CHECKPOINT_WAL_BYTES + 1));
}

#[test]
fn a_grown_log_is_folded_back_once_a_minute() {
    let (_disk, mut store) = opened("fold");
    store.wal_bytes = CHECKPOINT_WAL_BYTES + 1;
    store.clock = 59_000_000_000;
    store.write_durable(vec![insert("early")]).unwrap();
    assert_eq!(store.writer.stats().checkpoints, 0);
    store.clock = 60_000_000_000;
    store.write_durable(vec![insert("due")]).unwrap();
    assert_eq!(store.writer.stats().checkpoints, 1);
    store.wal_bytes = CHECKPOINT_WAL_BYTES + 1;
    store.write_durable(vec![insert("again")]).unwrap();
    assert_eq!(store.writer.stats().checkpoints, 1);
}

#[test]
fn blocked_producers_are_counted() {
    let (_disk, mut store) = opened("blocked");
    for i in 0..QUEUE_DEPTH as i64 + 2_000 {
        store.write(vec![insert(&format!("r{i}"))]);
    }
    assert_eq!(store.producers.blocked, 1);
    assert_eq!(store.producers.offered(Offered::Disconnected), Queueing::Refused);
}

#[test]
fn money_goes_in_as_text_and_comes_back_exact() {
    let (_disk, mut store) = opened("cash");
    store
        .write_durable(vec![Write::new(
            "INSERT INTO t (v) VALUES (?1)",
            vec![Value::Text("63096.01000000".into())],
        )])
        .unwrap();
    let back = names(&store, "SELECT v FROM t");
    assert_eq!(back[0], "63096.01000000", "the exact decimal string must survive");
}

#[test]
fn every_value_kind_round_trips() {
    let (_disk, mut store) = opened("values");
    store
        .write_durable(vec![Write::new(
            "CREATE TABLE v (i INTEGER, r REAL, t TEXT, b BLOB, n TEXT)",
            vec![],
        )])
        .unwrap();
    store
        .write_durable(vec![Write::new(
            "INSERT INTO v VALUES (?1, ?2, ?3, ?4, ?5)",
            vec![
                Value::Int(-42),
                Value::Real(1.5f64.to_bits()),
                Value::Text("text".into()),
                Value::Blob(vec![1, 2, 3]),
                Value::Null,
            ],
        )])
        .unwrap();

    let (i, r, t, b, n): (i64, f64, String, Vec<u8>, Option<String>) = store
        .connection
        .query_row("SELECT i, r, t, b, n FROM v", [], |row| {
            Ok((row.get(0)?, row.get(1)?, row.get(2)?, row.get(3)?, row.get(4)?))
        })
        .unwrap();
    assert_eq!((i, r, t, b, n), (-42, 1.5, "text".to_string(), vec![1, 2, 3], None));
}

// --------------------------------------------------------------- maintenance

fn quick_check(store: &Store) -> Health {
    check(Ok(names(store, "PRAGMA quick_check").into_iter().map(Ok).collect()))
}

#[test]
fn a_healthy_database_checks_out() {
    let (_disk, mut store) = migrated("healthy");
    for id in 0..100 {
        store.write_durable(vec![closed_deal(id, NOW, "10")]).unwrap();
    }
    assert!(quick_check(&store).is_ok());
}

#[test]
fn what_the_check_reports_is_kept() {
    assert_eq!(
        check(Ok(vec![Ok("ok".into()), Ok("Page 7: never used".into()), Ok("ok".into())])),
        Health::Corrupt(vec!["Page 7: never used".into()])
    );
    assert_eq!(
        check(Ok(vec![Ok("Page 7: never used".into()), Err("malformed".into())])),
        Health::Unreadable("malformed".into())
    );
    assert_eq!(
        check(Err("file is not a database".into())),
        Health::Unreadable("file is not a database".into())
    );
    assert!(check(Ok(vec![])).is_ok());
    assert!(!Health::Corrupt(vec![]).is_ok());
}

#[test]
fn the_write_ahead_log_is_moved_with_the_file_it_belongs_to() {
    let (moves, recovered) = recover("data/moon.sqlite", "data/corrupt/9/moon.sqlite");
    assert_eq!(
        recovered,
        Recovered { quarantined: "data/corrupt/9/moon.sqlite".into(), rows_recovered: 0 }
    );
    assert!(moves.contains(&Move {
        from: "data/moon.sqlite-wal".into(),
        to: "data/corrupt/9/moon.sqlite-wal".into(),
    }));
    assert_eq!(moves[0].from, "data/moon.sqlite");
    assert_eq!(moves[2].to, "data/corrupt/9/moon.sqlite-shm");
    assert_eq!(
        files_of("moon.sqlite"),
        vec!["moon.sqlite", "moon.sqlite-wal", "moon.sqlite-shm"]
    );
}

#[test]
fn two_recoveries_do_not_overwrite_each_other() {
    assert_ne!(
        quarantine_place("data", NOW, "moon.sqlite"),
        quarantine_place("data", NOW + 1, "moon.sqlite")
    );
    assert_eq!(quarantine_folder("data", NOW), "data/corrupt/1700000000000");
    assert_eq!(
        quarantine_place("data", NOW, "moon.sqlite"),
        "data/corrupt/1700000000000/moon.sqlite"
    );
    assert_eq!(quarantine_place("", 9, "moon.sqlite"), "corrupt/9/moon.sqlite");
    assert_eq!(quarantine_place("/", 9, "moon.sqlite"), "/corrupt/9/moon.sqlite");
    assert_eq!(QUARANTINE, "corrupt");
}

#[test]
fn a_vacuum_reclaims_the_difference_and_never_less_than_nothing() {
    assert_eq!(total_size(10, 20, 30), 60);
    assert_eq!(vacuum(60, 45), 15);
    assert_eq!(vacuum(45, 60), 0);
}
