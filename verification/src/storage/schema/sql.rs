//! The statements, next to the column lists they are made of.

use vstd::prelude::*;

verus! {

/// The first schema.
///
/// The rules whose violation is silent and expensive are in the database and not in the code,
/// which holds only until someone writes a row from a shell: a closed deal has a closing time and
/// a realised figure, a fill belongs to an order, and money is text.
pub const INITIAL_SCHEMA: &'static str = "CREATE TABLE deals (
    deal_id       INTEGER PRIMARY KEY,
    core_uid      INTEGER NOT NULL,
    exchange      TEXT    NOT NULL,
    market        TEXT    NOT NULL,
    symbol        TEXT    NOT NULL,
    side          TEXT    NOT NULL CHECK (side IN ('buy','sell')),
    phase         TEXT    NOT NULL,
    qty           TEXT    NOT NULL,
    entry_price   TEXT,
    exit_price    TEXT,
    realized      TEXT,
    fee           TEXT    NOT NULL DEFAULT '0',
    close_reason  TEXT,
    opened_at     INTEGER NOT NULL,
    closed_at     INTEGER,
    CHECK (phase <> 'closed' OR closed_at IS NOT NULL),
    CHECK (phase <> 'closed' OR realized IS NOT NULL)
);
CREATE TABLE orders (
    client_id     TEXT    PRIMARY KEY,
    deal_id       INTEGER REFERENCES deals(deal_id),
    venue_id      TEXT,
    core_uid      INTEGER NOT NULL,
    exchange      TEXT    NOT NULL,
    market        TEXT    NOT NULL,
    symbol        TEXT    NOT NULL,
    side          TEXT    NOT NULL CHECK (side IN ('buy','sell')),
    order_type    TEXT    NOT NULL,
    status        TEXT    NOT NULL,
    qty           TEXT    NOT NULL,
    filled_qty    TEXT    NOT NULL DEFAULT '0',
    price         TEXT,
    trigger_price TEXT,
    avg_price     TEXT    NOT NULL DEFAULT '0',
    reduce_only   INTEGER NOT NULL DEFAULT 0,
    created_at    INTEGER NOT NULL,
    updated_at    INTEGER NOT NULL,
    rev           INTEGER NOT NULL DEFAULT 0
);
CREATE TABLE fills (
    trade_id      TEXT    NOT NULL,
    client_id     TEXT    NOT NULL REFERENCES orders(client_id),
    symbol        TEXT    NOT NULL,
    side          TEXT    NOT NULL CHECK (side IN ('buy','sell')),
    price         TEXT    NOT NULL,
    qty           TEXT    NOT NULL,
    fee           TEXT    NOT NULL,
    fee_asset     TEXT    NOT NULL,
    is_maker      INTEGER NOT NULL,
    ts            INTEGER NOT NULL,
    PRIMARY KEY (client_id, trade_id)
);

CREATE TABLE candles (
    exchange      TEXT    NOT NULL,
    market        TEXT    NOT NULL,
    symbol        TEXT    NOT NULL,
    tf_ms         INTEGER NOT NULL,
    open_time     INTEGER NOT NULL,
    open          TEXT    NOT NULL,
    high          TEXT    NOT NULL,
    low           TEXT    NOT NULL,
    close         TEXT    NOT NULL,
    volume        TEXT    NOT NULL,
    trades        INTEGER NOT NULL DEFAULT 0,
    PRIMARY KEY (exchange, market, symbol, tf_ms, open_time)
);
CREATE TABLE audit (
    rec_id        INTEGER PRIMARY KEY AUTOINCREMENT,
    at_ms         INTEGER NOT NULL,
    session_id    INTEGER NOT NULL,
    device_id     TEXT    NOT NULL,
    peer          TEXT    NOT NULL,
    role          TEXT    NOT NULL,
    req           INTEGER NOT NULL,
    command       TEXT    NOT NULL,
    body          BLOB    NOT NULL,
    outcome       TEXT    NOT NULL,
    detail        TEXT
);
CREATE INDEX deals_by_close  ON deals (core_uid, closed_at);
CREATE INDEX deals_by_symbol ON deals (symbol, closed_at);
CREATE INDEX orders_by_deal  ON orders (deal_id);
CREATE INDEX orders_open     ON orders (status, updated_at);
CREATE INDEX fills_by_time   ON fills (ts);
CREATE INDEX audit_by_time   ON audit (at_ms);";

pub const INSERT_DEAL: &'static str = "INSERT INTO deals (deal_id, core_uid, exchange, market, symbol, side, phase, qty, \
     entry_price, exit_price, realized, fee, close_reason, opened_at, closed_at) VALUES \
     (?1,?2,?3,?4,?5,?6,?7,?8,?9,?10,?11,?12,?13,?14,?15)";

pub const INSERT_ORDER: &'static str = "INSERT INTO orders (client_id, deal_id, venue_id, core_uid, exchange, market, \
     symbol, side, order_type, status, qty, filled_qty, price, trigger_price, avg_price, \
     reduce_only, created_at, updated_at, rev) VALUES \
     (?1,?2,?3,?4,?5,?6,?7,?8,?9,?10,?11,?12,?13,?14,?15,?16,?17,?18,?19)";

/// Idempotent by primary key: a venue that replays executions after a reconnect must not have them
/// counted twice.
pub const INSERT_FILL: &'static str = "INSERT OR IGNORE INTO fills (trade_id, client_id, symbol, side, price, qty, fee, \
     fee_asset, is_maker, ts) VALUES (?1,?2,?3,?4,?5,?6,?7,?8,?9,?10)";

/// A candle is rewritten as it closes, so the last write wins.
pub const UPSERT_CANDLE: &'static str = "INSERT INTO candles (exchange, market, symbol, tf_ms, open_time, open, high, low, \
     close, volume, trades) VALUES (?1,?2,?3,?4,?5,?6,?7,?8,?9,?10,?11) ON CONFLICT \
     (exchange, market, symbol, tf_ms, open_time) DO UPDATE SET high=excluded.high, \
     low=excluded.low, close=excluded.close, volume=excluded.volume, \
     trades=excluded.trades";

pub const INSERT_AUDIT: &'static str = "INSERT INTO audit (at_ms, session_id, device_id, peer, role, req, command, body, \
     outcome, detail) VALUES (?1,?2,?3,?4,?5,?6,?7,?8,?9,?10)";

/// Moves an order on. The revision is bumped in the same statement as the status, so a reader can
/// never see a status from one update and a revision from another.
pub const UPDATE_ORDER: &'static str = "UPDATE orders SET status = ?2, venue_id = ?3, filled_qty = ?4, \
     avg_price = ?5, updated_at = ?6, rev = rev + 1 WHERE client_id = ?1";

/// Closes out an order that the venue never received, and only while it is still pending.
pub const CLOSE_OUT_ORDER: &'static str = "UPDATE orders SET status = 'rejected', updated_at = ?2, \
     rev = rev + 1 WHERE client_id = ?1 AND status = 'pending'";

/// Deletes one batch of candles of a timeframe.
pub const DELETE_CANDLES: &'static str = "DELETE FROM candles WHERE rowid IN \
     (SELECT rowid FROM candles WHERE tf_ms = ?1 AND open_time < ?2 LIMIT ?3)";

/// Deletes one batch of the audit trail.
pub const DELETE_AUDIT: &'static str = "DELETE FROM audit WHERE rec_id IN \
     (SELECT rec_id FROM audit WHERE at_ms < ?1 LIMIT ?2)";

} // verus!
