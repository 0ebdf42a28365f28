# moon_own

A trading core and the terminal that watches it, with the rules of both stated and proved in
Verus.

The core connects to a venue, keeps order books and candles, holds a read-model for terminals that
join late, serves them over a WebSocket and records what must survive a restart. The terminal
draws what the core says and holds no keys.

## Layout

| Path | What it holds |
|---|---|
| `src/domain` | Symbols, instruments, orders, books, positions, events |
| `src/exchange` | Capabilities, errors, rate limits and the contract of a venue |
| `src/marketdata` | Book maintenance and candles |
| `src/binance` | Endpoints, frames, streams and the decisions of the connector |
| `src/service` | Configuration, sessions, the read-model, metrics, certificates |
| `src/storage` | The writer, schema, orders, reports, retention, maintenance |
| `src/terminal` | The feed, the book, the chart and the panels |
| `app` | Sockets, files, the database and drawing |

Nothing in `src` waits, reads or writes. Where the outside world takes part, a state machine says
what to do next and is told what came of it: `Connector` for the venue's socket, `Terminal` for a
session, `Writer` for the database, `Sweep` for retention. `app` turns their wheels.

## What is proved

Every function states what it returns. Beyond that, laws that span several of them stand as public
proof functions beside what they speak of, among them:

- a torn book is never served, and a read-model fed by the connector has every book that the
  connector serves;
- a terminal that has not shown the token is sent no event, however long it talks;
- a job is told that its write is durable only once its transaction has committed, and one failed
  statement takes the whole batch with it;
- rounding onto a venue's grid never exceeds what was asked for, and a value off the grid is refused
  where it would have to be scaled;
- however many requests are asked for within a minute, what is sent stays within the budget, and
  after a rejection nothing is sent until the window has turned over.

Money is `rust_decimal::Decimal`. What is taken from it and from the other crates without proof is
written above each function that calls out.
