//! From the connector to the read-model.
//!
//! What a connector publishes is all that the read-model ever sees of it. This is where the two
//! are held against each other: the read-model has the books that the connector has.

use crate::binance::connector;
use crate::binance::connector::{ActionView, ConnectorView, Input, SnapshotResult};
use crate::binance::frames;
use crate::binance::frames::Decoded;
use crate::domain::event::{EventView, PayloadView};
use crate::domain::market::{BookDeltaView, OrderBook, OrderBookView};
use crate::domain::time::Timestamp;
use crate::marketdata::books;
use crate::service::state::MarketStateView;
use vstd::prelude::*;

verus! {

/// The read-model after everything in a list of actions that is published.
pub open spec fn fed(state: MarketStateView, actions: Seq<ActionView>) -> MarketStateView
    decreases actions.len(),
{
    if actions.len() == 0 {
        state
    } else {
        let earlier = fed(state, actions.drop_last());
        match actions.last() {
            ActionView::Publish(event) => earlier.after(event),
            _ => earlier,
        }
    }
}

/// Whether every book is kept under the key of its own instrument.
pub open spec fn filed(connector: ConnectorView) -> bool {
    forall|key: Seq<char>| #[trigger]
        connector.books.entries.contains_key(key) ==> {
            connector.books.entries[key].book matches Some(book) ==> (book.symbol matches Some(symbol)
                && symbol.key() == key)
        }
}

/// Whether the read-model has every book that the connector serves, as the connector has it.
pub open spec fn in_step(connector: ConnectorView, state: MarketStateView) -> bool {
    forall|key: Seq<char>|
        (#[trigger] connector.books.served(key)) matches Some(book) ==> state.books.contains_key(key)
            && state.books[key] == book
}

/// Whether an action leaves the books of the read-model alone.
pub open spec fn spares_books(action: ActionView) -> bool {
    match action {
        ActionView::Publish(event) => !(event.payload is BookSnapshot)
            && !(event.payload is BookDelta),
        _ => true,
    }
}

proof fn lemma_spared(state: MarketStateView, actions: Seq<ActionView>)
    requires
        forall|i: int| 0 <= i < actions.len() ==> spares_books(#[trigger] actions[i]),
    ensures
        fed(state, actions).books == state.books,
    decreases actions.len(),
{
    if actions.len() > 0 {
        let rest = actions.drop_last();
        assert forall|i: int| 0 <= i < rest.len() implies spares_books(#[trigger] rest[i]) by {
            assert(rest[i] == actions[i]);
        }
        lemma_spared(state, rest);
        assert(spares_books(actions[actions.len() - 1]));
    }
}

/// Of a list that begins with one event and spares the books after it, only that event counts.
proof fn lemma_first_counts(state: MarketStateView, actions: Seq<ActionView>, event: EventView)
    requires
        actions.len() > 0,
        actions[0] == ActionView::Publish(event),
        forall|i: int| 1 <= i < actions.len() ==> spares_books(#[trigger] actions[i]),
    ensures
        fed(state, actions).books == state.after(event).books,
    decreases actions.len(),
{
    if actions.len() == 1 {
        assert(actions.last() == actions[0]);
        assert(fed(state, actions.drop_last()) == state);
    } else {
        let rest = actions.drop_last();
        assert(rest[0] == actions[0]);
        assert forall|i: int| 1 <= i < rest.len() implies spares_books(#[trigger] rest[i]) by {
            assert(rest[i] == actions[i]);
        }
        lemma_first_counts(state, rest, event);
        assert(spares_books(actions[actions.len() - 1]));
    }
}

/// Replaying updates onto a snapshot does not change whose book it is.
proof fn lemma_replayed_symbol(snapshot: OrderBookView, held: Seq<BookDeltaView>)
    ensures
        books::replayed(snapshot, held) matches Some(book) ==> book.symbol == snapshot.symbol,
    decreases held.len(),
{
    if held.len() > 0 {
        lemma_replayed_symbol(snapshot, held.drop_last());
    }
}

proof fn lemma_delta(
    old: ConnectorView,
    delta: BookDeltaView,
    now: Timestamp,
    state: MarketStateView,
)
    requires
        filed(old),
        in_step(old, state),
    ensures
        filed(old.after_delta(delta, now)),
        in_step(old.after_delta(delta, now), fed(state, old.on_delta(delta, now))),
{
    let new = old.after_delta(delta, now);
    let actions = old.on_delta(delta, now);
    let key = delta.symbol.key();
    let entry = old.books.entry(delta.symbol);
    let outcome = entry.outcome(delta, now, old.books.cooldown_ms);
    let after = entry.after_delta(delta, now, old.books.cooldown_ms);
    if old.books.entries.contains_key(key) {
        assert(entry == old.books.entries[key]);
    }
    assert forall|k: Seq<char>| #[trigger] new.books.entries.contains_key(k) implies {
        new.books.entries[k].book matches Some(book) ==> (book.symbol matches Some(symbol)
            && symbol.key() == k)
    } by {
        if k != key {
            assert(old.books.entries.contains_key(k));
        }
    }
    let later = fed(state, actions);
    if outcome.attached {
        let event = EventView { at: now, payload: PayloadView::BookSnapshot(after.book->0) };
        lemma_first_counts(state, actions, event);
        assert(later.books == state.books.insert(key, after.book->0));
    } else if outcome.forward {
        let event = EventView { at: now, payload: PayloadView::BookDelta(delta) };
        lemma_first_counts(state, actions, event);
        assert(old.books.served(key) == entry.book);
        assert(later.books == state.books.insert(key, after.book->0));
    } else {
        lemma_spared(state, actions);
    }
    assert forall|k: Seq<char>| (#[trigger] new.books.served(k)) is Some implies
        later.books.contains_key(k) && later.books[k] == new.books.served(k)->0 by {
        if k != key {
            assert(new.books.served(k) == old.books.served(k));
        } else if !outcome.attached && !outcome.forward {
            assert(old.books.served(k) == new.books.served(k));
        }
    }
}

proof fn lemma_snapshot(
    old: ConnectorView,
    snapshot: OrderBook,
    now: Timestamp,
    new: ConnectorView,
    actions: Seq<ActionView>,
    state: MarketStateView,
)
    requires
        connector::installed(old, snapshot, now, new, actions),
        filed(old),
        in_step(old, state),
    ensures
        filed(new),
        in_step(new, fed(state, actions)),
{
    let key = snapshot.symbol->0@.key();
    let known = snapshot.symbol is Some && old.books.entries.contains_key(key);
    let held = old.books.entries[key].buffered;
    let book = books::replayed(snapshot@, held);
    let later = fed(state, actions);
    lemma_replayed_symbol(snapshot@, held);
    if known {
        assert forall|k: Seq<char>| #[trigger] new.books.entries.contains_key(k) implies {
            new.books.entries[k].book matches Some(b) ==> (b.symbol matches Some(symbol)
                && symbol.key() == k)
        } by {
            assert(old.books.entries.contains_key(k));
        }
        if book is Some && book->0.synced {
            let event = EventView { at: now, payload: PayloadView::BookSnapshot(book->0) };
            lemma_first_counts(state, actions, event);
        } else {
            lemma_spared(state, actions);
        }
        assert forall|k: Seq<char>| (#[trigger] new.books.served(k)) is Some implies
            later.books.contains_key(k) && later.books[k] == new.books.served(k)->0 by {
            if k != key {
                assert(new.books.served(k) == old.books.served(k));
            }
        }
    } else {
        lemma_spared(state, actions);
    }
}

/// Where no book changes hands and none is published, nothing comes out of step.
proof fn lemma_untouched(
    old: ConnectorView,
    new: ConnectorView,
    actions: Seq<ActionView>,
    state: MarketStateView,
)
    requires
        in_step(old, state),
        forall|k: Seq<char>| #[trigger] new.books.served(k) == old.books.served(k),
        forall|i: int| 0 <= i < actions.len() ==> spares_books(#[trigger] actions[i]),
    ensures
        in_step(new, fed(state, actions)),
{
    lemma_spared(state, actions);
    assert forall|k: Seq<char>| (#[trigger] new.books.served(k)) is Some implies fed(
        state,
        actions,
    ).books.contains_key(k) && fed(state, actions).books[k] == new.books.served(k)->0 by {
        assert(new.books.served(k) == old.books.served(k));
    }
}

/// The read-model never has another book than the connector serves.
///
/// Whatever happens to the connector, once what it publishes has been folded in, every book that
/// it serves is in the read-model, level for level. So no update reaches a consumer that would
/// tear its copy, and a book that joins the stream late is announced whole.
pub proof fn the_read_model_has_the_connectors_books(
    old: ConnectorView,
    input: Input,
    now: Timestamp,
    new: ConnectorView,
    order: Seq<Seq<char>>,
    actions: Seq<ActionView>,
    state: MarketStateView,
)
    requires
        connector::steps(old, input, now, new, order, actions),
        filed(old),
        in_step(old, state),
    ensures
        filed(new),
        in_step(new, fed(state, actions)),
{
    match input {
        Input::Text(frame) => {
            let d = choose|d: Option<Decoded>|
                frames::decoded_view(d) == frames::decoded(
                    frame@,
                    old.market,
                ) && #[trigger] connector::handled(old, d, now, new, actions);
            match d {
                Some(Decoded::Delta(delta)) => {
                    lemma_delta(old, delta@, now, state);
                },
                _ => {
                    lemma_spared(state, actions);
                },
            }
        },
        Input::Snapshot(SnapshotResult::Fetched(snapshot)) => {
            lemma_snapshot(old, snapshot, now, new, actions, state);
        },
        Input::Snapshot(SnapshotResult::Failed(symbol)) => {
            assert forall|k: Seq<char>| #[trigger] new.books.entries.contains_key(k) implies {
                new.books.entries[k].book matches Some(book) ==> (book.symbol matches Some(symbol)
                    && symbol.key() == k)
            } by {
                assert(old.books.entries.contains_key(k));
            }
            lemma_untouched(old, new, actions, state);
        },
        _ => {
            lemma_untouched(old, new, actions, state);
        },
    }
}

} // verus!
