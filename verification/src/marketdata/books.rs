//! Keeping a set of order books correct across snapshots, gaps and reconnects.
//!
//! A snapshot and a delta stream are taken at different moments and neither side tells by how
//! much. So deltas are buffered while a snapshot is in flight and replayed onto it once it
//! arrives. [`OrderBook::apply`] then discards the overlap and joins on the delta that spans the
//! snapshot.

use crate::domain::ids::{Symbol, SymbolView};
use crate::domain::market::{ApplyOutcome, BookDelta, BookDeltaView, OrderBook, OrderBookView};
use crate::domain::time::Timestamp;
use crate::table;
use crate::table::Table;
use vstd::prelude::*;

verus! {

/// How long to wait before asking for another snapshot for the same symbol.
///
/// Without this a gap storm turns into a flood of requests and earns a rate-limit ban.
pub const DEFAULT_RESYNC_COOLDOWN_MS: i64 = 1_000;

/// Deltas held while a snapshot is in flight. Beyond this the snapshot is hopeless and the
/// backlog is started over rather than replaying minutes of stale updates.
pub const MAX_BUFFERED: usize = 4_096;

/// How long a snapshot request may be outstanding before another is allowed.
///
/// A fetch that never reports back would otherwise leave the request outstanding forever and
/// the book would never be rebuilt.
pub const REQUEST_DEADLINE_MS: i64 = 10_000;

/// What the caller must do after feeding an update in.
#[derive(Debug, PartialEq, Eq)]
pub enum Need {
    /// Nothing; the book absorbed it.
    Nothing,
    /// Fetch a snapshot and hand it to [`BookSet::install_snapshot`].
    Snapshot(Symbol),
}

/// The result of feeding one delta in.
#[derive(Debug, PartialEq, Eq)]
pub struct Outcome {
    pub need: Need,
    /// Whether to pass this delta on to consumers.
    ///
    /// Only updates that chained onto a live book qualify. A consumer applying any other to its
    /// own copy would end up with a book that disagrees with this one.
    pub forward: bool,
    /// The book just became usable and consumers must be sent it in full.
    pub attached: bool,
}

/// What an [`Outcome`] says; `wanted` is the instrument a snapshot is asked for.
pub struct OutcomeView {
    pub wanted: Option<SymbolView>,
    pub forward: bool,
    pub attached: bool,
}

impl View for Outcome {
    type V = OutcomeView;

    open spec fn view(&self) -> OutcomeView {
        OutcomeView {
            wanted: match self.need {
                Need::Nothing => None,
                Need::Snapshot(s) => Some(s@),
            },
            forward: self.forward,
            attached: self.attached,
        }
    }
}

struct Entry {
    symbol: Symbol,
    book: Option<OrderBook>,
    buffered: Vec<BookDelta>,
    awaiting: bool,
    /// When a snapshot was last asked for, for cooldown.
    requested_at: Option<Timestamp>,
    /// When the book last actually moved, for staleness detection.
    updated_at: Timestamp,
}

/// What is held for one instrument.
#[verifier::ext_equal]
pub struct EntryView {
    pub symbol: SymbolView,
    pub book: Option<OrderBookView>,
    pub buffered: Seq<BookDeltaView>,
    pub awaiting: bool,
    pub requested_at: Option<Timestamp>,
    pub updated_at: Timestamp,
}

/// What a list of deltas says.
pub open spec fn delta_views(deltas: Seq<BookDelta>) -> Seq<BookDeltaView> {
    deltas.map_values(|d: BookDelta| d@)
}

impl View for Entry {
    type V = EntryView;

    closed spec fn view(&self) -> EntryView {
        EntryView {
            symbol: self.symbol@,
            book: match self.book {
                Some(b) => Some(b@),
                None => None,
            },
            buffered: delta_views(self.buffered@),
            awaiting: self.awaiting,
            requested_at: self.requested_at,
            updated_at: self.updated_at,
        }
    }
}

/// Whether the time between two stamps fits into 64 bits.
pub open spec fn age_fits(at: Timestamp, now: Timestamp) -> bool {
    i64::MIN <= now.0 - at.0 <= i64::MAX
}

impl EntryView {
    /// An instrument nothing is known of yet.
    pub open spec fn fresh(symbol: SymbolView) -> EntryView {
        EntryView {
            symbol,
            book: None,
            buffered: Seq::empty(),
            awaiting: false,
            requested_at: None,
            updated_at: Timestamp(0),
        }
    }

    /// With an update held for replay. A backlog that no snapshot can catch up with is dropped,
    /// and the request that was to end it with it.
    pub open spec fn holding(self, delta: BookDeltaView) -> EntryView {
        if self.buffered.len() >= MAX_BUFFERED {
            EntryView { buffered: seq![delta], awaiting: false, requested_at: None, ..self }
        } else {
            EntryView { buffered: self.buffered.push(delta), ..self }
        }
    }

    /// Whether a snapshot may be asked for: never before, not within the deadline of a request
    /// that is outstanding, and not within the cooldown of one that is not.
    pub open spec fn may_ask(self, now: Timestamp, cooldown_ms: i64) -> bool {
        match self.requested_at {
            None => true,
            Some(at) => now.0 - at.0 >= if self.awaiting {
                REQUEST_DEADLINE_MS
            } else {
                cooldown_ms
            },
        }
    }

    /// After a snapshot was asked for, if it was.
    pub open spec fn asking(self, now: Timestamp, cooldown_ms: i64) -> EntryView {
        if self.may_ask(now, cooldown_ms) {
            EntryView { awaiting: true, requested_at: Some(now), ..self }
        } else {
            self
        }
    }

    /// Whether an update finds a live book that it follows, or one that has seen it already.
    pub open spec fn absorbs(self, delta: BookDeltaView) -> bool {
        self.book matches Some(b) && !(b.outcome(delta) is Gap)
    }

    /// After an update came in.
    pub open spec fn after_delta(
        self,
        delta: BookDeltaView,
        now: Timestamp,
        cooldown_ms: i64,
    ) -> EntryView {
        if self.absorbs(delta) {
            let book = self.book->0;
            if book.outcome(delta) is Applied {
                EntryView { book: Some(book.after(delta)), updated_at: now, ..self }
            } else {
                self
            }
        } else {
            EntryView { book: None, ..self }.holding(delta).asking(now, cooldown_ms)
        }
    }

    /// What an update calls for.
    ///
    /// It is passed on when it chained onto a book that had already joined the stream. When it
    /// is the one that joins, the whole book goes out instead.
    pub open spec fn outcome(
        self,
        delta: BookDeltaView,
        now: Timestamp,
        cooldown_ms: i64,
    ) -> OutcomeView {
        if self.absorbs(delta) {
            let book = self.book->0;
            let applied = book.outcome(delta) is Applied;
            OutcomeView {
                wanted: None,
                forward: applied && book.synced,
                attached: applied && !book.synced,
            }
        } else {
            OutcomeView {
                wanted: if (EntryView { book: None, ..self }).holding(delta).may_ask(
                    now,
                    cooldown_ms,
                ) {
                    Some(self.symbol)
                } else {
                    None
                },
                forward: false,
                attached: false,
            }
        }
    }

    /// After a snapshot came in.
    pub open spec fn after_snapshot(self, snapshot: OrderBookView, now: Timestamp) -> EntryView {
        let e = EntryView { awaiting: false, buffered: Seq::empty(), ..self };
        match replayed(snapshot, self.buffered) {
            Some(book) => EntryView { book: Some(book), updated_at: now, ..e },
            None => EntryView { book: None, ..e },
        }
    }
}

/// A snapshot with the held updates replayed onto it; nothing where the stream had already run
/// past it.
pub open spec fn replayed(snapshot: OrderBookView, held: Seq<BookDeltaView>) -> Option<
    OrderBookView,
>
    decreases held.len(),
{
    if held.len() == 0 {
        Some(snapshot)
    } else {
        match replayed(snapshot, held.drop_last()) {
            None => None,
            Some(book) => if book.outcome(held.last()) is Gap {
                None
            } else {
                Some(book.after(held.last()))
            },
        }
    }
}

/// A snapshot that one of the first held updates does not follow is not saved by later ones.
proof fn lemma_replay_fails(snapshot: OrderBookView, held: Seq<BookDeltaView>, n: int)
    requires
        0 <= n <= held.len(),
        replayed(snapshot, held.take(n)) is None,
    ensures
        replayed(snapshot, held) is None,
    decreases held.len() - n,
{
    if n < held.len() {
        assert(held.take(n + 1).drop_last() =~= held.take(n));
        lemma_replay_fails(snapshot, held, n + 1);
    } else {
        assert(held.take(n) =~= held);
    }
}

/// Whether books are what held updates make of a snapshot, one after the other.
pub open spec fn unfolds(
    snapshot: OrderBookView,
    held: Seq<BookDeltaView>,
    books: Seq<OrderBookView>,
) -> bool {
    &&& books.len() == held.len() + 1
    &&& books[0] == snapshot
    &&& forall|i: int|
        0 <= i < held.len() ==> #[trigger] books[i + 1] == books[i].after(held[i])
}

/// Whether there is a hole between a book and an update: the update is newer, and it starts after
/// the book ends or, where the book has joined its stream, anywhere but where the book ends.
pub open spec fn hole(book: OrderBookView, delta: BookDeltaView) -> bool {
    &&& 0 < book.last_update_id < delta.last_update_id
    &&& if book.synced {
        delta.prev_update_id != book.last_update_id
    } else {
        delta.prev_update_id > book.last_update_id
    }
}

proof fn lemma_unfolds(
    snapshot: OrderBookView,
    held: Seq<BookDeltaView>,
    books: Seq<OrderBookView>,
    n: int,
)
    requires
        unfolds(snapshot, held, books),
        0 <= n <= held.len(),
    ensures
        match replayed(snapshot, held.take(n)) {
            Some(book) => {
                &&& book == books[n]
                &&& forall|i: int| 0 <= i < n ==> !hole(#[trigger] books[i], held[i])
            },
            None => exists|i: int| 0 <= i < n && hole(#[trigger] books[i], held[i]),
        },
    decreases n,
{
    if n > 0 {
        lemma_unfolds(snapshot, held, books, n - 1);
        assert(held.take(n).drop_last() =~= held.take(n - 1));
        assert(held.take(n).last() == held[n - 1]);
        assert(books[n - 1 + 1] == books[n - 1].after(held[n - 1]));
        let (book, delta) = (books[n - 1], held[n - 1]);
        assert(book.outcome(delta) is Gap == hole(book, delta));
        if replayed(snapshot, held.take(n - 1)) is None {
            let i = choose|i: int| 0 <= i < n - 1 && hole(#[trigger] books[i], held[i]);
            assert(hole(books[i], held[i]));
        }
    }
}

/// A snapshot is refused when a held update does not follow what the ones before it made of it: no
/// book is left. Otherwise the book is what all of them made of it, in order; nothing that was held
/// is newer than it.
pub proof fn a_snapshot_takes_in_all_or_is_refused(
    entry: EntryView,
    snapshot: OrderBookView,
    books: Seq<OrderBookView>,
    now: Timestamp,
)
    requires
        unfolds(snapshot, entry.buffered, books),
    ensures
        ({
            let after = entry.after_snapshot(snapshot, now);
            let n = entry.buffered.len() as int;
            &&& (exists|i: int| 0 <= i < n && hole(#[trigger] books[i], entry.buffered[i]))
                ==> after.book is None
            &&& (forall|i: int| 0 <= i < n ==> !hole(#[trigger] books[i], entry.buffered[i]))
                ==> after.book == Some(books[n]) && after.updated_at == now
            &&& after.book matches Some(book) ==> book.last_update_id >= snapshot.last_update_id && (
            forall|i: int|
                0 <= i < n ==> (#[trigger] entry.buffered[i]).last_update_id <= book.last_update_id)
            &&& after.buffered.len() == 0
            &&& !after.awaiting
            &&& after.requested_at == entry.requested_at
            &&& after.symbol == entry.symbol
        }),
{
    let n = entry.buffered.len() as int;
    lemma_unfolds(snapshot, entry.buffered, books, n);
    assert(entry.buffered.take(n) =~= entry.buffered);
    if entry.after_snapshot(snapshot, now).book is Some {
        lemma_ids_grow(snapshot, entry.buffered, books, n);
    }
}

/// Whether a snapshot that made these books was installed as it should be: nothing is handed out
/// and nothing is left where one of the held updates shows a hole, and else the last of the books
/// is left, and handed out where it has joined its stream.
pub open spec fn installs(
    held: Seq<BookDeltaView>,
    books: Seq<OrderBookView>,
    given: Option<OrderBookView>,
    left: Option<OrderBookView>,
) -> bool {
    if exists|i: int| 0 <= i < held.len() && hole(#[trigger] books[i], held[i]) {
        given is None && left is None
    } else {
        &&& left == Some(books.last())
        &&& given == if books.last().synced {
            left
        } else {
            None
        }
    }
}

/// Whatever is replayed, a book never goes back, and reaches the end of every update that does not
/// show a hole.
proof fn lemma_ids_grow(
    snapshot: OrderBookView,
    held: Seq<BookDeltaView>,
    books: Seq<OrderBookView>,
    n: int,
)
    requires
        unfolds(snapshot, held, books),
        0 <= n <= held.len(),
        forall|i: int| 0 <= i < n ==> !hole(#[trigger] books[i], held[i]),
    ensures
        books[n].last_update_id >= snapshot.last_update_id,
        forall|i: int|
            0 <= i < n ==> (#[trigger] held[i]).last_update_id <= books[n].last_update_id,
    decreases n,
{
    if n > 0 {
        lemma_ids_grow(snapshot, held, books, n - 1);
        assert(books[n - 1 + 1] == books[n - 1].after(held[n - 1]));
        assert(!hole(books[n - 1], held[n - 1]));
    }
}

/// While there is no book, every update is held, behind those that came before it and without
/// losing any, until there are more of them than any snapshot could catch up with; then it is
/// started over with the newest.
pub proof fn updates_are_held_in_order(
    entry: EntryView,
    delta: BookDeltaView,
    now: Timestamp,
    cooldown_ms: i64,
)
    requires
        entry.book is None || hole(entry.book->0, delta),
    ensures
        ({
            let after = entry.after_delta(delta, now, cooldown_ms);
            &&& after.book is None
            &&& entry.buffered.len() < 4_096 ==> after.buffered == entry.buffered.push(delta)
            &&& entry.buffered.len() >= 4_096 ==> after.buffered == seq![delta]
                && after.requested_at == Some(now)
            &&& after.updated_at == entry.updated_at
        }),
{
}

/// An update that follows a book changes the book alone: nothing is held and nothing is asked for.
pub proof fn a_live_book_holds_nothing_back(
    entry: EntryView,
    delta: BookDeltaView,
    now: Timestamp,
    cooldown_ms: i64,
)
    requires
        entry.book is Some,
        !hole(entry.book->0, delta),
    ensures
        ({
            let after = entry.after_delta(delta, now, cooldown_ms);
            let told = entry.outcome(delta, now, cooldown_ms);
            let newer = delta.last_update_id > entry.book->0.last_update_id;
            &&& after.book == Some(entry.book->0.after(delta))
            &&& after.buffered == entry.buffered
            &&& after.awaiting == entry.awaiting
            &&& after.requested_at == entry.requested_at
            &&& after.updated_at == if newer {
                now
            } else {
                entry.updated_at
            }
            &&& told.wanted is None
            &&& told.forward == (newer && entry.book->0.synced)
            &&& told.attached == (newer && !entry.book->0.synced)
        }),
{
}

/// Nothing is passed on while there is no live book, and what is asked for is asked for the
/// instrument at hand and recorded.
pub proof fn a_request_is_recorded(
    entry: EntryView,
    delta: BookDeltaView,
    now: Timestamp,
    cooldown_ms: i64,
)
    requires
        entry.book is None || hole(entry.book->0, delta),
    ensures
        ({
            let after = entry.after_delta(delta, now, cooldown_ms);
            let told = entry.outcome(delta, now, cooldown_ms);
            &&& !told.forward && !told.attached
            &&& told.wanted matches Some(s) ==> s == entry.symbol && after.awaiting
                && after.requested_at == Some(now)
            &&& told.wanted is None ==> after.awaiting == entry.awaiting && after.requested_at
                == entry.requested_at
            &&& entry.requested_at is None ==> told.wanted is Some
        }),
{
}

/// With no book, a snapshot is asked for as soon as ten seconds have passed since it was asked for
/// and nothing came, or the cooldown since one that came or failed; not before.
pub proof fn a_snapshot_is_asked_for_in_time(
    entry: EntryView,
    delta: BookDeltaView,
    at: Timestamp,
    now: Timestamp,
    cooldown_ms: i64,
)
    requires
        entry.book is None || hole(entry.book->0, delta),
        entry.requested_at == Some(at),
        entry.buffered.len() < 4_096,
    ensures
        entry.awaiting ==> entry.outcome(delta, now, cooldown_ms).wanted == if now.0 - at.0
            >= 10_000 {
            Some(entry.symbol)
        } else {
            None
        },
        !entry.awaiting ==> entry.outcome(delta, now, cooldown_ms).wanted == if now.0 - at.0
            >= cooldown_ms {
            Some(entry.symbol)
        } else {
            None
        },
{
}

/// Of an instrument that is new nothing is known and nothing was asked for: its first update is
/// held, and a snapshot is asked for at once.
pub proof fn a_new_instrument_is_asked_for_at_once(
    set: BookSetView,
    delta: BookDeltaView,
    now: Timestamp,
)
    requires
        !set.entries.contains_key(delta.symbol.key()),
    ensures
        ({
            let after = set.after_delta(delta, now);
            let entry = after.entries[delta.symbol.key()];
            &&& after.entries.contains_key(delta.symbol.key())
            &&& entry.symbol == delta.symbol
            &&& entry.book is None
            &&& entry.buffered == seq![delta]
            &&& entry.awaiting && entry.requested_at == Some(now)
            &&& set.entry(delta.symbol).outcome(delta, now, set.cooldown_ms).wanted == Some(
                delta.symbol,
            )
            &&& after.cooldown_ms == set.cooldown_ms
        }),
{
    assert(Seq::<BookDeltaView>::empty().push(delta) =~= seq![delta]);
}

/// A book is served only once it has joined its stream, and then as it is.
pub proof fn only_a_joined_book_is_served(set: BookSetView, key: Seq<char>)
    ensures
        set.served(key) matches Some(book) ==> {
            &&& book.synced
            &&& set.entries.contains_key(key)
            &&& set.entries[key].book == Some(book)
        },
        set.entries.contains_key(key) && set.entries[key].book is Some
            && set.entries[key].book->0.synced ==> set.served(key) is Some,
{
}

/// What happens to one instrument leaves the others alone.
pub proof fn instruments_do_not_touch(
    set: BookSetView,
    delta: BookDeltaView,
    snapshot: OrderBookView,
    symbol: SymbolView,
    now: Timestamp,
    key: Seq<char>,
)
    ensures
        key != delta.symbol.key() ==> {
            &&& set.after_delta(delta, now).entries.contains_key(key) == set.entries.contains_key(
                key,
            )
            &&& set.entries.contains_key(key) ==> set.after_delta(delta, now).entries[key]
                == set.entries[key]
        },
        (snapshot.symbol is None || snapshot.symbol->0.key() != key) ==> {
            &&& set.after_snapshot(snapshot, now).entries.contains_key(key)
                == set.entries.contains_key(key)
            &&& set.entries.contains_key(key) ==> set.after_snapshot(snapshot, now).entries[key]
                == set.entries[key]
        },
        key != symbol.key() ==> {
            &&& set.after_failure(symbol).entries.contains_key(key) == set.entries.contains_key(key)
            &&& set.entries.contains_key(key) ==> set.after_failure(symbol).entries[key]
                == set.entries[key]
        },
{
}

/// A snapshot that could not be had is no longer waited for, and nothing else changes: the cooldown
/// still counts from when it was asked for, and what is held stays held.
pub proof fn a_failure_ends_the_wait_only(set: BookSetView, symbol: SymbolView)
    requires
        set.entries.contains_key(symbol.key()),
    ensures
        ({
            let before = set.entries[symbol.key()];
            let after = set.after_failure(symbol).entries[symbol.key()];
            &&& !after.awaiting
            &&& after.requested_at == before.requested_at
            &&& after.book == before.book
            &&& after.buffered == before.buffered
            &&& after.updated_at == before.updated_at
            &&& after.symbol == before.symbol
        }),
{
}

/// A book is reported frozen exactly where it is there and has not moved for longer than it may.
pub proof fn frozen_books_are_reported(
    set: BookSetView,
    keys: Seq<Seq<char>>,
    now: Timestamp,
    max_age_ms: i64,
)
    ensures
        forall|i: int|
            0 <= i < keys.len() && set.entries[#[trigger] keys[i]].book is Some && now.0
                - set.entries[keys[i]].updated_at.0 > max_age_ms ==> set.frozen(
                keys,
                now,
                max_age_ms,
            ).contains(set.entries[keys[i]].symbol),
        forall|s: SymbolView| #[trigger]
            set.frozen(keys, now, max_age_ms).contains(s) ==> exists|i: int|
                0 <= i < keys.len() && set.entries[#[trigger] keys[i]].symbol == s
                    && set.entries[keys[i]].book is Some && now.0
                    - set.entries[keys[i]].updated_at.0 > max_age_ms,
    decreases keys.len(),
{
    if keys.len() > 0 {
        let rest = keys.drop_last();
        let all = set.frozen(keys, now, max_age_ms);
        let old = set.frozen(rest, now, max_age_ms);
        frozen_books_are_reported(set, rest, now, max_age_ms);
        assert forall|i: int|
            0 <= i < keys.len() && set.entries[#[trigger] keys[i]].book is Some && now.0
                - set.entries[keys[i]].updated_at.0 > max_age_ms implies all.contains(
            set.entries[keys[i]].symbol,
        ) by {
            let s = set.entries[keys[i]].symbol;
            if i < rest.len() {
                assert(rest[i] == keys[i]);
                assert(old.contains(s));
                let k = old.index_of(s);
                assert(all[k] == s);
            } else {
                assert(all[all.len() - 1] == s);
            }
        }
        assert forall|s: SymbolView| #[trigger] all.contains(s) implies exists|i: int|
            0 <= i < keys.len() && set.entries[#[trigger] keys[i]].symbol == s
                && set.entries[keys[i]].book is Some && now.0 - set.entries[keys[i]].updated_at.0
                > max_age_ms by {
            let k = all.index_of(s);
            if k < old.len() {
                assert(old[k] == s);
                assert(old.contains(s));
                let i = choose|i: int|
                    0 <= i < rest.len() && set.entries[#[trigger] rest[i]].symbol == s
                        && set.entries[rest[i]].book is Some && now.0
                        - set.entries[rest[i]].updated_at.0 > max_age_ms;
                assert(keys[i] == rest[i]);
            } else {
                assert(keys[keys.len() - 1] == keys.last());
            }
        }
    }
}

/// No more books are frozen than there are.
pub proof fn lemma_frozen_len(
    set: BookSetView,
    keys: Seq<Seq<char>>,
    now: Timestamp,
    max_age_ms: i64,
)
    ensures
        set.frozen(keys, now, max_age_ms).len() <= keys.len(),
    decreases keys.len(),
{
    if keys.len() > 0 {
        lemma_frozen_len(set, keys.drop_last(), now, max_age_ms);
    }
}

/// What reaches consumers keeps a copy in step.
///
/// A consumer that takes the whole book when it is attached, and puts in every update that is
/// passed on, holds the same book. What is not passed on does not change a book that is kept.
pub proof fn copies_stay_in_step(
    entry: EntryView,
    delta: BookDeltaView,
    now: Timestamp,
    cooldown_ms: i64,
)
    ensures
        ({
            let o = entry.outcome(delta, now, cooldown_ms);
            let after = entry.after_delta(delta, now, cooldown_ms);
            &&& o.forward ==> entry.book is Some && entry.book->0.synced && entry.book->0.outcome(
                delta,
            ) is Applied && after.book == Some(entry.book->0.after(delta))
            &&& o.attached ==> after.book is Some && after.book->0.synced && !entry.book->0.synced
            &&& !o.forward && !o.attached && after.book is Some ==> after.book == entry.book
        }),
{
}

/// A book with a gap is torn: it is not served from that moment on, the update that exposed the
/// gap is not passed on but held, and a rebuild is asked for as soon as one may be.
pub proof fn torn_book_is_not_served(
    set: BookSetView,
    delta: BookDeltaView,
    now: Timestamp,
)
    requires
        set.entry(delta.symbol).book matches Some(b) && b.outcome(delta) is Gap,
    ensures
        ({
            let entry = set.entry(delta.symbol);
            let after = entry.after_delta(delta, now, set.cooldown_ms);
            let later = BookSetView {
                entries: set.entries.insert(delta.symbol.key(), after),
                cooldown_ms: set.cooldown_ms,
            };
            &&& later.served(delta.symbol.key()) is None
            &&& !entry.outcome(delta, now, set.cooldown_ms).forward
            &&& !entry.outcome(delta, now, set.cooldown_ms).attached
            &&& after.buffered.len() > 0 && after.buffered.last() == delta
        }),
{
}

/// While a snapshot is in flight no other is asked for, until its deadline or until the backlog
/// is given up; and after a request the cooldown is kept even when it has failed.
pub proof fn requests_are_spaced(
    entry: EntryView,
    delta: BookDeltaView,
    asked: Timestamp,
    now: Timestamp,
    cooldown_ms: i64,
)
    requires
        entry.requested_at == Some(asked),
        entry.buffered.len() < MAX_BUFFERED,
        now.0 - asked.0 < REQUEST_DEADLINE_MS,
        !entry.awaiting ==> now.0 - asked.0 < cooldown_ms,
    ensures
        entry.outcome(delta, now, cooldown_ms).wanted is None,
{
}

/// No request blocks a rebuild forever: past the deadline and the cooldown, an update that finds
/// no book asks again.
pub proof fn rebuild_is_asked_for_again(
    entry: EntryView,
    delta: BookDeltaView,
    asked: Timestamp,
    now: Timestamp,
    cooldown_ms: i64,
)
    requires
        entry.book is None,
        entry.requested_at == Some(asked),
        now.0 - asked.0 >= REQUEST_DEADLINE_MS,
        now.0 - asked.0 >= cooldown_ms,
    ensures
        entry.outcome(delta, now, cooldown_ms).wanted == Some(entry.symbol),
{
}

/// Something that happens to a [`BookSet`] on one connection.
pub enum Happening {
    /// An update comes in.
    Delta { delta: BookDeltaView, now: Timestamp },
    /// A snapshot comes in.
    Snapshot { snapshot: OrderBookView, now: Timestamp },
    /// A snapshot cannot be had.
    Failure { symbol: SymbolView },
}

/// Whether something ends the wait for a snapshot under a key, with one or without.
pub open spec fn answers(happening: Happening, key: Seq<char>) -> bool {
    match happening {
        Happening::Delta { .. } => false,
        Happening::Snapshot { snapshot, .. } => snapshot.symbol matches Some(s) && s.key() == key,
        Happening::Failure { symbol } => symbol.key() == key,
    }
}

/// The lesser of the cooldown and the deadline.
pub open spec fn spacing(cooldown_ms: i64) -> int {
    if cooldown_ms < REQUEST_DEADLINE_MS {
        cooldown_ms as int
    } else {
        REQUEST_DEADLINE_MS as int
    }
}

/// Two requests for one instrument are the cooldown apart, or the deadline where that is less,
/// whatever happens in between, and the deadline apart where nothing answered the first. A backlog
/// that is given up in between starts over, and so does a connection.
pub proof fn two_requests_are_apart(
    set: BookSetView,
    first: BookDeltaView,
    asked: Timestamp,
    between: Seq<Happening>,
    second: BookDeltaView,
    again: Timestamp,
)
    requires
        set.entry(first.symbol).outcome(first, asked, set.cooldown_ms).wanted is Some,
        second.symbol == first.symbol,
        forall|i: int|
            0 <= i < between.len() ==> (#[trigger] between[i] matches Happening::Delta { now, .. }
                ==> asked.0 <= now.0),
        forall|i: int|
            0 <= i <= between.len() ==> set.after_delta(first, asked).lived(
                #[trigger] between.take(i),
            ).entry(first.symbol).buffered.len() < MAX_BUFFERED,
        set.after_delta(first, asked).lived(between).entry(second.symbol).outcome(
            second,
            again,
            set.cooldown_ms,
        ).wanted is Some,
    ensures
        again.0 - asked.0 >= spacing(set.cooldown_ms),
        (forall|i: int|
            0 <= i < between.len() ==> !answers(#[trigger] between[i], first.symbol.key()))
            ==> again.0 - asked.0 >= REQUEST_DEADLINE_MS,
{
    lemma_still_asked(set, first, asked, between, between.len() as int);
    assert(between.take(between.len() as int) =~= between);
}

/// After a request one is on record that is no older, and it is outstanding until it is answered.
proof fn lemma_still_asked(
    set: BookSetView,
    first: BookDeltaView,
    asked: Timestamp,
    between: Seq<Happening>,
    n: int,
)
    requires
        set.entry(first.symbol).outcome(first, asked, set.cooldown_ms).wanted is Some,
        0 <= n <= between.len(),
        forall|i: int|
            0 <= i < between.len() ==> (#[trigger] between[i] matches Happening::Delta { now, .. }
                ==> asked.0 <= now.0),
        forall|i: int|
            0 <= i <= between.len() ==> set.after_delta(first, asked).lived(
                #[trigger] between.take(i),
            ).entry(first.symbol).buffered.len() < MAX_BUFFERED,
    ensures
        ({
            let after = set.after_delta(first, asked).lived(between.take(n));
            let key = first.symbol.key();
            &&& after.cooldown_ms == set.cooldown_ms
            &&& after.entries.contains_key(key)
            &&& after.entries[key].requested_at matches Some(at) && asked.0 <= at.0
            &&& (forall|i: int| 0 <= i < n ==> !answers(#[trigger] between[i], key))
                ==> after.entries[key].awaiting
        }),
    decreases n,
{
    if n > 0 {
        lemma_still_asked(set, first, asked, between, n - 1);
        assert(between.take(n).drop_last() =~= between.take(n - 1));
        assert(between.take(n).last() == between[n - 1]);
        assert(between.take(n - 1).len() == n - 1);
    }
}

/// Every book a connector is maintaining.
pub struct BookSet {
    entries: Table<Entry>,
    cooldown_ms: i64,
}

/// What a [`BookSet`] holds, by the key of the instrument.
#[verifier::ext_equal]
pub struct BookSetView {
    pub entries: Map<Seq<char>, EntryView>,
    pub cooldown_ms: i64,
}

impl View for BookSet {
    type V = BookSetView;

    closed spec fn view(&self) -> BookSetView {
        BookSetView {
            entries: self.entries@.map_values(|e: Entry| e@),
            cooldown_ms: self.cooldown_ms,
        }
    }
}

impl BookSetView {
    /// What is held for an instrument, nothing known where it is new.
    pub open spec fn entry(self, symbol: SymbolView) -> EntryView {
        if self.entries.contains_key(symbol.key()) {
            self.entries[symbol.key()]
        } else {
            EntryView::fresh(symbol)
        }
    }

    /// After an update came in.
    pub open spec fn after_delta(self, delta: BookDeltaView, now: Timestamp) -> BookSetView {
        BookSetView {
            entries: self.entries.insert(
                delta.symbol.key(),
                self.entry(delta.symbol).after_delta(delta, now, self.cooldown_ms),
            ),
            cooldown_ms: self.cooldown_ms,
        }
    }

    /// After a snapshot came in. One that nobody asked for changes nothing.
    pub open spec fn after_snapshot(self, snapshot: OrderBookView, now: Timestamp) -> BookSetView {
        match snapshot.symbol {
            Some(s) => if self.entries.contains_key(s.key()) {
                BookSetView {
                    entries: self.entries.insert(
                        s.key(),
                        self.entries[s.key()].after_snapshot(snapshot, now),
                    ),
                    cooldown_ms: self.cooldown_ms,
                }
            } else {
                self
            },
            None => self,
        }
    }

    /// After a snapshot could not be had: it is no longer in flight.
    pub open spec fn after_failure(self, symbol: SymbolView) -> BookSetView {
        if self.entries.contains_key(symbol.key()) {
            BookSetView {
                entries: self.entries.insert(
                    symbol.key(),
                    EntryView { awaiting: false, ..self.entries[symbol.key()] },
                ),
                cooldown_ms: self.cooldown_ms,
            }
        } else {
            self
        }
    }

    /// After all that happened to it, in order.
    pub open spec fn lived(self, history: Seq<Happening>) -> BookSetView
        decreases history.len(),
    {
        if history.len() == 0 {
            self
        } else {
            let before = self.lived(history.drop_last());
            match history.last() {
                Happening::Delta { delta, now } => before.after_delta(delta, now),
                Happening::Snapshot { snapshot, now } => before.after_snapshot(snapshot, now),
                Happening::Failure { symbol } => before.after_failure(symbol),
            }
        }
    }

    /// The book served for a key: one that has joined its stream.
    pub open spec fn served(self, key: Seq<char>) -> Option<OrderBookView> {
        if self.entries.contains_key(key) && self.entries[key].book is Some
            && self.entries[key].book->0.synced {
            self.entries[key].book
        } else {
            None
        }
    }

    /// The instruments among `keys` whose book has not moved for longer than `max_age_ms`.
    pub open spec fn frozen(self, keys: Seq<Seq<char>>, now: Timestamp, max_age_ms: i64) -> Seq<
        SymbolView,
    >
        decreases keys.len(),
    {
        if keys.len() == 0 {
            Seq::empty()
        } else {
            let rest = self.frozen(keys.drop_last(), now, max_age_ms);
            let e = self.entries[keys.last()];
            if e.book is Some && now.0 - e.updated_at.0 > max_age_ms {
                rest.push(e.symbol)
            } else {
                rest
            }
        }
    }
}

impl Default for BookSet {
    fn default() -> (r: Self)
        ensures
            r.wf(),
            r@ == (BookSetView {
                entries: Map::empty(),
                cooldown_ms: DEFAULT_RESYNC_COOLDOWN_MS,
            }),
    {
        BookSet::new(DEFAULT_RESYNC_COOLDOWN_MS)
    }
}

impl BookSet {
    /// The table is in order, and what stands under a key is of the instrument with that key.
    pub closed spec fn wf(&self) -> bool {
        &&& self.entries.wf()
        &&& forall|k: Seq<char>| #[trigger]
            self@.entries.contains_key(k) ==> self@.entries[k].symbol.key() == k
    }

    /// The keys in the order they are walked in.
    pub closed spec fn order(&self) -> Seq<Seq<char>> {
        self.entries.order()
    }

    /// The walk visits every key once, in text order.
    pub proof fn lemma_order(&self)
        requires
            self.wf(),
        ensures
            table::ascending(self.order()),
            forall|k: Seq<char>| #[trigger]
                self@.entries.contains_key(k) <==> self.order().contains(k),
            forall|k: Seq<char>| #[trigger]
                self@.entries.contains_key(k) ==> self@.entries[k].symbol.key() == k,
    {
        self.entries.lemma_order();
        assert forall|k: Seq<char>| #[trigger]
            self@.entries.contains_key(k) <==> self.order().contains(k) by {
            assert(self@.entries.contains_key(k) == self.entries@.contains_key(k));
        }
    }

    pub fn new(cooldown_ms: i64) -> (r: BookSet)
        ensures
            r.wf(),
            r@ == (BookSetView { entries: Map::empty(), cooldown_ms }),
    {
        let r = BookSet { entries: Table::new(), cooldown_ms };
        assert(r@.entries =~= Map::<Seq<char>, EntryView>::empty());
        r
    }

    /// Feed one incremental update.
    pub fn on_delta(&mut self, delta: BookDelta, now: Timestamp) -> (r: Outcome)
        requires
            old(self).wf(),
            !old(self)@.entry(delta.symbol@).absorbs(delta@) ==> (old(self)@.entry(
                delta.symbol@,
            ).requested_at matches Some(at) ==> age_fits(at, now)),
        ensures
            final(self).wf(),
            r@ == old(self)@.entry(delta.symbol@).outcome(delta@, now, old(self)@.cooldown_ms),
            final(self)@ == old(self)@.after_delta(delta@, now),
    {
        let key = delta.symbol.key();
        let ghost start = self@;
        let ghost e0 = self@.entry(delta.symbol@);
        let ghost d = delta@;
        let ghost k = delta.symbol@.key();
        let cooldown_ms: i64 = self.cooldown_ms;
        if !self.entries.contains(key.as_str()) {
            let entry = Entry {
                symbol: delta.symbol.clone(),
                book: None,
                buffered: Vec::new(),
                awaiting: false,
                requested_at: None,
                updated_at: Timestamp(0),
            };
            assert(entry@ =~= EntryView::fresh(delta.symbol@));
            self.entries.insert(key.clone(), entry);
        }
        assert(self.entries@[k]@ == e0);
        let ghost middle = self.entries@;
        let r = match self.entries.get_mut(key.as_str()) {
            Some(entry) => entry.on_delta(delta, now, cooldown_ms),
            None => Outcome { need: Need::Nothing, forward: false, attached: false },
        };
        proof {
            assert(self@.entries =~= start.entries.insert(
                k,
                e0.after_delta(d, now, cooldown_ms),
            ));
        }
        r
    }

    /// Install a fetched snapshot and replay whatever arrived while it was in flight.
    ///
    /// Returns the book once it has joined the delta stream: that is the moment it is safe to
    /// publish. `None` means the snapshot was already too old and another is needed, or that no
    /// update has chained onto it yet, or that nobody asked for it.
    pub fn install_snapshot(&mut self, snapshot: OrderBook, now: Timestamp) -> (r: Option<
        OrderBook,
    >)
        requires
            old(self).wf(),
        ensures
            final(self).wf(),
            final(self)@ == old(self)@.after_snapshot(snapshot@, now),
            ({
                let known = snapshot.symbol is Some && old(self)@.entries.contains_key(
                    snapshot.symbol->0@.key(),
                );
                let key = snapshot.symbol->0@.key();
                let book = replayed(snapshot@, old(self)@.entries[key].buffered);
                match r {
                    Some(b) => known && book == Some(b@) && b.synced,
                    None => !known || book is None || !book->0.synced,
                }
            }),
            forall|books: Seq<OrderBookView>|
                snapshot.symbol is Some && old(self)@.entries.contains_key(
                    snapshot.symbol->0@.key(),
                ) && #[trigger] unfolds(
                    snapshot@,
                    old(self)@.entries[snapshot.symbol->0@.key()].buffered,
                    books,
                ) ==> installs(
                    old(self)@.entries[snapshot.symbol->0@.key()].buffered,
                    books,
                    match r {
                        Some(b) => Some(b@),
                        None => None,
                    },
                    final(self)@.entries[snapshot.symbol->0@.key()].book,
                ),
    {
        let key = match &snapshot.symbol {
            Some(s) => s.key(),
            None => {
                return None;
            },
        };
        let ghost start = self@;
        let ghost k = key@;
        let ghost snap = snapshot@;
        let r = match self.entries.get_mut(key.as_str()) {
            Some(entry) => entry.install(snapshot, now),
            None => None,
        };
        proof {
            if start.entries.contains_key(k) {
                assert(self@.entries =~= start.entries.insert(
                    k,
                    start.entries[k].after_snapshot(snap, now),
                ));
                let before = start.entries[k];
                assert forall|books: Seq<OrderBookView>| #[trigger]
                    unfolds(snap, before.buffered, books) implies installs(
                    before.buffered,
                    books,
                    match r {
                        Some(b) => Some(b@),
                        None => None,
                    },
                    self@.entries[k].book,
                ) by {
                    a_snapshot_takes_in_all_or_is_refused(before, snap, books, now);
                }
            } else {
                assert(self@.entries =~= start.entries);
            }
        }
        r
    }

    /// The book of an instrument, once it has joined its stream.
    pub fn book(&self, key: &str) -> (r: Option<&OrderBook>)
        requires
            self.wf(),
        ensures
            match r {
                Some(b) => self@.served(key@) == Some(b@),
                None => self@.served(key@) is None,
            },
    {
        match self.entries.get(key) {
            Some(entry) => match &entry.book {
                Some(b) => if b.synced {
                    Some(b)
                } else {
                    None
                },
                None => None,
            },
            None => None,
        }
    }

    /// Symbols whose book has not moved for `max_age_ms`.
    ///
    /// A frozen book on a live socket is the failure that looks like health, so it gets
    /// reported rather than waited out.
    pub fn stale(&self, now: Timestamp, max_age_ms: i64) -> (r: Vec<Symbol>)
        requires
            self.wf(),
            forall|k: Seq<char>| #[trigger]
                self@.entries.contains_key(k) && self@.entries[k].book is Some ==> age_fits(
                    self@.entries[k].updated_at,
                    now,
                ),
        ensures
            r@.map_values(|s: Symbol| s@) == self@.frozen(self.order(), now, max_age_ms),
    {
        let mut r: Vec<Symbol> = Vec::new();
        let mut i: usize = 0;
        proof {
            assert(self.order().take(0) =~= Seq::<Seq<char>>::empty());
            assert(r@.map_values(|s: Symbol| s@) =~= Seq::<SymbolView>::empty());
        }
        while i < self.entries.len()
            invariant
                self.wf(),
                i <= self.order().len(),
                forall|k: Seq<char>| #[trigger]
                    self@.entries.contains_key(k) && self@.entries[k].book is Some ==> age_fits(
                        self@.entries[k].updated_at,
                        now,
                    ),
                r@.map_values(|s: Symbol| s@) == self@.frozen(
                    self.order().take(i as int),
                    now,
                    max_age_ms,
                ),
            decreases self.order().len() - i,
        {
            let entry = self.entries.value_at(i);
            let ghost k = self.order()[i as int];
            proof {
                assert(self@.entries.contains_key(k));
                assert(self@.entries[k] == entry@);
                assert(self.order().take(i + 1).drop_last() =~= self.order().take(i as int));
                assert(self.order().take(i + 1).last() == k);
            }
            if entry.book.is_some() && entry.updated_at.age_millis_from(now) > max_age_ms {
                let ghost before = r@;
                r.push(entry.symbol.clone());
                assert(r@.map_values(|s: Symbol| s@) =~= before.map_values(|s: Symbol| s@).push(
                    entry.symbol@,
                ));
            }
            i += 1;
        }
        assert(self.order().take(i as int) =~= self.order());
        r
    }

    /// Report that a snapshot fetch failed, so the next delta may ask again.
    ///
    /// The cooldown still applies, but the request is no longer considered outstanding.
    pub fn snapshot_failed(&mut self, symbol: &Symbol)
        requires
            old(self).wf(),
        ensures
            final(self).wf(),
            final(self)@ == old(self)@.after_failure(symbol@),
    {
        let key = symbol.key();
        let ghost start = self@;
        let ghost k = key@;
        if let Some(entry) = self.entries.get_mut(key.as_str()) {
            entry.awaiting = false;
        }
        proof {
            if start.entries.contains_key(k) {
                assert(self@.entries =~= start.entries.insert(
                    k,
                    EntryView { awaiting: false, ..start.entries[k] },
                ));
            } else {
                assert(self@.entries =~= start.entries);
            }
        }
    }

    /// Forget everything. Used on reconnect: the venue's sequence numbers do not survive it.
    pub fn reset(&mut self)
        requires
            old(self).wf(),
        ensures
            final(self).wf(),
            final(self)@ == (BookSetView {
                entries: Map::empty(),
                cooldown_ms: old(self)@.cooldown_ms,
            }),
    {
        self.entries.clear();
        assert(self@.entries =~= Map::<Seq<char>, EntryView>::empty());
    }
}

impl Entry {
    fn on_delta(&mut self, delta: BookDelta, now: Timestamp, cooldown_ms: i64) -> (r: Outcome)
        requires
            !old(self)@.absorbs(delta@) ==> (old(self)@.requested_at matches Some(at) ==> age_fits(
                at,
                now,
            )),
        ensures
            final(self)@ == old(self)@.after_delta(delta@, now, cooldown_ms),
            r@ == old(self)@.outcome(delta@, now, cooldown_ms),
    {
        let ghost start = self@;
        match &mut self.book {
            // No book yet, or one is being rebuilt: hold the update for replay.
            None => {},
            Some(book) => {
                let was_synced: bool = book.synced;
                match book.apply(&delta) {
                    ApplyOutcome::Applied => {
                        self.updated_at = now;
                        let attached: bool = !was_synced;
                        assert(self@ =~= start.after_delta(delta@, now, cooldown_ms));
                        return Outcome { need: Need::Nothing, forward: !attached, attached };
                    },
                    // Normal overlap right after a snapshot.
                    ApplyOutcome::Stale => {
                        assert(self@ =~= start.after_delta(delta@, now, cooldown_ms));
                        return Outcome { need: Need::Nothing, forward: false, attached: false };
                    },
                    ApplyOutcome::Gap { .. } => {},
                }
            },
        }
        // Anything rendered from here would be fiction: the book goes, the update that exposed
        // the gap is kept, and a rebuild starts.
        self.book = None;
        self.buffer(delta);
        let need = self.request_snapshot(now, cooldown_ms);
        Outcome { need, forward: false, attached: false }
    }

    fn buffer(&mut self, delta: BookDelta)
        ensures
            final(self)@ == old(self)@.holding(delta@),
    {
        let ghost start = self@;
        if self.buffered.len() >= MAX_BUFFERED {
            // The in-flight snapshot will never catch up with this much backlog.
            self.buffered.clear();
            self.awaiting = false;
            self.requested_at = None;
        }
        self.buffered.push(delta);
        assert(self@ =~= start.holding(delta@));
    }

    fn request_snapshot(&mut self, now: Timestamp, cooldown_ms: i64) -> (r: Need)
        requires
            old(self)@.requested_at matches Some(at) ==> age_fits(at, now),
        ensures
            final(self)@ == old(self)@.asking(now, cooldown_ms),
            match r {
                Need::Nothing => !old(self)@.may_ask(now, cooldown_ms),
                Need::Snapshot(s) => old(self)@.may_ask(now, cooldown_ms) && s@ == old(
                    self,
                )@.symbol,
            },
    {
        if let Some(at) = self.requested_at {
            let age: i64 = at.age_millis_from(now);
            // An outstanding request blocks another, but only until the deadline. Beyond it the
            // fetch is taken to be never coming back.
            if self.awaiting && age < REQUEST_DEADLINE_MS {
                return Need::Nothing;
            }
            if !self.awaiting && age < cooldown_ms {
                return Need::Nothing;
            }
        }
        self.awaiting = true;
        self.requested_at = Some(now);
        Need::Snapshot(self.symbol.clone())
    }

    fn install(&mut self, snapshot: OrderBook, now: Timestamp) -> (r: Option<OrderBook>)
        ensures
            final(self)@ == old(self)@.after_snapshot(snapshot@, now),
            match r {
                Some(b) => replayed(snapshot@, old(self)@.buffered) == Some(b@) && b.synced,
                None => replayed(snapshot@, old(self)@.buffered) is None || !replayed(
                    snapshot@,
                    old(self)@.buffered,
                )->0.synced,
            },
    {
        let ghost start = self@;
        let ghost given = snapshot@;
        let mut book = snapshot;
        self.awaiting = false;
        let mut held: Vec<BookDelta> = Vec::new();
        std::mem::swap(&mut held, &mut self.buffered);
        let ghost views = delta_views(held@);
        let mut i: usize = 0;
        assert(views.take(0) =~= Seq::<BookDeltaView>::empty());
        assert(delta_views(self.buffered@) =~= Seq::<BookDeltaView>::empty());
        while i < held.len()
            invariant
                i <= held@.len(),
                views == delta_views(held@),
                views == start.buffered,
                replayed(given, views.take(i as int)) == Some(book@),
                given == snapshot@,
                self@ == (EntryView { awaiting: false, buffered: Seq::empty(), ..start }),
                start == old(self)@,
            decreases held@.len() - i,
        {
            assert(views.take(i + 1).drop_last() =~= views.take(i as int));
            assert(views.take(i + 1).last() == held@[i as int]@);
            if let ApplyOutcome::Gap { .. } = book.apply(&held[i]) {
                // The stream ran past this snapshot while it was in flight.
                self.book = None;
                proof {
                    lemma_replay_fails(given, views, i + 1);
                    assert(self@ =~= start.after_snapshot(given, now));
                }
                return None;
            }
            i += 1;
        }
        assert(views.take(i as int) =~= views);
        self.updated_at = now;
        // Until a delta has chained onto it the book is a still photograph of a moment that has
        // already passed; publishing it would show a stale spread as if it were live.
        let joined = if book.synced {
            Some(book.clone())
        } else {
            None
        };
        self.book = Some(book);
        assert(self@ =~= start.after_snapshot(given, now));
        joined
    }
}

} // verus!
