//! Short identifiers for instruments, and the epoch that makes reusing them safe.
//!
//! Small identifiers are only safe while both sides agree what they mean, and they are assigned
//! in the order instruments happen to be subscribed to. So every mapping carries the epoch it
//! was issued under, and an id from a foreign epoch is refused rather than resolved.
//!
//! Ids are never recycled within an epoch: frames for a symbol can still be in flight when it
//! is unsubscribed.

use crate::decimal;
use crate::domain::ids;
use crate::domain::ids::{Symbol, SymbolView};
use crate::table::Table;
use crate::text;
use vstd::prelude::*;

verus! {

/// An instrument's short form within one epoch.
#[derive(Clone, Copy, Debug, PartialEq, Eq, Hash, PartialOrd, Ord, Structural)]
pub struct SymbolId(pub u32);

impl SymbolId {
    pub open spec fn text(self) -> Seq<char> {
        "sid:"@ + decimal::digits(self.0 as int)
    }

    pub fn to_string(&self) -> (r: String)
        ensures
            r@ == self.text(),
    {
        let mut r = "sid:".to_owned();
        r.append(text::unsigned(self.0 as u64).as_str());
        r
    }
}

#[derive(Clone, Copy, Debug, PartialEq, Eq, Structural)]
pub enum ResolveError {
    /// The id, the epoch it was issued under, and the epoch it was brought to.
    ForeignEpoch(SymbolId, u64, u64),
    Unknown(SymbolId),
}

impl ResolveError {
    pub open spec fn text(self) -> Seq<char> {
        match self {
            ResolveError::ForeignEpoch(id, issued, current) => "symbol id "@ + id.text()
                + " was issued under dictionary epoch "@ + decimal::digits(issued as int)
                + ", this core is at "@ + decimal::digits(current as int),
            ResolveError::Unknown(id) => "symbol id "@ + id.text() + " has never been issued"@,
        }
    }

    pub fn to_string(&self) -> (r: String)
        ensures
            r@ == self.text(),
    {
        let mut r = "symbol id ".to_owned();
        match self {
            ResolveError::ForeignEpoch(id, issued, current) => {
                r.append(id.to_string().as_str());
                r.append(" was issued under dictionary epoch ");
                r.append(text::unsigned(*issued).as_str());
                r.append(", this core is at ");
                r.append(text::unsigned(*current).as_str());
            },
            ResolveError::Unknown(id) => {
                r.append(id.to_string().as_str());
                r.append(" has never been issued");
            },
        }
        r
    }
}

/// The core's assignment of short ids to instruments.
///
/// One per core lifetime. The terminal holds a copy built from what the core told it, and both
/// sides tag it with the same epoch.
pub struct SymbolRegistry {
    epoch: u64,
    /// Index is the id; the vector is append-only, which is what makes ids permanent.
    symbols: Vec<Symbol>,
    by_key: Table<SymbolId>,
}

/// What a [`SymbolRegistry`] says: the epoch, and the instruments in the order of their ids.
#[verifier::ext_equal]
pub struct RegistryView {
    pub epoch: u64,
    pub symbols: Seq<SymbolView>,
}

/// What a list of instruments says.
pub open spec fn symbol_views(symbols: Seq<Symbol>) -> Seq<SymbolView> {
    symbols.map_values(|s: Symbol| s@)
}

impl View for SymbolRegistry {
    type V = RegistryView;

    closed spec fn view(&self) -> RegistryView {
        RegistryView { epoch: self.epoch, symbols: symbol_views(self.symbols@) }
    }
}

impl RegistryView {
    /// No instrument is listed twice.
    pub open spec fn distinct(self) -> bool {
        forall|i: int, j: int|
            0 <= i < j < self.symbols.len() ==> #[trigger] self.symbols[i]
                != #[trigger] self.symbols[j]
    }

    /// The id of an instrument, where it has one.
    pub open spec fn id_of(self, symbol: SymbolView) -> Option<SymbolId> {
        if self.symbols.contains(symbol) {
            Some(SymbolId(self.symbols.index_of(symbol) as u32))
        } else {
            None
        }
    }

    /// The registry once an instrument has an id: what had one keeps it.
    pub open spec fn with(self, symbol: SymbolView) -> RegistryView {
        if self.symbols.contains(symbol) {
            self
        } else {
            RegistryView { epoch: self.epoch, symbols: self.symbols.push(symbol) }
        }
    }

    /// What an id issued under some epoch stands for.
    pub open spec fn resolved(self, id: SymbolId, their_epoch: u64) -> Result<
        SymbolView,
        ResolveError,
    > {
        if their_epoch != self.epoch {
            Err(ResolveError::ForeignEpoch(id, their_epoch, self.epoch))
        } else if id.0 < self.symbols.len() {
            Ok(self.symbols[id.0 as int])
        } else {
            Err(ResolveError::Unknown(id))
        }
    }
}

/// An id, once issued, is permanent: whatever is interned later, it resolves to the same
/// instrument under the same epoch, and that instrument keeps it.
pub proof fn ids_are_permanent(registry: RegistryView, other: SymbolView, id: SymbolId)
    requires
        registry.distinct(),
        id.0 < registry.symbols.len(),
        registry.symbols.len() <= u32::MAX,
    ensures
        registry.with(other).resolved(id, registry.epoch) == registry.resolved(id, registry.epoch),
        registry.with(other).id_of(registry.symbols[id.0 as int]) == Some(id),
{
    let s = registry.symbols[id.0 as int];
    let later = registry.with(other);
    assert(later.symbols[id.0 as int] == s);
    assert(later.symbols.contains(s));
    let j = later.symbols.index_of(s);
    if j < registry.symbols.len() {
        assert(registry.symbols[j] == s);
        if j < id.0 {
            assert(registry.symbols[j] != registry.symbols[id.0 as int]);
        } else if id.0 < j {
            assert(registry.symbols[id.0 as int] != registry.symbols[j]);
        }
    } else {
        assert(registry.symbols.contains(s));
    }
}

/// What is interned resolves: the id of an instrument, brought back under the epoch it was issued
/// in, stands for that instrument.
pub proof fn an_id_stands_for_its_instrument(registry: RegistryView, symbol: SymbolView)
    requires
        registry.symbols.len() <= u32::MAX,
    ensures
        ({
            let later = registry.with(symbol);
            &&& later.id_of(symbol) is Some
            &&& later.resolved(later.id_of(symbol)->0, registry.epoch) == Ok::<
                SymbolView,
                ResolveError,
            >(symbol)
            &&& later.epoch == registry.epoch
            &&& later.symbols.len() <= registry.symbols.len() + 1
        }),
{
    let later = registry.with(symbol);
    if !registry.symbols.contains(symbol) {
        assert(later.symbols[later.symbols.len() - 1] == symbol);
    }
    assert(later.symbols.contains(symbol));
}

/// An id of another epoch is never resolved, known or not, and is refused as such; under its own
/// epoch only an id that was never issued is refused, and as unknown.
pub proof fn foreign_ids_are_refused(registry: RegistryView, id: SymbolId, their_epoch: u64)
    ensures
        their_epoch != registry.epoch ==> registry.resolved(id, their_epoch) == Err::<
            SymbolView,
            ResolveError,
        >(ResolveError::ForeignEpoch(id, their_epoch, registry.epoch)),
        their_epoch == registry.epoch && id.0 >= registry.symbols.len() ==> registry.resolved(
            id,
            their_epoch,
        ) == Err::<SymbolView, ResolveError>(ResolveError::Unknown(id)),
        their_epoch == registry.epoch && id.0 < registry.symbols.len() ==> registry.resolved(
            id,
            their_epoch,
        ) is Ok,
{
}

/// Two instruments never share an id.
pub proof fn ids_tell_instruments_apart(registry: RegistryView, a: SymbolView, b: SymbolView)
    requires
        registry.symbols.len() <= u32::MAX,
        registry.id_of(a) is Some,
        registry.id_of(a) == registry.id_of(b),
    ensures
        a == b,
{
}

/// Interning an instrument twice is interning it once.
pub proof fn interning_is_idempotent(registry: RegistryView, symbol: SymbolView)
    ensures
        registry.with(symbol).with(symbol) == registry.with(symbol),
{
    let later = registry.with(symbol);
    if !registry.symbols.contains(symbol) {
        assert(later.symbols[later.symbols.len() - 1] == symbol);
    }
}

impl SymbolRegistry {
    pub closed spec fn wf(&self) -> bool {
        &&& self.by_key.wf()
        &&& self.symbols@.len() <= 0x1_0000_0000
        &&& forall|i: int|
            0 <= i < self.symbols@.len() ==> {
                let key = (#[trigger] self.symbols@[i])@.key();
                self.by_key@.contains_key(key) && self.by_key@[key].0 == i
            }
        &&& forall|k: Seq<char>| #[trigger]
            self.by_key@.contains_key(k) ==> self.by_key@[k].0 < self.symbols@.len()
                && self.symbols@[self.by_key@[k].0 as int]@.key() == k
    }

    /// No instrument has two ids.
    pub proof fn lemma_distinct(&self)
        requires
            self.wf(),
        ensures
            self@.distinct(),
    {
        assert forall|i: int, j: int| 0 <= i < j < self@.symbols.len() implies #[trigger]
            self@.symbols[i] != #[trigger] self@.symbols[j] by {
            assert(self@.symbols[i] == self.symbols@[i]@);
            assert(self@.symbols[j] == self.symbols@[j]@);
        }
    }

    /// `epoch` must differ from every previous core lifetime. Deriving it from the start time
    /// is enough.
    pub fn new(epoch: u64) -> (r: SymbolRegistry)
        ensures
            r.wf(),
            r@ == (RegistryView { epoch, symbols: Seq::empty() }),
    {
        let r = SymbolRegistry { epoch, symbols: Vec::new(), by_key: Table::new() };
        assert(r@.symbols =~= Seq::<SymbolView>::empty());
        r
    }

    pub fn epoch(&self) -> (r: u64)
        ensures
            r == self@.epoch,
    {
        self.epoch
    }

    pub fn len(&self) -> (r: usize)
        ensures
            r == self@.symbols.len(),
    {
        self.symbols.len()
    }

    pub fn is_empty(&self) -> (r: bool)
        ensures
            r == (self@.symbols.len() == 0),
    {
        self.symbols.len() == 0
    }

    /// Id for a symbol, assigning one if it has none.
    ///
    /// Idempotent: the same symbol always comes back with the same id within an epoch, so a
    /// terminal resubscribing does not invalidate what it already holds. There are as many ids
    /// as there are 32-bit numbers.
    pub fn intern(&mut self, symbol: &Symbol) -> (id: SymbolId)
        requires
            old(self).wf(),
            old(self)@.symbols.len() < 0x1_0000_0000 || old(self)@.symbols.contains(symbol@),
        ensures
            final(self).wf(),
            final(self)@ == old(self)@.with(symbol@),
            final(self)@.id_of(symbol@) == Some(id),
    {
        let key = symbol.key();
        let found = match self.by_key.get(key.as_str()) {
            Some(id) => Some(*id),
            None => None,
        };
        proof {
            self.lemma_known(symbol@);
            self.lemma_distinct();
        }
        if let Some(id) = found {
            return id;
        }
        let id = SymbolId(self.symbols.len() as u32);
        let ghost before = *self;
        self.symbols.push(symbol.clone());
        self.by_key.insert(key, id);
        proof {
            assert(self@.symbols =~= before@.symbols.push(symbol@));
            assert(self@.symbols[id.0 as int] == symbol@);
            assert forall|i: int| 0 <= i < self.symbols@.len() implies {
                let key = (#[trigger] self.symbols@[i])@.key();
                self.by_key@.contains_key(key) && self.by_key@[key].0 == i
            } by {
                if i < before.symbols@.len() {
                    assert(self.symbols@[i] == before.symbols@[i]);
                }
            }
            assert forall|k: Seq<char>| #[trigger]
                self.by_key@.contains_key(k) implies self.by_key@[k].0 < self.symbols@.len()
                && self.symbols@[self.by_key@[k].0 as int]@.key() == k by {
                if k != symbol@.key() {
                    assert(before.by_key@.contains_key(k));
                }
            }
            self.lemma_known(symbol@);
        }
        id
    }

    /// What the key table says of an instrument is what the list says.
    proof fn lemma_known(&self, symbol: SymbolView)
        requires
            self.wf(),
        ensures
            self.by_key@.contains_key(symbol.key()) == self@.symbols.contains(symbol),
            self.by_key@.contains_key(symbol.key()) ==> self@.id_of(symbol) == Some(
                self.by_key@[symbol.key()],
            ),
    {
        self.lemma_distinct();
        if self.by_key@.contains_key(symbol.key()) {
            let i = self.by_key@[symbol.key()].0 as int;
            ids::key_names_one_instrument(self.symbols@[i]@, symbol);
            assert(self@.symbols[i] == symbol);
            let j = self@.symbols.index_of(symbol);
            assert(self@.symbols[j] == symbol);
            if i < j {
                assert(self@.symbols[i] != self@.symbols[j]);
            } else if j < i {
                assert(self@.symbols[j] != self@.symbols[i]);
            }
        }
        if self@.symbols.contains(symbol) {
            let j = self@.symbols.index_of(symbol);
            assert(self.symbols@[j]@ == symbol);
        }
    }

    /// Id for a symbol, without assigning one.
    pub fn lookup(&self, symbol: &Symbol) -> (r: Option<SymbolId>)
        requires
            self.wf(),
        ensures
            r == self@.id_of(symbol@),
    {
        proof {
            self.lemma_known(symbol@);
        }
        match self.by_key.get(symbol.key().as_str()) {
            Some(id) => Some(*id),
            None => None,
        }
    }

    /// Resolve an id issued under `their_epoch`.
    ///
    /// The epoch is checked first and separately from existence, because the two failures need
    /// different answers: a foreign epoch means the terminal must throw away its whole mapping,
    /// an unknown id means it asked about something that was never issued.
    pub fn resolve(&self, id: SymbolId, their_epoch: u64) -> (r: Result<&Symbol, ResolveError>)
        ensures
            match r {
                Ok(s) => self@.resolved(id, their_epoch) == Ok::<SymbolView, ResolveError>(s@),
                Err(e) => self@.resolved(id, their_epoch) == Err::<SymbolView, ResolveError>(e),
            },
    {
        if their_epoch != self.epoch {
            return Err(ResolveError::ForeignEpoch(id, their_epoch, self.epoch));
        }
        if (id.0 as u64) < self.symbols.len() as u64 {
            Ok(&self.symbols[id.0 as usize])
        } else {
            Err(ResolveError::Unknown(id))
        }
    }

    /// Everything issued so far, for the start-of-session handover.
    pub fn assignments(&self) -> (r: Vec<(Symbol, SymbolId)>)
        requires
            self.wf(),
        ensures
            r@.len() == self@.symbols.len(),
            forall|i: int|
                0 <= i < r@.len() ==> (#[trigger] r@[i]).0@ == self@.symbols[i] && r@[i].1.0 == i,
    {
        let mut r: Vec<(Symbol, SymbolId)> = Vec::new();
        let mut i: usize = 0;
        while i < self.symbols.len()
            invariant
                self.wf(),
                i <= self.symbols@.len(),
                r@.len() == i,
                forall|j: int|
                    0 <= j < i ==> (#[trigger] r@[j]).0@ == self@.symbols[j] && r@[j].1.0 == j,
            decreases self.symbols@.len() - i,
        {
            r.push((self.symbols[i].clone(), SymbolId(i as u32)));
            i += 1;
        }
        r
    }
}

} // verus!
