//! A map from text to values, kept in text order.

use crate::text;
use vstd::prelude::*;

verus! {

/// A map from text to values. Walking it visits the keys in text order.
pub struct Table<V> {
    keys: Vec<String>,
    values: Vec<V>,
}

/// The texts of a list of strings.
pub open spec fn texts(strings: Seq<String>) -> Seq<Seq<char>> {
    strings.map_values(|s: String| s@)
}

/// Whether the texts stand in text order, none twice.
pub open spec fn ascending(keys: Seq<Seq<char>>) -> bool {
    forall|i: int, j: int| 0 <= i < j < keys.len() ==> #[trigger] text::before(keys[i], keys[j])
}

/// The map that pairs each key with the value in the same place.
pub open spec fn paired<V>(keys: Seq<Seq<char>>, values: Seq<V>) -> Map<Seq<char>, V> {
    Map::new(|k: Seq<char>| keys.contains(k), |k: Seq<char>| values[keys.index_of(k)])
}

/// Keys in text order with one more put in its place; the same keys where it is among them.
pub open spec fn placed(keys: Seq<Seq<char>>, key: Seq<char>) -> Seq<Seq<char>>
    decreases keys.len(),
{
    if keys.len() == 0 {
        seq![key]
    } else if keys.last() == key {
        keys
    } else if text::before(keys.last(), key) {
        keys.push(key)
    } else {
        placed(keys.drop_last(), key).push(keys.last())
    }
}

/// Putting a key in keeps the keys in order, and adds that key and no other.
pub proof fn lemma_placed(keys: Seq<Seq<char>>, key: Seq<char>)
    requires
        ascending(keys),
    ensures
        ascending(placed(keys, key)),
        forall|n: Seq<char>| #[trigger]
            placed(keys, key).contains(n) <==> keys.contains(n) || n == key,
    decreases keys.len(),
{
    let new = placed(keys, key);
    if keys.len() == 0 {
        assert(new[0] == key);
    } else if keys.last() == key {
        assert(keys[keys.len() - 1] == key);
    } else if text::before(keys.last(), key) {
        assert forall|i: int, j: int| 0 <= i < j < new.len() implies #[trigger] text::before(
            new[i],
            new[j],
        ) by {
            if j < keys.len() {
                assert(text::before(keys[i], keys[j]));
            } else if i < keys.len() - 1 {
                assert(text::before(keys[i], keys[keys.len() - 1]));
                text::lemma_before_transitive(keys[i], keys.last(), key);
            }
        }
        assert forall|n: Seq<char>| #[trigger] new.contains(n) <==> keys.contains(n) || n
            == key by {
            lemma_contains_push(keys, key, n);
        }
    } else {
        let rest = keys.drop_last();
        let last = keys.last();
        assert(keys =~= rest.push(last));
        assert(ascending(rest)) by {
            assert forall|i: int, j: int| 0 <= i < j < rest.len() implies #[trigger] text::before(
                rest[i],
                rest[j],
            ) by {
                assert(text::before(keys[i], keys[j]));
            }
        }
        lemma_placed(rest, key);
        text::lemma_before_total(last, key);
        let front = placed(rest, key);
        assert forall|i: int, j: int| 0 <= i < j < new.len() implies #[trigger] text::before(
            new[i],
            new[j],
        ) by {
            if j < front.len() {
                assert(text::before(front[i], front[j]));
            } else {
                assert(front.contains(front[i]));
                if front[i] != key {
                    let k = rest.index_of(front[i]);
                    assert(text::before(keys[k], keys[keys.len() - 1]));
                }
            }
        }
        assert forall|n: Seq<char>| #[trigger] new.contains(n) <==> keys.contains(n) || n
            == key by {
            lemma_contains_push(front, last, n);
            lemma_contains_push(rest, last, n);
        }
    }
}

/// What a list with one more item contains.
pub proof fn lemma_contains_push<T>(s: Seq<T>, x: T, n: T)
    ensures
        s.push(x).contains(n) <==> s.contains(n) || n == x,
{
    if s.contains(n) {
        let j = s.index_of(n);
        assert(s.push(x)[j] == n);
    }
    if n == x {
        assert(s.push(x)[s.len() as int] == n);
    }
    if s.push(x).contains(n) {
        let j = s.push(x).index_of(n);
        if j < s.len() {
            assert(s[j] == n);
        }
    }
}

/// A key that is there already is not put in again.
proof fn lemma_placed_there(keys: Seq<Seq<char>>, at: int)
    requires
        ascending(keys),
        0 <= at < keys.len(),
    ensures
        placed(keys, keys[at]) == keys,
    decreases keys.len(),
{
    let key = keys[at];
    if at < keys.len() - 1 {
        let rest = keys.drop_last();
        assert(text::before(keys[at], keys[keys.len() - 1]));
        text::lemma_before_irreflexive(key);
        if text::before(keys.last(), key) {
            text::lemma_before_transitive(key, keys.last(), key);
        }
        assert(ascending(rest)) by {
            assert forall|i: int, j: int| 0 <= i < j < rest.len() implies #[trigger] text::before(
                rest[i],
                rest[j],
            ) by {
                assert(text::before(keys[i], keys[j]));
            }
        }
        lemma_placed_there(rest, at);
        assert(rest.push(keys.last()) =~= keys);
    }
}

/// A key that is not there goes where everything in front of it comes before it.
proof fn lemma_placed_new(keys: Seq<Seq<char>>, at: int, key: Seq<char>)
    requires
        0 <= at <= keys.len(),
        ascending(keys),
        forall|i: int| 0 <= i < at ==> #[trigger] text::before(keys[i], key),
        at < keys.len() ==> text::before(key, keys[at]),
    ensures
        placed(keys, key) == keys.insert(at, key),
    decreases keys.len(),
{
    text::lemma_before_irreflexive(key);
    if keys.len() == 0 {
        assert(keys.insert(at, key) =~= seq![key]);
    } else if at == keys.len() {
        assert(text::before(keys[at - 1], key));
        assert(keys.last() != key);
        assert(keys.insert(at, key) =~= keys.push(key));
    } else {
        let rest = keys.drop_last();
        let last = keys[keys.len() - 1];
        if at < keys.len() - 1 {
            assert(text::before(keys[at], last));
            text::lemma_before_transitive(key, keys[at], last);
        }
        if text::before(last, key) {
            text::lemma_before_transitive(key, last, key);
        }
        assert(ascending(rest)) by {
            assert forall|i: int, j: int| 0 <= i < j < rest.len() implies #[trigger] text::before(
                rest[i],
                rest[j],
            ) by {
                assert(text::before(keys[i], keys[j]));
            }
        }
        assert forall|i: int| 0 <= i < at implies #[trigger] text::before(rest[i], key) by {
            assert(text::before(keys[i], key));
        }
        lemma_placed_new(rest, at, key);
        assert(rest.insert(at, key).push(last) =~= keys.insert(at, key));
    }
}

impl<V> View for Table<V> {
    type V = Map<Seq<char>, V>;

    closed spec fn view(&self) -> Map<Seq<char>, V> {
        paired(texts(self.keys@), self.values@)
    }
}

/// In an ascending list every text stands in one place only.
pub proof fn lemma_ascending_once(keys: Seq<Seq<char>>, i: int)
    requires
        ascending(keys),
        0 <= i < keys.len(),
    ensures
        keys.contains(keys[i]),
        keys.index_of(keys[i]) == i,
{
    let k = keys[i];
    let j = keys.index_of(k);
    assert(keys.contains(k));
    assert(0 <= j < keys.len() && keys[j] == k);
    text::lemma_before_irreflexive(k);
    if i < j {
        assert(text::before(keys[i], keys[j]));
    } else if j < i {
        assert(text::before(keys[j], keys[i]));
    }
}

proof fn lemma_ascending_inserts(keys: Seq<Seq<char>>, at: int, key: Seq<char>)
    requires
        ascending(keys),
        0 <= at <= keys.len(),
        forall|i: int| 0 <= i < at ==> #[trigger] text::before(keys[i], key),
        at < keys.len() ==> text::before(key, keys[at]),
    ensures
        ascending(keys.insert(at, key)),
{
    let new = keys.insert(at, key);
    assert forall|i: int, j: int| 0 <= i < j < new.len() implies #[trigger] text::before(
        new[i],
        new[j],
    ) by {
        if j == at {
            assert(text::before(keys[i], key));
        } else if i == at {
            assert(new[j] == keys[j - 1]);
            if j - 1 > at {
                assert(text::before(keys[at], keys[j - 1]));
                text::lemma_before_transitive(key, keys[at], keys[j - 1]);
            }
        } else {
            let a = if i < at {
                i
            } else {
                i - 1
            };
            let b = if j < at {
                j
            } else {
                j - 1
            };
            assert(text::before(keys[a], keys[b]));
        }
    }
}

impl<V> Table<V> {
    pub closed spec fn wf(&self) -> bool {
        &&& self.keys@.len() == self.values@.len()
        &&& ascending(texts(self.keys@))
    }

    /// The keys, in text order.
    pub closed spec fn order(&self) -> Seq<Seq<char>> {
        texts(self.keys@)
    }

    /// The keys in order are ascending, and they are the keys of the map.
    pub proof fn lemma_order(&self)
        requires
            self.wf(),
        ensures
            ascending(self.order()),
            forall|k: Seq<char>| #[trigger] self@.contains_key(k) <==> self.order().contains(k),
    {
    }

    pub fn new() -> (t: Self)
        ensures
            t.wf(),
            t@ == Map::<Seq<char>, V>::empty(),
            t.order() == Seq::<Seq<char>>::empty(),
    {
        let t = Table { keys: Vec::new(), values: Vec::new() };
        assert(t@ =~= Map::<Seq<char>, V>::empty());
        assert(t.order() =~= Seq::<Seq<char>>::empty());
        t
    }

    pub fn len(&self) -> (n: usize)
        requires
            self.wf(),
        ensures
            n == self.order().len(),
    {
        self.keys.len()
    }

    /// Where a key stands, or where it would.
    fn position(&self, key: &str) -> (r: (bool, usize))
        requires
            self.wf(),
        ensures
            r.1 <= self.keys@.len(),
            r.0 ==> r.1 < self.keys@.len() && self.keys@[r.1 as int]@ == key@,
            r.0 == self@.contains_key(key@),
            !r.0 ==> forall|i: int|
                0 <= i < r.1 ==> #[trigger] text::before(texts(self.keys@)[i], key@),
            !r.0 && r.1 < self.keys@.len() ==> text::before(key@, self.keys@[r.1 as int]@),
    {
        let ghost keys = texts(self.keys@);
        let mut i: usize = 0;
        while i < self.keys.len()
            invariant
                self.wf(),
                keys == texts(self.keys@),
                i <= self.keys@.len(),
                forall|j: int| 0 <= j < i ==> #[trigger] text::before(keys[j], key@),
            decreases self.keys.len() - i,
        {
            if text::same(self.keys[i].as_str(), key) {
                proof {
                    lemma_ascending_once(keys, i as int);
                }
                return (true, i);
            }
            if text::comes_before(key, self.keys[i].as_str()) {
                proof {
                    assert forall|j: int| 0 <= j < keys.len() implies keys[j] != key@ by {
                        text::lemma_before_irreflexive(key@);
                        if j < i {
                            assert(text::before(keys[j], key@));
                        } else if j > i {
                            assert(text::before(keys[i as int], keys[j]));
                            text::lemma_before_transitive(key@, keys[i as int], keys[j]);
                        }
                    }
                }
                return (false, i);
            }
            proof {
                text::lemma_before_total(key@, keys[i as int]);
            }
            i += 1;
        }
        proof {
            assert forall|j: int| 0 <= j < keys.len() implies keys[j] != key@ by {
                text::lemma_before_irreflexive(key@);
                assert(text::before(keys[j], key@));
            }
        }
        (false, i)
    }

    pub fn contains(&self, key: &str) -> (r: bool)
        requires
            self.wf(),
        ensures
            r == self@.contains_key(key@),
    {
        self.position(key).0
    }

    pub fn get(&self, key: &str) -> (r: Option<&V>)
        requires
            self.wf(),
        ensures
            match r {
                Some(v) => self@.contains_key(key@) && *v == self@[key@],
                None => !self@.contains_key(key@),
            },
    {
        let (found, at) = self.position(key);
        if found {
            proof {
                lemma_ascending_once(texts(self.keys@), at as int);
            }
            Some(&self.values[at])
        } else {
            None
        }
    }

    /// The value at a key, to be changed in place.
    pub fn get_mut(&mut self, key: &str) -> (r: Option<&mut V>)
        requires
            old(self).wf(),
        ensures
            final(self).wf(),
            match r {
                Some(v) => {
                    &&& old(self)@.contains_key(key@)
                    &&& *v == old(self)@[key@]
                    &&& final(self)@ == old(self)@.insert(key@, *final(v))
                    &&& final(self).order() == old(self).order()
                },
                None => !old(self)@.contains_key(key@) && *final(self) == *old(self),
            },
    {
        let (found, at) = self.position(key);
        if found {
            let ghost keys = texts(self.keys@);
            let ghost values = self.values@;
            proof {
                lemma_ascending_once(keys, at as int);
                assert forall|v: V| paired(keys, #[trigger] values.update(at as int, v)) == paired(
                    keys,
                    values,
                ).insert(key@, v) by {
                    lemma_paired_updates(keys, values, at as int, v);
                }
            }
            Some(&mut self.values[at])
        } else {
            None
        }
    }

    /// Puts a value at a key, in place of what was there.
    pub fn insert(&mut self, key: String, value: V)
        requires
            old(self).wf(),
        ensures
            final(self).wf(),
            final(self)@ == old(self)@.insert(key@, value),
            final(self).order() == placed(old(self).order(), key@),
    {
        let (found, at) = self.position(key.as_str());
        let ghost keys = texts(self.keys@);
        let ghost values = self.values@;
        if found {
            proof {
                lemma_ascending_once(keys, at as int);
                lemma_placed_there(keys, at as int);
                lemma_paired_updates(keys, values, at as int, value);
            }
            self.values.set(at, value);
        } else {
            proof {
                lemma_ascending_inserts(keys, at as int, key@);
                lemma_placed_new(keys, at as int, key@);
                lemma_paired_inserts(keys, values, at as int, key@, value);
            }
            let ghost text_of_key = key@;
            self.keys.insert(at, key);
            self.values.insert(at, value);
            assert(texts(self.keys@) =~= keys.insert(at as int, text_of_key));
        }
    }

    /// Takes a key and its value out.
    pub fn remove(&mut self, key: &str) -> (r: Option<V>)
        requires
            old(self).wf(),
        ensures
            final(self).wf(),
            final(self)@ == old(self)@.remove(key@),
            match r {
                Some(v) => old(self)@.contains_key(key@) && v == old(self)@[key@],
                None => !old(self)@.contains_key(key@),
            },
    {
        let (found, at) = self.position(key);
        let ghost keys = texts(self.keys@);
        let ghost values = self.values@;
        if found {
            proof {
                lemma_ascending_once(keys, at as int);
                lemma_paired_removes(keys, values, at as int);
            }
            self.keys.remove(at);
            let v = self.values.remove(at);
            assert(texts(self.keys@) =~= keys.remove(at as int));
            Some(v)
        } else {
            assert(self@.remove(key@) =~= self@);
            None
        }
    }

    pub fn clear(&mut self)
        requires
            old(self).wf(),
        ensures
            final(self).wf(),
            final(self)@ == Map::<Seq<char>, V>::empty(),
    {
        self.keys.clear();
        self.values.clear();
        assert(self@ =~= Map::<Seq<char>, V>::empty());
    }

    /// The key at a place of the order.
    pub fn key_at(&self, i: usize) -> (k: &String)
        requires
            self.wf(),
            i < self.order().len(),
        ensures
            k@ == self.order()[i as int],
    {
        &self.keys[i]
    }

    /// The value at a place of the order.
    pub fn value_at(&self, i: usize) -> (v: &V)
        requires
            self.wf(),
            i < self.order().len(),
        ensures
            self@.contains_key(self.order()[i as int]),
            *v == self@[self.order()[i as int]],
    {
        proof {
            lemma_ascending_once(texts(self.keys@), i as int);
        }
        &self.values[i]
    }
}

proof fn lemma_paired_updates<V>(keys: Seq<Seq<char>>, values: Seq<V>, at: int, v: V)
    requires
        ascending(keys),
        keys.len() == values.len(),
        0 <= at < keys.len(),
    ensures
        paired(keys, values.update(at, v)) == paired(keys, values).insert(keys[at], v),
{
    lemma_ascending_once(keys, at);
    let a = paired(keys, values.update(at, v));
    let b = paired(keys, values).insert(keys[at], v);
    assert forall|k: Seq<char>| #[trigger] a.contains_key(k) implies a[k] == b[k] by {
        let j = keys.index_of(k);
        assert(keys[j] == k);
    }
    assert(a =~= b);
}

proof fn lemma_paired_inserts<V>(
    keys: Seq<Seq<char>>,
    values: Seq<V>,
    at: int,
    key: Seq<char>,
    v: V,
)
    requires
        ascending(keys),
        ascending(keys.insert(at, key)),
        keys.len() == values.len(),
        0 <= at <= keys.len(),
    ensures
        paired(keys.insert(at, key), values.insert(at, v)) == paired(keys, values).insert(key, v),
{
    let new_keys = keys.insert(at, key);
    let a = paired(new_keys, values.insert(at, v));
    let b = paired(keys, values).insert(key, v);
    lemma_ascending_once(new_keys, at);
    assert forall|k: Seq<char>|
        #![trigger a.dom().contains(k)]
        #![trigger b.dom().contains(k)]
        a.dom().contains(k) == b.dom().contains(k) && (a.dom().contains(k) ==> a[k] == b[k]) by {
        if k != key {
            if new_keys.contains(k) {
                let j = new_keys.index_of(k);
                let i = if j < at {
                    j
                } else {
                    j - 1
                };
                assert(new_keys[j] == k);
                assert(keys[i] == k);
                lemma_ascending_once(keys, i);
            }
            if keys.contains(k) {
                let i = keys.index_of(k);
                let j = if i < at {
                    i
                } else {
                    i + 1
                };
                assert(new_keys[j] == k);
                lemma_ascending_once(new_keys, j);
            }
        }
    }
    assert(a =~= b);
}

proof fn lemma_paired_removes<V>(keys: Seq<Seq<char>>, values: Seq<V>, at: int)
    requires
        ascending(keys),
        keys.len() == values.len(),
        0 <= at < keys.len(),
    ensures
        ascending(keys.remove(at)),
        paired(keys.remove(at), values.remove(at)) == paired(keys, values).remove(keys[at]),
{
    let new_keys = keys.remove(at);
    assert forall|i: int, j: int| 0 <= i < j < new_keys.len() implies #[trigger] text::before(
        new_keys[i],
        new_keys[j],
    ) by {
        let a = if i < at {
            i
        } else {
            i + 1
        };
        let b = if j < at {
            j
        } else {
            j + 1
        };
        assert(text::before(keys[a], keys[b]));
    }
    let a = paired(new_keys, values.remove(at));
    let b = paired(keys, values).remove(keys[at]);
    lemma_ascending_once(keys, at);
    assert forall|k: Seq<char>|
        #![trigger a.dom().contains(k)]
        #![trigger b.dom().contains(k)]
        a.dom().contains(k) == b.dom().contains(k) && (a.dom().contains(k) ==> a[k] == b[k]) by {
        if new_keys.contains(k) {
            let j = new_keys.index_of(k);
            let i = if j < at {
                j
            } else {
                j + 1
            };
            assert(new_keys[j] == k);
            assert(keys[i] == k);
            lemma_ascending_once(keys, i);
        }
        if keys.contains(k) && k != keys[at] {
            let i = keys.index_of(k);
            let j = if i < at {
                i
            } else {
                i - 1
            };
            assert(new_keys[j] == k);
            lemma_ascending_once(new_keys, j);
        }
    }
    assert(a =~= b);
}

} // verus!
