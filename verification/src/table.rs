//! Tables keyed by text and kept in the order of their keys.
use vstd::prelude::*;

use crate::error::pair_views;
use crate::text::{chars_of, views};

verus! {

/// The order of texts: by the first character in which they differ, a shorter text before the
/// texts that it starts.
pub open spec fn text_less(a: Seq<char>, b: Seq<char>) -> bool
    decreases a.len(),
{
    if b.len() == 0 {
        false
    } else if a.len() == 0 {
        true
    } else if a.first() != b.first() {
        a.first() < b.first()
    } else {
        text_less(a.drop_first(), b.drop_first())
    }
}

/// How two texts stand to each other in the order of texts.
#[derive(Clone, Copy, Debug, PartialEq, Eq, Structural)]
pub enum Order {
    /// The first one comes first.
    Before,
    /// The two are the same.
    Same,
    /// The second one comes first.
    After,
}

/// No text comes before itself.
pub proof fn lemma_less_irreflexive(a: Seq<char>)
    ensures
        !text_less(a, a),
    decreases a.len(),
{
    if a.len() > 0 {
        lemma_less_irreflexive(a.drop_first());
    }
}

/// The order is transitive.
pub proof fn lemma_less_transitive(a: Seq<char>, b: Seq<char>, c: Seq<char>)
    requires
        text_less(a, b),
        text_less(b, c),
    ensures
        text_less(a, c),
    decreases a.len(),
{
    if a.len() > 0 && a.first() == b.first() && b.first() == c.first() {
        lemma_less_transitive(a.drop_first(), b.drop_first(), c.drop_first());
    }
}

/// Of two different texts one comes before the other.
pub proof fn lemma_less_total(a: Seq<char>, b: Seq<char>)
    ensures
        a == b || text_less(a, b) || text_less(b, a),
    decreases a.len(),
{
    if a.len() > 0 && b.len() > 0 && a.first() == b.first() {
        lemma_less_total(a.drop_first(), b.drop_first());
        if a.drop_first() == b.drop_first() {
            assert(a =~= seq![a.first()] + a.drop_first());
            assert(b =~= seq![b.first()] + b.drop_first());
        }
    } else if a.len() == 0 && b.len() == 0 {
        assert(a =~= b);
    }
}

/// Finds out how `a` and `b` stand to each other.
pub fn compare(a: &str, b: &str) -> (r: Order)
    ensures
        r == Order::Same <==> a@ == b@,
        r == Order::Before <==> text_less(a@, b@),
        r == Order::After <==> text_less(b@, a@),
{
    let x = chars_of(a);
    let y = chars_of(b);
    let mut i: usize = 0;
    proof {
        assert(a@.skip(0) =~= a@);
        assert(b@.skip(0) =~= b@);
        lemma_less_irreflexive(a@);
    }
    while i < x.len() && i < y.len() && x[i] == y[i]
        invariant
            i <= x.len(),
            i <= y.len(),
            x@ == a@,
            y@ == b@,
            a@.take(i as int) == b@.take(i as int),
            text_less(a@, b@) == text_less(a@.skip(i as int), b@.skip(i as int)),
            text_less(b@, a@) == text_less(b@.skip(i as int), a@.skip(i as int)),
        decreases x.len() - i,
    {
        proof {
            assert(a@.skip(i as int).drop_first() =~= a@.skip(i + 1));
            assert(b@.skip(i as int).drop_first() =~= b@.skip(i + 1));
            assert(a@.take(i + 1) =~= a@.take(i as int).push(a@[i as int]));
            assert(b@.take(i + 1) =~= b@.take(i as int).push(b@[i as int]));
        }
        i = i + 1;
    }
    if i < x.len() {
        if i < y.len() {
            if x[i] < y[i] {
                Order::Before
            } else {
                Order::After
            }
        } else {
            Order::After
        }
    } else if i < y.len() {
        Order::Before
    } else {
        proof {
            assert(a@.take(i as int) =~= a@);
            assert(b@.take(i as int) =~= b@);
        }
        Order::Same
    }
}

/// Tells whether two texts are the same.
pub fn same(a: &str, b: &str) -> (r: bool)
    ensures
        r == (a@ == b@),
{
    match compare(a, b) {
        Order::Same => true,
        _ => false,
    }
}

/// The keys of a sequence of entries.
pub open spec fn keys_of<V>(entries: Seq<(String, V)>) -> Seq<Seq<char>> {
    entries.map_values(|e: (String, V)| e.0@)
}

/// Whether each key comes before the ones that follow it.
pub open spec fn ascending(keys: Seq<Seq<char>>) -> bool {
    forall|i: int, j: int|
        0 <= i < j < keys.len() ==> text_less(#[trigger] keys[i], #[trigger] keys[j])
}

/// A map from texts to values, kept in the order of its keys.
#[derive(Debug, PartialEq, Eq)]
pub struct Table<V> {
    entries: Vec<(String, V)>,
}

impl<V> View for Table<V> {
    type V = Map<Seq<char>, V>;

    closed spec fn view(&self) -> Map<Seq<char>, V> {
        Map::new(
            |k: Seq<char>| keys_of(self.entries@).contains(k),
            |k: Seq<char>| self.entries@[keys_of(self.entries@).index_of(k)].1,
        )
    }
}

impl<V> Table<V> {
    #[verifier::type_invariant]
    spec fn ordered(self) -> bool {
        ascending(keys_of(self.entries@))
    }

    /// The keys, in their order.
    pub closed spec fn keys(self) -> Seq<Seq<char>> {
        keys_of(self.entries@)
    }

    /// The keys are those of the map, each once and in order.
    pub open spec fn consistent(self) -> bool {
        &&& ascending(self.keys())
        &&& self@.dom() == self.keys().to_set()
        &&& self.keys().no_duplicates()
    }

    proof fn lemma_entry(self, i: int)
        requires
            self.ordered(),
            0 <= i < self.entries@.len(),
        ensures
            self@.contains_key(self.entries@[i].0@),
            self@[self.entries@[i].0@] == self.entries@[i].1,
            self.keys()[i] == self.entries@[i].0@,
    {
        let keys = keys_of(self.entries@);
        let k = self.entries@[i].0@;
        assert(keys[i] == k);
        assert(keys.contains(k));
        let j = keys.index_of(k);
        assert(0 <= j < keys.len() && keys[j] == k);
        lemma_less_irreflexive(k);
    }

    proof fn lemma_consistent(self)
        requires
            self.ordered(),
        ensures
            self.consistent(),
    {
        let keys = self.keys();
        assert forall|i: int, j: int|
            0 <= i < keys.len() && 0 <= j < keys.len() && i != j implies keys[i] != keys[j] by {
            lemma_less_irreflexive(keys[i]);
        }
        assert(self@.dom() =~= keys.to_set());
    }

    /// An empty table.
    pub fn new() -> (r: Self)
        ensures
            r@ == Map::<Seq<char>, V>::empty(),
            r.keys() == Seq::<Seq<char>>::empty(),
    {
        let r = Table { entries: Vec::new() };
        proof {
            assert(r@ =~= Map::<Seq<char>, V>::empty());
            assert(r.keys() =~= Seq::<Seq<char>>::empty());
        }
        r
    }

    /// The number of entries.
    pub fn len(&self) -> (r: usize)
        ensures
            r == self.keys().len(),
            self.consistent(),
    {
        proof {
            use_type_invariant(self);
            self.lemma_consistent();
        }
        self.entries.len()
    }

    /// The key at position `i`.
    pub fn key_at(&self, i: usize) -> (r: &String)
        requires
            i < self.keys().len(),
        ensures
            r@ == self.keys()[i as int],
            self@.contains_key(r@),
    {
        proof {
            use_type_invariant(self);
            self.lemma_entry(i as int);
        }
        &self.entries[i].0
    }

    /// The value at position `i`.
    pub fn value_at(&self, i: usize) -> (r: &V)
        requires
            i < self.keys().len(),
        ensures
            *r == self@[self.keys()[i as int]],
    {
        proof {
            use_type_invariant(self);
            self.lemma_entry(i as int);
        }
        &self.entries[i].1
    }

    /// The position of `key`, or the one at which it would have to be inserted.
    fn search(&self, key: &str) -> (r: (usize, bool))
        ensures
            self.ordered(),
            r.0 <= self.entries@.len(),
            r.1 ==> r.0 < self.entries@.len() && self.entries@[r.0 as int].0@ == key@,
            !r.1 ==> !self@.contains_key(key@),
            forall|i: int| 0 <= i < r.0 ==> text_less(#[trigger] self.keys()[i], key@),
            !r.1 ==> forall|i: int|
                r.0 <= i < self.keys().len() ==> text_less(key@, #[trigger] self.keys()[i]),
    {
        proof {
            use_type_invariant(self);
        }
        let mut i: usize = 0;
        while i < self.entries.len()
            invariant
                self.ordered(),
                i <= self.entries@.len(),
                forall|j: int| 0 <= j < i ==> text_less(#[trigger] self.keys()[j], key@),
            decreases self.entries@.len() - i,
        {
            let ghost here = self.keys()[i as int];
            match compare(self.entries[i].0.as_str(), key) {
                Order::Before => {
                    assert(text_less(here, key@));
                },
                Order::Same => {
                    return (i, true);
                },
                Order::After => {
                    proof {
                        assert forall|j: int| i <= j < self.keys().len() implies text_less(
                            key@,
                            #[trigger] self.keys()[j],
                        ) by {
                            if j > i {
                                assert(text_less(self.keys()[i as int], self.keys()[j]));
                                lemma_less_transitive(key@, here, self.keys()[j]);
                            }
                        }
                        lemma_less_irreflexive(key@);
                    }
                    return (i, false);
                },
            }
            i = i + 1;
        }
        proof {
            lemma_less_irreflexive(key@);
            assert forall|j: int| 0 <= j < self.keys().len() implies #[trigger] self.keys()[j]
                != key@ by {}
        }
        (i, false)
    }

    /// The value of `key`, if it has one.
    pub fn get(&self, key: &str) -> (r: Option<&V>)
        ensures
            match r {
                Some(v) => self@.contains_key(key@) && *v == self@[key@],
                None => !self@.contains_key(key@),
            },
    {
        let (i, found) = self.search(key);
        if found {
            proof {
                self.lemma_entry(i as int);
            }
            Some(&self.entries[i].1)
        } else {
            None
        }
    }

    /// Sets the value of `key` and gives back the one that it had, if any.
    pub fn insert(&mut self, key: String, value: V) -> (r: Option<V>)
        ensures
            final(self)@ == old(self)@.insert(key@, value),
            match r {
                Some(v) => old(self)@.contains_key(key@) && v == old(self)@[key@],
                None => !old(self)@.contains_key(key@),
            },
    {
        let ghost before = *self;
        let (i, found) = self.search(key.as_str());
        let mut entries: Vec<(String, V)> = Vec::new();
        std::mem::swap(&mut entries, &mut self.entries);
        let ghost name = key@;
        let r = if found {
            proof {
                before.lemma_entry(i as int);
            }
            Some(entries.remove(i).1)
        } else {
            None
        };
        entries.insert(i, (key, value));
        proof {
            let table = Table { entries };
            let keys = table.keys();
            let old_keys = before.keys();
            if found {
                assert(keys =~= old_keys);
            } else {
                assert(keys =~= old_keys.insert(i as int, name));
                assert forall|a: int, b: int| 0 <= a < b < keys.len() implies text_less(
                    #[trigger] keys[a],
                    #[trigger] keys[b],
                ) by {
                    if b < i {
                        assert(keys[a] == old_keys[a] && keys[b] == old_keys[b]);
                    } else if a < i {
                        assert(keys[a] == old_keys[a]);
                        if b > i {
                            assert(keys[b] == old_keys[b - 1]);
                        }
                    } else {
                        assert(keys[b] == old_keys[b - 1]);
                        if a > i {
                            assert(keys[a] == old_keys[a - 1]);
                        }
                    }
                }
            }
            assert(table.ordered());
            assert(table@ =~= before@.insert(name, value)) by {
                assert forall|k: Seq<char>| #[trigger]
                    table@.contains_key(k) == before@.insert(name, value).contains_key(k) by {
                    if keys.contains(k) {
                        let a = keys.index_of(k);
                        if found || a < i {
                            assert(keys[a] == k);
                            if a != i {
                                assert(old_keys[a] == k);
                            }
                        } else if a > i {
                            assert(old_keys[a - 1] == k);
                        }
                    }
                    if old_keys.contains(k) {
                        let a = old_keys.index_of(k);
                        if found || a < i {
                            assert(keys[a] == k);
                        } else {
                            assert(keys[a + 1] == k);
                        }
                    }
                    assert(keys[i as int] == name);
                }
                assert forall|k: Seq<char>| #[trigger] table@.contains_key(k) implies table@[k]
                    == before@.insert(name, value)[k] by {
                    let a = keys.index_of(k);
                    assert(keys[a] == k);
                    table.lemma_entry(a);
                    if a == i {
                        assert(k == name);
                    } else {
                        let b = if found || a < i {
                            a
                        } else {
                            a - 1
                        };
                        assert(old_keys[b] == k);
                        before.lemma_entry(b);
                        if k == name {
                            lemma_less_irreflexive(k);
                            assert(text_less(keys[a], keys[i as int]) || text_less(
                                keys[i as int],
                                keys[a],
                            ));
                        }
                    }
                }
            }
        }
        self.entries = entries;
        r
    }

    /// Takes `key` out of the table and gives back its value, if it had one.
    pub fn remove(&mut self, key: &str) -> (r: Option<V>)
        ensures
            final(self)@ == old(self)@.remove(key@),
            match r {
                Some(v) => old(self)@.contains_key(key@) && v == old(self)@[key@],
                None => !old(self)@.contains_key(key@),
            },
    {
        let ghost before = *self;
        let (i, found) = self.search(key);
        if !found {
            proof {
                assert(self@ =~= old(self)@.remove(key@));
            }
            return None;
        }
        let mut entries: Vec<(String, V)> = Vec::new();
        std::mem::swap(&mut entries, &mut self.entries);
        let (_, value) = entries.remove(i);
        proof {
            before.lemma_entry(i as int);
            let table = Table { entries };
            let keys = table.keys();
            let old_keys = before.keys();
            assert(keys =~= old_keys.remove(i as int));
            assert(table.ordered());
            assert(table@ =~= before@.remove(key@)) by {
                assert forall|k: Seq<char>| #[trigger]
                    table@.contains_key(k) == before@.remove(key@).contains_key(k) by {
                    if keys.contains(k) {
                        let a = keys.index_of(k);
                        let b = if a < i {
                            a
                        } else {
                            a + 1
                        };
                        assert(old_keys[b] == k);
                        if k == key@ {
                            lemma_less_irreflexive(k);
                            assert(text_less(old_keys[b], old_keys[i as int]) || text_less(
                                old_keys[i as int],
                                old_keys[b],
                            ));
                        }
                    }
                    if old_keys.contains(k) && k != key@ {
                        let b = old_keys.index_of(k);
                        let a = if b < i {
                            b
                        } else {
                            b - 1
                        };
                        assert(keys[a] == k);
                    }
                }
                assert forall|k: Seq<char>| #[trigger] table@.contains_key(k) implies table@[k]
                    == before@.remove(key@)[k] by {
                    let a = keys.index_of(k);
                    assert(keys[a] == k);
                    table.lemma_entry(a);
                    let b = if a < i {
                        a
                    } else {
                        a + 1
                    };
                    assert(old_keys[b] == k);
                    before.lemma_entry(b);
                }
            }
        }
        self.entries = entries;
        Some(value)
    }

    /// The keys, in their order.
    pub fn key_texts(&self) -> (r: Vec<String>)
        ensures
            views(r@) == self.keys(),
            self.consistent(),
    {
        let n: usize = self.len();
        let mut r: Vec<String> = Vec::new();
        let mut i: usize = 0;
        while i < n
            invariant
                i <= n,
                n == self.keys().len(),
                views(r@) == self.keys().take(i as int),
            decreases n - i,
        {
            let ghost before = r@;
            r.push(self.key_at(i).clone());
            proof {
                assert(views(r@) =~= views(before).push(self.keys()[i as int]));
                assert(self.keys().take(i + 1) =~= self.keys().take(i as int).push(
                    self.keys()[i as int],
                ));
            }
            i = i + 1;
        }
        proof {
            assert(self.keys().take(n as int) =~= self.keys());
        }
        r
    }
}

/// A table of texts as the texts that it holds.
pub open spec fn text_map(m: Map<Seq<char>, String>) -> Map<Seq<char>, Seq<char>> {
    m.map_values(|t: String| t@)
}

/// The entries of a table of texts, in the order of their keys.
pub open spec fn listing(table: Table<String>) -> Seq<(Seq<char>, Seq<char>)> {
    table.keys().map_values(|k: Seq<char>| (k, table@[k]@))
}

impl Table<String> {
    /// The entries, in the order of their keys.
    pub fn pairs(&self) -> (r: Vec<(String, String)>)
        ensures
            pair_views(r@) == listing(*self),
    {
        let n: usize = self.len();
        let mut r: Vec<(String, String)> = Vec::new();
        let mut i: usize = 0;
        while i < n
            invariant
                i <= n,
                n == self.keys().len(),
                pair_views(r@) == listing(*self).take(i as int),
            decreases n - i,
        {
            let ghost before = r@;
            let key = self.key_at(i).clone();
            let value = self.value_at(i).clone();
            r.push((key, value));
            proof {
                assert(listing(*self)[i as int] == (key@, value@));
                assert(pair_views(r@) =~= pair_views(before).push((key@, value@)));
                assert(listing(*self).take(i + 1) =~= listing(*self).take(i as int).push(
                    listing(*self)[i as int],
                ));
            }
            i = i + 1;
        }
        proof {
            assert(listing(*self).take(n as int) =~= listing(*self));
        }
        r
    }
}

impl Clone for Table<String> {
    fn clone(&self) -> (r: Table<String>)
        ensures
            r@ == self@,
            r.keys() == self.keys(),
    {
        proof {
            use_type_invariant(self);
        }
        let mut entries: Vec<(String, String)> = Vec::new();
        let mut i: usize = 0;
        while i < self.entries.len()
            invariant
                i <= self.entries@.len(),
                entries@ == self.entries@.take(i as int),
            decreases self.entries@.len() - i,
        {
            let key = self.entries[i].0.clone();
            let value = self.entries[i].1.clone();
            entries.push((key, value));
            proof {
                assert(self.entries@.take(i + 1) =~= self.entries@.take(i as int).push(
                    self.entries@[i as int],
                ));
            }
            i = i + 1;
        }
        proof {
            assert(self.entries@.take(i as int) =~= self.entries@);
        }
        Table { entries }
    }
}

/// Texts are ordered by the first character in which they differ, and a text comes before the
/// longer ones that it starts.
pub proof fn law_first_difference_decides(
    common: Seq<char>,
    x: char,
    a: Seq<char>,
    y: char,
    b: Seq<char>,
)
    requires
        x != y,
    ensures
        text_less(common + seq![x] + a, common + seq![y] + b) <==> x < y,
        text_less(common, common + seq![y] + b),
        !text_less(common + seq![y] + b, common),
        !text_less(common, common),
    decreases common.len(),
{
    lemma_less_irreflexive(common);
    let p = common + seq![x] + a;
    let q = common + seq![y] + b;
    if common.len() > 0 {
        let c = common.drop_first();
        law_first_difference_decides(c, x, a, y, b);
        assert(p.drop_first() =~= c + seq![x] + a);
        assert(q.drop_first() =~= c + seq![y] + b);
        assert(p.first() == common.first() && q.first() == common.first());
    }
}

/// The keys of a table are those that it has a value for, each once and in the order of texts.
pub proof fn law_keys_are_in_order<V>(table: Table<V>, i: int, j: int)
    requires
        table.consistent(),
        0 <= i < table.keys().len(),
        0 <= j < table.keys().len(),
    ensures
        i < j ==> text_less(table.keys()[i], table.keys()[j]),
        i != j ==> table.keys()[i] != table.keys()[j],
        table@.contains_key(table.keys()[i]),
        forall|key: Seq<char>| #[trigger]
            table@.contains_key(key) ==> exists|k: int|
                0 <= k < table.keys().len() && #[trigger] table.keys()[k] == key,
{
    let keys = table.keys();
    assert(keys.to_set().contains(keys[i]));
    assert(table@.dom().contains(keys[i]));
    assert forall|key: Seq<char>| #[trigger] table@.contains_key(key) implies exists|k: int|
        0 <= k < keys.len() && #[trigger] keys[k] == key by {
        assert(table@.dom().contains(key));
        assert(keys[keys.index_of(key)] == key);
    }
}

/// The listing of a table of texts has each key with its value, in the order of the keys.
pub proof fn law_listing_has_each_entry(table: Table<String>, i: int)
    requires
        0 <= i < table.keys().len(),
    ensures
        listing(table).len() == table.keys().len(),
        listing(table)[i].0 == table.keys()[i],
        listing(table)[i].1 == table@[table.keys()[i]]@,
{
}

/// A table of texts, taken as the texts that it holds, has the same keys and values.
pub proof fn law_text_map_has_each_entry(m: Map<Seq<char>, String>, key: Seq<char>)
    ensures
        text_map(m).contains_key(key) <==> m.contains_key(key),
        m.contains_key(key) ==> text_map(m)[key] == m[key]@,
{
}

} // verus!
