//! Small maps and sets over keys that are compared by their contents.

use vstd::prelude::*;

verus! {

/// A key: two keys are the same where their views are.
pub trait Key: View + Sized {
    fn same(&self, other: &Self) -> (r: bool)
        ensures
            r == (self@ == other@),
    ;

    fn copied(&self) -> (r: Self)
        ensures
            r@ == self@,
    ;
}

impl Key for String {
    fn same(&self, other: &Self) -> (r: bool) {
        *self == *other
    }

    fn copied(&self) -> (r: Self) {
        self.clone()
    }
}

/// The pairs in order, a later pair in place of an earlier one with the same key.
pub open spec fn lookup<K: Key, T: View>(entries: Seq<(K, T)>) -> Map<K::V, T::V>
    decreases entries.len(),
{
    if entries.len() == 0 {
        Map::empty()
    } else {
        lookup(entries.drop_last()).insert(entries.last().0@, entries.last().1@)
    }
}

proof fn lemma_lookup_has<K: Key, T: View>(entries: Seq<(K, T)>, key: K::V)
    ensures
        lookup(entries).dom().contains(key) <==> exists|i: int|
            #![trigger entries[i]] 0 <= i < entries.len() && entries[i].0@ == key,
    decreases entries.len(),
{
    if entries.len() > 0 {
        let front = entries.drop_last();
        lemma_lookup_has(front, key);
        if lookup(entries).dom().contains(key) {
            if entries.last().0@ == key {
                assert(entries[entries.len() - 1].0@ == key);
            } else {
                let i = choose|i: int| #![trigger front[i]] 0 <= i < front.len() && front[i].0@ == key;
                assert(entries[i].0@ == key);
            }
        }
        if exists|i: int| #![trigger entries[i]] 0 <= i < entries.len() && entries[i].0@ == key {
            let i = choose|i: int| #![trigger entries[i]] 0 <= i < entries.len() && entries[i].0@ == key;
            if i < front.len() {
                assert(front[i].0@ == key);
            }
        }
    }
}

/// A pair that no later pair hides is what the lookup finds.
proof fn lemma_lookup_at<K: Key, T: View>(entries: Seq<(K, T)>, i: int)
    requires
        0 <= i < entries.len(),
        forall|j: int| #![trigger entries[j]] i < j < entries.len() ==> entries[j].0@ != entries[i].0@,
    ensures
        lookup(entries).dom().contains(entries[i].0@),
        lookup(entries)[entries[i].0@] == entries[i].1@,
    decreases entries.len(),
{
    if i < entries.len() - 1 {
        let front = entries.drop_last();
        assert(front[i] == entries[i]);
        assert forall|j: int| #![trigger front[j]] i < j < front.len() implies front[j].0@ != front[i].0@ by {
            assert(entries[j] == front[j]);
        }
        lemma_lookup_at(front, i);
        assert(entries[entries.len() - 1].0@ != entries[i].0@);
    }
}

/// Dropping a pair hidden by none and hiding none removes its key.
proof fn lemma_lookup_without<K: Key, T: View>(entries: Seq<(K, T)>, i: int)
    requires
        0 <= i < entries.len(),
        forall|j: int| #![trigger entries[j]] i < j < entries.len() ==> entries[j].0@ != entries[i].0@,
    ensures
        lookup(entries.remove(i)).remove(entries[i].0@) =~= lookup(entries).remove(entries[i].0@),
    decreases entries.len(),
{
    if i == entries.len() - 1 {
        assert(entries.remove(i) =~= entries.drop_last());
    } else {
        let front = entries.drop_last();
        assert(front[i] == entries[i]);
        assert forall|j: int| #![trigger front[j]] i < j < front.len() implies front[j].0@ != front[i].0@ by {
            assert(entries[j] == front[j]);
        }
        lemma_lookup_without(front, i);
        assert(entries.remove(i).drop_last() =~= front.remove(i));
        assert(entries.remove(i).last() == entries.last());
        assert(entries[entries.len() - 1].0@ != entries[i].0@);
        let (a, b, k) = (lookup(front.remove(i)), lookup(front), entries[i].0@);
        assert forall|x: K::V| x != k implies a.dom().contains(x) == b.dom().contains(x) && (a.dom().contains(x)
            ==> #[trigger] a[x] == b[x]) by {
            assert(a.remove(k).dom().contains(x) == b.remove(k).dom().contains(x));
            if a.dom().contains(x) {
                assert(a.remove(k)[x] == b.remove(k)[x]);
            }
        }
        assert forall|x: K::V| x != k implies #[trigger] a.dom().contains(x) == b.dom().contains(x) by {
            assert(a.remove(k).dom().contains(x) == b.remove(k).dom().contains(x));
        }
        assert(lookup(entries.remove(i)).remove(k) =~= lookup(entries).remove(k));
    }
}

/// A map from keys to values.
#[derive(Debug, Clone)]
pub struct Table<K, T> {
    entries: Vec<(K, T)>,
}

impl<K: Key, T: View> View for Table<K, T> {
    type V = Map<K::V, T::V>;

    closed spec fn view(&self) -> Map<K::V, T::V> {
        lookup(self.entries@)
    }
}

impl<K: Key, T: View> Table<K, T> {
    pub fn new() -> (r: Self)
        ensures
            r@ == Map::<K::V, T::V>::empty(),
    {
        Table { entries: Vec::new() }
    }

    /// The place of the pair that counts for `key`.
    fn find(&self, key: &K) -> (r: Option<usize>)
        ensures
            match r {
                Some(i) => {
                    &&& i < self.entries.len()
                    &&& self.entries@[i as int].0@ == key@
                    &&& self@.dom().contains(key@)
                    &&& self@[key@] == self.entries@[i as int].1@
                    &&& forall|j: int| #![trigger self.entries@[j]] i < j < self.entries.len() ==> self.entries@[j].0@
                        != key@
                },
                None => !self@.dom().contains(key@) && forall|j: int| #![trigger self.entries@[j]]
                    0 <= j < self.entries.len() ==> self.entries@[j].0@ != key@,
            },
    {
        let mut i: usize = self.entries.len();
        while i > 0
            invariant
                i <= self.entries.len(),
                forall|j: int| #![trigger self.entries@[j]] i <= j < self.entries.len() ==> self.entries@[j].0@ != key@,
            decreases i,
        {
            i = i - 1;
            if self.entries[i].0.same(key) {
                proof {
                    lemma_lookup_at(self.entries@, i as int);
                }
                return Some(i);
            }
        }
        proof {
            lemma_lookup_has(self.entries@, key@);
        }
        None
    }

    pub fn get(&self, key: &K) -> (r: Option<&T>)
        ensures
            match r {
                Some(value) => self@.dom().contains(key@) && self@[key@] == value@,
                None => !self@.dom().contains(key@),
            },
    {
        match self.find(key) {
            Some(i) => Some(&self.entries[i].1),
            None => None,
        }
    }

    pub fn contains(&self, key: &K) -> (r: bool)
        ensures
            r == self@.dom().contains(key@),
    {
        self.find(key).is_some()
    }

    /// Remove a key, and hand out what it was mapped to.
    pub fn remove(&mut self, key: &K) -> (r: Option<T>)
        ensures
            final(self)@ == old(self)@.remove(key@),
            match r {
                Some(value) => old(self)@.dom().contains(key@) && old(self)@[key@] == value@,
                None => !old(self)@.dom().contains(key@),
            },
    {
        let mut out: Option<T> = None;
        let ghost start = self@;
        let mut found: Option<usize> = self.find(key);
        while found.is_some()
            invariant
                start == old(self)@,
                self@.remove(key@) == start.remove(key@),
                match found {
                    Some(i) => {
                        &&& i < self.entries.len()
                        &&& self.entries@[i as int].0@ == key@
                        &&& self@.dom().contains(key@)
                        &&& self@[key@] == self.entries@[i as int].1@
                        &&& forall|j: int| #![trigger self.entries@[j]] i < j < self.entries.len()
                            ==> self.entries@[j].0@ != key@
                    },
                    None => !self@.dom().contains(key@),
                },
                match out {
                    Some(value) => start.dom().contains(key@) && start[key@] == value@,
                    None => self@ == start,
                },
            decreases self.entries.len(),
        {
            let i: usize = found.unwrap();
            let ghost before = self.entries@;
            proof {
                lemma_lookup_without(before, i as int);
            }
            let (_, value) = self.entries.remove(i);
            if out.is_none() {
                out = Some(value);
            }
            found = self.find(key);
        }
        proof {
            assert(self@ =~= self@.remove(key@));
        }
        out
    }

    pub fn insert(&mut self, key: K, value: T)
        ensures
            final(self)@ == old(self)@.insert(key@, value@),
    {
        let _ = self.remove(&key);
        let ghost before = self.entries@;
        self.entries.push((key, value));
        proof {
            assert(self.entries@.drop_last() =~= before);
            assert(self@ =~= old(self)@.insert(key@, value@));
        }
    }

    /// All keys, each once.
    pub fn keys(&self) -> (r: Vec<K>)
        ensures
            distinct(r@),
            forall|k: K::V| #![trigger holds(r@, k)] holds(r@, k) <==> self@.dom().contains(k),
    {
        let mut out: Vec<K> = Vec::new();
        let mut n: usize = 0;
        while n < self.entries.len()
            invariant
                n <= self.entries.len(),
                distinct(out@),
                forall|k: K::V| #![trigger holds(out@, k)] holds(out@, k) <==> lookup(
                    self.entries@.take(n as int),
                ).dom().contains(k),
            decreases self.entries.len() - n,
        {
            let ghost before = out@;
            let ghost key = self.entries@[n as int].0@;
            proof {
                assert(self.entries@.take(n + 1).drop_last() =~= self.entries@.take(n as int));
            }
            if !is_held(&out, &self.entries[n].0) {
                let copy = self.entries[n].0.copied();
                proof {
                    lemma_holds_push(before, copy);
                    lemma_distinct_push(before, copy);
                }
                out.push(copy);
                proof {
                    assert forall|k: K::V| #![trigger holds(out@, k)] holds(out@, k) <==> lookup(
                        self.entries@.take(n + 1),
                    ).dom().contains(k) by {
                        assert(holds(before, k) <==> lookup(self.entries@.take(n as int)).dom().contains(k));
                    }
                }
            }
            n = n + 1;
        }
        proof {
            assert(self.entries@.take(self.entries.len() as int) =~= self.entries@);
        }
        out
    }
}

proof fn lemma_lookup_same<K: Key, T: View>(a: Seq<(K, T)>, b: Seq<(K, T)>)
    requires
        a.len() == b.len(),
        forall|i: int| #![trigger a[i], b[i]] 0 <= i < a.len() ==> a[i].0@ == b[i].0@ && a[i].1@ == b[i].1@,
    ensures
        lookup(a) == lookup(b),
    decreases a.len(),
{
    if a.len() > 0 {
        let (x, y) = (a.drop_last(), b.drop_last());
        assert forall|i: int| #![trigger x[i], y[i]] 0 <= i < x.len() implies x[i].0@ == y[i].0@ && x[i].1@ == y[i].1@ by {
            assert(a[i] == x[i] && b[i] == y[i]);
        }
        lemma_lookup_same(x, y);
        let last = a.len() - 1;
        assert(a[last].0@ == b[last].0@ && a[last].1@ == b[last].1@);
    }
}

impl<K: Key, T: Key> Table<K, T> {
    /// A map with the same pairs.
    pub fn copied(&self) -> (r: Self)
        ensures
            r@ == self@,
    {
        let mut entries: Vec<(K, T)> = Vec::new();
        let mut i: usize = 0;
        while i < self.entries.len()
            invariant
                i <= self.entries.len(),
                entries.len() == i,
                forall|k: int| #![trigger entries@[k], self.entries@[k]] 0 <= k < i ==> entries@[k].0@
                    == self.entries@[k].0@ && entries@[k].1@ == self.entries@[k].1@,
            decreases self.entries.len() - i,
        {
            entries.push((self.entries[i].0.copied(), self.entries[i].1.copied()));
            i = i + 1;
        }
        proof {
            lemma_lookup_same(entries@, self.entries@);
        }
        Table { entries }
    }
}

/// Copies of all keys of a list.
pub fn copied_keys<K: Key>(items: &Vec<K>) -> (out: Vec<K>)
    ensures
        out.len() == items.len(),
        forall|i: int| 0 <= i < out.len() ==> #[trigger] out@[i]@ == items@[i]@,
{
    let mut out: Vec<K> = Vec::new();
    let mut i: usize = 0;
    while i < items.len()
        invariant
            i <= items.len(),
            out.len() == i,
            forall|k: int| 0 <= k < i ==> #[trigger] out@[k]@ == items@[k]@,
        decreases items.len() - i,
    {
        out.push(items[i].copied());
        i = i + 1;
    }
    out
}

/// Remove every key of a list.
pub fn remove_all<K: Key, T: View>(table: &mut Table<K, T>, keys: &Vec<K>)
    ensures
        final(table)@ == old(table)@.remove_keys(held(keys@)),
{
    let mut i: usize = 0;
    proof {
        assert(old(table)@.remove_keys(held(keys@.take(0))) =~= old(table)@);
    }
    while i < keys.len()
        invariant
            i <= keys.len(),
            table@ == old(table)@.remove_keys(held(keys@.take(i as int))),
        decreases keys.len() - i,
    {
        table.remove(&keys[i]);
        proof {
            assert(keys@.take(i + 1) =~= keys@.take(i as int).push(keys@[i as int]));
            lemma_holds_push(keys@.take(i as int), keys@[i as int]);
            assert(held(keys@.take(i + 1)) =~= held(keys@.take(i as int)).insert(keys@[i as int]@));
            assert(table@ =~= old(table)@.remove_keys(held(keys@.take(i + 1))));
        }
        i = i + 1;
    }
    proof {
        assert(keys@.take(keys.len() as int) =~= keys@);
    }
}

/// Whether two maps of texts hold the same.
pub fn same_table(a: &Table<String, String>, b: &Table<String, String>) -> (r: bool)
    ensures
        r == (a@ == b@),
{
    if !within(a, b) {
        return false;
    }
    if !within(b, a) {
        return false;
    }
    proof {
        assert(a@ =~= b@);
    }
    true
}

/// Whether every pair of `a` is a pair of `b`.
pub fn within(a: &Table<String, String>, b: &Table<String, String>) -> (r: bool)
    ensures
        r == (forall|k: Seq<char>| #[trigger] a@.dom().contains(k) ==> b@.dom().contains(k) && b@[k] == a@[k]),
{
    let keys = a.keys();
    let mut i: usize = 0;
    while i < keys.len()
        invariant
            i <= keys.len(),
            forall|k: Seq<char>| #![trigger holds(keys@, k)] holds(keys@, k) <==> a@.dom().contains(k),
            forall|j: int| #![trigger keys@[j]] 0 <= j < i ==> b@.dom().contains(keys@[j]@) && b@[keys@[j]@]
                == a@[keys@[j]@],
        decreases keys.len() - i,
    {
        proof {
            assert(holds(keys@, keys@[i as int]@));
        }
        match (a.get(&keys[i]), b.get(&keys[i])) {
            (Some(x), Some(y)) => {
                if !x.same(y) {
                    return false;
                }
            },
            _ => {
                return false;
            },
        }
        i = i + 1;
    }
    proof {
        assert forall|k: Seq<char>| #[trigger] a@.dom().contains(k) implies b@.dom().contains(k) && b@[k] == a@[k] by {
            assert(holds(keys@, k));
        }
    }
    true
}

impl<K: Key, T: View> Default for Table<K, T> {
    fn default() -> (r: Self)
        ensures
            r@ == Map::<K::V, T::V>::empty(),
    {
        Table::new()
    }
}

/// A set of keys.
#[derive(Debug, Clone)]
pub struct KeySet<K> {
    items: Vec<K>,
}

impl<K: Key> View for KeySet<K> {
    type V = Set<K::V>;

    closed spec fn view(&self) -> Set<K::V> {
        Set::new(|k: K::V| holds(self.items@, k))
    }
}

impl<K: Key> KeySet<K> {
    pub fn new() -> (r: Self)
        ensures
            r@ == Set::<K::V>::empty(),
    {
        let r = KeySet { items: Vec::new() };
        proof {
            assert(r@ =~= Set::<K::V>::empty());
        }
        r
    }

    pub fn contains(&self, key: &K) -> (r: bool)
        ensures
            r == self@.contains(key@),
    {
        is_held(&self.items, key)
    }

    /// Add a key; tells whether it was missing.
    pub fn insert(&mut self, key: K) -> (r: bool)
        ensures
            final(self)@ == old(self)@.insert(key@),
            r == !old(self)@.contains(key@),
    {
        if self.contains(&key) {
            proof {
                assert(self@ =~= old(self)@.insert(key@));
            }
            return false;
        }
        let ghost before = self.items@;
        self.items.push(key);
        proof {
            lemma_holds_push(before, key);
            assert(self@ =~= old(self)@.insert(key@));
        }
        true
    }

    pub fn remove(&mut self, key: &K)
        ensures
            final(self)@ == old(self)@.remove(key@),
    {
        let mut kept: Vec<K> = Vec::new();
        let mut i: usize = 0;
        while i < self.items.len()
            invariant
                *self == *old(self),
                i <= self.items.len(),
                forall|k: K::V| #![trigger holds(kept@, k)] holds(kept@, k) <==> k != key@ && holds(self.items@.take(i as int), k),
            decreases self.items.len() - i,
        {
            let ghost before = kept@;
            proof {
                assert(self.items@.take(i + 1) =~= self.items@.take(i as int).push(self.items@[i as int]));
                lemma_holds_push(self.items@.take(i as int), self.items@[i as int]);
            }
            if !self.items[i].same(key) {
                kept.push(self.items[i].copied());
                proof {
                    lemma_holds_push(before, kept@[before.len() as int]);
                    assert(kept@ =~= before.push(kept@[before.len() as int]));
                    assert forall|k: K::V| #![trigger holds(kept@, k)] holds(kept@, k) <==> k != key@ && holds(self.items@.take(i + 1), k) by {
                        assert(holds(before, k) <==> k != key@ && holds(self.items@.take(i as int), k));
                        assert(holds(kept@, k) == (holds(before, k) || k == kept@[before.len() as int]@));
                        assert(holds(self.items@.take(i + 1), k) == (holds(self.items@.take(i as int), k) || k == self.items@[i as int]@));
                    }
                }
            } else {
                proof {
                    assert forall|k: K::V| #![trigger holds(kept@, k)] holds(kept@, k) <==> k != key@ && holds(self.items@.take(i + 1), k) by {
                        assert(holds(before, k) <==> k != key@ && holds(self.items@.take(i as int), k));
                        assert(holds(self.items@.take(i + 1), k) == (holds(self.items@.take(i as int), k) || k == self.items@[i as int]@));
                    }
                }
            }
            i = i + 1;
        }
        proof {
            assert(self.items@.take(self.items.len() as int) =~= self.items@);
        }
        self.items = kept;
        proof {
            assert forall|k: K::V| self@.contains(k) == #[trigger] old(self)@.remove(key@).contains(k) by {
                assert(self@.contains(k) == holds(kept@, k));
                assert(old(self)@.contains(k) == holds(old(self).items@, k));
            }
            assert(self@ =~= old(self)@.remove(key@));
        }
    }

    /// A set of the same keys.
    pub fn copied(&self) -> (r: Self)
        ensures
            r@ == self@,
    {
        let items = copied_keys(&self.items);
        let r = KeySet { items };
        proof {
            assert forall|k: K::V| r@.contains(k) == self@.contains(k) by {
                if holds(self.items@, k) {
                    let i = choose|i: int| #![trigger self.items@[i]] 0 <= i < self.items.len() && self.items@[i]@ == k;
                    assert(r.items@[i]@ == k);
                }
                if holds(r.items@, k) {
                    let i = choose|i: int| #![trigger r.items@[i]] 0 <= i < r.items.len() && r.items@[i]@ == k;
                    assert(self.items@[i]@ == k);
                }
            }
            assert(r@ =~= self@);
        }
        r
    }

    pub fn is_empty(&self) -> (r: bool)
        ensures
            r == (self@ == Set::<K::V>::empty()),
    {
        if self.items.len() == 0 {
            proof {
                assert(self@ =~= Set::<K::V>::empty());
            }
            true
        } else {
            proof {
                assert(holds(self.items@, self.items@[0]@));
                assert(self@.contains(self.items@[0]@));
            }
            false
        }
    }

    /// All keys of the set; one may come more than once.
    pub fn items(&self) -> (r: &Vec<K>)
        ensures
            forall|k: K::V| #[trigger] self@.contains(k) <==> holds(r@, k),
    {
        &self.items
    }
}

impl<K: Key> Default for KeySet<K> {
    fn default() -> (r: Self)
        ensures
            r@ == Set::<K::V>::empty(),
    {
        KeySet::new()
    }
}

/// Whether no key comes twice.
pub open spec fn distinct<K: Key>(items: Seq<K>) -> bool {
    forall|i: int, j: int| #![trigger items[i], items[j]] 0 <= i < j < items.len() ==> items[i]@ != items[j]@
}

pub proof fn lemma_distinct_push<K: Key>(items: Seq<K>, item: K)
    requires
        distinct(items),
        !holds(items, item@),
    ensures
        distinct(items.push(item)),
{
    let after = items.push(item);
    assert forall|i: int, j: int| #![trigger after[i], after[j]] 0 <= i < j < after.len() implies after[i]@
        != after[j]@ by {
        assert(items[i]@ == after[i]@);
    }
}

/// Whether one of `items` is the key `key`.
pub fn is_held<K: Key>(items: &Vec<K>, key: &K) -> (r: bool)
    ensures
        r == holds(items@, key@),
{
    let mut i: usize = 0;
    while i < items.len()
        invariant
            i <= items.len(),
            forall|j: int| #![trigger items@[j]] 0 <= j < i ==> items@[j]@ != key@,
        decreases items.len() - i,
    {
        if items[i].same(key) {
            return true;
        }
        i = i + 1;
    }
    false
}

/// Whether one of `items` is the key `k`.
pub open spec fn holds<K: Key>(items: Seq<K>, k: K::V) -> bool {
    exists|i: int| #![trigger items[i]] 0 <= i < items.len() && items[i]@ == k
}

/// The set of the keys in `items`.
pub open spec fn held<K: Key>(items: Seq<K>) -> Set<K::V> {
    Set::new(|k: K::V| holds(items, k))
}

/// A list without repetition is as long as the set of its keys is large.
pub proof fn lemma_distinct_count<K: Key>(items: Seq<K>)
    requires
        distinct(items),
    ensures
        held(items).len() == items.len(),
        held(items).finite(),
{
    let views = items.map_values(|k: K| k@);
    assert(views.no_duplicates());
    views.unique_seq_to_set();
    assert(views.to_set() =~= held(items)) by {
        assert forall|k: K::V| views.to_set().contains(k) == held(items).contains(k) by {
            if holds(items, k) {
                let i = choose|i: int| #![trigger items[i]] 0 <= i < items.len() && items[i]@ == k;
                assert(views[i] == k);
            }
            if views.to_set().contains(k) {
                let i = choose|i: int| 0 <= i < views.len() && views[i] == k;
                assert(items[i]@ == k);
            }
        }
    }
    views.lemma_cardinality_of_set();
}

pub proof fn lemma_holds_push<K: Key>(items: Seq<K>, item: K)
    ensures
        forall|k: K::V| #![trigger holds(items.push(item), k)] holds(items.push(item), k) == (holds(items, k) || k == item@),
{
    let after = items.push(item);
    assert forall|k: K::V| #![trigger holds(after, k)] holds(after, k) == (holds(items, k) || k == item@) by {
        if holds(items, k) {
            let i = choose|i: int| #![trigger items[i]] 0 <= i < items.len() && items[i]@ == k;
            assert(after[i]@ == k);
        }
        if k == item@ {
            assert(after[items.len() as int]@ == k);
        }
        if holds(after, k) {
            let i = choose|i: int| #![trigger after[i]] 0 <= i < after.len() && after[i]@ == k;
            if i < items.len() {
                assert(items[i]@ == k);
            }
        }
    }
}

} // verus!
