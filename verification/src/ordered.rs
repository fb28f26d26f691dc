//! Byte-ordered keys and a sorted association map over them.
//!
//! Every identifier of the wire model orders by its bytes, as a slice of
//! bytes orders in Rust: element by element, a proper prefix first. The map
//! below keeps its entries strictly sorted by that order, so walking it yields
//! the keys in ascending byte order.
use vstd::prelude::*;

verus! {

/// The outcome of comparing two keys.
#[derive(Debug, Clone, Copy, PartialEq, Eq, Structural)]
pub enum KeyOrder {
    Less,
    Equal,
    Greater,
}

/// Strict lexicographic order of byte strings, a proper prefix first.
pub open spec fn lex_lt(a: Seq<u8>, b: Seq<u8>) -> bool
    decreases a.len(),
{
    if a.len() == 0 {
        b.len() > 0
    } else if b.len() == 0 {
        false
    } else if a[0] < b[0] {
        true
    } else if a[0] > b[0] {
        false
    } else {
        lex_lt(a.drop_first(), b.drop_first())
    }
}

/// The comparison of two byte strings under `lex_lt`.
pub open spec fn key_order(a: Seq<u8>, b: Seq<u8>) -> KeyOrder {
    if a == b {
        KeyOrder::Equal
    } else if lex_lt(a, b) {
        KeyOrder::Less
    } else {
        KeyOrder::Greater
    }
}

/// No byte string precedes itself.
pub proof fn lemma_lex_irreflexive(a: Seq<u8>)
    ensures
        !lex_lt(a, a),
    decreases a.len(),
{
    if a.len() > 0 {
        lemma_lex_irreflexive(a.drop_first());
    }
}

/// Of two byte strings that precede each other, at most one does.
pub proof fn lemma_lex_asymmetric(a: Seq<u8>, b: Seq<u8>)
    ensures
        lex_lt(a, b) ==> !lex_lt(b, a),
    decreases a.len(),
{
    if a.len() > 0 && b.len() > 0 && a[0] == b[0] {
        lemma_lex_asymmetric(a.drop_first(), b.drop_first());
    }
}

/// Two different byte strings are ordered one way or the other.
pub proof fn lemma_lex_total(a: Seq<u8>, b: Seq<u8>)
    ensures
        a != b ==> lex_lt(a, b) || lex_lt(b, a),
    decreases a.len(),
{
    if a.len() > 0 && b.len() > 0 && a[0] == b[0] {
        lemma_lex_total(a.drop_first(), b.drop_first());
        if a.drop_first() == b.drop_first() {
            assert(a =~= seq![a[0]] + a.drop_first());
            assert(b =~= seq![b[0]] + b.drop_first());
        }
    } else if a.len() == 0 && b.len() == 0 {
        assert(a =~= b);
    }
}

/// The order is transitive.
pub proof fn lemma_lex_transitive(a: Seq<u8>, b: Seq<u8>, c: Seq<u8>)
    requires
        lex_lt(a, b),
        lex_lt(b, c),
    ensures
        lex_lt(a, c),
    decreases a.len(),
{
    if a.len() > 0 && b.len() > 0 && c.len() > 0 && a[0] == b[0] && b[0] == c[0] {
        lemma_lex_transitive(a.drop_first(), b.drop_first(), c.drop_first());
    }
}

/// Compares two byte slices in the order `lex_lt` describes.
pub fn compare_bytes(a: &[u8], b: &[u8]) -> (r: KeyOrder)
    ensures
        r == key_order(a@, b@),
{
    let mut i: usize = 0;
    assert(a@.skip(0) =~= a@);
    assert(b@.skip(0) =~= b@);
    assert(a@.take(0) =~= b@.take(0));
    while i < a.len() && i < b.len()
        invariant
            i <= a@.len(),
            i <= b@.len(),
            a@.take(i as int) == b@.take(i as int),
            lex_lt(a@, b@) == lex_lt(a@.skip(i as int), b@.skip(i as int)),
            (a@ == b@) == (a@.skip(i as int) == b@.skip(i as int)),
        decreases a@.len() - i,
    {
        let x = a[i];
        let y = b[i];
        assert(a@.skip(i as int)[0] == x);
        assert(b@.skip(i as int)[0] == y);
        if x < y {
            proof {
                lemma_lex_irreflexive(a@);
            }
            return KeyOrder::Less;
        }
        if x > y {
            proof {
                lemma_lex_irreflexive(a@);
            }
            return KeyOrder::Greater;
        }
        proof {
            assert(a@.skip(i as int).drop_first() =~= a@.skip(i + 1));
            assert(b@.skip(i as int).drop_first() =~= b@.skip(i + 1));
            assert(a@.take(i + 1) =~= a@.take(i as int).push(x));
            assert(b@.take(i + 1) =~= b@.take(i as int).push(y));
            if a@.skip(i + 1) == b@.skip(i + 1) {
                assert(a@.skip(i as int) =~= seq![x] + a@.skip(i + 1));
                assert(b@.skip(i as int) =~= seq![y] + b@.skip(i + 1));
            }
        }
        i = i + 1;
    }
    proof {
        lemma_lex_irreflexive(a@);
        if i == a.len() && i == b.len() {
            assert(a@ =~= a@.take(i as int));
            assert(b@ =~= b@.take(i as int));
        }
        if i == a.len() {
            assert(a@.skip(i as int).len() == 0);
        } else {
            assert(b@.skip(i as int).len() == 0);
            assert(a@.skip(i as int).len() > 0);
        }
    }
    if a.len() == b.len() {
        KeyOrder::Equal
    } else if a.len() < b.len() {
        KeyOrder::Less
    } else {
        KeyOrder::Greater
    }
}

/// A key that orders by a byte string.
pub trait SortKey: Sized {
    /// The bytes this key orders by.
    spec fn sort_bytes(&self) -> Seq<u8>;

    /// Compares two keys by their bytes.
    fn compare_key(&self, other: &Self) -> (r: KeyOrder)
        ensures
            r == key_order(self.sort_bytes(), other.sort_bytes()),
    ;
}

/// Whether the entries are strictly ascending by key bytes.
pub open spec fn entries_sorted<K: SortKey, V>(s: Seq<(K, V)>) -> bool {
    forall|i: int, j: int|
        0 <= i < j < s.len() ==> lex_lt(#[trigger] s[i].0.sort_bytes(), #[trigger] s[j].0.sort_bytes())
}

/// Whether some entry has the key bytes `k`.
pub open spec fn entries_have<K: SortKey, V>(s: Seq<(K, V)>, k: Seq<u8>) -> bool {
    exists|i: int| 0 <= i < s.len() && #[trigger] s[i].0.sort_bytes() == k
}

/// The position of an entry with the key bytes `k`.
pub open spec fn entry_index<K: SortKey, V>(s: Seq<(K, V)>, k: Seq<u8>) -> int {
    choose|i: int| 0 <= i < s.len() && #[trigger] s[i].0.sort_bytes() == k
}

/// The map that sorted entries denote.
pub open spec fn entries_map<K: SortKey, V>(s: Seq<(K, V)>) -> Map<Seq<u8>, V> {
    Map::new(|k: Seq<u8>| entries_have(s, k), |k: Seq<u8>| s[entry_index(s, k)].1)
}

/// In sorted entries, the entry at `i` is the one the map gives for its key.
pub proof fn lemma_entries_map_at<K: SortKey, V>(s: Seq<(K, V)>, i: int)
    requires
        entries_sorted(s),
        0 <= i < s.len(),
    ensures
        entries_have(s, s[i].0.sort_bytes()),
        entry_index(s, s[i].0.sort_bytes()) == i,
        entries_map(s).contains_key(s[i].0.sort_bytes()),
        entries_map(s)[s[i].0.sort_bytes()] == s[i].1,
{
    let k = s[i].0.sort_bytes();
    assert(entries_have(s, k));
    let j = entry_index(s, k);
    if j != i {
        lemma_lex_irreflexive(k);
        if j < i {
            assert(lex_lt(s[j].0.sort_bytes(), s[i].0.sort_bytes()));
        } else {
            assert(lex_lt(s[i].0.sort_bytes(), s[j].0.sort_bytes()));
        }
    }
}

proof fn lemma_same_keys_upto<K: SortKey, V>(s: Seq<(K, V)>, t: Seq<(K, V)>, j: int)
    requires
        entries_sorted(s),
        entries_sorted(t),
        entries_map(s).dom() == entries_map(t).dom(),
        s.len() == t.len(),
        0 <= j <= s.len(),
    ensures
        forall|i: int| 0 <= i < j ==> #[trigger] s[i].0.sort_bytes() == t[i].0.sort_bytes(),
    decreases j,
{
    if j > 0 {
        lemma_same_keys_upto(s, t, j - 1);
        let i = j - 1;
        let k1 = s[i].0.sort_bytes();
        let k2 = t[i].0.sort_bytes();
        if k1 != k2 {
            lemma_lex_total(k1, k2);
            lemma_lex_asymmetric(k1, k2);
            lemma_entries_map_at(s, i);
            lemma_entries_map_at(t, i);
            if lex_lt(k1, k2) {
                assert(entries_map(t).dom().contains(k1));
                let m = entry_index(t, k1);
                assert(0 <= m < t.len() && t[m].0.sort_bytes() == k1);
                if m < i {
                    assert(s[m].0.sort_bytes() == t[m].0.sort_bytes());
                    assert(lex_lt(s[m].0.sort_bytes(), s[i].0.sort_bytes()));
                    lemma_lex_irreflexive(k1);
                } else if m > i {
                    assert(lex_lt(t[i].0.sort_bytes(), t[m].0.sort_bytes()));
                }
            } else {
                assert(entries_map(s).dom().contains(k2));
                let m = entry_index(s, k2);
                assert(0 <= m < s.len() && s[m].0.sort_bytes() == k2);
                if m < i {
                    assert(s[m].0.sort_bytes() == t[m].0.sort_bytes());
                    assert(lex_lt(t[m].0.sort_bytes(), t[i].0.sort_bytes()));
                    lemma_lex_irreflexive(k2);
                } else if m > i {
                    assert(lex_lt(s[i].0.sort_bytes(), s[m].0.sort_bytes()));
                    lemma_lex_asymmetric(k2, k1);
                }
            }
        }
    }
}

/// A map whose entries stay strictly ascending by key bytes.
#[derive(Debug, Clone, PartialEq, Eq)]
pub struct SortedMap<K, V> {
    entries: Vec<(K, V)>,
}

impl<K: SortKey, V> SortedMap<K, V> {
    /// The entries, in ascending key order.
    pub closed spec fn entries(&self) -> Seq<(K, V)> {
        self.entries@
    }

    /// The map the entries denote, keyed by key bytes.
    pub open spec fn view(&self) -> Map<Seq<u8>, V> {
        entries_map(self.entries())
    }

    /// The entries are strictly ascending.
    pub open spec fn wf(&self) -> bool {
        entries_sorted(self.entries())
    }

    /// An empty map.
    pub fn new() -> (r: Self)
        ensures
            r.wf(),
            r.entries() == Seq::<(K, V)>::empty(),
            r@ == Map::<Seq<u8>, V>::empty(),
    {
        let r = SortedMap { entries: Vec::new() };
        assert(r@ =~= Map::<Seq<u8>, V>::empty());
        r
    }

    /// The number of entries.
    pub fn len(&self) -> (r: usize)
        requires
            self.wf(),
        ensures
            r == self.entries().len(),
            r == self@.dom().len(),
    {
        proof {
            self.lemma_dom_len();
        }
        self.entries.len()
    }

    /// The entries, in ascending key order.
    pub fn as_slice(&self) -> (r: &[(K, V)])
        ensures
            r@ == self.entries(),
    {
        self.entries.as_slice()
    }

    /// Where the key stands, or `None` where no entry has it.
    pub fn position(&self, key: &K) -> (r: Option<usize>)
        requires
            self.wf(),
        ensures
            r matches Some(i) ==> i < self.entries().len() && self.entries()[i as int].0.sort_bytes()
                == key.sort_bytes(),
            r is None <==> !self@.contains_key(key.sort_bytes()),
    {
        let mut i: usize = 0;
        while i < self.entries.len()
            invariant
                self.wf(),
                i <= self.entries().len(),
                forall|j: int| 0 <= j < i ==> #[trigger] self.entries()[j].0.sort_bytes() != key.sort_bytes(),
            decreases self.entries().len() - i,
        {
            if let KeyOrder::Equal = self.entries[i].0.compare_key(key) {
                return Some(i);
            }
            i = i + 1;
        }
        None
    }

    /// Whether some entry has the key.
    pub fn contains(&self, key: &K) -> (r: bool)
        requires
            self.wf(),
        ensures
            r == self@.contains_key(key.sort_bytes()),
    {
        self.position(key).is_some()
    }

    /// The value stored under the key.
    pub fn get(&self, key: &K) -> (r: Option<&V>)
        requires
            self.wf(),
        ensures
            r matches Some(v) ==> self@.contains_key(key.sort_bytes()) && *v == self@[key.sort_bytes()],
            r is None <==> !self@.contains_key(key.sort_bytes()),
    {
        match self.position(key) {
            Some(i) => {
                proof {
                    lemma_entries_map_at(self.entries(), i as int);
                }
                Some(&self.entries[i].1)
            },
            None => None,
        }
    }

    /// Stores `value` under `key`, replacing any value stored there.
    pub fn insert(&mut self, key: K, value: V)
        requires
            old(self).wf(),
        ensures
            final(self).wf(),
            final(self)@ == old(self)@.insert(key.sort_bytes(), value),
    {
        let ghost old_entries = self.entries();
        let ghost k = key.sort_bytes();
        let mut i: usize = 0;
        while i < self.entries.len()
            invariant
                self.entries() == old_entries,
                old(self).entries() == old_entries,
                k == key.sort_bytes(),
                entries_sorted(old_entries),
                i <= old_entries.len(),
                forall|j: int| 0 <= j < i ==> lex_lt(#[trigger] old_entries[j].0.sort_bytes(), k),
            ensures
                self.entries() == old_entries,
                i <= old_entries.len(),
                forall|j: int| 0 <= j < i ==> lex_lt(#[trigger] old_entries[j].0.sort_bytes(), k),
                i < old_entries.len() ==> key_order(old_entries[i as int].0.sort_bytes(), k)
                    == KeyOrder::Greater,
            decreases old_entries.len() - i,
        {
            let order = self.entries[i].0.compare_key(&key);
            assert(self.entries@[i as int] == old_entries[i as int]);
            if let KeyOrder::Equal = order {
                self.entries.set(i, (key, value));
                proof {
                    assert(self.entries() == old_entries.update(i as int, (key, value)));
                    assert(self.entries()[i as int].0.sort_bytes() == k);
                    let s = self.entries();
                    assert forall|a: int, b: int| 0 <= a < b < s.len() implies lex_lt(
                        #[trigger] s[a].0.sort_bytes(),
                        #[trigger] s[b].0.sort_bytes(),
                    ) by {
                        assert(old_entries[a].0.sort_bytes() == s[a].0.sort_bytes());
                        assert(old_entries[b].0.sort_bytes() == s[b].0.sort_bytes());
                    }
                    self.lemma_replaced(old_entries, i as int);
                }
                return;
            }
            if let KeyOrder::Greater = order {
                assert(key_order(old_entries[i as int].0.sort_bytes(), k) == KeyOrder::Greater);
                break;
            }
            assert(lex_lt(old_entries[i as int].0.sort_bytes(), k));
            i = i + 1;
        }
        proof {
            if i < old_entries.len() {
                lemma_lex_total(old_entries[i as int].0.sort_bytes(), k);
                lemma_lex_asymmetric(old_entries[i as int].0.sort_bytes(), k);
            }
        }
        self.entries.insert(i, (key, value));
        proof {
            self.lemma_inserted(old_entries, i as int);
        }
    }

    /// Removes the entry with the key and hands it back.
    pub fn remove(&mut self, key: &K) -> (r: Option<(K, V)>)
        requires
            old(self).wf(),
        ensures
            final(self).wf(),
            final(self)@ == old(self)@.remove(key.sort_bytes()),
            r is None <==> !old(self)@.contains_key(key.sort_bytes()),
            r matches Some(e) ==> e.0.sort_bytes() == key.sort_bytes() && e.1 == old(self)@[key.sort_bytes()],
    {
        match self.position(key) {
            None => {
                assert(self@ =~= self@.remove(key.sort_bytes()));
                None
            },
            Some(i) => {
                let ghost old_entries = self.entries();
                proof {
                    lemma_entries_map_at(old_entries, i as int);
                }
                let e = self.entries.remove(i);
                proof {
                    self.lemma_removed(old_entries, i as int);
                }
                Some(e)
            },
        }
    }

    /// The entry at a position.
    pub fn entry(&self, i: usize) -> (r: &(K, V))
        requires
            i < self.entries().len(),
        ensures
            *r == self.entries()[i as int],
    {
        &self.entries[i]
    }

    /// The entries list the map: one entry per key, ascending by key bytes,
    /// each holding the value the map gives for its key.
    pub proof fn lemma_entries_view(&self)
        requires
            self.wf(),
        ensures
            self@.dom().finite(),
            self.entries().len() == self@.dom().len(),
            forall|i: int|
                0 <= i < self.entries().len() ==> self@.contains_key(
                    #[trigger] self.entries()[i].0.sort_bytes(),
                ) && self@[self.entries()[i].0.sort_bytes()] == self.entries()[i].1,
            forall|k: Seq<u8>|
                #[trigger] self@.contains_key(k) ==> exists|i: int|
                    0 <= i < self.entries().len() && #[trigger] self.entries()[i].0.sort_bytes() == k,
    {
        self.lemma_dom_len();
        let s = self.entries();
        assert forall|i: int| 0 <= i < s.len() implies self@.contains_key(
            #[trigger] s[i].0.sort_bytes(),
        ) && self@[s[i].0.sort_bytes()] == s[i].1 by {
            lemma_entries_map_at(s, i);
        }
        assert forall|k: Seq<u8>| #[trigger] self@.contains_key(k) implies exists|i: int|
            0 <= i < s.len() && #[trigger] s[i].0.sort_bytes() == k by {
            assert(entries_have(s, k));
        }
    }

    /// Two maps with the same contents list the same entries: the same
    /// key bytes in the same order, each with the same value.
    pub proof fn lemma_same_view_same_entries(&self, other: &Self)
        requires
            self.wf(),
            other.wf(),
            self@ == other@,
        ensures
            self.entries().len() == other.entries().len(),
            forall|i: int|
                0 <= i < self.entries().len() ==> #[trigger] self.entries()[i].0.sort_bytes()
                    == other.entries()[i].0.sort_bytes() && self.entries()[i].1 == other.entries()[i].1,
    {
        self.lemma_dom_len();
        other.lemma_dom_len();
        let s = self.entries();
        let t = other.entries();
        lemma_same_keys_upto(s, t, s.len() as int);
        assert forall|i: int| 0 <= i < s.len() implies #[trigger] s[i].0.sort_bytes() == t[i].0.sort_bytes()
            && s[i].1 == t[i].1 by {
            lemma_entries_map_at(s, i);
            lemma_entries_map_at(t, i);
        }
    }

    proof fn lemma_dom_len(&self)
        requires
            self.wf(),
        ensures
            self@.dom().finite(),
            self@.dom().len() == self.entries().len(),
        decreases self.entries().len(),
    {
        let s = self.entries();
        let keys = s.map_values(|e: (K, V)| e.0.sort_bytes());
        assert forall|i: int, j: int| 0 <= i < keys.len() && 0 <= j < keys.len() && i != j implies keys[i]
            != keys[j] by {
            lemma_lex_irreflexive(keys[i]);
            if i < j {
                assert(lex_lt(s[i].0.sort_bytes(), s[j].0.sort_bytes()));
            } else {
                assert(lex_lt(s[j].0.sort_bytes(), s[i].0.sort_bytes()));
            }
        }
        assert(keys.no_duplicates());
        assert forall|k: Seq<u8>| self@.dom().contains(k) <==> keys.to_set().contains(k) by {
            if self@.dom().contains(k) {
                let i = entry_index(s, k);
                assert(keys[i] == k);
            }
            if keys.to_set().contains(k) {
                let i = choose|i: int| 0 <= i < keys.len() && keys[i] == k;
                assert(s[i].0.sort_bytes() == k);
            }
        }
        assert(self@.dom() =~= keys.to_set());
        keys.unique_seq_to_set();
    }

    proof fn lemma_replaced(&self, old_entries: Seq<(K, V)>, i: int)
        requires
            entries_sorted(old_entries),
            entries_sorted(self.entries()),
            0 <= i < old_entries.len(),
            self.entries() == old_entries.update(i, self.entries()[i]),
            self.entries()[i].0.sort_bytes() == old_entries[i].0.sort_bytes(),
        ensures
            self@ == entries_map(old_entries).insert(old_entries[i].0.sort_bytes(), self.entries()[i].1),
    {
        let s = self.entries();
        let k = old_entries[i].0.sort_bytes();
        let m = entries_map(old_entries).insert(k, s[i].1);
        assert forall|x: Seq<u8>| #[trigger] self@.contains_key(x) <==> m.contains_key(x) by {
            if self@.contains_key(x) {
                let j = entry_index(s, x);
                assert(old_entries[j].0.sort_bytes() == x);
            }
            if m.contains_key(x) && x != k {
                let j = entry_index(old_entries, x);
                assert(s[j].0.sort_bytes() == x);
            }
            if x == k {
                assert(s[i].0.sort_bytes() == x);
            }
        }
        assert forall|x: Seq<u8>| #[trigger] self@.contains_key(x) implies self@[x] == m[x] by {
            let j = entry_index(s, x);
            lemma_entries_map_at(s, j);
            lemma_entries_map_at(old_entries, j);
            if j == i {
                assert(x == k);
                assert(self@[x] == s[i].1);
            } else {
                assert(s[j] == old_entries[j]);
                lemma_lex_irreflexive(x);
                if j < i {
                    assert(lex_lt(s[j].0.sort_bytes(), s[i].0.sort_bytes()));
                } else {
                    assert(lex_lt(s[i].0.sort_bytes(), s[j].0.sort_bytes()));
                }
                assert(x != k);
                assert(m[x] == entries_map(old_entries)[x]);
            }
        }
        assert(self@ =~= m);
    }

    proof fn lemma_inserted(&self, old_entries: Seq<(K, V)>, i: int)
        requires
            entries_sorted(old_entries),
            0 <= i <= old_entries.len(),
            self.entries() == old_entries.insert(i, self.entries()[i]),
            forall|j: int| 0 <= j < i ==> lex_lt(#[trigger] old_entries[j].0.sort_bytes(), self.entries()[i].0.sort_bytes()),
            i < old_entries.len() ==> lex_lt(self.entries()[i].0.sort_bytes(), old_entries[i].0.sort_bytes()),
        ensures
            self.wf(),
            self@ == entries_map(old_entries).insert(self.entries()[i].0.sort_bytes(), self.entries()[i].1),
    {
        let s = self.entries();
        let k = s[i].0.sort_bytes();
        assert forall|a: int, b: int| 0 <= a < b < s.len() implies lex_lt(
            #[trigger] s[a].0.sort_bytes(),
            #[trigger] s[b].0.sort_bytes(),
        ) by {
            if a < i && b > i {
                assert(s[b] == old_entries[b - 1]);
                if b - 1 > i {
                    assert(lex_lt(old_entries[i].0.sort_bytes(), old_entries[b - 1].0.sort_bytes()));
                    lemma_lex_transitive(k, old_entries[i].0.sort_bytes(), old_entries[b - 1].0.sort_bytes());
                }
                lemma_lex_transitive(s[a].0.sort_bytes(), k, s[b].0.sort_bytes());
            } else if a == i {
                assert(s[b] == old_entries[b - 1]);
                if b - 1 > i {
                    assert(lex_lt(old_entries[i].0.sort_bytes(), old_entries[b - 1].0.sort_bytes()));
                    lemma_lex_transitive(k, old_entries[i].0.sort_bytes(), old_entries[b - 1].0.sort_bytes());
                }
            } else if b == i {
                assert(s[a] == old_entries[a]);
            } else if b < i {
                assert(s[a] == old_entries[a]);
                assert(s[b] == old_entries[b]);
            } else {
                assert(s[a] == old_entries[a - 1]);
                assert(s[b] == old_entries[b - 1]);
            }
        }
        let m = entries_map(old_entries).insert(k, s[i].1);
        assert forall|x: Seq<u8>| #[trigger] self@.contains_key(x) <==> m.contains_key(x) by {
            if self@.contains_key(x) && x != k {
                let j = entry_index(s, x);
                if j < i {
                    assert(old_entries[j].0.sort_bytes() == x);
                } else if j > i {
                    assert(old_entries[j - 1].0.sort_bytes() == x);
                }
            }
            if m.contains_key(x) && x != k {
                let j = entry_index(old_entries, x);
                if j < i {
                    assert(s[j].0.sort_bytes() == x);
                } else {
                    assert(s[j + 1].0.sort_bytes() == x);
                }
            }
            if x == k {
                assert(s[i].0.sort_bytes() == x);
            }
        }
        assert forall|x: Seq<u8>| #[trigger] self@.contains_key(x) implies self@[x] == m[x] by {
            let j = entry_index(s, x);
            lemma_entries_map_at(s, j);
            if j < i {
                lemma_entries_map_at(old_entries, j);
                lemma_lex_irreflexive(k);
            } else if j > i {
                lemma_entries_map_at(old_entries, j - 1);
                lemma_lex_irreflexive(k);
            }
        }
        assert(self@ =~= m);
    }

    proof fn lemma_removed(&self, old_entries: Seq<(K, V)>, i: int)
        requires
            entries_sorted(old_entries),
            0 <= i < old_entries.len(),
            self.entries() == old_entries.remove(i),
        ensures
            self.wf(),
            self@ == entries_map(old_entries).remove(old_entries[i].0.sort_bytes()),
    {
        let s = self.entries();
        let k = old_entries[i].0.sort_bytes();
        assert forall|a: int, b: int| 0 <= a < b < s.len() implies lex_lt(
            #[trigger] s[a].0.sort_bytes(),
            #[trigger] s[b].0.sort_bytes(),
        ) by {
            if b < i {
                assert(s[a] == old_entries[a]);
                assert(s[b] == old_entries[b]);
            } else if a < i {
                assert(s[a] == old_entries[a]);
                assert(s[b] == old_entries[b + 1]);
            } else {
                assert(s[a] == old_entries[a + 1]);
                assert(s[b] == old_entries[b + 1]);
            }
        }
        let m = entries_map(old_entries).remove(k);
        assert forall|x: Seq<u8>| #[trigger] self@.contains_key(x) <==> m.contains_key(x) by {
            if self@.contains_key(x) {
                let j = entry_index(s, x);
                lemma_entries_map_at(s, j);
                if j < i {
                    assert(old_entries[j].0.sort_bytes() == x);
                    assert(lex_lt(x, k));
                    lemma_lex_irreflexive(k);
                } else {
                    assert(old_entries[j + 1].0.sort_bytes() == x);
                    assert(lex_lt(k, x));
                    lemma_lex_irreflexive(k);
                }
            }
            if m.contains_key(x) {
                let j = entry_index(old_entries, x);
                if j < i {
                    assert(s[j].0.sort_bytes() == x);
                } else if j > i {
                    assert(s[j - 1].0.sort_bytes() == x);
                }
            }
        }
        assert forall|x: Seq<u8>| #[trigger] self@.contains_key(x) implies self@[x] == m[x] by {
            let j = entry_index(s, x);
            lemma_entries_map_at(s, j);
            if j < i {
                lemma_entries_map_at(old_entries, j);
            } else {
                lemma_entries_map_at(old_entries, j + 1);
            }
        }
        assert(self@ =~= m);
    }
}

impl<K: SortKey + Copy, V: Copy> SortedMap<K, V> {
    /// A copy with the same entries.
    pub fn duplicate(&self) -> (r: Self)
        ensures
            r.entries() == self.entries(),
    {
        let mut entries: Vec<(K, V)> = Vec::new();
        let mut i: usize = 0;
        while i < self.entries.len()
            invariant
                i <= self.entries@.len(),
                entries@ == self.entries@.take(i as int),
            decreases self.entries@.len() - i,
        {
            let e = self.entries[i];
            entries.push(e);
            assert(self.entries@.take(i + 1) =~= self.entries@.take(i as int).push(e));
            i = i + 1;
        }
        assert(self.entries@.take(i as int) =~= self.entries@);
        SortedMap { entries }
    }
}

} // verus!
