//! A table from text keys to values, kept in key order with each key once:
//! the shape that the `Secretfile` maps, the environment and the secret
//! cache share.

use vstd::prelude::*;
use crate::text::{str_eq, str_less, lemma_seq_less_order, seq_less};

verus! {

/// Entries in strictly increasing key order (so each key at most once).
pub open spec fn keys_sorted<W>(s: Seq<(Seq<char>, W)>) -> bool {
    forall|i: int, j: int| 0 <= i < j < s.len() ==> seq_less(#[trigger] s[i].0, #[trigger] s[j].0)
}

/// The value that `s` holds for `k`: the first entry with that key.
pub open spec fn lookup<W>(s: Seq<(Seq<char>, W)>, k: Seq<char>) -> Option<W>
    decreases s.len(),
{
    if s.len() == 0 {
        None
    } else if s[0].0 == k {
        Some(s[0].1)
    } else {
        lookup(s.drop_first(), k)
    }
}

/// How many entries of `s`, from the front, have a key before `k`.
pub open spec fn insert_pos<W>(s: Seq<(Seq<char>, W)>, k: Seq<char>) -> int
    decreases s.len(),
{
    if s.len() == 0 {
        0
    } else if seq_less(s[0].0, k) {
        1 + insert_pos(s.drop_first(), k)
    } else {
        0
    }
}

/// `s` with `(k, v)` put in its place by key, replacing an entry with key `k`.
pub open spec fn sorted_insert<W>(s: Seq<(Seq<char>, W)>, k: Seq<char>, v: W) -> Seq<(Seq<char>, W)> {
    let i = insert_pos(s, k);
    if i < s.len() && s[i].0 == k {
        s.update(i, (k, v))
    } else {
        s.insert(i, (k, v))
    }
}

/// The insertion position is in range, with smaller keys before it.
pub proof fn lemma_insert_pos_bounds<W>(s: Seq<(Seq<char>, W)>, k: Seq<char>)
    ensures
        0 <= insert_pos(s, k) <= s.len(),
        forall|j: int| 0 <= j < insert_pos(s, k) ==> seq_less(#[trigger] s[j].0, k),
        insert_pos(s, k) < s.len() ==> !seq_less(s[insert_pos(s, k)].0, k),
    decreases s.len(),
{
    if s.len() > 0 && seq_less(s[0].0, k) {
        lemma_insert_pos_bounds(s.drop_first(), k);
        assert forall|j: int| 0 <= j < insert_pos(s, k) implies seq_less(#[trigger] s[j].0, k) by {
            if j > 0 {
                assert(s[j] == s.drop_first()[j - 1]);
            }
        }
    }
}

/// The position found by a scan from the front is the insertion position.
pub proof fn lemma_insert_pos_is<W>(s: Seq<(Seq<char>, W)>, k: Seq<char>, i: int)
    requires
        0 <= i <= s.len(),
        forall|j: int| 0 <= j < i ==> seq_less(#[trigger] s[j].0, k),
        i < s.len() ==> !seq_less(s[i].0, k),
    ensures
        insert_pos(s, k) == i,
    decreases i,
{
    if i > 0 {
        assert forall|j: int| 0 <= j < i - 1 implies seq_less(#[trigger] s.drop_first()[j].0, k) by {
            assert(s.drop_first()[j] == s[j + 1]);
        }
        if i - 1 < s.drop_first().len() {
            assert(s.drop_first()[i - 1] == s[i]);
        }
        lemma_insert_pos_is(s.drop_first(), k, i - 1);
    }
}

/// Inserting keeps the keys in order.
pub proof fn lemma_sorted_insert_sorted<W>(s: Seq<(Seq<char>, W)>, k: Seq<char>, v: W)
    requires
        keys_sorted(s),
    ensures
        keys_sorted(sorted_insert(s, k, v)),
{
    lemma_insert_pos_bounds(s, k);
    let i = insert_pos(s, k);
    let r = sorted_insert(s, k, v);
    if i < s.len() && s[i].0 == k {
        assert forall|a: int, b: int| 0 <= a < b < r.len() implies seq_less(#[trigger] r[a].0, #[trigger] r[b].0) by {
            assert(r[a].0 == s[a].0);
            assert(r[b].0 == s[b].0);
        }
    } else {
        assert forall|a: int, b: int| 0 <= a < b < r.len() implies seq_less(#[trigger] r[a].0, #[trigger] r[b].0) by {
            if b < i {
                assert(r[a] == s[a] && r[b] == s[b]);
            } else if b == i {
                assert(r[a] == s[a]);
            } else if a == i {
                assert(r[b] == s[b - 1]);
                if b - 1 > i {
                    assert(seq_less(s[i].0, s[b - 1].0));
                    lemma_seq_less_order(k, s[i].0, s[b - 1].0);
                }
                lemma_seq_less_order(k, s[i].0, s[i].0);
            } else if a < i {
                assert(r[a] == s[a] && r[b] == s[b - 1]);
            } else {
                assert(r[a] == s[a - 1] && r[b] == s[b - 1]);
            }
        }
    }
}

/// A key after every key of the table goes at the end.
pub proof fn lemma_sorted_insert_last<W>(s: Seq<(Seq<char>, W)>, k: Seq<char>, v: W)
    requires
        forall|j: int| 0 <= j < s.len() ==> seq_less(#[trigger] s[j].0, k),
    ensures
        sorted_insert(s, k, v) == s.push((k, v)),
{
    lemma_insert_pos_is(s, k, s.len() as int);
}

/// The first entry with key `k` is the one found.
pub proof fn lemma_lookup_first<W>(s: Seq<(Seq<char>, W)>, k: Seq<char>, i: int)
    requires
        0 <= i < s.len(),
        s[i].0 == k,
        forall|j: int| 0 <= j < i ==> #[trigger] s[j].0 != k,
    ensures
        lookup(s, k) == Some(s[i].1),
    decreases i,
{
    if i > 0 {
        assert(s[0].0 != k);
        assert forall|j: int| 0 <= j < i - 1 implies #[trigger] s.drop_first()[j].0 != k by {
            assert(s.drop_first()[j] == s[j + 1]);
        }
        lemma_lookup_first(s.drop_first(), k, i - 1);
    }
}

/// In a table in key order, the entry found for a key is the one at its index.
pub proof fn lemma_lookup_at<W>(s: Seq<(Seq<char>, W)>, i: int)
    requires
        keys_sorted(s),
        0 <= i < s.len(),
    ensures
        lookup(s, s[i].0) == Some(s[i].1),
{
    assert forall|j: int| 0 <= j < i implies #[trigger] s[j].0 != s[i].0 by {
        lemma_seq_less_order(s[j].0, s[i].0, s[i].0);
    }
    lemma_lookup_first(s, s[i].0, i);
}

/// A key that no entry has is not found.
pub proof fn lemma_lookup_absent<W>(s: Seq<(Seq<char>, W)>, k: Seq<char>)
    requires
        forall|j: int| 0 <= j < s.len() ==> #[trigger] s[j].0 != k,
    ensures
        lookup(s, k) is None,
    decreases s.len(),
{
    if s.len() > 0 {
        assert(s[0].0 != k);
        assert forall|j: int| 0 <= j < s.drop_first().len() implies #[trigger] s.drop_first()[j].0 != k by {
            assert(s.drop_first()[j] == s[j + 1]);
        }
        lemma_lookup_absent(s.drop_first(), k);
    }
}

/// After an insertion, the key holds the new value and every other key
/// what it held before.
pub proof fn lemma_sorted_insert_lookup<W>(s: Seq<(Seq<char>, W)>, k: Seq<char>, v: W)
    requires
        keys_sorted(s),
    ensures
        forall|n: Seq<char>| #[trigger] lookup(sorted_insert(s, k, v), n) == if n == k {
            Some(v)
        } else {
            lookup(s, n)
        },
{
    lemma_sorted_insert_sorted(s, k, v);
    lemma_insert_pos_bounds(s, k);
    let r = sorted_insert(s, k, v);
    let i = insert_pos(s, k);
    assert forall|n: Seq<char>| #[trigger] lookup(r, n) == if n == k {
        Some(v)
    } else {
        lookup(s, n)
    } by {
        if n == k {
            assert(r[i].0 == k && r[i].1 == v);
            lemma_lookup_at(r, i);
        } else if exists|j: int| 0 <= j < s.len() && s[j].0 == n {
            let j = choose|j: int| 0 <= j < s.len() && s[j].0 == n;
            lemma_lookup_at(s, j);
            if i < s.len() && s[i].0 == k {
                assert(r[j] == s[j]);
                lemma_lookup_at(r, j);
            } else if j < i {
                assert(r[j] == s[j]);
                lemma_lookup_at(r, j);
            } else {
                assert(r[j + 1] == s[j]);
                lemma_lookup_at(r, j + 1);
            }
        } else {
            lemma_lookup_absent(s, n);
            assert forall|j: int| 0 <= j < r.len() implies #[trigger] r[j].0 != n by {
                if i < s.len() && s[i].0 == k {
                    if j != i {
                        assert(r[j] == s[j]);
                    }
                } else if j < i {
                    assert(r[j] == s[j]);
                } else if j > i {
                    assert(r[j] == s[j - 1]);
                }
            }
            lemma_lookup_absent(r, n);
        }
    }
}

/// A table from text keys to values of type `V`.
#[derive(Clone, Debug)]
pub struct Table<V> {
    entries: Vec<(String, V)>,
}

impl<V: View> View for Table<V> {
    type V = Seq<(Seq<char>, V::V)>;

    closed spec fn view(&self) -> Self::V {
        self.entries@.map_values(|e: (String, V)| (e.0@, e.1@))
    }
}

impl<V: View> Table<V> {
    /// The table holds its keys in order.
    pub open spec fn wf(&self) -> bool {
        keys_sorted(self@)
    }

    /// An empty table.
    pub fn new() -> (r: Self)
        ensures
            r@ == Seq::<(Seq<char>, V::V)>::empty(),
            r.wf(),
    {
        let r = Table { entries: Vec::new() };
        assert(r@ =~= Seq::<(Seq<char>, V::V)>::empty());
        r
    }

    /// The number of entries.
    pub fn len(&self) -> (r: usize)
        ensures
            r == self@.len(),
    {
        self.entries.len()
    }

    /// The key of the entry at position `i`.
    pub fn key_at(&self, i: usize) -> (r: &String)
        requires
            i < self@.len(),
        ensures
            r@ == self@[i as int].0,
    {
        &self.entries[i].0
    }

    /// The value of the entry at position `i`.
    pub fn value_at(&self, i: usize) -> (r: &V)
        requires
            i < self@.len(),
        ensures
            r@ == self@[i as int].1,
    {
        &self.entries[i].1
    }

    /// The value held for `key`.
    pub fn get(&self, key: &str) -> (r: Option<&V>)
        ensures
            r is Some == lookup(self@, key@) is Some,
            r is Some ==> r->0@ == lookup(self@, key@)->0,
    {
        let n = self.entries.len();
        let mut i: usize = 0;
        while i < n
            invariant
                n == self@.len(),
                i <= n,
                forall|j: int| 0 <= j < i ==> #[trigger] self@[j].0 != key@,
            decreases n - i,
        {
            assert(self@[i as int].0 == self.entries@[i as int].0@);
            if str_eq(self.entries[i].0.as_str(), key) {
                proof {
                    lemma_lookup_first(self@, key@, i as int);
                }
                return Some(&self.entries[i].1);
            }
            i = i + 1;
        }
        proof {
            lemma_lookup_absent(self@, key@);
        }
        None
    }

    /// Puts `value` under `key`, replacing what the table held for it.
    pub fn insert(&mut self, key: String, value: V)
        requires
            old(self).wf(),
        ensures
            final(self)@ == sorted_insert(old(self)@, key@, value@),
            final(self).wf(),
    {
        let ghost s = self@;
        let n = self.entries.len();
        let mut i: usize = 0;
        while i < n && str_less(self.entries[i].0.as_str(), key.as_str())
            invariant
                n == s.len(),
                s == self@,
                i <= n,
                forall|j: int| 0 <= j < i ==> seq_less(#[trigger] s[j].0, key@),
            decreases n - i,
        {
            assert(s[i as int].0 == self.entries@[i as int].0@);
            i = i + 1;
        }
        proof {
            if i < n {
                assert(s[i as int].0 == self.entries@[i as int].0@);
            }
            lemma_insert_pos_is(s, key@, i as int);
            lemma_sorted_insert_sorted(s, key@, value@);
        }
        if i < n && str_eq(self.entries[i].0.as_str(), key.as_str()) {
            self.entries.set(i, (key, value));
            assert(self@ =~= sorted_insert(s, key@, value@));
        } else {
            let ghost k = key@;
            let ghost w = value@;
            self.entries.insert(i, (key, value));
            assert(self@ =~= sorted_insert(s, k, w));
        }
    }

    /// The keys, in order.
    pub fn keys(&self) -> (r: Vec<String>)
        ensures
            r@.len() == self@.len(),
            forall|j: int| 0 <= j < r@.len() ==> #[trigger] r@[j]@ == self@[j].0,
    {
        let n = self.entries.len();
        let mut out: Vec<String> = Vec::new();
        let mut i: usize = 0;
        while i < n
            invariant
                n == self@.len(),
                i <= n,
                out@.len() == i,
                forall|j: int| 0 <= j < i ==> #[trigger] out@[j]@ == self@[j].0,
            decreases n - i,
        {
            out.push(self.entries[i].0.clone());
            i = i + 1;
        }
        out
    }
}

} // verus!
