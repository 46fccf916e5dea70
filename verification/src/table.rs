use crate::keys::{KeyOrder, TableKey};
use crate::ordered::{
    before, del, del_all, lemma_bound_is, lookup, lower_bound, put, put_all, strictly_sorted,
    upper_bound, Rows,
};
use vstd::prelude::*;

verus! {

/// Rows given with their keys, as rows given with the ranks of their keys.
pub open spec fn rows_of<K: TableKey, V>(rows: Seq<(K, V)>) -> Rows<K, V> {
    Seq::new(rows.len(), |i: int| (rows[i].0.rank(), rows[i].1))
}

/// Appending a row appends its ranked form.
pub proof fn lemma_rows_of_push<K: TableKey, V>(rows: Seq<(K, V)>, row: (K, V))
    ensures
        rows_of(rows.push(row)) == rows_of(rows).push((row.0.rank(), row.1)),
{
    assert(rows_of(rows.push(row)) =~= rows_of(rows).push((row.0.rank(), row.1)));
}

/// An ordered table: rows of a key and a value, kept in the order of
/// their keys, with at most one row per key.
pub struct Table<K: TableKey, V> {
    rows: Vec<(K, V)>,
}

impl<K: TableKey, V> Table<K, V> {
    /// The rows of the table in key order.
    pub closed spec fn entries(&self) -> Rows<K, V> {
        Seq::new(self.rows@.len(), |i: int| (self.rows@[i].0.rank(), self.rows@[i].1))
    }

    /// The table's invariant: its rows are strictly sorted by key.
    pub open spec fn wf(&self) -> bool {
        strictly_sorted::<K, V>(self.entries())
    }

    /// An empty table.
    pub fn new() -> (t: Self)
        ensures
            t.wf(),
            t.entries() == Seq::<(K::Rank, V)>::empty(),
            forall|q: K::Rank| #[trigger] lookup::<K, V>(t.entries(), q) is None,
    {
        let t = Table { rows: Vec::new() };
        assert(t.entries() =~= Seq::<(K::Rank, V)>::empty());
        assert forall|q: K::Rank| #[trigger] lookup::<K, V>(t.entries(), q) is None by {
            crate::ordered::lemma_leading(crate::ordered::before_flags::<K, V>(t.entries(), q, false));
        }
        t
    }

    /// The number of rows.
    pub fn len(&self) -> (n: usize)
        ensures
            n == self.entries().len(),
    {
        self.rows.len()
    }

    /// Whether the table has no row.
    pub fn is_empty(&self) -> (b: bool)
        ensures
            b == (self.entries().len() == 0),
    {
        self.rows.len() == 0
    }

    /// The key of the row at position `i`.
    pub fn key_at(&self, i: usize) -> (k: &K)
        requires
            i < self.entries().len(),
        ensures
            k.rank() == self.entries()[i as int].0,
    {
        &self.rows[i].0
    }

    /// The value of the row at position `i`.
    pub fn value_at(&self, i: usize) -> (v: &V)
        requires
            i < self.entries().len(),
        ensures
            *v == self.entries()[i as int].1,
    {
        &self.rows[i].1
    }

    /// Finds a bound by bisection: the number of rows that lie before `key`,
    /// the row of `key` itself counting when the bound is inclusive.
    fn bound(&self, key: &K, inclusive: bool) -> (n: usize)
        requires
            self.wf(),
        ensures
            n <= self.entries().len(),
            !inclusive ==> n == lower_bound::<K, V>(self.entries(), key.rank()),
            inclusive ==> n == upper_bound::<K, V>(self.entries(), key.rank()),
    {
        let ghost s = self.entries();
        let ghost k = key.rank();
        let mut lo: usize = 0;
        let mut hi: usize = self.rows.len();
        while lo < hi
            invariant
                s == self.entries(),
                k == key.rank(),
                strictly_sorted::<K, V>(s),
                lo <= hi <= s.len(),
                s.len() == self.rows@.len(),
                lo > 0 ==> before::<K>(s[lo - 1].0, k, inclusive),
                hi < s.len() ==> !before::<K>(s[hi as int].0, k, inclusive),
            decreases hi - lo,
        {
            let mid = lo + (hi - lo) / 2;
            let o = self.rows[mid].0.compare(key);
            proof {
                K::lemma_irreflexive(k);
                if K::rank_lt(s[mid as int].0, k) && K::rank_lt(k, s[mid as int].0) {
                    K::lemma_transitive(k, s[mid as int].0, k);
                }
            }
            let goes_before = match o {
                KeyOrder::Less => true,
                KeyOrder::Equal => inclusive,
                KeyOrder::Greater => false,
            };
            if goes_before {
                lo = mid + 1;
            } else {
                hi = mid;
            }
        }
        proof {
            assert forall|i: int| 0 <= i < lo implies before::<K>(
                #[trigger] s[i].0,
                k,
                inclusive,
            ) by {
                if i < lo - 1 {
                    assert(K::rank_lt(s[i].0, s[lo - 1].0));
                    if K::rank_lt(s[lo - 1].0, k) {
                        K::lemma_transitive(s[i].0, s[lo - 1].0, k);
                    }
                }
            }
            lemma_bound_is::<K, V>(s, k, inclusive, lo as int);
        }
        lo
    }

    /// The position of the first row whose key is `key` or greater.
    pub fn seek(&self, key: &K) -> (n: usize)
        requires
            self.wf(),
        ensures
            n <= self.entries().len(),
            n == lower_bound::<K, V>(self.entries(), key.rank()),
    {
        self.bound(key, false)
    }

    /// The position after the last row whose key is `key` or less.
    pub fn seek_prior(&self, key: &K) -> (n: usize)
        requires
            self.wf(),
        ensures
            n <= self.entries().len(),
            n == upper_bound::<K, V>(self.entries(), key.rank()),
    {
        self.bound(key, true)
    }

    /// The value stored under `key`, if any.
    pub fn get(&self, key: &K) -> (r: Option<&V>)
        requires
            self.wf(),
        ensures
            r == match lookup::<K, V>(self.entries(), key.rank()) {
                Some(v) => Some(&v),
                None => None,
            },
    {
        let n = self.bound(key, false);
        if n < self.rows.len() {
            match self.rows[n].0.compare(key) {
                KeyOrder::Equal => Some(&self.rows[n].1),
                _ => None,
            }
        } else {
            None
        }
    }

    /// Stores `value` under `key`, replacing what the key held.
    pub fn insert(&mut self, key: K, value: V)
        requires
            old(self).wf(),
        ensures
            final(self).wf(),
            final(self).entries() == put::<K, V>(old(self).entries(), key.rank(), value),
            forall|q: K::Rank| #[trigger]
                lookup::<K, V>(final(self).entries(), q) == if q == key.rank() {
                    Some(value)
                } else {
                    lookup::<K, V>(old(self).entries(), q)
                },
    {
        let ghost s = self.entries();
        let ghost k = key.rank();
        proof {
            assert forall|q: K::Rank| #[trigger]
                lookup::<K, V>(put::<K, V>(s, k, value), q) == if q == k {
                    Some(value)
                } else {
                    lookup::<K, V>(s, q)
                } by {
                crate::ordered::lemma_lookup_put::<K, V>(s, k, value, q);
            }
        }
        let n = self.bound(&key, false);
        let replace = if n < self.rows.len() {
            match self.rows[n].0.compare(&key) {
                KeyOrder::Equal => true,
                _ => false,
            }
        } else {
            false
        };
        if replace {
            self.rows.set(n, (key, value));
            assert(self.entries() =~= s.update(n as int, (k, value)));
        } else {
            self.rows.insert(n, (key, value));
            assert(self.entries() =~= s.insert(n as int, (k, value)));
        }
        proof {
            crate::ordered::lemma_put_sorted::<K, V>(s, k, value);
        }
    }

    /// Deletes the row of `key`, if there is one.
    pub fn remove(&mut self, key: &K)
        requires
            old(self).wf(),
        ensures
            final(self).wf(),
            final(self).entries() == del::<K, V>(old(self).entries(), key.rank()),
            forall|q: K::Rank| #[trigger]
                lookup::<K, V>(final(self).entries(), q) == if q == key.rank() {
                    None
                } else {
                    lookup::<K, V>(old(self).entries(), q)
                },
    {
        let ghost s = self.entries();
        let ghost k = key.rank();
        proof {
            assert forall|q: K::Rank| #[trigger]
                lookup::<K, V>(del::<K, V>(s, k), q) == if q == k {
                    None
                } else {
                    lookup::<K, V>(s, q)
                } by {
                crate::ordered::lemma_lookup_del::<K, V>(s, k, q);
            }
        }
        let n = self.bound(key, false);
        let found = if n < self.rows.len() {
            match self.rows[n].0.compare(key) {
                KeyOrder::Equal => true,
                _ => false,
            }
        } else {
            false
        };
        if found {
            let _ = self.rows.remove(n);
            assert(self.entries() =~= s.remove(n as int));
        }
        proof {
            crate::ordered::lemma_del_sorted::<K, V>(s, k);
        }
    }

    /// Stores each of `rows`, first to last.
    pub fn insert_all(&mut self, rows: Vec<(K, V)>)
        requires
            old(self).wf(),
        ensures
            final(self).wf(),
            final(self).entries() == put_all::<K, V>(old(self).entries(), rows_of(rows@)),
    {
        let ghost start = self.entries();
        let ghost all = rows_of(rows@);
        assert(all.take(0) =~= Seq::<(K::Rank, V)>::empty());
        for row in it: rows
            invariant
                self.wf(),
                all == rows_of(it.seq()),
                self.entries() == put_all::<K, V>(start, all.take(it.index() as int)),
        {
            proof {
                let n = it.index() as int;
                assert(all.take(n + 1).drop_last() =~= all.take(n));
                assert(all.take(n + 1).last() == all[n]);
            }
            self.insert(row.0, row.1);
        }
        assert(all.take(all.len() as int) =~= all);
    }

    /// Deletes the row of each of `keys`, first to last.
    pub fn remove_all(&mut self, keys: &Vec<K>)
        requires
            old(self).wf(),
        ensures
            final(self).wf(),
            final(self).entries() == del_all::<K, V>(old(self).entries(), crate::lex::ranks_of(keys@)),
    {
        let ghost start = self.entries();
        let ghost all = crate::lex::ranks_of(keys@);
        assert(all.take(0) =~= Seq::<K::Rank>::empty());
        let mut i: usize = 0;
        while i < keys.len()
            invariant
                self.wf(),
                i <= keys.len(),
                all == crate::lex::ranks_of(keys@),
                self.entries() == del_all::<K, V>(start, all.take(i as int)),
            decreases keys.len() - i,
        {
            proof {
                assert(all.take(i + 1).drop_last() =~= all.take(i as int));
                assert(all.take(i + 1).last() == all[i as int]);
            }
            self.remove(&keys[i]);
            i += 1;
        }
        assert(all.take(all.len() as int) =~= all);
    }
}

} // verus!
