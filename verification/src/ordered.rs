use crate::keys::TableKey;
use vstd::prelude::*;

verus! {

/// The rows of a table as a mathematical value: pairs of a key's rank and
/// the value stored under it.
pub type Rows<K, V> = Seq<(<K as TableKey>::Rank, V)>;

/// The number of `true` flags before the first `false` one.
pub open spec fn leading(flags: Seq<bool>) -> int
    decreases flags.len(),
{
    if flags.len() == 0 || !flags[0] {
        0
    } else {
        1 + leading(flags.skip(1))
    }
}

pub proof fn lemma_leading(flags: Seq<bool>)
    ensures
        0 <= leading(flags) <= flags.len(),
        forall|i: int| 0 <= i < leading(flags) ==> flags[i],
        leading(flags) < flags.len() ==> !flags[leading(flags)],
    decreases flags.len(),
{
    if flags.len() > 0 && flags[0] {
        let rest = flags.skip(1);
        lemma_leading(rest);
        assert forall|i: int| 0 <= i < leading(flags) implies flags[i] by {
            if i > 0 {
                assert(flags[i] == rest[i - 1]);
            }
        }
        if leading(flags) < flags.len() {
            assert(flags[leading(flags)] == rest[leading(rest)]);
        }
    }
}

pub proof fn lemma_leading_is(flags: Seq<bool>, n: int)
    requires
        0 <= n <= flags.len(),
        forall|i: int| 0 <= i < n ==> flags[i],
        n < flags.len() ==> !flags[n],
    ensures
        leading(flags) == n,
    decreases n,
{
    if n > 0 {
        let rest = flags.skip(1);
        assert(flags[0]);
        assert forall|i: int| 0 <= i < n - 1 implies rest[i] by {
            assert(rest[i] == flags[i + 1]);
        }
        if n - 1 < rest.len() {
            assert(rest[n - 1] == flags[n]);
        }
        lemma_leading_is(rest, n - 1);
    }
}

/// Rows are strictly sorted when their keys increase from each row to the
/// next; no key then occurs twice.
pub open spec fn strictly_sorted<K: TableKey, V>(s: Rows<K, V>) -> bool {
    forall|i: int, j: int| 0 <= i < j < s.len() ==> K::rank_lt(#[trigger] s[i].0, #[trigger] s[j].0)
}

/// Whether key `a` lies before the bound `k`; an inclusive bound admits `k`
/// itself.
pub open spec fn before<K: TableKey>(a: K::Rank, k: K::Rank, inclusive: bool) -> bool {
    K::rank_lt(a, k) || (inclusive && a == k)
}

pub open spec fn before_flags<K: TableKey, V>(s: Rows<K, V>, k: K::Rank, inclusive: bool) -> Seq<
    bool,
> {
    Seq::new(s.len(), |i: int| before::<K>(s[i].0, k, inclusive))
}

/// The position of the first row whose key is `k` or greater (the number of
/// rows if there is none).
pub open spec fn lower_bound<K: TableKey, V>(s: Rows<K, V>, k: K::Rank) -> int {
    leading(before_flags::<K, V>(s, k, false))
}

/// The position after the last row whose key is `k` or less (zero if there
/// is none).
pub open spec fn upper_bound<K: TableKey, V>(s: Rows<K, V>, k: K::Rank) -> int {
    leading(before_flags::<K, V>(s, k, true))
}

/// The value stored under `k`, if any.
pub open spec fn lookup<K: TableKey, V>(s: Rows<K, V>, k: K::Rank) -> Option<V> {
    let i = lower_bound::<K, V>(s, k);
    if i < s.len() && s[i].0 == k {
        Some(s[i].1)
    } else {
        None
    }
}

/// The rows after storing `v` under `k`: the row of `k` is replaced if
/// there is one, and otherwise a new row enters at its place in the order.
pub open spec fn put<K: TableKey, V>(s: Rows<K, V>, k: K::Rank, v: V) -> Rows<K, V> {
    let i = lower_bound::<K, V>(s, k);
    if i < s.len() && s[i].0 == k {
        s.update(i, (k, v))
    } else {
        s.insert(i, (k, v))
    }
}

/// The rows after deleting the row of `k`, if there is one.
pub open spec fn del<K: TableKey, V>(s: Rows<K, V>, k: K::Rank) -> Rows<K, V> {
    let i = lower_bound::<K, V>(s, k);
    if i < s.len() && s[i].0 == k {
        s.remove(i)
    } else {
        s
    }
}

/// The rows after storing each of `rows`, first to last.
pub open spec fn put_all<K: TableKey, V>(s: Rows<K, V>, rows: Rows<K, V>) -> Rows<K, V>
    decreases rows.len(),
{
    if rows.len() == 0 {
        s
    } else {
        put::<K, V>(put_all::<K, V>(s, rows.drop_last()), rows.last().0, rows.last().1)
    }
}

/// The rows after deleting each of `keys`, first to last.
pub open spec fn del_all<K: TableKey, V>(s: Rows<K, V>, keys: Seq<K::Rank>) -> Rows<K, V>
    decreases keys.len(),
{
    if keys.len() == 0 {
        s
    } else {
        del::<K, V>(del_all::<K, V>(s, keys.drop_last()), keys.last())
    }
}

/// What a bound is, in terms of the rows around it.
pub proof fn lemma_bound<K: TableKey, V>(s: Rows<K, V>, k: K::Rank, inclusive: bool)
    requires
        strictly_sorted::<K, V>(s),
    ensures
        0 <= leading(before_flags::<K, V>(s, k, inclusive)) <= s.len(),
        forall|i: int|
            0 <= i < leading(before_flags::<K, V>(s, k, inclusive)) ==> before::<K>(
                #[trigger] s[i].0,
                k,
                inclusive,
            ),
        forall|i: int|
            leading(before_flags::<K, V>(s, k, inclusive)) <= i < s.len() ==> !before::<K>(
                #[trigger] s[i].0,
                k,
                inclusive,
            ),
{
    let flags = before_flags::<K, V>(s, k, inclusive);
    let n = leading(flags);
    lemma_leading(flags);
    assert forall|i: int| 0 <= i < n implies before::<K>(#[trigger] s[i].0, k, inclusive) by {
        assert(flags[i]);
    }
    assert forall|i: int| n <= i < s.len() implies !before::<K>(
        #[trigger] s[i].0,
        k,
        inclusive,
    ) by {
        assert(!flags[n]);
        if i > n && before::<K>(s[i].0, k, inclusive) {
            assert(K::rank_lt(s[n].0, s[i].0));
            if K::rank_lt(s[i].0, k) {
                K::lemma_transitive(s[n].0, s[i].0, k);
            }
        }
    }
}

/// A position that splits the rows at the bound is the bound.
pub proof fn lemma_bound_is<K: TableKey, V>(s: Rows<K, V>, k: K::Rank, inclusive: bool, n: int)
    requires
        0 <= n <= s.len(),
        forall|i: int| 0 <= i < n ==> before::<K>(#[trigger] s[i].0, k, inclusive),
        n < s.len() ==> !before::<K>(s[n].0, k, inclusive),
    ensures
        leading(before_flags::<K, V>(s, k, inclusive)) == n,
{
    let flags = before_flags::<K, V>(s, k, inclusive);
    assert forall|i: int| 0 <= i < n implies flags[i] by {
        assert(before::<K>(s[i].0, k, inclusive));
    }
    lemma_leading_is(flags, n);
}

/// In sorted rows each row is found at its own position.
pub proof fn lemma_lookup_row<K: TableKey, V>(s: Rows<K, V>, i: int)
    requires
        strictly_sorted::<K, V>(s),
        0 <= i < s.len(),
    ensures
        lower_bound::<K, V>(s, s[i].0) == i,
        upper_bound::<K, V>(s, s[i].0) == i + 1,
        lookup::<K, V>(s, s[i].0) == Some(s[i].1),
{
    let k = s[i].0;
    K::lemma_irreflexive(k);
    assert forall|j: int| 0 <= j < i implies before::<K>(#[trigger] s[j].0, k, false) by {}
    lemma_bound_is::<K, V>(s, k, false, i);
    assert forall|j: int| 0 <= j < i + 1 implies before::<K>(#[trigger] s[j].0, k, true) by {}
    if i + 1 < s.len() {
        assert(K::rank_lt(s[i].0, s[i + 1].0));
        if K::rank_lt(s[i + 1].0, k) {
            K::lemma_transitive(k, s[i + 1].0, k);
        }
    }
    lemma_bound_is::<K, V>(s, k, true, i + 1);
}

/// A key is stored exactly when some row carries it.
pub proof fn lemma_lookup_some<K: TableKey, V>(s: Rows<K, V>, k: K::Rank)
    requires
        strictly_sorted::<K, V>(s),
    ensures
        lookup::<K, V>(s, k).is_some() <==> exists|i: int| 0 <= i < s.len() && #[trigger] s[i].0 == k,
{
    let n = lower_bound::<K, V>(s, k);
    lemma_bound::<K, V>(s, k, false);
    if lookup::<K, V>(s, k).is_some() {
        assert(s[n].0 == k);
    }
    if exists|i: int| 0 <= i < s.len() && #[trigger] s[i].0 == k {
        let i = choose|i: int| 0 <= i < s.len() && #[trigger] s[i].0 == k;
        lemma_lookup_row::<K, V>(s, i);
    }
}

/// Storing a row keeps the rows sorted.
pub proof fn lemma_put_sorted<K: TableKey, V>(s: Rows<K, V>, k: K::Rank, v: V)
    requires
        strictly_sorted::<K, V>(s),
    ensures
        strictly_sorted::<K, V>(put::<K, V>(s, k, v)),
{
    let n = lower_bound::<K, V>(s, k);
    let t = put::<K, V>(s, k, v);
    lemma_bound::<K, V>(s, k, false);
    if n < s.len() && s[n].0 == k {
        assert forall|i: int, j: int| 0 <= i < j < t.len() implies K::rank_lt(
            #[trigger] t[i].0,
            #[trigger] t[j].0,
        ) by {
            assert(t[i].0 == s[i].0);
            assert(t[j].0 == s[j].0);
        }
    } else {
        assert forall|i: int, j: int| 0 <= i < j < t.len() implies K::rank_lt(
            #[trigger] t[i].0,
            #[trigger] t[j].0,
        ) by {
            if j < n {
                assert(t[i] == s[i] && t[j] == s[j]);
            } else if j == n {
                assert(t[i] == s[i]);
                assert(before::<K>(s[i].0, k, false));
            } else {
                assert(t[j] == s[j - 1]);
                assert(!before::<K>(s[j - 1].0, k, false));
                assert(!before::<K>(s[n].0, k, false));
                K::lemma_total(s[n].0, k);
                if j - 1 > n {
                    assert(K::rank_lt(s[n].0, s[j - 1].0));
                    K::lemma_transitive(k, s[n].0, s[j - 1].0);
                }
                assert(K::rank_lt(k, s[j - 1].0));
                if i < n {
                    assert(t[i] == s[i]);
                    assert(before::<K>(s[i].0, k, false));
                    K::lemma_transitive(s[i].0, k, s[j - 1].0);
                } else if i > n {
                    assert(t[i] == s[i - 1]);
                }
            }
        }
    }
}

/// After storing `v` under `k`, that key holds `v` and every other key
/// holds what it held before.
pub proof fn lemma_lookup_put<K: TableKey, V>(s: Rows<K, V>, k: K::Rank, v: V, q: K::Rank)
    requires
        strictly_sorted::<K, V>(s),
    ensures
        lookup::<K, V>(put::<K, V>(s, k, v), q) == if q == k {
            Some(v)
        } else {
            lookup::<K, V>(s, q)
        },
{
    let n = lower_bound::<K, V>(s, k);
    let t = put::<K, V>(s, k, v);
    let replaced = n < s.len() && s[n].0 == k;
    lemma_bound::<K, V>(s, k, false);
    lemma_put_sorted::<K, V>(s, k, v);
    assert(t[n] == (k, v));
    if q == k {
        lemma_lookup_row::<K, V>(t, n);
    } else {
        lemma_lookup_some::<K, V>(s, q);
        lemma_lookup_some::<K, V>(t, q);
        lemma_bound::<K, V>(s, q, false);
        lemma_bound::<K, V>(t, q, false);
        if lookup::<K, V>(s, q).is_some() {
            let i = lower_bound::<K, V>(s, q);
            let i2 = if replaced || i < n {
                i
            } else {
                i + 1
            };
            assert(t[i2] == s[i]);
            lemma_lookup_row::<K, V>(t, i2);
        } else if lookup::<K, V>(t, q).is_some() {
            let i2 = lower_bound::<K, V>(t, q);
            let i = if replaced || i2 < n {
                i2
            } else {
                i2 - 1
            };
            assert(t[i2] == s[i]);
            assert(s[i].0 == q);
        }
    }
}

/// Deleting a row keeps the rows sorted.
pub proof fn lemma_del_sorted<K: TableKey, V>(s: Rows<K, V>, k: K::Rank)
    requires
        strictly_sorted::<K, V>(s),
    ensures
        strictly_sorted::<K, V>(del::<K, V>(s, k)),
{
    let n = lower_bound::<K, V>(s, k);
    let t = del::<K, V>(s, k);
    lemma_bound::<K, V>(s, k, false);
    if n < s.len() && s[n].0 == k {
        assert forall|i: int, j: int| 0 <= i < j < t.len() implies K::rank_lt(
            #[trigger] t[i].0,
            #[trigger] t[j].0,
        ) by {
            let i0 = if i < n {
                i
            } else {
                i + 1
            };
            let j0 = if j < n {
                j
            } else {
                j + 1
            };
            assert(t[i] == s[i0] && t[j] == s[j0]);
        }
    }
}

/// After deleting `k`, that key holds nothing and every other key holds
/// what it held before.
pub proof fn lemma_lookup_del<K: TableKey, V>(s: Rows<K, V>, k: K::Rank, q: K::Rank)
    requires
        strictly_sorted::<K, V>(s),
    ensures
        lookup::<K, V>(del::<K, V>(s, k), q) == if q == k {
            None
        } else {
            lookup::<K, V>(s, q)
        },
{
    let n = lower_bound::<K, V>(s, k);
    let t = del::<K, V>(s, k);
    let removed = n < s.len() && s[n].0 == k;
    lemma_bound::<K, V>(s, k, false);
    lemma_del_sorted::<K, V>(s, k);
    lemma_lookup_some::<K, V>(s, q);
    lemma_lookup_some::<K, V>(t, q);
    lemma_bound::<K, V>(s, q, false);
    lemma_bound::<K, V>(t, q, false);
    if lookup::<K, V>(t, q).is_some() {
        let i2 = lower_bound::<K, V>(t, q);
        let i = if !removed || i2 < n {
            i2
        } else {
            i2 + 1
        };
        assert(t[i2] == s[i]);
        lemma_lookup_row::<K, V>(s, i);
        if q == k {
            lemma_lookup_row::<K, V>(s, n);
        }
    } else if q != k && lookup::<K, V>(s, q).is_some() {
        let i = lower_bound::<K, V>(s, q);
        let i2 = if !removed || i < n {
            i
        } else {
            i - 1
        };
        assert(t[i2] == s[i]);
    } else if q == k && !removed {
        assert(lookup::<K, V>(s, q).is_none());
    }
}

/// Storing rows one after another keeps the rows sorted.
pub proof fn lemma_put_all_sorted<K: TableKey, V>(s: Rows<K, V>, rows: Rows<K, V>)
    requires
        strictly_sorted::<K, V>(s),
    ensures
        strictly_sorted::<K, V>(put_all::<K, V>(s, rows)),
    decreases rows.len(),
{
    if rows.len() > 0 {
        lemma_put_all_sorted::<K, V>(s, rows.drop_last());
        lemma_put_sorted::<K, V>(
            put_all::<K, V>(s, rows.drop_last()),
            rows.last().0,
            rows.last().1,
        );
    }
}

/// Deleting keys one after another keeps the rows sorted.
pub proof fn lemma_del_all_sorted<K: TableKey, V>(s: Rows<K, V>, keys: Seq<K::Rank>)
    requires
        strictly_sorted::<K, V>(s),
    ensures
        strictly_sorted::<K, V>(del_all::<K, V>(s, keys)),
    decreases keys.len(),
{
    if keys.len() > 0 {
        lemma_del_all_sorted::<K, V>(s, keys.drop_last());
        lemma_del_sorted::<K, V>(del_all::<K, V>(s, keys.drop_last()), keys.last());
    }
}

/// Storing a single row is one `put`.
pub proof fn lemma_put_all_one<K: TableKey, V>(s: Rows<K, V>, k: K::Rank, v: V)
    ensures
        put_all::<K, V>(s, seq![(k, v)]) == put::<K, V>(s, k, v),
{
    let rows = seq![(k, v)];
    assert(rows.drop_last() =~= Seq::<(K::Rank, V)>::empty());
    assert(put_all::<K, V>(s, rows.drop_last()) == s);
    assert(rows.last() == (k, v));
}

/// After a `put`, every row is the stored one or a row from before.
pub proof fn lemma_put_rows<K: TableKey, V>(s: Rows<K, V>, k: K::Rank, v: V)
    ensures
        forall|i: int|
            0 <= i < put::<K, V>(s, k, v).len() ==> {
                let row = #[trigger] put::<K, V>(s, k, v)[i];
                row == (k, v) || exists|j: int| 0 <= j < s.len() && s[j] == row
            },
{
    let n = lower_bound::<K, V>(s, k);
    let t = put::<K, V>(s, k, v);
    lemma_leading(before_flags::<K, V>(s, k, false));
    assert forall|i: int| 0 <= i < t.len() implies ({
        let row = #[trigger] t[i];
        row == (k, v) || exists|j: int| 0 <= j < s.len() && s[j] == row
    }) by {
        if i != n {
            let j = if n < s.len() && s[n].0 == k || i < n {
                i
            } else {
                i - 1
            };
            assert(s[j] == t[i]);
        }
    }
}

/// The value that the last row of `rows` under the key `q` carries, if
/// any row has that key.
pub open spec fn last_stored<K: TableKey, V>(rows: Rows<K, V>, q: K::Rank) -> Option<V>
    decreases rows.len(),
{
    if rows.len() == 0 {
        None
    } else if rows.last().0 == q {
        Some(rows.last().1)
    } else {
        last_stored::<K, V>(rows.drop_last(), q)
    }
}

/// After storing rows one after another, a key holds what the last row
/// under it carries, and what it held before where no row is under it.
pub proof fn lemma_lookup_put_all<K: TableKey, V>(s: Rows<K, V>, rows: Rows<K, V>, q: K::Rank)
    requires
        strictly_sorted::<K, V>(s),
    ensures
        lookup::<K, V>(put_all::<K, V>(s, rows), q) == match last_stored::<K, V>(rows, q) {
            Some(v) => Some(v),
            None => lookup::<K, V>(s, q),
        },
    decreases rows.len(),
{
    if rows.len() > 0 {
        let inner = put_all::<K, V>(s, rows.drop_last());
        lemma_put_all_sorted::<K, V>(s, rows.drop_last());
        lemma_lookup_put_all::<K, V>(s, rows.drop_last(), q);
        lemma_lookup_put::<K, V>(inner, rows.last().0, rows.last().1, q);
    }
}

/// After deleting keys one after another, each of them holds nothing and
/// every other key holds what it held before.
pub proof fn lemma_lookup_del_all<K: TableKey, V>(s: Rows<K, V>, keys: Seq<K::Rank>, q: K::Rank)
    requires
        strictly_sorted::<K, V>(s),
    ensures
        lookup::<K, V>(del_all::<K, V>(s, keys), q) == if keys.contains(q) {
            None
        } else {
            lookup::<K, V>(s, q)
        },
    decreases keys.len(),
{
    if keys.len() > 0 {
        let inner = del_all::<K, V>(s, keys.drop_last());
        lemma_del_all_sorted::<K, V>(s, keys.drop_last());
        lemma_lookup_del_all::<K, V>(s, keys.drop_last(), q);
        lemma_lookup_del::<K, V>(inner, keys.last(), q);
        if keys.contains(q) {
            let i = choose|i: int| 0 <= i < keys.len() && keys[i] == q;
            if i < keys.len() - 1 {
                assert(keys.drop_last()[i] == q);
            }
        } else if keys.drop_last().contains(q) {
            let i = choose|i: int| 0 <= i < keys.drop_last().len() && keys.drop_last()[i] == q;
            assert(keys[i] == q);
        }
    }
}

/// Where every row carries the same value, a key that some row has holds
/// that value.
pub proof fn lemma_last_stored_uniform<K: TableKey, V>(rows: Rows<K, V>, at: int, v: V)
    requires
        0 <= at < rows.len(),
        forall|i: int| 0 <= i < rows.len() ==> (#[trigger] rows[i]).1 == v,
    ensures
        last_stored::<K, V>(rows, rows[at].0) == Some(v),
    decreases rows.len(),
{
    if rows.last().0 != rows[at].0 {
        assert(rows.drop_last()[at] == rows[at]);
        lemma_last_stored_uniform::<K, V>(rows.drop_last(), at, v);
    }
}

/// After storing rows one after another, every row is one of the stored
/// rows or a row from before.
pub proof fn lemma_put_all_rows<K: TableKey, V>(s: Rows<K, V>, rows: Rows<K, V>)
    ensures
        forall|i: int|
            0 <= i < put_all::<K, V>(s, rows).len() ==> {
                let row = #[trigger] put_all::<K, V>(s, rows)[i];
                rows.contains(row) || s.contains(row)
            },
    decreases rows.len(),
{
    if rows.len() > 0 {
        let inner = put_all::<K, V>(s, rows.drop_last());
        let t = put_all::<K, V>(s, rows);
        lemma_put_all_rows::<K, V>(s, rows.drop_last());
        lemma_put_rows::<K, V>(inner, rows.last().0, rows.last().1);
        assert forall|i: int| 0 <= i < t.len() implies ({
            let row = #[trigger] t[i];
            rows.contains(row) || s.contains(row)
        }) by {
            let row = t[i];
            if row == (rows.last().0, rows.last().1) {
                assert(rows[rows.len() - 1] == row);
            } else {
                let j = choose|j: int| 0 <= j < inner.len() && inner[j] == row;
                if rows.drop_last().contains(row) {
                    let k = choose|k: int|
                        0 <= k < rows.drop_last().len() && rows.drop_last()[k] == row;
                    assert(rows[k] == row);
                }
            }
        }
    }
}

/// Storing sorted rows whose keys are all greater than every key of the
/// table appends them.
pub proof fn lemma_put_all_appends<K: TableKey, V>(s: Rows<K, V>, rows: Rows<K, V>)
    requires
        strictly_sorted::<K, V>(s),
        strictly_sorted::<K, V>(rows),
        forall|i: int, j: int|
            0 <= i < s.len() && 0 <= j < rows.len() ==> K::rank_lt(
                (#[trigger] s[i]).0,
                (#[trigger] rows[j]).0,
            ),
    ensures
        put_all::<K, V>(s, rows) == s + rows,
    decreases rows.len(),
{
    if rows.len() == 0 {
        assert(s + rows =~= s);
    } else {
        let front = rows.drop_last();
        let last = rows.last();
        assert forall|i: int, j: int| 0 <= i < j < front.len() implies K::rank_lt(
            #[trigger] front[i].0,
            #[trigger] front[j].0,
        ) by {
            assert(front[i] == rows[i] && front[j] == rows[j]);
        }
        assert forall|i: int, j: int| 0 <= i < s.len() && 0 <= j < front.len() implies K::rank_lt(
            (#[trigger] s[i]).0,
            (#[trigger] front[j]).0,
        ) by {
            assert(front[j] == rows[j]);
        }
        lemma_put_all_appends::<K, V>(s, front);
        let t = s + front;
        assert forall|i: int| 0 <= i < t.len() implies before::<K>(
            #[trigger] t[i].0,
            last.0,
            false,
        ) by {
            if i < s.len() {
                assert(t[i] == s[i]);
                assert(rows[rows.len() - 1] == last);
            } else {
                assert(t[i] == rows[i - s.len()]);
                assert(rows[rows.len() - 1] == last);
            }
        }
        lemma_bound_is::<K, V>(t, last.0, false, t.len() as int);
        assert(put::<K, V>(t, last.0, last.1) =~= s + rows);
    }
}

} // verus!
