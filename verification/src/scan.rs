use crate::keys::{lemma_asymmetric, KeyOrder, TableKey};
use crate::ordered::{
    before, before_flags, leading, lemma_bound, lemma_leading, lemma_leading_is, lemma_lookup_row,
    lower_bound, strictly_sorted, upper_bound, Rows,
};
use crate::table::Table;
use vstd::prelude::*;

verus! {

/// A test on keys that decides how far a scan runs: the scan ends before
/// the first row whose key the filter does not admit.
pub trait RowFilter<K: TableKey> {
    spec fn admits(&self, key: K::Rank) -> bool;

    fn test(&self, key: &K) -> (b: bool)
        ensures
            b == self.admits(key.rank()),
    ;
}

/// The filter that admits every key.
pub struct Everything;

impl<K: TableKey> RowFilter<K> for Everything {
    open spec fn admits(&self, key: K::Rank) -> bool {
        true
    }

    fn test(&self, key: &K) -> (b: bool) {
        true
    }
}

/// The filter that admits the pairs whose first component has the rank of
/// the given key.
pub struct HeadIs<'a, A>(pub &'a A);

impl<'a, A: TableKey, B: TableKey> RowFilter<(A, B)> for HeadIs<'a, A> {
    open spec fn admits(&self, key: (A::Rank, B::Rank)) -> bool {
        key.0 == self.0.rank()
    }

    fn test(&self, key: &(A, B)) -> (b: bool) {
        match self.0.compare(&key.0) {
            KeyOrder::Equal => true,
            _ => false,
        }
    }
}

/// The filter that admits the pairs whose first component is at most the
/// given number.
pub struct HeadAtMost(pub u64);

impl<B: TableKey> RowFilter<(u64, B)> for HeadAtMost {
    open spec fn admits(&self, key: (u64, B::Rank)) -> bool {
        key.0 <= self.0
    }

    fn test(&self, key: &(u64, B)) -> (b: bool) {
        key.0 <= self.0
    }
}

/// The filter that admits the pairs whose first component is at least the
/// given number.
pub struct HeadAtLeast(pub u64);

impl<B: TableKey> RowFilter<(u64, B)> for HeadAtLeast {
    open spec fn admits(&self, key: (u64, B::Rank)) -> bool {
        key.0 >= self.0
    }

    fn test(&self, key: &(u64, B)) -> (b: bool) {
        key.0 >= self.0
    }
}

/// The rows that a scan from `start` can reach, in the order in which it
/// visits them: forward, the rows from the first key at or after `start`,
/// ascending; in reverse, the rows up to the last key at or before `start`,
/// descending.
pub open spec fn scan_window<K: TableKey, V>(s: Rows<K, V>, start: K::Rank, reverse: bool) -> Rows<
    K,
    V,
> {
    if reverse {
        s.take(upper_bound::<K, V>(s, start)).reverse()
    } else {
        s.skip(lower_bound::<K, V>(s, start))
    }
}

/// The window of an exclusive scan: the rows of the window but the row of
/// `start` itself. Only a row whose key is `start` is ever left out, and in
/// sorted rows it can only be the first row of the window. A scan that is
/// not exclusive keeps every row.
pub open spec fn after_cursor<K: TableKey, V>(
    w: Rows<K, V>,
    start: K::Rank,
    exclusive: bool,
) -> Rows<K, V> {
    if exclusive && w.len() > 0 && w[0].0 == start {
        w.skip(1)
    } else {
        w
    }
}

pub open spec fn admit_flags<K: TableKey, V, F: RowFilter<K>>(w: Rows<K, V>, filter: F) -> Seq<
    bool,
> {
    Seq::new(w.len(), |i: int| filter.admits(w[i].0))
}

/// The rows before the first one that `filter` does not admit.
pub open spec fn admitted_prefix<K: TableKey, V, F: RowFilter<K>>(
    w: Rows<K, V>,
    filter: F,
) -> Rows<K, V> {
    w.take(leading(admit_flags::<K, V, F>(w, filter)))
}

/// The first `limit` rows, or all of them where there is no limit.
pub open spec fn at_most<A>(w: Seq<A>, limit: Option<usize>) -> Seq<A> {
    match limit {
        Some(n) => if n < w.len() {
            w.take(n as int)
        } else {
            w
        },
        None => w,
    }
}

/// One page of a scan: seek to `start`, leave out the row of `start` itself
/// when the scan is exclusive, keep rows while `filter` admits their keys,
/// and stop at `limit` rows.
pub open spec fn page<K: TableKey, V, F: RowFilter<K>>(
    s: Rows<K, V>,
    start: K::Rank,
    exclusive: bool,
    filter: F,
    limit: Option<usize>,
    reverse: bool,
) -> Rows<K, V> {
    at_most(
        admitted_prefix::<K, V, F>(after_cursor::<K, V>(scan_window::<K, V>(s, start, reverse), start, exclusive), filter),
        limit,
    )
}

/// A run of consecutive row positions, visited upwards from `first` or, in
/// reverse, downwards from it.
#[derive(Clone, Copy, Debug)]
pub struct Span {
    pub first: usize,
    pub count: usize,
    pub reverse: bool,
}

impl Span {
    /// The position of the `i`-th row of the run.
    pub open spec fn position(&self, i: int) -> int {
        if self.reverse {
            self.first - i
        } else {
            self.first + i
        }
    }

    /// Whether every position of the run lies in a table of `len` rows.
    pub open spec fn within(&self, len: int) -> bool {
        self.count > 0 ==> if self.reverse {
            self.first < len && self.count <= self.first + 1
        } else {
            self.first + self.count <= len
        }
    }

    /// The rows of the run, in visiting order.
    pub open spec fn rows_of<A>(&self, s: Seq<A>) -> Seq<A> {
        Seq::new(self.count as nat, |i: int| s[self.position(i)])
    }

    /// The position of the `i`-th row of the run.
    pub fn at(&self, i: usize) -> (p: usize)
        requires
            i < self.count,
            self.reverse ==> i <= self.first,
            !self.reverse ==> self.first + i <= usize::MAX,
        ensures
            p == self.position(i as int),
    {
        if self.reverse {
            self.first - i
        } else {
            self.first + i
        }
    }
}

/// Finds the rows of one page of a scan over `table`.
pub fn locate<K: TableKey, V, F: RowFilter<K>>(
    table: &Table<K, V>,
    start: &K,
    exclusive: bool,
    filter: &F,
    limit: Option<usize>,
    reverse: bool,
) -> (span: Span)
    requires
        table.wf(),
    ensures
        span.reverse == reverse,
        span.within(table.entries().len() as int),
        span.rows_of(table.entries()) == page::<K, V, F>(
            table.entries(),
            start.rank(),
            exclusive,
            *filter,
            limit,
            reverse,
        ),
{
    let ghost s = table.entries();
    let len = table.len();
    let found = if reverse {
        table.seek_prior(start)
    } else {
        table.seek(start)
    };
    // Whether the row that the seek found is the row of `start` itself.
    let at_cursor = if reverse {
        found > 0 && matches!(table.key_at(found - 1).compare(start), KeyOrder::Equal)
    } else {
        found < len && matches!(table.key_at(found).compare(start), KeyOrder::Equal)
    };
    let leave_out = exclusive && at_cursor;
    // `avail` rows can be visited; the first of them is at `origin`.
    let avail: usize = if reverse {
        if leave_out {
            found - 1
        } else {
            found
        }
    } else {
        if leave_out {
            len - found - 1
        } else {
            len - found
        }
    };
    let origin: usize = if reverse {
        if avail > 0 {
            avail - 1
        } else {
            0
        }
    } else {
        len - avail
    };
    let ghost w = after_cursor::<K, V>(
        scan_window::<K, V>(s, start.rank(), reverse),
        start.rank(),
        exclusive,
    );
    let ghost flags = admit_flags::<K, V, F>(w, *filter);
    proof {
        if reverse {
            if found > 0 {
                assert(s.take(found as int).reverse()[0] == s[found - 1]);
            }
            assert(w =~= s.take(avail as int).reverse());
        } else {
            assert(w =~= s.skip(origin as int));
        }
    }
    let cap: usize = match limit {
        Some(n) => if n < avail {
            n
        } else {
            avail
        },
        None => avail,
    };
    let mut count: usize = 0;
    let mut open = true;
    while open && count < cap
        invariant
            s == table.entries(),
            len == s.len(),
            count <= avail <= len,
            w.len() == avail,
            flags == admit_flags::<K, V, F>(w, *filter),
            reverse ==> (avail > 0 ==> origin == avail - 1),
            !reverse ==> origin == len - avail,
            forall|i: int|
                0 <= i < avail ==> #[trigger] w[i] == s[if reverse {
                    origin - i
                } else {
                    origin + i
                }],
            forall|i: int| 0 <= i < count ==> flags[i],
            count <= cap <= avail,
            !open ==> count < avail && !flags[count as int],
        decreases cap - count + (if open { 1int } else { 0int }),
    {
        let p = if reverse {
            origin - count
        } else {
            origin + count
        };
        assert(w[count as int] == s[p as int]);
        if filter.test(table.key_at(p)) {
            count += 1;
        } else {
            open = false;
        }
    }
    let span = Span { first: origin, count, reverse };
    proof {
        lemma_leading(flags);
        let run = leading(flags);
        if !open || count == avail {
            lemma_leading_is(flags, count as int);
        } else {
            assert(limit == Some(count));
            assert(run >= count) by {
                if run < count {
                    assert(flags[run]);
                }
            }
        }
        assert(span.rows_of(s) =~= w.take(count as int));
        assert(page::<K, V, F>(s, start.rank(), exclusive, *filter, limit, reverse) =~= w.take(
            count as int,
        ));
    }
    span
}

/// The values of rows, in order.
pub open spec fn values_of<R, V>(rows: Seq<(R, V)>) -> Seq<V> {
    Seq::new(rows.len(), |i: int| rows[i].1)
}

/// Copies out the values of the rows of `span`, in visiting order.
pub fn collect_values<K: TableKey, V: Copy>(table: &Table<K, V>, span: &Span) -> (values: Vec<V>)
    requires
        span.within(table.entries().len() as int),
    ensures
        values@ == values_of(span.rows_of(table.entries())),
{
    let len = table.len();
    let mut values: Vec<V> = Vec::new();
    let mut i: usize = 0;
    while i < span.count
        invariant
            i <= span.count,
            len == table.entries().len(),
            span.within(table.entries().len() as int),
            values@ == values_of(span.rows_of(table.entries())).take(i as int),
        decreases span.count - i,
    {
        let p = span.at(i);
        values.push(*table.value_at(p));
        assert(values@ =~= values_of(span.rows_of(table.entries())).take(i + 1));
        i += 1;
    }
    assert(values@ =~= values_of(span.rows_of(table.entries())));
    values
}

/// The position of the first row that a forward scan from `start` can
/// return: the first row at or after `start`, and the next one where that
/// row is the row of `start` and the scan is exclusive.
pub open spec fn forward_first<K: TableKey, V>(
    s: Rows<K, V>,
    start: K::Rank,
    exclusive: bool,
) -> int {
    let found = lower_bound::<K, V>(s, start);
    if exclusive && found < s.len() && s[found].0 == start {
        found + 1
    } else {
        found
    }
}

/// The position after the first row that a reverse scan from `start` can
/// return: after the last row at or before `start`, and one earlier where
/// that row is the row of `start` and the scan is exclusive.
pub open spec fn reverse_end<K: TableKey, V>(
    s: Rows<K, V>,
    start: K::Rank,
    exclusive: bool,
) -> int {
    let found = upper_bound::<K, V>(s, start);
    if exclusive && found > 0 && s[found - 1].0 == start {
        found - 1
    } else {
        found
    }
}

/// A forward page is a run of consecutive rows: it begins at
/// `forward_first`, holds only rows that the filter admits, and where no
/// limit cuts it short it ends before a row that the filter does not admit
/// or at the end of the table.
pub proof fn lemma_forward_page<K: TableKey, V, F: RowFilter<K>>(
    s: Rows<K, V>,
    start: K::Rank,
    exclusive: bool,
    filter: F,
    limit: Option<usize>,
)
    ensures
        ({
            let first = forward_first::<K, V>(s, start, exclusive);
            let rows = page::<K, V, F>(s, start, exclusive, filter, limit, false);
            &&& 0 <= first <= first + rows.len() <= s.len()
            &&& rows == s.subrange(first, first + rows.len())
            &&& forall|i: int| first <= i < first + rows.len() ==> filter.admits(#[trigger] s[i].0)
            &&& (limit matches Some(n) ==> rows.len() <= n)
            &&& (limit is None || rows.len() < limit->0) && first + rows.len() < s.len()
                ==> !filter.admits(s[first + rows.len()].0)
        }),
{
    let found = lower_bound::<K, V>(s, start);
    let first = forward_first::<K, V>(s, start, exclusive);
    lemma_leading(before_flags::<K, V>(s, start, false));
    let w = after_cursor::<K, V>(scan_window::<K, V>(s, start, false), start, exclusive);
    assert(w =~= s.skip(first));
    let flags = admit_flags::<K, V, F>(w, filter);
    lemma_leading(flags);
    let n = leading(flags);
    let rows = page::<K, V, F>(s, start, exclusive, filter, limit, false);
    assert(rows =~= s.subrange(first, first + rows.len()));
    assert forall|i: int| first <= i < first + rows.len() implies filter.admits(
        #[trigger] s[i].0,
    ) by {
        assert(flags[i - first]);
    }
    if (limit is None || rows.len() < limit->0) && first + rows.len() < s.len() {
        assert(!flags[n]);
    }
}

/// A reverse page is a run of consecutive rows, last to first: it begins
/// before `reverse_end`, holds only rows that the filter admits, and where
/// no limit cuts it short it ends after a row that the filter does not
/// admit or at the beginning of the table.
pub proof fn lemma_reverse_page<K: TableKey, V, F: RowFilter<K>>(
    s: Rows<K, V>,
    start: K::Rank,
    exclusive: bool,
    filter: F,
    limit: Option<usize>,
)
    ensures
        ({
            let end = reverse_end::<K, V>(s, start, exclusive);
            let rows = page::<K, V, F>(s, start, exclusive, filter, limit, true);
            &&& 0 <= end - rows.len() <= end <= s.len()
            &&& rows == s.subrange(end - rows.len(), end).reverse()
            &&& forall|i: int| end - rows.len() <= i < end ==> filter.admits(#[trigger] s[i].0)
            &&& (limit matches Some(n) ==> rows.len() <= n)
            &&& (limit is None || rows.len() < limit->0) && end - rows.len() > 0 ==> !filter.admits(
                s[end - rows.len() - 1].0,
            )
        }),
{
    let found = upper_bound::<K, V>(s, start);
    let end = reverse_end::<K, V>(s, start, exclusive);
    lemma_leading(before_flags::<K, V>(s, start, true));
    let w = after_cursor::<K, V>(scan_window::<K, V>(s, start, true), start, exclusive);
    assert(w =~= s.take(end).reverse());
    let flags = admit_flags::<K, V, F>(w, filter);
    lemma_leading(flags);
    let n = leading(flags);
    let rows = page::<K, V, F>(s, start, exclusive, filter, limit, true);
    assert(rows =~= s.subrange(end - rows.len(), end).reverse());
    assert forall|i: int| end - rows.len() <= i < end implies filter.admits(#[trigger] s[i].0) by {
        assert(flags[end - 1 - i]);
    }
    if (limit is None || rows.len() < limit->0) && end - rows.len() > 0 {
        assert(!flags[n]);
    }
}

/// The cursor is exclusive: an exclusive page holds no row whose key is
/// the key that the scan starts from, whatever the direction, the filter
/// and the limit, and whether or not the table holds a row of that key.
pub proof fn lemma_cursor_is_excluded<K: TableKey, V, F: RowFilter<K>>(
    s: Rows<K, V>,
    start: K::Rank,
    filter: F,
    limit: Option<usize>,
    reverse: bool,
)
    requires
        strictly_sorted::<K, V>(s),
    ensures
        forall|i: int|
            0 <= i < page::<K, V, F>(s, start, true, filter, limit, reverse).len() ==> (
            #[trigger] page::<K, V, F>(s, start, true, filter, limit, reverse)[i]).0 != start,
{
    let rows = page::<K, V, F>(s, start, true, filter, limit, reverse);
    K::lemma_irreflexive(start);
    if reverse {
        lemma_reverse_page::<K, V, F>(s, start, true, filter, limit);
        lemma_bound::<K, V>(s, start, true);
        let found = upper_bound::<K, V>(s, start);
        let end = reverse_end::<K, V>(s, start, true);
        assert forall|i: int| 0 <= i < rows.len() implies (#[trigger] rows[i]).0 != start by {
            let j = end - 1 - i;
            assert(rows[i] == s[j]);
            if s[j].0 == start {
                assert(j < found - 1);
                assert(K::rank_lt(s[j].0, s[found - 1].0));
                assert(before::<K>(s[found - 1].0, start, true));
                lemma_asymmetric::<K>(start, s[found - 1].0);
            }
        }
    } else {
        lemma_forward_page::<K, V, F>(s, start, true, filter, limit);
        lemma_bound::<K, V>(s, start, false);
        let found = lower_bound::<K, V>(s, start);
        let first = forward_first::<K, V>(s, start, true);
        assert forall|i: int| 0 <= i < rows.len() implies (#[trigger] rows[i]).0 != start by {
            let j = first + i;
            assert(rows[i] == s[j]);
            if s[j].0 == start {
                assert(j > found);
                assert(K::rank_lt(s[found].0, s[j].0));
                assert(!before::<K>(s[found].0, start, false));
            }
        }
    }
}

/// Only the row of the cursor is ever left out: where the table holds no
/// row of the key that the scan starts from, the exclusive page is the page
/// that is not exclusive, so that a cursor that is no longer there loses
/// no row.
pub proof fn lemma_absent_cursor_leaves_out_nothing<K: TableKey, V, F: RowFilter<K>>(
    s: Rows<K, V>,
    start: K::Rank,
    filter: F,
    limit: Option<usize>,
    reverse: bool,
)
    requires
        strictly_sorted::<K, V>(s),
        crate::ordered::lookup::<K, V>(s, start) is None,
    ensures
        page::<K, V, F>(s, start, true, filter, limit, reverse) == page::<K, V, F>(
            s,
            start,
            false,
            filter,
            limit,
            reverse,
        ),
{
    let w = scan_window::<K, V>(s, start, reverse);
    lemma_leading(before_flags::<K, V>(s, start, false));
    lemma_leading(before_flags::<K, V>(s, start, true));
    if w.len() > 0 && w[0].0 == start {
        if reverse {
            lemma_lookup_row::<K, V>(s, upper_bound::<K, V>(s, start) - 1);
        } else {
            lemma_lookup_row::<K, V>(s, lower_bound::<K, V>(s, start));
        }
    }
}

/// Every row of a page is a row of the table.
pub proof fn lemma_page_rows<K: TableKey, V, F: RowFilter<K>>(
    s: Rows<K, V>,
    start: K::Rank,
    exclusive: bool,
    filter: F,
    limit: Option<usize>,
    reverse: bool,
)
    ensures
        forall|i: int|
            0 <= i < page::<K, V, F>(s, start, exclusive, filter, limit, reverse).len() ==> exists|
                j: int,
            |
                0 <= j < s.len() && s[j] == #[trigger] page::<K, V, F>(
                    s,
                    start,
                    exclusive,
                    filter,
                    limit,
                    reverse,
                )[i],
{
    let rows = page::<K, V, F>(s, start, exclusive, filter, limit, reverse);
    if reverse {
        lemma_reverse_page::<K, V, F>(s, start, exclusive, filter, limit);
        let end = reverse_end::<K, V>(s, start, exclusive);
        assert forall|i: int| 0 <= i < rows.len() implies exists|j: int|
            0 <= j < s.len() && s[j] == #[trigger] rows[i] by {
            assert(s[end - 1 - i] == rows[i]);
        }
    } else {
        lemma_forward_page::<K, V, F>(s, start, exclusive, filter, limit);
        let first = forward_first::<K, V>(s, start, exclusive);
        assert forall|i: int| 0 <= i < rows.len() implies exists|j: int|
            0 <= j < s.len() && s[j] == #[trigger] rows[i] by {
            assert(s[first + i] == rows[i]);
        }
    }
}

/// A forward scan over pairs that starts at a head and at a tail not
/// greater than the tail of a row of that head, and that keeps to the head
/// without a limit, returns that row.
pub proof fn lemma_forward_reaches<A: TableKey, B: TableKey, V>(
    s: Rows<(A, B), V>,
    head: A,
    low: B::Rank,
    at: int,
)
    requires
        strictly_sorted::<(A, B), V>(s),
        0 <= at < s.len(),
        s[at].0.0 == head.rank(),
        !B::rank_lt(s[at].0.1, low),
    ensures
        ({
            let first = forward_first::<(A, B), V>(s, (head.rank(), low), false);
            let rows = page::<(A, B), V, HeadIs<A>>(
                s,
                (head.rank(), low),
                false,
                HeadIs(&head),
                None,
                false,
            );
            0 <= at - first < rows.len() && rows[at - first] == s[at]
        }),
{
    let start = (head.rank(), low);
    let filter = HeadIs(&head);
    let first = forward_first::<(A, B), V>(s, start, false);
    let rows = page::<(A, B), V, HeadIs<A>>(s, start, false, filter, None, false);
    lemma_bound::<(A, B), V>(s, start, false);
    lemma_forward_page::<(A, B), V, HeadIs<A>>(s, start, false, filter, None);
    A::lemma_irreflexive(head.rank());
    assert(!before::<(A, B)>(s[at].0, start, false));
    assert(first <= at);
    let stop = first + rows.len();
    if stop <= at {
        assert(!before::<(A, B)>(s[stop].0, start, false));
        if stop < at {
            assert(<(A, B)>::rank_lt(s[stop].0, s[at].0));
        }
        assert(s[stop].0.0 == head.rank());
    }
}

} // verus!
