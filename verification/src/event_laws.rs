use crate::keys::{lemma_asymmetric, TableKey};
use crate::ordered::{
    before, lemma_bound, lemma_lookup_some, lemma_put_all_rows, lemma_put_all_sorted, lookup,
    lower_bound, put, put_all, strictly_sorted, upper_bound, Rows,
};
use crate::queries::{keyed_event_records, keyed_events_page};
use crate::scan::{lemma_reverse_page, page, reverse_end, HeadIs, RowFilter};
use crate::batch::{event_module_rows, event_sender_rows, event_type_rows};
use crate::ids::{ObjectID, SuiAddress, TransactionDigest, TransactionEventsDigest, TxSequenceNumber};
use crate::indexes::IndexStore;
use crate::types::{
    Event, EventId, EventIndex, ModuleId, ObjectIndexChanges, ObjectRef, Owner, StructTag,
};
use vstd::prelude::*;

verus! {

/// The rows of an event table that stand under `head`, in the order of the
/// table.
pub open spec fn with_head<K: TableKey>(
    s: Rows<(K, EventId), EventIndex>,
    head: K::Rank,
) -> Rows<(K, EventId), EventIndex>
    decreases s.len(),
{
    if s.len() == 0 {
        Seq::empty()
    } else {
        let rest = with_head::<K>(s.drop_last(), head);
        if s.last().0.0 == head {
            rest.push(s.last())
        } else {
            rest
        }
    }
}

/// A table without a row under a head has no rows under it.
pub proof fn lemma_with_head_of_none<K: TableKey>(
    s: Rows<(K, EventId), EventIndex>,
    head: K::Rank,
)
    requires
        forall|i: int| 0 <= i < s.len() ==> (#[trigger] s[i]).0.0 != head,
    ensures
        with_head::<K>(s, head).len() == 0,
    decreases s.len(),
{
    if s.len() > 0 {
        assert forall|i: int| 0 <= i < s.drop_last().len() implies (
        #[trigger] s.drop_last()[i]).0.0 != head by {
            assert(s.drop_last()[i] == s[i]);
        }
        lemma_with_head_of_none::<K>(s.drop_last(), head);
        assert(s[s.len() - 1].0.0 != head);
    }
}

/// Where the rows under a head stand together, they are that stretch of the
/// table.
pub proof fn lemma_with_head_is_range<K: TableKey>(
    s: Rows<(K, EventId), EventIndex>,
    head: K::Rank,
    low: int,
    high: int,
)
    requires
        0 <= low <= high <= s.len(),
        forall|i: int| 0 <= i < s.len() ==> (low <= i < high <==> (#[trigger] s[i]).0.0 == head),
    ensures
        with_head::<K>(s, head) == s.subrange(low, high),
    decreases s.len(),
{
    if low == high {
        lemma_with_head_of_none::<K>(s, head);
        assert(with_head::<K>(s, head) =~= s.subrange(low, high));
    } else {
        let front = s.drop_last();
        let n = s.len() - 1;
        assert forall|i: int| 0 <= i < front.len() implies front[i] == s[i] by {}
        if s[n].0.0 == head {
            assert(high == s.len());
            assert forall|i: int| 0 <= i < front.len() implies (low <= i < high - 1 <==> (
            #[trigger] front[i]).0.0 == head) by {
                assert(front[i] == s[i]);
            }
            lemma_with_head_is_range::<K>(front, head, low, high - 1);
            assert(front.subrange(low, high - 1).push(s[n]) =~= s.subrange(low, high));
        } else {
            assert(!(low <= n < high));
            assert(high <= n);
            assert forall|i: int| 0 <= i < front.len() implies (low <= i < high <==> (
            #[trigger] front[i]).0.0 == head) by {
                assert(front[i] == s[i]);
            }
            lemma_with_head_is_range::<K>(front, head, low, high);
            assert(front.subrange(low, high) =~= s.subrange(low, high));
        }
    }
}

/// The rows under a head of two tables put together are the rows under it
/// of the first, then those of the second.
pub proof fn lemma_with_head_of_both<K: TableKey>(
    a: Rows<(K, EventId), EventIndex>,
    b: Rows<(K, EventId), EventIndex>,
    head: K::Rank,
)
    ensures
        with_head::<K>(a + b, head) == with_head::<K>(a, head) + with_head::<K>(b, head),
    decreases b.len(),
{
    if b.len() == 0 {
        assert(a + b =~= a);
        assert(with_head::<K>(a, head) + with_head::<K>(b, head) =~= with_head::<K>(a, head));
    } else {
        lemma_with_head_of_both::<K>(a, b.drop_last(), head);
        assert((a + b).drop_last() =~= a + b.drop_last());
        assert((a + b).last() == b.last());
        let x = with_head::<K>(a, head);
        let y = with_head::<K>(b.drop_last(), head);
        assert((x + y).push(b.last()) =~= x + y.push(b.last()));
    }
}

/// A table has at most as many rows under a head as it has rows.
pub proof fn lemma_with_head_len<K: TableKey>(s: Rows<(K, EventId), EventIndex>, head: K::Rank)
    ensures
        with_head::<K>(s, head).len() <= s.len(),
    decreases s.len(),
{
    if s.len() > 0 {
        lemma_with_head_len::<K>(s.drop_last(), head);
    }
}

/// In descending order from the greatest cursor, the page of the events
/// under a key holds the rows under that key, last to first, where the
/// limit admits them all.
pub proof fn lemma_reverse_page_is_with_head<K: TableKey>(
    s: Rows<(K, EventId), EventIndex>,
    key: K,
    limit: Option<usize>,
)
    requires
        strictly_sorted::<(K, EventId), EventIndex>(s),
        forall|i: int| 0 <= i < s.len() ==> (#[trigger] s[i]).0.1 != (u64::MAX, usize::MAX),
        limit matches Some(n) ==> with_head::<K>(s, key.rank()).len() <= n,
    ensures
        page::<(K, EventId), EventIndex, HeadIs<K>>(
            s,
            (key.rank(), (u64::MAX, usize::MAX)),
            true,
            HeadIs(&key),
            limit,
            true,
        ) == with_head::<K>(s, key.rank()).reverse(),
{
    let k = key.rank();
    let top = (k, (u64::MAX, usize::MAX));
    let filter = HeadIs(&key);
    let all = page::<(K, EventId), EventIndex, HeadIs<K>>(s, top, true, filter, None, true);
    lemma_reverse_page::<(K, EventId), EventIndex, HeadIs<K>>(s, top, true, filter, None);
    lemma_bound::<(K, EventId), EventIndex>(s, top, true);
    let found = upper_bound::<(K, EventId), EventIndex>(s, top);
    let end = reverse_end::<(K, EventId), EventIndex>(s, top, true);
    assert(end == found);
    let low = end - all.len();
    K::lemma_irreflexive(k);
    assert forall|i: int| 0 <= i < s.len() implies (low <= i < end <==> (#[trigger] s[i]).0.0
        == k) by {
        if s[i].0.0 == k {
            assert(s[i].0.1 != (u64::MAX, usize::MAX));
            assert(before::<(K, EventId)>(s[i].0, top, true));
            assert(i < found);
            if i < low {
                let j = low - 1;
                assert(!RowFilter::<(K, EventId)>::admits(&filter, s[j].0));
                assert(before::<(K, EventId)>(s[j].0, top, true));
                assert(K::rank_lt(s[j].0.0, k));
                if i < j {
                    assert(<(K, EventId)>::rank_lt(s[i].0, s[j].0));
                    lemma_asymmetric::<K>(k, s[j].0.0);
                }
            }
        }
    }
    lemma_with_head_is_range::<K>(s, k, low, end);
    assert(all == with_head::<K>(s, k).reverse());
}

/// Storing a row under a fresh key leaves the rows under other heads as
/// they were; under its own head it comes last, where its key is greater
/// than every key under that head.
pub proof fn lemma_with_head_after_put<K: TableKey>(
    s: Rows<(K, EventId), EventIndex>,
    key: (K::Rank, EventId),
    value: EventIndex,
    head: K::Rank,
)
    requires
        strictly_sorted::<(K, EventId), EventIndex>(s),
        lookup::<(K, EventId), EventIndex>(s, key) is None,
        key.0 == head ==> forall|i: int|
            0 <= i < s.len() && (#[trigger] s[i]).0.0 == head ==> <(K, EventId)>::rank_lt(
                s[i].0,
                key,
            ),
    ensures
        with_head::<K>(put::<(K, EventId), EventIndex>(s, key, value), head) == if key.0 == head {
            with_head::<K>(s, head).push((key, value))
        } else {
            with_head::<K>(s, head)
        },
{
    let p = lower_bound::<(K, EventId), EventIndex>(s, key);
    lemma_bound::<(K, EventId), EventIndex>(s, key, false);
    let t = put::<(K, EventId), EventIndex>(s, key, value);
    let one = seq![(key, value)];
    assert(t =~= s.take(p) + one + s.skip(p));
    assert(s =~= s.take(p) + s.skip(p));
    lemma_with_head_of_both::<K>(s.take(p), s.skip(p), head);
    lemma_with_head_of_both::<K>(s.take(p) + one, s.skip(p), head);
    lemma_with_head_of_both::<K>(s.take(p), one, head);
    assert(one.drop_last() =~= Seq::<((K::Rank, EventId), EventIndex)>::empty());
    assert(with_head::<K>(one.drop_last(), head).len() == 0);
    if key.0 == head {
        assert forall|i: int| 0 <= i < s.skip(p).len() implies (#[trigger] s.skip(p)[i]).0.0
            != head by {
            assert(s.skip(p)[i] == s[p + i]);
            assert(!before::<(K, EventId)>(s[p + i].0, key, false));
        }
        lemma_with_head_of_none::<K>(s.skip(p), head);
        assert(with_head::<K>(one, head) =~= one);
        assert(with_head::<K>(t, head) =~= with_head::<K>(s, head).push((key, value)));
    } else {
        assert(with_head::<K>(one, head).len() == 0);
        assert(with_head::<K>(t, head) =~= with_head::<K>(s, head));
    }
}

/// The events of one transaction that are stored in an empty table stand
/// there, under each head, in the order of their positions.
pub proof fn lemma_with_head_of_stored<K: TableKey>(
    rows: Rows<(K, EventId), EventIndex>,
    sequence: u64,
    head: K::Rank,
    n: int,
)
    requires
        0 <= n <= rows.len() <= usize::MAX,
        forall|i: int| 0 <= i < rows.len() ==> (#[trigger] rows[i]).0.1 == (sequence, i as usize),
    ensures
        with_head::<K>(
            put_all::<(K, EventId), EventIndex>(Seq::empty(), rows.take(n)),
            head,
        ) == with_head::<K>(rows.take(n), head),
    decreases n,
{
    let none = Seq::<((K::Rank, EventId), EventIndex)>::empty();
    if n > 0 {
        let taken = rows.take(n);
        let front = rows.take(n - 1);
        assert(taken.drop_last() =~= front);
        assert(taken.last() == rows[n - 1]);
        lemma_with_head_of_stored::<K>(rows, sequence, head, n - 1);
        let stored = put_all::<(K, EventId), EventIndex>(none, front);
        lemma_put_all_sorted::<(K, EventId), EventIndex>(none, front);
        lemma_put_all_rows::<(K, EventId), EventIndex>(none, front);
        let key = rows[n - 1].0;
        lemma_lookup_some::<(K, EventId), EventIndex>(stored, key);
        K::lemma_irreflexive(head);
        assert forall|i: int| 0 <= i < stored.len() implies (#[trigger] stored[i]).0 != key && (
        key.0 == head && stored[i].0.0 == head ==> <(K, EventId)>::rank_lt(stored[i].0, key)) by {
            let row = stored[i];
            assert(front.contains(row));
            let j = choose|j: int| 0 <= j < front.len() && front[j] == row;
            assert(front[j] == rows[j]);
            assert(rows[j].0.1 == (sequence, j as usize));
        }
        lemma_with_head_after_put::<K>(stored, key, rows[n - 1].1, head);
    } else {
        assert(rows.take(0) =~= none);
    }
}

/// A query for the events under a key, in descending order from the
/// greatest cursor, over a table that holds the events of one transaction
/// and nothing else, returns exactly the events of that transaction that
/// stand under the key, last to first.
pub proof fn lemma_first_events_by_key<K: TableKey>(
    rows: Rows<(K, EventId), EventIndex>,
    sequence: u64,
    key: K,
    limit: usize,
)
    requires
        rows.len() < usize::MAX,
        rows.len() <= limit,
        forall|i: int| 0 <= i < rows.len() ==> (#[trigger] rows[i]).0.1 == (sequence, i as usize),
    ensures
        keyed_events_page::<K>(
            put_all::<(K, EventId), EventIndex>(Seq::empty(), rows),
            key,
            u64::MAX,
            usize::MAX,
            limit,
            true,
        ) == keyed_event_records::<K>(with_head::<K>(rows, key.rank()).reverse()),
{
    let none = Seq::<((K::Rank, EventId), EventIndex)>::empty();
    let stored = put_all::<(K, EventId), EventIndex>(none, rows);
    assert(rows.take(rows.len() as int) =~= rows);
    lemma_with_head_of_stored::<K>(rows, sequence, key.rank(), rows.len() as int);
    lemma_put_all_sorted::<(K, EventId), EventIndex>(none, rows);
    lemma_put_all_rows::<(K, EventId), EventIndex>(none, rows);
    assert forall|i: int| 0 <= i < stored.len() implies (#[trigger] stored[i]).0.1 != (
        u64::MAX,
        usize::MAX,
    ) by {
        let row = stored[i];
        assert(rows.contains(row));
        let j = choose|j: int| 0 <= j < rows.len() && rows[j] == row;
        assert(rows[j].0.1 == (sequence, j as usize));
    }
    lemma_with_head_len::<K>(rows, key.rank());
    lemma_reverse_page_is_with_head::<K>(stored, key, Some(limit));
}

/// The first transaction of a store over tables without rows is answered
/// with exactly its events under each key: a query for the events of a
/// module, of a type or of a sender, in descending order from the greatest
/// cursor and with a limit of at least the number of events, returns the
/// records of exactly those events of the transaction that stand under the
/// module, the type or the sender asked for, last to first.
pub proof fn law_first_events_are_returned_by_key(
    before: IndexStore,
    after: IndexStore,
    sequence: TxSequenceNumber,
    sender: SuiAddress,
    active_inputs: Seq<ObjectID>,
    mutated_objects: Seq<(ObjectRef, Owner)>,
    move_functions: Seq<(ObjectID, String, String)>,
    events: Seq<Event>,
    events_digest: TransactionEventsDigest,
    object_index_changes: ObjectIndexChanges,
    digest: TransactionDigest,
    timestamp_ms: u64,
    limit: usize,
    module: ModuleId,
    struct_name: StructTag,
    event_sender: SuiAddress,
)
    requires
        before.tables().is_blank(),
        before.indexed(
            &after,
            sequence,
            sender,
            active_inputs,
            mutated_objects,
            move_functions,
            events,
            events_digest,
            object_index_changes,
            digest,
            timestamp_ms,
        ),
        events.len() <= limit,
        events.len() < usize::MAX,
    ensures
        keyed_events_page::<ModuleId>(
            after.tables().event_by_move_module.entries(),
            module,
            u64::MAX,
            usize::MAX,
            limit,
            true,
        ) == keyed_event_records::<ModuleId>(
            with_head::<ModuleId>(
                event_module_rows(events, sequence, (events_digest, digest, timestamp_ms)),
                module.rank(),
            ).reverse(),
        ),
        keyed_events_page::<StructTag>(
            after.tables().event_by_move_event.entries(),
            struct_name,
            u64::MAX,
            usize::MAX,
            limit,
            true,
        ) == keyed_event_records::<StructTag>(
            with_head::<StructTag>(
                event_type_rows(events, sequence, (events_digest, digest, timestamp_ms)),
                struct_name.rank(),
            ).reverse(),
        ),
        keyed_events_page::<SuiAddress>(
            after.tables().event_by_sender.entries(),
            event_sender,
            u64::MAX,
            usize::MAX,
            limit,
            true,
        ) == keyed_event_records::<SuiAddress>(
            with_head::<SuiAddress>(
                event_sender_rows(events, sequence, (events_digest, digest, timestamp_ms)),
                event_sender.rank(),
            ).reverse(),
        ),
{
    let value = (events_digest, digest, timestamp_ms);
    let old = before.tables();
    assert(old.event_by_move_module.entries() =~= Seq::empty());
    assert(old.event_by_move_event.entries() =~= Seq::empty());
    assert(old.event_by_sender.entries() =~= Seq::empty());
    lemma_first_events_by_key::<ModuleId>(
        event_module_rows(events, sequence, value),
        sequence,
        module,
        limit,
    );
    lemma_first_events_by_key::<StructTag>(
        event_type_rows(events, sequence, value),
        sequence,
        struct_name,
        limit,
    );
    lemma_first_events_by_key::<SuiAddress>(
        event_sender_rows(events, sequence, value),
        sequence,
        event_sender,
        limit,
    );
}

} // verus!
