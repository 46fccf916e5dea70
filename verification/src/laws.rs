use crate::batch::{
    call_rows, event_module_rows, event_order_rows, event_sender_rows, event_time_rows,
    event_type_rows, input_rows, mutated_rows, recipient_rows,
};
use crate::caches::{added_coin_key, deleted_coin_key};
use crate::ids::{lemma_zero_is_least, zero_rank};
use crate::queries::owned_rows;
use crate::ids::{ObjectID, SuiAddress, TransactionDigest, TransactionEventsDigest, TxSequenceNumber};
use crate::indexes::IndexStore;
use crate::keys::TableKey;
use crate::ordered::{
    before, del, del_all, last_stored, lemma_bound_is, lemma_put_all_appends,
    lemma_put_all_rows, put_all, lemma_bound, lemma_del_all_sorted, lemma_del_sorted,
    lemma_last_stored_uniform, lemma_lookup_del, lemma_lookup_del_all, lemma_lookup_put,
    lemma_lookup_put_all, lemma_lookup_row, lemma_lookup_some, lemma_put_all_one,
    lemma_put_sorted, lookup, lower_bound, put, strictly_sorted, upper_bound, Rows,
};
use crate::lex::ranks_of;
use crate::table::rows_of;
use crate::queries::{
    all_events_page, call_run, calls_page, calls_past, event_records, is_past, name_or_empty,
    ordered_transactions_page, transaction_events_page, transactions_matching,
    transactions_page, CallFilter,
};
use crate::scan::{
    forward_first, lemma_cursor_is_excluded, lemma_forward_page, lemma_forward_reaches,
    lemma_page_rows, lemma_reverse_page, page, reverse_end, values_of, Everything, HeadIs,
    RowFilter,
};
use crate::tables::IndexStoreTables;
use crate::types::{
    DynamicFieldInfo, DynamicFieldKey, Event, EventId, EventIndex, ModuleId, MoveFunctionKey,
    ObjectIndexChanges, ObjectInfo, ObjectRef, Owner, OwnerIndexKey, StructTag,
    TransactionFilter,
};
use vstd::prelude::*;

verus! {

/// Whether the transaction order and the table of sequence numbers are
/// inverse to each other: a sequence number leads to a transaction exactly
/// when that transaction leads to the sequence number.
pub open spec fn mutually_inverse(tables: IndexStoreTables) -> bool {
    forall|sequence: TxSequenceNumber, digest: TransactionDigest|
        #![trigger
            lookup::<TxSequenceNumber, TransactionDigest>(
                tables.transaction_order.entries(),
                sequence,
            ),
            lookup::<TransactionDigest, TxSequenceNumber>(
                tables.transactions_seq.entries(),
                digest.rank(),
            )
        ]
        lookup::<TxSequenceNumber, TransactionDigest>(tables.transaction_order.entries(), sequence)
            == Some(digest) <==> lookup::<TransactionDigest, TxSequenceNumber>(
            tables.transactions_seq.entries(),
            digest.rank(),
        ) == Some(sequence)
}

/// In tables without rows, the transaction order and the table of sequence
/// numbers are inverse to each other.
pub proof fn law_blank_tables_are_inverse(tables: IndexStoreTables)
    requires
        tables.is_blank(),
    ensures
        mutually_inverse(tables),
{
    crate::ordered::lemma_leading(
        crate::ordered::before_flags::<TxSequenceNumber, TransactionDigest>(
            tables.transaction_order.entries(),
            0,
            false,
        ),
    );
    assert forall|sequence: TxSequenceNumber, digest: TransactionDigest|
        #![trigger
            lookup::<TxSequenceNumber, TransactionDigest>(
                tables.transaction_order.entries(),
                sequence,
            ),
            lookup::<TransactionDigest, TxSequenceNumber>(
                tables.transactions_seq.entries(),
                digest.rank(),
            )
        ]
        lookup::<TxSequenceNumber, TransactionDigest>(tables.transaction_order.entries(), sequence)
            == Some(digest) <==> lookup::<TransactionDigest, TxSequenceNumber>(
            tables.transactions_seq.entries(),
            digest.rank(),
        ) == Some(sequence) by {
        crate::ordered::lemma_leading(
            crate::ordered::before_flags::<TxSequenceNumber, TransactionDigest>(
                tables.transaction_order.entries(),
                sequence,
                false,
            ),
        );
        crate::ordered::lemma_leading(
            crate::ordered::before_flags::<TransactionDigest, TxSequenceNumber>(
                tables.transactions_seq.entries(),
                digest.rank(),
                false,
            ),
        );
    }
}

/// Indexing a transaction keeps the transaction order and the table of
/// sequence numbers inverse to each other, provided that the transaction
/// was not indexed before.
pub proof fn law_index_tx_keeps_tables_inverse(
    before: IndexStore,
    after: IndexStore,
    sequence: TxSequenceNumber,
    sender: SuiAddress,
    active_inputs: Seq<ObjectID>,
    mutated_objects: Seq<(ObjectRef, Owner)>,
    move_functions: Seq<(ObjectID, String, String)>,
    events: Seq<Event>,
    events_digest: TransactionEventsDigest,
    object_index_changes: ObjectIndexChanges,
    digest: TransactionDigest,
    timestamp_ms: u64,
)
    requires
        before.wf(),
        before.indexed(
            &after,
            sequence,
            sender,
            active_inputs,
            mutated_objects,
            move_functions,
            events,
            events_digest,
            object_index_changes,
            digest,
            timestamp_ms,
        ),
        mutually_inverse(before.tables()),
        lookup::<TransactionDigest, TxSequenceNumber>(
            before.tables().transactions_seq.entries(),
            digest.rank(),
        ) is None,
    ensures
        mutually_inverse(after.tables()),
{
    let order = before.tables().transaction_order.entries();
    let seqs = before.tables().transactions_seq.entries();
    let order2 = after.tables().transaction_order.entries();
    let seqs2 = after.tables().transactions_seq.entries();
    lemma_put_all_one::<TxSequenceNumber, TransactionDigest>(order, sequence, digest);
    lemma_put_all_one::<TransactionDigest, TxSequenceNumber>(seqs, digest.rank(), sequence);
    assert(order2 == put::<TxSequenceNumber, TransactionDigest>(order, sequence, digest));
    assert(seqs2 == put::<TransactionDigest, TxSequenceNumber>(seqs, digest.rank(), sequence));
    // The sequence number is fresh: every one in the order is smaller.
    lemma_lookup_some::<TxSequenceNumber, TransactionDigest>(order, sequence);
    assert(lookup::<TxSequenceNumber, TransactionDigest>(order, sequence) is None);
    assert forall|s: TxSequenceNumber, d: TransactionDigest|
        #![trigger
            lookup::<TxSequenceNumber, TransactionDigest>(order2, s),
            lookup::<TransactionDigest, TxSequenceNumber>(seqs2, d.rank())
        ]
        lookup::<TxSequenceNumber, TransactionDigest>(order2, s) == Some(d) <==> lookup::<
            TransactionDigest,
            TxSequenceNumber,
        >(seqs2, d.rank()) == Some(s) by {
        lemma_lookup_put::<TxSequenceNumber, TransactionDigest>(order, sequence, digest, s);
        lemma_lookup_put::<TransactionDigest, TxSequenceNumber>(
            seqs,
            digest.rank(),
            sequence,
            d.rank(),
        );
        if d.rank() == digest.rank() {
            assert(d.0 =~= digest.0);
            assert(d == digest);
        }
        // What held before the call, for the pairs that the proof compares.
        assert(lookup::<TxSequenceNumber, TransactionDigest>(order, s) == Some(d) <==> lookup::<
            TransactionDigest,
            TxSequenceNumber,
        >(seqs, d.rank()) == Some(s));
        assert(lookup::<TxSequenceNumber, TransactionDigest>(order, sequence) == Some(d)
            <==> lookup::<TransactionDigest, TxSequenceNumber>(seqs, d.rank()) == Some(sequence));
        assert(lookup::<TxSequenceNumber, TransactionDigest>(order, s) == Some(digest)
            <==> lookup::<TransactionDigest, TxSequenceNumber>(seqs, digest.rank()) == Some(s));
    }
}

/// Two transactions that are indexed one after the other get consecutive
/// sequence numbers.
pub proof fn law_sequence_numbers_are_consecutive(
    first: IndexStore,
    second: IndexStore,
    third: IndexStore,
    sequence_1: TxSequenceNumber,
    sender_1: SuiAddress,
    active_inputs_1: Seq<ObjectID>,
    mutated_objects_1: Seq<(ObjectRef, Owner)>,
    move_functions_1: Seq<(ObjectID, String, String)>,
    events_1: Seq<Event>,
    events_digest_1: TransactionEventsDigest,
    object_index_changes_1: ObjectIndexChanges,
    digest_1: TransactionDigest,
    timestamp_ms_1: u64,
    sequence_2: TxSequenceNumber,
    sender_2: SuiAddress,
    active_inputs_2: Seq<ObjectID>,
    mutated_objects_2: Seq<(ObjectRef, Owner)>,
    move_functions_2: Seq<(ObjectID, String, String)>,
    events_2: Seq<Event>,
    events_digest_2: TransactionEventsDigest,
    object_index_changes_2: ObjectIndexChanges,
    digest_2: TransactionDigest,
    timestamp_ms_2: u64,
)
    requires
        first.indexed(
            &second,
            sequence_1,
            sender_1,
            active_inputs_1,
            mutated_objects_1,
            move_functions_1,
            events_1,
            events_digest_1,
            object_index_changes_1,
            digest_1,
            timestamp_ms_1,
        ),
        second.indexed(
            &third,
            sequence_2,
            sender_2,
            active_inputs_2,
            mutated_objects_2,
            move_functions_2,
            events_2,
            events_digest_2,
            object_index_changes_2,
            digest_2,
            timestamp_ms_2,
        ),
    ensures
        sequence_2 == sequence_1 + 1,
{
}

/// In a table keyed by a key and a sequence number, the rows of one key
/// stand together, and the pages without cursor and limit hold exactly
/// them: the forward page in ascending order, the reverse page in
/// descending order.
pub proof fn lemma_pages_cover_key<K: TableKey, V>(s: Rows<(K, TxSequenceNumber), V>, key: K)
    requires
        strictly_sorted::<(K, TxSequenceNumber), V>(s),
    ensures
        ({
            let low = lower_bound::<(K, TxSequenceNumber), V>(s, (key.rank(), 0));
            let high = upper_bound::<(K, TxSequenceNumber), V>(s, (key.rank(), u64::MAX));
            &&& 0 <= low <= high <= s.len()
            &&& forall|i: int| 0 <= i < s.len() ==> (low <= i < high <==> (#[trigger] s[i]).0.0
                == key.rank())
            &&& page::<(K, TxSequenceNumber), V, HeadIs<K>>(
                s,
                (key.rank(), 0),
                false,
                HeadIs(&key),
                None,
                false,
            ) == s.subrange(low, high)
            &&& page::<(K, TxSequenceNumber), V, HeadIs<K>>(
                s,
                (key.rank(), u64::MAX),
                false,
                HeadIs(&key),
                None,
                true,
            ) == s.subrange(low, high).reverse()
        }),
{
    let k = key.rank();
    let bottom = (k, 0u64);
    let top = (k, u64::MAX);
    let low = lower_bound::<(K, TxSequenceNumber), V>(s, bottom);
    let high = upper_bound::<(K, TxSequenceNumber), V>(s, top);
    let filter = HeadIs(&key);
    lemma_bound::<(K, TxSequenceNumber), V>(s, bottom, false);
    lemma_bound::<(K, TxSequenceNumber), V>(s, top, true);
    K::lemma_irreflexive(k);
    assert forall|i: int| 0 <= i < s.len() implies (low <= i < high <==> (#[trigger] s[i]).0.0
        == k) by {
        let h = s[i].0.0;
        K::lemma_irreflexive(h);
        if i < low {
            assert(before::<(K, TxSequenceNumber)>(s[i].0, bottom, false));
        } else {
            assert(!before::<(K, TxSequenceNumber)>(s[i].0, bottom, false));
        }
        if i < high {
            assert(before::<(K, TxSequenceNumber)>(s[i].0, top, true));
        } else {
            assert(!before::<(K, TxSequenceNumber)>(s[i].0, top, true));
        }
    }
    if low > high {
        assert(s[high].0.0 == k <==> low <= high < high);
        assert(before::<(K, TxSequenceNumber)>(s[high].0, bottom, false));
        assert(!before::<(K, TxSequenceNumber)>(s[high].0, top, true));
    }
    lemma_forward_page::<(K, TxSequenceNumber), V, HeadIs<K>>(s, bottom, false, filter, None);
    let forward = page::<(K, TxSequenceNumber), V, HeadIs<K>>(s, bottom, false, filter, None, false);
    assert(forward_first::<(K, TxSequenceNumber), V>(s, bottom, false) == low);
    if low + forward.len() < high {
        assert(s[low + forward.len()].0.0 == k);
    }
    if low + forward.len() > high {
        assert(RowFilter::<(K, TxSequenceNumber)>::admits(&filter, s[high].0));
    }
    lemma_reverse_page::<(K, TxSequenceNumber), V, HeadIs<K>>(s, top, false, filter, None);
    let backward = page::<(K, TxSequenceNumber), V, HeadIs<K>>(s, top, false, filter, None, true);
    assert(reverse_end::<(K, TxSequenceNumber), V>(s, top, false) == high);
    if high - backward.len() > low {
        assert(s[high - backward.len() - 1].0.0 == k);
    }
    if high - backward.len() < low {
        assert(RowFilter::<(K, TxSequenceNumber)>::admits(&filter, s[low - 1].0));
    }
}

/// Without cursor and limit, the reverse page of the transactions of a key
/// is the forward page read backwards.
pub proof fn law_reverse_page_mirrors_forward_page<K: TableKey>(
    rows: Rows<(K, TxSequenceNumber), TransactionDigest>,
    key: K,
)
    requires
        strictly_sorted::<(K, TxSequenceNumber), TransactionDigest>(rows),
    ensures
        transactions_page::<K>(rows, key, None, None, true) == transactions_page::<K>(
            rows,
            key,
            None,
            None,
            false,
        ).reverse(),
{
    lemma_pages_cover_key::<K, TransactionDigest>(rows, key);
    assert(transactions_page::<K>(rows, key, None, None, true) =~= transactions_page::<K>(
        rows,
        key,
        None,
        None,
        false,
    ).reverse());
}

/// Without cursor and limit, the reverse page of all transactions is the
/// forward page read backwards, and the forward page holds every
/// transaction in the order of the sequence numbers.
pub proof fn law_reverse_order_mirrors_forward_order(
    rows: Rows<TxSequenceNumber, TransactionDigest>,
)
    requires
        strictly_sorted::<TxSequenceNumber, TransactionDigest>(rows),
    ensures
        ordered_transactions_page(rows, None, None, false) == values_of(rows),
        ordered_transactions_page(rows, None, None, true) == ordered_transactions_page(
            rows,
            None,
            None,
            false,
        ).reverse(),
{
    lemma_bound::<TxSequenceNumber, TransactionDigest>(rows, 0, false);
    lemma_bound::<TxSequenceNumber, TransactionDigest>(rows, u64::MAX, true);
    lemma_forward_page::<TxSequenceNumber, TransactionDigest, Everything>(
        rows,
        0,
        false,
        Everything,
        None,
    );
    lemma_reverse_page::<TxSequenceNumber, TransactionDigest, Everything>(
        rows,
        u64::MAX,
        false,
        Everything,
        None,
    );
    let forward = page::<TxSequenceNumber, TransactionDigest, Everything>(
        rows,
        0,
        false,
        Everything,
        None,
        false,
    );
    let backward = page::<TxSequenceNumber, TransactionDigest, Everything>(
        rows,
        u64::MAX,
        false,
        Everything,
        None,
        true,
    );
    if rows.len() > 0 {
        assert(!before::<TxSequenceNumber>(rows[0].0, 0, false));
        assert(before::<TxSequenceNumber>(rows[rows.len() - 1].0, u64::MAX, true));
    }
    assert(forward =~= rows);
    assert(backward =~= rows.reverse());
    assert(ordered_transactions_page(rows, None, None, false) =~= values_of(rows));
    assert(ordered_transactions_page(rows, None, None, true) =~= ordered_transactions_page(
        rows,
        None,
        None,
        false,
    ).reverse());
}

/// The cursor is exclusive: where the two tables of transactions are
/// inverse to each other, a page of all transactions that starts after the
/// transaction `digest` does not hold `digest`.
pub proof fn law_cursor_transaction_is_excluded(
    tables: IndexStoreTables,
    digest: TransactionDigest,
    sequence: TxSequenceNumber,
    limit: Option<usize>,
    reverse: bool,
)
    requires
        tables.wf(),
        mutually_inverse(tables),
        lookup::<TransactionDigest, TxSequenceNumber>(
            tables.transactions_seq.entries(),
            digest.rank(),
        ) == Some(sequence),
    ensures
        !ordered_transactions_page(
            tables.transaction_order.entries(),
            Some(sequence),
            limit,
            reverse,
        ).contains(digest),
{
    let order = tables.transaction_order.entries();
    let seqs = tables.transactions_seq.entries();
    let rows = page::<TxSequenceNumber, TransactionDigest, Everything>(
        order,
        sequence,
        true,
        Everything,
        limit,
        reverse,
    );
    let digests = ordered_transactions_page(order, Some(sequence), limit, reverse);
    assert(lookup::<TxSequenceNumber, TransactionDigest>(order, sequence) == Some(digest));
    lemma_bound::<TxSequenceNumber, TransactionDigest>(order, sequence, false);
    let at = lower_bound::<TxSequenceNumber, TransactionDigest>(order, sequence);
    assert(order[at].0 == sequence);
    lemma_cursor_is_excluded::<TxSequenceNumber, TransactionDigest, Everything>(
        order,
        sequence,
        Everything,
        limit,
        reverse,
    );
    lemma_page_rows::<TxSequenceNumber, TransactionDigest, Everything>(
        order,
        sequence,
        true,
        Everything,
        limit,
        reverse,
    );
    if digests.contains(digest) {
        let i = choose|i: int| 0 <= i < digests.len() && digests[i] == digest;
        assert(rows[i].1 == digest);
        assert(rows[i].0 != sequence);
        let j = choose|j: int| 0 <= j < order.len() && order[j] == rows[i];
        lemma_lookup_row::<TxSequenceNumber, TransactionDigest>(order, j);
        assert(lookup::<TxSequenceNumber, TransactionDigest>(order, rows[i].0) == Some(digest));
        assert(lookup::<TransactionDigest, TxSequenceNumber>(seqs, digest.rank()) == Some(
            rows[i].0,
        ));
    }
}

/// Indexing a transaction with events stores every event in each of the
/// five event tables: under its sequence number and position, and there
/// under its module, its type, its sender and the timestamp. All five rows
/// of an event carry the digest of the events, the digest of the
/// transaction, and the timestamp.
pub proof fn law_events_enter_all_views(
    before: IndexStore,
    after: IndexStore,
    sequence: TxSequenceNumber,
    sender: SuiAddress,
    active_inputs: Seq<ObjectID>,
    mutated_objects: Seq<(ObjectRef, Owner)>,
    move_functions: Seq<(ObjectID, String, String)>,
    events: Seq<Event>,
    events_digest: TransactionEventsDigest,
    object_index_changes: ObjectIndexChanges,
    digest: TransactionDigest,
    timestamp_ms: u64,
    position: usize,
)
    requires
        before.wf(),
        before.indexed(
            &after,
            sequence,
            sender,
            active_inputs,
            mutated_objects,
            move_functions,
            events,
            events_digest,
            object_index_changes,
            digest,
            timestamp_ms,
        ),
        position < events.len(),
    ensures
        lookup::<EventId, EventIndex>(
            after.tables().event_order.entries(),
            (sequence, position),
        ) == Some((events_digest, digest, timestamp_ms)),
        lookup::<(ModuleId, EventId), EventIndex>(
            after.tables().event_by_move_module.entries(),
            (
                (
                    events[position as int].package_id.rank(),
                    events[position as int].transaction_module.rank(),
                ),
                (sequence, position),
            ),
        ) == Some((events_digest, digest, timestamp_ms)),
        lookup::<(StructTag, EventId), EventIndex>(
            after.tables().event_by_move_event.entries(),
            (events[position as int].type_.rank(), (sequence, position)),
        ) == Some((events_digest, digest, timestamp_ms)),
        lookup::<(SuiAddress, EventId), EventIndex>(
            after.tables().event_by_sender.entries(),
            (events[position as int].sender.rank(), (sequence, position)),
        ) == Some((events_digest, digest, timestamp_ms)),
        lookup::<(u64, EventId), EventIndex>(
            after.tables().event_by_time.entries(),
            (timestamp_ms, (sequence, position)),
        ) == Some((events_digest, digest, timestamp_ms)),
{
    let value = (events_digest, digest, timestamp_ms);
    let at = position as int;
    let old = before.tables();
    let orders = event_order_rows(events.len(), sequence, value);
    lemma_last_stored_uniform::<EventId, EventIndex>(orders, at, value);
    lemma_lookup_put_all::<EventId, EventIndex>(old.event_order.entries(), orders, orders[at].0);
    let modules = event_module_rows(events, sequence, value);
    lemma_last_stored_uniform::<(ModuleId, EventId), EventIndex>(modules, at, value);
    lemma_lookup_put_all::<(ModuleId, EventId), EventIndex>(
        old.event_by_move_module.entries(),
        modules,
        modules[at].0,
    );
    let types = event_type_rows(events, sequence, value);
    lemma_last_stored_uniform::<(StructTag, EventId), EventIndex>(types, at, value);
    lemma_lookup_put_all::<(StructTag, EventId), EventIndex>(
        old.event_by_move_event.entries(),
        types,
        types[at].0,
    );
    let senders = event_sender_rows(events, sequence, value);
    lemma_last_stored_uniform::<(SuiAddress, EventId), EventIndex>(senders, at, value);
    lemma_lookup_put_all::<(SuiAddress, EventId), EventIndex>(
        old.event_by_sender.entries(),
        senders,
        senders[at].0,
    );
    let times = event_time_rows(events.len(), sequence, timestamp_ms, value);
    lemma_last_stored_uniform::<(u64, EventId), EventIndex>(times, at, value);
    lemma_lookup_put_all::<(u64, EventId), EventIndex>(
        old.event_by_time.entries(),
        times,
        times[at].0,
    );
}

/// Indexing a transaction that moves one object from an owner to another
/// takes the object out of the first owner's objects and puts it among the
/// second owner's: no page of the first owner's objects holds it, and the
/// page of all of the second owner's objects does. The cached balances of
/// both owners are discarded: the balance under the coin type that the
/// object had in the index, the balance under the coin type that it has
/// now, and the balances of all coin types of either owner.
pub proof fn law_transfer_moves_object(
    before: IndexStore,
    after: IndexStore,
    sequence: TxSequenceNumber,
    sender: SuiAddress,
    active_inputs: Seq<ObjectID>,
    mutated_objects: Seq<(ObjectRef, Owner)>,
    move_functions: Seq<(ObjectID, String, String)>,
    events: Seq<Event>,
    events_digest: TransactionEventsDigest,
    object_index_changes: ObjectIndexChanges,
    digest: TransactionDigest,
    timestamp_ms: u64,
    from: SuiAddress,
    to: SuiAddress,
    object: ObjectID,
    info: ObjectInfo,
    start: Seq<u8>,
)
    requires
        before.wf(),
        before.indexed(
            &after,
            sequence,
            sender,
            active_inputs,
            mutated_objects,
            move_functions,
            events,
            events_digest,
            object_index_changes,
            digest,
            timestamp_ms,
        ),
        object_index_changes.deleted_owners@ == seq![(from, object)],
        object_index_changes.new_owners@ == seq![((to, object), info)],
        from.rank() != to.rank(),
    ensures
        lookup::<OwnerIndexKey, ObjectInfo>(
            after.tables().owner_index.entries(),
            (from.rank(), object.rank()),
        ) is None,
        lookup::<OwnerIndexKey, ObjectInfo>(
            after.tables().owner_index.entries(),
            (to.rank(), object.rank()),
        ) == Some(info),
        forall|i: int|
            0 <= i < owned_rows(after.tables().owner_index.entries(), from, start).len() ==> (
            #[trigger] owned_rows(after.tables().owner_index.entries(), from, start)[i]).0 != (
                from.rank(),
                object.rank(),
            ),
        owned_rows(after.tables().owner_index.entries(), to, zero_rank()).contains(
            ((to.rank(), object.rank()), info),
        ),
        match deleted_coin_key(before.tables().owner_index.entries(), (from, object)) {
            Some(key) => !after.balance_caches().coin_keys().contains(key),
            None => true,
        },
        match added_coin_key((to, object), info) {
            Some(key) => !after.balance_caches().coin_keys().contains(key),
            None => true,
        },
        !after.balance_caches().balance_keys().contains(from.0@),
        !after.balance_caches().balance_keys().contains(to.0@),
{
    let rows = before.tables().owner_index.entries();
    let rows2 = after.tables().owner_index.entries();
    let gone = (from.rank(), object.rank());
    let come = (to.rank(), object.rank());
    let deleted = crate::lex::ranks_of(object_index_changes.deleted_owners@);
    let stored = crate::table::rows_of(object_index_changes.new_owners@);
    assert(deleted =~= seq![gone]);
    assert(stored =~= seq![(come, info)]);
    assert(deleted.drop_last() =~= Seq::<(Seq<u8>, Seq<u8>)>::empty());
    assert(del_all::<OwnerIndexKey, ObjectInfo>(rows, deleted) == del::<OwnerIndexKey, ObjectInfo>(
        rows,
        gone,
    )) by {
        assert(del_all::<OwnerIndexKey, ObjectInfo>(rows, deleted.drop_last()) == rows);
        assert(deleted.last() == gone);
    }
    let mid = del::<OwnerIndexKey, ObjectInfo>(rows, gone);
    lemma_del_sorted::<OwnerIndexKey, ObjectInfo>(rows, gone);
    lemma_put_all_one::<OwnerIndexKey, ObjectInfo>(mid, come, info);
    assert(rows2 == put::<OwnerIndexKey, ObjectInfo>(mid, come, info));
    lemma_put_sorted::<OwnerIndexKey, ObjectInfo>(mid, come, info);
    lemma_lookup_del::<OwnerIndexKey, ObjectInfo>(rows, gone, gone);
    lemma_lookup_put::<OwnerIndexKey, ObjectInfo>(mid, come, info, gone);
    lemma_lookup_put::<OwnerIndexKey, ObjectInfo>(mid, come, info, come);

    // No page of the first owner holds the object.
    let page_from = owned_rows(rows2, from, start);
    lemma_page_rows::<OwnerIndexKey, ObjectInfo, HeadIs<SuiAddress>>(
        rows2,
        (from.rank(), start),
        !crate::ids::all_zero(start),
        HeadIs(&from),
        None,
        false,
    );
    lemma_lookup_some::<OwnerIndexKey, ObjectInfo>(rows2, gone);
    assert forall|i: int| 0 <= i < page_from.len() implies (#[trigger] page_from[i]).0 != gone by {
        let j = choose|j: int| 0 <= j < rows2.len() && rows2[j] == page_from[i];
        assert(rows2[j].0 == page_from[i].0);
    }

    // The page of all objects of the second owner holds it.
    lemma_bound::<OwnerIndexKey, ObjectInfo>(rows2, come, false);
    let at = lower_bound::<OwnerIndexKey, ObjectInfo>(rows2, come);
    assert(rows2[at] == (come, info));
    lemma_zero_is_least(zero_rank(), object.rank());
    lemma_forward_reaches::<SuiAddress, ObjectID, ObjectInfo>(rows2, to, zero_rank(), at);
    let page_to = owned_rows(rows2, to, zero_rank());
    let first = forward_first::<OwnerIndexKey, ObjectInfo>(rows2, (to.rank(), zero_rank()), false);
    assert(page_to[at - first] == (come, info));

    // The caches.
    assert(object_index_changes.deleted_owners@[0] == (from, object));
    assert(object_index_changes.new_owners@[0] == ((to, object), info));
}

/// A transaction that has been indexed is found: its digest leads to its
/// sequence number, its sequence number to its digest, and its digest to
/// its timestamp.
pub proof fn law_indexed_transaction_is_found(
    before: IndexStore,
    after: IndexStore,
    sequence: TxSequenceNumber,
    sender: SuiAddress,
    active_inputs: Seq<ObjectID>,
    mutated_objects: Seq<(ObjectRef, Owner)>,
    move_functions: Seq<(ObjectID, String, String)>,
    events: Seq<Event>,
    events_digest: TransactionEventsDigest,
    object_index_changes: ObjectIndexChanges,
    digest: TransactionDigest,
    timestamp_ms: u64,
)
    requires
        before.wf(),
        before.indexed(
            &after,
            sequence,
            sender,
            active_inputs,
            mutated_objects,
            move_functions,
            events,
            events_digest,
            object_index_changes,
            digest,
            timestamp_ms,
        ),
    ensures
        lookup::<TransactionDigest, TxSequenceNumber>(
            after.tables().transactions_seq.entries(),
            digest.rank(),
        ) == Some(sequence),
        lookup::<TxSequenceNumber, TransactionDigest>(
            after.tables().transaction_order.entries(),
            sequence,
        ) == Some(digest),
        lookup::<TransactionDigest, u64>(after.tables().timestamps.entries(), digest.rank())
            == Some(timestamp_ms),
        lookup::<(SuiAddress, TxSequenceNumber), TransactionDigest>(
            after.tables().transactions_from_addr.entries(),
            (sender.rank(), sequence),
        ) == Some(digest),
{
    let old = before.tables();
    lemma_put_all_one::<TxSequenceNumber, TransactionDigest>(
        old.transaction_order.entries(),
        sequence,
        digest,
    );
    lemma_lookup_put::<TxSequenceNumber, TransactionDigest>(
        old.transaction_order.entries(),
        sequence,
        digest,
        sequence,
    );
    lemma_put_all_one::<TransactionDigest, TxSequenceNumber>(
        old.transactions_seq.entries(),
        digest.rank(),
        sequence,
    );
    lemma_lookup_put::<TransactionDigest, TxSequenceNumber>(
        old.transactions_seq.entries(),
        digest.rank(),
        sequence,
        digest.rank(),
    );
    lemma_put_all_one::<TransactionDigest, u64>(
        old.timestamps.entries(),
        digest.rank(),
        timestamp_ms,
    );
    lemma_lookup_put::<TransactionDigest, u64>(
        old.timestamps.entries(),
        digest.rank(),
        timestamp_ms,
        digest.rank(),
    );
    lemma_put_all_one::<(SuiAddress, TxSequenceNumber), TransactionDigest>(
        old.transactions_from_addr.entries(),
        (sender.rank(), sequence),
        digest,
    );
    lemma_lookup_put::<(SuiAddress, TxSequenceNumber), TransactionDigest>(
        old.transactions_from_addr.entries(),
        (sender.rank(), sequence),
        digest,
        (sender.rank(), sequence),
    );
}

/// The net effect of one transaction on the live objects: an owner and
/// object under which the transaction stores a summary hold the last
/// summary stored there, also where the transaction deletes that key; any
/// other key that the transaction deletes holds nothing; and every other
/// key holds what it held before. The same is true of the dynamic fields.
pub proof fn law_live_objects_net_effect(
    before: IndexStore,
    after: IndexStore,
    sequence: TxSequenceNumber,
    sender: SuiAddress,
    active_inputs: Seq<ObjectID>,
    mutated_objects: Seq<(ObjectRef, Owner)>,
    move_functions: Seq<(ObjectID, String, String)>,
    events: Seq<Event>,
    events_digest: TransactionEventsDigest,
    object_index_changes: ObjectIndexChanges,
    digest: TransactionDigest,
    timestamp_ms: u64,
    key: (Seq<u8>, Seq<u8>),
)
    requires
        before.wf(),
        before.indexed(
            &after,
            sequence,
            sender,
            active_inputs,
            mutated_objects,
            move_functions,
            events,
            events_digest,
            object_index_changes,
            digest,
            timestamp_ms,
        ),
    ensures
        lookup::<OwnerIndexKey, ObjectInfo>(after.tables().owner_index.entries(), key)
            == match last_stored::<OwnerIndexKey, ObjectInfo>(
            rows_of(object_index_changes.new_owners@),
            key,
        ) {
            Some(info) => Some(info),
            None => if ranks_of(object_index_changes.deleted_owners@).contains(key) {
                None
            } else {
                lookup::<OwnerIndexKey, ObjectInfo>(before.tables().owner_index.entries(), key)
            },
        },
        lookup::<DynamicFieldKey, DynamicFieldInfo>(
            after.tables().dynamic_field_index.entries(),
            key,
        ) == match last_stored::<DynamicFieldKey, DynamicFieldInfo>(
            rows_of(object_index_changes.new_dynamic_fields@),
            key,
        ) {
            Some(info) => Some(info),
            None => if ranks_of(object_index_changes.deleted_dynamic_fields@).contains(key) {
                None
            } else {
                lookup::<DynamicFieldKey, DynamicFieldInfo>(
                    before.tables().dynamic_field_index.entries(),
                    key,
                )
            },
        },
{
    let owners = before.tables().owner_index.entries();
    let deleted = ranks_of(object_index_changes.deleted_owners@);
    lemma_del_all_sorted::<OwnerIndexKey, ObjectInfo>(owners, deleted);
    lemma_lookup_del_all::<OwnerIndexKey, ObjectInfo>(owners, deleted, key);
    lemma_lookup_put_all::<OwnerIndexKey, ObjectInfo>(
        del_all::<OwnerIndexKey, ObjectInfo>(owners, deleted),
        rows_of(object_index_changes.new_owners@),
        key,
    );
    let fields = before.tables().dynamic_field_index.entries();
    let deleted_fields = ranks_of(object_index_changes.deleted_dynamic_fields@);
    lemma_del_all_sorted::<DynamicFieldKey, DynamicFieldInfo>(fields, deleted_fields);
    lemma_lookup_del_all::<DynamicFieldKey, DynamicFieldInfo>(fields, deleted_fields, key);
    lemma_lookup_put_all::<DynamicFieldKey, DynamicFieldInfo>(
        del_all::<DynamicFieldKey, DynamicFieldInfo>(fields, deleted_fields),
        rows_of(object_index_changes.new_dynamic_fields@),
        key,
    );
}

/// Whether every row of an index of transactions leads to the transaction
/// that the order holds under the row's sequence number.
pub open spec fn agrees_with_order<K: TableKey>(
    index: Rows<(K, TxSequenceNumber), TransactionDigest>,
    order: Rows<TxSequenceNumber, TransactionDigest>,
) -> bool {
    forall|i: int|
        0 <= i < index.len() ==> lookup::<TxSequenceNumber, TransactionDigest>(
            order,
            (#[trigger] index[i]).0.1,
        ) == Some(index[i].1)
}

/// Whether every row of the index of function calls leads to the
/// transaction that the order holds under the row's sequence number.
pub open spec fn calls_agree_with_order(
    index: Rows<MoveFunctionKey, TransactionDigest>,
    order: Rows<TxSequenceNumber, TransactionDigest>,
) -> bool {
    forall|i: int|
        0 <= i < index.len() ==> lookup::<TxSequenceNumber, TransactionDigest>(
            order,
            (#[trigger] index[i]).0.1.1.1,
        ) == Some(index[i].1)
}

/// Whether the tables of transactions tell one story: the order and the
/// table of sequence numbers are inverse to each other, and every index of
/// transactions agrees with the order.
pub open spec fn consistent(tables: IndexStoreTables) -> bool {
    let order = tables.transaction_order.entries();
    &&& mutually_inverse(tables)
    &&& agrees_with_order::<SuiAddress>(tables.transactions_from_addr.entries(), order)
    &&& agrees_with_order::<SuiAddress>(tables.transactions_to_addr.entries(), order)
    &&& agrees_with_order::<ObjectID>(tables.transactions_by_input_object_id.entries(), order)
    &&& agrees_with_order::<ObjectID>(tables.transactions_by_mutated_object_id.entries(), order)
    &&& calls_agree_with_order(tables.transactions_by_move_function.entries(), order)
}

/// Tables without rows are consistent.
pub proof fn law_blank_tables_are_consistent(tables: IndexStoreTables)
    requires
        tables.is_blank(),
    ensures
        consistent(tables),
{
    law_blank_tables_are_inverse(tables);
}

/// An index keeps agreeing with the order when a transaction is stored in
/// both under a sequence number that the order did not hold.
proof fn lemma_agreement_kept<K: TableKey>(
    index: Rows<(K, TxSequenceNumber), TransactionDigest>,
    rows: Rows<(K, TxSequenceNumber), TransactionDigest>,
    order: Rows<TxSequenceNumber, TransactionDigest>,
    sequence: TxSequenceNumber,
    digest: TransactionDigest,
)
    requires
        strictly_sorted::<TxSequenceNumber, TransactionDigest>(order),
        agrees_with_order::<K>(index, order),
        lookup::<TxSequenceNumber, TransactionDigest>(order, sequence) is None,
        forall|i: int| 0 <= i < rows.len() ==> (#[trigger] rows[i]).0.1 == sequence && rows[i].1 == digest,
    ensures
        agrees_with_order::<K>(
            put_all::<(K, TxSequenceNumber), TransactionDigest>(index, rows),
            put::<TxSequenceNumber, TransactionDigest>(order, sequence, digest),
        ),
{
    let index2 = put_all::<(K, TxSequenceNumber), TransactionDigest>(index, rows);
    let order2 = put::<TxSequenceNumber, TransactionDigest>(order, sequence, digest);
    lemma_put_all_rows::<(K, TxSequenceNumber), TransactionDigest>(index, rows);
    assert forall|i: int| 0 <= i < index2.len() implies lookup::<
        TxSequenceNumber,
        TransactionDigest,
    >(order2, (#[trigger] index2[i]).0.1) == Some(index2[i].1) by {
        let row = index2[i];
        lemma_lookup_put::<TxSequenceNumber, TransactionDigest>(order, sequence, digest, row.0.1);
        if rows.contains(row) {
            let j = choose|j: int| 0 <= j < rows.len() && rows[j] == row;
            assert(rows[j].0.1 == sequence);
        } else {
            let j = choose|j: int| 0 <= j < index.len() && index[j] == row;
            assert(lookup::<TxSequenceNumber, TransactionDigest>(order, index[j].0.1) == Some(
                index[j].1,
            ));
        }
    }
}

/// Every recipient row carries the sequence number and the digest of its
/// transaction.
proof fn lemma_recipient_rows(
    mutated: Seq<(ObjectRef, Owner)>,
    sequence: TxSequenceNumber,
    digest: TransactionDigest,
)
    ensures
        forall|i: int|
            0 <= i < recipient_rows(mutated, sequence, digest).len() ==> (
            #[trigger] recipient_rows(mutated, sequence, digest)[i]).0.1 == sequence
                && recipient_rows(mutated, sequence, digest)[i].1 == digest,
    decreases mutated.len(),
{
    if mutated.len() > 0 {
        lemma_recipient_rows(mutated.drop_last(), sequence, digest);
        let rest = recipient_rows(mutated.drop_last(), sequence, digest);
        let all = recipient_rows(mutated, sequence, digest);
        assert forall|i: int| 0 <= i < all.len() implies (#[trigger] all[i]).0.1 == sequence
            && all[i].1 == digest by {
            if i < rest.len() {
                assert(all[i] == rest[i]);
            }
        }
    }
}

/// Indexing a transaction keeps the tables of transactions consistent,
/// provided that the transaction was not indexed before.
pub proof fn law_index_tx_keeps_tables_consistent(
    before: IndexStore,
    after: IndexStore,
    sequence: TxSequenceNumber,
    sender: SuiAddress,
    active_inputs: Seq<ObjectID>,
    mutated_objects: Seq<(ObjectRef, Owner)>,
    move_functions: Seq<(ObjectID, String, String)>,
    events: Seq<Event>,
    events_digest: TransactionEventsDigest,
    object_index_changes: ObjectIndexChanges,
    digest: TransactionDigest,
    timestamp_ms: u64,
)
    requires
        before.wf(),
        before.indexed(
            &after,
            sequence,
            sender,
            active_inputs,
            mutated_objects,
            move_functions,
            events,
            events_digest,
            object_index_changes,
            digest,
            timestamp_ms,
        ),
        consistent(before.tables()),
        lookup::<TransactionDigest, TxSequenceNumber>(
            before.tables().transactions_seq.entries(),
            digest.rank(),
        ) is None,
    ensures
        consistent(after.tables()),
{
    law_index_tx_keeps_tables_inverse(
        before,
        after,
        sequence,
        sender,
        active_inputs,
        mutated_objects,
        move_functions,
        events,
        events_digest,
        object_index_changes,
        digest,
        timestamp_ms,
    );
    let old = before.tables();
    let order = old.transaction_order.entries();
    let order2 = put::<TxSequenceNumber, TransactionDigest>(order, sequence, digest);
    lemma_put_all_one::<TxSequenceNumber, TransactionDigest>(order, sequence, digest);
    lemma_lookup_some::<TxSequenceNumber, TransactionDigest>(order, sequence);
    assert(lookup::<TxSequenceNumber, TransactionDigest>(order, sequence) is None);
    lemma_agreement_kept::<SuiAddress>(
        old.transactions_from_addr.entries(),
        seq![((sender.rank(), sequence), digest)],
        order,
        sequence,
        digest,
    );
    lemma_recipient_rows(mutated_objects, sequence, digest);
    lemma_agreement_kept::<SuiAddress>(
        old.transactions_to_addr.entries(),
        recipient_rows(mutated_objects, sequence, digest),
        order,
        sequence,
        digest,
    );
    lemma_agreement_kept::<ObjectID>(
        old.transactions_by_input_object_id.entries(),
        input_rows(active_inputs, sequence, digest),
        order,
        sequence,
        digest,
    );
    lemma_agreement_kept::<ObjectID>(
        old.transactions_by_mutated_object_id.entries(),
        mutated_rows(mutated_objects, sequence, digest),
        order,
        sequence,
        digest,
    );
    // The index of function calls, whose keys have another shape.
    let calls = old.transactions_by_move_function.entries();
    let rows = call_rows(move_functions, sequence, digest);
    let calls2 = put_all::<MoveFunctionKey, TransactionDigest>(calls, rows);
    lemma_put_all_rows::<MoveFunctionKey, TransactionDigest>(calls, rows);
    assert forall|i: int| 0 <= i < calls2.len() implies lookup::<
        TxSequenceNumber,
        TransactionDigest,
    >(order2, (#[trigger] calls2[i]).0.1.1.1) == Some(calls2[i].1) by {
        let row = calls2[i];
        lemma_lookup_put::<TxSequenceNumber, TransactionDigest>(
            order,
            sequence,
            digest,
            row.0.1.1.1,
        );
        if rows.contains(row) {
            let j = choose|j: int| 0 <= j < rows.len() && rows[j] == row;
            assert(rows[j].0.1.1.1 == sequence);
        } else {
            let j = choose|j: int| 0 <= j < calls.len() && calls[j] == row;
            assert(lookup::<TxSequenceNumber, TransactionDigest>(order, calls[j].0.1.1.1)
                == Some(calls[j].1));
        }
    }
}

/// In consistent tables, a row of an index that leads to the transaction
/// `digest` stands under the sequence number of `digest`.
proof fn lemma_digest_names_sequence(
    tables: IndexStoreTables,
    digest: TransactionDigest,
    sequence: TxSequenceNumber,
    found: TxSequenceNumber,
)
    requires
        mutually_inverse(tables),
        lookup::<TransactionDigest, TxSequenceNumber>(
            tables.transactions_seq.entries(),
            digest.rank(),
        ) == Some(sequence),
        lookup::<TxSequenceNumber, TransactionDigest>(tables.transaction_order.entries(), found)
            == Some(digest),
    ensures
        found == sequence,
{
    assert(lookup::<TxSequenceNumber, TransactionDigest>(tables.transaction_order.entries(), found)
        == Some(digest) <==> lookup::<TransactionDigest, TxSequenceNumber>(
        tables.transactions_seq.entries(),
        digest.rank(),
    ) == Some(found));
}

/// The cursor is exclusive in an index of transactions: where the index
/// agrees with the order, a page of the transactions of a key that starts
/// after the transaction `digest` does not hold `digest`.
pub proof fn law_cursor_is_excluded_from_index<K: TableKey>(
    tables: IndexStoreTables,
    index: Rows<(K, TxSequenceNumber), TransactionDigest>,
    key: K,
    digest: TransactionDigest,
    sequence: TxSequenceNumber,
    limit: Option<usize>,
    reverse: bool,
)
    requires
        strictly_sorted::<(K, TxSequenceNumber), TransactionDigest>(index),
        mutually_inverse(tables),
        agrees_with_order::<K>(index, tables.transaction_order.entries()),
        lookup::<TransactionDigest, TxSequenceNumber>(
            tables.transactions_seq.entries(),
            digest.rank(),
        ) == Some(sequence),
    ensures
        !transactions_page::<K>(index, key, Some(sequence), limit, reverse).contains(digest),
{
    let start = (key.rank(), sequence);
    let filter = HeadIs(&key);
    let rows = page::<(K, TxSequenceNumber), TransactionDigest, HeadIs<K>>(
        index,
        start,
        true,
        filter,
        limit,
        reverse,
    );
    let digests = transactions_page::<K>(index, key, Some(sequence), limit, reverse);
    lemma_page_rows::<(K, TxSequenceNumber), TransactionDigest, HeadIs<K>>(
        index,
        start,
        true,
        filter,
        limit,
        reverse,
    );
    if reverse {
        lemma_reverse_page::<(K, TxSequenceNumber), TransactionDigest, HeadIs<K>>(
            index,
            start,
            true,
            filter,
            limit,
        );
    } else {
        lemma_forward_page::<(K, TxSequenceNumber), TransactionDigest, HeadIs<K>>(
            index,
            start,
            true,
            filter,
            limit,
        );
    }
    if digests.contains(digest) {
        let i = choose|i: int| 0 <= i < digests.len() && digests[i] == digest;
        let row = rows[i];
        let j = choose|j: int| 0 <= j < index.len() && index[j] == row;
        assert(lookup::<TxSequenceNumber, TransactionDigest>(
            tables.transaction_order.entries(),
            index[j].0.1,
        ) == Some(digest));
        lemma_digest_names_sequence(tables, digest, sequence, row.0.1);
        // The row is admitted, so it is the row of the cursor, which the
        // page leaves out.
        assert(RowFilter::<(K, TxSequenceNumber)>::admits(&filter, row.0)) by {
            if reverse {
                let end = reverse_end::<(K, TxSequenceNumber), TransactionDigest>(
                    index,
                    start,
                    true,
                );
                assert(rows[i] == index[end - 1 - i]);
            } else {
                let first = forward_first::<(K, TxSequenceNumber), TransactionDigest>(
                    index,
                    start,
                    true,
                );
                assert(rows[i] == index[first + i]);
            }
        }
        assert(index[j].0 == start);
        lemma_cursor_is_excluded::<(K, TxSequenceNumber), TransactionDigest, HeadIs<K>>(
            index,
            start,
            filter,
            limit,
            reverse,
        );
        assert(rows[i].0 != start);
    }
}

/// Whether `digest` is the transaction of a row whose sequence number lies
/// past the cursor.
spec fn has_call_past(
    rows: Rows<MoveFunctionKey, TransactionDigest>,
    digest: TransactionDigest,
    cursor: Option<TxSequenceNumber>,
    reverse: bool,
) -> bool {
    exists|j: int|
        0 <= j < rows.len() && (#[trigger] rows[j]).1 == digest && is_past(
            rows[j].0.1.1.1,
            cursor,
            reverse,
        )
}

/// Every transaction among the calls past a cursor is the transaction of a
/// row whose sequence number lies past the cursor.
proof fn lemma_calls_past_rows(
    rows: Rows<MoveFunctionKey, TransactionDigest>,
    cursor: Option<TxSequenceNumber>,
    reverse: bool,
)
    ensures
        forall|i: int|
            0 <= i < calls_past(rows, cursor, reverse).len() ==> has_call_past(
                rows,
                #[trigger] calls_past(rows, cursor, reverse)[i],
                cursor,
                reverse,
            ),
    decreases rows.len(),
{
    if rows.len() > 0 {
        let rest = calls_past(rows.drop_last(), cursor, reverse);
        let all = calls_past(rows, cursor, reverse);
        lemma_calls_past_rows(rows.drop_last(), cursor, reverse);
        assert forall|i: int| 0 <= i < all.len() implies has_call_past(
            rows,
            #[trigger] all[i],
            cursor,
            reverse,
        ) by {
            if i < rest.len() {
                assert(all[i] == rest[i]);
                assert(has_call_past(rows.drop_last(), rest[i], cursor, reverse));
                let j = choose|j: int|
                    0 <= j < rows.drop_last().len() && (#[trigger] rows.drop_last()[j]).1
                        == rest[i] && is_past(rows.drop_last()[j].0.1.1.1, cursor, reverse);
                assert(rows[j] == rows.drop_last()[j]);
            } else {
                assert(rows[rows.len() - 1].1 == all[i]);
            }
        }
    }
}

/// Without a cursor, the calls past it are all the calls.
proof fn lemma_calls_past_nothing(rows: Rows<MoveFunctionKey, TransactionDigest>, reverse: bool)
    ensures
        calls_past(rows, None, reverse) == values_of(rows),
    decreases rows.len(),
{
    if rows.len() > 0 {
        lemma_calls_past_nothing(rows.drop_last(), reverse);
        assert(values_of(rows) =~= values_of(rows.drop_last()).push(rows.last().1));
    } else {
        assert(values_of(rows) =~= Seq::<TransactionDigest>::empty());
    }
}

/// The cursor is exclusive in the index of function calls, whichever names
/// are given: in consistent tables, a page that starts after the
/// transaction `digest` does not hold `digest`.
pub proof fn law_cursor_is_excluded_from_calls(
    tables: IndexStoreTables,
    package: ObjectID,
    module: Option<String>,
    function: Option<String>,
    digest: TransactionDigest,
    sequence: TxSequenceNumber,
    limit: Option<usize>,
    reverse: bool,
)
    requires
        tables.wf(),
        consistent(tables),
        lookup::<TransactionDigest, TxSequenceNumber>(
            tables.transactions_seq.entries(),
            digest.rank(),
        ) == Some(sequence),
    ensures
        !calls_page(
            tables.transactions_by_move_function.entries(),
            package,
            module,
            function,
            Some(sequence),
            limit,
            reverse,
        ).contains(digest),
{
    let index = tables.transactions_by_move_function.entries();
    let start = (package.rank(), (name_or_empty(module), (name_or_empty(function), 0u64)));
    let filter = CallFilter { package: &package, module: &module, function: &function };
    let run = call_run(index, package, module, function);
    let directed = if reverse {
        run.reverse()
    } else {
        run
    };
    let past = calls_past(directed, Some(sequence), reverse);
    let digests = calls_page(index, package, module, function, Some(sequence), limit, reverse);
    lemma_page_rows::<MoveFunctionKey, TransactionDigest, CallFilter>(
        index,
        start,
        false,
        filter,
        None,
        false,
    );
    lemma_calls_past_rows(directed, Some(sequence), reverse);
    if digests.contains(digest) {
        let i = choose|i: int| 0 <= i < digests.len() && digests[i] == digest;
        assert(past[i] == digest);
        assert(has_call_past(directed, past[i], Some(sequence), reverse));
        let k = choose|k: int|
            0 <= k < directed.len() && (#[trigger] directed[k]).1 == past[i] && is_past(
                directed[k].0.1.1.1,
                Some(sequence),
                reverse,
            );
        let row = directed[k];
        let at = if reverse {
            run.len() - 1 - k
        } else {
            k
        };
        assert(run[at] == row);
        let j = choose|j: int| 0 <= j < index.len() && index[j] == run[at];
        assert(lookup::<TxSequenceNumber, TransactionDigest>(
            tables.transaction_order.entries(),
            index[j].0.1.1.1,
        ) == Some(digest));
        lemma_digest_names_sequence(tables, digest, sequence, row.0.1.1.1);
    }
}

/// Without cursor and limit, the reverse page of the calls into a package
/// is the forward page read backwards, whichever names are given.
pub proof fn law_reverse_calls_mirror_forward_calls(
    rows: Rows<MoveFunctionKey, TransactionDigest>,
    package: ObjectID,
    module: Option<String>,
    function: Option<String>,
)
    ensures
        calls_page(rows, package, module, function, None, None, true) == calls_page(
            rows,
            package,
            module,
            function,
            None,
            None,
            false,
        ).reverse(),
        calls_page(rows, package, module, function, None, None, false) == values_of(
            call_run(rows, package, module, function),
        ),
{
    let run = call_run(rows, package, module, function);
    lemma_calls_past_nothing(run, false);
    lemma_calls_past_nothing(run.reverse(), true);
    assert(values_of(run.reverse()) =~= values_of(run).reverse());
}

/// Around a cursor the two directions split the transactions of a key:
/// without a limit, the reverse page read backwards, the transaction of the
/// cursor, and the forward page make up the page without a cursor.
pub proof fn law_pages_split_at_cursor<K: TableKey>(
    rows: Rows<(K, TxSequenceNumber), TransactionDigest>,
    key: K,
    cursor: TxSequenceNumber,
    digest: TransactionDigest,
)
    requires
        strictly_sorted::<(K, TxSequenceNumber), TransactionDigest>(rows),
        lookup::<(K, TxSequenceNumber), TransactionDigest>(rows, (key.rank(), cursor)) == Some(
            digest,
        ),
    ensures
        transactions_page::<K>(rows, key, None, None, false) == transactions_page::<K>(
            rows,
            key,
            Some(cursor),
            None,
            true,
        ).reverse() + seq![digest] + transactions_page::<K>(rows, key, Some(cursor), None, false),
{
    let start = (key.rank(), cursor);
    let filter = HeadIs(&key);
    lemma_pages_cover_key::<K, TransactionDigest>(rows, key);
    let low = lower_bound::<(K, TxSequenceNumber), TransactionDigest>(rows, (key.rank(), 0));
    let high = upper_bound::<(K, TxSequenceNumber), TransactionDigest>(
        rows,
        (key.rank(), u64::MAX),
    );
    lemma_bound::<(K, TxSequenceNumber), TransactionDigest>(rows, start, false);
    let at = lower_bound::<(K, TxSequenceNumber), TransactionDigest>(rows, start);
    assert(rows[at] == (start, digest));
    lemma_lookup_row::<(K, TxSequenceNumber), TransactionDigest>(rows, at);
    assert(low <= at < high);
    lemma_forward_page::<(K, TxSequenceNumber), TransactionDigest, HeadIs<K>>(
        rows,
        start,
        true,
        filter,
        None,
    );
    lemma_reverse_page::<(K, TxSequenceNumber), TransactionDigest, HeadIs<K>>(
        rows,
        start,
        true,
        filter,
        None,
    );
    let after = page::<(K, TxSequenceNumber), TransactionDigest, HeadIs<K>>(
        rows,
        start,
        true,
        filter,
        None,
        false,
    );
    let prior = page::<(K, TxSequenceNumber), TransactionDigest, HeadIs<K>>(
        rows,
        start,
        true,
        filter,
        None,
        true,
    );
    assert(forward_first::<(K, TxSequenceNumber), TransactionDigest>(rows, start, true) == at + 1);
    assert(reverse_end::<(K, TxSequenceNumber), TransactionDigest>(rows, start, true) == at);
    // The forward page runs to the end of the key's rows.
    if at + 1 + after.len() < high {
        assert(rows[at + 1 + after.len()].0.0 == key.rank());
    }
    if at + 1 + after.len() > high {
        assert(RowFilter::<(K, TxSequenceNumber)>::admits(&filter, rows[high].0));
    }
    // The reverse page runs to their beginning.
    if at - prior.len() > low {
        assert(rows[at - prior.len() - 1].0.0 == key.rank());
    }
    if at - prior.len() < low {
        assert(RowFilter::<(K, TxSequenceNumber)>::admits(&filter, rows[low - 1].0));
    }
    assert(after == rows.subrange(at + 1, high));
    assert(prior == rows.subrange(low, at).reverse());
    assert(transactions_page::<K>(rows, key, None, None, false) =~= transactions_page::<K>(
        rows,
        key,
        Some(cursor),
        None,
        true,
    ).reverse() + seq![digest] + transactions_page::<K>(rows, key, Some(cursor), None, false));
}

/// Whether every row of the five event tables stands under a sequence
/// number below `bound`.
pub open spec fn events_are_before(tables: IndexStoreTables, bound: int) -> bool {
    &&& forall|i: int|
        0 <= i < tables.event_order.entries().len() ==> (
        #[trigger] tables.event_order.entries()[i]).0.0 < bound
    &&& forall|i: int|
        0 <= i < tables.event_by_move_module.entries().len() ==> (
        #[trigger] tables.event_by_move_module.entries()[i]).0.1.0 < bound
    &&& forall|i: int|
        0 <= i < tables.event_by_move_event.entries().len() ==> (
        #[trigger] tables.event_by_move_event.entries()[i]).0.1.0 < bound
    &&& forall|i: int|
        0 <= i < tables.event_by_sender.entries().len() ==> (
        #[trigger] tables.event_by_sender.entries()[i]).0.1.0 < bound
    &&& forall|i: int|
        0 <= i < tables.event_by_time.entries().len() ==> (
        #[trigger] tables.event_by_time.entries()[i]).0.1.0 < bound
}

/// Indexing a transaction keeps the events below the allocator's value:
/// the rows that it stores stand under the sequence number that it gives
/// out.
pub proof fn law_index_tx_keeps_events_before(
    before: IndexStore,
    after: IndexStore,
    sequence: TxSequenceNumber,
    sender: SuiAddress,
    active_inputs: Seq<ObjectID>,
    mutated_objects: Seq<(ObjectRef, Owner)>,
    move_functions: Seq<(ObjectID, String, String)>,
    events: Seq<Event>,
    events_digest: TransactionEventsDigest,
    object_index_changes: ObjectIndexChanges,
    digest: TransactionDigest,
    timestamp_ms: u64,
)
    requires
        before.indexed(
            &after,
            sequence,
            sender,
            active_inputs,
            mutated_objects,
            move_functions,
            events,
            events_digest,
            object_index_changes,
            digest,
            timestamp_ms,
        ),
        events_are_before(before.tables(), sequence as int),
    ensures
        events_are_before(after.tables(), sequence + 1),
{
    let value = (events_digest, digest, timestamp_ms);
    let old = before.tables();
    let new = after.tables();
    let orders = event_order_rows(events.len(), sequence, value);
    lemma_put_all_rows::<EventId, EventIndex>(old.event_order.entries(), orders);
    assert forall|i: int| 0 <= i < new.event_order.entries().len() implies (
    #[trigger] new.event_order.entries()[i]).0.0 < sequence + 1 by {
        let row = new.event_order.entries()[i];
        if orders.contains(row) {
            let j = choose|j: int| 0 <= j < orders.len() && orders[j] == row;
        } else {
            let j = choose|j: int|
                0 <= j < old.event_order.entries().len() && old.event_order.entries()[j] == row;
        }
    }
    let modules = event_module_rows(events, sequence, value);
    lemma_put_all_rows::<(ModuleId, EventId), EventIndex>(
        old.event_by_move_module.entries(),
        modules,
    );
    assert forall|i: int| 0 <= i < new.event_by_move_module.entries().len() implies (
    #[trigger] new.event_by_move_module.entries()[i]).0.1.0 < sequence + 1 by {
        let row = new.event_by_move_module.entries()[i];
        if modules.contains(row) {
            let j = choose|j: int| 0 <= j < modules.len() && modules[j] == row;
        } else {
            let j = choose|j: int|
                0 <= j < old.event_by_move_module.entries().len()
                    && old.event_by_move_module.entries()[j] == row;
        }
    }
    let types = event_type_rows(events, sequence, value);
    lemma_put_all_rows::<(StructTag, EventId), EventIndex>(
        old.event_by_move_event.entries(),
        types,
    );
    assert forall|i: int| 0 <= i < new.event_by_move_event.entries().len() implies (
    #[trigger] new.event_by_move_event.entries()[i]).0.1.0 < sequence + 1 by {
        let row = new.event_by_move_event.entries()[i];
        if types.contains(row) {
            let j = choose|j: int| 0 <= j < types.len() && types[j] == row;
        } else {
            let j = choose|j: int|
                0 <= j < old.event_by_move_event.entries().len()
                    && old.event_by_move_event.entries()[j] == row;
        }
    }
    let senders = event_sender_rows(events, sequence, value);
    lemma_put_all_rows::<(SuiAddress, EventId), EventIndex>(
        old.event_by_sender.entries(),
        senders,
    );
    assert forall|i: int| 0 <= i < new.event_by_sender.entries().len() implies (
    #[trigger] new.event_by_sender.entries()[i]).0.1.0 < sequence + 1 by {
        let row = new.event_by_sender.entries()[i];
        if senders.contains(row) {
            let j = choose|j: int| 0 <= j < senders.len() && senders[j] == row;
        } else {
            let j = choose|j: int|
                0 <= j < old.event_by_sender.entries().len() && old.event_by_sender.entries()[j]
                    == row;
        }
    }
    let times = event_time_rows(events.len(), sequence, timestamp_ms, value);
    lemma_put_all_rows::<(u64, EventId), EventIndex>(old.event_by_time.entries(), times);
    assert forall|i: int| 0 <= i < new.event_by_time.entries().len() implies (
    #[trigger] new.event_by_time.entries()[i]).0.1.0 < sequence + 1 by {
        let row = new.event_by_time.entries()[i];
        if times.contains(row) {
            let j = choose|j: int| 0 <= j < times.len() && times[j] == row;
        } else {
            let j = choose|j: int|
                0 <= j < old.event_by_time.entries().len() && old.event_by_time.entries()[j]
                    == row;
        }
    }
}

/// The cursor is exclusive in every query for transactions: in a coherent
/// store, a page that starts after the transaction `digest` does not hold
/// `digest`, whatever the filter, the limit and the direction.
pub proof fn law_cursor_is_exclusive(
    store: IndexStore,
    filter: Option<TransactionFilter>,
    digest: TransactionDigest,
    sequence: TxSequenceNumber,
    limit: Option<usize>,
    reverse: bool,
)
    requires
        store.coherent(),
        lookup::<TransactionDigest, TxSequenceNumber>(
            store.tables().transactions_seq.entries(),
            digest.rank(),
        ) == Some(sequence),
    ensures
        match transactions_matching(store.tables(), filter, Some(sequence), limit, reverse) {
            Ok(digests) => !digests.contains(digest),
            Err(_) => true,
        },
{
    let tables = store.tables();
    match filter {
        Some(TransactionFilter::MoveFunction { package, module, function }) => {
            law_cursor_is_excluded_from_calls(
                tables,
                package,
                module,
                function,
                digest,
                sequence,
                limit,
                reverse,
            );
        },
        Some(TransactionFilter::InputObject(object_id)) => {
            law_cursor_is_excluded_from_index::<ObjectID>(
                tables,
                tables.transactions_by_input_object_id.entries(),
                object_id,
                digest,
                sequence,
                limit,
                reverse,
            );
        },
        Some(TransactionFilter::ChangedObject(object_id)) => {
            law_cursor_is_excluded_from_index::<ObjectID>(
                tables,
                tables.transactions_by_mutated_object_id.entries(),
                object_id,
                digest,
                sequence,
                limit,
                reverse,
            );
        },
        Some(TransactionFilter::FromAddress(address)) => {
            law_cursor_is_excluded_from_index::<SuiAddress>(
                tables,
                tables.transactions_from_addr.entries(),
                address,
                digest,
                sequence,
                limit,
                reverse,
            );
        },
        Some(TransactionFilter::ToAddress(address)) => {
            law_cursor_is_excluded_from_index::<SuiAddress>(
                tables,
                tables.transactions_to_addr.entries(),
                address,
                digest,
                sequence,
                limit,
                reverse,
            );
        },
        Some(TransactionFilter::Checkpoint(_)) => {},
        None => {
            law_cursor_transaction_is_excluded(tables, digest, sequence, limit, reverse);
        },
    }
}

/// The records of the events of one transaction, last to first.
pub open spec fn records_of(
    count: nat,
    events_digest: TransactionEventsDigest,
    digest: TransactionDigest,
    timestamp_ms: u64,
) -> Seq<(TransactionEventsDigest, TransactionDigest, usize, u64)> {
    Seq::new(count, |i: int| (events_digest, digest, (count - 1 - i) as usize, timestamp_ms))
}

/// A transaction with N events that is indexed in a coherent store is then
/// answered with exactly its N events: a query for the events of the
/// transaction, in descending order from the greatest cursor and with a
/// limit of at least N, returns one record for each position, last to
/// first, all with the digest of the events, the digest of the transaction
/// and the timestamp. The events of all transactions, queried in the same
/// way with the limit N, are those same records.
pub proof fn law_indexed_events_are_returned(
    before: IndexStore,
    after: IndexStore,
    sequence: TxSequenceNumber,
    sender: SuiAddress,
    active_inputs: Seq<ObjectID>,
    mutated_objects: Seq<(ObjectRef, Owner)>,
    move_functions: Seq<(ObjectID, String, String)>,
    events: Seq<Event>,
    events_digest: TransactionEventsDigest,
    object_index_changes: ObjectIndexChanges,
    digest: TransactionDigest,
    timestamp_ms: u64,
    limit: usize,
)
    requires
        before.coherent(),
        before.indexed(
            &after,
            sequence,
            sender,
            active_inputs,
            mutated_objects,
            move_functions,
            events,
            events_digest,
            object_index_changes,
            digest,
            timestamp_ms,
        ),
        events.len() <= limit,
        events.len() < usize::MAX,
    ensures
        transaction_events_page(
            after.tables().event_order.entries(),
            sequence,
            u64::MAX,
            usize::MAX,
            limit,
            true,
        ) == records_of(events.len(), events_digest, digest, timestamp_ms),
        all_events_page(
            after.tables().event_order.entries(),
            u64::MAX,
            usize::MAX,
            events.len() as usize,
            true,
        ) == records_of(events.len(), events_digest, digest, timestamp_ms),
{
    let count = events.len() as int;
    let value = (events_digest, digest, timestamp_ms);
    let s = before.tables().event_order.entries();
    let rows = event_order_rows(events.len(), sequence, value);
    let t = after.tables().event_order.entries();
    lemma_put_all_appends::<EventId, EventIndex>(s, rows);
    assert(t == s + rows);
    crate::ordered::lemma_put_all_sorted::<EventId, EventIndex>(s, rows);
    let top = (sequence, usize::MAX);
    let last = (u64::MAX, usize::MAX);
    assert forall|i: int| 0 <= i < t.len() implies crate::ordered::before::<EventId>(
        #[trigger] t[i].0,
        top,
        true,
    ) && crate::ordered::before::<EventId>(t[i].0, last, true) by {
        if i < s.len() {
            assert(t[i] == s[i]);
        } else {
            assert(t[i] == rows[i - s.len()]);
        }
    }
    lemma_bound_is::<EventId, EventIndex>(t, top, true, t.len() as int);
    lemma_bound_is::<EventId, EventIndex>(t, last, true, t.len() as int);
    if t.len() > 0 {
        let i = t.len() - 1;
        if i < s.len() {
            assert(t[i] == s[i]);
        } else {
            assert(t[i] == rows[i - s.len()]);
        }
    }
    assert(reverse_end::<EventId, EventIndex>(t, top, true) == t.len());
    assert(reverse_end::<EventId, EventIndex>(t, last, true) == t.len());
    let want = records_of(events.len(), events_digest, digest, timestamp_ms);

    // The events of the transaction.
    let filter = HeadIs(&sequence);
    lemma_reverse_page::<EventId, EventIndex, HeadIs<TxSequenceNumber>>(
        t,
        top,
        true,
        filter,
        Some(limit),
    );
    let mine = page::<EventId, EventIndex, HeadIs<TxSequenceNumber>>(
        t,
        top,
        true,
        filter,
        Some(limit),
        true,
    );
    if mine.len() > count {
        let at = t.len() - mine.len();
        assert(RowFilter::<EventId>::admits(&filter, t[at].0));
        assert(t[at] == s[at]);
    }
    if mine.len() < count {
        let at = t.len() - mine.len() - 1;
        assert(t[at] == rows[at - s.len()]);
    }
    assert(mine.len() == count);
    assert forall|i: int| 0 <= i < count implies event_records(mine)[i] == want[i] by {
        assert(mine[i] == t[t.len() - 1 - i]);
        assert(t[t.len() - 1 - i] == rows[count - 1 - i]);
    }
    assert(event_records(mine) =~= want);

    // The events of all transactions, limited to as many.
    lemma_reverse_page::<EventId, EventIndex, Everything>(
        t,
        last,
        true,
        Everything,
        Some(events.len() as usize),
    );
    let every = page::<EventId, EventIndex, Everything>(
        t,
        last,
        true,
        Everything,
        Some(events.len() as usize),
        true,
    );
    assert(every.len() == count);
    assert forall|i: int| 0 <= i < count implies event_records(every)[i] == want[i] by {
        assert(every[i] == t[t.len() - 1 - i]);
        assert(t[t.len() - 1 - i] == rows[count - 1 - i]);
    }
    assert(event_records(every) =~= want);
}

} // verus!
