use crate::batch::{stage_tx, staged_rows};
use crate::caches::{
    added_coin_key, coin_type_of, deleted_coin_key, invalidate_all_balances,
    invalidate_coin_balance, IndexStoreCaches,
};
use crate::ids::{ObjectID, SuiAddress, TransactionDigest, TransactionEventsDigest, TxSequenceNumber};
use crate::keys::TableKey;
use crate::ordered::{lemma_lookup_put, lemma_lookup_some, lookup, put_all};
use crate::queries::{
    all_events_page, answers, calls_page, calls_past, coin_refs, collect_event_records,
    collect_keyed_event_records, collect_refs, cursor_or_zero, deref_all, field_rows,
    first_field_named, keyed_events_page, lemma_calls_past_prefix, lemma_matching_prefix,
    matching_objects, owned_rows,
    start_of, timed_events_page, transaction_events_page, transactions_matching,
    transactions_page, CallFilter,
};
use crate::scan::{
    at_most, collect_values, locate, values_of, Everything, HeadAtLeast, HeadAtMost, HeadIs,
};
use crate::table::{rows_of, Table};
use crate::tables::IndexStoreTables;
use crate::types::{
    DynamicFieldInfo, DynamicFieldKey, DynamicFieldName, Event, EventId, EventIndex, EventRecord,
    IndexError, ModuleId, ObjectIndexChanges, ObjectInfo, ObjectRef, Owner, OwnerIndexKey,
    StructTag, SuiObjectDataFilter, TransactionEvents, TransactionFilter, TypeTag,
};
use vstd::prelude::*;

verus! {

/// The index store: the tables, the allocator of sequence numbers, and the
/// caches of balances.
pub struct IndexStore {
    next_sequence_number: u64,
    tables: IndexStoreTables,
    pub caches: IndexStoreCaches,
}

/// The sequence number that follows the greatest one in `order`, and zero
/// where `order` is empty.
pub open spec fn sequence_after(order: Seq<(TxSequenceNumber, TransactionDigest)>) -> int {
    if order.len() == 0 {
        0
    } else {
        order.last().0 + 1
    }
}

impl IndexStore {
    /// The tables of the store.
    pub closed spec fn tables(&self) -> IndexStoreTables {
        self.tables
    }

    /// The caches of the store.
    pub closed spec fn balance_caches(&self) -> IndexStoreCaches {
        self.caches
    }

    /// The allocator's value: the sequence number that the next indexed
    /// transaction gets.
    pub closed spec fn sequence(&self) -> u64 {
        self.next_sequence_number
    }

    /// The store's invariant: its tables are sorted, and every sequence
    /// number in the transaction order was allocated before.
    pub open spec fn wf(&self) -> bool {
        &&& self.tables().wf()
        &&& forall|i: int|
            0 <= i < self.tables().transaction_order.entries().len() ==> (
            #[trigger] self.tables().transaction_order.entries()[i]).0 < self.sequence()
    }

    /// Whether the allocator can give out one more sequence number.
    pub open spec fn has_capacity(&self) -> bool {
        self.sequence() < u64::MAX
    }

    /// Whether the store tells one story. Besides the invariant, the tables
    /// of transactions are consistent (the order and the table of sequence
    /// numbers are inverse to each other, and every index of transactions
    /// agrees with the order), and every event stands under a sequence
    /// number that was allocated before. A store over tables without rows
    /// is coherent, and it stays so as long as no transaction is indexed
    /// twice.
    pub open spec fn coherent(&self) -> bool {
        &&& self.wf()
        &&& crate::laws::consistent(self.tables())
        &&& crate::laws::events_are_before(self.tables(), self.sequence() as int)
    }

    /// Whether `after` is what this store becomes by indexing one
    /// transaction under `sequence`.
    ///
    /// The transaction gets the allocator's value and the allocator moves on
    /// by one. Every table holds what the transaction stages for it. The
    /// caches gain no entry, and lose at least the entries that the change
    /// of ownership makes stale: the balance by coin type of each owner
    /// that loses or gains an object, under the coin type of that object,
    /// and the balances of all coin types of each such owner.
    pub open spec fn indexed(
        &self,
        after: &IndexStore,
        sequence: TxSequenceNumber,
        sender: SuiAddress,
        active_inputs: Seq<ObjectID>,
        mutated_objects: Seq<(ObjectRef, Owner)>,
        move_functions: Seq<(ObjectID, String, String)>,
        events: Seq<Event>,
        events_digest: TransactionEventsDigest,
        object_index_changes: ObjectIndexChanges,
        digest: TransactionDigest,
        timestamp_ms: u64,
    ) -> bool {
        &&& sequence == self.sequence()
        &&& after.sequence() == self.sequence() + 1
        &&& after.tables().reflects(
            &self.tables(),
            staged_rows(
                sequence,
                sender,
                active_inputs,
                mutated_objects,
                move_functions,
                events,
                events_digest,
                object_index_changes,
                digest,
                timestamp_ms,
            ),
        )
        &&& after.balance_caches().coin_keys().subset_of(self.balance_caches().coin_keys())
        &&& after.balance_caches().balance_keys().subset_of(self.balance_caches().balance_keys())
        &&& forall|i: int|
            0 <= i < object_index_changes.deleted_owners@.len() ==> match #[trigger] deleted_coin_key(
                self.tables().owner_index.entries(),
                object_index_changes.deleted_owners@[i],
            ) {
                Some(key) => !after.balance_caches().coin_keys().contains(key),
                None => true,
            }
        &&& forall|i: int|
            0 <= i < object_index_changes.new_owners@.len() ==> match #[trigger] added_coin_key(
                object_index_changes.new_owners@[i].0,
                object_index_changes.new_owners@[i].1,
            ) {
                Some(key) => !after.balance_caches().coin_keys().contains(key),
                None => true,
            }
        &&& forall|i: int|
            0 <= i < object_index_changes.deleted_owners@.len()
                ==> !after.balance_caches().balance_keys().contains(
                (#[trigger] object_index_changes.deleted_owners@[i]).0.0@,
            )
        &&& forall|i: int|
            0 <= i < object_index_changes.new_owners@.len()
                ==> !after.balance_caches().balance_keys().contains(
                (#[trigger] object_index_changes.new_owners@[i]).0.0.0@,
            )
    }

    /// A store over `tables`, with empty caches. The allocator starts after
    /// the greatest sequence number of the transaction order, and at zero
    /// where the order is empty.
    pub fn new(tables: IndexStoreTables) -> (store: Self)
        requires
            tables.wf(),
            sequence_after(tables.transaction_order.entries()) <= u64::MAX,
        ensures
            store.wf(),
            store.tables() == tables,
            store.sequence() == sequence_after(tables.transaction_order.entries()),
            store.balance_caches().coin_keys() == Set::<(Seq<u8>, Seq<char>)>::empty(),
            store.balance_caches().balance_keys() == Set::<Seq<u8>>::empty(),
            tables.is_blank() ==> store.coherent(),
    {
        proof {
            if tables.is_blank() {
                crate::laws::law_blank_tables_are_consistent(tables);
            }
        }
        let count = tables.transaction_order.len();
        let next_sequence_number = if count == 0 {
            0
        } else {
            *tables.transaction_order.key_at(count - 1) + 1
        };
        let caches = IndexStoreCaches::new();
        IndexStore { next_sequence_number, tables, caches }
    }

    /// Whether the allocator can give out one more sequence number.
    pub fn can_allocate(&self) -> (b: bool)
        ensures
            b == self.has_capacity(),
    {
        self.next_sequence_number < u64::MAX
    }

    /// The allocator's value: the sequence number that the next indexed
    /// transaction gets.
    pub fn next_sequence_number(&self) -> (n: TxSequenceNumber)
        ensures
            n == self.sequence(),
    {
        self.next_sequence_number
    }

    /// Whether no object is live.
    pub fn is_empty(&self) -> (b: bool)
        ensures
            b == (self.tables().owner_index.entries().len() == 0),
    {
        self.tables.owner_index.is_empty()
    }

    /// The time, in milliseconds, at which the transaction was indexed.
    pub fn get_timestamp_ms(&self, transaction_digest: &TransactionDigest) -> (r: Option<u64>)
        requires
            self.wf(),
        ensures
            r == lookup::<TransactionDigest, u64>(
                self.tables().timestamps.entries(),
                transaction_digest.rank(),
            ),
    {
        match self.tables.timestamps.get(transaction_digest) {
            Some(timestamp) => Some(*timestamp),
            None => None,
        }
    }

    /// The sequence number under which the transaction was indexed.
    pub fn get_transaction_seq(&self, digest: &TransactionDigest) -> (r: Option<TxSequenceNumber>)
        requires
            self.wf(),
        ensures
            r == lookup::<TransactionDigest, TxSequenceNumber>(
                self.tables().transactions_seq.entries(),
                digest.rank(),
            ),
    {
        match self.tables.transactions_seq.get(digest) {
            Some(sequence) => Some(*sequence),
            None => None,
        }
    }

    /// Loads the objects that are live at genesis: stores the new owners
    /// and the new dynamic fields of `object_index_changes`. No sequence
    /// number is allocated and no cache entry is touched.
    pub fn insert_genesis_objects(&mut self, object_index_changes: ObjectIndexChanges)
        requires
            old(self).wf(),
        ensures
            final(self).wf(),
            final(self).sequence() == old(self).sequence(),
            final(self).balance_caches() == old(self).balance_caches(),
            final(self).tables().owner_index.entries() == put_all::<OwnerIndexKey, ObjectInfo>(
                old(self).tables().owner_index.entries(),
                rows_of(object_index_changes.new_owners@),
            ),
            final(self).tables().dynamic_field_index.entries() == put_all::<
                DynamicFieldKey,
                DynamicFieldInfo,
            >(
                old(self).tables().dynamic_field_index.entries(),
                rows_of(object_index_changes.new_dynamic_fields@),
            ),
            final(self).tables().transactions_from_addr == old(self).tables().transactions_from_addr,
            final(self).tables().transactions_to_addr == old(self).tables().transactions_to_addr,
            final(self).tables().transactions_by_input_object_id == old(self).tables().transactions_by_input_object_id,
            final(self).tables().transactions_by_mutated_object_id == old(self).tables().transactions_by_mutated_object_id,
            final(self).tables().transactions_by_move_function == old(self).tables().transactions_by_move_function,
            final(self).tables().timestamps == old(self).tables().timestamps,
            final(self).tables().transaction_order == old(self).tables().transaction_order,
            final(self).tables().transactions_seq == old(self).tables().transactions_seq,
            final(self).tables().event_order == old(self).tables().event_order,
            final(self).tables().event_by_move_module == old(self).tables().event_by_move_module,
            final(self).tables().event_by_move_event == old(self).tables().event_by_move_event,
            final(self).tables().event_by_sender == old(self).tables().event_by_sender,
            final(self).tables().event_by_time == old(self).tables().event_by_time,
            old(self).coherent() ==> final(self).coherent(),
    {
        self.tables.owner_index.insert_all(object_index_changes.new_owners);
        self.tables.dynamic_field_index.insert_all(object_index_changes.new_dynamic_fields);
    }

    /// Discards the balance by coin type of every owner that loses an
    /// object which the owner index still holds.
    fn invalidate_deleted_coins(&mut self, owners: &Vec<OwnerIndexKey>)
        requires
            old(self).wf(),
        ensures
            final(self).tables() == old(self).tables(),
            final(self).sequence() == old(self).sequence(),
            final(self).balance_caches().balance_keys() == old(self).balance_caches().balance_keys(),
            final(self).balance_caches().coin_keys().subset_of(
                old(self).balance_caches().coin_keys(),
            ),
            forall|i: int|
                0 <= i < owners@.len() ==> match #[trigger] deleted_coin_key(
                    old(self).tables().owner_index.entries(),
                    owners@[i],
                ) {
                    Some(key) => !final(self).balance_caches().coin_keys().contains(key),
                    None => true,
                },
    {
        let mut i: usize = 0;
        while i < owners.len()
            invariant
                i <= owners.len(),
                self.wf(),
                self.tables() == old(self).tables(),
                self.sequence() == old(self).sequence(),
                self.balance_caches().balance_keys() == old(self).balance_caches().balance_keys(),
                self.balance_caches().coin_keys().subset_of(old(self).balance_caches().coin_keys()),
                forall|j: int|
                    0 <= j < i ==> match #[trigger] deleted_coin_key(
                        old(self).tables().owner_index.entries(),
                        owners@[j],
                    ) {
                        Some(key) => !self.balance_caches().coin_keys().contains(key),
                        None => true,
                    },
            decreases owners.len() - i,
        {
            let owner = &owners[i];
            // An object that is deleted is expected to be in the index; one
            // that is not there has no coin type to go by.
            if let Some(object_info) = self.tables.owner_index.get(owner) {
                if let Ok(type_tag) = coin_type_of(&object_info.type_) {
                    invalidate_coin_balance(
                        &mut self.caches.per_coin_type_balance,
                        &owner.0,
                        &type_tag,
                    );
                }
            }
            i += 1;
        }
    }

    /// Discards the balance by coin type of every owner that gains an
    /// object.
    fn invalidate_added_coins(&mut self, owners: &Vec<(OwnerIndexKey, ObjectInfo)>)
        ensures
            final(self).tables() == old(self).tables(),
            final(self).sequence() == old(self).sequence(),
            final(self).balance_caches().balance_keys() == old(self).balance_caches().balance_keys(),
            final(self).balance_caches().coin_keys().subset_of(
                old(self).balance_caches().coin_keys(),
            ),
            forall|i: int|
                0 <= i < owners@.len() ==> match #[trigger] added_coin_key(
                    owners@[i].0,
                    owners@[i].1,
                ) {
                    Some(key) => !final(self).balance_caches().coin_keys().contains(key),
                    None => true,
                },
    {
        let mut i: usize = 0;
        while i < owners.len()
            invariant
                i <= owners.len(),
                self.tables() == old(self).tables(),
                self.sequence() == old(self).sequence(),
                self.balance_caches().balance_keys() == old(self).balance_caches().balance_keys(),
                self.balance_caches().coin_keys().subset_of(old(self).balance_caches().coin_keys()),
                forall|j: int|
                    0 <= j < i ==> match #[trigger] added_coin_key(owners@[j].0, owners@[j].1) {
                        Some(key) => !self.balance_caches().coin_keys().contains(key),
                        None => true,
                    },
            decreases owners.len() - i,
        {
            let owner = &owners[i].0;
            let object_info = &owners[i].1;
            if let Ok(type_tag) = coin_type_of(&object_info.type_) {
                invalidate_coin_balance(&mut self.caches.per_coin_type_balance, &owner.0, &type_tag);
            }
            i += 1;
        }
    }

    /// Discards the cached balances of each of `addresses`.
    fn invalidate_all_balance(&mut self, addresses: &Table<SuiAddress, ()>)
        ensures
            final(self).tables() == old(self).tables(),
            final(self).sequence() == old(self).sequence(),
            final(self).balance_caches().coin_keys() == old(self).balance_caches().coin_keys(),
            final(self).balance_caches().balance_keys().subset_of(
                old(self).balance_caches().balance_keys(),
            ),
            forall|i: int|
                0 <= i < addresses.entries().len() ==> !final(self).balance_caches().balance_keys().contains(#[trigger] addresses.entries()[i].0),
    {
        let mut i: usize = 0;
        while i < addresses.len()
            invariant
                i <= addresses.entries().len(),
                self.tables() == old(self).tables(),
                self.sequence() == old(self).sequence(),
                self.balance_caches().coin_keys() == old(self).balance_caches().coin_keys(),
                self.balance_caches().balance_keys().subset_of(
                    old(self).balance_caches().balance_keys(),
                ),
                forall|j: int|
                    0 <= j < i ==> !self.balance_caches().balance_keys().contains(
                        #[trigger] addresses.entries()[j].0,
                    ),
            decreases addresses.entries().len() - i,
        {
            invalidate_all_balances(&mut self.caches.all_balances, addresses.key_at(i));
            i += 1;
        }
    }

    /// Indexes one committed transaction, and returns the sequence number
    /// that it got.
    pub fn index_tx(
        &mut self,
        sender: SuiAddress,
        active_inputs: Vec<ObjectID>,
        mutated_objects: Vec<(ObjectRef, Owner)>,
        move_functions: Vec<(ObjectID, String, String)>,
        events: &TransactionEvents,
        events_digest: TransactionEventsDigest,
        object_index_changes: ObjectIndexChanges,
        digest: &TransactionDigest,
        timestamp_ms: u64,
    ) -> (sequence: TxSequenceNumber)
        requires
            old(self).wf(),
            old(self).has_capacity(),
        ensures
            final(self).wf(),
            old(self).indexed(
                final(self),
                sequence,
                sender,
                active_inputs@,
                mutated_objects@,
                move_functions@,
                events.data@,
                events_digest,
                object_index_changes,
                *digest,
                timestamp_ms,
            ),
            old(self).coherent() && lookup::<TransactionDigest, TxSequenceNumber>(
                old(self).tables().transactions_seq.entries(),
                digest.rank(),
            ) is None ==> final(self).coherent(),
    {
        let ghost inputs = active_inputs@;
        let ghost mutated = mutated_objects@;
        let ghost calls = move_functions@;
        let ghost changes = object_index_changes;
        let sequence = self.next_sequence_number;
        self.next_sequence_number = sequence + 1;
        let mut addresses_to_invalidate: Table<SuiAddress, ()> = Table::new();

        self.invalidate_deleted_coins(&object_index_changes.deleted_owners);
        let mut i: usize = 0;
        while i < object_index_changes.deleted_owners.len()
            invariant
                i <= object_index_changes.deleted_owners.len(),
                addresses_to_invalidate.wf(),
                forall|j: int|
                    0 <= j < i ==> lookup::<SuiAddress, ()>(
                        addresses_to_invalidate.entries(),
                        (#[trigger] object_index_changes.deleted_owners@[j]).0.0@,
                    ).is_some(),
            decreases object_index_changes.deleted_owners.len() - i,
        {
            let address = object_index_changes.deleted_owners[i].0;
            proof {
                assert forall|j: int| 0 <= j < i + 1 implies lookup::<SuiAddress, ()>(
                    crate::ordered::put::<SuiAddress, ()>(
                        addresses_to_invalidate.entries(),
                        address.rank(),
                        (),
                    ),
                    (#[trigger] object_index_changes.deleted_owners@[j]).0.0@,
                ).is_some() by {
                    lemma_lookup_put::<SuiAddress, ()>(
                        addresses_to_invalidate.entries(),
                        address.rank(),
                        (),
                        object_index_changes.deleted_owners@[j].0.0@,
                    );
                }
            }
            addresses_to_invalidate.insert(address, ());
            i += 1;
        }

        self.invalidate_added_coins(&object_index_changes.new_owners);
        let mut i: usize = 0;
        while i < object_index_changes.new_owners.len()
            invariant
                i <= object_index_changes.new_owners.len(),
                addresses_to_invalidate.wf(),
                forall|j: int|
                    0 <= j < object_index_changes.deleted_owners@.len() ==> lookup::<
                        SuiAddress,
                        (),
                    >(
                        addresses_to_invalidate.entries(),
                        (#[trigger] object_index_changes.deleted_owners@[j]).0.0@,
                    ).is_some(),
                forall|j: int|
                    0 <= j < i ==> lookup::<SuiAddress, ()>(
                        addresses_to_invalidate.entries(),
                        (#[trigger] object_index_changes.new_owners@[j]).0.0.0@,
                    ).is_some(),
            decreases object_index_changes.new_owners.len() - i,
        {
            let address = object_index_changes.new_owners[i].0.0;
            proof {
                let after = crate::ordered::put::<SuiAddress, ()>(
                    addresses_to_invalidate.entries(),
                    address.rank(),
                    (),
                );
                assert forall|j: int|
                    0 <= j < object_index_changes.deleted_owners@.len() implies lookup::<
                    SuiAddress,
                    (),
                >(after, (#[trigger] object_index_changes.deleted_owners@[j]).0.0@).is_some() by {
                    lemma_lookup_put::<SuiAddress, ()>(
                        addresses_to_invalidate.entries(),
                        address.rank(),
                        (),
                        object_index_changes.deleted_owners@[j].0.0@,
                    );
                }
                assert forall|j: int| 0 <= j < i + 1 implies lookup::<SuiAddress, ()>(
                    after,
                    (#[trigger] object_index_changes.new_owners@[j]).0.0.0@,
                ).is_some() by {
                    lemma_lookup_put::<SuiAddress, ()>(
                        addresses_to_invalidate.entries(),
                        address.rank(),
                        (),
                        object_index_changes.new_owners@[j].0.0.0@,
                    );
                }
            }
            addresses_to_invalidate.insert(address, ());
            i += 1;
        }

        self.invalidate_all_balance(&addresses_to_invalidate);
        proof {
            let held = addresses_to_invalidate.entries();
            assert forall|j: int|
                0 <= j < object_index_changes.deleted_owners@.len() implies !self.balance_caches().balance_keys().contains(
                (#[trigger] object_index_changes.deleted_owners@[j]).0.0@,
            ) by {
                lemma_lookup_some::<SuiAddress, ()>(
                    held,
                    object_index_changes.deleted_owners@[j].0.0@,
                );
            }
            assert forall|j: int|
                0 <= j < object_index_changes.new_owners@.len() implies !self.balance_caches().balance_keys().contains(
                (#[trigger] object_index_changes.new_owners@[j]).0.0.0@,
            ) by {
                lemma_lookup_some::<SuiAddress, ()>(
                    held,
                    object_index_changes.new_owners@[j].0.0.0@,
                );
            }
        }

        let batch = stage_tx(
            sequence,
            sender,
            active_inputs,
            mutated_objects,
            move_functions,
            &events.data,
            events_digest,
            object_index_changes,
            digest,
            timestamp_ms,
        );
        proof {
            let order = self.tables.transaction_order.entries();
            assert(batch@.transaction_order =~= seq![(sequence, *digest)]);
            crate::ordered::lemma_put_all_one::<TxSequenceNumber, TransactionDigest>(
                order,
                sequence,
                *digest,
            );
            crate::ordered::lemma_put_rows::<TxSequenceNumber, TransactionDigest>(
                order,
                sequence,
                *digest,
            );
        }
        self.tables.commit(batch);
        proof {
            let before = *old(self);
            assert(before.indexed(
                self,
                sequence,
                sender,
                inputs,
                mutated,
                calls,
                events.data@,
                events_digest,
                changes,
                *digest,
                timestamp_ms,
            ));
            if before.coherent() && lookup::<TransactionDigest, TxSequenceNumber>(
                before.tables().transactions_seq.entries(),
                digest.rank(),
            ) is None {
                crate::laws::law_index_tx_keeps_tables_consistent(
                    before,
                    *self,
                    sequence,
                    sender,
                    inputs,
                    mutated,
                    calls,
                    events.data@,
                    events_digest,
                    changes,
                    *digest,
                    timestamp_ms,
                );
                crate::laws::law_index_tx_keeps_events_before(
                    before,
                    *self,
                    sequence,
                    sender,
                    inputs,
                    mutated,
                    calls,
                    events.data@,
                    events_digest,
                    changes,
                    *digest,
                    timestamp_ms,
                );
            }
        }
        sequence
    }

    /// One page of the transactions that `index` holds under `key`.
    fn get_transactions_from_index<K: TableKey>(
        index: &Table<(K, TxSequenceNumber), TransactionDigest>,
        key: K,
        cursor: Option<TxSequenceNumber>,
        limit: Option<usize>,
        reverse: bool,
    ) -> (digests: Vec<TransactionDigest>)
        requires
            index.wf(),
        ensures
            digests@ == transactions_page::<K>(index.entries(), key, cursor, limit, reverse),
    {
        let start = (key, start_of(cursor, reverse));
        let filter = HeadIs(&start.0);
        let span = locate(index, &start, cursor.is_some(), &filter, limit, reverse);
        collect_values(index, &span)
    }

    /// One page of the transactions that match `filter`, in the order of
    /// their sequence numbers or, in reverse, against it. The page starts
    /// after the transaction `cursor`, which must have been indexed.
    pub fn get_transactions(
        &self,
        filter: Option<TransactionFilter>,
        cursor: Option<TransactionDigest>,
        limit: Option<usize>,
        reverse: bool,
    ) -> (r: Result<Vec<TransactionDigest>, IndexError>)
        requires
            self.wf(),
        ensures
            match cursor {
                Some(digest) => match lookup::<TransactionDigest, TxSequenceNumber>(
                    self.tables().transactions_seq.entries(),
                    digest.rank(),
                ) {
                    Some(sequence) => answers(
                        r,
                        transactions_matching(self.tables(), filter, Some(sequence), limit, reverse),
                    ),
                    None => r == Err::<Vec<TransactionDigest>, IndexError>(
                        IndexError::TransactionNotFound { digest },
                    ),
                },
                None => answers(
                    r,
                    transactions_matching(self.tables(), filter, None, limit, reverse),
                ),
            },
    {
        let cursor = match cursor {
            Some(digest) => match self.get_transaction_seq(&digest) {
                Some(sequence) => Some(sequence),
                None => {
                    return Err(IndexError::TransactionNotFound { digest });
                },
            },
            None => None,
        };
        match filter {
            Some(TransactionFilter::MoveFunction { package, module, function }) => Ok(
                self.get_transactions_by_move_function(
                    package,
                    module,
                    function,
                    cursor,
                    limit,
                    reverse,
                ),
            ),
            Some(TransactionFilter::InputObject(object_id)) => Ok(
                self.get_transactions_by_input_object(object_id, cursor, limit, reverse),
            ),
            Some(TransactionFilter::ChangedObject(object_id)) => Ok(
                self.get_transactions_by_mutated_object(object_id, cursor, limit, reverse),
            ),
            Some(TransactionFilter::FromAddress(address)) => Ok(
                self.get_transactions_from_addr(address, cursor, limit, reverse),
            ),
            Some(TransactionFilter::ToAddress(address)) => Ok(
                self.get_transactions_to_addr(address, cursor, limit, reverse),
            ),
            Some(TransactionFilter::Checkpoint(_)) => Err(IndexError::UnsupportedFilter),
            None => {
                let start = start_of(cursor, reverse);
                let span = locate(
                    &self.tables.transaction_order,
                    &start,
                    cursor.is_some(),
                    &Everything,
                    limit,
                    reverse,
                );
                Ok(collect_values(&self.tables.transaction_order, &span))
            },
        }
    }

    /// One page of the transactions that took `input_object` as input.
    pub fn get_transactions_by_input_object(
        &self,
        input_object: ObjectID,
        cursor: Option<TxSequenceNumber>,
        limit: Option<usize>,
        reverse: bool,
    ) -> (digests: Vec<TransactionDigest>)
        requires
            self.wf(),
        ensures
            digests@ == transactions_page::<ObjectID>(
                self.tables().transactions_by_input_object_id.entries(),
                input_object,
                cursor,
                limit,
                reverse,
            ),
    {
        Self::get_transactions_from_index(
            &self.tables.transactions_by_input_object_id,
            input_object,
            cursor,
            limit,
            reverse,
        )
    }

    /// One page of the transactions that created or mutated
    /// `mutated_object`.
    pub fn get_transactions_by_mutated_object(
        &self,
        mutated_object: ObjectID,
        cursor: Option<TxSequenceNumber>,
        limit: Option<usize>,
        reverse: bool,
    ) -> (digests: Vec<TransactionDigest>)
        requires
            self.wf(),
        ensures
            digests@ == transactions_page::<ObjectID>(
                self.tables().transactions_by_mutated_object_id.entries(),
                mutated_object,
                cursor,
                limit,
                reverse,
            ),
    {
        Self::get_transactions_from_index(
            &self.tables.transactions_by_mutated_object_id,
            mutated_object,
            cursor,
            limit,
            reverse,
        )
    }

    /// One page of the transactions that `addr` sent.
    pub fn get_transactions_from_addr(
        &self,
        addr: SuiAddress,
        cursor: Option<TxSequenceNumber>,
        limit: Option<usize>,
        reverse: bool,
    ) -> (digests: Vec<TransactionDigest>)
        requires
            self.wf(),
        ensures
            digests@ == transactions_page::<SuiAddress>(
                self.tables().transactions_from_addr.entries(),
                addr,
                cursor,
                limit,
                reverse,
            ),
    {
        Self::get_transactions_from_index(
            &self.tables.transactions_from_addr,
            addr,
            cursor,
            limit,
            reverse,
        )
    }

    /// One page of the transactions that sent an object to `addr`.
    pub fn get_transactions_to_addr(
        &self,
        addr: SuiAddress,
        cursor: Option<TxSequenceNumber>,
        limit: Option<usize>,
        reverse: bool,
    ) -> (digests: Vec<TransactionDigest>)
        requires
            self.wf(),
        ensures
            digests@ == transactions_page::<SuiAddress>(
                self.tables().transactions_to_addr.entries(),
                addr,
                cursor,
                limit,
                reverse,
            ),
    {
        Self::get_transactions_from_index(
            &self.tables.transactions_to_addr,
            addr,
            cursor,
            limit,
            reverse,
        )
    }

    /// One page of the transactions that called into `package`, into one of
    /// its modules, or one function of a module. The page holds the calls
    /// whose sequence numbers lie past the cursor, in the order of the index
    /// or in reverse against it, so that the cursor's own transaction is
    /// never returned and the reverse page without a cursor is the forward
    /// page read backwards. The scan walks all calls that the names admit.
    pub fn get_transactions_by_move_function(
        &self,
        package: ObjectID,
        module: Option<String>,
        function: Option<String>,
        cursor: Option<TxSequenceNumber>,
        limit: Option<usize>,
        reverse: bool,
    ) -> (digests: Vec<TransactionDigest>)
        requires
            self.wf(),
        ensures
            digests@ == calls_page(
                self.tables().transactions_by_move_function.entries(),
                package,
                module,
                function,
                cursor,
                limit,
                reverse,
            ),
    {
        let module_name = match &module {
            Some(name) => name.clone(),
            None => String::new(),
        };
        let function_name = match &function {
            Some(name) => name.clone(),
            None => String::new(),
        };
        let key = (package, (module_name, (function_name, 0u64)));
        let filter = CallFilter { package: &package, module: &module, function: &function };
        let table = &self.tables.transactions_by_move_function;
        let span = locate(table, &key, false, &filter, None, false);
        let len = table.len();
        let ghost run = span.rows_of(table.entries());
        let ghost directed = if reverse {
            run.reverse()
        } else {
            run
        };
        let mut digests: Vec<TransactionDigest> = Vec::new();
        let mut i: usize = 0;
        assert(directed.take(0) =~= Seq::<
            ((Seq<u8>, (Seq<u8>, (Seq<u8>, u64))), TransactionDigest),
        >::empty());
        while i < span.count && (limit.is_none() || digests.len() < limit.unwrap())
            invariant
                i <= span.count,
                !span.reverse,
                len == table.entries().len(),
                span.within(len as int),
                run == span.rows_of(table.entries()),
                directed == if reverse {
                    run.reverse()
                } else {
                    run
                },
                digests@ == calls_past(directed.take(i as int), cursor, reverse),
                limit is Some ==> digests@.len() <= limit->0,
            decreases span.count - i,
        {
            let p = if reverse {
                span.first + (span.count - 1 - i)
            } else {
                span.first + i
            };
            let sequence = table.key_at(p).1.1.1;
            let past = match cursor {
                Some(cursor) => if reverse {
                    sequence < cursor
                } else {
                    sequence > cursor
                },
                None => true,
            };
            proof {
                assert(directed[i as int] == table.entries()[p as int]);
                assert(directed.take(i + 1).drop_last() =~= directed.take(i as int));
            }
            if past {
                digests.push(*table.value_at(p));
            }
            i += 1;
        }
        proof {
            lemma_calls_past_prefix(directed, cursor, reverse, i as int);
            if i == span.count {
                assert(directed.take(i as int) =~= directed);
            }
            assert(digests@ =~= at_most(calls_past(directed, cursor, reverse), limit));
        }
        digests
    }

    /// One page of all events, after the event `(tx_seq, event_seq)` or, in
    /// descending order, before it.
    pub fn all_events(
        &self,
        tx_seq: TxSequenceNumber,
        event_seq: usize,
        limit: usize,
        descending: bool,
    ) -> (records: Vec<EventRecord>)
        requires
            self.wf(),
        ensures
            records@ == all_events_page(
                self.tables().event_order.entries(),
                tx_seq,
                event_seq,
                limit,
                descending,
            ),
    {
        let start = (tx_seq, event_seq);
        let span = locate(
            &self.tables.event_order,
            &start,
            true,
            &Everything,
            Some(limit),
            descending,
        );
        collect_event_records(&self.tables.event_order, &span)
    }

    /// One page of the events of the transaction `digest`, which must have
    /// been indexed, after the event `(tx_seq, event_seq)` or, in descending
    /// order, before it.
    pub fn events_by_transaction(
        &self,
        digest: &TransactionDigest,
        tx_seq: TxSequenceNumber,
        event_seq: usize,
        limit: usize,
        descending: bool,
    ) -> (r: Result<Vec<EventRecord>, IndexError>)
        requires
            self.wf(),
        ensures
            match lookup::<TransactionDigest, TxSequenceNumber>(
                self.tables().transactions_seq.entries(),
                digest.rank(),
            ) {
                Some(sequence) => r is Ok && r->Ok_0@ == transaction_events_page(
                    self.tables().event_order.entries(),
                    sequence,
                    tx_seq,
                    event_seq,
                    limit,
                    descending,
                ),
                None => r == Err::<Vec<EventRecord>, IndexError>(
                    IndexError::TransactionNotFound { digest: *digest },
                ),
            },
    {
        let sequence = match self.get_transaction_seq(digest) {
            Some(sequence) => sequence,
            None => {
                return Err(IndexError::TransactionNotFound { digest: *digest });
            },
        };
        let from = if descending {
            if tx_seq < sequence {
                tx_seq
            } else {
                sequence
            }
        } else {
            if tx_seq > sequence {
                tx_seq
            } else {
                sequence
            }
        };
        let start = (from, event_seq);
        let filter = HeadIs(&sequence);
        let span = locate(
            &self.tables.event_order,
            &start,
            true,
            &filter,
            Some(limit),
            descending,
        );
        Ok(collect_event_records(&self.tables.event_order, &span))
    }

    /// One page of the events that `index` holds under `key`, after the
    /// event `(tx_seq, event_seq)` or, in descending order, before it.
    fn get_event_from_index<K: TableKey>(
        index: &Table<(K, EventId), EventIndex>,
        key: &K,
        tx_seq: TxSequenceNumber,
        event_seq: usize,
        limit: usize,
        descending: bool,
    ) -> (records: Vec<EventRecord>)
        requires
            index.wf(),
        ensures
            records@ == keyed_events_page::<K>(
                index.entries(),
                *key,
                tx_seq,
                event_seq,
                limit,
                descending,
            ),
    {
        let start = (key.duplicate(), (tx_seq, event_seq));
        let filter = HeadIs(key);
        let span = locate(index, &start, true, &filter, Some(limit), descending);
        collect_keyed_event_records(index, &span)
    }

    /// One page of the events that `module` emitted.
    pub fn events_by_module_id(
        &self,
        module: &ModuleId,
        tx_seq: TxSequenceNumber,
        event_seq: usize,
        limit: usize,
        descending: bool,
    ) -> (records: Vec<EventRecord>)
        requires
            self.wf(),
        ensures
            records@ == keyed_events_page::<ModuleId>(
                self.tables().event_by_move_module.entries(),
                *module,
                tx_seq,
                event_seq,
                limit,
                descending,
            ),
    {
        Self::get_event_from_index(
            &self.tables.event_by_move_module,
            module,
            tx_seq,
            event_seq,
            limit,
            descending,
        )
    }

    /// One page of the events of type `struct_name`.
    pub fn events_by_move_event_struct_name(
        &self,
        struct_name: &StructTag,
        tx_seq: TxSequenceNumber,
        event_seq: usize,
        limit: usize,
        descending: bool,
    ) -> (records: Vec<EventRecord>)
        requires
            self.wf(),
        ensures
            records@ == keyed_events_page::<StructTag>(
                self.tables().event_by_move_event.entries(),
                *struct_name,
                tx_seq,
                event_seq,
                limit,
                descending,
            ),
    {
        Self::get_event_from_index(
            &self.tables.event_by_move_event,
            struct_name,
            tx_seq,
            event_seq,
            limit,
            descending,
        )
    }

    /// One page of the events that `sender` caused.
    pub fn events_by_sender(
        &self,
        sender: &SuiAddress,
        tx_seq: TxSequenceNumber,
        event_seq: usize,
        limit: usize,
        descending: bool,
    ) -> (records: Vec<EventRecord>)
        requires
            self.wf(),
        ensures
            records@ == keyed_events_page::<SuiAddress>(
                self.tables().event_by_sender.entries(),
                *sender,
                tx_seq,
                event_seq,
                limit,
                descending,
            ),
    {
        Self::get_event_from_index(
            &self.tables.event_by_sender,
            sender,
            tx_seq,
            event_seq,
            limit,
            descending,
        )
    }

    /// One page of the events between `start_time` and `end_time`, both
    /// included; the event `(tx_seq, event_seq)` at the time where the scan
    /// starts is left out.
    pub fn event_iterator(
        &self,
        start_time: u64,
        end_time: u64,
        tx_seq: TxSequenceNumber,
        event_seq: usize,
        limit: usize,
        descending: bool,
    ) -> (records: Vec<EventRecord>)
        requires
            self.wf(),
        ensures
            records@ == timed_events_page(
                self.tables().event_by_time.entries(),
                start_time,
                end_time,
                tx_seq,
                event_seq,
                limit,
                descending,
            ),
    {
        if descending {
            let start = (end_time, (tx_seq, event_seq));
            let span = locate(
                &self.tables.event_by_time,
                &start,
                true,
                &HeadAtLeast(start_time),
                Some(limit),
                true,
            );
            collect_keyed_event_records(&self.tables.event_by_time, &span)
        } else {
            let start = (start_time, (tx_seq, event_seq));
            let span = locate(
                &self.tables.event_by_time,
                &start,
                true,
                &HeadAtMost(end_time),
                Some(limit),
                false,
            );
            collect_keyed_event_records(&self.tables.event_by_time, &span)
        }
    }

    /// The dynamic fields of `object`, in the order of their identifiers,
    /// after the field `cursor` if there is one.
    pub fn get_dynamic_fields_iterator(&self, object: ObjectID, cursor: Option<ObjectID>) -> (fields:
        Vec<&DynamicFieldInfo>)
        requires
            self.wf(),
        ensures
            deref_all(fields@) == values_of(
                field_rows(self.tables().dynamic_field_index.entries(), object, cursor),
            ),
    {
        let first = match cursor {
            Some(object_id) => object_id,
            None => ObjectID::zero(),
        };
        let start = (object, first);
        let filter = HeadIs(&object);
        let span = locate(
            &self.tables.dynamic_field_index,
            &start,
            cursor.is_some(),
            &filter,
            None,
            false,
        );
        collect_refs(&self.tables.dynamic_field_index, &span)
    }

    /// The object of the first dynamic field of `object` that is named
    /// `name`.
    pub fn get_dynamic_field_object_id(&self, object: ObjectID, name: &DynamicFieldName) -> (r:
        Option<ObjectID>)
        requires
            self.wf(),
        ensures
            r == first_field_named(
                field_rows(self.tables().dynamic_field_index.entries(), object, None),
                *name,
            ),
    {
        let start = (object, ObjectID::zero());
        let filter = HeadIs(&object);
        let span = locate(&self.tables.dynamic_field_index, &start, false, &filter, None, false);
        let len = self.tables.dynamic_field_index.len();
        let ghost rows = span.rows_of(self.tables.dynamic_field_index.entries());
        let mut i: usize = 0;
        assert(rows.skip(0) =~= rows);
        while i < span.count
            invariant
                i <= span.count,
                !span.reverse,
                len == self.tables.dynamic_field_index.entries().len(),
                span.within(len as int),
                rows == span.rows_of(self.tables.dynamic_field_index.entries()),
                rows == field_rows(self.tables().dynamic_field_index.entries(), object, None),
                first_field_named(rows, *name) == first_field_named(rows.skip(i as int), *name),
            decreases span.count - i,
        {
            let info = self.tables.dynamic_field_index.value_at(span.at(i));
            proof {
                assert(rows.skip(i as int)[0] == rows[i as int]);
                assert(rows[i as int].1 == *info);
                assert(rows.skip(i as int).skip(1) =~= rows.skip(i + 1));
            }
            if info.name.type_.same(&name.type_) && info.name.value == name.value {
                return Some(info.object_id);
            }
            i += 1;
        }
        assert(rows.skip(rows.len() as int).len() == 0);
        None
    }

    /// The objects that `owner` owns and that pass `filter`, in the order
    /// of their identifiers and at most `limit` of them.
    fn owned_objects(
        &self,
        owner: SuiAddress,
        starting_object_id: ObjectID,
        filter: Option<SuiObjectDataFilter>,
        limit: Option<usize>,
    ) -> (objects: Vec<&ObjectInfo>)
        requires
            self.wf(),
        ensures
            deref_all(objects@) == at_most(
                matching_objects(
                    owned_rows(
                        self.tables().owner_index.entries(),
                        owner,
                        starting_object_id.rank(),
                    ),
                    filter,
                ),
                limit,
            ),
    {
        let start = (owner, starting_object_id);
        let head = HeadIs(&owner);
        let span = locate(
            &self.tables.owner_index,
            &start,
            !starting_object_id.is_zero(),
            &head,
            None,
            false,
        );
        let len = self.tables.owner_index.len();
        let ghost rows = span.rows_of(self.tables.owner_index.entries());
        let mut objects: Vec<&ObjectInfo> = Vec::new();
        let mut i: usize = 0;
        assert(rows.take(0) =~= Seq::<((Seq<u8>, Seq<u8>), ObjectInfo)>::empty());
        assert(deref_all(objects@) =~= matching_objects(rows.take(0), filter));
        while i < span.count && (limit.is_none() || objects.len() < limit.unwrap())
            invariant
                i <= span.count,
                !span.reverse,
                len == self.tables.owner_index.entries().len(),
                span.within(len as int),
                rows == span.rows_of(self.tables.owner_index.entries()),
                deref_all(objects@) == matching_objects(rows.take(i as int), filter),
                limit is Some ==> objects@.len() <= limit->0,
            decreases span.count - i,
        {
            let info = self.tables.owner_index.value_at(span.at(i));
            let keep = match &filter {
                Some(filter) => filter.matches(info),
                None => true,
            };
            proof {
                assert(rows.take(i + 1).drop_last() =~= rows.take(i as int));
            }
            if keep {
                let ghost before = objects@;
                objects.push(info);
                assert(deref_all(objects@) =~= deref_all(before).push(*info));
            }
            i += 1;
        }
        proof {
            lemma_matching_prefix(rows, filter, i as int);
            let all = matching_objects(rows, filter);
            if i == span.count {
                assert(rows.take(i as int) =~= rows);
            }
            assert(deref_all(objects@) =~= at_most(all, limit));
        }
        objects
    }

    /// The first objects that `owner` owns and that pass `filter`, at most
    /// `limit` of them, after the object `cursor` if there is one.
    pub fn get_owner_objects(
        &self,
        owner: SuiAddress,
        cursor: Option<ObjectID>,
        limit: usize,
        filter: Option<SuiObjectDataFilter>,
    ) -> (objects: Vec<&ObjectInfo>)
        requires
            self.wf(),
        ensures
            deref_all(objects@) == at_most(
                matching_objects(
                    owned_rows(self.tables().owner_index.entries(), owner, cursor_or_zero(cursor)),
                    filter,
                ),
                Some(limit),
            ),
    {
        let cursor = match cursor {
            Some(cursor) => cursor,
            None => ObjectID::zero(),
        };
        self.owned_objects(owner, cursor, filter, Some(limit))
    }

    /// The objects that `owner` owns and that pass `filter`, after the
    /// object `starting_object_id`; the identifier of all zero bytes stands
    /// for the beginning.
    pub fn get_owner_objects_iterator(
        &self,
        owner: SuiAddress,
        starting_object_id: ObjectID,
        filter: Option<SuiObjectDataFilter>,
    ) -> (objects: Vec<&ObjectInfo>)
        requires
            self.wf(),
        ensures
            deref_all(objects@) == matching_objects(
                owned_rows(self.tables().owner_index.entries(), owner, starting_object_id.rank()),
                filter,
            ),
    {
        self.owned_objects(owner, starting_object_id, filter, None)
    }

    /// References to the coins that `owner` owns: to all of them, or to
    /// those of type `coin_type`.
    pub fn get_owner_coin_iterator(&self, owner: SuiAddress, coin_type: Option<&TypeTag>) -> (coins:
        Vec<ObjectRef>)
        requires
            self.wf(),
        ensures
            coins@ == coin_refs(
                owned_rows(self.tables().owner_index.entries(), owner, crate::ids::zero_rank()),
                match coin_type {
                    Some(coin_type) => Some(*coin_type),
                    None => None,
                },
            ),
    {
        let ghost wanted = match coin_type {
            Some(coin_type) => Some(*coin_type),
            None => None,
        };
        let start = (owner, ObjectID::zero());
        let head = HeadIs(&owner);
        let span = locate(&self.tables.owner_index, &start, false, &head, None, false);
        let len = self.tables.owner_index.len();
        let ghost rows = span.rows_of(self.tables.owner_index.entries());
        let mut coins: Vec<ObjectRef> = Vec::new();
        let mut i: usize = 0;
        assert(rows.take(0) =~= Seq::<((Seq<u8>, Seq<u8>), ObjectInfo)>::empty());
        while i < span.count
            invariant
                i <= span.count,
                !span.reverse,
                len == self.tables.owner_index.entries().len(),
                span.within(len as int),
                rows == span.rows_of(self.tables.owner_index.entries()),
                wanted == match coin_type {
                    Some(coin_type) => Some(*coin_type),
                    None => None,
                },
                coins@ == coin_refs(rows.take(i as int), wanted),
            decreases span.count - i,
        {
            let info = self.tables.owner_index.value_at(span.at(i));
            let keep = match coin_type {
                Some(coin_type) => info.type_.is_coin_t(coin_type),
                None => info.type_.is_coin(),
            };
            proof {
                assert(rows.take(i + 1).drop_last() =~= rows.take(i as int));
            }
            if keep {
                coins.push((info.object_id, info.version, info.digest));
            }
            i += 1;
        }
        assert(rows.take(i as int) =~= rows);
        coins
    }
}

} // verus!
