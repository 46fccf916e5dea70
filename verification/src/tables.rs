use crate::batch::{BatchRows, IndexBatch};
use crate::ids::{ObjectID, SuiAddress, TransactionDigest, TxSequenceNumber};
use crate::ordered::{del_all, put_all};
use crate::table::Table;
use crate::types::{
    DynamicFieldInfo, DynamicFieldKey, EventId, EventIndex, ModuleId, MoveFunctionKey, ObjectInfo,
    OwnerIndexKey, StructTag,
};
use vstd::prelude::*;

verus! {

/// The tables of the index. Each is a view of the indexed transactions or
/// of the live objects, ordered for one kind of query.
pub struct IndexStoreTables {
    /// From a sender and a sequence number to the transaction.
    pub transactions_from_addr: Table<(SuiAddress, TxSequenceNumber), TransactionDigest>,
    /// From a recipient and a sequence number to the transaction.
    pub transactions_to_addr: Table<(SuiAddress, TxSequenceNumber), TransactionDigest>,
    /// From an input object and a sequence number to the transaction.
    pub transactions_by_input_object_id: Table<(ObjectID, TxSequenceNumber), TransactionDigest>,
    /// From a created or mutated object and a sequence number to the
    /// transaction.
    pub transactions_by_mutated_object_id: Table<(ObjectID, TxSequenceNumber), TransactionDigest>,
    /// From a called function and a sequence number to the transaction.
    pub transactions_by_move_function: Table<MoveFunctionKey, TransactionDigest>,
    /// From a transaction to the time, in milliseconds, at which it was
    /// indexed.
    pub timestamps: Table<TransactionDigest, u64>,
    /// From a sequence number to the transaction indexed under it.
    pub transaction_order: Table<TxSequenceNumber, TransactionDigest>,
    /// From a transaction to its sequence number.
    pub transactions_seq: Table<TransactionDigest, TxSequenceNumber>,
    /// From an owner and an object to the summary of the object; it holds
    /// the objects that are live now.
    pub owner_index: Table<OwnerIndexKey, ObjectInfo>,
    /// From a parent object and a field object to the descriptor of the
    /// field; it holds the fields that are live now.
    pub dynamic_field_index: Table<DynamicFieldKey, DynamicFieldInfo>,
    /// Every event, in the order of transactions and of emission.
    pub event_order: Table<EventId, EventIndex>,
    /// Every event, under the module that emitted it.
    pub event_by_move_module: Table<(ModuleId, EventId), EventIndex>,
    /// Every event, under its type.
    pub event_by_move_event: Table<(StructTag, EventId), EventIndex>,
    /// Every event, under its sender.
    pub event_by_sender: Table<(SuiAddress, EventId), EventIndex>,
    /// Every event, under the timestamp of its transaction.
    pub event_by_time: Table<(u64, EventId), EventIndex>,
}

impl IndexStoreTables {
    /// Every table is sorted by key.
    pub open spec fn wf(&self) -> bool {
        &&& self.transactions_from_addr.wf()
        &&& self.transactions_to_addr.wf()
        &&& self.transactions_by_input_object_id.wf()
        &&& self.transactions_by_mutated_object_id.wf()
        &&& self.transactions_by_move_function.wf()
        &&& self.timestamps.wf()
        &&& self.transaction_order.wf()
        &&& self.transactions_seq.wf()
        &&& self.owner_index.wf()
        &&& self.dynamic_field_index.wf()
        &&& self.event_order.wf()
        &&& self.event_by_move_module.wf()
        &&& self.event_by_move_event.wf()
        &&& self.event_by_sender.wf()
        &&& self.event_by_time.wf()
    }

    /// No table holds a row.
    pub open spec fn is_blank(&self) -> bool {
        &&& self.transactions_from_addr.entries().len() == 0
        &&& self.transactions_to_addr.entries().len() == 0
        &&& self.transactions_by_input_object_id.entries().len() == 0
        &&& self.transactions_by_mutated_object_id.entries().len() == 0
        &&& self.transactions_by_move_function.entries().len() == 0
        &&& self.timestamps.entries().len() == 0
        &&& self.transaction_order.entries().len() == 0
        &&& self.transactions_seq.entries().len() == 0
        &&& self.owner_index.entries().len() == 0
        &&& self.dynamic_field_index.entries().len() == 0
        &&& self.event_order.entries().len() == 0
        &&& self.event_by_move_module.entries().len() == 0
        &&& self.event_by_move_event.entries().len() == 0
        &&& self.event_by_sender.entries().len() == 0
        &&& self.event_by_time.entries().len() == 0
    }

    /// Whether these tables are what `old` becomes when `batch` is
    /// committed: in every table the rows of the batch are stored, first to
    /// last; in the two tables of live objects the keys that the batch
    /// deletes are deleted first.
    pub open spec fn reflects(&self, old: &IndexStoreTables, batch: BatchRows) -> bool {
        &&& self.transactions_from_addr.entries() == put_all::<
            (SuiAddress, TxSequenceNumber),
            TransactionDigest,
        >(old.transactions_from_addr.entries(), batch.transactions_from_addr)
        &&& self.transactions_to_addr.entries() == put_all::<
            (SuiAddress, TxSequenceNumber),
            TransactionDigest,
        >(old.transactions_to_addr.entries(), batch.transactions_to_addr)
        &&& self.transactions_by_input_object_id.entries() == put_all::<
            (ObjectID, TxSequenceNumber),
            TransactionDigest,
        >(old.transactions_by_input_object_id.entries(), batch.transactions_by_input_object_id)
        &&& self.transactions_by_mutated_object_id.entries() == put_all::<
            (ObjectID, TxSequenceNumber),
            TransactionDigest,
        >(old.transactions_by_mutated_object_id.entries(), batch.transactions_by_mutated_object_id)
        &&& self.transactions_by_move_function.entries() == put_all::<
            MoveFunctionKey,
            TransactionDigest,
        >(old.transactions_by_move_function.entries(), batch.transactions_by_move_function)
        &&& self.timestamps.entries() == put_all::<TransactionDigest, u64>(
            old.timestamps.entries(),
            batch.timestamps,
        )
        &&& self.transaction_order.entries() == put_all::<TxSequenceNumber, TransactionDigest>(
            old.transaction_order.entries(),
            batch.transaction_order,
        )
        &&& self.transactions_seq.entries() == put_all::<TransactionDigest, TxSequenceNumber>(
            old.transactions_seq.entries(),
            batch.transactions_seq,
        )
        &&& self.owner_index.entries() == put_all::<OwnerIndexKey, ObjectInfo>(
            del_all::<OwnerIndexKey, ObjectInfo>(old.owner_index.entries(), batch.deleted_owners),
            batch.new_owners,
        )
        &&& self.dynamic_field_index.entries() == put_all::<DynamicFieldKey, DynamicFieldInfo>(
            del_all::<DynamicFieldKey, DynamicFieldInfo>(
                old.dynamic_field_index.entries(),
                batch.deleted_dynamic_fields,
            ),
            batch.new_dynamic_fields,
        )
        &&& self.event_order.entries() == put_all::<EventId, EventIndex>(
            old.event_order.entries(),
            batch.event_order,
        )
        &&& self.event_by_move_module.entries() == put_all::<(ModuleId, EventId), EventIndex>(
            old.event_by_move_module.entries(),
            batch.event_by_move_module,
        )
        &&& self.event_by_move_event.entries() == put_all::<(StructTag, EventId), EventIndex>(
            old.event_by_move_event.entries(),
            batch.event_by_move_event,
        )
        &&& self.event_by_sender.entries() == put_all::<(SuiAddress, EventId), EventIndex>(
            old.event_by_sender.entries(),
            batch.event_by_sender,
        )
        &&& self.event_by_time.entries() == put_all::<(u64, EventId), EventIndex>(
            old.event_by_time.entries(),
            batch.event_by_time,
        )
    }

    /// Tables without rows.
    pub fn new() -> (tables: Self)
        ensures
            tables.wf(),
            tables.is_blank(),
    {
        IndexStoreTables {
            transactions_from_addr: Table::new(),
            transactions_to_addr: Table::new(),
            transactions_by_input_object_id: Table::new(),
            transactions_by_mutated_object_id: Table::new(),
            transactions_by_move_function: Table::new(),
            timestamps: Table::new(),
            transaction_order: Table::new(),
            transactions_seq: Table::new(),
            owner_index: Table::new(),
            dynamic_field_index: Table::new(),
            event_order: Table::new(),
            event_by_move_module: Table::new(),
            event_by_move_event: Table::new(),
            event_by_sender: Table::new(),
            event_by_time: Table::new(),
        }
    }

    /// Commits `batch`: all of its changes take effect.
    pub fn commit(&mut self, batch: IndexBatch)
        requires
            old(self).wf(),
        ensures
            final(self).wf(),
            final(self).reflects(old(self), batch@),
    {
        self.transaction_order.insert_all(batch.transaction_order);
        self.transactions_seq.insert_all(batch.transactions_seq);
        self.transactions_from_addr.insert_all(batch.transactions_from_addr);
        self.transactions_by_input_object_id.insert_all(batch.transactions_by_input_object_id);
        self.transactions_by_mutated_object_id.insert_all(batch.transactions_by_mutated_object_id);
        self.transactions_by_move_function.insert_all(batch.transactions_by_move_function);
        self.transactions_to_addr.insert_all(batch.transactions_to_addr);
        self.timestamps.insert_all(batch.timestamps);
        self.owner_index.remove_all(&batch.deleted_owners);
        self.dynamic_field_index.remove_all(&batch.deleted_dynamic_fields);
        self.owner_index.insert_all(batch.new_owners);
        self.dynamic_field_index.insert_all(batch.new_dynamic_fields);
        self.event_order.insert_all(batch.event_order);
        self.event_by_move_module.insert_all(batch.event_by_move_module);
        self.event_by_sender.insert_all(batch.event_by_sender);
        self.event_by_move_event.insert_all(batch.event_by_move_event);
        self.event_by_time.insert_all(batch.event_by_time);
    }
}

} // verus!
