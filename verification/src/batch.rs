use crate::ids::{ObjectID, SuiAddress, TransactionDigest, TransactionEventsDigest, TxSequenceNumber};
use crate::keys::TableKey;
use crate::lex::ranks_of;
use crate::ordered::Rows;
use crate::table::{lemma_rows_of_push, rows_of};
use crate::types::{
    DynamicFieldInfo, DynamicFieldKey, Event, EventId, EventIndex, ModuleId, MoveFunctionKey,
    ObjectIndexChanges, ObjectInfo, ObjectRef, Owner, OwnerIndexKey, StructTag,
};
use vstd::prelude::*;

verus! {

/// The changes that indexing one transaction stages, table by table. They
/// take effect together, when the batch is committed.
pub struct IndexBatch {
    pub transaction_order: Vec<(TxSequenceNumber, TransactionDigest)>,
    pub transactions_seq: Vec<(TransactionDigest, TxSequenceNumber)>,
    pub transactions_from_addr: Vec<((SuiAddress, TxSequenceNumber), TransactionDigest)>,
    pub transactions_by_input_object_id: Vec<((ObjectID, TxSequenceNumber), TransactionDigest)>,
    pub transactions_by_mutated_object_id: Vec<((ObjectID, TxSequenceNumber), TransactionDigest)>,
    pub transactions_by_move_function: Vec<(MoveFunctionKey, TransactionDigest)>,
    pub transactions_to_addr: Vec<((SuiAddress, TxSequenceNumber), TransactionDigest)>,
    pub timestamps: Vec<(TransactionDigest, u64)>,
    pub deleted_owners: Vec<OwnerIndexKey>,
    pub deleted_dynamic_fields: Vec<DynamicFieldKey>,
    pub new_owners: Vec<(OwnerIndexKey, ObjectInfo)>,
    pub new_dynamic_fields: Vec<(DynamicFieldKey, DynamicFieldInfo)>,
    pub event_order: Vec<(EventId, EventIndex)>,
    pub event_by_move_module: Vec<((ModuleId, EventId), EventIndex)>,
    pub event_by_move_event: Vec<((StructTag, EventId), EventIndex)>,
    pub event_by_sender: Vec<((SuiAddress, EventId), EventIndex)>,
    pub event_by_time: Vec<((u64, EventId), EventIndex)>,
}

/// A batch as a mathematical value: for each table the rows to store, and
/// for the two tables of live objects the keys to delete first.
#[verifier::ext_equal]
pub struct BatchRows {
    pub transaction_order: Rows<TxSequenceNumber, TransactionDigest>,
    pub transactions_seq: Rows<TransactionDigest, TxSequenceNumber>,
    pub transactions_from_addr: Rows<(SuiAddress, TxSequenceNumber), TransactionDigest>,
    pub transactions_by_input_object_id: Rows<(ObjectID, TxSequenceNumber), TransactionDigest>,
    pub transactions_by_mutated_object_id: Rows<(ObjectID, TxSequenceNumber), TransactionDigest>,
    pub transactions_by_move_function: Rows<MoveFunctionKey, TransactionDigest>,
    pub transactions_to_addr: Rows<(SuiAddress, TxSequenceNumber), TransactionDigest>,
    pub timestamps: Rows<TransactionDigest, u64>,
    pub deleted_owners: Seq<(Seq<u8>, Seq<u8>)>,
    pub deleted_dynamic_fields: Seq<(Seq<u8>, Seq<u8>)>,
    pub new_owners: Rows<OwnerIndexKey, ObjectInfo>,
    pub new_dynamic_fields: Rows<DynamicFieldKey, DynamicFieldInfo>,
    pub event_order: Rows<EventId, EventIndex>,
    pub event_by_move_module: Rows<(ModuleId, EventId), EventIndex>,
    pub event_by_move_event: Rows<(StructTag, EventId), EventIndex>,
    pub event_by_sender: Rows<(SuiAddress, EventId), EventIndex>,
    pub event_by_time: Rows<(u64, EventId), EventIndex>,
}

impl View for IndexBatch {
    type V = BatchRows;

    open spec fn view(&self) -> BatchRows {
        BatchRows {
            transaction_order: rows_of(self.transaction_order@),
            transactions_seq: rows_of(self.transactions_seq@),
            transactions_from_addr: rows_of(self.transactions_from_addr@),
            transactions_by_input_object_id: rows_of(self.transactions_by_input_object_id@),
            transactions_by_mutated_object_id: rows_of(self.transactions_by_mutated_object_id@),
            transactions_by_move_function: rows_of(self.transactions_by_move_function@),
            transactions_to_addr: rows_of(self.transactions_to_addr@),
            timestamps: rows_of(self.timestamps@),
            deleted_owners: ranks_of(self.deleted_owners@),
            deleted_dynamic_fields: ranks_of(self.deleted_dynamic_fields@),
            new_owners: rows_of(self.new_owners@),
            new_dynamic_fields: rows_of(self.new_dynamic_fields@),
            event_order: rows_of(self.event_order@),
            event_by_move_module: rows_of(self.event_by_move_module@),
            event_by_move_event: rows_of(self.event_by_move_event@),
            event_by_sender: rows_of(self.event_by_sender@),
            event_by_time: rows_of(self.event_by_time@),
        }
    }
}

/// One row per input object: the transaction under the object and the
/// sequence number.
pub open spec fn input_rows(
    inputs: Seq<ObjectID>,
    sequence: TxSequenceNumber,
    digest: TransactionDigest,
) -> Rows<(ObjectID, TxSequenceNumber), TransactionDigest> {
    Seq::new(inputs.len(), |i: int| ((inputs[i].rank(), sequence), digest))
}

/// One row per created or mutated object: the transaction under the object
/// and the sequence number.
pub open spec fn mutated_rows(
    mutated: Seq<(ObjectRef, Owner)>,
    sequence: TxSequenceNumber,
    digest: TransactionDigest,
) -> Rows<(ObjectID, TxSequenceNumber), TransactionDigest> {
    Seq::new(mutated.len(), |i: int| ((mutated[i].0.0.rank(), sequence), digest))
}

/// One row per created or mutated object that an address owns: the
/// transaction under that address and the sequence number. Objects with
/// any other kind of owner give no row.
pub open spec fn recipient_rows(
    mutated: Seq<(ObjectRef, Owner)>,
    sequence: TxSequenceNumber,
    digest: TransactionDigest,
) -> Rows<(SuiAddress, TxSequenceNumber), TransactionDigest>
    decreases mutated.len(),
{
    if mutated.len() == 0 {
        Seq::empty()
    } else {
        let rest = recipient_rows(mutated.drop_last(), sequence, digest);
        match mutated.last().1 {
            Owner::AddressOwner(address) => rest.push(((address.rank(), sequence), digest)),
            _ => rest,
        }
    }
}

/// One row per called function: the transaction under the package, module
/// and function names and the sequence number.
pub open spec fn call_rows(
    calls: Seq<(ObjectID, String, String)>,
    sequence: TxSequenceNumber,
    digest: TransactionDigest,
) -> Rows<MoveFunctionKey, TransactionDigest> {
    Seq::new(
        calls.len(),
        |i: int| ((calls[i].0.rank(), (calls[i].1.rank(), (calls[i].2.rank(), sequence))), digest),
    )
}

/// One row per event, under the sequence number and the event's position.
pub open spec fn event_order_rows(
    count: nat,
    sequence: TxSequenceNumber,
    value: EventIndex,
) -> Rows<EventId, EventIndex> {
    Seq::new(count, |i: int| ((sequence, i as usize), value))
}

/// One row per event, under the module that emitted it.
pub open spec fn event_module_rows(
    events: Seq<Event>,
    sequence: TxSequenceNumber,
    value: EventIndex,
) -> Rows<(ModuleId, EventId), EventIndex> {
    Seq::new(
        events.len(),
        |i: int|
            (
                (
                    (events[i].package_id.rank(), events[i].transaction_module.rank()),
                    (sequence, i as usize),
                ),
                value,
            ),
    )
}

/// One row per event, under the event's type.
pub open spec fn event_type_rows(
    events: Seq<Event>,
    sequence: TxSequenceNumber,
    value: EventIndex,
) -> Rows<(StructTag, EventId), EventIndex> {
    Seq::new(events.len(), |i: int| ((events[i].type_.rank(), (sequence, i as usize)), value))
}

/// One row per event, under the event's sender.
pub open spec fn event_sender_rows(
    events: Seq<Event>,
    sequence: TxSequenceNumber,
    value: EventIndex,
) -> Rows<(SuiAddress, EventId), EventIndex> {
    Seq::new(events.len(), |i: int| ((events[i].sender.rank(), (sequence, i as usize)), value))
}

/// One row per event, under the transaction's timestamp.
pub open spec fn event_time_rows(
    count: nat,
    sequence: TxSequenceNumber,
    timestamp_ms: u64,
    value: EventIndex,
) -> Rows<(u64, EventId), EventIndex> {
    Seq::new(count, |i: int| ((timestamp_ms, (sequence, i as usize)), value))
}

/// The batch that indexing a transaction under `sequence` stages.
pub open spec fn staged_rows(
    sequence: TxSequenceNumber,
    sender: SuiAddress,
    active_inputs: Seq<ObjectID>,
    mutated_objects: Seq<(ObjectRef, Owner)>,
    move_functions: Seq<(ObjectID, String, String)>,
    events: Seq<Event>,
    events_digest: TransactionEventsDigest,
    object_index_changes: ObjectIndexChanges,
    digest: TransactionDigest,
    timestamp_ms: u64,
) -> BatchRows {
    let value = (events_digest, digest, timestamp_ms);
    BatchRows {
        transaction_order: seq![(sequence, digest)],
        transactions_seq: seq![(digest.rank(), sequence)],
        transactions_from_addr: seq![((sender.rank(), sequence), digest)],
        transactions_by_input_object_id: input_rows(active_inputs, sequence, digest),
        transactions_by_mutated_object_id: mutated_rows(mutated_objects, sequence, digest),
        transactions_by_move_function: call_rows(move_functions, sequence, digest),
        transactions_to_addr: recipient_rows(mutated_objects, sequence, digest),
        timestamps: seq![(digest.rank(), timestamp_ms)],
        deleted_owners: ranks_of(object_index_changes.deleted_owners@),
        deleted_dynamic_fields: ranks_of(object_index_changes.deleted_dynamic_fields@),
        new_owners: rows_of(object_index_changes.new_owners@),
        new_dynamic_fields: rows_of(object_index_changes.new_dynamic_fields@),
        event_order: event_order_rows(events.len(), sequence, value),
        event_by_move_module: event_module_rows(events, sequence, value),
        event_by_move_event: event_type_rows(events, sequence, value),
        event_by_sender: event_sender_rows(events, sequence, value),
        event_by_time: event_time_rows(events.len(), sequence, timestamp_ms, value),
    }
}

fn stage_inputs(
    active_inputs: &Vec<ObjectID>,
    sequence: TxSequenceNumber,
    digest: TransactionDigest,
) -> (rows: Vec<((ObjectID, TxSequenceNumber), TransactionDigest)>)
    ensures
        rows_of(rows@) == input_rows(active_inputs@, sequence, digest),
{
    let mut rows: Vec<((ObjectID, TxSequenceNumber), TransactionDigest)> = Vec::new();
    let mut i: usize = 0;
    while i < active_inputs.len()
        invariant
            i <= active_inputs.len(),
            rows_of(rows@) == input_rows(active_inputs@, sequence, digest).take(i as int),
        decreases active_inputs.len() - i,
    {
        let row = ((active_inputs[i], sequence), digest);
        proof {
            let all = input_rows(active_inputs@, sequence, digest);
            lemma_rows_of_push(rows@, row);
            assert(all.take(i + 1) =~= all.take(i as int).push(all[i as int]));
        }
        rows.push(row);
        i += 1;
    }
    assert(rows_of(rows@) =~= input_rows(active_inputs@, sequence, digest));
    rows
}

fn stage_mutated(
    mutated_objects: &Vec<(ObjectRef, Owner)>,
    sequence: TxSequenceNumber,
    digest: TransactionDigest,
) -> (rows: Vec<((ObjectID, TxSequenceNumber), TransactionDigest)>)
    ensures
        rows_of(rows@) == mutated_rows(mutated_objects@, sequence, digest),
{
    let mut rows: Vec<((ObjectID, TxSequenceNumber), TransactionDigest)> = Vec::new();
    let mut i: usize = 0;
    while i < mutated_objects.len()
        invariant
            i <= mutated_objects.len(),
            rows_of(rows@) == mutated_rows(mutated_objects@, sequence, digest).take(i as int),
        decreases mutated_objects.len() - i,
    {
        let row = ((mutated_objects[i].0.0, sequence), digest);
        proof {
            let all = mutated_rows(mutated_objects@, sequence, digest);
            lemma_rows_of_push(rows@, row);
            assert(all.take(i + 1) =~= all.take(i as int).push(all[i as int]));
        }
        rows.push(row);
        i += 1;
    }
    assert(rows_of(rows@) =~= mutated_rows(mutated_objects@, sequence, digest));
    rows
}

fn stage_recipients(
    mutated_objects: &Vec<(ObjectRef, Owner)>,
    sequence: TxSequenceNumber,
    digest: TransactionDigest,
) -> (rows: Vec<((SuiAddress, TxSequenceNumber), TransactionDigest)>)
    ensures
        rows_of(rows@) == recipient_rows(mutated_objects@, sequence, digest),
{
    let mut rows: Vec<((SuiAddress, TxSequenceNumber), TransactionDigest)> = Vec::new();
    let mut i: usize = 0;
    assert(mutated_objects@.take(0) =~= Seq::<(ObjectRef, Owner)>::empty());
    assert(rows_of(rows@) =~= recipient_rows(mutated_objects@.take(0), sequence, digest));
    while i < mutated_objects.len()
        invariant
            i <= mutated_objects.len(),
            rows_of(rows@) == recipient_rows(mutated_objects@.take(i as int), sequence, digest),
        decreases mutated_objects.len() - i,
    {
        assert(mutated_objects@.take(i + 1).drop_last() =~= mutated_objects@.take(i as int));
        match mutated_objects[i].1 {
            Owner::AddressOwner(address) => {
                let row = ((address, sequence), digest);
                proof {
                    lemma_rows_of_push(rows@, row);
                }
                rows.push(row);
            },
            _ => {},
        }
        i += 1;
    }
    assert(mutated_objects@.take(i as int) =~= mutated_objects@);
    rows
}

fn stage_calls(
    move_functions: Vec<(ObjectID, String, String)>,
    sequence: TxSequenceNumber,
    digest: TransactionDigest,
) -> (rows: Vec<(MoveFunctionKey, TransactionDigest)>)
    ensures
        rows_of(rows@) == call_rows(move_functions@, sequence, digest),
{
    let mut rows: Vec<(MoveFunctionKey, TransactionDigest)> = Vec::new();
    let ghost all = call_rows(move_functions@, sequence, digest);
    assert(rows_of(rows@) =~= all.take(0));
    for call in it: move_functions
        invariant
            all == call_rows(it.seq(), sequence, digest),
            rows_of(rows@) == all.take(it.index() as int),
    {
        let row = ((call.0, (call.1, (call.2, sequence))), digest);
        proof {
            let n = it.index() as int;
            lemma_rows_of_push(rows@, row);
            assert(all.take(n + 1) =~= all.take(n).push(all[n]));
        }
        rows.push(row);
    }
    assert(rows_of(rows@) =~= all);
    rows
}

/// Stages the changes of one transaction that is indexed under `sequence`.
pub fn stage_tx(
    sequence: TxSequenceNumber,
    sender: SuiAddress,
    active_inputs: Vec<ObjectID>,
    mutated_objects: Vec<(ObjectRef, Owner)>,
    move_functions: Vec<(ObjectID, String, String)>,
    events: &Vec<Event>,
    events_digest: TransactionEventsDigest,
    object_index_changes: ObjectIndexChanges,
    digest: &TransactionDigest,
    timestamp_ms: u64,
) -> (batch: IndexBatch)
    ensures
        batch@ == staged_rows(
            sequence,
            sender,
            active_inputs@,
            mutated_objects@,
            move_functions@,
            events@,
            events_digest,
            object_index_changes,
            *digest,
            timestamp_ms,
        ),
{
    let value: EventIndex = (events_digest, *digest, timestamp_ms);
    let mut event_order: Vec<(EventId, EventIndex)> = Vec::new();
    let mut event_by_move_module: Vec<((ModuleId, EventId), EventIndex)> = Vec::new();
    let mut event_by_move_event: Vec<((StructTag, EventId), EventIndex)> = Vec::new();
    let mut event_by_sender: Vec<((SuiAddress, EventId), EventIndex)> = Vec::new();
    let mut event_by_time: Vec<((u64, EventId), EventIndex)> = Vec::new();
    let mut i: usize = 0;
    while i < events.len()
        invariant
            i <= events.len(),
            rows_of(event_order@) == event_order_rows(events@.len(), sequence, value).take(
                i as int,
            ),
            rows_of(event_by_move_module@) == event_module_rows(events@, sequence, value).take(
                i as int,
            ),
            rows_of(event_by_move_event@) == event_type_rows(events@, sequence, value).take(
                i as int,
            ),
            rows_of(event_by_sender@) == event_sender_rows(events@, sequence, value).take(
                i as int,
            ),
            rows_of(event_by_time@) == event_time_rows(
                events@.len(),
                sequence,
                timestamp_ms,
                value,
            ).take(i as int),
        decreases events.len() - i,
    {
        let event = &events[i];
        let module = ModuleId::new(event.package_id, event.transaction_module.clone());
        let order_row = ((sequence, i), value);
        let module_row = ((module, (sequence, i)), value);
        let type_row = ((event.type_.duplicate(), (sequence, i)), value);
        let sender_row = ((event.sender, (sequence, i)), value);
        let time_row = ((timestamp_ms, (sequence, i)), value);
        proof {
            let n = i as int;
            let orders = event_order_rows(events@.len(), sequence, value);
            let modules = event_module_rows(events@, sequence, value);
            let types = event_type_rows(events@, sequence, value);
            let senders = event_sender_rows(events@, sequence, value);
            let times = event_time_rows(events@.len(), sequence, timestamp_ms, value);
            lemma_rows_of_push(event_order@, order_row);
            lemma_rows_of_push(event_by_move_module@, module_row);
            lemma_rows_of_push(event_by_move_event@, type_row);
            lemma_rows_of_push(event_by_sender@, sender_row);
            lemma_rows_of_push(event_by_time@, time_row);
            assert(orders.take(n + 1) =~= orders.take(n).push(orders[n]));
            assert(modules.take(n + 1) =~= modules.take(n).push(modules[n]));
            assert(types.take(n + 1) =~= types.take(n).push(types[n]));
            assert(senders.take(n + 1) =~= senders.take(n).push(senders[n]));
            assert(times.take(n + 1) =~= times.take(n).push(times[n]));
        }
        event_order.push(order_row);
        event_by_move_module.push(module_row);
        event_by_move_event.push(type_row);
        event_by_sender.push(sender_row);
        event_by_time.push(time_row);
        i += 1;
    }
    let transactions_by_input_object_id = stage_inputs(&active_inputs, sequence, *digest);
    let transactions_by_mutated_object_id = stage_mutated(&mutated_objects, sequence, *digest);
    let transactions_to_addr = stage_recipients(&mutated_objects, sequence, *digest);
    let transactions_by_move_function = stage_calls(move_functions, sequence, *digest);
    let mut transaction_order: Vec<(TxSequenceNumber, TransactionDigest)> = Vec::new();
    transaction_order.push((sequence, *digest));
    let mut transactions_seq: Vec<(TransactionDigest, TxSequenceNumber)> = Vec::new();
    transactions_seq.push((*digest, sequence));
    let mut transactions_from_addr: Vec<((SuiAddress, TxSequenceNumber), TransactionDigest)> =
        Vec::new();
    transactions_from_addr.push(((sender, sequence), *digest));
    let mut timestamps: Vec<(TransactionDigest, u64)> = Vec::new();
    timestamps.push((*digest, timestamp_ms));
    let ghost changes = object_index_changes;
    let batch = IndexBatch {
        transaction_order,
        transactions_seq,
        transactions_from_addr,
        transactions_by_input_object_id,
        transactions_by_mutated_object_id,
        transactions_by_move_function,
        transactions_to_addr,
        timestamps,
        deleted_owners: object_index_changes.deleted_owners,
        deleted_dynamic_fields: object_index_changes.deleted_dynamic_fields,
        new_owners: object_index_changes.new_owners,
        new_dynamic_fields: object_index_changes.new_dynamic_fields,
        event_order,
        event_by_move_module,
        event_by_move_event,
        event_by_sender,
        event_by_time,
    };
    proof {
        let want = staged_rows(
            sequence,
            sender,
            active_inputs@,
            mutated_objects@,
            move_functions@,
            events@,
            events_digest,
            changes,
            *digest,
            timestamp_ms,
        );
        assert(batch@.transaction_order =~= want.transaction_order);
        assert(batch@.transactions_seq =~= want.transactions_seq);
        assert(batch@.transactions_from_addr =~= want.transactions_from_addr);
        assert(batch@.timestamps =~= want.timestamps);
        assert(batch@.event_order =~= want.event_order);
        assert(batch@.event_by_move_module =~= want.event_by_move_module);
        assert(batch@.event_by_move_event =~= want.event_by_move_event);
        assert(batch@.event_by_sender =~= want.event_by_sender);
        assert(batch@.event_by_time =~= want.event_by_time);
        assert(batch@ =~= want);
    }
    batch
}

} // verus!
