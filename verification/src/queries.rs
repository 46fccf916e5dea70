use crate::ids::{all_zero, zero_rank, ObjectID, SuiAddress, TransactionDigest, TxSequenceNumber};
use crate::keys::{KeyOrder, TableKey};
use crate::ordered::Rows;
use crate::scan::{
    at_most, page, values_of, Everything, HeadAtLeast, HeadAtMost, HeadIs, RowFilter, Span,
};
use crate::table::Table;
use crate::tables::IndexStoreTables;
use crate::types::{
    DynamicFieldInfo, DynamicFieldKey, DynamicFieldName, EventId, EventIndex, EventRecord,
    IndexError, MoveFunctionKey, MoveObjectType, ObjectInfo, ObjectRef, ObjectType, Owner,
    OwnerIndexKey, SuiObjectDataFilter, TransactionFilter, TypeTag, GAS_TYPE,
};
use vstd::prelude::*;

verus! {

/// Where a scan over sequence numbers starts: at the cursor, and without
/// one at the least sequence number or, in reverse, at the greatest.
pub open spec fn cursor_or_end(cursor: Option<TxSequenceNumber>, reverse: bool) -> u64 {
    match cursor {
        Some(sequence) => sequence,
        None => if reverse {
            u64::MAX
        } else {
            0
        },
    }
}

/// Where a scan over sequence numbers starts.
pub fn start_of(cursor: Option<TxSequenceNumber>, reverse: bool) -> (start: u64)
    ensures
        start == cursor_or_end(cursor, reverse),
{
    match cursor {
        Some(sequence) => sequence,
        None => if reverse {
            u64::MAX
        } else {
            0
        },
    }
}

/// One page of the transactions indexed under `key`: the scan starts at the
/// cursor and leaves out the row of the cursor itself, if the key has one;
/// it keeps rows while they are rows of `key`.
pub open spec fn transactions_page<K: TableKey>(
    rows: Rows<(K, TxSequenceNumber), TransactionDigest>,
    key: K,
    cursor: Option<TxSequenceNumber>,
    limit: Option<usize>,
    reverse: bool,
) -> Seq<TransactionDigest> {
    values_of(
        page::<(K, TxSequenceNumber), TransactionDigest, HeadIs<K>>(
            rows,
            (key.rank(), cursor_or_end(cursor, reverse)),
            cursor is Some,
            HeadIs(&key),
            limit,
            reverse,
        ),
    )
}

/// One page of all transactions in the order of their sequence numbers,
/// the cursor being exclusive.
pub open spec fn ordered_transactions_page(
    rows: Rows<TxSequenceNumber, TransactionDigest>,
    cursor: Option<TxSequenceNumber>,
    limit: Option<usize>,
    reverse: bool,
) -> Seq<TransactionDigest> {
    values_of(
        page::<TxSequenceNumber, TransactionDigest, Everything>(
            rows,
            cursor_or_end(cursor, reverse),
            cursor is Some,
            Everything,
            limit,
            reverse,
        ),
    )
}

/// The filter on function calls: it admits the calls into `package`, and
/// where a module or a function is named only those into that module or
/// function.
pub struct CallFilter<'a> {
    pub package: &'a ObjectID,
    pub module: &'a Option<String>,
    pub function: &'a Option<String>,
}

impl<'a> RowFilter<MoveFunctionKey> for CallFilter<'a> {
    open spec fn admits(&self, key: (Seq<u8>, (Seq<u8>, (Seq<u8>, u64)))) -> bool {
        &&& key.0 == self.package.rank()
        &&& self.module matches Some(module) ==> key.1.0 == module.rank()
        &&& self.function matches Some(function) ==> key.1.1.0 == function.rank()
    }

    fn test(&self, key: &MoveFunctionKey) -> (b: bool) {
        let same_package = match self.package.compare(&key.0) {
            KeyOrder::Equal => true,
            _ => false,
        };
        let same_module = match self.module {
            Some(module) => match module.compare(&key.1.0) {
                KeyOrder::Equal => true,
                _ => false,
            },
            None => true,
        };
        let same_function = match self.function {
            Some(function) => match function.compare(&key.1.1.0) {
                KeyOrder::Equal => true,
                _ => false,
            },
            None => true,
        };
        same_package && same_module && same_function
    }
}

/// The rank of the name that a scan seeks to: that of the given name, and
/// that of the empty name where none is given.
pub open spec fn name_or_empty(name: Option<String>) -> Seq<u8> {
    match name {
        Some(name) => name.rank(),
        None => vstd::utf8::encode_utf8(Seq::<char>::empty()),
    }
}

/// The calls that a query for the calls into `package` ranges over: from
/// the first key of the package and of the names given (the empty name
/// standing for one that is not given), the rows while they are calls that
/// the names given admit, in the order of the index.
pub open spec fn call_run(
    rows: Rows<MoveFunctionKey, TransactionDigest>,
    package: ObjectID,
    module: Option<String>,
    function: Option<String>,
) -> Rows<MoveFunctionKey, TransactionDigest> {
    page::<MoveFunctionKey, TransactionDigest, CallFilter>(
        rows,
        (package.rank(), (name_or_empty(module), (name_or_empty(function), 0))),
        false,
        (CallFilter { package: &package, module: &module, function: &function }),
        None,
        false,
    )
}

/// Whether a sequence number lies past the cursor in the direction of the
/// scan: after it, or in reverse before it. The cursor's own sequence
/// number never does; without a cursor every sequence number does.
pub open spec fn is_past(
    sequence: TxSequenceNumber,
    cursor: Option<TxSequenceNumber>,
    reverse: bool,
) -> bool {
    match cursor {
        Some(cursor) => if reverse {
            sequence < cursor
        } else {
            sequence > cursor
        },
        None => true,
    }
}

/// The transactions of the calls in `rows` whose sequence numbers lie past
/// the cursor, in the order of `rows`.
pub open spec fn calls_past(
    rows: Rows<MoveFunctionKey, TransactionDigest>,
    cursor: Option<TxSequenceNumber>,
    reverse: bool,
) -> Seq<TransactionDigest>
    decreases rows.len(),
{
    if rows.len() == 0 {
        Seq::empty()
    } else {
        let rest = calls_past(rows.drop_last(), cursor, reverse);
        if is_past(rows.last().0.1.1.1, cursor, reverse) {
            rest.push(rows.last().1)
        } else {
            rest
        }
    }
}

/// The calls past the cursor among the first rows are the first of those
/// among all rows.
pub proof fn lemma_calls_past_prefix(
    rows: Rows<MoveFunctionKey, TransactionDigest>,
    cursor: Option<TxSequenceNumber>,
    reverse: bool,
    n: int,
)
    requires
        0 <= n <= rows.len(),
    ensures
        calls_past(rows.take(n), cursor, reverse).len() <= calls_past(rows, cursor, reverse).len(),
        calls_past(rows.take(n), cursor, reverse) == calls_past(rows, cursor, reverse).take(
            calls_past(rows.take(n), cursor, reverse).len() as int,
        ),
    decreases rows.len() - n,
{
    let all = calls_past(rows, cursor, reverse);
    if n == rows.len() {
        assert(rows.take(n) =~= rows);
        assert(all.take(all.len() as int) =~= all);
    } else {
        lemma_calls_past_prefix(rows, cursor, reverse, n + 1);
        assert(rows.take(n + 1).drop_last() =~= rows.take(n));
        let shorter = calls_past(rows.take(n), cursor, reverse);
        let longer = calls_past(rows.take(n + 1), cursor, reverse);
        assert(shorter =~= longer.take(shorter.len() as int));
        assert(shorter =~= all.take(shorter.len() as int));
    }
}

/// One page of the transactions that called into `package`, into one of its
/// modules, or one function of a module: of the calls that the query ranges
/// over, in the order of the index or in reverse against it, those whose
/// sequence numbers lie past the cursor, up to the limit. Where both names
/// are given the calls stand in the order of their sequence numbers, and
/// the page is the one that follows the cursor.
pub open spec fn calls_page(
    rows: Rows<MoveFunctionKey, TransactionDigest>,
    package: ObjectID,
    module: Option<String>,
    function: Option<String>,
    cursor: Option<TxSequenceNumber>,
    limit: Option<usize>,
    reverse: bool,
) -> Seq<TransactionDigest> {
    let run = call_run(rows, package, module, function);
    at_most(
        calls_past(
            if reverse {
                run.reverse()
            } else {
                run
            },
            cursor,
            reverse,
        ),
        limit,
    )
}

/// What a query for transactions answers once its cursor is resolved to a
/// sequence number: a page of the table that serves the filter, a page of
/// the transaction order where there is no filter, and an error for a
/// filter that no table serves.
pub open spec fn transactions_matching(
    tables: IndexStoreTables,
    filter: Option<TransactionFilter>,
    cursor: Option<TxSequenceNumber>,
    limit: Option<usize>,
    reverse: bool,
) -> Result<Seq<TransactionDigest>, IndexError> {
    match filter {
        Some(TransactionFilter::MoveFunction { package, module, function }) => Ok(
            calls_page(
                tables.transactions_by_move_function.entries(),
                package,
                module,
                function,
                cursor,
                limit,
                reverse,
            ),
        ),
        Some(TransactionFilter::InputObject(object_id)) => Ok(
            transactions_page::<ObjectID>(
                tables.transactions_by_input_object_id.entries(),
                object_id,
                cursor,
                limit,
                reverse,
            ),
        ),
        Some(TransactionFilter::ChangedObject(object_id)) => Ok(
            transactions_page::<ObjectID>(
                tables.transactions_by_mutated_object_id.entries(),
                object_id,
                cursor,
                limit,
                reverse,
            ),
        ),
        Some(TransactionFilter::FromAddress(address)) => Ok(
            transactions_page::<SuiAddress>(
                tables.transactions_from_addr.entries(),
                address,
                cursor,
                limit,
                reverse,
            ),
        ),
        Some(TransactionFilter::ToAddress(address)) => Ok(
            transactions_page::<SuiAddress>(
                tables.transactions_to_addr.entries(),
                address,
                cursor,
                limit,
                reverse,
            ),
        ),
        Some(TransactionFilter::Checkpoint(_)) => Err(IndexError::UnsupportedFilter),
        None => Ok(
            ordered_transactions_page(tables.transaction_order.entries(), cursor, limit, reverse),
        ),
    }
}

/// Whether an answer is the one wanted: the same items in the same order,
/// or the same error.
pub open spec fn answers<T>(got: Result<Vec<T>, IndexError>, want: Result<Seq<T>, IndexError>) -> bool {
    match want {
        Ok(items) => got is Ok && got->Ok_0@ == items,
        Err(error) => got == Err::<Vec<T>, IndexError>(error),
    }
}

/// The records of rows of the event order.
pub open spec fn event_records(rows: Rows<EventId, EventIndex>) -> Seq<EventRecord> {
    Seq::new(rows.len(), |i: int| (rows[i].1.0, rows[i].1.1, rows[i].0.1, rows[i].1.2))
}

/// The records of rows of an event table that is keyed by `K` first.
pub open spec fn keyed_event_records<K: TableKey>(rows: Rows<(K, EventId), EventIndex>) -> Seq<
    EventRecord,
> {
    Seq::new(rows.len(), |i: int| (rows[i].1.0, rows[i].1.1, rows[i].0.1.1, rows[i].1.2))
}

/// One page of all events after the event `(tx_seq, event_seq)` or, in
/// descending order, before it; the cursor is exclusive of the event that it
/// names.
pub open spec fn all_events_page(
    rows: Rows<EventId, EventIndex>,
    tx_seq: TxSequenceNumber,
    event_seq: usize,
    limit: usize,
    descending: bool,
) -> Seq<EventRecord> {
    event_records(
        page::<EventId, EventIndex, Everything>(
            rows,
            (tx_seq, event_seq),
            true,
            Everything,
            Some(limit),
            descending,
        ),
    )
}

/// The sequence number at which a scan of the events of the transaction
/// `sequence` starts, so that the bound `tx_seq` cannot lead it past that
/// transaction.
pub open spec fn clamped(tx_seq: TxSequenceNumber, sequence: TxSequenceNumber, descending: bool) -> u64 {
    if descending {
        if tx_seq < sequence {
            tx_seq
        } else {
            sequence
        }
    } else {
        if tx_seq > sequence {
            tx_seq
        } else {
            sequence
        }
    }
}

/// One page of the events of the transaction indexed under `sequence`,
/// after the event `(tx_seq, event_seq)` or, in descending order, before
/// it.
pub open spec fn transaction_events_page(
    rows: Rows<EventId, EventIndex>,
    sequence: TxSequenceNumber,
    tx_seq: TxSequenceNumber,
    event_seq: usize,
    limit: usize,
    descending: bool,
) -> Seq<EventRecord> {
    event_records(
        page::<EventId, EventIndex, HeadIs<TxSequenceNumber>>(
            rows,
            (clamped(tx_seq, sequence, descending), event_seq),
            true,
            HeadIs(&sequence),
            Some(limit),
            descending,
        ),
    )
}

/// One page of the events stored under `key`, after the event
/// `(tx_seq, event_seq)` or, in descending order, before it.
pub open spec fn keyed_events_page<K: TableKey>(
    rows: Rows<(K, EventId), EventIndex>,
    key: K,
    tx_seq: TxSequenceNumber,
    event_seq: usize,
    limit: usize,
    descending: bool,
) -> Seq<EventRecord> {
    keyed_event_records::<K>(
        page::<(K, EventId), EventIndex, HeadIs<K>>(
            rows,
            (key.rank(), (tx_seq, event_seq)),
            true,
            HeadIs(&key),
            Some(limit),
            descending,
        ),
    )
}

/// One page of the events in a range of time: ascending from `start_time`
/// while the time is at most `end_time`, or descending from `end_time`
/// while the time is at least `start_time`. The event `(tx_seq, event_seq)`
/// at the time where the scan starts is left out.
pub open spec fn timed_events_page(
    rows: Rows<(u64, EventId), EventIndex>,
    start_time: u64,
    end_time: u64,
    tx_seq: TxSequenceNumber,
    event_seq: usize,
    limit: usize,
    descending: bool,
) -> Seq<EventRecord> {
    if descending {
        keyed_event_records::<u64>(
            page::<(u64, EventId), EventIndex, HeadAtLeast>(
                rows,
                (end_time, (tx_seq, event_seq)),
                true,
                HeadAtLeast(start_time),
                Some(limit),
                true,
            ),
        )
    } else {
        keyed_event_records::<u64>(
            page::<(u64, EventId), EventIndex, HeadAtMost>(
                rows,
                (start_time, (tx_seq, event_seq)),
                true,
                HeadAtMost(end_time),
                Some(limit),
                false,
            ),
        )
    }
}

/// Reads the records of the rows of `span` in the event order.
pub fn collect_event_records(table: &Table<EventId, EventIndex>, span: &Span) -> (records: Vec<
    EventRecord,
>)
    requires
        span.within(table.entries().len() as int),
    ensures
        records@ == event_records(span.rows_of(table.entries())),
{
    let len = table.len();
    let ghost all = event_records(span.rows_of(table.entries()));
    let mut records: Vec<EventRecord> = Vec::new();
    let mut i: usize = 0;
    while i < span.count
        invariant
            i <= span.count,
            len == table.entries().len(),
            span.within(table.entries().len() as int),
            all == event_records(span.rows_of(table.entries())),
            records@ == all.take(i as int),
        decreases span.count - i,
    {
        let p = span.at(i);
        let key = table.key_at(p);
        let value = table.value_at(p);
        records.push((value.0, value.1, key.1, value.2));
        assert(records@ =~= all.take(i + 1));
        i += 1;
    }
    assert(records@ =~= all);
    records
}

/// Reads the records of the rows of `span` in an event table that is keyed
/// by `K` first.
pub fn collect_keyed_event_records<K: TableKey>(
    table: &Table<(K, EventId), EventIndex>,
    span: &Span,
) -> (records: Vec<EventRecord>)
    requires
        span.within(table.entries().len() as int),
    ensures
        records@ == keyed_event_records::<K>(span.rows_of(table.entries())),
{
    let len = table.len();
    let ghost all = keyed_event_records::<K>(span.rows_of(table.entries()));
    let mut records: Vec<EventRecord> = Vec::new();
    let mut i: usize = 0;
    while i < span.count
        invariant
            i <= span.count,
            len == table.entries().len(),
            span.within(table.entries().len() as int),
            all == keyed_event_records::<K>(span.rows_of(table.entries())),
            records@ == all.take(i as int),
        decreases span.count - i,
    {
        let p = span.at(i);
        let key = table.key_at(p);
        let value = table.value_at(p);
        records.push((value.0, value.1, key.1.1, value.2));
        assert(records@ =~= all.take(i + 1));
        i += 1;
    }
    assert(records@ =~= all);
    records
}

/// What references point to, in order.
pub open spec fn deref_all<V>(refs: Seq<&V>) -> Seq<V> {
    Seq::new(refs.len(), |i: int| *refs[i])
}

/// Borrows the values of the rows of `span`, in visiting order.
pub fn collect_refs<'a, K: TableKey, V>(table: &'a Table<K, V>, span: &Span) -> (values: Vec<&'a V>)
    requires
        span.within(table.entries().len() as int),
    ensures
        deref_all(values@) == values_of(span.rows_of(table.entries())),
{
    let len = table.len();
    let ghost all = values_of(span.rows_of(table.entries()));
    let mut values: Vec<&'a V> = Vec::new();
    let mut i: usize = 0;
    while i < span.count
        invariant
            i <= span.count,
            len == table.entries().len(),
            span.within(table.entries().len() as int),
            all == values_of(span.rows_of(table.entries())),
            deref_all(values@) == all.take(i as int),
        decreases span.count - i,
    {
        let p = span.at(i);
        let ghost before = values@;
        values.push(table.value_at(p));
        assert(deref_all(values@) =~= deref_all(before).push(all[i as int]));
        assert(all.take(i + 1) =~= all.take(i as int).push(all[i as int]));
        i += 1;
    }
    assert(all.take(i as int) =~= all);
    values
}

impl SuiObjectDataFilter {
    /// Whether the filter lets `object` pass.
    pub open spec fn accepts(&self, object: ObjectInfo) -> bool {
        match *self {
            SuiObjectDataFilter::AddressOwner(address) => object.owner matches Owner::AddressOwner(
                owner,
            ) && owner.0@ == address.0@,
            SuiObjectDataFilter::ObjectOwner(parent) => object.owner matches Owner::ObjectOwner(
                owner,
            ) && owner.0@ == parent.0@,
            SuiObjectDataFilter::ObjectId(object_id) => object.object_id.0@ == object_id.0@,
            SuiObjectDataFilter::Version(version) => object.version == version,
        }
    }

    /// Whether the filter lets `object` pass.
    pub fn matches(&self, object: &ObjectInfo) -> (b: bool)
        ensures
            b == self.accepts(*object),
    {
        match self {
            SuiObjectDataFilter::AddressOwner(address) => match &object.owner {
                Owner::AddressOwner(owner) => match owner.compare(address) {
                    KeyOrder::Equal => true,
                    _ => false,
                },
                _ => false,
            },
            SuiObjectDataFilter::ObjectOwner(parent) => match &object.owner {
                Owner::ObjectOwner(owner) => match owner.compare(parent) {
                    KeyOrder::Equal => true,
                    _ => false,
                },
                _ => false,
            },
            SuiObjectDataFilter::ObjectId(object_id) => match object.object_id.compare(object_id) {
                KeyOrder::Equal => true,
                _ => false,
            },
            SuiObjectDataFilter::Version(version) => object.version == *version,
        }
    }
}

/// Whether an optional filter lets `object` pass; no filter lets every
/// object pass.
pub open spec fn passes(filter: Option<SuiObjectDataFilter>, object: ObjectInfo) -> bool {
    match filter {
        Some(filter) => filter.accepts(object),
        None => true,
    }
}

/// The objects of `rows` that pass `filter`, in order.
pub open spec fn matching_objects(
    rows: Rows<OwnerIndexKey, ObjectInfo>,
    filter: Option<SuiObjectDataFilter>,
) -> Seq<ObjectInfo>
    decreases rows.len(),
{
    if rows.len() == 0 {
        Seq::empty()
    } else {
        let rest = matching_objects(rows.drop_last(), filter);
        if passes(filter, rows.last().1) {
            rest.push(rows.last().1)
        } else {
            rest
        }
    }
}

/// The objects that pass `filter` among the first rows are the first of
/// those that pass it among all rows.
pub proof fn lemma_matching_prefix(
    rows: Rows<OwnerIndexKey, ObjectInfo>,
    filter: Option<SuiObjectDataFilter>,
    n: int,
)
    requires
        0 <= n <= rows.len(),
    ensures
        matching_objects(rows.take(n), filter).len() <= matching_objects(rows, filter).len(),
        matching_objects(rows.take(n), filter) == matching_objects(rows, filter).take(
            matching_objects(rows.take(n), filter).len() as int,
        ),
    decreases rows.len() - n,
{
    if n == rows.len() {
        assert(rows.take(n) =~= rows);
        assert(matching_objects(rows, filter).take(matching_objects(rows, filter).len() as int)
            =~= matching_objects(rows, filter));
    } else {
        lemma_matching_prefix(rows, filter, n + 1);
        assert(rows.take(n + 1).drop_last() =~= rows.take(n));
        let shorter = matching_objects(rows.take(n), filter);
        let longer = matching_objects(rows.take(n + 1), filter);
        let all = matching_objects(rows, filter);
        assert(shorter =~= longer.take(shorter.len() as int));
        assert(shorter =~= all.take(shorter.len() as int));
    }
}

/// The rows of the objects that `owner` owns, from the object `start` on.
/// The row of `start` itself is left out if the owner has one, unless
/// `start` is the identifier of all zero bytes, which stands for the
/// beginning. No other row is left out.
pub open spec fn owned_rows(
    rows: Rows<OwnerIndexKey, ObjectInfo>,
    owner: SuiAddress,
    start: Seq<u8>,
) -> Rows<OwnerIndexKey, ObjectInfo> {
    page::<OwnerIndexKey, ObjectInfo, HeadIs<SuiAddress>>(
        rows,
        (owner.rank(), start),
        !all_zero(start),
        HeadIs(&owner),
        None,
        false,
    )
}

/// The identifier that a scan of objects starts from: the cursor, and
/// without one the identifier of all zero bytes.
pub open spec fn cursor_or_zero(cursor: Option<ObjectID>) -> Seq<u8> {
    match cursor {
        Some(object_id) => object_id.rank(),
        None => zero_rank(),
    }
}

/// The rows of the dynamic fields of `parent`, from the field `cursor` on
/// if there is a cursor; the row of the cursor itself is left out.
pub open spec fn field_rows(
    rows: Rows<DynamicFieldKey, DynamicFieldInfo>,
    parent: ObjectID,
    cursor: Option<ObjectID>,
) -> Rows<DynamicFieldKey, DynamicFieldInfo> {
    page::<DynamicFieldKey, DynamicFieldInfo, HeadIs<ObjectID>>(
        rows,
        (parent.rank(), cursor_or_zero(cursor)),
        cursor is Some,
        HeadIs(&parent),
        None,
        false,
    )
}

/// Whether a field's name is `name`: the same type and the same value.
pub open spec fn is_named(info: DynamicFieldInfo, name: DynamicFieldName) -> bool {
    info.name.type_.canonical@ == name.type_.canonical@ && info.name.value@ == name.value@
}

/// The object of the first field of `rows` that is named `name`.
pub open spec fn first_field_named(
    rows: Rows<DynamicFieldKey, DynamicFieldInfo>,
    name: DynamicFieldName,
) -> Option<ObjectID>
    decreases rows.len(),
{
    if rows.len() == 0 {
        None
    } else if is_named(rows[0].1, name) {
        Some(rows[0].1.object_id)
    } else {
        first_field_named(rows.skip(1), name)
    }
}

impl ObjectType {
    /// Whether this is the type of a coin: of any coin where no coin type
    /// is given, and else of a coin of the given type.
    pub open spec fn is_coin_of(&self, coin_type: Option<TypeTag>) -> bool {
        match (*self, coin_type) {
            (ObjectType::Struct(MoveObjectType::GasCoin), None) => true,
            (ObjectType::Struct(MoveObjectType::Coin(_)), None) => true,
            (ObjectType::Struct(MoveObjectType::GasCoin), Some(wanted)) => wanted.canonical@
                == GAS_TYPE@,
            (ObjectType::Struct(MoveObjectType::Coin(held)), Some(wanted)) => held.canonical@
                == wanted.canonical@,
            _ => false,
        }
    }

    /// Whether this is the type of a coin.
    pub fn is_coin(&self) -> (b: bool)
        ensures
            b == self.is_coin_of(None),
    {
        match self {
            ObjectType::Struct(MoveObjectType::GasCoin) => true,
            ObjectType::Struct(MoveObjectType::Coin(_)) => true,
            _ => false,
        }
    }

    /// Whether this is the type of a coin of type `coin_type`.
    pub fn is_coin_t(&self, coin_type: &TypeTag) -> (b: bool)
        ensures
            b == self.is_coin_of(Some(*coin_type)),
    {
        match self {
            ObjectType::Struct(MoveObjectType::GasCoin) => coin_type.same(&TypeTag::gas()),
            ObjectType::Struct(MoveObjectType::Coin(held)) => held.same(coin_type),
            _ => false,
        }
    }
}

/// The references to the coins among `rows`, in order.
pub open spec fn coin_refs(
    rows: Rows<OwnerIndexKey, ObjectInfo>,
    coin_type: Option<TypeTag>,
) -> Seq<ObjectRef>
    decreases rows.len(),
{
    if rows.len() == 0 {
        Seq::empty()
    } else {
        let rest = coin_refs(rows.drop_last(), coin_type);
        let info = rows.last().1;
        if info.type_.is_coin_of(coin_type) {
            rest.push((info.object_id, info.version, info.digest))
        } else {
            rest
        }
    }
}

} // verus!
