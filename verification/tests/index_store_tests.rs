use index_store::caches::{coin_type_of, IndexStoreCaches};
use index_store::ids::{
    ObjectDigest, ObjectID, SuiAddress, TransactionDigest, TransactionEventsDigest,
};
use index_store::indexes::IndexStore;
use index_store::tables::IndexStoreTables;
use index_store::types::{
    DynamicFieldInfo, DynamicFieldName, DynamicFieldType, Event, IndexError, ModuleId,
    MoveObjectType, ObjectIndexChanges, ObjectInfo, ObjectType, Owner, StructTag,
    SuiObjectDataFilter, TotalBalance, TransactionEvents, TransactionFilter, TypeTag, GAS_TYPE,
};

fn address(byte: u8) -> SuiAddress {
    SuiAddress([byte; 32])
}

fn object(byte: u8) -> ObjectID {
    ObjectID([byte; 32])
}

fn digest(byte: u8) -> TransactionDigest {
    TransactionDigest([byte; 32])
}

fn events_digest(byte: u8) -> TransactionEventsDigest {
    TransactionEventsDigest([byte; 32])
}

fn type_tag(text: &str) -> TypeTag {
    TypeTag { canonical: text.to_string() }
}

fn struct_tag(name: &str) -> StructTag {
    StructTag {
        address: object(2),
        module: "market".to_string(),
        name: name.to_string(),
        type_params: Vec::new(),
    }
}

fn coin(id: ObjectID, owner: SuiAddress, coin_type: &str) -> ObjectInfo {
    ObjectInfo {
        object_id: id,
        version: 1,
        digest: ObjectDigest([9; 32]),
        type_: ObjectType::Struct(MoveObjectType::Coin(type_tag(coin_type))),
        owner: Owner::AddressOwner(owner),
        previous_transaction: digest(0),
    }
}

fn no_changes() -> ObjectIndexChanges {
    ObjectIndexChanges {
        deleted_owners: Vec::new(),
        deleted_dynamic_fields: Vec::new(),
        new_owners: Vec::new(),
        new_dynamic_fields: Vec::new(),
    }
}

fn no_events() -> TransactionEvents {
    TransactionEvents { data: Vec::new() }
}

fn event(package: ObjectID, module: &str, sender: SuiAddress, name: &str) -> Event {
    Event {
        package_id: package,
        transaction_module: module.to_string(),
        sender,
        type_: struct_tag(name),
        contents: vec![1, 2, 3],
    }
}

fn empty_store() -> IndexStore {
    IndexStore::new(IndexStoreTables::new())
}

/// Indexes a transaction that only has a sender and a digest.
fn index_plain(store: &mut IndexStore, sender: SuiAddress, tx: TransactionDigest, time: u64) -> u64 {
    assert!(store.can_allocate());
    store.index_tx(
        sender,
        Vec::new(),
        Vec::new(),
        Vec::new(),
        &no_events(),
        events_digest(0),
        no_changes(),
        &tx,
        time,
    )
}

fn index_events(
    store: &mut IndexStore,
    tx: TransactionDigest,
    events: &TransactionEvents,
    time: u64,
) -> u64 {
    assert!(store.can_allocate());
    store.index_tx(
        address(1),
        Vec::new(),
        Vec::new(),
        Vec::new(),
        events,
        events_digest(7),
        no_changes(),
        &tx,
        time,
    )
}

fn index_changes(store: &mut IndexStore, tx: TransactionDigest, changes: ObjectIndexChanges) -> u64 {
    assert!(store.can_allocate());
    store.index_tx(
        address(1),
        Vec::new(),
        Vec::new(),
        Vec::new(),
        &no_events(),
        events_digest(0),
        changes,
        &tx,
        0,
    )
}

#[test]
fn new_store_is_empty_and_starts_at_zero() {
    let store = empty_store();
    assert!(store.is_empty());
    assert_eq!(store.next_sequence_number(), 0);
    assert_eq!(store.get_transactions(None, None, None, false), Ok(Vec::new()));
    assert_eq!(store.caches.per_coin_type_balance.entry_count(), 0);
    assert_eq!(store.caches.all_balances.entry_count(), 0);
}

#[test]
fn sequence_numbers_increase_without_gaps() {
    let mut store = empty_store();
    for i in 0..5u8 {
        assert_eq!(store.next_sequence_number(), i as u64);
        let sequence = index_plain(&mut store, address(1), digest(i + 1), 0);
        assert_eq!(sequence, i as u64);
        assert_eq!(store.next_sequence_number(), i as u64 + 1);
    }
}

#[test]
fn order_and_digest_tables_are_inverse() {
    let mut store = empty_store();
    let txs = [digest(5), digest(3), digest(8)];
    for tx in txs.iter() {
        index_plain(&mut store, address(1), *tx, 0);
    }
    let ordered = store.get_transactions(None, None, None, false).unwrap();
    assert_eq!(ordered, txs.to_vec());
    for (i, tx) in txs.iter().enumerate() {
        assert_eq!(store.get_transaction_seq(tx), Some(i as u64));
    }
    assert_eq!(store.get_transaction_seq(&digest(1)), None);
}

#[test]
fn transactions_without_filter_follow_the_cursor() {
    let mut store = empty_store();
    let (d1, d2, d3) = (digest(1), digest(2), digest(3));
    index_plain(&mut store, address(1), d1, 0);
    index_plain(&mut store, address(1), d2, 0);
    index_plain(&mut store, address(1), d3, 0);
    assert_eq!(store.get_transactions(None, None, None, false), Ok(vec![d1, d2, d3]));
    assert_eq!(store.get_transactions(None, Some(d2), None, false), Ok(vec![d3]));
    assert_eq!(store.get_transactions(None, Some(d2), None, true), Ok(vec![d1]));
    assert_eq!(store.get_transactions(None, None, None, true), Ok(vec![d3, d2, d1]));
    assert_eq!(store.get_transactions(None, None, Some(2), false), Ok(vec![d1, d2]));
    assert_eq!(store.get_transactions(None, None, Some(2), true), Ok(vec![d3, d2]));
    assert_eq!(store.get_transactions(None, None, Some(0), false), Ok(Vec::new()));
    assert_eq!(store.get_transactions(None, Some(d3), None, false), Ok(Vec::new()));
    assert_eq!(store.get_transactions(None, Some(d1), None, true), Ok(Vec::new()));
}

#[test]
fn unknown_cursor_is_not_found() {
    let mut store = empty_store();
    index_plain(&mut store, address(1), digest(1), 0);
    assert_eq!(
        store.get_transactions(None, Some(digest(9)), None, false),
        Err(IndexError::TransactionNotFound { digest: digest(9) })
    );
    // The cursor is resolved before the filter is looked at.
    assert_eq!(
        store.get_transactions(Some(TransactionFilter::Checkpoint(3)), Some(digest(9)), None, false),
        Err(IndexError::TransactionNotFound { digest: digest(9) })
    );
}

#[test]
fn checkpoint_filter_is_unsupported() {
    let mut store = empty_store();
    index_plain(&mut store, address(1), digest(1), 0);
    assert_eq!(
        store.get_transactions(Some(TransactionFilter::Checkpoint(0)), None, None, false),
        Err(IndexError::UnsupportedFilter)
    );
    assert_eq!(
        store.get_transactions(Some(TransactionFilter::Checkpoint(0)), Some(digest(1)), None, true),
        Err(IndexError::UnsupportedFilter)
    );
}

#[test]
fn transactions_by_sender_keep_to_the_sender() {
    let mut store = empty_store();
    let (a, b) = (address(1), address(2));
    index_plain(&mut store, a, digest(1), 0);
    index_plain(&mut store, b, digest(2), 0);
    index_plain(&mut store, a, digest(3), 0);
    index_plain(&mut store, a, digest(4), 0);
    assert_eq!(
        store.get_transactions_from_addr(a, None, None, false),
        vec![digest(1), digest(3), digest(4)]
    );
    assert_eq!(store.get_transactions_from_addr(b, None, None, false), vec![digest(2)]);
    assert_eq!(store.get_transactions_from_addr(address(3), None, None, false), Vec::new());
    // The cursor is exclusive, in both directions.
    assert_eq!(store.get_transactions_from_addr(a, Some(2), None, false), vec![digest(4)]);
    assert_eq!(store.get_transactions_from_addr(a, Some(2), None, true), vec![digest(1)]);
    // A cursor that is no transaction of the sender leaves out nothing.
    assert_eq!(
        store.get_transactions_from_addr(a, Some(1), None, false),
        vec![digest(3), digest(4)]
    );
    assert_eq!(store.get_transactions_from_addr(a, Some(1), None, true), vec![digest(1)]);
    assert_eq!(
        store.get_transactions(Some(TransactionFilter::FromAddress(a)), Some(digest(2)), None, false),
        Ok(vec![digest(3), digest(4)])
    );
    assert_eq!(
        store.get_transactions(Some(TransactionFilter::FromAddress(a)), Some(digest(1)), Some(1), false),
        Ok(vec![digest(3)])
    );
}

#[test]
fn forward_and_reverse_scans_mirror_each_other() {
    let mut store = empty_store();
    let a = address(4);
    for i in 0..6u8 {
        let sender = if i % 2 == 0 { a } else { address(5) };
        index_plain(&mut store, sender, digest(i + 10), 0);
    }
    let forward = store.get_transactions_from_addr(a, None, None, false);
    let mut reverse = store.get_transactions_from_addr(a, None, None, true);
    reverse.reverse();
    assert_eq!(forward, vec![digest(10), digest(12), digest(14)]);
    assert_eq!(forward, reverse);
}

#[test]
fn cursor_row_is_left_out() {
    let mut store = empty_store();
    let a = address(4);
    for i in 0..4u8 {
        index_plain(&mut store, a, digest(i + 1), 0);
    }
    let cursor = store.get_transaction_seq(&digest(2)).unwrap();
    let after = store.get_transactions_from_addr(a, Some(cursor), None, false);
    let before = store.get_transactions_from_addr(a, Some(cursor), None, true);
    assert_eq!(after, vec![digest(3), digest(4)]);
    assert_eq!(before, vec![digest(1)]);
    assert!(!after.contains(&digest(2)));
    assert!(!before.contains(&digest(2)));
}

#[test]
fn inputs_and_mutated_objects_are_indexed() {
    let mut store = empty_store();
    let (o1, o2, o3) = (object(1), object(2), object(3));
    let recipient = address(7);
    assert!(store.can_allocate());
    let sequence = store.index_tx(
        address(1),
        vec![o1, o2, o1],
        vec![
            ((o2, 5, ObjectDigest([1; 32])), Owner::AddressOwner(recipient)),
            ((o3, 1, ObjectDigest([2; 32])), Owner::Shared { initial_shared_version: 1 }),
            ((o1, 2, ObjectDigest([3; 32])), Owner::ObjectOwner(o2)),
            ((o1, 2, ObjectDigest([3; 32])), Owner::Immutable),
        ],
        Vec::new(),
        &no_events(),
        events_digest(0),
        no_changes(),
        &digest(1),
        77,
    );
    assert_eq!(sequence, 0);
    assert_eq!(store.get_transactions_by_input_object(o1, None, None, false), vec![digest(1)]);
    assert_eq!(store.get_transactions_by_input_object(o2, None, None, false), vec![digest(1)]);
    assert_eq!(store.get_transactions_by_input_object(o3, None, None, false), Vec::new());
    assert_eq!(store.get_transactions_by_mutated_object(o3, None, None, false), vec![digest(1)]);
    assert_eq!(store.get_transactions_by_mutated_object(o1, None, None, true), vec![digest(1)]);
    // Only the object that an address owns names a recipient.
    assert_eq!(store.get_transactions_to_addr(recipient, None, None, false), vec![digest(1)]);
    assert_eq!(store.get_transactions_to_addr(SuiAddress(o2.0), None, None, false), Vec::new());
    assert_eq!(store.get_timestamp_ms(&digest(1)), Some(77));
    assert_eq!(store.get_timestamp_ms(&digest(2)), None);
    assert_eq!(
        store.get_transactions(Some(TransactionFilter::InputObject(o2)), None, None, false),
        Ok(vec![digest(1)])
    );
    assert_eq!(
        store.get_transactions(Some(TransactionFilter::ChangedObject(o3)), None, None, false),
        Ok(vec![digest(1)])
    );
    assert_eq!(
        store.get_transactions(Some(TransactionFilter::ToAddress(recipient)), None, None, false),
        Ok(vec![digest(1)])
    );
}

fn index_call(store: &mut IndexStore, tx: TransactionDigest, package: ObjectID, module: &str, function: &str) {
    assert!(store.can_allocate());
    store.index_tx(
        address(1),
        Vec::new(),
        Vec::new(),
        vec![(package, module.to_string(), function.to_string())],
        &no_events(),
        events_digest(0),
        no_changes(),
        &tx,
        0,
    );
}

#[test]
fn move_function_scans_match_the_names_given() {
    let mut store = empty_store();
    let (p, q) = (object(1), object(2));
    index_call(&mut store, digest(1), p, "bank", "deposit");
    index_call(&mut store, digest(2), p, "bank", "withdraw");
    index_call(&mut store, digest(3), p, "shop", "buy");
    index_call(&mut store, digest(4), q, "bank", "deposit");
    index_call(&mut store, digest(5), p, "bank", "deposit");
    let bank = Some("bank".to_string());
    let deposit = Some("deposit".to_string());
    assert_eq!(
        store.get_transactions_by_move_function(p, bank.clone(), deposit.clone(), None, None, false),
        vec![digest(1), digest(5)]
    );
    assert_eq!(
        store.get_transactions_by_move_function(p, bank.clone(), deposit.clone(), None, None, true),
        vec![digest(5), digest(1)]
    );
    assert_eq!(
        store.get_transactions_by_move_function(p, bank.clone(), deposit.clone(), Some(0), None, false),
        vec![digest(5)]
    );
    assert_eq!(
        store.get_transactions_by_move_function(p, bank.clone(), deposit.clone(), Some(4), None, true),
        vec![digest(1)]
    );
    // A module without a function: every call into the module, ordered by
    // function name and then by sequence number.
    assert_eq!(
        store.get_transactions_by_move_function(p, bank.clone(), None, None, None, false),
        vec![digest(1), digest(5), digest(2)]
    );
    // The package alone.
    assert_eq!(
        store.get_transactions_by_move_function(p, None, None, None, None, false),
        vec![digest(1), digest(5), digest(2), digest(3)]
    );
    assert_eq!(
        store.get_transactions_by_move_function(p, None, None, None, Some(2), false),
        vec![digest(1), digest(5)]
    );
    // In reverse the page is the forward page read backwards, whichever
    // names are given.
    assert_eq!(
        store.get_transactions_by_move_function(p, None, None, None, None, true),
        vec![digest(3), digest(2), digest(5), digest(1)]
    );
    assert_eq!(
        store.get_transactions_by_move_function(p, bank.clone(), None, None, None, true),
        vec![digest(2), digest(5), digest(1)]
    );
    assert_eq!(
        store.get_transactions_by_move_function(p, None, None, None, Some(1), true),
        vec![digest(3)]
    );
    // With a name left out the cursor still leaves out its own transaction:
    // the page holds the calls of later transactions, in the order of the
    // index, or in reverse those of earlier ones.
    assert_eq!(
        store.get_transactions_by_move_function(p, None, None, Some(1), None, false),
        vec![digest(5), digest(3)]
    );
    assert_eq!(
        store.get_transactions_by_move_function(p, None, None, Some(0), None, false),
        vec![digest(5), digest(2), digest(3)]
    );
    assert_eq!(
        store.get_transactions_by_move_function(p, None, None, Some(2), None, true),
        vec![digest(2), digest(1)]
    );
    assert_eq!(
        store.get_transactions_by_move_function(p, None, deposit.clone(), None, None, true),
        vec![digest(5), digest(1)]
    );
    assert_eq!(
        store.get_transactions_by_move_function(object(9), None, None, None, None, true),
        Vec::new()
    );
    assert_eq!(
        store.get_transactions(
            Some(TransactionFilter::MoveFunction {
                package: q,
                module: bank.clone(),
                function: deposit.clone()
            }),
            None,
            None,
            false
        ),
        Ok(vec![digest(4)])
    );
}

#[test]
fn events_enter_all_five_views() {
    let mut store = empty_store();
    let package = object(3);
    let (alice, bob) = (address(1), address(2));
    let events = TransactionEvents {
        data: vec![
            event(package, "market", alice, "Listed"),
            event(package, "market", bob, "Sold"),
            event(package, "vault", alice, "Listed"),
        ],
    };
    index_plain(&mut store, alice, digest(1), 5);
    let sequence = index_events(&mut store, digest(2), &events, 40);
    assert_eq!(sequence, 1);
    let record = |i: usize| (events_digest(7), digest(2), i, 40u64);

    assert_eq!(store.all_events(0, 0, 10, false), vec![record(0), record(1), record(2)]);
    assert_eq!(
        store.events_by_transaction(&digest(2), u64::MAX, usize::MAX, 10, true),
        Ok(vec![record(2), record(1), record(0)])
    );
    let market = ModuleId { address: package, name: "market".to_string() };
    let vault = ModuleId { address: package, name: "vault".to_string() };
    assert_eq!(store.events_by_module_id(&market, 0, 0, 10, false), vec![record(0), record(1)]);
    assert_eq!(store.events_by_module_id(&vault, 0, 0, 10, false), vec![record(2)]);
    assert_eq!(
        store.events_by_move_event_struct_name(&struct_tag("Listed"), 0, 0, 10, false),
        vec![record(0), record(2)]
    );
    assert_eq!(
        store.events_by_move_event_struct_name(&struct_tag("Sold"), 0, 0, 10, false),
        vec![record(1)]
    );
    assert_eq!(store.events_by_sender(&alice, 0, 0, 10, false), vec![record(0), record(2)]);
    assert_eq!(store.events_by_sender(&bob, 0, 0, 10, false), vec![record(1)]);
    assert_eq!(
        store.event_iterator(0, 100, 0, 0, 10, false),
        vec![record(0), record(1), record(2)]
    );
    // From the greatest cursor downwards every query returns its events,
    // last to first.
    let top = (u64::MAX, usize::MAX);
    assert_eq!(
        store.all_events(top.0, top.1, 3, true),
        vec![record(2), record(1), record(0)]
    );
    assert_eq!(
        store.events_by_module_id(&market, top.0, top.1, 10, true),
        vec![record(1), record(0)]
    );
    assert_eq!(
        store.events_by_move_event_struct_name(&struct_tag("Listed"), top.0, top.1, 10, true),
        vec![record(2), record(0)]
    );
    assert_eq!(store.events_by_sender(&alice, top.0, top.1, 10, true), vec![record(2), record(0)]);
    assert_eq!(store.events_by_sender(&bob, top.0, top.1, 10, true), vec![record(1)]);
    assert_eq!(store.events_by_sender(&address(9), top.0, top.1, 10, true), Vec::new());
    // A fresh store holds none of them.
    assert_eq!(empty_store().all_events(0, 0, 10, false), Vec::new());
}

#[test]
fn event_queries_start_at_the_bound_and_respect_the_limit() {
    let mut store = empty_store();
    let package = object(3);
    let alice = address(1);
    let events = TransactionEvents {
        data: vec![
            event(package, "market", alice, "Listed"),
            event(package, "market", alice, "Listed"),
            event(package, "market", alice, "Listed"),
        ],
    };
    index_events(&mut store, digest(1), &events, 10);
    index_events(&mut store, digest(2), &events, 20);
    let rec = |tx: u8, i: usize, time: u64| (events_digest(7), digest(tx), i, time);

    // The cursor is exclusive of the event that it names.
    assert_eq!(store.all_events(0, 1, 2, false), vec![rec(1, 2, 10), rec(2, 0, 20)]);
    assert_eq!(store.all_events(1, 1, 10, true), vec![
        rec(2, 0, 20),
        rec(1, 2, 10),
        rec(1, 1, 10),
        rec(1, 0, 10)
    ]);
    assert_eq!(store.all_events(0, 0, 1, false), vec![rec(1, 1, 10)]);
    assert_eq!(store.all_events(0, 0, 1, true), Vec::new());
    // A cursor that names no event leaves out nothing.
    assert_eq!(store.all_events(0, 7, 1, false), vec![rec(2, 0, 20)]);
    assert_eq!(store.all_events(0, 7, 1, true), vec![rec(1, 2, 10)]);
    assert_eq!(store.all_events(0, 1, 0, false), Vec::new());
    assert_eq!(store.all_events(7, 0, 10, false), Vec::new());
    assert_eq!(store.all_events(u64::MAX, usize::MAX, 10, true).len(), 6);
    assert_eq!(store.events_by_sender(&alice, 1, 1, 10, false), vec![rec(2, 2, 20)]);
    assert_eq!(store.events_by_sender(&alice, 0, 1, 10, true), vec![rec(1, 0, 10)]);
    assert_eq!(store.events_by_sender(&alice, 0, 9, 10, true), vec![
        rec(1, 2, 10),
        rec(1, 1, 10),
        rec(1, 0, 10)
    ]);
}

#[test]
fn events_of_a_transaction_stay_within_it() {
    let mut store = empty_store();
    let package = object(3);
    let alice = address(1);
    let events = TransactionEvents {
        data: vec![
            event(package, "market", alice, "Listed"),
            event(package, "market", alice, "Sold"),
        ],
    };
    index_events(&mut store, digest(1), &events, 10);
    index_events(&mut store, digest(2), &events, 20);
    index_events(&mut store, digest(3), &events, 30);
    let rec = |i: usize| (events_digest(7), digest(2), i, 20u64);
    // A bound before the transaction is raised to it; the event that the
    // cursor then names is left out.
    assert_eq!(store.events_by_transaction(&digest(2), 0, 0, 10, false), Ok(vec![rec(1)]));
    // A bound after it leaves nothing, forward.
    assert_eq!(store.events_by_transaction(&digest(2), 2, 0, 10, false), Ok(Vec::new()));
    // In reverse a bound after the transaction is lowered to it.
    assert_eq!(store.events_by_transaction(&digest(2), 9, 5, 10, true), Ok(vec![rec(1), rec(0)]));
    assert_eq!(store.events_by_transaction(&digest(2), 1, 1, 10, true), Ok(vec![rec(0)]));
    assert_eq!(store.events_by_transaction(&digest(2), 1, 0, 10, true), Ok(Vec::new()));
    assert_eq!(store.events_by_transaction(&digest(2), 1, 5, 1, true), Ok(vec![rec(1)]));
    assert_eq!(
        store.events_by_transaction(&digest(9), 0, 0, 10, false),
        Err(IndexError::TransactionNotFound { digest: digest(9) })
    );
}

#[test]
fn time_range_query_returns_the_events_in_range() {
    let mut store = empty_store();
    let one = TransactionEvents { data: vec![event(object(3), "market", address(1), "Listed")] };
    index_events(&mut store, digest(1), &one, 10);
    index_events(&mut store, digest(2), &one, 20);
    index_events(&mut store, digest(3), &one, 30);
    let at_20 = (events_digest(7), digest(2), 0usize, 20u64);
    assert_eq!(store.event_iterator(15, 25, 0, 0, 10, false), vec![at_20]);
    assert_eq!(store.event_iterator(15, 25, u64::MAX, usize::MAX, 10, true), vec![at_20]);
    assert_eq!(store.event_iterator(10, 30, 0, 1, 10, false).len(), 2);
    // The event that the cursor names is left out.
    assert_eq!(store.event_iterator(10, 30, 0, 0, 10, false).len(), 2);
    assert_eq!(store.event_iterator(9, 30, 0, 0, 10, false).len(), 3);
    assert_eq!(store.event_iterator(10, 30, u64::MAX, usize::MAX, 2, true), vec![
        (events_digest(7), digest(3), 0, 30),
        at_20
    ]);
    assert_eq!(store.event_iterator(31, 40, 0, 0, 10, false), Vec::new());
}

#[test]
fn genesis_objects_enter_the_owner_index_only() {
    let mut store = empty_store();
    let (a, o) = (address(1), object(5));
    let info = coin(o, a, "0x2::usd::USD");
    let key = (a.0, "0x2::usd::USD".to_string());
    store.caches.per_coin_type_balance.insert(
        key.clone(),
        Ok(TotalBalance { balance: 100, num_coins: 1 }),
    );
    store.caches.all_balances.insert(a.0, Err(IndexError::TypeDerivation));
    store.insert_genesis_objects(ObjectIndexChanges {
        deleted_owners: Vec::new(),
        deleted_dynamic_fields: Vec::new(),
        new_owners: vec![((a, o), info.clone())],
        new_dynamic_fields: Vec::new(),
    });
    assert!(!store.is_empty());
    assert_eq!(store.get_owner_objects(a, None, 10, None), vec![&info]);
    assert_eq!(store.get_owner_objects_iterator(a, ObjectID::zero(), None), vec![&info]);
    // No sequence number was allocated and no transaction indexed.
    assert_eq!(store.next_sequence_number(), 0);
    assert_eq!(store.get_transactions(None, None, None, false), Ok(Vec::new()));
    // The caches keep their entries.
    assert_eq!(
        store.caches.per_coin_type_balance.get(&key),
        Some(Ok(TotalBalance { balance: 100, num_coins: 1 }))
    );
    assert!(store.caches.all_balances.contains_key(&a.0));
}

#[test]
fn transfer_moves_the_object_and_discards_cached_balances() {
    let mut store = empty_store();
    let (a, b, c) = (address(1), address(2), address(3));
    let o = object(5);
    let usd = "0x2::usd::USD";
    store.insert_genesis_objects(ObjectIndexChanges {
        deleted_owners: Vec::new(),
        deleted_dynamic_fields: Vec::new(),
        new_owners: vec![((a, o), coin(o, a, usd))],
        new_dynamic_fields: Vec::new(),
    });
    let balance = Ok(TotalBalance { balance: 100, num_coins: 1 });
    for owner in [a, b, c] {
        store.caches.per_coin_type_balance.insert((owner.0, usd.to_string()), balance.clone());
        store.caches.per_coin_type_balance.insert((owner.0, GAS_TYPE.to_string()), balance.clone());
        store.caches.all_balances.insert(owner.0, Err(IndexError::TypeDerivation));
    }
    let moved = coin(o, b, usd);
    index_changes(
        &mut store,
        digest(1),
        ObjectIndexChanges {
            deleted_owners: vec![(a, o)],
            deleted_dynamic_fields: Vec::new(),
            new_owners: vec![((b, o), moved.clone())],
            new_dynamic_fields: Vec::new(),
        },
    );
    assert_eq!(store.get_owner_objects(a, None, 10, None), Vec::<&ObjectInfo>::new());
    assert_eq!(store.get_owner_objects(b, None, 10, None), vec![&moved]);
    let coins = &store.caches.per_coin_type_balance;
    assert!(!coins.contains_key(&(a.0, usd.to_string())));
    assert!(!coins.contains_key(&(b.0, usd.to_string())));
    assert!(!store.caches.all_balances.contains_key(&a.0));
    assert!(!store.caches.all_balances.contains_key(&b.0));
    // Entries of other coin types and of other addresses stay.
    assert!(coins.contains_key(&(a.0, GAS_TYPE.to_string())));
    assert!(coins.contains_key(&(b.0, GAS_TYPE.to_string())));
    assert!(coins.contains_key(&(c.0, usd.to_string())));
    assert!(store.caches.all_balances.contains_key(&c.0));
}

#[test]
fn delete_and_insert_of_one_key_leaves_the_new_row() {
    let mut store = empty_store();
    let (a, o) = (address(1), object(5));
    store.insert_genesis_objects(ObjectIndexChanges {
        deleted_owners: Vec::new(),
        deleted_dynamic_fields: Vec::new(),
        new_owners: vec![((a, o), coin(o, a, "0x2::usd::USD"))],
        new_dynamic_fields: Vec::new(),
    });
    let mut newer = coin(o, a, "0x2::usd::USD");
    newer.version = 2;
    index_changes(
        &mut store,
        digest(1),
        ObjectIndexChanges {
            deleted_owners: vec![(a, o)],
            deleted_dynamic_fields: Vec::new(),
            new_owners: vec![((a, o), newer.clone())],
            new_dynamic_fields: Vec::new(),
        },
    );
    assert_eq!(store.get_owner_objects(a, None, 10, None), vec![&newer]);
}

#[test]
fn coin_type_falls_back_to_the_native_coin() {
    assert_eq!(coin_type_of(&ObjectType::Package), Err(IndexError::TypeDerivation));
    assert_eq!(
        coin_type_of(&ObjectType::Struct(MoveObjectType::Coin(type_tag("0x2::usd::USD")))),
        Ok(type_tag("0x2::usd::USD"))
    );
    assert_eq!(coin_type_of(&ObjectType::Struct(MoveObjectType::GasCoin)), Ok(type_tag(GAS_TYPE)));
    assert_eq!(coin_type_of(&ObjectType::Struct(MoveObjectType::StakedSui)), Ok(type_tag(GAS_TYPE)));
    assert_eq!(
        coin_type_of(&ObjectType::Struct(MoveObjectType::Other(struct_tag("Plain")))),
        Ok(type_tag(GAS_TYPE))
    );
    let mut generic = struct_tag("Box");
    generic.type_params = vec![type_tag("u64"), type_tag("bool")];
    assert_eq!(coin_type_of(&ObjectType::Struct(MoveObjectType::Other(generic))), Ok(type_tag("u64")));
    assert_eq!(TypeTag::gas(), type_tag("0x2::sui::SUI"));
}

#[test]
fn package_and_native_coin_invalidations() {
    let mut store = empty_store();
    let (a, b) = (address(1), address(2));
    let (package, gas) = (object(5), object(6));
    let balance = Ok(TotalBalance { balance: 1, num_coins: 1 });
    for owner in [a, b] {
        store.caches.per_coin_type_balance.insert((owner.0, GAS_TYPE.to_string()), balance.clone());
        store.caches.all_balances.insert(owner.0, Err(IndexError::TypeDerivation));
    }
    let package_info = ObjectInfo {
        object_id: package,
        version: 1,
        digest: ObjectDigest([0; 32]),
        type_: ObjectType::Package,
        owner: Owner::Immutable,
        previous_transaction: digest(0),
    };
    // A package gives no coin type: only the balances of all types go.
    index_changes(
        &mut store,
        digest(1),
        ObjectIndexChanges {
            deleted_owners: Vec::new(),
            deleted_dynamic_fields: Vec::new(),
            new_owners: vec![((a, package), package_info)],
            new_dynamic_fields: Vec::new(),
        },
    );
    assert!(store.caches.per_coin_type_balance.contains_key(&(a.0, GAS_TYPE.to_string())));
    assert!(!store.caches.all_balances.contains_key(&a.0));
    assert!(store.caches.all_balances.contains_key(&b.0));
    // A native coin is cached under the native coin's type.
    let mut gas_info = coin(gas, b, "unused");
    gas_info.type_ = ObjectType::Struct(MoveObjectType::GasCoin);
    index_changes(
        &mut store,
        digest(2),
        ObjectIndexChanges {
            deleted_owners: Vec::new(),
            deleted_dynamic_fields: Vec::new(),
            new_owners: vec![((b, gas), gas_info)],
            new_dynamic_fields: Vec::new(),
        },
    );
    assert!(!store.caches.per_coin_type_balance.contains_key(&(b.0, GAS_TYPE.to_string())));
    assert!(!store.caches.all_balances.contains_key(&b.0));
    // Deleting a key that the index does not hold discards no balance by
    // coin type.
    index_changes(
        &mut store,
        digest(3),
        ObjectIndexChanges {
            deleted_owners: vec![(a, object(9))],
            deleted_dynamic_fields: Vec::new(),
            new_owners: Vec::new(),
            new_dynamic_fields: Vec::new(),
        },
    );
    assert!(store.caches.per_coin_type_balance.contains_key(&(a.0, GAS_TYPE.to_string())));
}

#[test]
fn new_caches_hold_nothing() {
    let caches = IndexStoreCaches::new();
    assert!(!caches.per_coin_type_balance.contains_key(&([1; 32], GAS_TYPE.to_string())));
    assert!(!caches.all_balances.contains_key(&[1; 32]));
    assert_eq!(caches.per_coin_type_balance.iter().count(), 0);
    assert_eq!(caches.all_balances.iter().count(), 0);
}

fn owned(store: &mut IndexStore, owner: SuiAddress, ids: &[u8]) -> Vec<ObjectInfo> {
    let infos: Vec<ObjectInfo> = ids.iter().map(|i| coin(object(*i), owner, "0x2::usd::USD")).collect();
    store.insert_genesis_objects(ObjectIndexChanges {
        deleted_owners: Vec::new(),
        deleted_dynamic_fields: Vec::new(),
        new_owners: infos.iter().map(|info| ((owner, info.object_id), info.clone())).collect(),
        new_dynamic_fields: Vec::new(),
    });
    infos
}

#[test]
fn owner_objects_page_by_object_id() {
    let mut store = empty_store();
    let (a, b) = (address(1), address(2));
    let mine = owned(&mut store, a, &[4, 2, 8, 6]);
    let theirs = owned(&mut store, b, &[1, 9]);
    let by_id = |i: u8| mine.iter().find(|info| info.object_id == object(i)).unwrap();
    assert_eq!(
        store.get_owner_objects(a, None, 10, None),
        vec![by_id(2), by_id(4), by_id(6), by_id(8)]
    );
    assert_eq!(store.get_owner_objects(a, None, 2, None), vec![by_id(2), by_id(4)]);
    assert_eq!(store.get_owner_objects(a, None, 0, None), Vec::<&ObjectInfo>::new());
    // The cursor is exclusive.
    assert_eq!(store.get_owner_objects(a, Some(object(4)), 10, None), vec![by_id(6), by_id(8)]);
    // A cursor that names no object of the owner loses none.
    assert_eq!(store.get_owner_objects(a, Some(object(5)), 10, None), vec![by_id(6), by_id(8)]);
    assert_eq!(store.get_owner_objects_iterator(a, object(1), None).len(), 4);
    assert_eq!(store.get_owner_objects_iterator(a, object(9), None).len(), 0);
    // The zero identifier stands for the beginning.
    assert_eq!(store.get_owner_objects(a, Some(ObjectID::zero()), 1, None), vec![by_id(2)]);
    assert_eq!(
        store.get_owner_objects_iterator(a, object(6), None),
        vec![by_id(8)]
    );
    assert_eq!(store.get_owner_objects(b, None, 10, None), vec![&theirs[0], &theirs[1]]);
    assert_eq!(store.get_owner_objects(address(3), None, 10, None), Vec::<&ObjectInfo>::new());
}

#[test]
fn owner_objects_pass_the_filter() {
    let mut store = empty_store();
    let a = address(1);
    let mut first = coin(object(1), a, "0x2::usd::USD");
    first.version = 3;
    let mut second = coin(object(2), a, "0x2::usd::USD");
    second.owner = Owner::ObjectOwner(object(7));
    let third = coin(object(3), a, "0x2::usd::USD");
    store.insert_genesis_objects(ObjectIndexChanges {
        deleted_owners: Vec::new(),
        deleted_dynamic_fields: Vec::new(),
        new_owners: vec![
            ((a, object(1)), first.clone()),
            ((a, object(2)), second.clone()),
            ((a, object(3)), third.clone()),
        ],
        new_dynamic_fields: Vec::new(),
    });
    let version_1 = Some(SuiObjectDataFilter::Version(1));
    assert_eq!(store.get_owner_objects(a, None, 10, version_1), vec![&second, &third]);
    assert_eq!(store.get_owner_objects(a, None, 1, version_1), vec![&second]);
    assert_eq!(
        store.get_owner_objects(a, None, 10, Some(SuiObjectDataFilter::ObjectId(object(3)))),
        vec![&third]
    );
    assert_eq!(
        store.get_owner_objects(a, None, 10, Some(SuiObjectDataFilter::AddressOwner(a))),
        vec![&first, &third]
    );
    assert_eq!(
        store.get_owner_objects(a, None, 10, Some(SuiObjectDataFilter::ObjectOwner(object(7)))),
        vec![&second]
    );
    assert_eq!(
        store.get_owner_objects_iterator(a, object(1), Some(SuiObjectDataFilter::Version(3))),
        Vec::<&ObjectInfo>::new()
    );
}

#[test]
fn owner_coins_are_told_by_type() {
    let mut store = empty_store();
    let a = address(1);
    let usd = coin(object(1), a, "0x2::usd::USD");
    let eur = coin(object(2), a, "0x2::eur::EUR");
    let mut gas = coin(object(3), a, "unused");
    gas.type_ = ObjectType::Struct(MoveObjectType::GasCoin);
    let mut other = coin(object(4), a, "unused");
    other.type_ = ObjectType::Struct(MoveObjectType::Other(struct_tag("Ticket")));
    store.insert_genesis_objects(ObjectIndexChanges {
        deleted_owners: Vec::new(),
        deleted_dynamic_fields: Vec::new(),
        new_owners: vec![
            ((a, object(1)), usd.clone()),
            ((a, object(2)), eur.clone()),
            ((a, object(3)), gas.clone()),
            ((a, object(4)), other),
        ],
        new_dynamic_fields: Vec::new(),
    });
    let reference = |info: &ObjectInfo| (info.object_id, info.version, info.digest);
    assert_eq!(
        store.get_owner_coin_iterator(a, None),
        vec![reference(&usd), reference(&eur), reference(&gas)]
    );
    assert_eq!(
        store.get_owner_coin_iterator(a, Some(&type_tag("0x2::eur::EUR"))),
        vec![reference(&eur)]
    );
    assert_eq!(store.get_owner_coin_iterator(a, Some(&TypeTag::gas())), vec![reference(&gas)]);
    assert_eq!(store.get_owner_coin_iterator(address(2), None), Vec::new());
}

fn field(parent_field: u8, name_type: &str, value: &str) -> DynamicFieldInfo {
    DynamicFieldInfo {
        name: DynamicFieldName { type_: type_tag(name_type), value: value.to_string() },
        type_: DynamicFieldType::DynamicField,
        object_type: "u64".to_string(),
        object_id: object(parent_field),
        version: 1,
        digest: ObjectDigest([0; 32]),
    }
}

#[test]
fn dynamic_fields_are_listed_and_found_by_name() {
    let mut store = empty_store();
    let (parent, other) = (object(1), object(2));
    let fields = vec![field(10, "u64", "1"), field(11, "u64", "2"), field(12, "address", "2")];
    store.insert_genesis_objects(ObjectIndexChanges {
        deleted_owners: Vec::new(),
        deleted_dynamic_fields: Vec::new(),
        new_owners: Vec::new(),
        new_dynamic_fields: vec![
            ((parent, object(11)), fields[1].clone()),
            ((parent, object(10)), fields[0].clone()),
            ((other, object(12)), fields[2].clone()),
        ],
    });
    assert_eq!(store.get_dynamic_fields_iterator(parent, None), vec![&fields[0], &fields[1]]);
    assert_eq!(store.get_dynamic_fields_iterator(parent, Some(object(10))), vec![&fields[1]]);
    // A cursor that names no field of the parent loses none.
    assert_eq!(
        store.get_dynamic_fields_iterator(parent, Some(object(9))),
        vec![&fields[0], &fields[1]]
    );
    assert_eq!(store.get_dynamic_fields_iterator(other, None), vec![&fields[2]]);
    assert_eq!(
        store.get_dynamic_field_object_id(
            parent,
            &DynamicFieldName { type_: type_tag("u64"), value: "2".to_string() }
        ),
        Some(object(11))
    );
    // The same value under another type is another name, and the fields of
    // another parent are not looked at.
    assert_eq!(
        store.get_dynamic_field_object_id(
            parent,
            &DynamicFieldName { type_: type_tag("address"), value: "2".to_string() }
        ),
        None
    );
    // Deleting a field takes it out of the listing.
    index_changes(
        &mut store,
        digest(1),
        ObjectIndexChanges {
            deleted_owners: Vec::new(),
            deleted_dynamic_fields: vec![(parent, object(10))],
            new_owners: Vec::new(),
            new_dynamic_fields: Vec::new(),
        },
    );
    assert_eq!(store.get_dynamic_fields_iterator(parent, None), vec![&fields[1]]);
}

#[test]
fn store_over_recovered_tables_continues_the_sequence() {
    let mut tables = IndexStoreTables::new();
    tables.transaction_order.insert(0, digest(1));
    tables.transaction_order.insert(41, digest(2));
    tables.transactions_seq.insert(digest(1), 0);
    tables.transactions_seq.insert(digest(2), 41);
    let mut store = IndexStore::new(tables);
    assert_eq!(store.next_sequence_number(), 42);
    assert_eq!(index_plain(&mut store, address(1), digest(3), 0), 42);
    assert_eq!(
        store.get_transactions(None, Some(digest(1)), None, false),
        Ok(vec![digest(2), digest(3)])
    );
}

#[test]
fn balance_defaults_to_nothing() {
    assert_eq!(TotalBalance::default(), TotalBalance { balance: 0, num_coins: 0 });
}

#[test]
fn test_serde_roundtrip() {}

#[test]
fn test_open_id_authenticator_address() {}
