use index_store::batch::stage_tx;
use index_store::ids::{
    ObjectDigest, ObjectID, SuiAddress, TransactionDigest, TransactionEventsDigest,
};
use index_store::keys::{compare_bytes, KeyOrder, TableKey};
use index_store::lex::compare_slices;
use index_store::queries::{start_of, CallFilter};
use index_store::scan::{collect_values, locate, Everything, HeadAtLeast, HeadAtMost, HeadIs, RowFilter, Span};
use index_store::table::Table;
use index_store::tables::IndexStoreTables;
use index_store::types::{
    Event, ModuleId, MoveObjectType, ObjectIndexChanges, ObjectInfo, ObjectType, Owner, StructTag,
    SuiObjectDataFilter, TypeTag, MAX_GET_OWNED_OBJECT_SIZE, MAX_TX_RANGE_SIZE,
};

fn tag(text: &str) -> TypeTag {
    TypeTag { canonical: text.to_string() }
}

fn struct_tag(address: u8, module: &str, name: &str, params: &[&str]) -> StructTag {
    StructTag {
        address: ObjectID([address; 32]),
        module: module.to_string(),
        name: name.to_string(),
        type_params: params.iter().map(|p| tag(p)).collect(),
    }
}

#[test]
fn byte_strings_compare_lexicographically() {
    assert_eq!(compare_bytes(b"", b""), KeyOrder::Equal);
    assert_eq!(compare_bytes(b"", b"a"), KeyOrder::Less);
    assert_eq!(compare_bytes(b"a", b""), KeyOrder::Greater);
    assert_eq!(compare_bytes(b"abc", b"abd"), KeyOrder::Less);
    assert_eq!(compare_bytes(b"abd", b"abc"), KeyOrder::Greater);
    assert_eq!(compare_bytes(b"ab", b"abc"), KeyOrder::Less);
    assert_eq!(compare_bytes(b"b", b"abc"), KeyOrder::Greater);
    assert_eq!(compare_bytes(&[0, 255], &[1, 0]), KeyOrder::Less);
    assert_eq!(compare_slices(&[1u64, 2, 3], &[1u64, 2, 3]), KeyOrder::Equal);
    assert_eq!(compare_slices(&[1u64, 9], &[2u64]), KeyOrder::Less);
}

#[test]
fn keys_compare_component_by_component() {
    assert_eq!(3u64.compare(&3), KeyOrder::Equal);
    assert_eq!(3u64.compare(&4), KeyOrder::Less);
    assert_eq!(7usize.compare(&4), KeyOrder::Greater);
    assert_eq!("bank".to_string().compare(&"bank".to_string()), KeyOrder::Equal);
    assert_eq!("bank".to_string().compare(&"banks".to_string()), KeyOrder::Less);
    assert_eq!("shop".to_string().compare(&"bank".to_string()), KeyOrder::Greater);
    assert_eq!((1u64, 9u64).compare(&(2, 0)), KeyOrder::Less);
    assert_eq!((2u64, 1u64).compare(&(2, 0)), KeyOrder::Greater);
    assert_eq!((2u64, (1u64, 5usize)).compare(&(2, (1, 5))), KeyOrder::Equal);
    let (low, high) = (SuiAddress([1; 32]), SuiAddress([2; 32]));
    assert_eq!(low.compare(&high), KeyOrder::Less);
    assert_eq!(high.compare(&low), KeyOrder::Greater);
    assert_eq!(low.compare(&SuiAddress([1; 32])), KeyOrder::Equal);
    let mut mixed = [1u8; 32];
    mixed[31] = 0;
    assert_eq!(ObjectID(mixed).compare(&ObjectID([1; 32])), KeyOrder::Less);
    assert_eq!(TransactionDigest([3; 32]).compare(&TransactionDigest([3; 32])), KeyOrder::Equal);
    assert_eq!(tag("u64").compare(&tag("u8")), KeyOrder::Less);
}

#[test]
fn modules_and_struct_types_are_ordered() {
    let market = ModuleId::new(ObjectID([1; 32]), "market".to_string());
    let vault = ModuleId::new(ObjectID([1; 32]), "vault".to_string());
    let other = ModuleId::new(ObjectID([2; 32]), "a".to_string());
    assert_eq!(market.compare(&vault), KeyOrder::Less);
    assert_eq!(vault.compare(&other), KeyOrder::Less);
    assert_eq!(market.compare(&market.duplicate()), KeyOrder::Equal);
    assert_eq!(market.duplicate(), market);

    let plain = struct_tag(1, "coin", "Coin", &[]);
    let of_usd = struct_tag(1, "coin", "Coin", &["usd"]);
    let of_usd_eur = struct_tag(1, "coin", "Coin", &["usd", "eur"]);
    let of_eur = struct_tag(1, "coin", "Coin", &["eur"]);
    assert_eq!(plain.compare(&of_usd), KeyOrder::Less);
    assert_eq!(of_usd.compare(&of_usd_eur), KeyOrder::Less);
    assert_eq!(of_eur.compare(&of_usd), KeyOrder::Less);
    assert_eq!(of_usd.compare(&struct_tag(1, "coin", "Dime", &[])), KeyOrder::Less);
    assert_eq!(of_usd.compare(&struct_tag(1, "bank", "Coin", &["usd"])), KeyOrder::Greater);
    assert_eq!(of_usd.compare(&struct_tag(0, "zoo", "Zebra", &[])), KeyOrder::Greater);
    assert_eq!(of_usd_eur.duplicate(), of_usd_eur);
    assert_eq!(of_usd_eur.compare(&of_usd_eur.duplicate()), KeyOrder::Equal);
    assert_eq!(vec![tag("a"), tag("b")].duplicate(), vec![tag("a"), tag("b")]);
    assert_eq!("name".to_string().duplicate(), "name");
}

#[test]
fn zero_identifier_is_told_apart() {
    assert!(ObjectID::zero().is_zero());
    assert_eq!(ObjectID::zero(), ObjectID([0; 32]));
    let mut bytes = [0u8; 32];
    bytes[31] = 1;
    assert!(!ObjectID(bytes).is_zero());
    assert!(!ObjectID([7; 32]).is_zero());
    assert_eq!(ObjectID::zero().compare(&ObjectID(bytes)), KeyOrder::Less);
}

#[test]
fn table_keeps_rows_sorted_and_unique() {
    let mut table: Table<u64, &str> = Table::new();
    assert!(table.is_empty());
    assert_eq!(table.len(), 0);
    assert_eq!(table.get(&1), None);
    table.insert(5, "five");
    table.insert(1, "one");
    table.insert(9, "nine");
    table.insert(5, "FIVE");
    assert!(!table.is_empty());
    assert_eq!(table.len(), 3);
    assert_eq!(table.get(&5), Some(&"FIVE"));
    assert_eq!(table.get(&4), None);
    assert_eq!((*table.key_at(0), *table.value_at(0)), (1, "one"));
    assert_eq!((*table.key_at(1), *table.value_at(1)), (5, "FIVE"));
    assert_eq!((*table.key_at(2), *table.value_at(2)), (9, "nine"));
    table.remove(&5);
    table.remove(&7);
    assert_eq!(table.len(), 2);
    assert_eq!(table.get(&5), None);
    assert_eq!(table.get(&9), Some(&"nine"));
}

#[test]
fn table_seeks_to_the_bounds_of_a_key() {
    let mut table: Table<u64, u8> = Table::new();
    for key in [10u64, 20, 30, 40] {
        table.insert(key, 0);
    }
    assert_eq!(table.seek(&0), 0);
    assert_eq!(table.seek(&10), 0);
    assert_eq!(table.seek(&11), 1);
    assert_eq!(table.seek(&40), 3);
    assert_eq!(table.seek(&41), 4);
    assert_eq!(table.seek_prior(&0), 0);
    assert_eq!(table.seek_prior(&10), 1);
    assert_eq!(table.seek_prior(&11), 1);
    assert_eq!(table.seek_prior(&40), 4);
    assert_eq!(table.seek_prior(&u64::MAX), 4);
    let empty: Table<u64, u8> = Table::new();
    assert_eq!(empty.seek(&5), 0);
    assert_eq!(empty.seek_prior(&5), 0);
}

#[test]
fn table_stores_and_deletes_in_bulk() {
    let mut table: Table<(u64, u64), char> = Table::new();
    table.insert_all(vec![((2, 1), 'c'), ((1, 5), 'a'), ((1, 7), 'b'), ((1, 5), 'A')]);
    assert_eq!(table.len(), 3);
    assert_eq!(table.get(&(1, 5)), Some(&'A'));
    table.remove_all(&vec![(1, 7), (3, 3), (1, 7)]);
    assert_eq!(table.len(), 2);
    assert_eq!(table.get(&(1, 7)), None);
    assert_eq!(*table.key_at(1), (2, 1));
}

fn numbered(keys: &[(u64, u64)]) -> Table<(u64, u64), u64> {
    let mut table = Table::new();
    for (head, tail) in keys {
        table.insert((*head, *tail), head * 100 + tail);
    }
    table
}

fn scan<F: RowFilter<(u64, u64)>>(
    table: &Table<(u64, u64), u64>,
    start: (u64, u64),
    skip: bool,
    filter: &F,
    limit: Option<usize>,
    reverse: bool,
) -> Vec<u64> {
    let span = locate(table, &start, skip, filter, limit, reverse);
    collect_values(table, &span)
}

#[test]
fn scans_seek_skip_filter_and_stop() {
    let table = numbered(&[(1, 1), (1, 4), (2, 0), (2, 3), (2, 8), (3, 2)]);
    let two = 2u64;
    let head = HeadIs(&two);
    assert_eq!(scan(&table, (2, 0), false, &head, None, false), vec![200, 203, 208]);
    assert_eq!(scan(&table, (2, u64::MAX), false, &head, None, true), vec![208, 203, 200]);
    // Seeking between rows lands on the next one, or in reverse on the
    // one before.
    assert_eq!(scan(&table, (2, 1), false, &head, None, false), vec![203, 208]);
    assert_eq!(scan(&table, (2, 5), false, &head, None, true), vec![203, 200]);
    // An exclusive scan leaves out the row of the key it starts from, and
    // no other row.
    assert_eq!(scan(&table, (2, 3), true, &head, None, false), vec![208]);
    assert_eq!(scan(&table, (2, 3), true, &head, None, true), vec![200]);
    assert_eq!(scan(&table, (2, 1), true, &head, None, false), vec![203, 208]);
    assert_eq!(scan(&table, (2, 5), true, &head, None, true), vec![203, 200]);
    assert_eq!(scan(&table, (2, 8), true, &head, None, false), Vec::<u64>::new());
    assert_eq!(scan(&table, (2, 0), true, &head, None, true), Vec::<u64>::new());
    // The limit.
    assert_eq!(scan(&table, (2, 0), false, &head, Some(2), false), vec![200, 203]);
    assert_eq!(scan(&table, (2, 0), false, &head, Some(0), false), Vec::<u64>::new());
    assert_eq!(scan(&table, (2, 0), false, &head, Some(9), false), vec![200, 203, 208]);
    // The scan ends at the first row that the filter does not admit.
    assert_eq!(scan(&table, (1, 4), false, &head, None, false), Vec::<u64>::new());
    assert_eq!(scan(&table, (1, 4), true, &head, None, false), vec![200, 203, 208]);
    assert_eq!(scan(&table, (0, 0), false, &Everything, None, false).len(), 6);
    assert_eq!(scan(&table, (9, 9), false, &Everything, Some(2), true), vec![302, 208]);
    assert_eq!(scan(&table, (0, 0), false, &Everything, None, true), Vec::<u64>::new());
    assert_eq!(scan(&table, (9, 9), false, &Everything, None, false), Vec::<u64>::new());
    assert_eq!(scan(&table, (1, 0), false, &HeadAtMost(2), None, false), vec![101, 104, 200, 203, 208]);
    assert_eq!(scan(&table, (3, 9), false, &HeadAtLeast(2), None, true), vec![302, 208, 203, 200]);
    assert_eq!(scan(&numbered(&[]), (2, 0), true, &head, None, false), Vec::<u64>::new());
}

#[test]
fn spans_count_up_or_down() {
    let up = Span { first: 3, count: 2, reverse: false };
    assert_eq!((up.at(0), up.at(1)), (3, 4));
    let down = Span { first: 3, count: 4, reverse: true };
    assert_eq!((down.at(0), down.at(3)), (3, 0));
    assert_eq!(start_of(None, false), 0);
    assert_eq!(start_of(None, true), u64::MAX);
    assert_eq!(start_of(Some(7), true), 7);
}

#[test]
fn call_filter_admits_by_the_names_given() {
    let package = ObjectID([1; 32]);
    let key = (package, ("bank".to_string(), ("deposit".to_string(), 3u64)));
    let (bank, shop) = (Some("bank".to_string()), Some("shop".to_string()));
    let (deposit, none) = (Some("deposit".to_string()), None);
    assert!(CallFilter { package: &package, module: &none, function: &none }.test(&key));
    assert!(CallFilter { package: &package, module: &bank, function: &none }.test(&key));
    assert!(CallFilter { package: &package, module: &bank, function: &deposit }.test(&key));
    assert!(CallFilter { package: &package, module: &none, function: &deposit }.test(&key));
    assert!(!CallFilter { package: &package, module: &shop, function: &deposit }.test(&key));
    assert!(!CallFilter { package: &package, module: &bank, function: &shop }.test(&key));
    let other = ObjectID([2; 32]);
    assert!(!CallFilter { package: &other, module: &none, function: &none }.test(&key));
}

fn info(owner: Owner, version: u64, type_: ObjectType) -> ObjectInfo {
    ObjectInfo {
        object_id: ObjectID([4; 32]),
        version,
        digest: ObjectDigest([0; 32]),
        type_,
        owner,
        previous_transaction: TransactionDigest([0; 32]),
    }
}

#[test]
fn object_filters_and_coin_types() {
    let alice = SuiAddress([1; 32]);
    let parent = ObjectID([2; 32]);
    let owned = info(Owner::AddressOwner(alice), 3, ObjectType::Package);
    let child = info(Owner::ObjectOwner(parent), 4, ObjectType::Package);
    assert!(SuiObjectDataFilter::AddressOwner(alice).matches(&owned));
    assert!(!SuiObjectDataFilter::AddressOwner(alice).matches(&child));
    assert!(!SuiObjectDataFilter::AddressOwner(SuiAddress([9; 32])).matches(&owned));
    assert!(SuiObjectDataFilter::ObjectOwner(parent).matches(&child));
    assert!(!SuiObjectDataFilter::ObjectOwner(parent).matches(&owned));
    assert!(SuiObjectDataFilter::ObjectId(ObjectID([4; 32])).matches(&owned));
    assert!(!SuiObjectDataFilter::ObjectId(ObjectID([5; 32])).matches(&owned));
    assert!(SuiObjectDataFilter::Version(3).matches(&owned));
    assert!(!SuiObjectDataFilter::Version(3).matches(&child));

    let gas = ObjectType::Struct(MoveObjectType::GasCoin);
    let usd = ObjectType::Struct(MoveObjectType::Coin(tag("usd")));
    let staked = ObjectType::Struct(MoveObjectType::StakedSui);
    assert!(gas.is_coin() && usd.is_coin());
    assert!(!staked.is_coin() && !ObjectType::Package.is_coin());
    assert!(gas.is_coin_t(&TypeTag::gas()) && !gas.is_coin_t(&tag("usd")));
    assert!(usd.is_coin_t(&tag("usd")) && !usd.is_coin_t(&TypeTag::gas()));
    assert!(!staked.is_coin_t(&TypeTag::gas()));
    assert!(tag("usd").same(&tag("usd")) && !tag("usd").same(&tag("eur")));
}

#[test]
fn staged_batch_holds_one_row_per_change() {
    let sender = SuiAddress([1; 32]);
    let recipient = SuiAddress([2; 32]);
    let (o1, o2) = (ObjectID([3; 32]), ObjectID([4; 32]));
    let digest = TransactionDigest([5; 32]);
    let events_digest = TransactionEventsDigest([6; 32]);
    let events = vec![
        Event {
            package_id: o1,
            transaction_module: "market".to_string(),
            sender,
            type_: struct_tag(3, "market", "Listed", &["usd"]),
            contents: Vec::new(),
        },
        Event {
            package_id: o2,
            transaction_module: "vault".to_string(),
            sender: recipient,
            type_: struct_tag(4, "vault", "Locked", &[]),
            contents: vec![1],
        },
    ];
    let batch = stage_tx(
        12,
        sender,
        vec![o1, o2],
        vec![
            ((o1, 1, ObjectDigest([0; 32])), Owner::AddressOwner(recipient)),
            ((o2, 1, ObjectDigest([0; 32])), Owner::Immutable),
        ],
        vec![(o1, "market".to_string(), "list".to_string())],
        &events,
        events_digest,
        ObjectIndexChanges {
            deleted_owners: vec![(sender, o1)],
            deleted_dynamic_fields: vec![(o1, o2)],
            new_owners: Vec::new(),
            new_dynamic_fields: Vec::new(),
        },
        &digest,
        99,
    );
    let value = (events_digest, digest, 99);
    assert_eq!(batch.transaction_order, vec![(12, digest)]);
    assert_eq!(batch.transactions_seq, vec![(digest, 12)]);
    assert_eq!(batch.transactions_from_addr, vec![((sender, 12), digest)]);
    assert_eq!(batch.transactions_by_input_object_id, vec![((o1, 12), digest), ((o2, 12), digest)]);
    assert_eq!(batch.transactions_by_mutated_object_id, vec![((o1, 12), digest), ((o2, 12), digest)]);
    assert_eq!(batch.transactions_to_addr, vec![((recipient, 12), digest)]);
    assert_eq!(
        batch.transactions_by_move_function,
        vec![((o1, ("market".to_string(), ("list".to_string(), 12))), digest)]
    );
    assert_eq!(batch.timestamps, vec![(digest, 99)]);
    assert_eq!(batch.deleted_owners, vec![(sender, o1)]);
    assert_eq!(batch.deleted_dynamic_fields, vec![(o1, o2)]);
    assert!(batch.new_owners.is_empty() && batch.new_dynamic_fields.is_empty());
    assert_eq!(batch.event_order, vec![((12, 0), value), ((12, 1), value)]);
    assert_eq!(batch.event_by_sender, vec![((sender, (12, 0)), value), ((recipient, (12, 1)), value)]);
    assert_eq!(batch.event_by_time, vec![((99, (12, 0)), value), ((99, (12, 1)), value)]);
    assert_eq!(batch.event_by_move_module[1].0, (ModuleId::new(o2, "vault".to_string()), (12, 1)));
    assert_eq!(batch.event_by_move_event[0].0, (events[0].type_.clone(), (12, 0)));

    let mut tables = IndexStoreTables::new();
    tables.owner_index.insert((sender, o1), info(Owner::AddressOwner(sender), 1, ObjectType::Package));
    tables.commit(batch);
    assert!(tables.owner_index.is_empty());
    assert_eq!(tables.transaction_order.get(&12), Some(&digest));
    assert_eq!(tables.transactions_seq.get(&digest), Some(&12));
    assert_eq!(tables.event_order.len(), 2);
    assert_eq!(tables.event_by_move_module.len(), 2);
    assert_eq!(tables.event_by_move_event.len(), 2);
    assert_eq!(tables.event_by_sender.len(), 2);
    assert_eq!(tables.event_by_time.len(), 2);
    assert_eq!(tables.timestamps.get(&digest), Some(&99));
}

#[test]
fn limits_of_the_query_layer() {
    assert_eq!(MAX_TX_RANGE_SIZE, 4096);
    assert_eq!(MAX_GET_OWNED_OBJECT_SIZE, 256);
}
