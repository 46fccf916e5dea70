use crate::ids::{
    ObjectDigest, ObjectID, SequenceNumber, SuiAddress, TransactionDigest, TransactionEventsDigest,
    TxSequenceNumber,
};
use crate::keys::{lemma_asymmetric, KeyOrder, TableKey};
use vstd::prelude::*;

verus! {

/// The largest number of transactions that one range query may ask for.
pub const MAX_TX_RANGE_SIZE: u64 = 4096;

/// The largest number of owned objects that one query may ask for.
pub const MAX_GET_OWNED_OBJECT_SIZE: usize = 256;

/// Canonical text of the native coin's type.
pub const GAS_TYPE: &'static str = "0x2::sui::SUI";

/// An object named by its identifier, version and digest.
pub type ObjectRef = (ObjectID, SequenceNumber, ObjectDigest);

/// Key of the owner index: an owner and one object it owns.
pub type OwnerIndexKey = (SuiAddress, ObjectID);

/// Key of the dynamic field index: a parent object and one of its fields.
pub type DynamicFieldKey = (ObjectID, ObjectID);

/// An event named by its transaction's sequence number and its position
/// among that transaction's events.
pub type EventId = (TxSequenceNumber, usize);

/// What the event tables store for an event: the digest of the
/// transaction's events, the transaction's digest and its timestamp.
pub type EventIndex = (TransactionEventsDigest, TransactionDigest, u64);

/// One event of a query's answer: the digest of the transaction's events,
/// the transaction's digest, the event's position in the transaction and
/// the timestamp.
pub type EventRecord = (TransactionEventsDigest, TransactionDigest, usize, u64);

/// Why an operation of the index failed.
#[derive(Clone, Debug, PartialEq, Eq)]
pub enum IndexError {
    /// No indexed transaction has this digest.
    TransactionNotFound { digest: TransactionDigest },
    /// The index holds no table for this kind of filter.
    UnsupportedFilter,
    /// A package has no struct type to derive a coin type from.
    TypeDerivation,
}

/// Sum of the coins of one type that an address owns.
#[derive(Default, Copy, Clone, Debug, Eq, PartialEq)]
pub struct TotalBalance {
    pub balance: u128,
    pub num_coins: usize,
}

/// A type, in canonical text form.
#[derive(Clone, Debug, PartialEq, Eq, Hash)]
pub struct TypeTag {
    pub canonical: String,
}

/// A struct type: the address and module that define it, its name, and its
/// type arguments.
#[derive(Clone, Debug, PartialEq, Eq, Hash)]
pub struct StructTag {
    pub address: ObjectID,
    pub module: String,
    pub name: String,
    pub type_params: Vec<TypeTag>,
}

/// A module, named by the package that holds it and its own name.
#[derive(Clone, Debug, PartialEq, Eq, Hash)]
pub struct ModuleId {
    pub address: ObjectID,
    pub name: String,
}

/// The type of a stored object that is not a package.
#[derive(Clone, Debug, PartialEq, Eq)]
pub enum MoveObjectType {
    /// A coin of the native type.
    GasCoin,
    /// A staked amount of the native coin.
    StakedSui,
    /// A coin of the given type.
    Coin(TypeTag),
    /// Any other struct.
    Other(StructTag),
}

/// The type of a stored object.
#[derive(Clone, Debug, PartialEq, Eq)]
pub enum ObjectType {
    Package,
    Struct(MoveObjectType),
}

/// Who owns an object.
#[derive(Clone, Copy, Debug, PartialEq, Eq)]
pub enum Owner {
    /// Owned by one address.
    AddressOwner(SuiAddress),
    /// Owned by another object.
    ObjectOwner(ObjectID),
    /// Shared among all addresses.
    Shared { initial_shared_version: SequenceNumber },
    /// Frozen.
    Immutable,
}

/// Summary of a live object, as the owner index stores it.
#[derive(Clone, Debug, PartialEq, Eq)]
pub struct ObjectInfo {
    pub object_id: ObjectID,
    pub version: SequenceNumber,
    pub digest: ObjectDigest,
    pub type_: ObjectType,
    pub owner: Owner,
    pub previous_transaction: TransactionDigest,
}

/// Name of a dynamic field: the type of the name and its value as text.
#[derive(Clone, Debug, PartialEq, Eq)]
pub struct DynamicFieldName {
    pub type_: TypeTag,
    pub value: String,
}

/// Whether a dynamic field holds a plain value or an object.
#[derive(Clone, Copy, Debug, PartialEq, Eq)]
pub enum DynamicFieldType {
    DynamicField,
    DynamicObject,
}

/// Descriptor of a dynamic field, as the dynamic field index stores it.
#[derive(Clone, Debug, PartialEq, Eq)]
pub struct DynamicFieldInfo {
    pub name: DynamicFieldName,
    pub type_: DynamicFieldType,
    pub object_type: String,
    pub object_id: ObjectID,
    pub version: SequenceNumber,
    pub digest: ObjectDigest,
}

/// An event that a transaction emitted.
#[derive(Clone, Debug, PartialEq, Eq)]
pub struct Event {
    pub package_id: ObjectID,
    pub transaction_module: String,
    pub sender: SuiAddress,
    pub type_: StructTag,
    pub contents: Vec<u8>,
}

/// The events of one transaction, in the order in which it emitted them.
#[derive(Clone, Debug, PartialEq, Eq)]
pub struct TransactionEvents {
    pub data: Vec<Event>,
}

/// Which transactions a query asks for.
#[derive(Clone, Debug, PartialEq, Eq)]
pub enum TransactionFilter {
    /// Those of one checkpoint; the index holds no table for it.
    Checkpoint(u64),
    /// Those that called a function of a package, of one of its modules, or
    /// one function of a module.
    MoveFunction { package: ObjectID, module: Option<String>, function: Option<String> },
    /// Those that took the object as input.
    InputObject(ObjectID),
    /// Those that created or mutated the object.
    ChangedObject(ObjectID),
    /// Those sent by the address.
    FromAddress(SuiAddress),
    /// Those that sent an object to the address.
    ToAddress(SuiAddress),
}

/// Which owned objects a query asks for.
#[derive(Clone, Copy, Debug, PartialEq, Eq)]
pub enum SuiObjectDataFilter {
    /// Objects owned by the address.
    AddressOwner(SuiAddress),
    /// Objects owned by the object.
    ObjectOwner(ObjectID),
    /// The object with this identifier.
    ObjectId(ObjectID),
    /// Objects at this version.
    Version(u64),
}

/// The changes that one transaction makes to the owner index and to the
/// dynamic field index.
pub struct ObjectIndexChanges {
    pub deleted_owners: Vec<OwnerIndexKey>,
    pub deleted_dynamic_fields: Vec<DynamicFieldKey>,
    pub new_owners: Vec<(OwnerIndexKey, ObjectInfo)>,
    pub new_dynamic_fields: Vec<(DynamicFieldKey, DynamicFieldInfo)>,
}

/// Key of the function call index: the package, the module's name, the
/// function's name, and the sequence number of the calling transaction.
pub type MoveFunctionKey = (ObjectID, (String, (String, TxSequenceNumber)));

impl TypeTag {
    /// The type of the native coin.
    pub fn gas() -> (t: TypeTag)
        ensures
            t.canonical@ == GAS_TYPE@,
    {
        TypeTag { canonical: GAS_TYPE.to_owned() }
    }

    /// Whether the two types have the same canonical text.
    pub fn same(&self, other: &TypeTag) -> (b: bool)
        ensures
            b == (self.canonical@ == other.canonical@),
    {
        self.canonical == other.canonical
    }
}

/// Types are ordered by their canonical text.
impl TableKey for TypeTag {
    type Rank = Seq<u8>;

    open spec fn rank(&self) -> Seq<u8> {
        self.canonical.rank()
    }

    open spec fn rank_lt(a: Seq<u8>, b: Seq<u8>) -> bool {
        String::rank_lt(a, b)
    }

    proof fn lemma_irreflexive(a: Seq<u8>) {
        String::lemma_irreflexive(a);
    }

    proof fn lemma_transitive(a: Seq<u8>, b: Seq<u8>, c: Seq<u8>) {
        String::lemma_transitive(a, b, c);
    }

    proof fn lemma_total(a: Seq<u8>, b: Seq<u8>) {
        String::lemma_total(a, b);
    }

    fn compare(&self, other: &Self) -> (o: KeyOrder) {
        self.canonical.compare(&other.canonical)
    }

    fn duplicate(&self) -> (k: Self)
        ensures
            k == *self,
    {
        TypeTag { canonical: self.canonical.clone() }
    }
}

impl ModuleId {
    /// The module `name` of the package at `address`.
    pub fn new(address: ObjectID, name: String) -> (m: ModuleId)
        ensures
            m == (ModuleId { address, name }),
    {
        ModuleId { address, name }
    }
}

/// Modules are ordered by their package's address, then by their name.
impl TableKey for ModuleId {
    type Rank = (Seq<u8>, Seq<u8>);

    open spec fn rank(&self) -> (Seq<u8>, Seq<u8>) {
        (self.address.rank(), self.name.rank())
    }

    open spec fn rank_lt(a: (Seq<u8>, Seq<u8>), b: (Seq<u8>, Seq<u8>)) -> bool {
        <(ObjectID, String)>::rank_lt(a, b)
    }

    proof fn lemma_irreflexive(a: (Seq<u8>, Seq<u8>)) {
        <(ObjectID, String)>::lemma_irreflexive(a);
    }

    proof fn lemma_transitive(a: (Seq<u8>, Seq<u8>), b: (Seq<u8>, Seq<u8>), c: (Seq<u8>, Seq<u8>)) {
        <(ObjectID, String)>::lemma_transitive(a, b, c);
    }

    proof fn lemma_total(a: (Seq<u8>, Seq<u8>), b: (Seq<u8>, Seq<u8>)) {
        <(ObjectID, String)>::lemma_total(a, b);
    }

    fn compare(&self, other: &Self) -> (o: KeyOrder) {
        proof {
            lemma_asymmetric::<ObjectID>(self.address.rank(), other.address.rank());
            lemma_asymmetric::<String>(self.name.rank(), other.name.rank());
        }
        match self.address.compare(&other.address) {
            KeyOrder::Equal => self.name.compare(&other.name),
            o => o,
        }
    }

    fn duplicate(&self) -> (k: Self) {
        ModuleId { address: self.address, name: self.name.clone() }
    }
}

/// The rank of a struct type: its address, module, name and type
/// arguments, each by its own rank.
pub type StructTagRank = (Seq<u8>, (Seq<u8>, (Seq<u8>, Seq<Seq<u8>>)));

/// Struct types are ordered by address, then module, then name, then type
/// arguments.
impl TableKey for StructTag {
    type Rank = StructTagRank;

    open spec fn rank(&self) -> StructTagRank {
        (self.address.rank(), (self.module.rank(), (self.name.rank(), self.type_params.rank())))
    }

    open spec fn rank_lt(a: StructTagRank, b: StructTagRank) -> bool {
        <(ObjectID, (String, (String, Vec<TypeTag>)))>::rank_lt(a, b)
    }

    proof fn lemma_irreflexive(a: StructTagRank) {
        <(ObjectID, (String, (String, Vec<TypeTag>)))>::lemma_irreflexive(a);
    }

    proof fn lemma_transitive(a: StructTagRank, b: StructTagRank, c: StructTagRank) {
        <(ObjectID, (String, (String, Vec<TypeTag>)))>::lemma_transitive(a, b, c);
    }

    proof fn lemma_total(a: StructTagRank, b: StructTagRank) {
        <(ObjectID, (String, (String, Vec<TypeTag>)))>::lemma_total(a, b);
    }

    fn compare(&self, other: &Self) -> (o: KeyOrder) {
        proof {
            lemma_asymmetric::<ObjectID>(self.address.rank(), other.address.rank());
            lemma_asymmetric::<String>(self.module.rank(), other.module.rank());
            lemma_asymmetric::<String>(self.name.rank(), other.name.rank());
            lemma_asymmetric::<Vec<TypeTag>>(self.type_params.rank(), other.type_params.rank());
        }
        match self.address.compare(&other.address) {
            KeyOrder::Equal => match self.module.compare(&other.module) {
                KeyOrder::Equal => match self.name.compare(&other.name) {
                    KeyOrder::Equal => self.type_params.compare(&other.type_params),
                    o => o,
                },
                o => o,
            },
            o => o,
        }
    }

    fn duplicate(&self) -> (k: Self) {
        StructTag {
            address: self.address,
            module: self.module.clone(),
            name: self.name.clone(),
            type_params: self.type_params.duplicate(),
        }
    }
}

} // verus!
