use crate::ids::SuiAddress;
use crate::keys::TableKey;
use crate::ordered::{lookup, Rows};
use crate::types::{
    IndexError, MoveObjectType, ObjectInfo, ObjectType, OwnerIndexKey, TotalBalance, TypeTag,
    GAS_TYPE,
};
use moka::sync::Cache;
use std::collections::HashMap;
use std::sync::Arc;
use vstd::prelude::*;

verus! {

/// The largest number of entries in the cache of balances by coin type.
pub const PER_COIN_TYPE_CACHE_CAPACITY: u64 = 1_000_000;

/// The largest number of entries in the cache of all balances.
pub const ALL_BALANCES_CACHE_CAPACITY: u64 = 100_000;

/// `moka::sync::Cache`, declared so that a cache can stand in a field and
/// in a signature. Nothing is claimed of what is inside a cache but through
/// the two functions of keys below.
#[verifier::external_type_specification]
#[verifier::external_body]
#[verifier::reject_recursive_types(K)]
#[verifier::reject_recursive_types(V)]
#[verifier::reject_recursive_types(S)]
pub struct ExCache<K, V, S>(Cache<K, V, S>);

/// The keys under which a cache of balances by coin type holds an entry:
/// pairs of an address and a coin type's canonical text.
pub uninterp spec fn coin_balance_keys(
    cache: Cache<([u8; 32], String), Result<TotalBalance, IndexError>>,
) -> Set<(Seq<u8>, Seq<char>)>;

/// The addresses under which a cache of all balances holds an entry.
pub uninterp spec fn all_balances_keys(
    cache: Cache<[u8; 32], Result<Arc<HashMap<String, TotalBalance>>, IndexError>>,
) -> Set<Seq<u8>>;

/// `moka::sync::Cache::new`, for balances by coin type: the new cache
/// holds no entry.
#[verifier::external_body]
fn new_coin_balance_cache(max_capacity: u64) -> (cache: Cache<
    ([u8; 32], String),
    Result<TotalBalance, IndexError>,
>)
    ensures
        coin_balance_keys(cache) == Set::<(Seq<u8>, Seq<char>)>::empty(),
{
    Cache::new(max_capacity)
}

/// `moka::sync::Cache::new`, for all balances of an address: the new cache
/// holds no entry.
#[verifier::external_body]
fn new_all_balances_cache(max_capacity: u64) -> (cache: Cache<
    [u8; 32],
    Result<Arc<HashMap<String, TotalBalance>>, IndexError>,
>)
    ensures
        all_balances_keys(cache) == Set::<Seq<u8>>::empty(),
{
    Cache::new(max_capacity)
}

/// `moka::sync::Cache::invalidate`, for balances by coin type: afterwards
/// the cache holds no entry under the key. It gains no entry; which other
/// entries it keeps is left open, since the cache may evict at any call.
/// A cache is a handle that can be cloned and filled through a shared
/// reference: both claims are of a call during which no other holder of the
/// cache inserts.
#[verifier::external_body]
pub(crate) fn invalidate_coin_balance(
    cache: &mut Cache<([u8; 32], String), Result<TotalBalance, IndexError>>,
    owner: &SuiAddress,
    coin_type: &TypeTag,
)
    ensures
        !coin_balance_keys(*final(cache)).contains((owner.0@, coin_type.canonical@)),
        coin_balance_keys(*final(cache)).subset_of(coin_balance_keys(*old(cache))),
{
    cache.invalidate(&(owner.0, coin_type.canonical.clone()));
}

/// `moka::sync::Cache::invalidate`, for all balances of an address:
/// afterwards the cache holds no entry under the address. It gains no
/// entry; which other entries it keeps is left open. Both claims are of a
/// call during which no other holder of the cache inserts.
#[verifier::external_body]
pub(crate) fn invalidate_all_balances(
    cache: &mut Cache<[u8; 32], Result<Arc<HashMap<String, TotalBalance>>, IndexError>>,
    owner: &SuiAddress,
)
    ensures
        !all_balances_keys(*final(cache)).contains(owner.0@),
        all_balances_keys(*final(cache)).subset_of(all_balances_keys(*old(cache))),
{
    cache.invalidate(&owner.0);
}

/// The two caches of balances. The index never fills them; it only
/// discards the entries that a change of ownership makes stale. Whoever
/// computes balances fills them, through these fields; an entry that is
/// filled in while a transaction is being indexed may be stale.
pub struct IndexStoreCaches {
    pub per_coin_type_balance: Cache<([u8; 32], String), Result<TotalBalance, IndexError>>,
    pub all_balances: Cache<[u8; 32], Result<Arc<HashMap<String, TotalBalance>>, IndexError>>,
}

/// The canonical text of the coin type under which the balance of an
/// object of the given type is cached: the first type argument of its
/// struct type, and the native coin's type where it has none. A package is
/// no struct and has no coin type.
pub open spec fn coin_type_text(type_: ObjectType) -> Option<Seq<char>> {
    match type_ {
        ObjectType::Package => None,
        ObjectType::Struct(MoveObjectType::Coin(tag)) => Some(tag.canonical@),
        ObjectType::Struct(MoveObjectType::Other(tag)) => if tag.type_params@.len() > 0 {
            Some(tag.type_params@[0].canonical@)
        } else {
            Some(GAS_TYPE@)
        },
        ObjectType::Struct(_) => Some(GAS_TYPE@),
    }
}

/// The coin type under which the balance of an object of the given type is
/// cached.
pub fn coin_type_of(type_: &ObjectType) -> (r: Result<TypeTag, IndexError>)
    ensures
        match coin_type_text(*type_) {
            Some(text) => r is Ok && r->Ok_0.canonical@ == text,
            None => r == Err::<TypeTag, IndexError>(IndexError::TypeDerivation),
        },
{
    match type_ {
        ObjectType::Package => Err(IndexError::TypeDerivation),
        ObjectType::Struct(MoveObjectType::Coin(tag)) => Ok(tag.duplicate()),
        ObjectType::Struct(MoveObjectType::Other(tag)) => {
            if tag.type_params.len() > 0 {
                Ok(tag.type_params[0].duplicate())
            } else {
                Ok(TypeTag::gas())
            }
        },
        ObjectType::Struct(_) => Ok(TypeTag::gas()),
    }
}

/// The cache key that goes stale when the object stored under `key` leaves
/// the owner index: the owner with the object's coin type. There is none
/// if the index holds no such object, or holds a package there.
pub open spec fn deleted_coin_key(
    owner_rows: Rows<OwnerIndexKey, ObjectInfo>,
    key: OwnerIndexKey,
) -> Option<(Seq<u8>, Seq<char>)> {
    match lookup::<OwnerIndexKey, ObjectInfo>(owner_rows, key.rank()) {
        Some(info) => match coin_type_text(info.type_) {
            Some(text) => Some((key.0.0@, text)),
            None => None,
        },
        None => None,
    }
}

/// The cache key that goes stale when `info` enters the owner index under
/// `key`: the owner with the object's coin type. A package gives none.
pub open spec fn added_coin_key(key: OwnerIndexKey, info: ObjectInfo) -> Option<
    (Seq<u8>, Seq<char>),
> {
    match coin_type_text(info.type_) {
        Some(text) => Some((key.0.0@, text)),
        None => None,
    }
}

impl IndexStoreCaches {
    /// Two empty caches, of the capacities that the index uses.
    pub fn new() -> (caches: Self)
        ensures
            caches.coin_keys() == Set::<(Seq<u8>, Seq<char>)>::empty(),
            caches.balance_keys() == Set::<Seq<u8>>::empty(),
    {
        IndexStoreCaches {
            per_coin_type_balance: new_coin_balance_cache(PER_COIN_TYPE_CACHE_CAPACITY),
            all_balances: new_all_balances_cache(ALL_BALANCES_CACHE_CAPACITY),
        }
    }

    /// The keys that the cache of balances by coin type holds.
    pub open spec fn coin_keys(&self) -> Set<(Seq<u8>, Seq<char>)> {
        coin_balance_keys(self.per_coin_type_balance)
    }

    /// The addresses that the cache of all balances holds.
    pub open spec fn balance_keys(&self) -> Set<Seq<u8>> {
        all_balances_keys(self.all_balances)
    }
}

} // verus!
