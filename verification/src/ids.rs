use crate::keys::{compare_bytes, KeyOrder, TableKey};
use crate::lex::{lemma_seq_lt_irreflexive, lemma_seq_lt_total, lemma_seq_lt_transitive, seq_lt};
use vstd::prelude::*;

verus! {

/// Position of a transaction in the order in which it was indexed.
pub type TxSequenceNumber = u64;

/// Version of an object.
pub type SequenceNumber = u64;

/// Whether every byte of `bytes` is zero.
pub open spec fn all_zero(bytes: Seq<u8>) -> bool {
    forall|i: int| 0 <= i < bytes.len() ==> bytes[i] == 0
}

/// The rank of the identifier of all zero bytes.
pub open spec fn zero_rank() -> Seq<u8> {
    Seq::new(32, |i: int| 0u8)
}

/// Whether every one of the 32 bytes is zero.
fn is_all_zero(bytes: &[u8; 32]) -> (b: bool)
    ensures
        b == all_zero(bytes@),
{
    let mut i: usize = 0;
    while i < 32
        invariant
            i <= 32,
            forall|j: int| 0 <= j < i ==> bytes@[j] == 0,
        decreases 32 - i,
    {
        if bytes[i] != 0 {
            return false;
        }
        i += 1;
    }
    true
}

/// Address of an account.
#[derive(Clone, Copy, Debug, PartialEq, Eq, PartialOrd, Ord, Hash)]
pub struct SuiAddress(pub [u8; 32]);

/// Identifier of an object. The identifier of all zero bytes sorts before
/// every other one.
#[derive(Clone, Copy, Debug, PartialEq, Eq, PartialOrd, Ord, Hash)]
pub struct ObjectID(pub [u8; 32]);

/// Content digest of a transaction.
#[derive(Clone, Copy, Debug, PartialEq, Eq, PartialOrd, Ord, Hash)]
pub struct TransactionDigest(pub [u8; 32]);

/// Content digest of the events of one transaction.
#[derive(Clone, Copy, Debug, PartialEq, Eq, PartialOrd, Ord, Hash)]
pub struct TransactionEventsDigest(pub [u8; 32]);

/// Content digest of an object.
#[derive(Clone, Copy, Debug, PartialEq, Eq, PartialOrd, Ord, Hash)]
pub struct ObjectDigest(pub [u8; 32]);

impl ObjectID {
    /// The identifier of all zero bytes.
    pub fn zero() -> (id: ObjectID)
        ensures
            id.0@ == zero_rank(),
    {
        let id = ObjectID([0u8; 32]);
        assert(id.0@ =~= zero_rank());
        id
    }

    /// Whether this is the identifier of all zero bytes.
    pub fn is_zero(&self) -> (b: bool)
        ensures
            b == all_zero(self.0@),
    {
        is_all_zero(&self.0)
    }
}

/// Addresses are ordered as byte strings.
impl TableKey for SuiAddress {
    type Rank = Seq<u8>;

    open spec fn rank(&self) -> Seq<u8> {
        self.0@
    }

    open spec fn rank_lt(a: Seq<u8>, b: Seq<u8>) -> bool {
        seq_lt::<u8>(a, b)
    }

    proof fn lemma_irreflexive(a: Seq<u8>) {
        lemma_seq_lt_irreflexive::<u8>(a);
    }

    proof fn lemma_transitive(a: Seq<u8>, b: Seq<u8>, c: Seq<u8>) {
        lemma_seq_lt_transitive::<u8>(a, b, c);
    }

    proof fn lemma_total(a: Seq<u8>, b: Seq<u8>) {
        lemma_seq_lt_total::<u8>(a, b);
    }

    fn compare(&self, other: &Self) -> (o: KeyOrder) {
        compare_bytes(self.0.as_slice(), other.0.as_slice())
    }

    fn duplicate(&self) -> (k: Self) {
        *self
    }
}

/// Object identifiers are ordered as byte strings.
impl TableKey for ObjectID {
    type Rank = Seq<u8>;

    open spec fn rank(&self) -> Seq<u8> {
        self.0@
    }

    open spec fn rank_lt(a: Seq<u8>, b: Seq<u8>) -> bool {
        seq_lt::<u8>(a, b)
    }

    proof fn lemma_irreflexive(a: Seq<u8>) {
        lemma_seq_lt_irreflexive::<u8>(a);
    }

    proof fn lemma_transitive(a: Seq<u8>, b: Seq<u8>, c: Seq<u8>) {
        lemma_seq_lt_transitive::<u8>(a, b, c);
    }

    proof fn lemma_total(a: Seq<u8>, b: Seq<u8>) {
        lemma_seq_lt_total::<u8>(a, b);
    }

    fn compare(&self, other: &Self) -> (o: KeyOrder) {
        compare_bytes(self.0.as_slice(), other.0.as_slice())
    }

    fn duplicate(&self) -> (k: Self) {
        *self
    }
}

/// Transaction digests are ordered as byte strings.
impl TableKey for TransactionDigest {
    type Rank = Seq<u8>;

    open spec fn rank(&self) -> Seq<u8> {
        self.0@
    }

    open spec fn rank_lt(a: Seq<u8>, b: Seq<u8>) -> bool {
        seq_lt::<u8>(a, b)
    }

    proof fn lemma_irreflexive(a: Seq<u8>) {
        lemma_seq_lt_irreflexive::<u8>(a);
    }

    proof fn lemma_transitive(a: Seq<u8>, b: Seq<u8>, c: Seq<u8>) {
        lemma_seq_lt_transitive::<u8>(a, b, c);
    }

    proof fn lemma_total(a: Seq<u8>, b: Seq<u8>) {
        lemma_seq_lt_total::<u8>(a, b);
    }

    fn compare(&self, other: &Self) -> (o: KeyOrder) {
        compare_bytes(self.0.as_slice(), other.0.as_slice())
    }

    fn duplicate(&self) -> (k: Self) {
        *self
    }
}

/// An identifier of all zero bytes does not sort after any identifier.
pub proof fn lemma_zero_is_least(zero: Seq<u8>, other: Seq<u8>)
    requires
        all_zero(zero),
        zero.len() == other.len(),
    ensures
        !seq_lt::<u8>(other, zero),
    decreases zero.len(),
{
    if zero.len() > 0 && other[0] == zero[0] {
        lemma_zero_is_least(zero.skip(1), other.skip(1));
    }
}

} // verus!
