use crate::lex::{compare_slices, lemma_seq_lt_irreflexive, lemma_seq_lt_total, lemma_seq_lt_transitive, ranks_of, seq_lt};
use vstd::prelude::*;

verus! {

/// Outcome of comparing two keys.
#[derive(Clone, Copy, Debug, PartialEq, Eq)]
pub enum KeyOrder {
    Less,
    Equal,
    Greater,
}

/// A key of an ordered table.
///
/// Every key has a mathematical rank, and the ranks of one key type are
/// strictly and totally ordered by `rank_lt`. Two keys with the same rank
/// name the same table row.
pub trait TableKey: Sized {
    type Rank;

    spec fn rank(&self) -> Self::Rank;

    spec fn rank_lt(a: Self::Rank, b: Self::Rank) -> bool;

    proof fn lemma_irreflexive(a: Self::Rank)
        ensures
            !Self::rank_lt(a, a),
    ;

    proof fn lemma_transitive(a: Self::Rank, b: Self::Rank, c: Self::Rank)
        requires
            Self::rank_lt(a, b),
            Self::rank_lt(b, c),
        ensures
            Self::rank_lt(a, c),
    ;

    proof fn lemma_total(a: Self::Rank, b: Self::Rank)
        ensures
            Self::rank_lt(a, b) || a == b || Self::rank_lt(b, a),
    ;

    fn compare(&self, other: &Self) -> (o: KeyOrder)
        ensures
            o == KeyOrder::Less <==> Self::rank_lt(self.rank(), other.rank()),
            o == KeyOrder::Equal <==> self.rank() == other.rank(),
            o == KeyOrder::Greater <==> Self::rank_lt(other.rank(), self.rank()),
    ;

    /// A key of the same rank.
    fn duplicate(&self) -> (k: Self)
        ensures
            k.rank() == self.rank(),
    ;
}

/// A strict order never holds both ways round, nor of a rank and itself.
pub proof fn lemma_asymmetric<K: TableKey>(a: K::Rank, b: K::Rank)
    ensures
        !(K::rank_lt(a, b) && K::rank_lt(b, a)),
        a == b ==> !K::rank_lt(a, b),
{
    K::lemma_irreflexive(a);
    if K::rank_lt(a, b) && K::rank_lt(b, a) {
        K::lemma_transitive(a, b, a);
    }
}

/// Three-way lexicographic comparison of two byte strings.
pub fn compare_bytes(a: &[u8], b: &[u8]) -> (o: KeyOrder)
    ensures
        o == KeyOrder::Less <==> seq_lt::<u8>(a@, b@),
        o == KeyOrder::Equal <==> a@ == b@,
        o == KeyOrder::Greater <==> seq_lt::<u8>(b@, a@),
{
    assert(ranks_of::<u8>(a@) =~= a@);
    assert(ranks_of::<u8>(b@) =~= b@);
    compare_slices(a, b)
}

impl TableKey for u8 {
    type Rank = u8;

    open spec fn rank(&self) -> u8 {
        *self
    }

    open spec fn rank_lt(a: u8, b: u8) -> bool {
        a < b
    }

    proof fn lemma_irreflexive(a: u8) {
    }

    proof fn lemma_transitive(a: u8, b: u8, c: u8) {
    }

    proof fn lemma_total(a: u8, b: u8) {
    }

    fn compare(&self, other: &Self) -> (o: KeyOrder) {
        if *self < *other {
            KeyOrder::Less
        } else if *self == *other {
            KeyOrder::Equal
        } else {
            KeyOrder::Greater
        }
    }

    fn duplicate(&self) -> (k: Self) {
        *self
    }
}

impl TableKey for u64 {
    type Rank = u64;

    open spec fn rank(&self) -> u64 {
        *self
    }

    open spec fn rank_lt(a: u64, b: u64) -> bool {
        a < b
    }

    proof fn lemma_irreflexive(a: u64) {
    }

    proof fn lemma_transitive(a: u64, b: u64, c: u64) {
    }

    proof fn lemma_total(a: u64, b: u64) {
    }

    fn compare(&self, other: &Self) -> (o: KeyOrder) {
        if *self < *other {
            KeyOrder::Less
        } else if *self == *other {
            KeyOrder::Equal
        } else {
            KeyOrder::Greater
        }
    }

    fn duplicate(&self) -> (k: Self) {
        *self
    }
}

impl TableKey for usize {
    type Rank = usize;

    open spec fn rank(&self) -> usize {
        *self
    }

    open spec fn rank_lt(a: usize, b: usize) -> bool {
        a < b
    }

    proof fn lemma_irreflexive(a: usize) {
    }

    proof fn lemma_transitive(a: usize, b: usize, c: usize) {
    }

    proof fn lemma_total(a: usize, b: usize) {
    }

    fn compare(&self, other: &Self) -> (o: KeyOrder) {
        if *self < *other {
            KeyOrder::Less
        } else if *self == *other {
            KeyOrder::Equal
        } else {
            KeyOrder::Greater
        }
    }

    fn duplicate(&self) -> (k: Self) {
        *self
    }
}

/// Strings are ranked by their UTF-8 bytes, compared lexicographically.
impl TableKey for String {
    type Rank = Seq<u8>;

    open spec fn rank(&self) -> Seq<u8> {
        vstd::utf8::encode_utf8(self@)
    }

    open spec fn rank_lt(a: Seq<u8>, b: Seq<u8>) -> bool {
        seq_lt::<u8>(a, b)
    }

    proof fn lemma_irreflexive(a: Seq<u8>) {
        lemma_seq_lt_irreflexive::<u8>(a);
    }

    proof fn lemma_transitive(a: Seq<u8>, b: Seq<u8>, c: Seq<u8>) {
        lemma_seq_lt_transitive::<u8>(a, b, c);
    }

    proof fn lemma_total(a: Seq<u8>, b: Seq<u8>) {
        lemma_seq_lt_total::<u8>(a, b);
    }

    fn compare(&self, other: &Self) -> (o: KeyOrder) {
        compare_bytes(self.as_str().as_bytes(), other.as_str().as_bytes())
    }

    fn duplicate(&self) -> (k: Self) {
        self.clone()
    }
}

/// Vectors of keys are ranked item by item and compared lexicographically.
impl<T: TableKey> TableKey for Vec<T> {
    type Rank = Seq<T::Rank>;

    open spec fn rank(&self) -> Seq<T::Rank> {
        ranks_of(self@)
    }

    open spec fn rank_lt(a: Seq<T::Rank>, b: Seq<T::Rank>) -> bool {
        seq_lt::<T>(a, b)
    }

    proof fn lemma_irreflexive(a: Seq<T::Rank>) {
        lemma_seq_lt_irreflexive::<T>(a);
    }

    proof fn lemma_transitive(a: Seq<T::Rank>, b: Seq<T::Rank>, c: Seq<T::Rank>) {
        lemma_seq_lt_transitive::<T>(a, b, c);
    }

    proof fn lemma_total(a: Seq<T::Rank>, b: Seq<T::Rank>) {
        lemma_seq_lt_total::<T>(a, b);
    }

    fn compare(&self, other: &Self) -> (o: KeyOrder) {
        compare_slices(self.as_slice(), other.as_slice())
    }

    fn duplicate(&self) -> (k: Self) {
        let mut items: Vec<T> = Vec::new();
        let mut i: usize = 0;
        while i < self.len()
            invariant
                i <= self.len(),
                items@.len() == i,
                forall|j: int| 0 <= j < i ==> items@[j].rank() == self@[j].rank(),
            decreases self.len() - i,
        {
            items.push(self[i].duplicate());
            i += 1;
        }
        assert(ranks_of(items@) =~= ranks_of(self@));
        items
    }
}

/// Pairs are ordered by their first component, then by their second.
impl<A: TableKey, B: TableKey> TableKey for (A, B) {
    type Rank = (A::Rank, B::Rank);

    open spec fn rank(&self) -> (A::Rank, B::Rank) {
        (self.0.rank(), self.1.rank())
    }

    open spec fn rank_lt(a: (A::Rank, B::Rank), b: (A::Rank, B::Rank)) -> bool {
        A::rank_lt(a.0, b.0) || (a.0 == b.0 && B::rank_lt(a.1, b.1))
    }

    proof fn lemma_irreflexive(a: (A::Rank, B::Rank)) {
        A::lemma_irreflexive(a.0);
        B::lemma_irreflexive(a.1);
    }

    proof fn lemma_transitive(a: (A::Rank, B::Rank), b: (A::Rank, B::Rank), c: (A::Rank, B::Rank)) {
        if A::rank_lt(a.0, b.0) && A::rank_lt(b.0, c.0) {
            A::lemma_transitive(a.0, b.0, c.0);
        }
        if a.0 == b.0 && b.0 == c.0 {
            A::lemma_irreflexive(a.0);
            B::lemma_transitive(a.1, b.1, c.1);
        }
    }

    proof fn lemma_total(a: (A::Rank, B::Rank), b: (A::Rank, B::Rank)) {
        A::lemma_total(a.0, b.0);
        B::lemma_total(a.1, b.1);
    }

    fn compare(&self, other: &Self) -> (o: KeyOrder) {
        proof {
            lemma_asymmetric::<A>(self.0.rank(), other.0.rank());
            lemma_asymmetric::<B>(self.1.rank(), other.1.rank());
        }
        match self.0.compare(&other.0) {
            KeyOrder::Equal => self.1.compare(&other.1),
            o => o,
        }
    }

    fn duplicate(&self) -> (k: Self) {
        (self.0.duplicate(), self.1.duplicate())
    }
}

} // verus!
