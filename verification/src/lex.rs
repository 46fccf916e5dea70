use crate::keys::{KeyOrder, TableKey};
use vstd::prelude::*;

verus! {

/// Lexicographic "less than" on sequences of ranks: the first position
/// where the two differ decides, and a proper prefix is less than each of
/// its extensions.
pub open spec fn seq_lt<T: TableKey>(a: Seq<T::Rank>, b: Seq<T::Rank>) -> bool
    decreases a.len(),
{
    if b.len() == 0 {
        false
    } else if a.len() == 0 {
        true
    } else if a[0] != b[0] {
        T::rank_lt(a[0], b[0])
    } else {
        seq_lt::<T>(a.skip(1), b.skip(1))
    }
}

/// The ranks of the items of a sequence, in order.
pub open spec fn ranks_of<T: TableKey>(s: Seq<T>) -> Seq<T::Rank> {
    Seq::new(s.len(), |i: int| s[i].rank())
}

pub proof fn lemma_seq_lt_irreflexive<T: TableKey>(a: Seq<T::Rank>)
    ensures
        !seq_lt::<T>(a, a),
    decreases a.len(),
{
    if a.len() > 0 {
        lemma_seq_lt_irreflexive::<T>(a.skip(1));
    }
}

pub proof fn lemma_seq_lt_transitive<T: TableKey>(a: Seq<T::Rank>, b: Seq<T::Rank>, c: Seq<T::Rank>)
    requires
        seq_lt::<T>(a, b),
        seq_lt::<T>(b, c),
    ensures
        seq_lt::<T>(a, c),
    decreases a.len(),
{
    if a.len() > 0 {
        if a[0] == b[0] && b[0] == c[0] {
            lemma_seq_lt_transitive::<T>(a.skip(1), b.skip(1), c.skip(1));
        } else if a[0] != b[0] && b[0] != c[0] {
            T::lemma_transitive(a[0], b[0], c[0]);
            T::lemma_irreflexive(a[0]);
        }
    }
}

pub proof fn lemma_seq_lt_total<T: TableKey>(a: Seq<T::Rank>, b: Seq<T::Rank>)
    ensures
        seq_lt::<T>(a, b) || a == b || seq_lt::<T>(b, a),
    decreases a.len(),
{
    if a.len() == 0 || b.len() == 0 {
        if a.len() == 0 && b.len() == 0 {
            assert(a =~= b);
        }
    } else if a[0] == b[0] {
        lemma_seq_lt_total::<T>(a.skip(1), b.skip(1));
        if a.skip(1) == b.skip(1) {
            assert(a =~= seq![a[0]] + a.skip(1));
            assert(b =~= seq![b[0]] + b.skip(1));
        }
    } else {
        T::lemma_total(a[0], b[0]);
    }
}

/// Unfolds the order at a common prefix of length `i`.
proof fn lemma_seq_lt_skip_prefix<T: TableKey>(a: Seq<T::Rank>, b: Seq<T::Rank>, i: int)
    requires
        0 <= i <= a.len(),
        i <= b.len(),
        forall|j: int| 0 <= j < i ==> a[j] == b[j],
    ensures
        seq_lt::<T>(a, b) == seq_lt::<T>(a.skip(i), b.skip(i)),
        (a == b) == (a.skip(i) == b.skip(i)),
    decreases i,
{
    if a.skip(i) == b.skip(i) {
        assert(a.len() == b.len());
        assert forall|j: int| 0 <= j < a.len() implies a[j] == b[j] by {
            if j >= i {
                assert(a[j] == a.skip(i)[j - i]);
                assert(b[j] == b.skip(i)[j - i]);
            }
        }
        assert(a =~= b);
    }
    if i > 0 {
        lemma_seq_lt_skip_prefix::<T>(a, b, i - 1);
        let a1 = a.skip(i - 1);
        let b1 = b.skip(i - 1);
        assert(a1[0] == b1[0]);
        assert(a1.skip(1) =~= a.skip(i));
        assert(b1.skip(1) =~= b.skip(i));
    } else {
        assert(a.skip(0) =~= a);
        assert(b.skip(0) =~= b);
    }
}

/// Three-way lexicographic comparison of two slices of keys.
pub fn compare_slices<T: TableKey>(a: &[T], b: &[T]) -> (o: KeyOrder)
    ensures
        o == KeyOrder::Less <==> seq_lt::<T>(ranks_of(a@), ranks_of(b@)),
        o == KeyOrder::Equal <==> ranks_of(a@) == ranks_of(b@),
        o == KeyOrder::Greater <==> seq_lt::<T>(ranks_of(b@), ranks_of(a@)),
{
    let ghost ra = ranks_of(a@);
    let ghost rb = ranks_of(b@);
    let mut i: usize = 0;
    while i < a.len() && i < b.len()
        invariant
            i <= a.len(),
            i <= b.len(),
            ra == ranks_of(a@),
            rb == ranks_of(b@),
            forall|j: int| 0 <= j < i ==> ra[j] == rb[j],
        decreases a.len() - i,
    {
        let o = a[i].compare(&b[i]);
        match o {
            KeyOrder::Equal => {},
            _ => {
                proof {
                    lemma_seq_lt_skip_prefix::<T>(ra, rb, i as int);
                    lemma_seq_lt_skip_prefix::<T>(rb, ra, i as int);
                    assert(ra.skip(i as int)[0] == ra[i as int]);
                    assert(rb.skip(i as int)[0] == rb[i as int]);
                    T::lemma_irreflexive(ra[i as int]);
                    if T::rank_lt(ra[i as int], rb[i as int]) && T::rank_lt(
                        rb[i as int],
                        ra[i as int],
                    ) {
                        T::lemma_transitive(ra[i as int], rb[i as int], ra[i as int]);
                    }
                }
                return o;
            },
        }
        i += 1;
    }
    proof {
        lemma_seq_lt_skip_prefix::<T>(ra, rb, i as int);
        lemma_seq_lt_skip_prefix::<T>(rb, ra, i as int);
        if ra.len() == rb.len() {
            assert(ra.skip(i as int) =~= rb.skip(i as int));
        }
        lemma_seq_lt_irreflexive::<T>(ra);
    }
    if a.len() < b.len() {
        KeyOrder::Less
    } else if a.len() == b.len() {
        KeyOrder::Equal
    } else {
        KeyOrder::Greater
    }
}

} // verus!
