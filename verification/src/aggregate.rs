use vstd::prelude::*;

use crate::error::Error;

verus! {

// The fan-in of the traversal: what every child of a directory contributes
// to its subtotal, and the order-insensitive sum over all of them.  Failure
// isolation lives here: a failed branch contributes 0 and nothing more.

/// What one child contributes to its parent's subtotal: its size on success,
/// 0 on an isolated failure.
pub open spec fn contribution(r: Result<u64, Error>) -> u64 {
    match r {
        Ok(v) => v,
        Err(_) => 0,
    }
}

/// The exact sum of the children's contributions.
pub open spec fn total_of(rs: Seq<Result<u64, Error>>) -> int
    decreases rs.len(),
{
    if rs.len() == 0 {
        0
    } else {
        total_of(rs.drop_last()) + contribution(rs.last())
    }
}

proof fn lemma_total_of_nonneg(rs: Seq<Result<u64, Error>>)
    ensures
        total_of(rs) >= 0,
    decreases rs.len(),
{
    if rs.len() > 0 {
        lemma_total_of_nonneg(rs.drop_last());
    }
}

proof fn lemma_total_of_remove(rs: Seq<Result<u64, Error>>, i: int)
    requires
        0 <= i < rs.len(),
    ensures
        total_of(rs) == total_of(rs.remove(i)) + contribution(rs[i]),
    decreases rs.len(),
{
    if i == rs.len() - 1 {
        assert(rs.remove(i) =~= rs.drop_last());
    } else {
        lemma_total_of_remove(rs.drop_last(), i);
        assert(rs.remove(i).drop_last() =~= rs.drop_last().remove(i));
        assert(rs.remove(i).last() == rs.last());
    }
}

/// The fold is order-insensitive: two child-outcome sequences made of the
/// same outcomes — however the concurrent children happened to finish — have
/// the same total, so subtotals are deterministic.
pub proof fn lemma_total_of_permutation(a: Seq<Result<u64, Error>>, b: Seq<Result<u64, Error>>)
    requires
        a.to_multiset() == b.to_multiset(),
    ensures
        total_of(a) == total_of(b),
    decreases a.len(),
{
    broadcast use vstd::seq_lib::group_to_multiset_ensures;

    if a.len() == 0 {
        assert(b.len() == b.to_multiset().len());
    } else {
        let x = a.last();
        assert(a =~= a.drop_last().push(x));
        assert(a.to_multiset() =~= a.drop_last().to_multiset().insert(x));
        assert(b.to_multiset().count(x) > 0);
        assert(b.contains(x));
        let i = choose|i: int| 0 <= i < b.len() && b[i] == x;
        lemma_total_of_remove(b, i);
        assert(b.remove(i).to_multiset() =~= b.to_multiset().remove(x));
        assert(a.drop_last().to_multiset() =~= a.to_multiset().remove(x));
        lemma_total_of_permutation(a.drop_last(), b.remove(i));
    }
}

/// The size a child's outcome contributes: failures are isolated to 0.
pub fn child_contribution(r: &Result<u64, Error>) -> (v: u64)
    ensures
        v == contribution(*r),
{
    match r {
        Ok(v) => *v,
        Err(_) => 0,
    }
}

/// A directory's subtotal: the sum, over every child outcome, of its size on
/// success and 0 on failure — saturating at `u64::MAX` in the (unreachable
/// in practice) case of overflow.
pub fn directory_subtotal(results: &Vec<Result<u64, Error>>) -> (r: u64)
    ensures
        total_of(results@) <= u64::MAX ==> r == total_of(results@),
        total_of(results@) > u64::MAX ==> r == u64::MAX,
{
    let mut acc: u64 = 0;
    let mut i: usize = 0;
    proof {
        assert(results@.take(0) =~= Seq::<Result<u64, Error>>::empty());
    }
    while i < results.len()
        invariant
            i <= results.len(),
            total_of(results@.take(i as int)) <= u64::MAX ==> acc == total_of(
                results@.take(i as int),
            ),
            total_of(results@.take(i as int)) > u64::MAX ==> acc == u64::MAX,
        decreases results.len() - i,
    {
        proof {
            assert(results@.take(i + 1).drop_last() =~= results@.take(i as int));
            assert(results@.take(i + 1).last() == results@[i as int]);
            lemma_total_of_nonneg(results@.take(i as int));
        }
        let v = child_contribution(&results[i]);
        if acc > u64::MAX - v {
            acc = u64::MAX;
        } else {
            acc = acc + v;
        }
        i += 1;
    }
    proof {
        assert(results@.take(i as int) =~= results@);
    }
    acc
}

} // verus!
