//! Values in ascending order.
use vstd::prelude::*;

verus! {

/// Whether a value is no larger than another.
pub open spec fn at_most(a: i64, b: i64) -> bool {
    a <= b
}

/// The values in ascending order.
pub open spec fn ascending(values: Seq<i64>) -> Seq<i64> {
    values.sort_by(|a: i64, b: i64| at_most(a, b))
}

/// Whether `sorted` holds the elements of `values` in ascending order.
pub open spec fn is_ascending_order_of(sorted: Seq<i64>, values: Seq<i64>) -> bool {
    &&& sorted.to_multiset() == values.to_multiset()
    &&& forall|i: int, j: int| 0 <= i <= j < sorted.len() ==> sorted[i] <= sorted[j]
}

proof fn lemma_at_most_orders()
    ensures
        vstd::relations::total_ordering(|a: i64, b: i64| at_most(a, b)),
{
    let leq = |a: i64, b: i64| at_most(a, b);
    assert(vstd::relations::reflexive(leq));
    assert(vstd::relations::antisymmetric(leq));
    assert(vstd::relations::transitive(leq));
    assert(vstd::relations::strongly_connected(leq));
}

/// The values in ascending order are the same values, and ascend.
pub proof fn lemma_ascending(values: Seq<i64>)
    ensures
        is_ascending_order_of(ascending(values), values),
        ascending(values).len() == values.len(),
        forall|i: int|
            0 <= i < values.len() ==> values.contains(#[trigger] ascending(values)[i]),
{
    let leq = |a: i64, b: i64| at_most(a, b);
    lemma_at_most_orders();
    values.lemma_sort_by_ensures(leq);
    let sorted = ascending(values);
    assert(vstd::relations::sorted_by(sorted, leq));
    assert forall|i: int, j: int| 0 <= i <= j < sorted.len() implies sorted[i] <= sorted[j] by {
        if i < j {
            assert(leq(sorted[i], sorted[j]));
        }
    }
    sorted.to_multiset_ensures();
    values.to_multiset_ensures();
    assert(sorted.len() == sorted.to_multiset().len());
    assert forall|i: int| 0 <= i < values.len() implies values.contains(#[trigger] sorted[i]) by {
        assert(sorted.len() == values.len());
        assert(sorted.contains(sorted[i]));
        assert(sorted.to_multiset().count(sorted[i]) > 0);
    }
}

/// There is one ascending order of values.
pub proof fn lemma_ascending_unique(sorted: Seq<i64>, values: Seq<i64>)
    requires
        is_ascending_order_of(sorted, values),
    ensures
        sorted == ascending(values),
{
    let leq = |a: i64, b: i64| at_most(a, b);
    lemma_at_most_orders();
    values.lemma_sort_by_ensures(leq);
    assert(vstd::relations::sorted_by(sorted, leq)) by {
        assert forall|i: int, j: int| 0 <= i < j < sorted.len() implies #[trigger] leq(
            sorted[i],
            sorted[j],
        ) by {
            assert(sorted[i] <= sorted[j]);
        }
    }
    vstd::seq_lib::lemma_sorted_unique(sorted, ascending(values), leq);
}

/// The sum of the first `n` values.
pub open spec fn sum_of(values: Seq<i64>, n: nat) -> int
    decreases n,
{
    if n == 0 {
        0
    } else {
        sum_of(values, (n - 1) as nat) + values[n - 1]
    }
}

/// `slice::sort` on the elements of a `Vec`: the same elements, in ascending
/// order.
#[verifier::external_body]
fn sort_ascending(values: &mut Vec<i64>)
    ensures
        is_ascending_order_of(final(values)@, old(values)@),
        final(values)@.len() == old(values)@.len(),
{
    values.sort();
}

/// The values in ascending order.
pub fn sorted_values(values: &Vec<i64>) -> (sorted: Vec<i64>)
    ensures
        sorted@ == ascending(values@),
        sorted@.len() == values@.len(),
{
    let mut sorted: Vec<i64> = Vec::new();
    let mut i: usize = 0;
    while i < values.len()
        invariant
            i <= values@.len(),
            sorted@ == values@.subrange(0, i as int),
        decreases values@.len() - i,
    {
        sorted.push(values[i]);
        assert(values@.subrange(0, i as int).push(values@[i as int]) =~= values@.subrange(
            0,
            i + 1,
        ));
        i += 1;
    }
    assert(sorted@ =~= values@);
    sort_ascending(&mut sorted);
    proof {
        lemma_ascending_unique(sorted@, values@);
    }
    sorted
}

} // verus!
