//! Sums over sequences and over the values of maps.
use vstd::prelude::*;

verus! {

/// The sum of a sequence.
pub open spec fn seq_total(numbers: Seq<nat>) -> nat
    decreases numbers.len(),
{
    if numbers.len() == 0 {
        0
    } else {
        seq_total(numbers.drop_last()) + numbers.last()
    }
}

/// The sum of the sizes of the values of a map.
pub open spec fn map_total<K, V>(map: Map<K, V>, size: spec_fn(V) -> nat) -> nat
    decreases map.dom().len(),
    when map.dom().finite()
{
    if map.dom().len() == 0 {
        0
    } else {
        let key = map.dom().choose();
        size(map[key]) + map_total(map.remove(key), size)
    }
}

/// The sum does not depend on the order: any entry can be counted first.
pub proof fn lemma_map_total_remove<K, V>(map: Map<K, V>, size: spec_fn(V) -> nat, key: K)
    requires
        map.dom().finite(),
        map.contains_key(key),
    ensures
        map_total(map, size) == size(map[key]) + map_total(map.remove(key), size),
    decreases map.dom().len(),
{
    let first = map.dom().choose();
    assert(map.dom().contains(first));
    if first != key {
        let others = map.remove(first);
        lemma_map_total_remove(others, size, key);
        assert(map.remove(key).dom().contains(first));
        lemma_map_total_remove(map.remove(key), size, first);
        assert(others.remove(key) =~= map.remove(key).remove(first));
    }
}

/// A part of a sum is no larger than the whole.
pub proof fn lemma_seq_total_take(numbers: Seq<nat>, count: int)
    requires
        0 <= count <= numbers.len(),
    ensures
        seq_total(numbers.take(count)) <= seq_total(numbers),
    decreases numbers.len(),
{
    if count < numbers.len() {
        lemma_seq_total_take(numbers.drop_last(), count);
        assert(numbers.drop_last().take(count) =~= numbers.take(count));
    } else {
        assert(numbers.take(count) =~= numbers);
    }
}

/// The sum of a vector, if it fits.
pub fn total(counts: &Vec<usize>) -> (res: Option<usize>)
    ensures
        match res {
            Some(sum) => sum == seq_total(counts@.map_values(|count: usize| count as nat)),
            None => seq_total(counts@.map_values(|count: usize| count as nat)) > usize::MAX,
        },
{
    let ghost numbers = counts@.map_values(|count: usize| count as nat);
    let mut sum: usize = 0;
    let mut i: usize = 0;
    while i < counts.len()
        invariant
            i <= counts@.len(),
            numbers == counts@.map_values(|count: usize| count as nat),
            sum == seq_total(numbers.take(i as int)),
        decreases counts@.len() - i,
    {
        proof {
            assert(numbers.take(i + 1).drop_last() =~= numbers.take(i as int));
            assert(numbers.take(i + 1).last() == counts@[i as int]);
            lemma_seq_total_take(numbers, i + 1);
        }
        match sum.checked_add(counts[i]) {
            Some(next) => {
                sum = next;
            },
            None => {
                return None;
            },
        }
        i = i + 1;
    }
    assert(numbers.take(i as int) =~= numbers);
    Some(sum)
}

/// The sum of no numbers is nothing, and one more number adds itself. Only a sum that is too large is
/// not found.
pub proof fn law_sum_grows_by_each_number(
    none: Vec<usize>,
    nothing: Option<usize>,
    counts: Vec<usize>,
    sum: Option<usize>,
    more: Vec<usize>,
    number: usize,
    larger: Option<usize>,
)
    requires
        none@.len() == 0,
        call_ensures(total, (&none,), nothing),
        call_ensures(total, (&counts,), sum),
        more@ == counts@.push(number),
        call_ensures(total, (&more,), larger),
    ensures
        nothing == Some(0usize),
        match (sum, larger) {
            (Some(sum), Some(larger)) => larger == sum + number,
            (Some(sum), None) => sum + number > usize::MAX,
            (None, larger) => larger is None,
        },
{
    let numbers = counts@.map_values(|count: usize| count as nat);
    let with_more = more@.map_values(|count: usize| count as nat);
    assert(with_more.drop_last() =~= numbers);
    assert(none@.map_values(|count: usize| count as nat) =~= Seq::<nat>::empty());
}

} // verus!
