use vstd::prelude::*;
use vstd::set_lib::{lemma_int_range, lemma_len_subset, lemma_subset_equality, set_int_range};

verus! {

/// Whether position `i` comes before position `j` when items are ranked by
/// descending key: the larger key first, and of two equal keys the one that
/// stood earlier.
pub open spec fn ranks_before(keys: Seq<u128>, i: int, j: int) -> bool {
    keys[i] > keys[j] || (keys[i] == keys[j] && i < j)
}

/// `order` lists the positions of `keys`, each once, so that every listed
/// position ranks before all that follow it.
pub open spec fn is_descending_order(keys: Seq<u128>, order: Seq<usize>) -> bool {
    &&& order.len() == keys.len()
    &&& forall|a: int| 0 <= a < order.len() ==> (#[trigger] order[a]) < keys.len()
    &&& forall|a: int, b: int|
        0 <= a < b < order.len() ==> ranks_before(
            keys,
            (#[trigger] order[a]) as int,
            (#[trigger] order[b]) as int,
        )
}

/// The ranking invariant of the insertion sort: `order` ranks the first
/// `n` positions of `keys`.
spec fn ranks_prefix(keys: Seq<u128>, order: Seq<usize>, n: int) -> bool {
    &&& order.len() == n
    &&& forall|a: int| 0 <= a < order.len() ==> (#[trigger] order[a]) < n
    &&& forall|a: int, b: int|
        0 <= a < b < order.len() ==> ranks_before(
            keys,
            (#[trigger] order[a]) as int,
            (#[trigger] order[b]) as int,
        )
}

/// Ranks the positions of `keys` by descending key. The sort is stable:
/// positions with equal keys keep their relative order.
pub fn descending_order(keys: &Vec<u128>) -> (order: Vec<usize>)
    ensures
        is_descending_order(keys@, order@),
{
    let mut order: Vec<usize> = Vec::new();
    let mut i: usize = 0;
    while i < keys.len()
        invariant
            i <= keys.len(),
            ranks_prefix(keys@, order@, i as int),
        decreases keys.len() - i,
    {
        let key = keys[i];
        let mut p: usize = 0;
        while p < order.len() && keys[order[p]] >= key
            invariant
                i < keys.len(),
                key == keys@[i as int],
                p <= order.len(),
                ranks_prefix(keys@, order@, i as int),
                forall|a: int| 0 <= a < p ==> keys@[(#[trigger] order@[a]) as int] >= key,
            decreases order.len() - p,
        {
            p += 1;
        }
        let ghost before = order@;
        order.insert(p, i);
        proof {
            assert(order@ == before.insert(p as int, i));
            assert forall|a: int, b: int| 0 <= a < b < order@.len() implies ranks_before(
                keys@,
                (#[trigger] order@[a]) as int,
                (#[trigger] order@[b]) as int,
            ) by {
                if b < p {
                    assert(order@[a] == before[a] && order@[b] == before[b]);
                } else if b == p {
                    assert(order@[a] == before[a]);
                } else if a < p {
                    assert(order@[a] == before[a] && order@[b] == before[b - 1]);
                } else if a == p {
                    assert(order@[b] == before[b - 1]);
                    if p < b - 1 {
                        assert(ranks_before(keys@, before[p as int] as int, before[b - 1] as int));
                    }
                } else {
                    assert(order@[a] == before[a - 1] && order@[b] == before[b - 1]);
                }
            }
        }
        i += 1;
    }
    order
}

/// An order lists its positions by non-increasing key.
pub proof fn lemma_order_is_sorted(keys: Seq<u128>, order: Seq<usize>)
    requires
        is_descending_order(keys, order),
    ensures
        forall|a: int, b: int|
            0 <= a < b < order.len() ==> keys[(#[trigger] order[a]) as int] >= keys[(
            #[trigger] order[b]) as int],
{
    assert forall|a: int, b: int| 0 <= a < b < order.len() implies keys[(
    #[trigger] order[a]) as int] >= keys[(#[trigger] order[b]) as int] by {
        assert(ranks_before(keys, order[a] as int, order[b] as int));
    }
}

/// An order lists no position twice.
pub proof fn lemma_order_no_duplicates(keys: Seq<u128>, order: Seq<usize>)
    requires
        is_descending_order(keys, order),
    ensures
        order.no_duplicates(),
{
    assert forall|a: int, b: int| 0 <= a < order.len() && 0 <= b < order.len() && a != b implies order[a]
        != order[b] by {
        if a < b {
            assert(ranks_before(keys, order[a] as int, order[b] as int));
        } else {
            assert(ranks_before(keys, order[b] as int, order[a] as int));
        }
    }
}

/// An order lists every position.
pub proof fn lemma_order_is_complete(keys: Seq<u128>, order: Seq<usize>, i: int)
    requires
        is_descending_order(keys, order),
        0 <= i < keys.len(),
    ensures
        exists|a: int| 0 <= a < order.len() && order[a] == i,
{
    let listed = Seq::new(order.len(), |a: int| order[a] as int);
    let range = set_int_range(0, keys.len() as int);
    lemma_order_no_duplicates(keys, order);
    assert(listed.no_duplicates());
    listed.unique_seq_to_set();
    lemma_int_range(0, keys.len() as int);
    assert forall|x: int| listed.to_set().contains(x) implies range.contains(x) by {
        let a = choose|a: int| 0 <= a < listed.len() && listed[a] == x;
        assert(order[a] < keys.len());
    }
    lemma_len_subset(listed.to_set(), range);
    lemma_subset_equality(listed.to_set(), range);
    assert(range.contains(i));
    assert(listed.to_set().contains(i));
    let a = choose|a: int| 0 <= a < listed.len() && listed[a] == i;
    assert(order[a] == i);
}

/// Two orders of the same keys agree on their first `n` entries.
proof fn lemma_orders_agree(keys: Seq<u128>, first: Seq<usize>, second: Seq<usize>, n: int)
    requires
        is_descending_order(keys, first),
        is_descending_order(keys, second),
        0 <= n <= keys.len(),
    ensures
        forall|a: int| 0 <= a < n ==> first[a] == second[a],
    decreases n,
{
    if n > 0 {
        lemma_orders_agree(keys, first, second, n - 1);
        let a = n - 1;
        if first[a] != second[a] {
            lemma_order_is_complete(keys, second, first[a] as int);
            lemma_order_is_complete(keys, first, second[a] as int);
            let b = choose|b: int| 0 <= b < second.len() && second[b] == first[a];
            let c = choose|c: int| 0 <= c < first.len() && first[c] == second[a];
            if b < a {
                assert(first[b] == second[b]);
                assert(ranks_before(keys, first[b] as int, first[a] as int));
            } else if c < a {
                assert(first[c] == second[c]);
                assert(ranks_before(keys, second[c] as int, second[a] as int));
            } else {
                assert(ranks_before(keys, second[a] as int, second[b] as int));
                assert(ranks_before(keys, first[a] as int, first[c] as int));
            }
        }
    }
}

/// There is one order only: the keys decide the ranking.
pub proof fn lemma_order_is_unique(keys: Seq<u128>, first: Seq<usize>, second: Seq<usize>)
    requires
        is_descending_order(keys, first),
        is_descending_order(keys, second),
    ensures
        first == second,
{
    lemma_orders_agree(keys, first, second, keys.len() as int);
    assert(first =~= second);
}

/// Where all keys are equal, the order is that of the positions: a stable
/// ranking leaves items of equal rank where they stood.
pub proof fn lemma_equal_keys_keep_order(keys: Seq<u128>, order: Seq<usize>)
    requires
        is_descending_order(keys, order),
        forall|i: int, j: int| 0 <= i < keys.len() && 0 <= j < keys.len() ==> keys[i] == keys[j],
    ensures
        forall|a: int| 0 <= a < order.len() ==> order[a] == a,
{
    if keys.len() > 0 {
        lemma_order_is_complete(keys, order, keys.len() - 1);
    }
    let identity = Seq::new(keys.len(), |a: int| a as usize);
    assert(is_descending_order(keys, identity));
    lemma_order_is_unique(keys, order, identity);
}

/// A position whose key is greater than every other key is ranked first.
pub proof fn lemma_greatest_is_first(keys: Seq<u128>, order: Seq<usize>, i: int)
    requires
        is_descending_order(keys, order),
        0 <= i < keys.len(),
        forall|j: int| 0 <= j < keys.len() && j != i ==> keys[j] < keys[i],
    ensures
        order[0] == i,
{
    lemma_order_is_complete(keys, order, i);
    let a = choose|a: int| 0 <= a < order.len() && order[a] == i;
    if a > 0 {
        assert(ranks_before(keys, order[0] as int, order[a] as int));
    }
}

} // verus!
