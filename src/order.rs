use vstd::prelude::*;

verus! {

/// Entry `a` has a key no larger than entry `b`.
pub open spec fn key_le(keys: Seq<int>) -> spec_fn(int, int) -> bool {
    |a: int, b: int| keys[a] <= keys[b]
}

/// `order` with index `j` inserted after every entry whose key is not larger.
pub open spec fn insert_spec(order: Seq<int>, j: int, keys: Seq<int>) -> Seq<int> {
    insert_by(order, j, key_le(keys))
}

/// Where `insert_spec` puts `j`: after the first `k` entries.
pub proof fn lemma_insert_at(order: Seq<int>, j: int, keys: Seq<int>, k: int)
    requires
        0 <= k <= order.len(),
        forall|i: int| 0 <= i < order.len() ==> 0 <= #[trigger] order[i] < keys.len(),
        0 <= j < keys.len(),
        k == 0 || keys[order[k - 1]] <= keys[j],
        forall|i: int| k <= i < order.len() ==> keys[#[trigger] order[i]] > keys[j],
    ensures
        insert_spec(order, j, keys) == order.subrange(0, k).push(j) + order.subrange(k, order.len() as int),
{
    assert forall|i: int| k <= i < order.len() implies !(key_le(keys))(#[trigger] order[i], j) by {
        assert(keys[order[i]] > keys[j]);
    }
    lemma_insert_by_at(order, j, key_le(keys), k);
}

/// The last position `k` such that every entry after it is later than `j`.
pub proof fn choose_insert_point(order: Seq<int>, j: int, keys: Seq<int>) -> (k: int)
    requires
        forall|i: int| 0 <= i < order.len() ==> 0 <= #[trigger] order[i] < keys.len(),
        0 <= j < keys.len(),
    ensures
        0 <= k <= order.len(),
        k == 0 || keys[order[k - 1]] <= keys[j],
        forall|i: int| k <= i < order.len() ==> keys[#[trigger] order[i]] > keys[j],
    decreases order.len(),
{
    if order.len() == 0 {
        0
    } else if keys[order.last()] <= keys[j] {
        order.len() as int
    } else {
        let k = choose_insert_point(order.drop_last(), j, keys);
        assert forall|i: int| k <= i < order.len() implies keys[#[trigger] order[i]] > keys[j] by {
            if i < order.len() - 1 {
                assert(order[i] == order.drop_last()[i]);
            }
        }
        k
    }
}

/// `order` with index `j` inserted after every entry `a` with `before(a, j)`,
/// counted from the back.
pub open spec fn insert_by(order: Seq<int>, j: int, before: spec_fn(int, int) -> bool) -> Seq<int>
    decreases order.len(),
{
    if order.len() == 0 {
        seq![j]
    } else if before(order.last(), j) {
        order.push(j)
    } else {
        insert_by(order.drop_last(), j, before).push(order.last())
    }
}

pub proof fn lemma_insert_by_at(order: Seq<int>, j: int, before: spec_fn(int, int) -> bool, k: int)
    requires
        0 <= k <= order.len(),
        k == 0 || before(order[k - 1], j),
        forall|i: int| k <= i < order.len() ==> !before(#[trigger] order[i], j),
    ensures
        insert_by(order, j, before) == order.subrange(0, k).push(j) + order.subrange(k, order.len() as int),
    decreases order.len(),
{
    if order.len() == 0 {
        assert(seq![j] =~= order.subrange(0, k).push(j) + order.subrange(k, order.len() as int));
    } else if before(order.last(), j) {
        assert(k == order.len());
        assert(order.push(j) =~= order.subrange(0, k).push(j) + order.subrange(k, order.len() as int));
    } else {
        let d = order.drop_last();
        lemma_insert_by_at(d, j, before, k);
        assert(insert_by(d, j, before).push(order.last()) =~= order.subrange(0, k).push(j)
            + order.subrange(k, order.len() as int));
    }
}

/// The last position `k` after which no entry comes before `j`.
pub proof fn choose_insert_by_point(order: Seq<int>, j: int, before: spec_fn(int, int) -> bool) -> (k: int)
    ensures
        0 <= k <= order.len(),
        k == 0 || before(order[k - 1], j),
        forall|i: int| k <= i < order.len() ==> !before(#[trigger] order[i], j),
    decreases order.len(),
{
    if order.len() == 0 {
        0
    } else if before(order.last(), j) {
        order.len() as int
    } else {
        let k = choose_insert_by_point(order.drop_last(), j, before);
        assert forall|i: int| k <= i < order.len() implies !before(#[trigger] order[i], j) by {
            if i < order.len() - 1 {
                assert(order[i] == order.drop_last()[i]);
            }
        }
        k
    }
}

} // verus!
