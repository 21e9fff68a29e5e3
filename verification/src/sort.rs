//! A stable ordering of positions by integer keys.

use vstd::prelude::*;

verus! {

broadcast use vstd::seq_lib::group_to_multiset_ensures;

/// Position `a` goes before position `b`: a smaller key first, and on equal
/// keys the earlier position first.
pub open spec fn key_before(keys: Seq<u64>, a: int, b: int) -> bool {
    keys[a] < keys[b] || (keys[a] == keys[b] && a < b)
}

/// Each position of `order` goes before every later one.
pub open spec fn strictly_ordered(keys: Seq<u64>, order: Seq<usize>) -> bool {
    forall|k: int, l: int|
        0 <= k < l < order.len() ==> #[trigger] key_before(keys, order[k] as int, order[l] as int)
}

/// The positions `lo, lo + 1, ..., hi - 1`.
pub open spec fn index_range(lo: int, hi: int) -> Seq<usize> {
    Seq::new((hi - lo) as nat, |i: int| (lo + i) as usize)
}

/// `order` lists every position of `keys` once, by key, keeping equal keys
/// in their first order: what a stable sort by key makes of the positions.
pub open spec fn is_stable_order(keys: Seq<u64>, order: Seq<usize>) -> bool {
    &&& order.to_multiset() == index_range(0, keys.len() as int).to_multiset()
    &&& strictly_ordered(keys, order)
}

pub open spec fn within(order: Seq<usize>, lo: int, hi: int) -> bool {
    forall|k: int| 0 <= k < order.len() ==> lo <= #[trigger] order[k] < hi
}

fn merge(keys: &Vec<u64>, a: Vec<usize>, b: Vec<usize>, lo: Ghost<int>, mid: Ghost<int>, hi: Ghost<int>) -> (r: Vec<usize>)
    requires
        0 <= lo@ <= mid@ <= hi@ <= keys.len(),
        within(a@, lo@, mid@),
        within(b@, mid@, hi@),
        strictly_ordered(keys@, a@),
        strictly_ordered(keys@, b@),
    ensures
        within(r@, lo@, hi@),
        strictly_ordered(keys@, r@),
        r@.to_multiset() == a@.to_multiset().add(b@.to_multiset()),
{
    let mut r: Vec<usize> = Vec::new();
    let mut i: usize = 0;
    let mut j: usize = 0;
    while i < a.len() || j < b.len()
        invariant
            0 <= lo@ <= mid@ <= hi@ <= keys.len(),
            within(a@, lo@, mid@),
            within(b@, mid@, hi@),
            strictly_ordered(keys@, a@),
            strictly_ordered(keys@, b@),
            i <= a.len(),
            j <= b.len(),
            within(r@, lo@, hi@),
            strictly_ordered(keys@, r@),
            r@.to_multiset() == a@.take(i as int).to_multiset().add(b@.take(j as int).to_multiset()),
            r@.len() > 0 && i < a.len() ==> key_before(keys@, r@.last() as int, a@[i as int] as int),
            r@.len() > 0 && j < b.len() ==> key_before(keys@, r@.last() as int, b@[j as int] as int),
        decreases a.len() + b.len() - i - j,
    {
        let take_a = if i < a.len() && j < b.len() {
            let x = a[i];
            let y = b[j];
            keys[x] < keys[y] || (keys[x] == keys[y] && x < y)
        } else {
            i < a.len()
        };
        let ghost old_r = r@;
        if take_a {
            let x = a[i];
            proof {
                assert forall|k: int| 0 <= k < old_r.len() implies key_before(keys@, old_r[k] as int, x as int) by {
                    if k < old_r.len() - 1 {
                        assert(key_before(keys@, old_r[k] as int, old_r[old_r.len() - 1] as int));
                    }
                }
                if i + 1 < a.len() {
                    assert(key_before(keys@, a@[i as int] as int, a@[i + 1] as int));
                }
                assert(a@.take(i + 1) == a@.take(i as int).push(x));
            }
            r.push(x);
            i += 1;
        } else {
            let y = b[j];
            proof {
                assert forall|k: int| 0 <= k < old_r.len() implies key_before(keys@, old_r[k] as int, y as int) by {
                    if k < old_r.len() - 1 {
                        assert(key_before(keys@, old_r[k] as int, old_r[old_r.len() - 1] as int));
                    }
                }
                if j + 1 < b.len() {
                    assert(key_before(keys@, b@[j as int] as int, b@[j + 1] as int));
                }
                assert(b@.take(j + 1) == b@.take(j as int).push(y));
            }
            r.push(y);
            j += 1;
        }
        assert(r@ == old_r.push(r@.last()));
        assert forall|k: int, l: int| 0 <= k < l < r@.len() implies #[trigger] key_before(keys@, r@[k] as int, r@[l] as int) by {
            if l < old_r.len() {
                assert(key_before(keys@, old_r[k] as int, old_r[l] as int));
            }
        }
    }
    assert(a@.take(a.len() as int) == a@);
    assert(b@.take(b.len() as int) == b@);
    r
}

fn sort_range(keys: &Vec<u64>, lo: usize, hi: usize) -> (r: Vec<usize>)
    requires
        lo < hi <= keys.len(),
    ensures
        within(r@, lo as int, hi as int),
        strictly_ordered(keys@, r@),
        r@.to_multiset() == index_range(lo as int, hi as int).to_multiset(),
    decreases hi - lo,
{
    if hi - lo == 1 {
        let mut r: Vec<usize> = Vec::new();
        r.push(lo);
        assert(r@ == index_range(lo as int, hi as int));
        r
    } else {
        let mid = lo + (hi - lo) / 2;
        let a = sort_range(keys, lo, mid);
        let b = sort_range(keys, mid, hi);
        let r = merge(keys, a, b, Ghost(lo as int), Ghost(mid as int), Ghost(hi as int));
        proof {
            assert(index_range(lo as int, hi as int)
                == index_range(lo as int, mid as int) + index_range(mid as int, hi as int));
            vstd::seq_lib::lemma_multiset_commutative(
                index_range(lo as int, mid as int),
                index_range(mid as int, hi as int),
            );
        }
        r
    }
}

/// The positions `0..keys.len()` in the order a stable sort by key puts
/// them: by key, and equal keys in the order they had.
pub fn stable_order(keys: &Vec<u64>) -> (order: Vec<usize>)
    ensures
        is_stable_order(keys@, order@),
        order@ == stable_order_of(keys@),
{
    let order = stable_order_any(keys);
    proof {
        lemma_stable_order_unique(keys@, order@, stable_order_of(keys@));
    }
    order
}

fn stable_order_any(keys: &Vec<u64>) -> (order: Vec<usize>)
    ensures
        is_stable_order(keys@, order@),
{
    if keys.len() == 0 {
        let order: Vec<usize> = Vec::new();
        assert(order@ == index_range(0, 0));
        order
    } else {
        sort_range(keys, 0, keys.len())
    }
}


/// Two orders that each put their positions strictly by key and position,
/// and list the same positions, are the same order.
pub proof fn lemma_strict_orders_agree(keys: Seq<u64>, o1: Seq<usize>, o2: Seq<usize>)
    requires
        strictly_ordered(keys, o1),
        strictly_ordered(keys, o2),
        o1.to_multiset() == o2.to_multiset(),
    ensures
        o1 == o2,
    decreases o1.len(),
{
    assert(o1.len() == o1.to_multiset().len());
    assert(o2.len() == o2.to_multiset().len());
    if o1.len() > 0 {
        let n = o1.len() - 1;
        let x1 = o1[n];
        let x2 = o2[n];
        assert(o1.contains(x1));
        assert(o1.to_multiset().count(x1) > 0);
        assert(o2.contains(x1));
        assert(o2.contains(x2));
        assert(o2.to_multiset().count(x2) > 0);
        assert(o1.contains(x2));
        if x1 != x2 {
            let k1 = choose|k: int| 0 <= k < o2.len() && o2[k] == x1;
            let k2 = choose|k: int| 0 <= k < o1.len() && o1[k] == x2;
            assert(k1 < n);
            assert(k2 < n);
            assert(key_before(keys, o2[k1] as int, o2[n] as int));
            assert(key_before(keys, o1[k2] as int, o1[n] as int));
            assert(false);
        }
        assert(o1.remove(n) == o1.drop_last());
        assert(o2.remove(n) == o2.drop_last());
        assert(o1.drop_last().to_multiset() == o1.to_multiset().remove(x1));
        assert(o2.drop_last().to_multiset() == o2.to_multiset().remove(x2));
        assert(strictly_ordered(keys, o1.drop_last())) by {
            assert forall|k: int, l: int| 0 <= k < l < o1.drop_last().len() implies
                #[trigger] key_before(keys, o1.drop_last()[k] as int, o1.drop_last()[l] as int) by {
                assert(key_before(keys, o1[k] as int, o1[l] as int));
            }
        }
        assert(strictly_ordered(keys, o2.drop_last())) by {
            assert forall|k: int, l: int| 0 <= k < l < o2.drop_last().len() implies
                #[trigger] key_before(keys, o2.drop_last()[k] as int, o2.drop_last()[l] as int) by {
                assert(key_before(keys, o2[k] as int, o2[l] as int));
            }
        }
        lemma_strict_orders_agree(keys, o1.drop_last(), o2.drop_last());
        assert(o1 == o1.drop_last().push(x1));
        assert(o2 == o2.drop_last().push(x2));
    }
}

/// There is only one stable order of a list of keys.
pub proof fn lemma_stable_order_unique(keys: Seq<u64>, o1: Seq<usize>, o2: Seq<usize>)
    requires
        is_stable_order(keys, o1),
        is_stable_order(keys, o2),
    ensures
        o1 == o2,
{
    lemma_strict_orders_agree(keys, o1, o2);
}

/// In a stable order every position `0..keys.len()` stands exactly once.
pub proof fn lemma_stable_order_lists_each_position_once(keys: Seq<u64>, order: Seq<usize>, p: int)
    requires
        is_stable_order(keys, order),
        0 <= p < keys.len(),
        keys.len() <= usize::MAX,
    ensures
        order.len() == keys.len(),
        order.to_multiset().count(p as usize) == 1,
{
    let r = index_range(0, keys.len() as int);
    assert(order.len() == order.to_multiset().len());
    assert(r.len() == r.to_multiset().len());
    assert(r.no_duplicates()) by {
        assert forall|i: int, j: int| 0 <= i < r.len() && 0 <= j < r.len() && i != j implies r[i] != r[j] by {}
    }
    r.lemma_multiset_has_no_duplicates();
    assert(r[p] == p as usize);
    assert(r.contains(p as usize));
}


/// A stable order lists positions below `keys.len()` only, one per key.
pub proof fn lemma_stable_order_in_range(keys: Seq<u64>, order: Seq<usize>)
    requires
        is_stable_order(keys, order),
    ensures
        order.len() == keys.len(),
        forall|k: int| 0 <= k < order.len() ==> #[trigger] order[k] < keys.len(),
{
    let r = index_range(0, keys.len() as int);
    assert(order.len() == order.to_multiset().len());
    assert(r.len() == r.to_multiset().len());
    assert forall|k: int| 0 <= k < order.len() implies #[trigger] order[k] < keys.len() by {
        assert(order.contains(order[k]));
        assert(order.to_multiset().count(order[k]) > 0);
        assert(r.contains(order[k]));
        let j = choose|j: int| 0 <= j < r.len() && r[j] == order[k];
        assert(r[j] == j as usize);
    }
}

/// The first position at or after `j` in `order` whose key exceeds `k`, or
/// the length of `order`.
pub open spec fn insert_pos(keys: Seq<u64>, order: Seq<usize>, k: u64, j: int) -> int
    decreases order.len() - j,
{
    if j >= order.len() {
        order.len() as int
    } else if keys[order[j] as int] > k {
        j
    } else {
        insert_pos(keys, order, k, j + 1)
    }
}

proof fn lemma_insert_pos(keys: Seq<u64>, order: Seq<usize>, k: u64, j: int)
    requires
        0 <= j <= order.len(),
    ensures
        j <= insert_pos(keys, order, k, j) <= order.len(),
        forall|i: int| j <= i < insert_pos(keys, order, k, j) ==> keys[order[i] as int] <= k,
        insert_pos(keys, order, k, j) < order.len() ==> keys[order[insert_pos(keys, order, k, j)] as int] > k,
    decreases order.len() - j,
{
    if j < order.len() && keys[order[j] as int] <= k {
        lemma_insert_pos(keys, order, k, j + 1);
    }
}

/// Every list of keys has a stable order.
pub proof fn lemma_stable_order_exists(keys: Seq<u64>)
    requires
        keys.len() <= usize::MAX,
    ensures
        exists|order: Seq<usize>| is_stable_order(keys, order),
    decreases keys.len(),
{
    let n = keys.len() as int;
    if n == 0 {
        let e = Seq::<usize>::empty();
        assert(index_range(0, 0) =~= e);
        assert(is_stable_order(keys, e));
    } else {
        let ks = keys.drop_last();
        lemma_stable_order_exists(ks);
        let o = choose|order: Seq<usize>| is_stable_order(ks, order);
        lemma_stable_order_in_range(ks, o);
        let x = (n - 1) as usize;
        let k = keys[n - 1];
        lemma_insert_pos(ks, o, k, 0);
        let p = insert_pos(ks, o, k, 0);
        let o2 = o.insert(p, x);
        assert forall|a: int| 0 <= a < o.len() implies #[trigger] keys[o[a] as int] == ks[o[a] as int] by {}
        assert forall|a: int| p <= a < o.len() implies #[trigger] keys[o[a] as int] > k by {
            if a > p {
                assert(key_before(ks, o[p] as int, o[a] as int));
            }
        }
        assert(strictly_ordered(keys, o2)) by {
            assert forall|a: int, b: int| 0 <= a < b < o2.len() implies #[trigger] key_before(keys, o2[a] as int, o2[b] as int) by {
                if b < p {
                    assert(key_before(ks, o[a] as int, o[b] as int));
                } else if b == p {
                    assert(o2[a] == o[a]);
                } else if a < p {
                    assert(o2[b] == o[b - 1]);
                    assert(key_before(ks, o[a] as int, o[b - 1] as int));
                } else if a == p {
                    assert(o2[b] == o[b - 1]);
                } else {
                    assert(key_before(ks, o[a - 1] as int, o[b - 1] as int));
                }
            }
        }
        vstd::seq_lib::to_multiset_insert(o, p, x);
        assert(index_range(0, n) =~= index_range(0, n - 1).push(x));
        assert(is_stable_order(keys, o2));
    }
}

/// Mapping two lists that hold the same elements gives lists that hold the
/// same images.
pub proof fn lemma_map_same_elements<B>(o: Seq<usize>, p: Seq<usize>, f: spec_fn(usize) -> B)
    requires
        o.to_multiset() == p.to_multiset(),
    ensures
        o.map_values(f).to_multiset() == p.map_values(f).to_multiset(),
    decreases o.len(),
{
    assert(o.len() == o.to_multiset().len());
    assert(p.len() == p.to_multiset().len());
    if o.len() > 0 {
        let x = o.last();
        assert(o.contains(x));
        assert(o.to_multiset().count(x) > 0);
        assert(p.contains(x));
        let j = choose|j: int| 0 <= j < p.len() && p[j] == x;
        let o1 = o.drop_last();
        let p1 = p.remove(j);
        assert(o.remove(o.len() - 1) == o1);
        assert(o1.to_multiset() == o.to_multiset().remove(x));
        assert(p1.to_multiset() == p.to_multiset().remove(x));
        lemma_map_same_elements(o1, p1, f);
        assert(o.map_values(f) =~= o1.map_values(f).push(f(x)));
        assert(p.map_values(f).remove(j) =~= p1.map_values(f));
        assert(p.map_values(f).to_multiset().remove(f(x)) == p1.map_values(f).to_multiset());
        assert(p.map_values(f).contains(f(x))) by {
            assert(p.map_values(f)[j] == f(x));
        }
        assert(p.map_values(f).to_multiset().count(f(x)) > 0);
        assert(p.map_values(f).to_multiset() =~= p1.map_values(f).to_multiset().insert(f(x)));
    }
}

/// The stable order of `keys`.
pub open spec fn stable_order_of(keys: Seq<u64>) -> Seq<usize> {
    choose|order: Seq<usize>| is_stable_order(keys, order)
}

} // verus!
