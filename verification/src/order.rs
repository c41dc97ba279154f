//! Ordering things by a key.

use vstd::prelude::*;

verus! {

/// Whether index `i` comes before index `j`: by key, then by index.
pub open spec fn comes_before(keys: Seq<Option<u64>>, i: usize, j: usize) -> bool {
    let a = keys[i as int]->0;
    let b = keys[j as int]->0;
    a < b || (a == b && i < j)
}

/// `order` with index `i` put behind everything that comes before it.
pub open spec fn inserted(keys: Seq<Option<u64>>, order: Seq<usize>, i: usize) -> Seq<usize>
    decreases order.len(),
{
    if order.len() == 0 || comes_before(keys, order.last(), i) {
        order.push(i)
    } else {
        inserted(keys, order.drop_last(), i).push(order.last())
    }
}

/// Those of the first `n` indices that have a key, ordered by key and then by
/// index.
pub open spec fn ordered_by_key(keys: Seq<Option<u64>>, n: int) -> Seq<usize>
    decreases n,
{
    if n <= 0 {
        Seq::empty()
    } else if keys[n - 1] is Some {
        inserted(keys, ordered_by_key(keys, n - 1), (n - 1) as usize)
    } else {
        ordered_by_key(keys, n - 1)
    }
}

/// `order` is ascending and consists of the first `n` indices that have a key.
pub open spec fn is_order(keys: Seq<Option<u64>>, order: Seq<usize>, n: int) -> bool {
    &&& forall|a: int, b: int|
        0 <= a < b < order.len() ==> comes_before(keys, #[trigger] order[a], #[trigger] order[b])
    &&& forall|a: int| 0 <= a < order.len() ==> #[trigger] order[a] < n && keys[order[a] as int] is Some
    &&& forall|i: int|
        0 <= i < n && #[trigger] keys[i] is Some ==> order.contains(i as usize)
}

proof fn lemma_inserted(keys: Seq<Option<u64>>, order: Seq<usize>, i: usize)
    requires
        i < keys.len(),
        forall|a: int, b: int|
            0 <= a < b < order.len() ==> comes_before(
                keys,
                #[trigger] order[a],
                #[trigger] order[b],
            ),
        forall|a: int| 0 <= a < order.len() ==> #[trigger] order[a] < i,
    ensures
        ({
            let r = inserted(keys, order, i);
            &&& r.len() == order.len() + 1
            &&& forall|a: int, b: int|
                0 <= a < b < r.len() ==> comes_before(keys, #[trigger] r[a], #[trigger] r[b])
            &&& forall|a: int|
                0 <= a < r.len() ==> #[trigger] r[a] == i || order.contains(r[a])
            &&& r.contains(i)
            &&& forall|x: usize| order.contains(x) ==> #[trigger] r.contains(x)
        }),
    decreases order.len(),
{
    let r = inserted(keys, order, i);
    if order.len() == 0 || comes_before(keys, order.last(), i) {
        assert(r[order.len() as int] == i);
        assert forall|x: usize| order.contains(x) implies #[trigger] r.contains(x) by {
            let k = choose|k: int| 0 <= k < order.len() && order[k] == x;
            assert(r[k] == x);
        }
        assert forall|a: int, b: int| 0 <= a < b < r.len() implies comes_before(
            keys,
            #[trigger] r[a],
            #[trigger] r[b],
        ) by {
            if b == order.len() {
                assert(order[a] == r[a]);
                if a < order.len() - 1 {
                    assert(comes_before(keys, order[a], order[order.len() - 1]));
                }
            } else {
                assert(order[a] == r[a] && order[b] == r[b]);
            }
        }
        assert forall|a: int| 0 <= a < r.len() implies #[trigger] r[a] == i || order.contains(
            r[a],
        ) by {
            if a < order.len() {
                assert(order[a] == r[a]);
            }
        }
    } else {
        let head = order.drop_last();
        let last = order.last();
        assert forall|a: int, b: int| 0 <= a < b < head.len() implies comes_before(
            keys,
            #[trigger] head[a],
            #[trigger] head[b],
        ) by {
            assert(order[a] == head[a] && order[b] == head[b]);
        }
        assert forall|a: int| 0 <= a < head.len() implies #[trigger] head[a] < i by {
            assert(order[a] == head[a]);
        }
        lemma_inserted(keys, head, i);
        let inner = inserted(keys, head, i);
        assert(r =~= inner.push(last));
        assert(order[order.len() - 1] < i);
        assert(r[inner.len() as int] == last);
        let k = choose|k: int| 0 <= k < inner.len() && inner[k] == i;
        assert(r[k] == i);
        assert forall|a: int| 0 <= a < inner.len() implies comes_before(
            keys,
            #[trigger] inner[a],
            last,
        ) by {
            if inner[a] != i {
                let m = choose|m: int| 0 <= m < head.len() && head[m] == inner[a];
                assert(comes_before(keys, order[m], order[order.len() - 1]));
            }
        }
        assert forall|a: int, b: int| 0 <= a < b < r.len() implies comes_before(
            keys,
            #[trigger] r[a],
            #[trigger] r[b],
        ) by {
            assert(r[a] == inner[a]);
            if b < inner.len() {
                assert(r[b] == inner[b]);
            }
        }
        assert forall|a: int| 0 <= a < r.len() implies #[trigger] r[a] == i || order.contains(
            r[a],
        ) by {
            if a < inner.len() {
                assert(r[a] == inner[a]);
                if inner[a] != i {
                    let m = choose|m: int| 0 <= m < head.len() && head[m] == inner[a];
                    assert(order[m] == r[a]);
                }
            } else {
                assert(order[order.len() - 1] == r[a]);
            }
        }
        assert forall|x: usize| order.contains(x) implies #[trigger] r.contains(x) by {
            let m = choose|m: int| 0 <= m < order.len() && order[m] == x;
            if m < head.len() {
                assert(head[m] == x);
                assert(inner.contains(x));
                let q = choose|q: int| 0 <= q < inner.len() && inner[q] == x;
                assert(r[q] == x);
            }
        }
    }
}

/// Inserting adds one index.
pub proof fn lemma_inserted_len(keys: Seq<Option<u64>>, order: Seq<usize>, i: usize)
    ensures
        inserted(keys, order, i).len() == order.len() + 1,
    decreases order.len(),
{
    if order.len() > 0 && !comes_before(keys, order.last(), i) {
        lemma_inserted_len(keys, order.drop_last(), i);
    }
}

/// The order holds exactly the indices that have a key, ascending by key and
/// then by index.
pub proof fn law_order(keys: Seq<Option<u64>>, n: int)
    requires
        0 <= n <= keys.len(),
        n <= usize::MAX,
    ensures
        is_order(keys, ordered_by_key(keys, n), n),
        ordered_by_key(keys, n).len() <= n,
    decreases n,
{
    if n > 0 {
        law_order(keys, n - 1);
        let before = ordered_by_key(keys, n - 1);
        let order = ordered_by_key(keys, n);
        if keys[n - 1] is Some {
            let i = (n - 1) as usize;
            lemma_inserted(keys, before, i);
            assert forall|a: int| 0 <= a < order.len() implies #[trigger] order[a] < n
                && keys[order[a] as int] is Some by {
                if order[a] != i {
                    let k = choose|k: int| 0 <= k < before.len() && before[k] == order[a];
                    assert(before[k] < n - 1);
                }
            }
            assert forall|j: int| 0 <= j < n && #[trigger] keys[j] is Some implies order.contains(
                j as usize,
            ) by {
                if j < n - 1 {
                    assert(before.contains(j as usize));
                }
            }
        } else {
            assert forall|a: int| 0 <= a < order.len() implies #[trigger] order[a] < n
                && keys[order[a] as int] is Some by {
                assert(before[a] < n - 1);
            }
            assert forall|j: int| 0 <= j < n && #[trigger] keys[j] is Some implies order.contains(
                j as usize,
            ) by {
                assert(j < n - 1);
            }
        }
    }
}

/// Puts index `i` behind everything that comes before it.
fn insert(keys: &Vec<Option<u64>>, order: &mut Vec<usize>, i: usize)
    requires
        i < keys@.len(),
        keys@[i as int] is Some,
        forall|a: int|
            0 <= a < old(order)@.len() ==> #[trigger] old(order)@[a] < keys@.len()
                && keys@[old(order)@[a] as int] is Some,
    ensures
        final(order)@ == inserted(keys@, old(order)@, i),
    decreases old(order)@.len(),
{
    let n: usize = order.len();
    if n == 0 {
        order.push(i);
        return ;
    }
    let last: usize = order[n - 1];
    let a: u64 = match keys[last] {
        Some(k) => k,
        None => 0,
    };
    let b: u64 = match keys[i] {
        Some(k) => k,
        None => 0,
    };
    if a < b || (a == b && last < i) {
        order.push(i);
    } else {
        let ghost before = order@;
        order.pop();
        assert(order@ =~= before.drop_last());
        insert(keys, order, i);
        order.push(last);
    }
}

/// The indices that have a key, ordered by key and then by index.
pub fn order_by_key(keys: &Vec<Option<u64>>) -> (order: Vec<usize>)
    ensures
        order@ == ordered_by_key(keys@, keys@.len() as int),
        is_order(keys@, order@, keys@.len() as int),
        order@.len() <= keys@.len(),
{
    let mut order: Vec<usize> = Vec::new();
    let mut i: usize = 0;
    proof {
        law_order(keys@, 0);
    }
    while i < keys.len()
        invariant
            i <= keys@.len(),
            order@ == ordered_by_key(keys@, i as int),
            is_order(keys@, order@, i as int),
            order@.len() <= i,
        decreases keys.len() - i,
    {
        if keys[i].is_some() {
            insert(keys, &mut order, i);
        }
        proof {
            law_order(keys@, i + 1);
        }
        i = i + 1;
    }
    order
}

} // verus!
