//! Ordering of scored items: by score, highest first; equal scores by a
//! second key, highest first (a timestamp where there is one); and what is
//! still equal by position, earliest first.
use vstd::prelude::*;

verus! {

/// Whether item `i` ranks ahead of item `j` under `keys` (score, second key).
pub open spec fn ranks_before(keys: Seq<(u64, u64)>, i: int, j: int) -> bool {
    keys[i].0 > keys[j].0 || (keys[i].0 == keys[j].0 && (keys[i].1 > keys[j].1 || (keys[i].1 == keys[j].1
        && i < j)))
}

/// `order` lists every index of `keys` once, ranked.
pub open spec fn is_ranking(keys: Seq<(u64, u64)>, order: Seq<usize>) -> bool {
    &&& order.len() == keys.len()
    &&& forall|a: int| 0 <= a < order.len() ==> #[trigger] order[a] < keys.len()
    &&& forall|a: int, b: int|
        0 <= a < b < order.len() ==> ranks_before(keys, #[trigger] order[a] as int, #[trigger] order[b] as int)
    &&& forall|i: int| 0 <= i < keys.len() ==> #[trigger] lists(order, i)
}

/// `order` holds the index `i`.
pub open spec fn lists(order: Seq<usize>, i: int) -> bool {
    exists|a: int| 0 <= a < order.len() && order[a] == i
}

/// There is one ranking of a set of keys.
pub proof fn lemma_ranking_unique(keys: Seq<(u64, u64)>, r1: Seq<usize>, r2: Seq<usize>)
    requires
        is_ranking(keys, r1),
        is_ranking(keys, r2),
    ensures
        r1 == r2,
{
    if r1 != r2 {
        assert(!(r1 =~= r2));
        let a = choose|a: int| 0 <= a < r1.len() && r1[a] != r2[a] && forall|c: int| 0 <= c < a ==> r1[c] == r2[c];
        assert(exists|a: int| 0 <= a < r1.len() && r1[a] != r2[a]) by {
            let d = choose|d: int| 0 <= d < r1.len() && r1[d] != r2[d];
        }
        lemma_first_difference(r1, r2);
        let x = r1[a] as int;
        let y = r2[a] as int;
        assert(lists(r1, y));
        assert(lists(r2, x));
        let b = choose|b: int| 0 <= b < r1.len() && r1[b] == y;
        let c = choose|c: int| 0 <= c < r2.len() && r2[c] == x;
        if b < a {
            assert(r2[b] == y);
            assert(ranks_before(keys, r2[b] as int, r2[a] as int));
        }
        if c < a {
            assert(r1[c] == x);
            assert(ranks_before(keys, r1[c] as int, r1[a] as int));
        }
        assert(ranks_before(keys, x, y));
        assert(ranks_before(keys, y, x));
    }
}

/// The ranking of `keys`.
pub open spec fn ranked_order(keys: Seq<(u64, u64)>) -> Seq<usize> {
    choose|o: Seq<usize>| is_ranking(keys, o)
}

/// How many of `n` items a request for `limit` receives.
pub open spec fn take_len(limit: u64, n: int) -> int {
    if (limit as int) < n { limit as int } else { n }
}

/// A ranking of `keys` is the ranking of `keys`.
pub proof fn lemma_ranked_order(keys: Seq<(u64, u64)>, o: Seq<usize>)
    requires
        is_ranking(keys, o),
    ensures
        ranked_order(keys) == o,
        is_ranking(keys, ranked_order(keys)),
{
    let c = ranked_order(keys);
    lemma_ranking_unique(keys, c, o);
}

proof fn lemma_first_difference(r1: Seq<usize>, r2: Seq<usize>)
    requires
        r1.len() == r2.len(),
        exists|d: int| 0 <= d < r1.len() && r1[d] != r2[d],
    ensures
        exists|a: int| 0 <= a < r1.len() && r1[a] != r2[a] && forall|c: int| 0 <= c < a ==> r1[c] == r2[c],
    decreases r1.len(),
{
    if r1[0] != r2[0] {
        assert(forall|c: int| 0 <= c < 0 ==> r1[c] == r2[c]);
    } else {
        let d = choose|d: int| 0 <= d < r1.len() && r1[d] != r2[d];
        assert(r1.skip(1)[d - 1] != r2.skip(1)[d - 1]);
        lemma_first_difference(r1.skip(1), r2.skip(1));
        let a = choose|a: int|
            0 <= a < r1.len() - 1 && r1.skip(1)[a] != r2.skip(1)[a] && forall|c: int|
                0 <= c < a ==> r1.skip(1)[c] == r2.skip(1)[c];
        assert forall|c: int| 0 <= c < a + 1 implies r1[c] == r2[c] by {
            if c > 0 {
                assert(r1[c] == r1.skip(1)[c - 1]);
                assert(r2[c] == r2.skip(1)[c - 1]);
            }
        }
        assert(r1[a + 1] != r2[a + 1]);
    }
}

fn ranks_before_exec(keys: &Vec<(u64, u64)>, i: usize, j: usize) -> (r: bool)
    requires
        i < keys@.len(),
        j < keys@.len(),
    ensures
        r == ranks_before(keys@, i as int, j as int),
{
    let (si, ti) = keys[i];
    let (sj, tj) = keys[j];
    si > sj || (si == sj && (ti > tj || (ti == tj && i < j)))
}

/// The indices of `keys` in ranked order.
pub fn rank(keys: &Vec<(u64, u64)>) -> (order: Vec<usize>)
    ensures
        is_ranking(keys@, order@),
        order@ == ranked_order(keys@),
{
    let n = keys.len();
    let mut order: Vec<usize> = Vec::new();
    let mut i: usize = 0;
    while i < n
        invariant
            n == keys@.len(),
            i <= n,
            order@.len() == i,
            forall|a: int| 0 <= a < order@.len() ==> #[trigger] order@[a] < i,
            forall|a: int, b: int|
                0 <= a < b < order@.len() ==> ranks_before(keys@, #[trigger] order@[a] as int, #[trigger] order@[b] as int),
            forall|k: int| 0 <= k < i ==> #[trigger] lists(order@, k),
        decreases n - i,
    {
        let mut p: usize = 0;
        while p < order.len() && !ranks_before_exec(keys, i, order[p])
            invariant
                n == keys@.len(),
                i < n,
                p <= order@.len(),
                forall|a: int| 0 <= a < order@.len() ==> #[trigger] order@[a] < i,
                forall|a: int| 0 <= a < p ==> ranks_before(keys@, #[trigger] order@[a] as int, i as int),
            decreases order@.len() - p,
        {
            p = p + 1;
        }
        let ghost old_order = order@;
        order.insert(p, i);
        proof {
            assert(order@ == old_order.insert(p as int, i));
            assert forall|a: int| 0 <= a < order@.len() implies #[trigger] order@[a] < i + 1 by {
                if a < p {
                    assert(order@[a] == old_order[a]);
                } else if a > p {
                    assert(order@[a] == old_order[a - 1]);
                }
            }
            assert forall|a: int, b: int| 0 <= a < b < order@.len() implies ranks_before(
                keys@,
                #[trigger] order@[a] as int,
                #[trigger] order@[b] as int,
            ) by {
                if b < p {
                    assert(order@[a] == old_order[a] && order@[b] == old_order[b]);
                } else if b == p {
                    assert(order@[a] == old_order[a]);
                } else if a < p {
                    assert(order@[a] == old_order[a] && order@[b] == old_order[b - 1]);
                    assert(ranks_before(keys@, old_order[a] as int, i as int));
                    if p < old_order.len() {
                        assert(ranks_before(keys@, i as int, old_order[p as int] as int));
                        if b - 1 > p {
                            assert(ranks_before(keys@, old_order[p as int] as int, old_order[b - 1] as int));
                        }
                    }
                } else if a == p {
                    assert(order@[b] == old_order[b - 1]);
                    assert(ranks_before(keys@, i as int, old_order[p as int] as int));
                    if b - 1 > p {
                        assert(ranks_before(keys@, old_order[p as int] as int, old_order[b - 1] as int));
                    }
                } else {
                    assert(order@[a] == old_order[a - 1] && order@[b] == old_order[b - 1]);
                }
            }
            assert forall|k: int| 0 <= k < i + 1 implies #[trigger] lists(order@, k) by {
                if k == i {
                    assert(order@[p as int] == k);
                } else {
                    assert(lists(old_order, k));
                    let a = choose|a: int| 0 <= a < old_order.len() && old_order[a] == k;
                    if a < p {
                        assert(order@[a] == k);
                    } else {
                        assert(order@[a + 1] == k);
                    }
                }
            }
        }
        i = i + 1;
    }
    proof {
        lemma_ranked_order(keys@, order@);
    }
    order
}

} // verus!
