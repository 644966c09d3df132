//! Stable ranking: the positions of a list in descending order of a key.
use vstd::prelude::*;

verus! {

/// `order` with position `p` placed behind every position whose key is at
/// least that of `p`, and before the others.
pub open spec fn placed(order: Seq<int>, keys: Seq<int>, p: int) -> Seq<int>
    decreases order.len(),
{
    if order.len() == 0 {
        seq![p]
    } else if keys[order.last()] >= keys[p] {
        order.push(p)
    } else {
        placed(order.drop_last(), keys, p).push(order.last())
    }
}

/// The first `n` positions in descending order of their keys, equal keys in
/// the order of their positions.
pub open spec fn ranked_upto(keys: Seq<int>, n: int) -> Seq<int>
    decreases n,
{
    if n <= 0 {
        Seq::<int>::empty()
    } else {
        placed(ranked_upto(keys, n - 1), keys, n - 1)
    }
}

/// All positions in descending order of their keys, equal keys in the order of
/// their positions.
pub open spec fn ranked(keys: Seq<int>) -> Seq<int> {
    ranked_upto(keys, keys.len() as int)
}

/// Whether position `p` stands before position `q`: a greater key, or the same
/// key and an earlier position.
pub open spec fn outranks(keys: Seq<int>, p: int, q: int) -> bool {
    keys[p] > keys[q] || (keys[p] == keys[q] && p < q)
}

/// Whether an order is ranked throughout.
pub open spec fn in_rank_order(keys: Seq<int>, order: Seq<int>) -> bool {
    forall|i: int, j: int|
        0 <= i < j < order.len() ==> outranks(keys, #[trigger] order[i], #[trigger] order[j])
}

proof fn lemma_placed(order: Seq<int>, keys: Seq<int>, p: int)
    requires
        in_rank_order(keys, order),
        forall|i: int| 0 <= i < order.len() ==> #[trigger] order[i] < p,
    ensures
        in_rank_order(keys, placed(order, keys, p)),
        placed(order, keys, p).len() == order.len() + 1,
        forall|q: int|
            #[trigger] placed(order, keys, p).contains(q) <==> (order.contains(q) || q == p),
        forall|i: int|
            0 <= i < order.len() + 1 ==> (#[trigger] placed(order, keys, p)[i] == p
                || order.contains(placed(order, keys, p)[i])),
    decreases order.len(),
{
    let r = placed(order, keys, p);
    if order.len() == 0 {
        assert(r[0] == p);
    } else if keys[order.last()] >= keys[p] {
        assert forall|i: int| 0 <= i < order.len() implies outranks(keys, #[trigger] order[i], p) by {
            if i < order.len() - 1 {
                assert(outranks(keys, order[i], order[order.len() - 1]));
            }
        }
        assert forall|q: int| #[trigger] r.contains(q) <==> (order.contains(q) || q == p) by {
            if order.contains(q) {
                let j = choose|j: int| 0 <= j < order.len() && order[j] == q;
                assert(r[j] == q);
            }
            if q == p {
                assert(r[order.len() as int] == q);
            }
        }
        assert forall|i: int| 0 <= i < order.len() + 1 implies (#[trigger] r[i] == p
            || order.contains(r[i])) by {
            if i < order.len() {
                assert(r[i] == order[i]);
            }
        }
    } else {
        let head = order.drop_last();
        let last = order.last();
        assert(forall|i: int| 0 <= i < head.len() ==> head[i] == order[i]);
        lemma_placed(head, keys, p);
        let h = placed(head, keys, p);
        assert forall|i: int| 0 <= i < h.len() implies outranks(keys, #[trigger] h[i], last) by {
            if h[i] != p {
                let j = choose|j: int| 0 <= j < head.len() && head[j] == h[i];
                assert(outranks(keys, order[j], order[order.len() - 1]));
            }
        }
        assert forall|q: int| #[trigger] r.contains(q) <==> (order.contains(q) || q == p) by {
            if r.contains(q) {
                let j = choose|j: int| 0 <= j < r.len() && r[j] == q;
                if j < h.len() {
                    assert(h[j] == q);
                    assert(h.contains(q));
                    if q != p {
                        let m = choose|m: int| 0 <= m < head.len() && head[m] == q;
                        assert(order[m] == q);
                    }
                } else {
                    assert(order[order.len() - 1] == q);
                }
            }
            if order.contains(q) || q == p {
                if q == last && q != p {
                    assert(r[h.len() as int] == q);
                } else {
                    if q != p {
                        let m = choose|m: int| 0 <= m < order.len() && order[m] == q;
                        assert(head[m] == q);
                    }
                    assert(h.contains(q));
                    let j = choose|j: int| 0 <= j < h.len() && h[j] == q;
                    assert(r[j] == q);
                }
            }
        }
        assert forall|i: int| 0 <= i < order.len() + 1 implies (#[trigger] r[i] == p
            || order.contains(r[i])) by {
            assert(r.contains(r[i]));
        }
    }
}

/// A ranking is a rearrangement of all positions in which every position
/// stands before those of smaller key, and before later ones of equal key.
pub proof fn law_ranked(keys: Seq<int>, n: int)
    requires
        0 <= n <= keys.len(),
    ensures
        ranked_upto(keys, n).len() == n,
        in_rank_order(keys, ranked_upto(keys, n)),
        forall|q: int| #[trigger] ranked_upto(keys, n).contains(q) <==> 0 <= q < n,
        forall|i: int| 0 <= i < n ==> 0 <= #[trigger] ranked_upto(keys, n)[i] < n,
        ranked_upto(keys, n).no_duplicates(),
    decreases n,
{
    let r = ranked_upto(keys, n);
    if n > 0 {
        law_ranked(keys, n - 1);
        lemma_placed(ranked_upto(keys, n - 1), keys, n - 1);
        assert forall|q: int| #[trigger] r.contains(q) <==> 0 <= q < n by {
            assert(ranked_upto(keys, n - 1).contains(q) <==> 0 <= q < n - 1);
        }
        assert forall|i: int| 0 <= i < n implies 0 <= #[trigger] r[i] < n by {
            assert(r.contains(r[i]));
        }
    }
    assert forall|i: int, j: int| 0 <= i < r.len() && 0 <= j < r.len() && i != j implies r[i]
        != r[j] by {
        if i < j {
            assert(outranks(keys, r[i], r[j]));
        } else {
            assert(outranks(keys, r[j], r[i]));
        }
    }
}

/// The mathematical values of a list of machine integers.
pub open spec fn ints(v: Seq<i64>) -> Seq<int> {
    v.map_values(|k: i64| k as int)
}

/// The mathematical values of a list of positions.
pub open spec fn places(v: Seq<usize>) -> Seq<int> {
    v.map_values(|k: usize| k as int)
}

/// Ranks positions by descending key.
pub fn rank(keys: &Vec<i64>) -> (r: Vec<usize>)
    ensures
        places(r@) == ranked(ints(keys@)),
        r@.len() == keys@.len(),
        forall|i: int| 0 <= i < r@.len() ==> #[trigger] r@[i] < keys@.len(),
{
    let ghost ks = ints(keys@);
    let mut order: Vec<usize> = Vec::new();
    let mut p: usize = 0;
    assert(places(order@) =~= ranked_upto(ks, 0));
    while p < keys.len()
        invariant
            p <= keys@.len(),
            ks == ints(keys@),
            places(order@) == ranked_upto(ks, p as int),
        decreases keys@.len() - p,
    {
        let ghost o = places(order@);
        proof {
            law_ranked(ks, p as int);
            assert forall|i: int| 0 <= i < order@.len() implies #[trigger] order@[i] < p by {
                assert(o[i] == order@[i]);
            }
        }
        let mut k: usize = order.len();
        assert(o.take(k as int) =~= o);
        assert(placed(o, ks, p as int) =~= placed(o.take(k as int), ks, p as int) + o.skip(
            k as int,
        ));
        while k > 0 && keys[order[k - 1]] < keys[p]
            invariant
                p < keys@.len(),
                ks == ints(keys@),
                o == places(order@),
                o.len() == p,
                k <= order@.len(),
                forall|i: int| 0 <= i < order@.len() ==> #[trigger] order@[i] < p,
                placed(o, ks, p as int) == placed(
                    o.take(k as int),
                    ks,
                    p as int,
                ) + o.skip(k as int),
            decreases k,
        {
            proof {
                let q = order@[k - 1] as int;
                assert(o.take(k as int).drop_last() =~= o.take(k - 1));
                assert(o.take(k as int).last() == q);
                assert(ks[q] < ks[p as int]);
                assert(placed(o.take(k as int), ks, p as int) == placed(
                    o.take(k - 1),
                    ks,
                    p as int,
                ).push(q));
                assert(placed(o.take(k - 1), ks, p as int).push(q) + o.skip(k as int) =~= placed(
                    o.take(k - 1),
                    ks,
                    p as int,
                ) + o.skip(k - 1));
            }
            k -= 1;
        }
        proof {
            if k > 0 {
                assert(o.take(k as int).last() == order@[k - 1]);
                assert(o.take(k as int) =~= o.take(k as int));
            }
            assert(placed(o.take(k as int), ks, p as int) =~= o.take(k as int).push(p as int));
            assert(o.take(k as int).push(p as int) + o.skip(k as int) =~= o.insert(
                k as int,
                p as int,
            ));
        }
        order.insert(k, p);
        assert(places(order@) =~= o.insert(k as int, p as int));
        p += 1;
    }
    proof {
        law_ranked(ks, keys@.len() as int);
        assert forall|i: int| 0 <= i < order@.len() implies #[trigger] order@[i] < keys@.len() by {
            assert(places(order@)[i] == order@[i]);
        }
    }
    order
}

/// The `limit` candidates of greatest key in descending order, `keys[k]` being
/// the key of `cands[k]`; candidates of equal key keep their order.
pub open spec fn top_of(cands: Seq<int>, keys: Seq<int>, limit: int) -> Seq<int> {
    let order = ranked(keys);
    let n = if limit < order.len() {
        limit
    } else {
        order.len() as int
    };
    order.take(n).map_values(|k: int| cands[k])
}

/// What is taken from the top is at most `limit` candidates, in descending
/// order of their keys, and none of those left out has a greater key.
pub proof fn law_top(cands: Seq<int>, keys: Seq<int>, limit: int)
    requires
        cands.len() == keys.len(),
        0 <= limit,
    ensures
        top_of(cands, keys, limit).len() <= limit,
        top_of(cands, keys, limit).len() == if limit < cands.len() {
            limit
        } else {
            cands.len() as int
        },
        forall|i: int|
            0 <= i < top_of(cands, keys, limit).len() ==> 0 <= #[trigger] ranked(keys)[i]
                < cands.len() && top_of(cands, keys, limit)[i] == cands[ranked(keys)[i]],
        forall|i: int, j: int|
            0 <= i < j < ranked(keys).len() ==> keys[#[trigger] ranked(keys)[i]]
                >= keys[#[trigger] ranked(keys)[j]],
{
    law_ranked(keys, keys.len() as int);
    let order = ranked(keys);
    assert forall|i: int, j: int| 0 <= i < j < order.len() implies keys[#[trigger] order[i]]
        >= keys[#[trigger] order[j]] by {
        assert(outranks(keys, order[i], order[j]));
    }
}

/// Takes the best candidates.
pub fn top(cands: &Vec<usize>, keys: &Vec<i64>, limit: usize) -> (r: Vec<usize>)
    requires
        cands@.len() == keys@.len(),
    ensures
        places(r@) == top_of(places(cands@), ints(keys@), limit as int),
        forall|i: int| 0 <= i < r@.len() ==> cands@.contains(#[trigger] r@[i]),
{
    let order = rank(keys);
    let n: usize = if limit < order.len() {
        limit
    } else {
        order.len()
    };
    let ghost want = top_of(places(cands@), ints(keys@), limit as int);
    let mut out: Vec<usize> = Vec::new();
    let mut k: usize = 0;
    while k < n
        invariant
            k <= n <= order@.len(),
            order@.len() == cands@.len(),
            places(order@) == ranked(ints(keys@)),
            n == want.len(),
            want == places(order@).take(n as int).map_values(|k: int| places(cands@)[k]),
            forall|i: int| 0 <= i < order@.len() ==> #[trigger] order@[i] < cands@.len(),
            places(out@) == want.take(k as int),
            forall|i: int| 0 <= i < out@.len() ==> cands@.contains(#[trigger] out@[i]),
        decreases n - k,
    {
        let ghost before = places(out@);
        let c: usize = cands[order[k]];
        out.push(c);
        proof {
            assert(places(order@)[k as int] == order@[k as int]);
            assert(want[k as int] == c);
            assert(places(out@) =~= before.push(c as int));
            assert(want.take(k + 1) =~= want.take(k as int).push(want[k as int]));
        }
        k += 1;
    }
    assert(want.take(k as int) =~= want);
    out
}

/// What stands in descending order already is ranked as it stands.
pub proof fn law_ranked_lists_stay(keys: Seq<int>, n: int)
    requires
        0 <= n <= keys.len(),
        forall|i: int, j: int| 0 <= i < j < keys.len() ==> #[trigger] keys[i] >= #[trigger] keys[j],
    ensures
        ranked_upto(keys, n) == Seq::new(n as nat, |i: int| i),
    decreases n,
{
    if n > 0 {
        law_ranked_lists_stay(keys, n - 1);
        let before = ranked_upto(keys, n - 1);
        if n > 1 {
            assert(before.last() == n - 2);
            assert(keys[n - 2] >= keys[n - 1]);
        }
    }
    assert(ranked_upto(keys, n) =~= Seq::new(n as nat, |i: int| i));
}

} // verus!
