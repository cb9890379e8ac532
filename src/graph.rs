//! Directed graphs over the nodes `0..n`, given by successor lists: the
//! predecessor lists of a graph, and a topological order from a seed.
use vstd::prelude::*;

verus! {

/// Every listed node is a node of the graph.
pub open spec fn lists_in_range(g: Seq<Vec<usize>>) -> bool {
    forall|u: int, t: int| 0 <= u < g.len() && 0 <= t < g[u]@.len() ==> (#[trigger] g[u]@[t]) < g.len()
}

/// The list is strictly increasing.
pub open spec fn increasing(s: Seq<usize>) -> bool {
    forall|a: int, b: int| 0 <= a < b < s.len() ==> s[a] < s[b]
}

fn contains_node(s: &Vec<usize>, x: usize) -> (r: bool)
    ensures
        r == s@.contains(x),
{
    let mut i: usize = 0;
    while i < s.len()
        invariant
            i <= s@.len(),
            forall|j: int| 0 <= j < i ==> s@[j] != x,
        decreases s@.len() - i,
    {
        if s[i] == x {
            return true;
        }
        i = i + 1;
    }
    false
}

fn copy_nodes(s: &Vec<usize>) -> (r: Vec<usize>)
    ensures
        r@ == s@,
{
    let mut out: Vec<usize> = Vec::new();
    let mut i: usize = 0;
    while i < s.len()
        invariant
            i <= s@.len(),
            out@ == s@.subrange(0, i as int),
        decreases s@.len() - i,
    {
        out.push(s[i]);
        i = i + 1;
        assert(out@ =~= s@.subrange(0, i as int));
    }
    assert(s@.subrange(0, i as int) =~= s@);
    out
}

/// The predecessor lists of a graph: `u` is listed for `v` exactly when `v`
/// is a successor of `u`, each predecessor once, in increasing order.
pub fn succ_to_pred(succ: &Vec<Vec<usize>>) -> (r: Vec<Vec<usize>>)
    requires
        lists_in_range(succ@),
    ensures
        r@.len() == succ@.len(),
        forall|v: int| 0 <= v < r@.len() ==> increasing(#[trigger] r@[v]@),
        forall|v: usize, u: usize| v < r@.len() ==>
            ((#[trigger] r@[v as int]@.contains(u)) && u < succ@.len()
                <==> u < succ@.len() && succ@[u as int]@.contains(v)),
{
    let n = succ.len();
    let mut pred: Vec<Vec<usize>> = Vec::new();
    let mut i: usize = 0;
    while i < n
        invariant
            i <= n,
            pred@.len() == i,
            forall|v: int| 0 <= v < i ==> (#[trigger] pred@[v])@.len() == 0,
        decreases n - i,
    {
        pred.push(Vec::new());
        i = i + 1;
    }
    let mut u: usize = 0;
    while u < n
        invariant
            n == succ@.len(),
            lists_in_range(succ@),
            u <= n,
            pred@.len() == n,
            forall|v: int| 0 <= v < n ==> increasing(#[trigger] pred@[v]@),
            forall|v: int, x: int| 0 <= v < n && 0 <= x < pred@[v]@.len() ==> (#[trigger] pred@[v]@[x]) < u,
            forall|v: usize, w: usize| v < n ==>
                ((#[trigger] pred@[v as int]@.contains(w)) && w < n
                    <==> w < u && succ@[w as int]@.contains(v)),
        decreases n - u,
    {
        let list = &succ[u];
        let mut t: usize = 0;
        while t < list.len()
            invariant
                n == succ@.len(),
                lists_in_range(succ@),
                u < n,
                list@ == succ@[u as int]@,
                t <= list@.len(),
                pred@.len() == n,
                forall|v: int| 0 <= v < n ==> increasing(#[trigger] pred@[v]@),
                forall|v: int, x: int| 0 <= v < n && 0 <= x < pred@[v]@.len() ==> (#[trigger] pred@[v]@[x]) <= u,
                forall|v: usize, w: usize| v < n ==>
                    ((#[trigger] pred@[v as int]@.contains(w)) && w < n
                        <==> (w < u && succ@[w as int]@.contains(v))
                            || (w == u && list@.subrange(0, t as int).contains(v))),
            decreases list@.len() - t,
        {
            let v = list[t];
            assert(v < n);
            let ghost before = pred@;
            let mut l = copy_nodes(&pred[v]);
            let last_is_u = l.len() > 0 && l[l.len() - 1] == u;
            if !last_is_u {
                l.push(u);
            }
            pred.set(v, l);
            proof {
                assert(list@.subrange(0, t + 1) =~= list@.subrange(0, t as int).push(v));
                assert(list@.subrange(0, t + 1)[t as int] == v);
                assert forall|v2: usize, w: usize| v2 < n implies
                    ((#[trigger] pred@[v2 as int]@.contains(w)) && w < n
                        <==> (w < u && succ@[w as int]@.contains(v2))
                            || (w == u && list@.subrange(0, t + 1).contains(v2))) by {
                    if v2 == v {
                        if last_is_u {
                            assert(before[v2 as int]@[before[v2 as int]@.len() - 1] == u);
                            assert(before[v2 as int]@.contains(u));
                        } else {
                            assert(pred@[v2 as int]@ == before[v2 as int]@.push(u));
                            if pred@[v2 as int]@.contains(w) && w != u {
                                let k = choose|k: int| 0 <= k < pred@[v2 as int]@.len() && #[trigger] pred@[v2 as int]@[k] == w;
                                assert(before[v2 as int]@[k] == w);
                            }
                            if before[v2 as int]@.contains(w) {
                                let k = choose|k: int| 0 <= k < before[v2 as int]@.len() && #[trigger] before[v2 as int]@[k] == w;
                                assert(pred@[v2 as int]@[k] == w);
                            }
                            if w == u {
                                assert(pred@[v2 as int]@[before[v2 as int]@.len() as int] == u);
                            }
                        }
                    } else {
                        assert(pred@[v2 as int] == before[v2 as int]);
                        if w == u && list@.subrange(0, t + 1).contains(v2) {
                            let k = choose|k: int| 0 <= k < t + 1 && #[trigger] list@.subrange(0, t + 1)[k] == v2;
                            assert(list@.subrange(0, t as int)[k] == v2);
                        }
                        if w == u && list@.subrange(0, t as int).contains(v2) {
                            let k = choose|k: int| 0 <= k < t && #[trigger] list@.subrange(0, t as int)[k] == v2;
                            assert(list@.subrange(0, t + 1)[k] == v2);
                        }
                    }
                }
            }
            t = t + 1;
        }
        proof {
            assert(list@.subrange(0, t as int) =~= list@);
            assert forall|v: int, x: int| 0 <= v < n && 0 <= x < pred@[v]@.len() implies (#[trigger] pred@[v]@[x]) < u + 1 by {}
        }
        u = u + 1;
    }
    pred
}


/// The number of entries in all lists.
pub open spec fn total(s: Seq<Vec<usize>>) -> nat
    decreases s.len(),
{
    if s.len() == 0 { 0 } else { total(s.drop_last()) + s.last()@.len() }
}

proof fn lemma_total_update(s: Seq<Vec<usize>>, i: int, x: Vec<usize>)
    requires
        0 <= i < s.len(),
    ensures
        total(s.update(i, x)) + s[i]@.len() == total(s) + x@.len(),
    decreases s.len(),
{
    if i < s.len() - 1 {
        assert(s.update(i, x).drop_last() =~= s.drop_last().update(i, x));
        lemma_total_update(s.drop_last(), i, x);
    } else {
        assert(s.update(i, x).drop_last() =~= s.drop_last());
    }
}

/// The list without any `x`.
fn remove_node(l: &Vec<usize>, x: usize) -> (r: Vec<usize>)
    ensures
        forall|y: usize| #[trigger] r@.contains(y) <==> l@.contains(y) && y != x,
        r@.len() <= l@.len(),
        l@.contains(x) ==> r@.len() < l@.len(),
{
    let mut out: Vec<usize> = Vec::new();
    let mut i: usize = 0;
    while i < l.len()
        invariant
            i <= l@.len(),
            forall|y: usize| #[trigger] out@.contains(y) <==> l@.subrange(0, i as int).contains(y) && y != x,
            out@.len() <= i,
            l@.subrange(0, i as int).contains(x) ==> out@.len() < i,
        decreases l@.len() - i,
    {
        let ghost prev = out@;
        assert(l@.subrange(0, i + 1) =~= l@.subrange(0, i as int).push(l@[i as int]));
        if l[i] != x {
            out.push(l[i]);
            assert(out@ == prev.push(l@[i as int]));
            assert forall|y: usize| #[trigger] out@.contains(y) <==> l@.subrange(0, i + 1).contains(y) && y != x by {
                if out@.contains(y) && y != l@[i as int] {
                    let k = choose|k: int| 0 <= k < out@.len() && #[trigger] out@[k] == y;
                    assert(prev[k] == y);
                }
                if l@.subrange(0, i + 1).contains(y) && y != x && y != l@[i as int] {
                    let k = choose|k: int| 0 <= k < i + 1 && #[trigger] l@.subrange(0, i + 1)[k] == y;
                    assert(l@.subrange(0, i as int)[k] == y);
                }
                if y == l@[i as int] {
                    assert(out@[out@.len() - 1] == y);
                    assert(l@.subrange(0, i + 1)[i as int] == y);
                }
                if prev.contains(y) {
                    let k = choose|k: int| 0 <= k < prev.len() && #[trigger] prev[k] == y;
                    assert(out@[k] == y);
                }
                if l@.subrange(0, i as int).contains(y) {
                    let k = choose|k: int| 0 <= k < i && #[trigger] l@.subrange(0, i as int)[k] == y;
                    assert(l@.subrange(0, i + 1)[k] == y);
                }
            }
        } else {
            assert forall|y: usize| #[trigger] out@.contains(y) <==> l@.subrange(0, i + 1).contains(y) && y != x by {
                if l@.subrange(0, i + 1).contains(y) && y != x {
                    let k = choose|k: int| 0 <= k < i + 1 && #[trigger] l@.subrange(0, i + 1)[k] == y;
                    assert(l@.subrange(0, i as int)[k] == y);
                }
                if l@.subrange(0, i as int).contains(y) {
                    let k = choose|k: int| 0 <= k < i && #[trigger] l@.subrange(0, i as int)[k] == y;
                    assert(l@.subrange(0, i + 1)[k] == y);
                }
            }
            assert(l@.subrange(0, i + 1)[i as int] == x);
        }
        proof {
            if l@.subrange(0, i + 1).contains(x) && !l@.subrange(0, i as int).contains(x) {
                let k = choose|k: int| 0 <= k < i + 1 && #[trigger] l@.subrange(0, i + 1)[k] == x;
                if k < i {
                    assert(l@.subrange(0, i as int)[k] == x);
                }
            }
        }
        i = i + 1;
    }
    assert(l@.subrange(0, i as int) =~= l@);
    out
}

/// The seed lists each node once, and only nodes without predecessors.
pub open spec fn seed_clean(seed: Seq<usize>, pred: Seq<Vec<usize>>) -> bool {
    &&& seed.no_duplicates()
    &&& forall|k: int| 0 <= k < seed.len() ==> pred[#[trigger] seed[k] as int]@.len() == 0
}

/// Orders nodes from `seed`: a node is listed once the last of its listed
/// predecessors has been listed before it, each edge `u -> v` striking `u`
/// from the list of `v`. All lists emptied gives the order, which starts
/// with the seed; else the nodes whose lists kept entries, with those.
pub fn topo_sort(seed: &Vec<usize>, succ: &Vec<Vec<usize>>, pred: Vec<Vec<usize>>) -> (r: Result<Vec<usize>, Vec<(usize, Vec<usize>)>>)
    requires
        lists_in_range(succ@),
        pred@.len() == succ@.len(),
        forall|k: int| 0 <= k < seed@.len() ==> (#[trigger] seed@[k]) < succ@.len(),
    ensures
        match r {
            Ok(sort) => {
                &&& sort@.len() >= seed@.len()
                &&& sort@.subrange(0, seed@.len() as int) == seed@
                &&& forall|q: int, u: usize| seed@.len() <= q < sort@.len() && (#[trigger] pred@[sort@[q] as int]@.contains(u))
                    ==> exists|j: int| 0 <= j < q && sort@[j] == u
                &&& forall|v: int, u: usize| 0 <= v < pred@.len() && (#[trigger] pred@[v]@.contains(u))
                    ==> sort@.contains(u) && succ@[u as int]@.contains(v as usize)
                &&& seed_clean(seed@, pred@) ==> sort@.no_duplicates()
            },
            Err(rem) => rem@.len() > 0 && forall|k: int| 0 <= k < rem@.len() ==> {
                &&& (#[trigger] rem@[k]).0 < pred@.len()
                &&& rem@[k].1@.len() > 0
                &&& forall|u: usize| rem@[k].1@.contains(u) ==> pred@[rem@[k].0 as int]@.contains(u)
            },
        },
{
    let n = succ.len();
    let ghost p0 = pred@;
    let mut par = pred;
    let mut queue = copy_nodes(seed);
    let mut head: usize = 0;
    let ghost clean = seed_clean(seed@, pred@);
    while head < queue.len()
        invariant
            clean == seed_clean(seed@, p0),
            clean ==> queue@.no_duplicates(),
            clean ==> forall|k: int| 0 <= k < queue@.len() ==> par@[#[trigger] queue@[k] as int]@.len() == 0,
            n == succ@.len(),
            lists_in_range(succ@),
            par@.len() == n,
            p0.len() == n,
            head <= queue@.len(),
            queue@.len() >= seed@.len(),
            queue@.subrange(0, seed@.len() as int) == seed@,
            forall|k: int| 0 <= k < queue@.len() ==> (#[trigger] queue@[k]) < n,
            forall|q: int, u: usize| seed@.len() <= q < queue@.len() && (#[trigger] p0[queue@[q] as int]@.contains(u))
                ==> exists|j: int| 0 <= j < q && queue@[j] == u,
            forall|v: int, w: usize| 0 <= v < n ==> ((#[trigger] par@[v]@.contains(w)) <==>
                p0[v]@.contains(w) && !(queue@.subrange(0, head as int).contains(w) && succ@[w as int]@.contains(v as usize))),
        decreases 2 * total(par@) + queue@.len() - head,
    {
        let x = queue[head];
        head = head + 1;
        let ghost m0 = 2 * total(par@) + queue@.len() - head;
        let list = &succ[x];
        let mut t: usize = 0;
        while t < list.len()
            invariant
                n == succ@.len(),
                lists_in_range(succ@),
                par@.len() == n,
                p0.len() == n,
                0 < head <= queue@.len(),
                x == queue@[head - 1],
                x < n,
                list@ == succ@[x as int]@,
                t <= list@.len(),
                queue@.len() >= seed@.len(),
                queue@.subrange(0, seed@.len() as int) == seed@,
                forall|k: int| 0 <= k < queue@.len() ==> (#[trigger] queue@[k]) < n,
                forall|q: int, u: usize| seed@.len() <= q < queue@.len() && (#[trigger] p0[queue@[q] as int]@.contains(u))
                    ==> exists|j: int| 0 <= j < q && queue@[j] == u,
                forall|v: int, w: usize| 0 <= v < n ==> ((#[trigger] par@[v]@.contains(w)) <==>
                    p0[v]@.contains(w)
                    && !(queue@.subrange(0, head - 1).contains(w) && succ@[w as int]@.contains(v as usize))
                    && !(w == x && list@.subrange(0, t as int).contains(v as usize))),
                2 * total(par@) + queue@.len() - head <= m0,
                clean == seed_clean(seed@, p0),
                clean ==> queue@.no_duplicates(),
                clean ==> forall|k: int| 0 <= k < queue@.len() ==> par@[#[trigger] queue@[k] as int]@.len() == 0,
            decreases list@.len() - t,
        {
            let v = list[t];
            assert(v < n);
            let ghost before = par@;
            let ghost qb = queue@;
            let had = contains_node(&par[v], x);
            let nl = remove_node(&par[v], x);
            let empty = nl.len() == 0;
            proof { lemma_total_update(before, v as int, nl); }
            par.set(v, nl);
            if had && empty {
                queue.push(v);
            }
            proof {
                assert(list@.subrange(0, t + 1) =~= list@.subrange(0, t as int).push(v));
                assert(list@.subrange(0, t + 1)[t as int] == v);
                assert(queue@.subrange(0, seed@.len() as int) =~= qb.subrange(0, seed@.len() as int));
                assert(queue@.subrange(0, head - 1) =~= qb.subrange(0, head - 1));
                assert forall|v2: int, w: usize| 0 <= v2 < n implies ((#[trigger] par@[v2]@.contains(w)) <==>
                    p0[v2]@.contains(w)
                    && !(queue@.subrange(0, head - 1).contains(w) && succ@[w as int]@.contains(v2 as usize))
                    && !(w == x && list@.subrange(0, t + 1).contains(v2 as usize))) by {
                    if v2 != v {
                        assert(par@[v2] == before[v2]);
                        if w == x && list@.subrange(0, t + 1).contains(v2 as usize) {
                            let k = choose|k: int| 0 <= k < t + 1 && #[trigger] list@.subrange(0, t + 1)[k] == v2 as usize;
                            assert(list@.subrange(0, t as int)[k] == v2 as usize);
                        }
                        if w == x && list@.subrange(0, t as int).contains(v2 as usize) {
                            let k = choose|k: int| 0 <= k < t && #[trigger] list@.subrange(0, t as int)[k] == v2 as usize;
                            assert(list@.subrange(0, t + 1)[k] == v2 as usize);
                        }
                    } else {
                        if w == x {
                            assert(list@.subrange(0, t + 1).contains(v2 as usize));
                        } else if list@.subrange(0, t as int).contains(v2 as usize) {
                        }
                    }
                }
                if clean {
                    assert forall|k: int| 0 <= k < queue@.len() implies par@[#[trigger] queue@[k] as int]@.len() == 0 by {
                        if k < qb.len() {
                            assert(queue@[k] == qb[k]);
                            if qb[k] == v {
                                assert(before[v as int]@.len() == 0);
                            } else {
                                assert(par@[qb[k] as int] == before[qb[k] as int]);
                            }
                        }
                    }
                    if had && empty {
                        assert forall|k: int| 0 <= k < qb.len() implies qb[k] != v by {
                            if qb[k] == v {
                                assert(before[v as int]@.contains(x));
                                assert(before[v as int]@.len() > 0);
                            }
                        }
                        assert forall|a: int, b: int| 0 <= a < queue@.len() && 0 <= b < queue@.len() && a != b
                            implies queue@[a] != queue@[b] by {
                            if a < qb.len() && b < qb.len() {
                                assert(queue@[a] == qb[a] && queue@[b] == qb[b]);
                            } else if a < qb.len() {
                                assert(queue@[a] == qb[a]);
                            } else if b < qb.len() {
                                assert(queue@[b] == qb[b]);
                            }
                        }
                    } else {
                        assert(queue@ == qb);
                    }
                }
                if had && empty {
                    assert forall|q: int, u: usize| seed@.len() <= q < queue@.len() && (#[trigger] p0[queue@[q] as int]@.contains(u))
                        implies exists|j: int| 0 <= j < q && queue@[j] == u by {
                        if q < qb.len() {
                            assert(queue@[q] == qb[q]);
                            let j = choose|j: int| 0 <= j < q && qb[j] == u;
                            assert(queue@[j] == u);
                        } else {
                            assert(queue@[q] == v);
                            assert(!par@[v as int]@.contains(u));
                            if queue@.subrange(0, head - 1).contains(u) {
                                let j = choose|j: int| 0 <= j < head - 1 && #[trigger] queue@.subrange(0, head - 1)[j] == u;
                                assert(queue@[j] == u);
                            } else {
                                assert(u == x);
                                assert(queue@[head - 1] == u);
                            }
                        }
                    }
                    assert forall|k: int| 0 <= k < queue@.len() implies (#[trigger] queue@[k]) < n by {
                        if k < qb.len() {
                            assert(queue@[k] == qb[k]);
                        }
                    }
                }
            }
            t = t + 1;
        }
        proof {
            assert(list@.subrange(0, t as int) =~= list@);
            assert forall|v: int, w: usize| 0 <= v < n implies ((#[trigger] par@[v]@.contains(w)) <==>
                p0[v]@.contains(w) && !(queue@.subrange(0, head as int).contains(w) && succ@[w as int]@.contains(v as usize))) by {
                assert(queue@.subrange(0, head as int) =~= queue@.subrange(0, head - 1).push(x));
                if queue@.subrange(0, head as int).contains(w) && w != x {
                    let j = choose|j: int| 0 <= j < head && #[trigger] queue@.subrange(0, head as int)[j] == w;
                    assert(queue@.subrange(0, head - 1)[j] == w);
                }
                if queue@.subrange(0, head - 1).contains(w) {
                    let j = choose|j: int| 0 <= j < head - 1 && #[trigger] queue@.subrange(0, head - 1)[j] == w;
                    assert(queue@.subrange(0, head as int)[j] == w);
                }
                if w == x {
                    assert(queue@.subrange(0, head as int)[head - 1] == w);
                }
            }
        }
    }
    let mut rem: Vec<(usize, Vec<usize>)> = Vec::new();
    let mut v: usize = 0;
    while v < n
        invariant
            par@.len() == n,
            p0.len() == n,
            v <= n,
            forall|v2: int, w: usize| 0 <= v2 < n ==> ((#[trigger] par@[v2]@.contains(w)) ==> p0[v2]@.contains(w)),
            forall|k: int| 0 <= k < rem@.len() ==> {
                &&& (#[trigger] rem@[k]).0 < p0.len()
                &&& rem@[k].1@.len() > 0
                &&& forall|u: usize| rem@[k].1@.contains(u) ==> p0[rem@[k].0 as int]@.contains(u)
            },
            rem@.len() == 0 ==> forall|v2: int| 0 <= v2 < v ==> (#[trigger] par@[v2]@).len() == 0,
        decreases n - v,
    {
        if par[v].len() > 0 {
            let l = copy_nodes(&par[v]);
            rem.push((v, l));
        }
        v = v + 1;
    }
    if rem.len() > 0 {
        return Err(rem);
    }
    proof {
        assert(queue@.subrange(0, head as int) =~= queue@);
        assert forall|v2: int, u: usize| 0 <= v2 < p0.len() && (#[trigger] p0[v2]@.contains(u))
            implies queue@.contains(u) && succ@[u as int]@.contains(v2 as usize) by {
            assert(par@[v2]@.len() == 0);
            assert(!par@[v2]@.contains(u));
        }
    }
    Ok(queue)
}

/// Some successor of some node that `proj` maps to `t` is mapped to `y`.
pub open spec fn proj_edge(succ: Seq<Vec<usize>>, proj: Seq<usize>, t: usize, y: usize, upto: int) -> bool {
    exists|s: int, k: int| 0 <= s < upto && s < succ.len() && proj[s] == t && 0 <= k < succ[s]@.len()
        && proj[#[trigger] succ[s]@[k] as int] == y
}

/// The graph seen through `proj`: an edge `proj(s) -> proj(u)` for every
/// edge `s -> u`, each once, over the nodes `0..m`.
pub fn succ_proj(succ: &Vec<Vec<usize>>, proj: &Vec<usize>, m: usize) -> (r: Vec<Vec<usize>>)
    requires
        lists_in_range(succ@),
        proj@.len() == succ@.len(),
        forall|s: int| 0 <= s < proj@.len() ==> (#[trigger] proj@[s]) < m,
    ensures
        r@.len() == m,
        forall|t: int| 0 <= t < m ==> (#[trigger] r@[t]@).no_duplicates(),
        forall|t: usize, y: usize| t < m ==>
            ((#[trigger] r@[t as int]@.contains(y)) <==> proj_edge(succ@, proj@, t, y, succ@.len() as int)),
{
    let n = succ.len();
    let mut out: Vec<Vec<usize>> = Vec::new();
    let mut i: usize = 0;
    while i < m
        invariant
            i <= m,
            out@.len() == i,
            forall|t: int| 0 <= t < i ==> (#[trigger] out@[t])@.len() == 0,
        decreases m - i,
    {
        out.push(Vec::new());
        i = i + 1;
    }
    let mut s_: usize = 0;
    while s_ < n
        invariant
            n == succ@.len(),
            lists_in_range(succ@),
            proj@.len() == n,
            forall|s: int| 0 <= s < proj@.len() ==> (#[trigger] proj@[s]) < m,
            s_ <= n,
            out@.len() == m,
            forall|t: int| 0 <= t < m ==> (#[trigger] out@[t]@).no_duplicates(),
            forall|t: usize, y: usize| t < m ==>
                ((#[trigger] out@[t as int]@.contains(y)) <==> proj_edge(succ@, proj@, t, y, s_ as int)),
        decreases n - s_,
    {
        let list = &succ[s_];
        let t0 = proj[s_];
        let mut k: usize = 0;
        while k < list.len()
            invariant
                n == succ@.len(),
                lists_in_range(succ@),
                proj@.len() == n,
                forall|s: int| 0 <= s < proj@.len() ==> (#[trigger] proj@[s]) < m,
                s_ < n,
                t0 == proj@[s_ as int],
                list@ == succ@[s_ as int]@,
                k <= list@.len(),
                out@.len() == m,
                forall|t: int| 0 <= t < m ==> (#[trigger] out@[t]@).no_duplicates(),
                forall|t: usize, y: usize| t < m ==>
                    ((#[trigger] out@[t as int]@.contains(y)) <==> (proj_edge(succ@, proj@, t, y, s_ as int)
                        || (t == t0 && exists|k2: int| 0 <= k2 < k && proj@[#[trigger] list@[k2] as int] == y))),
            decreases list@.len() - k,
        {
            let u = list[k];
            assert(u < n);
            let y0 = proj[u];
            let ghost before = out@;
            if !contains_node(&out[t0], y0) {
                let mut l = copy_nodes(&out[t0]);
                l.push(y0);
                out.set(t0, l);
            }
            proof {
                assert forall|t: usize, y: usize| t < m implies
                    ((#[trigger] out@[t as int]@.contains(y)) <==> (proj_edge(succ@, proj@, t, y, s_ as int)
                        || (t == t0 && exists|k2: int| 0 <= k2 < k + 1 && proj@[#[trigger] list@[k2] as int] == y))) by {
                    if t == t0 && y == y0 {
                        assert(proj@[list@[k as int] as int] == y);
                        if out@[t as int] != before[t as int] {
                            assert(out@[t as int]@[out@[t as int]@.len() - 1] == y);
                        }
                    }
                    if t == t0 && out@[t as int] != before[t as int] {
                        assert(out@[t as int]@ == before[t as int]@.push(y0));
                        if out@[t as int]@.contains(y) && y != y0 {
                            let j = choose|j: int| 0 <= j < out@[t as int]@.len() && #[trigger] out@[t as int]@[j] == y;
                            assert(before[t as int]@[j] == y);
                        }
                        if before[t as int]@.contains(y) {
                            let j = choose|j: int| 0 <= j < before[t as int]@.len() && #[trigger] before[t as int]@[j] == y;
                            assert(out@[t as int]@[j] == y);
                        }
                    }
                    if t == t0 && y != y0 && (exists|k2: int| 0 <= k2 < k + 1 && proj@[#[trigger] list@[k2] as int] == y) {
                        let k2 = choose|k2: int| 0 <= k2 < k + 1 && proj@[#[trigger] list@[k2] as int] == y;
                        assert(k2 < k);
                    }
                }
                assert forall|t: int| 0 <= t < m implies (#[trigger] out@[t]@).no_duplicates() by {
                    if t == t0 && out@[t] != before[t] {
                        assert(out@[t]@ == before[t]@.push(y0));
                        assert forall|a: int, b: int| 0 <= a < out@[t]@.len() && 0 <= b < out@[t]@.len() && a != b
                            implies out@[t]@[a] != out@[t]@[b] by {
                            if a == out@[t]@.len() - 1 {
                                assert(!before[t]@.contains(y0));
                                assert(before[t]@[b] == out@[t]@[b]);
                            } else if b == out@[t]@.len() - 1 {
                                assert(!before[t]@.contains(y0));
                                assert(before[t]@[a] == out@[t]@[a]);
                            } else {
                                assert(before[t]@[a] == out@[t]@[a] && before[t]@[b] == out@[t]@[b]);
                            }
                        }
                    }
                }
            }
            k = k + 1;
        }
        proof {
            assert(list@.subrange(0, k as int) =~= list@);
            assert forall|t: usize, y: usize| t < m implies
                ((#[trigger] out@[t as int]@.contains(y)) <==> proj_edge(succ@, proj@, t, y, s_ as int + 1)) by {
                if proj_edge(succ@, proj@, t, y, s_ as int + 1) && !proj_edge(succ@, proj@, t, y, s_ as int) {
                    let (s2, k2) = choose|s2: int, k2: int| 0 <= s2 < s_ + 1 && s2 < succ@.len() && proj@[s2] == t
                        && 0 <= k2 < succ@[s2]@.len() && proj@[#[trigger] succ@[s2]@[k2] as int] == y;
                    assert(s2 == s_);
                    assert(proj@[list@[k2] as int] == y);
                }
                if t == t0 && exists|k2: int| 0 <= k2 < k && proj@[#[trigger] list@[k2] as int] == y {
                    let k2 = choose|k2: int| 0 <= k2 < k && proj@[#[trigger] list@[k2] as int] == y;
                    assert(proj@[succ@[s_ as int]@[k2] as int] == y);
                }
                if proj_edge(succ@, proj@, t, y, s_ as int) {
                    let (s2, k2) = choose|s2: int, k2: int| 0 <= s2 < s_ && s2 < succ@.len() && proj@[s2] == t
                        && 0 <= k2 < succ@[s2]@.len() && proj@[#[trigger] succ@[s2]@[k2] as int] == y;
                    assert(proj_edge(succ@, proj@, t, y, s_ as int + 1));
                }
            }
        }
        s_ = s_ + 1;
    }
    out
}

/// Node `y` is a hard or soft successor of node `x`.
pub open spec fn edge(hard: Seq<Vec<usize>>, soft: Seq<Vec<usize>>, x: usize, y: usize) -> bool {
    hard[x as int]@.contains(y) || soft[x as int]@.contains(y)
}

proof fn lemma_distinct_nodes_bounded(q: Seq<usize>, n: usize)
    requires
        q.no_duplicates(),
        forall|k: int| 0 <= k < q.len() ==> (#[trigger] q[k]) < n,
    ensures
        q.len() <= n,
{
    let t = q.map_values(|x: usize| x as int);
    assert(t.no_duplicates()) by {
        assert forall|a: int, b: int| 0 <= a < t.len() && 0 <= b < t.len() && a != b implies t[a] != t[b] by {
            assert(q[a] != q[b]);
        }
    }
    t.unique_seq_to_set();
    vstd::set_lib::lemma_int_range(0, n as int);
    assert(t.to_set().subset_of(vstd::set_lib::set_int_range(0, n as int))) by {
        assert forall|x: int| t.to_set().contains(x) implies vstd::set_lib::set_int_range(0, n as int).contains(x) by {
            let k = choose|k: int| 0 <= k < t.len() && t[k] == x;
            assert(q[k] < n);
        }
    }
    vstd::set_lib::lemma_len_subset(t.to_set(), vstd::set_lib::set_int_range(0, n as int));
}

fn visit_node(w: usize, seen: &mut Vec<bool>, queue: &mut Vec<usize>, n: usize)
    requires
        w < n,
        old(seen)@.len() == n,
        forall|x: usize| x < n ==> (old(seen)@[x as int] <==> old(queue)@.contains(x)),
        old(queue)@.no_duplicates(),
        forall|k: int| 0 <= k < old(queue)@.len() ==> (#[trigger] old(queue)@[k]) < n,
    ensures
        final(seen)@.len() == n,
        forall|x: usize| x < n ==> (final(seen)@[x as int] <==> final(queue)@.contains(x)),
        final(queue)@.no_duplicates(),
        forall|k: int| 0 <= k < final(queue)@.len() ==> (#[trigger] final(queue)@[k]) < n,
        final(seen)@[w as int],
        final(queue)@ == old(queue)@ || final(queue)@ == old(queue)@.push(w),
        forall|x: usize| x < n && old(seen)@[x as int] ==> final(seen)@[x as int],
{
    if !seen[w] {
        let ghost q0 = queue@;
        seen.set(w, true);
        queue.push(w);
        proof {
            assert forall|x: usize| x < n implies (seen@[x as int] <==> queue@.contains(x)) by {
                if queue@.contains(x) && x != w {
                    let k = choose|k: int| 0 <= k < queue@.len() && queue@[k] == x;
                    assert(q0[k] == x);
                }
                if q0.contains(x) {
                    let k = choose|k: int| 0 <= k < q0.len() && q0[k] == x;
                    assert(queue@[k] == x);
                }
                if x == w {
                    assert(queue@[queue@.len() - 1] == w);
                }
            }
            assert forall|a: int, b: int| 0 <= a < queue@.len() && 0 <= b < queue@.len() && a != b implies queue@[a] != queue@[b] by {
                if a < q0.len() && b < q0.len() {
                } else if a < q0.len() {
                    assert(q0.contains(queue@[a]));
                } else if b < q0.len() {
                    assert(q0.contains(queue@[b]));
                }
            }
        }
    }
}

fn visit_list(list: &Vec<usize>, seen: &mut Vec<bool>, queue: &mut Vec<usize>, n: usize)
    requires
        forall|t: int| 0 <= t < list@.len() ==> (#[trigger] list@[t]) < n,
        old(seen)@.len() == n,
        forall|x: usize| x < n ==> (old(seen)@[x as int] <==> old(queue)@.contains(x)),
        old(queue)@.no_duplicates(),
        forall|k: int| 0 <= k < old(queue)@.len() ==> (#[trigger] old(queue)@[k]) < n,
    ensures
        final(seen)@.len() == n,
        forall|x: usize| x < n ==> (final(seen)@[x as int] <==> final(queue)@.contains(x)),
        final(queue)@.no_duplicates(),
        forall|k: int| 0 <= k < final(queue)@.len() ==> (#[trigger] final(queue)@[k]) < n,
        forall|t: int| 0 <= t < list@.len() ==> final(seen)@[#[trigger] list@[t] as int],
        final(queue)@.len() >= old(queue)@.len(),
        final(queue)@.subrange(0, old(queue)@.len() as int) == old(queue)@,
        forall|q: int| old(queue)@.len() <= q < final(queue)@.len() ==> list@.contains(#[trigger] final(queue)@[q]),
        forall|x: usize| x < n && old(seen)@[x as int] ==> final(seen)@[x as int],
{
    let ghost q_start = queue@;
    let mut t: usize = 0;
    while t < list.len()
        invariant
            forall|t2: int| 0 <= t2 < list@.len() ==> (#[trigger] list@[t2]) < n,
            t <= list@.len(),
            seen@.len() == n,
            forall|x: usize| x < n ==> (seen@[x as int] <==> queue@.contains(x)),
            queue@.no_duplicates(),
            forall|k: int| 0 <= k < queue@.len() ==> (#[trigger] queue@[k]) < n,
            forall|t2: int| 0 <= t2 < t ==> seen@[#[trigger] list@[t2] as int],
            queue@.len() >= q_start.len(),
            queue@.subrange(0, q_start.len() as int) == q_start,
            forall|q: int| q_start.len() <= q < queue@.len() ==> list@.contains(#[trigger] queue@[q]),
            forall|x: usize| x < n && old(seen)@[x as int] ==> seen@[x as int],
            q_start == old(queue)@,
        decreases list@.len() - t,
    {
        let ghost q0 = queue@;
        visit_node(list[t], seen, queue, n);
        proof {
            assert(queue@.subrange(0, q_start.len() as int) =~= q0.subrange(0, q_start.len() as int));
            assert forall|q: int| q_start.len() <= q < queue@.len() implies list@.contains(#[trigger] queue@[q]) by {
                if q < q0.len() {
                    assert(queue@[q] == q0[q]);
                } else {
                    assert(queue@[q] == list@[t as int]);
                }
            }
            assert forall|t2: int| 0 <= t2 < t + 1 implies seen@[#[trigger] list@[t2] as int] by {
                assert(list@[t2] < n);
            }
        }
        t = t + 1;
    }
}

/// The graph reachable from `seed` through hard and soft edges, breadth
/// first: each reached node once, with its hard successors. Seeds come
/// first, each once, in their order.
pub fn graph_from_succ(seed: &Vec<usize>, hard: &Vec<Vec<usize>>, soft: &Vec<Vec<usize>>) -> (r: Vec<(usize, Vec<usize>)>)
    requires
        lists_in_range(hard@),
        soft@.len() == hard@.len(),
        lists_in_range(soft@),
        forall|k: int| 0 <= k < seed@.len() ==> (#[trigger] seed@[k]) < hard@.len(),
    ensures
        r@.map_values(|e: (usize, Vec<usize>)| e.0).no_duplicates(),
        forall|k: int| 0 <= k < seed@.len() ==> r@.map_values(|e: (usize, Vec<usize>)| e.0).contains(#[trigger] seed@[k]),
        forall|i: int, w: usize| 0 <= i < r@.len() && #[trigger] edge(hard@, soft@, r@[i].0, w)
            ==> r@.map_values(|e: (usize, Vec<usize>)| e.0).contains(w),
        forall|i: int| 0 <= i < r@.len() ==> seed@.contains((#[trigger] r@[i]).0)
            || exists|j: int| 0 <= j < i && edge(hard@, soft@, r@[j].0, r@[i].0),
        forall|i: int| 0 <= i < r@.len() ==> (#[trigger] r@[i]).0 < hard@.len() && r@[i].1@ == hard@[r@[i].0 as int]@,
{
    let n = hard.len();
    let mut seen: Vec<bool> = Vec::new();
    let mut i: usize = 0;
    while i < n
        invariant
            i <= n,
            seen@.len() == i,
            forall|x: int| 0 <= x < i ==> !(#[trigger] seen@[x]),
        decreases n - i,
    {
        seen.push(false);
        i = i + 1;
    }
    let mut queue: Vec<usize> = Vec::new();
    let mut k: usize = 0;
    while k < seed.len()
        invariant
            n == hard@.len(),
            forall|k2: int| 0 <= k2 < seed@.len() ==> (#[trigger] seed@[k2]) < n,
            k <= seed@.len(),
            seen@.len() == n,
            forall|x: usize| x < n ==> (seen@[x as int] <==> queue@.contains(x)),
            queue@.no_duplicates(),
            forall|q: int| 0 <= q < queue@.len() ==> (#[trigger] queue@[q]) < n,
            forall|q: int| 0 <= q < queue@.len() ==> seed@.contains(#[trigger] queue@[q]),
            forall|k2: int| 0 <= k2 < k ==> seen@[#[trigger] seed@[k2] as int],
        decreases seed@.len() - k,
    {
        let ghost q0 = queue@;
        visit_node(seed[k], &mut seen, &mut queue, n);
        proof {
            assert forall|q: int| 0 <= q < queue@.len() implies seed@.contains(#[trigger] queue@[q]) by {
                if q < q0.len() {
                    assert(queue@[q] == q0[q]);
                } else {
                    assert(seed@[k as int] == queue@[q]);
                }
            }
        }
        k = k + 1;
    }
    let mut out: Vec<(usize, Vec<usize>)> = Vec::new();
    let mut head: usize = 0;
    while head < queue.len()
        invariant
            n == hard@.len(),
            n == soft@.len(),
            lists_in_range(hard@),
            lists_in_range(soft@),
            seen@.len() == n,
            forall|x: usize| x < n ==> (seen@[x as int] <==> queue@.contains(x)),
            queue@.no_duplicates(),
            forall|q: int| 0 <= q < queue@.len() ==> (#[trigger] queue@[q]) < n,
            forall|k2: int| 0 <= k2 < seed@.len() ==> (#[trigger] seed@[k2]) < n,
            forall|k2: int| 0 <= k2 < seed@.len() ==> seen@[#[trigger] seed@[k2] as int],
            forall|q: int| 0 <= q < queue@.len() ==> seed@.contains(#[trigger] queue@[q])
                || exists|j: int| 0 <= j < q && edge(hard@, soft@, queue@[j], queue@[q]),
            forall|j: int, w: usize| 0 <= j < head && #[trigger] edge(hard@, soft@, queue@[j], w) ==> seen@[w as int],
            head <= queue@.len(),
            out@.len() == head,
            forall|j: int| 0 <= j < head ==> (#[trigger] out@[j]).0 == queue@[j] && out@[j].1@ == hard@[queue@[j] as int]@,
        decreases n - head,
    {
        proof { lemma_distinct_nodes_bounded(queue@, n); }
        let x = queue[head];
        let hl = &hard[x];
        let sl = &soft[x];
        let ghost q0 = queue@;
        let ghost s0 = seen@;
        visit_list(hl, &mut seen, &mut queue, n);
        let ghost q1 = queue@;
        visit_list(sl, &mut seen, &mut queue, n);
        proof {
            assert(queue@.subrange(0, q0.len() as int) =~= q0) by {
                assert(queue@.subrange(0, q1.len() as int) == q1);
                assert(q1.subrange(0, q0.len() as int) == q0);
                assert forall|q: int| 0 <= q < q0.len() implies queue@[q] == q0[q] by {
                    assert(queue@.subrange(0, q1.len() as int)[q] == q1[q]);
                    assert(q1.subrange(0, q0.len() as int)[q] == q0[q]);
                }
            }
            assert forall|q: int| 0 <= q < q0.len() implies #[trigger] queue@[q] == q0[q] by {
                assert(queue@.subrange(0, q0.len() as int)[q] == q0[q]);
            }
            assert forall|q: int| 0 <= q < queue@.len() implies seed@.contains(#[trigger] queue@[q])
                || exists|j: int| 0 <= j < q && edge(hard@, soft@, queue@[j], queue@[q]) by {
                if q < q0.len() {
                    if !seed@.contains(q0[q]) {
                        let j = choose|j: int| 0 <= j < q && edge(hard@, soft@, q0[j], q0[q]);
                        assert(queue@[j] == q0[j]);
                    }
                } else {
                    assert(queue@[head as int] == x);
                    if q < q1.len() {
                        assert(queue@.subrange(0, q1.len() as int)[q] == q1[q]);
                        assert(hl@.contains(q1[q]));
                    } else {
                        assert(sl@.contains(queue@[q]));
                    }
                    assert(edge(hard@, soft@, queue@[head as int], queue@[q]));
                }
            }
            assert forall|j: int, y: usize| 0 <= j < head + 1 && #[trigger] edge(hard@, soft@, queue@[j], y) implies seen@[y as int] by {
                if j < head {
                    assert(queue@[j] == q0[j]);
                    assert(y < n) by {
                        if hard@[q0[j] as int]@.contains(y) {
                            let t3 = choose|t3: int| 0 <= t3 < hard@[q0[j] as int]@.len() && hard@[q0[j] as int]@[t3] == y;
                            assert(hard@[q0[j] as int]@[t3] < n);
                        } else {
                            let t3 = choose|t3: int| 0 <= t3 < soft@[q0[j] as int]@.len() && soft@[q0[j] as int]@[t3] == y;
                            assert(soft@[q0[j] as int]@[t3] < n);
                        }
                    }
                    assert(s0[y as int]);
                } else {
                    assert(queue@[j] == x);
                    if hard@[x as int]@.contains(y) {
                        let t3 = choose|t3: int| 0 <= t3 < hl@.len() && hl@[t3] == y;
                        assert(hl@[t3] < n);
                    } else {
                        let t3 = choose|t3: int| 0 <= t3 < sl@.len() && sl@[t3] == y;
                    }
                }
            }
            assert forall|j: int| 0 <= j < head implies (#[trigger] out@[j]).0 == queue@[j] && out@[j].1@ == hard@[queue@[j] as int]@ by {
                assert(queue@[j] == q0[j]);
            }
            assert forall|k2: int| 0 <= k2 < seed@.len() implies seen@[#[trigger] seed@[k2] as int] by {
                assert(seed@[k2] < n);
            }
            assert(queue@[head as int] == x);
        }
        let hs: Vec<usize> = copy_nodes(hl);
        out.push((x, hs));
        proof {
            assert forall|j: int| 0 <= j < head + 1 implies (#[trigger] out@[j]).0 == queue@[j] && out@[j].1@ == hard@[queue@[j] as int]@ by {
                if j < head {
                } else {
                    assert(out@[j].0 == x);
                }
            }
        }
        head = head + 1;
    }
    proof {
        let nodes = out@.map_values(|e: (usize, Vec<usize>)| e.0);
        assert(nodes =~= queue@);
        assert forall|i: int, w: usize| 0 <= i < out@.len() && #[trigger] edge(hard@, soft@, out@[i].0, w)
            implies nodes.contains(w) by {
            assert(out@[i].0 == queue@[i]);
            assert(w < n) by {
                if hard@[queue@[i] as int]@.contains(w) {
                    let t3 = choose|t3: int| 0 <= t3 < hard@[queue@[i] as int]@.len() && hard@[queue@[i] as int]@[t3] == w;
                    assert(hard@[queue@[i] as int]@[t3] < n);
                } else {
                    let t3 = choose|t3: int| 0 <= t3 < soft@[queue@[i] as int]@.len() && soft@[queue@[i] as int]@[t3] == w;
                    assert(soft@[queue@[i] as int]@[t3] < n);
                }
            }
        }
        assert forall|k2: int| 0 <= k2 < seed@.len() implies nodes.contains(#[trigger] seed@[k2]) by {
            assert(seed@[k2] < hard@.len());
            assert(seen@[seed@[k2] as int]);
        }
        assert forall|i: int| 0 <= i < out@.len() implies seed@.contains((#[trigger] out@[i]).0)
            || exists|j: int| 0 <= j < i && edge(hard@, soft@, out@[j].0, out@[i].0) by {
            assert(out@[i].0 == queue@[i]);
            if !seed@.contains(queue@[i]) {
                let j = choose|j: int| 0 <= j < i && edge(hard@, soft@, queue@[j], queue@[i]);
                assert(out@[j].0 == queue@[j]);
            }
        }
    }
    out
}
} // verus!
