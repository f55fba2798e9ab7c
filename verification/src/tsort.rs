use vstd::prelude::*;

verus! {

/// Topological sorting of the nodes named by a list of (predecessor, successor) pairs.
///
/// `sorted` works in rounds: each round takes every remaining node that has no remaining
/// predecessor, in ascending order, and removes them all.
pub struct TopSort {
    pairs: Vec<(usize, usize)>,
}

impl View for TopSort {
    type V = Seq<(usize, usize)>;

    closed spec fn view(&self) -> Seq<(usize, usize)> {
        self.pairs@
    }
}

/// `n` is one of the nodes that the pairs name.
pub open spec fn is_node(pairs: Seq<(usize, usize)>, n: usize) -> bool {
    exists|i: int| 0 <= i < pairs.len() && (#[trigger] pairs[i].0 == n || pairs[i].1 == n)
}

/// Some predecessor of `n` is still among `rem`.
pub open spec fn has_pred_in(pairs: Seq<(usize, usize)>, n: usize, rem: Seq<usize>) -> bool {
    exists|i: int| 0 <= i < pairs.len() && #[trigger] pairs[i].1 == n && rem.contains(pairs[i].0)
}

/// The pairs admit a ranking in which every predecessor ranks below its successor,
/// that is: they form no cycle.
pub open spec fn acyclic(pairs: Seq<(usize, usize)>) -> bool {
    exists|rank: spec_fn(usize) -> nat| #[trigger] ranks_pairs(pairs, rank)
}

/// Every predecessor ranks below its successor.
pub open spec fn ranks_pairs(pairs: Seq<(usize, usize)>, rank: spec_fn(usize) -> nat) -> bool {
    forall|i: int| 0 <= i < pairs.len() ==> rank(#[trigger] pairs[i].0) < rank(pairs[i].1)
}

pub open spec fn strictly_increasing(s: Seq<usize>) -> bool {
    forall|i: int, j: int| 0 <= i < j < s.len() ==> s[i] < s[j]
}

/// The nodes of `s` that have no predecessor among `rem`, in the order of `s`.
pub open spec fn ready(pairs: Seq<(usize, usize)>, s: Seq<usize>, rem: Seq<usize>) -> Seq<usize>
    decreases s.len(),
{
    if s.len() == 0 {
        seq![]
    } else {
        let r = ready(pairs, s.drop_last(), rem);
        if has_pred_in(pairs, s.last(), rem) {
            r
        } else {
            r.push(s.last())
        }
    }
}

/// The nodes of `s` that still have a predecessor among `rem`, in the order of `s`.
pub open spec fn blocked(pairs: Seq<(usize, usize)>, s: Seq<usize>, rem: Seq<usize>) -> Seq<usize>
    decreases s.len(),
{
    if s.len() == 0 {
        seq![]
    } else {
        let r = blocked(pairs, s.drop_last(), rem);
        if has_pred_in(pairs, s.last(), rem) {
            r.push(s.last())
        } else {
            r
        }
    }
}

/// The layered order: the ready nodes of `rem`, then the layered order of the rest.
/// It stops when no remaining node is ready.
pub open spec fn kahn(pairs: Seq<(usize, usize)>, rem: Seq<usize>) -> Seq<usize>
    decreases rem.len(),
{
    let layer = ready(pairs, rem, rem);
    if layer.len() == 0 {
        seq![]
    } else {
        proof {
            lemma_split_len(pairs, rem, rem);
        }
        layer + kahn(pairs, blocked(pairs, rem, rem))
    }
}

/// All nodes that the pairs name, in ascending order.
pub open spec fn sorted_nodes(pairs: Seq<(usize, usize)>) -> Seq<usize> {
    choose|ns: Seq<usize>|
        strictly_increasing(ns) && forall|x: usize| #[trigger] ns.contains(x) <==> is_node(pairs, x)
}

pub proof fn lemma_split_len(pairs: Seq<(usize, usize)>, s: Seq<usize>, rem: Seq<usize>)
    ensures
        ready(pairs, s, rem).len() + blocked(pairs, s, rem).len() == s.len(),
    decreases s.len(),
{
    if s.len() > 0 {
        lemma_split_len(pairs, s.drop_last(), rem);
    }
}

proof fn lemma_split_members(pairs: Seq<(usize, usize)>, s: Seq<usize>, rem: Seq<usize>)
    ensures
        forall|x: usize|
            #[trigger] ready(pairs, s, rem).contains(x) <==> (s.contains(x) && !has_pred_in(
                pairs,
                x,
                rem,
            )),
        forall|x: usize|
            #[trigger] blocked(pairs, s, rem).contains(x) <==> (s.contains(x) && has_pred_in(
                pairs,
                x,
                rem,
            )),
        strictly_increasing(s) ==> strictly_increasing(ready(pairs, s, rem)),
        strictly_increasing(s) ==> strictly_increasing(blocked(pairs, s, rem)),
    decreases s.len(),
{
    if s.len() > 0 {
        let t = s.drop_last();
        lemma_split_members(pairs, t, rem);
        let r = ready(pairs, t, rem);
        let b = blocked(pairs, t, rem);
        assert forall|x: usize| s.contains(x) <==> (t.contains(x) || x == s.last()) by {
            if s.contains(x) {
                let k = choose|k: int| 0 <= k < s.len() && s[k] == x;
                if k < s.len() - 1 {
                    assert(t[k] == x);
                }
            }
            if t.contains(x) {
                let k = choose|k: int| 0 <= k < t.len() && t[k] == x;
                assert(s[k] == x);
            }
            if x == s.last() {
                assert(s[s.len() - 1] == x);
            }
        }
        assert forall|x: usize| r.push(s.last()).contains(x) <==> (r.contains(x) || x == s.last()) by {
            if r.push(s.last()).contains(x) {
                let k = choose|k: int| 0 <= k < r.len() + 1 && r.push(s.last())[k] == x;
                if k < r.len() {
                    assert(r[k] == x);
                }
            }
            if r.contains(x) {
                let k = choose|k: int| 0 <= k < r.len() && r[k] == x;
                assert(r.push(s.last())[k] == x);
            }
            if x == s.last() {
                assert(r.push(s.last())[r.len() as int] == x);
            }
        }
        assert forall|x: usize| b.push(s.last()).contains(x) <==> (b.contains(x) || x == s.last()) by {
            if b.push(s.last()).contains(x) {
                let k = choose|k: int| 0 <= k < b.len() + 1 && b.push(s.last())[k] == x;
                if k < b.len() {
                    assert(b[k] == x);
                }
            }
            if b.contains(x) {
                let k = choose|k: int| 0 <= k < b.len() && b[k] == x;
                assert(b.push(s.last())[k] == x);
            }
            if x == s.last() {
                assert(b.push(s.last())[b.len() as int] == x);
            }
        }
        if strictly_increasing(s) {
            assert(strictly_increasing(t));
            assert forall|i: int| 0 <= i < r.len() implies r[i] < s.last() by {
                assert(r.contains(r[i]));
                let k = choose|k: int| 0 <= k < t.len() && t[k] == r[i];
                assert(s[k] == t[k]);
            }
            assert forall|i: int| 0 <= i < b.len() implies b[i] < s.last() by {
                assert(b.contains(b[i]));
                let k = choose|k: int| 0 <= k < t.len() && t[k] == b[i];
                assert(s[k] == t[k]);
            }
        }
        assert forall|x: usize|
            #[trigger] ready(pairs, s, rem).contains(x) <==> (s.contains(x) && !has_pred_in(
                pairs,
                x,
                rem,
            )) by {
            assert(s.contains(x) <==> (t.contains(x) || x == s.last()));
            assert(r.contains(x) <==> (t.contains(x) && !has_pred_in(pairs, x, rem)));
            assert(r.push(s.last()).contains(x) <==> (r.contains(x) || x == s.last()));
            if has_pred_in(pairs, s.last(), rem) {
                assert(ready(pairs, s, rem) == r);
            } else {
                assert(ready(pairs, s, rem) == r.push(s.last()));
            }
        }
        assert forall|x: usize|
            #[trigger] blocked(pairs, s, rem).contains(x) <==> (s.contains(x) && has_pred_in(
                pairs,
                x,
                rem,
            )) by {
            assert(s.contains(x) <==> (t.contains(x) || x == s.last()));
            assert(b.contains(x) <==> (t.contains(x) && has_pred_in(pairs, x, rem)));
            assert(b.push(s.last()).contains(x) <==> (b.contains(x) || x == s.last()));
            if has_pred_in(pairs, s.last(), rem) {
                assert(blocked(pairs, s, rem) == b.push(s.last()));
            } else {
                assert(blocked(pairs, s, rem) == b);
            }
        }
    }
}

/// A node of least rank among `rem`.
proof fn lemma_min_rank(rem: Seq<usize>, rank: spec_fn(usize) -> nat) -> (m: usize)
    requires
        rem.len() > 0,
    ensures
        rem.contains(m),
        forall|x: usize| rem.contains(x) ==> rank(m) <= rank(x),
    decreases rem.len(),
{
    if rem.len() == 1 {
        let m = rem[0];
        assert forall|x: usize| rem.contains(x) implies rank(m) <= rank(x) by {
            let k = choose|k: int| 0 <= k < rem.len() && rem[k] == x;
        }
        assert(rem[0] == m);
        m
    } else {
        let t = rem.drop_last();
        let m0 = lemma_min_rank(t, rank);
        let k0 = choose|k: int| 0 <= k < t.len() && t[k] == m0;
        assert(rem[k0] == m0);
        let m = if rank(rem.last()) < rank(m0) {
            rem.last()
        } else {
            m0
        };
        assert(rem[rem.len() - 1] == rem.last());
        assert forall|x: usize| rem.contains(x) implies rank(m) <= rank(x) by {
            let k = choose|k: int| 0 <= k < rem.len() && rem[k] == x;
            if k < rem.len() - 1 {
                assert(t[k] == x);
                assert(t.contains(x));
            }
        }
        m
    }
}

/// In a graph without cycles, some remaining node is always ready.
proof fn lemma_progress(pairs: Seq<(usize, usize)>, rem: Seq<usize>)
    requires
        acyclic(pairs),
        rem.len() > 0,
    ensures
        ready(pairs, rem, rem).len() > 0,
{
    let rank = choose|rank: spec_fn(usize) -> nat| #[trigger] ranks_pairs(pairs, rank);
    let m = lemma_min_rank(rem, rank);
    if has_pred_in(pairs, m, rem) {
        let i = choose|i: int|
            0 <= i < pairs.len() && #[trigger] pairs[i].1 == m && rem.contains(pairs[i].0);
        assert(rank(pairs[i].0) < rank(pairs[i].1));
    }
    lemma_split_members(pairs, rem, rem);
    assert(ready(pairs, rem, rem).contains(m));
}

/// In a graph without cycles, the layered order of a list of distinct nodes holds each
/// of them exactly once, and every predecessor comes before its successor.
pub proof fn lemma_kahn_is_topological_order(pairs: Seq<(usize, usize)>, rem: Seq<usize>)
    requires
        acyclic(pairs),
        strictly_increasing(rem),
    ensures
        kahn(pairs, rem).no_duplicates(),
        forall|x: usize| #[trigger] kahn(pairs, rem).contains(x) <==> rem.contains(x),
        forall|p: int, i: int, j: int|
            #![trigger pairs[p], kahn(pairs, rem)[i], kahn(pairs, rem)[j]]
            0 <= p < pairs.len() && rem.contains(pairs[p].0) && rem.contains(pairs[p].1) && 0 <= i
                < kahn(pairs, rem).len() && 0 <= j < kahn(pairs, rem).len() && kahn(pairs, rem)[i]
                == pairs[p].0 && kahn(pairs, rem)[j] == pairs[p].1 ==> i < j,
    decreases rem.len(),
{
    let k = kahn(pairs, rem);
    if rem.len() == 0 {
        assert(k =~= seq![]);
    } else {
        lemma_progress(pairs, rem);
        lemma_split_len(pairs, rem, rem);
        lemma_split_members(pairs, rem, rem);
        let layer = ready(pairs, rem, rem);
        let rest = blocked(pairs, rem, rem);
        lemma_kahn_is_topological_order(pairs, rest);
        let kr = kahn(pairs, rest);
        assert(k == layer + kr);
        assert forall|x: usize| #[trigger] k.contains(x) <==> rem.contains(x) by {
            if k.contains(x) {
                let q = choose|q: int| 0 <= q < k.len() && k[q] == x;
                if q < layer.len() {
                    assert(layer[q] == x);
                    assert(layer.contains(x));
                } else {
                    assert(kr[q - layer.len()] == x);
                    assert(kr.contains(x));
                }
            }
            if rem.contains(x) {
                if has_pred_in(pairs, x, rem) {
                    assert(rest.contains(x));
                    assert(kr.contains(x));
                    let q = choose|q: int| 0 <= q < kr.len() && kr[q] == x;
                    assert(k[q + layer.len()] == x);
                } else {
                    assert(layer.contains(x));
                    let q = choose|q: int| 0 <= q < layer.len() && layer[q] == x;
                    assert(k[q] == x);
                }
            }
        }
        assert forall|i: int, j: int| 0 <= i < k.len() && 0 <= j < k.len() && i != j implies k[i]
            != k[j] by {
            if i < layer.len() && j < layer.len() {
                assert(layer[i] == k[i] && layer[j] == k[j]);
            } else if i >= layer.len() && j >= layer.len() {
                assert(kr[i - layer.len()] == k[i] && kr[j - layer.len()] == k[j]);
            } else if i < layer.len() {
                assert(layer.contains(k[i]));
                assert(kr.contains(kr[j - layer.len()]));
                assert(rest.contains(k[j]));
            } else {
                assert(layer.contains(k[j]));
                assert(kr.contains(kr[i - layer.len()]));
                assert(rest.contains(k[i]));
            }
        }
        assert forall|p: int, i: int, j: int|
            #![trigger pairs[p], k[i], k[j]]
            0 <= p < pairs.len() && rem.contains(pairs[p].0) && rem.contains(pairs[p].1) && 0 <= i
                < k.len() && 0 <= j < k.len() && k[i] == pairs[p].0 && k[j] == pairs[p].1 implies i
                < j by {
            let s = pairs[p].1;
            assert(has_pred_in(pairs, s, rem));
            assert(!layer.contains(s));
            if j < layer.len() {
                assert(layer[j] == s);
            }
            if i >= layer.len() {
                assert(kr[i - layer.len()] == pairs[p].0);
                assert(kr[j - layer.len()] == s);
                assert(kr.contains(pairs[p].0));
                assert(rest.contains(pairs[p].0));
                assert(kr.contains(s));
                assert(rest.contains(s));
            }
        }
    }
}

/// Two ascending lists of the same nodes are the same list.
proof fn lemma_sorted_unique(a: Seq<usize>, b: Seq<usize>)
    requires
        strictly_increasing(a),
        strictly_increasing(b),
        forall|x: usize| a.contains(x) <==> b.contains(x),
    ensures
        a == b,
    decreases a.len(),
{
    if a.len() == 0 {
        if b.len() > 0 {
            assert(b.contains(b[0]));
        }
        assert(a =~= b);
    } else {
        assert(a.contains(a.last()));
        assert(b.len() > 0);
        assert(b.contains(b.last()));
        let ja = choose|j: int| 0 <= j < b.len() && b[j] == a.last();
        let jb = choose|j: int| 0 <= j < a.len() && a[j] == b.last();
        assert(a[a.len() - 1] == a.last());
        assert(b[b.len() - 1] == b.last());
        assert(a.last() == b.last());
        let ta = a.drop_last();
        let tb = b.drop_last();
        assert forall|x: usize| ta.contains(x) <==> tb.contains(x) by {
            if ta.contains(x) {
                let k = choose|k: int| 0 <= k < ta.len() && ta[k] == x;
                assert(a[k] == x);
                assert(a.contains(x));
                let q = choose|q: int| 0 <= q < b.len() && b[q] == x;
                assert(x < a.last());
                assert(q < b.len() - 1);
                assert(tb[q] == x);
            }
            if tb.contains(x) {
                let k = choose|k: int| 0 <= k < tb.len() && tb[k] == x;
                assert(b[k] == x);
                assert(b.contains(x));
                let q = choose|q: int| 0 <= q < a.len() && a[q] == x;
                assert(x < b.last());
                assert(q < a.len() - 1);
                assert(ta[q] == x);
            }
        }
        lemma_sorted_unique(ta, tb);
        assert(a =~= ta.push(a.last()));
        assert(b =~= tb.push(b.last()));
    }
}

proof fn lemma_is_node_push(pairs: Seq<(usize, usize)>, e: (usize, usize), x: usize)
    ensures
        is_node(pairs.push(e), x) <==> (is_node(pairs, x) || e.0 == x || e.1 == x),
{
    let q = pairs.push(e);
    if is_node(q, x) {
        let k = choose|k: int| 0 <= k < q.len() && (#[trigger] q[k].0 == x || q[k].1 == x);
        if k < pairs.len() {
            assert(pairs[k] == q[k]);
        }
    }
    if is_node(pairs, x) {
        let k = choose|k: int| 0 <= k < pairs.len() && (#[trigger] pairs[k].0 == x || pairs[k].1 == x);
        assert(q[k] == pairs[k]);
    }
    if e.0 == x || e.1 == x {
        assert(q[pairs.len() as int] == e);
    }
}

fn vec_contains(v: &Vec<usize>, x: usize) -> (r: bool)
    ensures
        r == v@.contains(x),
{
    let mut i: usize = 0;
    while i < v.len()
        invariant
            i <= v.len(),
            forall|k: int| 0 <= k < i ==> v@[k] != x,
        decreases v.len() - i,
    {
        if v[i] == x {
            assert(v@[i as int] == x);
            return true;
        }
        i = i + 1;
    }
    false
}

/// Inserts `x` into an ascending list without repetitions.
fn insert_sorted(v: &mut Vec<usize>, x: usize)
    requires
        strictly_increasing(old(v)@),
    ensures
        strictly_increasing(final(v)@),
        forall|y: usize| final(v)@.contains(y) <==> (old(v)@.contains(y) || y == x),
{
    let ghost ov = v@;
    let mut i: usize = 0;
    while i < v.len() && v[i] < x
        invariant
            i <= v.len(),
            v@ == ov,
            forall|k: int| 0 <= k < i ==> v@[k] < x,
        decreases v.len() - i,
    {
        i = i + 1;
    }
    if i < v.len() && v[i] == x {
        assert(ov[i as int] == x);
        return;
    }
    v.insert(i, x);
    assert(v@ == ov.insert(i as int, x));
    assert forall|y: usize| v@.contains(y) <==> (ov.contains(y) || y == x) by {
        if v@.contains(y) {
            let k = choose|k: int| 0 <= k < v@.len() && v@[k] == y;
            if k < i {
                assert(ov[k] == y);
                assert(ov.contains(y));
            } else if k > i {
                assert(ov[k - 1] == y);
                assert(ov.contains(y));
            }
        }
        if ov.contains(y) {
            let k = choose|k: int| 0 <= k < ov.len() && ov[k] == y;
            if k < i {
                assert(v@[k] == y);
            } else {
                assert(v@[k + 1] == y);
            }
            assert(v@.contains(y));
        }
        if y == x {
            assert(v@[i as int] == x);
            assert(v@.contains(y));
        }
    }
}

fn has_pred(pairs: &Vec<(usize, usize)>, n: usize, rem: &Vec<usize>) -> (r: bool)
    ensures
        r == has_pred_in(pairs@, n, rem@),
{
    let mut j: usize = 0;
    while j < pairs.len()
        invariant
            j <= pairs.len(),
            forall|k: int| 0 <= k < j ==> !(#[trigger] pairs@[k].1 == n && rem@.contains(pairs@[k].0)),
        decreases pairs.len() - j,
    {
        let (p, s) = pairs[j];
        if s == n && vec_contains(rem, p) {
            return true;
        }
        j = j + 1;
    }
    false
}

impl TopSort {
    pub fn new() -> (s: Self)
        ensures
            s@ == Seq::<(usize, usize)>::empty(),
    {
        TopSort { pairs: Vec::new() }
    }

    /// Records that `pred` comes before `succ`.
    pub fn add(&mut self, pred: usize, succ: usize)
        ensures
            final(self)@ == old(self)@.push((pred, succ)),
    {
        self.pairs.push((pred, succ));
    }

    /// All nodes in layered topological order: first every node without predecessor in
    /// ascending order, then those whose predecessors all came in the first layer, and
    /// so on.
    pub fn sorted(&self) -> (r: Vec<usize>)
        requires
            acyclic(self@),
        ensures
            r@ == kahn(self@, sorted_nodes(self@)),
            r@.no_duplicates(),
            forall|x: usize| #[trigger] r@.contains(x) <==> is_node(self@, x),
            forall|p: int, i: int, j: int|
                #![trigger self@[p], r@[i], r@[j]]
                0 <= p < self@.len() && 0 <= i < r@.len() && 0 <= j < r@.len() && r@[i]
                    == self@[p].0 && r@[j] == self@[p].1 ==> i < j,
    {
        let pairs = &self.pairs;
        let mut ns: Vec<usize> = Vec::new();
        let mut i: usize = 0;
        while i < pairs.len()
            invariant
                i <= pairs.len(),
                strictly_increasing(ns@),
                forall|x: usize| ns@.contains(x) <==> is_node(pairs@.take(i as int), x),
            decreases pairs.len() - i,
        {
            let (p, s) = pairs[i];
            insert_sorted(&mut ns, p);
            insert_sorted(&mut ns, s);
            proof {
                assert(pairs@.take(i + 1) =~= pairs@.take(i as int).push((p, s)));
                assert forall|x: usize| ns@.contains(x) <==> is_node(pairs@.take(i + 1), x) by {
                    lemma_is_node_push(pairs@.take(i as int), (p, s), x);
                }
            }
            i = i + 1;
        }
        proof {
            assert(pairs@.take(pairs@.len() as int) =~= pairs@);
        }
        proof {
            assert forall|x: usize| #[trigger] ns@.contains(x) <==> is_node(pairs@, x) by {}
            lemma_sorted_unique(ns@, sorted_nodes(pairs@));
        }
        let ghost all = ns@;
        let mut result: Vec<usize> = Vec::new();
        let mut rem = ns;
        while rem.len() > 0
            invariant
                acyclic(pairs@),
                strictly_increasing(rem@),
                result@ + kahn(pairs@, rem@) == kahn(pairs@, all),
            decreases rem.len(),
        {
            let mut layer: Vec<usize> = Vec::new();
            let mut rest: Vec<usize> = Vec::new();
            let mut k: usize = 0;
            while k < rem.len()
                invariant
                    k <= rem.len(),
                    layer@ == ready(pairs@, rem@.take(k as int), rem@),
                    rest@ == blocked(pairs@, rem@.take(k as int), rem@),
                decreases rem.len() - k,
            {
                let n = rem[k];
                proof {
                    assert(rem@.take(k + 1).drop_last() =~= rem@.take(k as int));
                    assert(rem@.take(k + 1).last() == n);
                }
                if has_pred(pairs, n, &rem) {
                    rest.push(n);
                } else {
                    layer.push(n);
                }
                k = k + 1;
            }
            proof {
                assert(rem@.take(rem@.len() as int) =~= rem@);
                lemma_progress(pairs@, rem@);
                lemma_split_len(pairs@, rem@, rem@);
                lemma_split_members(pairs@, rem@, rem@);
                assert(result@ + layer@ + kahn(pairs@, rest@) =~= result@ + kahn(pairs@, rem@));
            }
            let mut q: usize = 0;
            let ghost r0 = result@;
            while q < layer.len()
                invariant
                    q <= layer.len(),
                    result@ == r0 + layer@.take(q as int),
                decreases layer.len() - q,
            {
                result.push(layer[q]);
                proof {
                    assert(layer@.take(q + 1) =~= layer@.take(q as int).push(layer@[q as int]));
                }
                q = q + 1;
            }
            proof {
                assert(layer@.take(layer@.len() as int) =~= layer@);
            }
            rem = rest;
        }
        proof {
            assert(kahn(pairs@, rem@) =~= seq![]);
            assert(result@ =~= kahn(pairs@, all));
            lemma_kahn_is_topological_order(pairs@, all);
            assert forall|x: usize| #[trigger] result@.contains(x) <==> is_node(self@, x) by {
                assert(all.contains(x) <==> is_node(pairs@, x));
            }
        }
        result
    }
}

} // verus!
