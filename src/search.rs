use vstd::prelude::*;
use vstd::relations::injective;
use vstd::set_lib::*;

verus! {

/// `p` visits `s` first and `t` last, follows edges of `g` (an adjacency
/// list by vertex index), and visits no vertex twice.
pub open spec fn is_graph_path(g: Seq<Vec<usize>>, p: Seq<usize>, s: usize, t: usize) -> bool {
    &&& p.len() > 0
    &&& p[0] == s
    &&& p.last() == t
    &&& forall|i: int| 0 <= i < p.len() ==> #[trigger] p[i] < g.len()
    &&& forall|i: int| 0 <= i < p.len() - 1 ==> g[#[trigger] p[i] as int]@.contains(p[i + 1])
    &&& p.no_duplicates()
}

/// `p` starts at `s`, follows edges of `g` and visits no vertex twice.
spec fn is_partial_path(g: Seq<Vec<usize>>, p: Seq<usize>, s: usize) -> bool {
    is_graph_path(g, p, s, p.last())
}

spec fn is_prefix(a: Seq<usize>, q: Seq<usize>) -> bool {
    a.len() <= q.len() && a == q.subrange(0, a.len() as int)
}

/// Some partial path on the stack can still grow into `q`.
spec fn covered(stack: Seq<Vec<usize>>, q: Seq<usize>) -> bool {
    exists|k: int| 0 <= k < stack.len() && is_prefix(#[trigger] stack[k]@, q)
}

spec fn pow5(e: nat) -> nat
    decreases e,
{
    if e == 0 {
        1
    } else {
        5 * pow5((e - 1) as nat)
    }
}

/// Termination measure of the search: a path of length `l` weighs
/// `5^(n - l)`, more than the at most four paths that replace it.
spec fn weight(stack: Seq<Vec<usize>>, n: nat) -> nat
    decreases stack.len(),
{
    if stack.len() == 0 {
        0
    } else {
        weight(stack.drop_last(), n) + pow5((n - stack.last().len()) as nat)
    }
}

proof fn lemma_pow5_positive(e: nat)
    ensures
        pow5(e) >= 1,
    decreases e,
{
    if e > 0 {
        lemma_pow5_positive((e - 1) as nat);
    }
}

proof fn lemma_weight_push(stack: Seq<Vec<usize>>, e: Vec<usize>, n: nat)
    ensures
        weight(stack.push(e), n) == weight(stack, n) + pow5((n - e.len()) as nat),
{
    assert(stack.push(e).drop_last() =~= stack);
}

/// A path of distinct vertices below `n` has at most `n` vertices.
proof fn lemma_distinct_bounded(p: Seq<usize>, n: nat)
    requires
        p.no_duplicates(),
        forall|i: int| 0 <= i < p.len() ==> #[trigger] p[i] < n,
    ensures
        p.len() <= n,
{
    let f = |x: usize| x as int;
    let q = p.map_values(f);
    p.lemma_no_duplicates_injective(f);
    q.unique_seq_to_set();
    lemma_int_range(0, n as int);
    assert(forall|x: int| q.to_set().contains(x) ==> set_int_range(0, n as int).contains(x));
    lemma_len_subset(q.to_set(), set_int_range(0, n as int));
}

proof fn lemma_covered_push(stack: Seq<Vec<usize>>, e: Vec<usize>, q: Seq<usize>)
    requires
        covered(stack, q) || is_prefix(e@, q),
    ensures
        covered(stack.push(e), q),
{
    let s2 = stack.push(e);
    if covered(stack, q) {
        let k = choose|k: int| 0 <= k < stack.len() && is_prefix(#[trigger] stack[k]@, q);
        assert(s2[k] == stack[k]);
    } else {
        assert(s2[stack.len() as int] == e);
    }
}

proof fn lemma_covered_pop(stack: Seq<Vec<usize>>, q: Seq<usize>)
    requires
        stack.len() > 0,
        covered(stack, q),
    ensures
        covered(stack.drop_last(), q) || is_prefix(stack.last()@, q),
{
    let k = choose|k: int| 0 <= k < stack.len() && is_prefix(#[trigger] stack[k]@, q);
    if k < stack.len() - 1 {
        assert(stack.drop_last()[k] == stack[k]);
    }
}

/// Whether `target` is absent from `path`.
fn is_not_visited(target: usize, path: &Vec<usize>) -> (r: bool)
    ensures
        r == !path@.contains(target),
{
    let mut i: usize = 0;
    while i < path.len()
        invariant
            i <= path.len(),
            forall|j: int| 0 <= j < i ==> path@[j] != target,
        decreases path.len() - i,
    {
        if path[i] == target {
            return false;
        }
        i = i + 1;
    }
    true
}

/// Depth-first search for a path from `src` to `dst` over the adjacency list
/// `g`, each vertex having at most four neighbours. The stack holds whole
/// partial paths; a path is never extended by a vertex it already visits.
/// The first path to reach `dst` is returned, or an empty vector if none does.
pub(crate) fn findpaths(g: &Vec<Vec<usize>>, src: usize, dst: usize) -> (r: Vec<usize>)
    requires
        src < g.len(),
        forall|i: int| 0 <= i < g.len() ==> (#[trigger] g[i]).len() <= 4,
        forall|i: int, x: int| 0 <= i < g.len() && 0 <= x < g[i].len() ==> #[trigger] g[i][x] < g.len(),
    ensures
        r@.len() > 0 ==> is_graph_path(g@, r@, src, dst),
        r@.len() == 0 ==> forall|q: Seq<usize>| !is_graph_path(g@, q, src, dst),
{
    let ghost n = g.len() as nat;
    let mut stack: Vec<Vec<usize>> = Vec::new();
    let mut start: Vec<usize> = Vec::new();
    start.push(src);
    stack.push(start);
    proof {
        assert forall|q: Seq<usize>| is_graph_path(g@, q, src, dst) implies covered(stack@, q) by {
            assert(q.subrange(0, 1) =~= stack@[0]@);
        }
    }
    while stack.len() > 0
        invariant
            src < g.len(),
            n == g.len(),
            forall|i: int| 0 <= i < g.len() ==> (#[trigger] g[i]).len() <= 4,
            forall|i: int, x: int|
                0 <= i < g.len() && 0 <= x < g[i].len() ==> #[trigger] g[i][x] < g.len(),
            forall|k: int| 0 <= k < stack.len() ==> is_partial_path(g@, #[trigger] stack@[k]@, src),
            forall|q: Seq<usize>| is_graph_path(g@, q, src, dst) ==> covered(stack@, q),
        decreases weight(stack@, n),
    {
        let ghost before = stack@;
        let path = stack.pop().unwrap();
        let ghost rest = stack@;
        let last = path[path.len() - 1];
        if last == dst {
            return path;
        }
        proof {
            lemma_distinct_bounded(path@, n);
            lemma_pow5_positive((n - path.len()) as nat);
            assert forall|q: Seq<usize>| is_graph_path(g@, q, src, dst) implies covered(rest, q) || (
            is_prefix(path@, q) && q.len() > path.len()) by {
                lemma_covered_pop(before, q);
            }
        }
        let nbrs = &g[last];
        let ghost pushed: int = 0;
        let ghost c: nat = pow5((n - path.len() - 1) as nat);
        let mut k: usize = 0;
        while k < nbrs.len()
            invariant
                src < g.len(),
                n == g.len(),
                last < g.len(),
                nbrs == g[last as int],
                nbrs.len() <= 4,
                forall|x: int| 0 <= x < nbrs.len() ==> #[trigger] nbrs[x] < g.len(),
                is_partial_path(g@, path@, src),
                path@.last() == last,
                last != dst,
                k <= nbrs.len(),
                0 <= pushed <= k,
                pushed > 0 ==> path.len() < n,
                c == pow5((n - path.len() - 1) as nat),
                weight(stack@, n) <= weight(rest, n) + pushed * c,
                forall|j: int| 0 <= j < stack.len() ==> is_partial_path(g@, #[trigger] stack@[j]@, src),
                forall|q: Seq<usize>|
                    is_graph_path(g@, q, src, dst) ==> covered(stack@, q) || (is_prefix(path@, q)
                        && q.len() > path.len() && exists|x: int|
                        k <= x < nbrs.len() && #[trigger] nbrs[x] == q[path.len() as int]),
            decreases nbrs.len() - k,
        {
            let nb = nbrs[k];
            let ghost s0 = stack@;
            if is_not_visited(nb, &path) {
                let mut np = path.clone();
                np.push(nb);
                proof {
                    assert forall|i: int| 0 <= i < np@.len() - 1 implies g@[#[trigger] np@[i] as int]@.contains(np@[i + 1]) by {
                        if i < np@.len() - 2 {
                            assert(np@[i] == path@[i] && np@[i + 1] == path@[i + 1]);
                        }
                    }
                    lemma_distinct_bounded(np@, n);
                    lemma_weight_push(s0, np, n);
                }
                stack.push(np);
                proof {
                    pushed = pushed + 1;
                    assert((pushed - 1) * c + c == pushed * c) by (nonlinear_arith);
                    assert forall|q: Seq<usize>| is_graph_path(g@, q, src, dst) implies covered(
                        stack@,
                        q,
                    ) || (is_prefix(path@, q) && q.len() > path.len() && exists|x: int|
                        k + 1 <= x < nbrs.len() && #[trigger] nbrs[x] == q[path.len() as int]) by {
                        if covered(s0, q) {
                            lemma_covered_push(s0, np, q);
                        } else {
                            let x = choose|x: int|
                                k <= x < nbrs.len() && #[trigger] nbrs[x] == q[path.len() as int];
                            if x == k {
                                assert(path@ == q.subrange(0, path.len() as int));
                                assert(q.subrange(0, np@.len() as int) =~= q.subrange(
                                    0,
                                    path.len() as int,
                                ).push(q[path.len() as int]));
                                assert(is_prefix(np@, q));
                                lemma_covered_push(s0, np, q);
                            }
                        }
                    }
                }
            } else {
                proof {
                    assert forall|q: Seq<usize>| is_graph_path(g@, q, src, dst) implies covered(
                        stack@,
                        q,
                    ) || (is_prefix(path@, q) && q.len() > path.len() && exists|x: int|
                        k + 1 <= x < nbrs.len() && #[trigger] nbrs[x] == q[path.len() as int]) by {
                        if !covered(s0, q) {
                            let x = choose|x: int|
                                k <= x < nbrs.len() && #[trigger] nbrs[x] == q[path.len() as int];
                        }
                    }
                }
            }
            k = k + 1;
        }
        proof {
            assert forall|q: Seq<usize>| is_graph_path(g@, q, src, dst) implies covered(stack@, q) by {
                if !covered(stack@, q) {
                    let x = choose|x: int|
                        k <= x < nbrs.len() && #[trigger] nbrs[x] == q[path.len() as int];
                }
            }
            if pushed > 0 {
                assert(pushed * c <= 4 * c) by (nonlinear_arith)
                    requires
                        pushed <= 4,
                ;
            }
        }
    }
    proof {
        assert forall|q: Seq<usize>| !is_graph_path(g@, q, src, dst) by {
            if is_graph_path(g@, q, src, dst) {
                assert(covered(stack@, q));
            }
        }
    }
    Vec::new()
}

} // verus!
