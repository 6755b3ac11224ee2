//! How many bytes the resize snapshots keep alive. A snapshot holds its
//! own image and, until its copy's fence is reached, the inputs it was
//! copied from; an interrupted transition's inputs are blends of older
//! snapshots. Each snapshot is counted once, however many holders share it.
use vstd::prelude::*;

verus! {

/// One snapshot as the accounting sees it; others refer to it by index.
pub struct Held {
    /// The size of its own image.
    pub bytes: usize,
    /// Its copy finished: the inputs it holds can be let go.
    pub fence_reached: bool,
    /// The snapshots its inputs still hold (both sides of each blend).
    pub inputs: Vec<usize>,
}

/// The snapshots a snapshot keeps alive: none once its fence is reached.
pub open spec fn live_inputs(h: Held) -> Seq<usize> {
    if h.fence_reached {
        Seq::empty()
    } else {
        h.inputs@
    }
}

/// Every index in the graph and among the roots names a snapshot.
pub open spec fn well_formed(g: Seq<Held>, roots: Seq<usize>) -> bool {
    &&& forall|k: int| 0 <= k < roots.len() ==> #[trigger] roots[k] < g.len()
    &&& forall|i: int, k: int| 0 <= i < g.len() && 0 <= k < g[i].inputs@.len() ==> #[trigger] g[i].inputs@[k] < g.len()
}

/// `u` keeps `v` alive.
pub open spec fn holds(g: Seq<Held>, u: usize, v: usize) -> bool {
    u < g.len() && live_inputs(g[u as int]).contains(v)
}

/// A chain of holders starting at a root.
pub open spec fn is_chain(g: Seq<Held>, roots: Seq<usize>, p: Seq<usize>) -> bool {
    &&& p.len() > 0
    &&& roots.contains(p[0])
    &&& forall|k: int| #![trigger p[k]] 0 <= k < p.len() - 1 ==> holds(g, p[k], p[k + 1])
}

/// Snapshot `i` is kept alive by the roots.
pub open spec fn reachable(g: Seq<Held>, roots: Seq<usize>, i: usize) -> bool {
    exists|p: Seq<usize>| is_chain(g, roots, p) && p.last() == i
}

/// The bytes of the snapshots below `n` that `f` selects.
pub open spec fn bytes_where(g: Seq<Held>, f: spec_fn(int) -> bool, n: int) -> int
    decreases n,
{
    if n <= 0 {
        0
    } else {
        bytes_where(g, f, n - 1) + if f(n - 1) {
            g[n - 1].bytes as int
        } else {
            0
        }
    }
}

/// The bytes the roots keep alive, each snapshot counted once.
pub open spec fn retained_total(g: Seq<Held>, roots: Seq<usize>) -> int {
    bytes_where(g, |i: int| reachable(g, roots, i as usize), g.len() as int)
}

/// How many of the first `n` marks are set.
pub open spec fn marked(m: Seq<bool>, n: int) -> int
    decreases n,
{
    if n <= 0 {
        0
    } else {
        marked(m, n - 1) + if m[n - 1] {
            1int
        } else {
            0
        }
    }
}

proof fn lemma_bytes_mono(g: Seq<Held>, f1: spec_fn(int) -> bool, f2: spec_fn(int) -> bool, n: int)
    requires
        forall|i: int| 0 <= i < n && #[trigger] f1(i) ==> f2(i),
    ensures
        0 <= bytes_where(g, f1, n) <= bytes_where(g, f2, n),
    decreases n,
{
    if n > 0 {
        lemma_bytes_mono(g, f1, f2, n - 1);
    }
}

proof fn lemma_bytes_none(g: Seq<Held>, f: spec_fn(int) -> bool, n: int)
    requires
        forall|i: int| 0 <= i < n ==> !#[trigger] f(i),
    ensures
        bytes_where(g, f, n) == 0,
    decreases n,
{
    if n > 0 {
        lemma_bytes_none(g, f, n - 1);
    }
}

proof fn lemma_bytes_ext(g: Seq<Held>, f1: spec_fn(int) -> bool, f2: spec_fn(int) -> bool, n: int)
    requires
        forall|i: int| 0 <= i < n ==> #[trigger] f1(i) == f2(i),
    ensures
        bytes_where(g, f1, n) == bytes_where(g, f2, n),
    decreases n,
{
    if n > 0 {
        lemma_bytes_ext(g, f1, f2, n - 1);
    }
}

proof fn lemma_bytes_mark(g: Seq<Held>, f1: spec_fn(int) -> bool, f2: spec_fn(int) -> bool, n: int, j: int)
    requires
        0 <= j < n,
        !f1(j) && f2(j),
        forall|i: int| 0 <= i < n && i != j ==> #[trigger] f1(i) == f2(i),
    ensures
        bytes_where(g, f2, n) == bytes_where(g, f1, n) + g[j].bytes,
    decreases n,
{
    if n - 1 == j {
        lemma_bytes_ext(g, f1, f2, n - 1);
    } else {
        lemma_bytes_mark(g, f1, f2, n - 1, j);
    }
}

proof fn lemma_marked_set(m: Seq<bool>, j: int, n: int)
    requires
        0 <= j < m.len(),
        n <= m.len(),
        !m[j],
    ensures
        marked(m.update(j, true), n) == marked(m, n) + (if j < n { 1int } else { 0 }),
    decreases n,
{
    if n > 0 {
        lemma_marked_set(m, j, n - 1);
    }
}

proof fn lemma_marked_bound(m: Seq<bool>, n: int)
    ensures
        0 <= marked(m, n) <= if n < 0 { 0 } else { n },
    decreases n,
{
    if n > 0 {
        lemma_marked_bound(m, n - 1);
    }
}

/// A root is reachable.
proof fn lemma_root_reachable(g: Seq<Held>, roots: Seq<usize>, k: int)
    requires
        0 <= k < roots.len(),
    ensures
        reachable(g, roots, roots[k]),
{
    let p = seq![roots[k]];
    assert(roots.contains(p[0]));
    assert(is_chain(g, roots, p) && p.last() == roots[k]);
}

/// What a reachable snapshot holds is reachable.
proof fn lemma_step_reachable(g: Seq<Held>, roots: Seq<usize>, u: usize, v: usize)
    requires
        reachable(g, roots, u),
        holds(g, u, v),
    ensures
        reachable(g, roots, v),
{
    let p = choose|p: Seq<usize>| is_chain(g, roots, p) && p.last() == u;
    let q = p.push(v);
    assert forall|k: int| #![trigger q[k]] 0 <= k < q.len() - 1 implies holds(g, q[k], q[k + 1]) by {
        if k < p.len() - 1 {
            assert(q[k] == p[k] && q[k + 1] == p[k + 1]);
        }
    }
    assert(q[0] == p[0]);
    assert(is_chain(g, roots, q));
    assert(q.last() == v);
}

/// A set of snapshots that holds the roots and everything its members
/// keep alive holds every reachable snapshot.
proof fn lemma_closed_holds_chain(g: Seq<Held>, roots: Seq<usize>, s: spec_fn(usize) -> bool, p: Seq<usize>)
    requires
        is_chain(g, roots, p),
        forall|k: int| 0 <= k < roots.len() ==> s(#[trigger] roots[k]),
        forall|u: usize, v: usize| s(u) && #[trigger] holds(g, u, v) ==> s(v),
    ensures
        s(p.last()),
    decreases p.len(),
{
    if p.len() == 1 {
        let k = choose|k: int| 0 <= k < roots.len() && roots[k] == p[0];
        assert(s(roots[k]));
    } else {
        let q = p.drop_last();
        assert forall|k: int| #![trigger q[k]] 0 <= k < q.len() - 1 implies holds(g, q[k], q[k + 1]) by {
            assert(q[k] == p[k] && q[k + 1] == p[k + 1]);
        }
        assert(q[0] == p[0]);
        lemma_closed_holds_chain(g, roots, s, q);
        assert(holds(g, p[p.len() - 2], p[p.len() - 1]));
    }
}

/// A snapshot is counted once, however many holders share it: naming a
/// root a second time does not change the total.
pub proof fn lemma_shared_counted_once(g: Seq<Held>, roots: Seq<usize>, r: usize)
    requires
        roots.contains(r),
    ensures
        retained_total(g, roots.push(r)) == retained_total(g, roots),
{
    let more = roots.push(r);
    assert forall|x: usize| #[trigger] more.contains(x) == roots.contains(x) by {
        if more.contains(x) {
            let k = choose|k: int| 0 <= k < more.len() && more[k] == x;
            if k < roots.len() {
                assert(roots[k] == x);
            }
        }
        if roots.contains(x) {
            let k = choose|k: int| 0 <= k < roots.len() && roots[k] == x;
            assert(more[k] == x);
        }
    }
    assert forall|i: int| 0 <= i < g.len() implies #[trigger] reachable(g, more, i as usize) == reachable(g, roots, i as usize) by {
        assert forall|p: Seq<usize>| #[trigger] is_chain(g, more, p) == is_chain(g, roots, p) by {
            if p.len() > 0 {
                assert(more.contains(p[0]) == roots.contains(p[0]));
            }
        }
    }
    lemma_bytes_ext(
        g,
        |i: int| reachable(g, more, i as usize),
        |i: int| reachable(g, roots, i as usize),
        g.len() as int,
    );
}

/// Everything the loops below know about the walk so far.
pub open spec fn walk_state(
    g: Seq<Held>,
    roots: Seq<usize>,
    nodes: Seq<Held>,
    visited: Seq<bool>,
    total: int,
) -> bool {
    &&& nodes.len() == g.len()
    &&& visited.len() == g.len()
    &&& forall|i: int| 0 <= i < g.len() ==> {
        &&& (#[trigger] nodes[i]).bytes == g[i].bytes
        &&& nodes[i].fence_reached == g[i].fence_reached
        &&& nodes[i].inputs@ == if visited[i] {
            live_inputs(g[i])
        } else {
            g[i].inputs@
        }
    }
    &&& forall|i: int| 0 <= i < g.len() && #[trigger] visited[i] ==> reachable(g, roots, i as usize)
    &&& total == bytes_where(g, |i: int| visited[i], g.len() as int)
}

/// Mark `v` as counted: add its bytes, let go of its inputs if its copy
/// finished, and queue it for the walk.
fn visit(
    nodes: &mut Vec<Held>,
    visited: &mut Vec<bool>,
    stack: &mut Vec<usize>,
    total: &mut usize,
    v: usize,
    Ghost(g): Ghost<Seq<Held>>,
    Ghost(roots): Ghost<Seq<usize>>,
)
    requires
        walk_state(g, roots, old(nodes)@, old(visited)@, *old(total) as int),
        v < g.len(),
        !old(visited)@[v as int],
        reachable(g, roots, v),
        retained_total(g, roots) <= usize::MAX,
    ensures
        walk_state(g, roots, final(nodes)@, final(visited)@, *final(total) as int),
        final(visited)@ == old(visited)@.update(v as int, true),
        final(stack)@ == old(stack)@.push(v),
{
    let ghost before = visited@;
    visited[v] = true;
    proof {
        let f1 = |i: int| before[i];
        let f2 = |i: int| visited@[i];
        lemma_bytes_mark(g, f1, f2, g.len() as int, v as int);
        let fr = |i: int| reachable(g, roots, i as usize);
        lemma_bytes_mono(g, f2, fr, g.len() as int);
        assert(bytes_where(g, f1, g.len() as int) == *total);
    }
    *total = *total + nodes[v].bytes;
    if nodes[v].fence_reached {
        nodes[v].inputs = Vec::new();
    }
    stack.push(v);
    proof {
        assert forall|i: int| 0 <= i < g.len() implies {
            &&& (#[trigger] nodes@[i]).bytes == g[i].bytes
            &&& nodes@[i].fence_reached == g[i].fence_reached
            &&& nodes@[i].inputs@ == if visited@[i] {
                live_inputs(g[i])
            } else {
                g[i].inputs@
            }
        } by {
            if i == v as int {
                if !g[i].fence_reached {
                    assert(nodes@[i].inputs@ == old(nodes)@[i].inputs@);
                }
            }
        }
    }
}

/// Bytes kept alive by `roots` (the registry's snapshots and the two
/// sides of every queued or rendered blend), each snapshot counted once.
/// On the way, every counted snapshot whose copy finished lets go of its
/// inputs.
pub fn retained_bytes(nodes: &mut Vec<Held>, roots: &Vec<usize>) -> (total: usize)
    requires
        well_formed(old(nodes)@, roots@),
        retained_total(old(nodes)@, roots@) <= usize::MAX,
    ensures
        total == retained_total(old(nodes)@, roots@),
        final(nodes)@.len() == old(nodes)@.len(),
        forall|i: int| 0 <= i < old(nodes)@.len() ==> {
            &&& (#[trigger] final(nodes)@[i]).bytes == old(nodes)@[i].bytes
            &&& final(nodes)@[i].fence_reached == old(nodes)@[i].fence_reached
            &&& final(nodes)@[i].inputs@ == if reachable(old(nodes)@, roots@, i as usize) {
                live_inputs(old(nodes)@[i])
            } else {
                old(nodes)@[i].inputs@
            }
        },
{
    let ghost g = nodes@;
    let n = nodes.len();
    let mut visited: Vec<bool> = Vec::new();
    while visited.len() < n
        invariant
            visited@.len() <= n,
            n == g.len(),
            forall|i: int| 0 <= i < visited@.len() ==> !(#[trigger] visited@[i]),
        decreases n - visited@.len(),
    {
        visited.push(false);
    }
    let mut total: usize = 0;
    proof {
        lemma_bytes_none(g, |i: int| visited@[i], n as int);
    }
    let mut stack: Vec<usize> = Vec::new();
    let mut r: usize = 0;
    while r < roots.len()
        invariant
            walk_state(g, roots@, nodes@, visited@, total as int),
            well_formed(g, roots@),
            retained_total(g, roots@) <= usize::MAX,
            n == g.len(),
            r <= roots@.len(),
            stack@.len() == 0,
            forall|k: int| 0 <= k < r ==> visited@[#[trigger] roots@[k] as int],
            forall|u: usize, v: usize| u < n && visited@[u as int] && #[trigger] holds(g, u, v) ==> visited@[v as int],
        decreases roots@.len() - r,
    {
        let root = roots[r];
        if !visited[root] {
            proof {
                lemma_root_reachable(g, roots@, r as int);
            }
            let ghost vis0 = visited@;
            visit(nodes, &mut visited, &mut stack, &mut total, root, Ghost(g), Ghost(roots@));
            proof {
                assert forall|x: usize, w: usize| x < n && visited@[x as int] && !stack@.contains(x) && #[trigger] holds(g, x, w)
                    implies visited@[w as int] by {
                    assert(stack@[0] == root);
                    assert(x != root);
                    assert(vis0[x as int]);
                }
            }
            while stack.len() > 0
                invariant
                    walk_state(g, roots@, nodes@, visited@, total as int),
                    well_formed(g, roots@),
                    retained_total(g, roots@) <= usize::MAX,
                    n == g.len(),
                    r < roots@.len(),
                    root == roots@[r as int],
                    visited@[root as int],
                    forall|k: int| 0 <= k < r ==> visited@[#[trigger] roots@[k] as int],
                    forall|k: int| 0 <= k < stack@.len() ==> #[trigger] stack@[k] < n && visited@[stack@[k] as int],
                    forall|a: int, b: int| 0 <= a < b < stack@.len() ==> #[trigger] stack@[a] != #[trigger] stack@[b],
                    forall|u: usize, v: usize| u < n && visited@[u as int] && !stack@.contains(u) && #[trigger] holds(g, u, v)
                        ==> visited@[v as int],
                decreases 2 * (n - marked(visited@, n as int)) + stack@.len(),
            {
                proof {
                    lemma_marked_bound(visited@, n as int);
                }
                let ghost budget = 2 * (n - marked(visited@, n as int)) + stack@.len();
                let ghost pre = stack@;
                let u = stack.pop().unwrap();
                proof {
                    let popped = stack@;
                    assert(u == pre[pre.len() - 1]);
                    assert(!popped.contains(u)) by {
                        if popped.contains(u) {
                            let k = choose|k: int| 0 <= k < popped.len() && popped[k] == u;
                            assert(pre[k] == popped[k]);
                        }
                    }
                    assert forall|j: int| 0 <= j < popped.len() implies #[trigger] popped[j] < n && visited@[popped[j] as int] by {
                        assert(pre[j] == popped[j]);
                    }
                    assert forall|a: int, b: int| 0 <= a < b < popped.len() implies #[trigger] popped[a] != #[trigger] popped[b] by {
                        assert(pre[a] == popped[a] && pre[b] == popped[b]);
                    }
                    assert forall|x: usize, v: usize| x < n && x != u && visited@[x as int] && !popped.contains(x) && #[trigger] holds(g, x, v)
                        implies visited@[v as int] by {
                        if pre.contains(x) {
                            let k = choose|k: int| 0 <= k < pre.len() && pre[k] == x;
                            if k < pre.len() - 1 {
                                assert(popped[k] == x);
                            }
                        }
                    }
                }
                let m = nodes[u].inputs.len();
                let mut k: usize = 0;
                while k < m
                    invariant
                        walk_state(g, roots@, nodes@, visited@, total as int),
                        well_formed(g, roots@),
                        retained_total(g, roots@) <= usize::MAX,
                        n == g.len(),
                        u < n,
                        visited@[u as int],
                        m == live_inputs(g[u as int]).len(),
                        k <= m,
                        r < roots@.len(),
                        root == roots@[r as int],
                        visited@[root as int],
                        !stack@.contains(u),
                        forall|j: int| 0 <= j < r ==> visited@[#[trigger] roots@[j] as int],
                        forall|j: int| 0 <= j < stack@.len() ==> #[trigger] stack@[j] < n && visited@[stack@[j] as int],
                        forall|a: int, b: int| 0 <= a < b < stack@.len() ==> #[trigger] stack@[a] != #[trigger] stack@[b],
                        forall|j: int| 0 <= j < k ==> visited@[#[trigger] live_inputs(g[u as int])[j] as int],
                        forall|x: usize, v: usize| x < n && x != u && visited@[x as int] && !stack@.contains(x) && #[trigger] holds(g, x, v)
                            ==> visited@[v as int],
                        0 <= marked(visited@, n as int) <= n,
                        2 * (n - marked(visited@, n as int)) + stack@.len() < budget,
                    decreases m - k,
                {
                    let v = nodes[u].inputs[k];
                    proof {
                        assert(nodes@[u as int].inputs@ == live_inputs(g[u as int]));
                        assert(v == live_inputs(g[u as int])[k as int]);
                        assert(live_inputs(g[u as int]).contains(v));
                        assert(holds(g, u, v));
                        if !g[u as int].fence_reached {
                            assert(g[u as int].inputs@[k as int] == v);
                        }
                    }
                    if !visited[v] {
                        proof {
                            lemma_step_reachable(g, roots@, u, v);
                            lemma_marked_set(visited@, v as int, n as int);
                        }
                        let ghost vis0 = visited@;
                        let ghost st0 = stack@;
                        visit(nodes, &mut visited, &mut stack, &mut total, v, Ghost(g), Ghost(roots@));
                        proof {
                            lemma_marked_bound(visited@, n as int);
                            assert forall|j: int| 0 <= j < stack@.len() implies #[trigger] stack@[j] < n && visited@[stack@[j] as int] by {
                                if j < st0.len() {
                                    assert(stack@[j] == st0[j]);
                                }
                            }
                            assert forall|a: int, b: int| 0 <= a < b < stack@.len() implies #[trigger] stack@[a] != #[trigger] stack@[b] by {
                                if b < st0.len() {
                                    assert(stack@[a] == st0[a] && stack@[b] == st0[b]);
                                } else {
                                    assert(stack@[a] == st0[a]);
                                    assert(vis0[st0[a] as int]);
                                }
                            }
                            assert(!stack@.contains(u)) by {
                                if stack@.contains(u) {
                                    let j = choose|j: int| 0 <= j < stack@.len() && stack@[j] == u;
                                    if j < st0.len() {
                                        assert(stack@[j] == st0[j]);
                                        assert(st0.contains(u));
                                    }
                                }
                            }
                            assert forall|x: usize, w: usize| x < n && x != u && visited@[x as int] && !stack@.contains(x) && #[trigger] holds(g, x, w)
                                implies visited@[w as int] by {
                                assert(x != v) by {
                                    assert(stack@[stack@.len() - 1] == v);
                                }
                                assert(vis0[x as int]);
                                assert(!st0.contains(x)) by {
                                    if st0.contains(x) {
                                        let j = choose|j: int| 0 <= j < st0.len() && st0[j] == x;
                                        assert(stack@[j] == st0[j]);
                                    }
                                }
                            }
                        }
                    }
                    k = k + 1;
                }
                proof {
                    assert forall|x: usize, w: usize| x < n && visited@[x as int] && !stack@.contains(x) && #[trigger] holds(g, x, w)
                        implies visited@[w as int] by {
                        if x == u {
                            let j = choose|j: int| 0 <= j < live_inputs(g[u as int]).len() && live_inputs(g[u as int])[j] == w;
                            assert(visited@[live_inputs(g[u as int])[j] as int]);
                        }
                    }
                }
            }
        }
        r = r + 1;
    }
    proof {
        let s = |i: usize| visited@[i as int];
        assert forall|k: int| 0 <= k < roots@.len() implies s(#[trigger] roots@[k]) by {}
        assert forall|u: usize, v: usize| s(u) && #[trigger] holds(g, u, v) implies s(v) by {}
        assert forall|i: int| 0 <= i < g.len() implies #[trigger] visited@[i] == reachable(g, roots@, i as usize) by {
            if reachable(g, roots@, i as usize) {
                let p = choose|p: Seq<usize>| is_chain(g, roots@, p) && p.last() == i as usize;
                lemma_closed_holds_chain(g, roots@, s, p);
            }
        }
        lemma_bytes_ext(g, |i: int| visited@[i], |i: int| reachable(g, roots@, i as usize), g.len() as int);
        assert forall|i: int| 0 <= i < g.len() implies #[trigger] reachable(g, roots@, i as usize) == visited@[i] by {}
    }
    total
}

} // verus!
