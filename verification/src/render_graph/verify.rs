//! Graph verification: cycle detection, root and isolation checks, and
//! the dependency contract check.
//!
//! Cycle detection is a depth-first traversal from every node with a
//! visited set and an active recursion stack. On success it leaves
//! behind a rank per node that strictly decreases along every edge — the
//! witness of acyclicity the executor's termination rests on; on failure
//! the offending stack segment is itself a cycle.

use vstd::prelude::*;

use crate::image::Image;
use crate::pass::Pass;
use crate::render_graph::{
    main_image_slot, NodeId, RenderGraph, RenderGraphVerifyError,
};

verus! {

/// How many entries of a visited set are still false: the termination
/// measure of the depth-first traversal.
pub open spec fn count_false(s: Seq<bool>) -> nat
    decreases s,
{
    if s.len() == 0 {
        0
    } else {
        count_false(s.drop_last()) + if s.last() {
            0nat
        } else {
            1nat
        }
    }
}

/// Pointwise implication between visited sets never increases the count
/// of unvisited entries, and strictly decreases it where an entry flips.
proof fn lemma_count_false_le(s1: Seq<bool>, s2: Seq<bool>)
    requires
        s1.len() == s2.len(),
        forall|i: int| 0 <= i < s1.len() ==> (s1[i] ==> #[trigger] s2[i]),
    ensures
        count_false(s2) <= count_false(s1),
    decreases s1,
{
    if s1.len() > 0 {
        lemma_count_false_le(s1.drop_last(), s2.drop_last());
    }
}

/// Flipping at least one entry to visited strictly shrinks the count.
proof fn lemma_count_false_lt(s1: Seq<bool>, s2: Seq<bool>, w: int)
    requires
        s1.len() == s2.len(),
        forall|i: int| 0 <= i < s1.len() ==> (s1[i] ==> #[trigger] s2[i]),
        0 <= w < s1.len(),
        !s1[w],
        s2[w],
    ensures
        count_false(s2) < count_false(s1),
    decreases s1,
{
    if w == s1.len() - 1 {
        lemma_count_false_le(s1.drop_last(), s2.drop_last());
    } else {
        lemma_count_false_lt(s1.drop_last(), s2.drop_last(), w);
    }
}

/// Whether `v` sits on the active recursion stack.
pub open spec fn on_stack(stack: Seq<NodeId>, v: int) -> bool {
    exists|i: int| 0 <= i < stack.len() && (#[trigger] stack[i]).0 as int == v
}

/// Consecutive stack entries are edges: the stack is a walk.
pub open spec fn stack_path<P, I>(g: RenderGraph<P, I>, stack: Seq<NodeId>) -> bool {
    forall|i: int|
        0 <= i < stack.len() - 1 ==> g.edge((#[trigger] stack[i]).0 as int, stack[i + 1].0 as int)
}

/// A finished node's dependencies are all finished, with smaller ranks.
pub open spec fn node_finished<P, I>(
    g: RenderGraph<P, I>,
    visited: Seq<bool>,
    stack: Seq<NodeId>,
    rank: Map<int, nat>,
    v: int,
) -> bool {
    &&& rank.dom().contains(v)
    &&& forall|j: int|
        0 <= j < g.deps(v).len() ==> {
            let d = (#[trigger] g.deps(v)[j]).0 as int;
            visited[d] && !on_stack(stack, d) && rank.dom().contains(d) && rank[d] < rank[v]
        }
}

/// The traversal's invariant. Visited nodes off the stack are finished:
/// they carry a rank below the counter and their dependencies are
/// finished with smaller ranks. The stack is a walk of visited nodes,
/// and the rank's domain is exactly the finished set.
pub open spec fn dfs_inv<P, I>(
    g: RenderGraph<P, I>,
    visited: Seq<bool>,
    stack: Seq<NodeId>,
    rank: Map<int, nat>,
    counter: nat,
) -> bool {
    &&& visited.len() == g.node_count()
    &&& forall|i: int|
        0 <= i < stack.len() ==> ((#[trigger] stack[i]).0 as int) < g.node_count() && visited[(
        stack[i]).0 as int]
    &&& stack_path(g, stack)
    &&& forall|v: int|
        0 <= v < g.node_count() && visited[v] && !on_stack(stack, v)
            ==> #[trigger] node_finished(g, visited, stack, rank, v)
    &&& forall|v: int| #[trigger]
        rank.dom().contains(v) ==> 0 <= v < g.node_count() && visited[v] && !on_stack(stack, v)
            && rank[v] < counter
}

/// Ranks strictly decrease along a walk, so a walk of `k` edges drops
/// the rank by at least `k`.
proof fn lemma_path_rank<P, I>(g: RenderGraph<P, I>, rank: Map<int, nat>, p: Seq<int>)
    requires
        g.rank_ok(rank),
        g.is_path(p),
    ensures
        rank[p.last()] + p.len() <= rank[p[0]] + 1,
    decreases p.len(),
{
    if p.len() > 1 {
        lemma_path_rank(g, rank, p.drop_first());
        assert(g.edge(p[0], p[1]));
        let a = p[0];
        let b = p[1];
        let j = choose|j: int| 0 <= j < g.deps(a).len() && (#[trigger] g.deps(a)[j]).0 == b;
        assert(rank[(g.deps(a)[j]).0 as int] < rank[a]);
        assert(p.drop_first()[0] == p[1]);
        assert(p.drop_first().last() == p.last());
    }
}

/// A graph with a cycle admits no rank: the two halves of verification's
/// cycle answer cannot both hold.
pub proof fn lemma_cycle_not_acyclic<P, I>(g: RenderGraph<P, I>)
    requires
        g.has_cycle(),
    ensures
        !g.acyclic(),
{
    let p = choose|p: Seq<int>| g.is_path(p) && p.len() >= 2 && p[0] == p.last();
    if g.acyclic() {
        let rank = choose|rank: Map<int, nat>| g.rank_ok(rank);
        lemma_path_rank(g, rank, p);
    }
}

/// Whether the edge list scan has already passed an edge onto `v`,
/// counting positions lexicographically up to node `a`, position `j`.
pub open spec fn hit_before<P, I>(g: RenderGraph<P, I>, v: int, a: int, j: int) -> bool {
    exists|x: int, y: int|
        0 <= x < g.node_count() && 0 <= y < g.deps(x).len() && (x < a || (x == a && y < j)) && (
        #[trigger] g.deps(x)[y]).0 as int == v
}

/// Two graphs of the same shape agree on every structural notion:
/// edges, dependence, names, slots, ranks, cycles.
pub proof fn lemma_shape_facts<P, I>(g1: RenderGraph<P, I>, g2: RenderGraph<P, I>)
    requires
        g1.same_shape(g2),
    ensures
        g1.node_count() == g2.node_count(),
        forall|a: int| #![trigger g1.deps(a)] #![trigger g2.deps(a)] g1.deps(a) == g2.deps(a),
        forall|a: int, b: int| #![trigger g1.edge(a, b)] #![trigger g2.edge(a, b)] g1.edge(a, b) == g2.edge(a, b),
        forall|v: int| #![trigger g1.depended_on(v)] #![trigger g2.depended_on(v)] g1.depended_on(v) == g2.depended_on(v),
        forall|v: int| #![trigger g1.has_deps(v)] #![trigger g2.has_deps(v)] g1.has_deps(v) == g2.has_deps(v),
        forall|s: Seq<char>| #![trigger g1.names_has(s)] #![trigger g2.names_has(s)] g1.names_has(s) == g2.names_has(s),
        forall|k: int, i: int| #![trigger g1.slot_at(k, i)] #![trigger g2.slot_at(k, i)] g1.slot_at(k, i) == g2.slot_at(k, i),
        forall|v: int| #![trigger g1.node_label(v)] #![trigger g2.node_label(v)] g1.node_label(v) == g2.node_label(v),
        forall|m: Map<int, nat>| #![trigger g1.rank_ok(m)] #![trigger g2.rank_ok(m)] g1.rank_ok(m) == g2.rank_ok(m),
        forall|p: Seq<int>| #![trigger g1.is_path(p)] #![trigger g2.is_path(p)] g1.is_path(p) == g2.is_path(p),
        forall|a: int, b: int|
            #![trigger g1.reaches(a, b)]
            #![trigger g2.reaches(a, b)]
            g1.reaches(a, b) == g2.reaches(a, b),
        g1.acyclic() == g2.acyclic(),
        g1.has_cycle() == g2.has_cycle(),
{
    assert(g1.edges@ == g2.edges@);
    assert forall|a: int| #[trigger] g1.deps(a) == g2.deps(a) by {
        assert(g1.edges@ == g2.edges@);
    }
    assert forall|a: int, b: int| #[trigger] g1.edge(a, b) == g2.edge(a, b) by {
        if g1.edge(a, b) {
            let j = choose|j: int| 0 <= j < g1.deps(a).len() && (#[trigger] g1.deps(a)[j]).0 == b;
            assert(g2.deps(a)[j].0 == b);
        }
        if g2.edge(a, b) {
            let j = choose|j: int| 0 <= j < g2.deps(a).len() && (#[trigger] g2.deps(a)[j]).0 == b;
            assert(g1.deps(a)[j].0 == b);
        }
    }
    assert forall|v: int| #[trigger] g1.depended_on(v) == g2.depended_on(v) by {
        if g1.depended_on(v) {
            let a = choose|a: int| 0 <= a < g1.node_count() && #[trigger] g1.edge(a, v);
            assert(g2.edge(a, v));
        }
        if g2.depended_on(v) {
            let a = choose|a: int| 0 <= a < g2.node_count() && #[trigger] g2.edge(a, v);
            assert(g1.edge(a, v));
        }
    }
    assert forall|s: Seq<char>| #[trigger] g1.names_has(s) == g2.names_has(s) by {
        assert(g1.pass_names@ == g2.pass_names@);
    }
    assert forall|m: Map<int, nat>| #[trigger] g1.rank_ok(m) == g2.rank_ok(m) by {
        if g1.rank_ok(m) {
            assert forall|a: int, j: int|
                0 <= a < g2.node_count() && 0 <= j < g2.deps(a).len() implies m[(
            #[trigger] g2.deps(a)[j]).0 as int] < m[a] by {
                assert(g1.deps(a)[j] == g2.deps(a)[j]);
                assert(m[(g1.deps(a)[j]).0 as int] < m[a]);
            }
        }
        if g2.rank_ok(m) {
            assert forall|a: int, j: int|
                0 <= a < g1.node_count() && 0 <= j < g1.deps(a).len() implies m[(
            #[trigger] g1.deps(a)[j]).0 as int] < m[a] by {
                assert(g1.deps(a)[j] == g2.deps(a)[j]);
                assert(m[(g2.deps(a)[j]).0 as int] < m[a]);
            }
        }
    }
    assert(g1.acyclic() == g2.acyclic()) by {
        if g1.acyclic() {
            let m = choose|m: Map<int, nat>| g1.rank_ok(m);
            assert(g2.rank_ok(m));
        }
        if g2.acyclic() {
            let m = choose|m: Map<int, nat>| g2.rank_ok(m);
            assert(g1.rank_ok(m));
        }
    }
    assert forall|p: Seq<int>| #[trigger] g1.is_path(p) == g2.is_path(p) by {
        if g1.is_path(p) {
            assert forall|i: int| 0 <= i < p.len() - 1 implies g2.edge(#[trigger] p[i], p[i + 1]) by {
                assert(g1.edge(p[i], p[i + 1]));
            }
        }
        if g2.is_path(p) {
            assert forall|i: int| 0 <= i < p.len() - 1 implies g1.edge(#[trigger] p[i], p[i + 1]) by {
                assert(g2.edge(p[i], p[i + 1]));
            }
        }
    }
    assert forall|a: int, b: int|
        #![trigger g1.reaches(a, b)]
        #![trigger g2.reaches(a, b)]
        g1.reaches(a, b) == g2.reaches(a, b) by {
        if g1.reaches(a, b) {
            let p = choose|p: Seq<int>| g1.is_path(p) && p[0] == a && p.last() == b;
            assert(g2.is_path(p));
        }
        if g2.reaches(a, b) {
            let p = choose|p: Seq<int>| g2.is_path(p) && p[0] == a && p.last() == b;
            assert(g1.is_path(p));
        }
    }
    assert(g1.has_cycle() == g2.has_cycle()) by {
        if g1.has_cycle() {
            let p = choose|p: Seq<int>| g1.is_path(p) && p.len() >= 2 && p[0] == p.last();
            assert(g2.is_path(p));
        }
        if g2.has_cycle() {
            let p = choose|p: Seq<int>| g2.is_path(p) && p.len() >= 2 && p[0] == p.last();
            assert(g1.is_path(p));
        }
    }
}

impl<P, I> RenderGraph<P, I> {
    /// One depth-first visit. Returns true only when a cycle is in the
    /// graph; returning false leaves `node` finished, the stack as it
    /// was, and the invariant intact.
    #[verifier::rlimit(50)]
    fn is_cyclic(
        &self,
        node: NodeId,
        visited: &mut Vec<bool>,
        stack: &mut Vec<NodeId>,
        rank: &mut Ghost<Map<int, nat>>,
        counter: &mut Ghost<nat>,
    ) -> (cyc: bool)
        requires
            self.wf(),
            dfs_inv(*self, old(visited)@, old(stack)@, old(rank)@, old(counter)@),
            (node.0 as int) < self.node_count(),
            !on_stack(old(stack)@, node.0 as int),
            old(stack)@.len() > 0 ==> self.edge(old(stack)@.last().0 as int, node.0 as int),
        ensures
            cyc ==> self.has_cycle(),
            !cyc ==> final(stack)@ == old(stack)@,
            !cyc ==> final(visited)@.len() == old(visited)@.len(),
            !cyc ==> forall|i: int|
                0 <= i < old(visited)@.len() ==> (old(visited)@[i] ==> #[trigger] final(visited)@[i]),
            !cyc ==> forall|v: int| #[trigger]
                old(rank)@.dom().contains(v) ==> final(rank)@.dom().contains(v) && final(rank)@[v]
                    == old(rank)@[v],
            !cyc ==> old(counter)@ <= final(counter)@,
            !cyc ==> dfs_inv(*self, final(visited)@, final(stack)@, final(rank)@, final(counter)@),
            !cyc ==> final(visited)@[node.0 as int],
        decreases count_false(old(visited)@),
    {
        let v = node.0 as usize;
        if visited[v] {
            return false;
        }
        visited[v] = true;
        stack.push(node);
        proof {
            let vis = visited@;
            let stk = stack@;
            assert forall|x: int|
                0 <= x < self.node_count() && vis[x] && !on_stack(stk, x) implies #[trigger] node_finished(
                *self,
                vis,
                stk,
                rank@,
                x,
            ) by {
                assert(!on_stack(old(stack)@, x)) by {
                    if on_stack(old(stack)@, x) {
                        let t = choose|t: int|
                            0 <= t < old(stack)@.len() && (#[trigger] old(stack)@[t]).0 as int == x;
                        assert(stk[t] == old(stack)@[t]);
                        assert(on_stack(stk, x));
                    }
                }
                assert(x != node.0 as int) by {
                    assert(stk.last().0 as int == node.0 as int);
                    assert(on_stack(stk, node.0 as int));
                }
                assert(old(visited)@[x]);
                assert(node_finished(*self, old(visited)@, old(stack)@, rank@, x));
                assert forall|j: int| 0 <= j < self.deps(x).len() implies {
                    let d = (#[trigger] self.deps(x)[j]).0 as int;
                    vis[d] && !on_stack(stk, d) && rank@.dom().contains(d) && rank@[d] < rank@[x]
                } by {
                    let d = (self.deps(x)[j]).0 as int;
                    assert(old(visited)@[d] && !on_stack(old(stack)@, d));
                    assert(d != node.0 as int);
                    assert forall|i: int| 0 <= i < stk.len() implies (#[trigger] stk[i]).0 as int
                        != d by {
                        if i < stk.len() - 1 {
                            assert(old(stack)@[i] == stk[i]);
                            assert(!on_stack(old(stack)@, d));
                        }
                    }
                }
            }
            assert forall|x: int| #[trigger] rank@.dom().contains(x) implies 0 <= x
                < self.node_count() && vis[x] && !on_stack(stk, x) && rank@[x] < counter@ by {
                assert(x != node.0 as int);
                assert forall|i: int| 0 <= i < stk.len() implies (#[trigger] stk[i]).0 as int
                    != x by {
                    if i < stk.len() - 1 {
                        assert(old(stack)@[i] == stk[i]);
                        assert(!on_stack(old(stack)@, x));
                    }
                }
            }
            assert(dfs_inv(*self, visited@, stack@, rank@, counter@));
        }
        let ghost entry_visited = visited@;
        let ghost pushed_stack = stack@;
        let dep_count = self.edges[v].len();
        for i in 0..dep_count
            invariant
                self.wf(),
                (node.0 as int) < self.node_count(),
                v == node.0 as usize,
                dep_count == self.deps(node.0 as int).len(),
                stack@ == pushed_stack,
                pushed_stack == old(stack)@.push(node),
                pushed_stack.len() >= 1,
                pushed_stack.last() == node,
                visited@.len() == entry_visited.len(),
                entry_visited.len() == old(visited)@.len(),
                forall|x: int|
                    0 <= x < entry_visited.len() ==> (entry_visited[x] ==> #[trigger] visited@[x]),
                forall|x: int|
                    0 <= x < old(visited)@.len() ==> (old(visited)@[x] ==> #[trigger] visited@[x]),
                entry_visited[node.0 as int],
                entry_visited == old(visited)@.update(node.0 as int, true),
                !old(visited)@[node.0 as int],
                forall|x: int| #[trigger]
                    old(rank)@.dom().contains(x) ==> rank@.dom().contains(x) && rank@[x] == old(
                        rank,
                    )@[x],
                old(counter)@ <= counter@,
                dfs_inv(*self, visited@, stack@, rank@, counter@),
                forall|j: int|
                    0 <= j < i ==> {
                        let d = (#[trigger] self.deps(node.0 as int)[j]).0 as int;
                        visited@[d] && !on_stack(stack@, d)
                    },
        {
            let c = self.edges[v][i];
            let mut found = false;
            let stack_len = stack.len();
            for k in 0..stack_len
                invariant
                    stack_len == stack@.len(),
                    found == exists|t: int| 0 <= t < k && (#[trigger] stack@[t]).0 == c.0,
            {
                if stack[k] == c {
                    found = true;
                }
            }
            if found {
                proof {
                    let t = choose|t: int| 0 <= t < stack@.len() && (#[trigger] stack@[t]).0 == c.0;
                    let m = stack@.len() as int;
                    let p = Seq::new((m - t) as nat, |x: int| stack@[t + x].0 as int).push(
                        c.0 as int,
                    );
                    assert(p[0] == c.0 as int);
                    assert(p.last() == c.0 as int);
                    assert(self.edge(node.0 as int, c.0 as int)) by {
                        assert(self.deps(node.0 as int)[i as int].0 == c.0);
                    }
                    assert forall|x: int| 0 <= x < p.len() - 1 implies self.edge(
                        #[trigger] p[x],
                        p[x + 1],
                    ) by {
                        if x < p.len() - 2 {
                            assert(p[x] == stack@[t + x].0 as int);
                            assert(p[x + 1] == stack@[t + x + 1].0 as int);
                            assert(stack_path(*self, stack@));
                            assert(self.edge(stack@[t + x].0 as int, stack@[t + x + 1].0 as int));
                        } else {
                            assert(p[x] == stack@[m - 1].0 as int);
                            assert(stack@[m - 1] == node);
                        }
                    }
                    assert(self.is_path(p));
                    assert(p.len() >= 2);
                    assert(self.has_cycle());
                }
                return true;
            }
            proof {
                assert(!on_stack(stack@, c.0 as int));
            }
            if !visited[c.0 as usize] {
                proof {
                    lemma_count_false_lt(old(visited)@, visited@, node.0 as int);
                }
                let ghost before_child = visited@;
                if self.is_cyclic(c, visited, stack, rank, counter) {
                    return true;
                }
                proof {
                    assert(visited@[c.0 as int]);
                }
            }
            proof {
                assert(visited@[c.0 as int]);
                assert forall|j: int| 0 <= j < i + 1 implies {
                    let d = (#[trigger] self.deps(node.0 as int)[j]).0 as int;
                    visited@[d] && !on_stack(stack@, d)
                } by {
                    let d = (self.deps(node.0 as int)[j]).0 as int;
                    if j < i {
                        assert(visited@[d]);
                        assert(!on_stack(stack@, d));
                    } else {
                        assert(d == c.0 as int);
                        if on_stack(stack@, d) {
                            assert(node_finished(*self, visited@, stack@, rank@, d));
                        }
                    }
                }
            }
        }
        let ghost r_pre = rank@;
        let ghost c0 = counter@;
        let _popped = stack.pop();
        let ghost new_rank = r_pre.insert(node.0 as int, c0);
        *rank = Ghost(new_rank);
        *counter = Ghost(c0 + 1);
        proof {
            assert(stack@ =~= old(stack)@);
            let vis = visited@;
            let stk = stack@;
            assert(!r_pre.dom().contains(node.0 as int)) by {
                assert(on_stack(pushed_stack, node.0 as int)) by {
                    assert(pushed_stack.last().0 as int == node.0 as int);
                }
            }
            // A node off the popped stack but on the pushed stack can only
            // be the popped node itself.
            assert forall|x: int| on_stack(stk, x) implies on_stack(pushed_stack, x) by {
                let t = choose|t: int| 0 <= t < stk.len() && (#[trigger] stk[t]).0 as int == x;
                assert(pushed_stack[t] == stk[t]);
            }
            assert forall|x: int|
                x != node.0 as int && on_stack(pushed_stack, x) implies on_stack(stk, x) by {
                let t = choose|t: int|
                    0 <= t < pushed_stack.len() && (#[trigger] pushed_stack[t]).0 as int == x;
                assert(t < pushed_stack.len() - 1);
                assert(stk[t] == pushed_stack[t]);
            }
            assert forall|x: int|
                0 <= x < self.node_count() && vis[x] && !on_stack(stk, x) implies #[trigger] node_finished(
                *self,
                vis,
                stk,
                new_rank,
                x,
            ) by {
                if x == node.0 as int {
                    assert forall|j: int| 0 <= j < self.deps(x).len() implies {
                        let d = (#[trigger] self.deps(x)[j]).0 as int;
                        vis[d] && !on_stack(stk, d) && new_rank.dom().contains(d) && new_rank[d]
                            < new_rank[x]
                    } by {
                        let d = (self.deps(x)[j]).0 as int;
                        assert(vis[d] && !on_stack(pushed_stack, d));
                        assert(node_finished(*self, vis, pushed_stack, r_pre, d));
                        assert(r_pre[d] < c0);
                        assert(d != node.0 as int);
                    }
                } else {
                    assert(!on_stack(pushed_stack, x));
                    assert(node_finished(*self, vis, pushed_stack, r_pre, x));
                    assert forall|j: int| 0 <= j < self.deps(x).len() implies {
                        let d = (#[trigger] self.deps(x)[j]).0 as int;
                        vis[d] && !on_stack(stk, d) && new_rank.dom().contains(d) && new_rank[d]
                            < new_rank[x]
                    } by {
                        let d = (self.deps(x)[j]).0 as int;
                        assert(vis[d] && !on_stack(pushed_stack, d));
                        assert(d != node.0 as int);
                    }
                }
            }
            assert forall|x: int| #[trigger] new_rank.dom().contains(x) implies 0 <= x
                < self.node_count() && vis[x] && !on_stack(stk, x) && new_rank[x] < c0 + 1 by {
                if x != node.0 as int {
                    assert(r_pre.dom().contains(x));
                    assert(!on_stack(pushed_stack, x));
                }
            }
            assert(dfs_inv(*self, visited@, stack@, new_rank, c0 + 1));
        }
        false
    }

    /// Runs the depth-first traversal from every node. True means a
    /// cycle is in the graph; false leaves `rank` holding a witness of
    /// acyclicity.
    fn check_cycles(&mut self) -> (cyc: bool)
        requires
            old(self).wf(),
        ensures
            *final(self) == (RenderGraph { rank: final(self).rank, ..*old(self) }),
            final(self).wf(),
            cyc ==> final(self).has_cycle(),
            !cyc ==> final(self).rank_ok(final(self).rank@),
    {
        let n = self.edges.len();
        let mut visited: Vec<bool> = Vec::new();
        for k in 0..n
            invariant
                visited@.len() == k,
                forall|x: int| 0 <= x < k ==> !(#[trigger] visited@[x]),
        {
            visited.push(false);
        }
        let mut stack: Vec<NodeId> = Vec::new();
        let mut rank: Ghost<Map<int, nat>> = Ghost(Map::empty());
        let mut counter: Ghost<nat> = Ghost(0);
        proof {
            assert(dfs_inv(*self, visited@, stack@, rank@, counter@));
        }
        for i in 0..n
            invariant
                *self == *old(self),
                self.wf(),
                n == self.node_count(),
                stack@ == Seq::<NodeId>::empty(),
                visited@.len() == n,
                dfs_inv(*self, visited@, stack@, rank@, counter@),
                forall|v: int| 0 <= v < i ==> #[trigger] visited@[v],
        {
            let node = NodeId(i as u32);
            if self.is_cyclic(node, &mut visited, &mut stack, &mut rank, &mut counter) {
                return true;
            }
        }
        proof {
            let m = rank@;
            assert forall|v: int| 0 <= v < self.node_count() implies m.dom().contains(v) by {
                assert(visited@[v]);
                assert(node_finished(*self, visited@, stack@, m, v));
            }
            assert forall|a: int, j: int|
                0 <= a < self.node_count() && 0 <= j < self.deps(a).len() implies m[(
            #[trigger] self.deps(a)[j]).0 as int] < m[a] by {
                assert(visited@[a]);
                assert(node_finished(*self, visited@, stack@, m, a));
            }
            assert(self.rank_ok(m));
        }
        self.rank = Ghost(rank@);
        proof {
            lemma_shape_facts(*old(self), *self);
            assert forall|a: int, j: int|
                0 <= a < self.node_count() && 0 <= j < self.deps(a).len() implies (
            #[trigger] self.deps(a)[j]).0 < self.node_count() by {
                assert(self.edges@ == old(self).edges@);
                assert(self.deps(a) == old(self).deps(a));
                assert(old(self).deps(a)[j].0 < old(self).node_count());
            }
        }
        false
    }

    /// Finds the single root — the one node nobody depends on — and
    /// rejects graphs with several roots or with a disconnected node.
    fn find_root(&mut self) -> (r: Result<(), RenderGraphVerifyError>)
        requires
            old(self).wf(),
        ensures
            final(self).wf(),
            *final(self) == (RenderGraph { root: final(self).root, ..*old(self) }),
            match r {
                Ok(u) => {
                    &&& forall|v: int|
                        0 <= v < final(self).node_count() && !final(self).depended_on(v) ==> v
                            == final(self).root.0 as int
                    &&& forall|v: int|
                        0 <= v < final(self).node_count() ==> final(self).depended_on(v)
                            || #[trigger] final(self).has_deps(v)
                },
                Err(e) => match e@ {
                    crate::render_graph::RenderGraphVerifyErrorView::MultipleRoots => exists|
                        v1: int,
                        v2: int,
                    |
                        1 <= v1 < final(self).node_count() && 0 <= v2 < final(self).node_count()
                            && v1 != v2 && !(#[trigger] final(self).depended_on(v1)) && !(
                        #[trigger] final(self).depended_on(v2)) && final(self).has_deps(v1) && (
                        forall|w: int| 1 <= w < v1 ==> #[trigger] final(self).depended_on(w)),
                    crate::render_graph::RenderGraphVerifyErrorView::IsolatedNode(nm) => exists|
                        v: int,
                    |
                        0 <= v < final(self).node_count() && !(#[trigger] final(self).depended_on(
                            v,
                        )) && !final(self).has_deps(v) && nm == final(self).node_label(v) && (
                        forall|w: int| 1 <= w < v ==> #[trigger] final(self).depended_on(w)) && (v
                            == 0 ==> forall|w: int|
                            1 <= w < final(self).node_count()
                                ==> #[trigger] final(self).depended_on(w)),
                    _ => false,
                },
            },
    {
        let n = self.edges.len();
        let mut to_nodes: Vec<bool> = Vec::new();
        for k in 0..n
            invariant
                to_nodes@.len() == k,
                forall|x: int| 0 <= x < k ==> !(#[trigger] to_nodes@[x]),
        {
            to_nodes.push(false);
        }
        proof {
            assert forall|v: int| 0 <= v < n implies to_nodes@[v] == hit_before(*self, v, 0, 0) by {
                if hit_before(*self, v, 0, 0) {
                    let (x, y): (int, int) = choose|x: int, y: int|
                        0 <= x < self.node_count() && 0 <= y < self.deps(x).len() && (x < 0 || (x
                            == 0 && y < 0)) && (#[trigger] self.deps(x)[y]).0 as int == v;
                    assert(false);
                }
            }
        }
        let node_total = n;
        for a in 0..node_total
            invariant
                *self == *old(self),
                self.wf(),
                node_total == self.node_count(),
                to_nodes@.len() == node_total,
                forall|v: int|
                    0 <= v < node_total ==> #[trigger] to_nodes@[v] == hit_before(
                        *self,
                        v,
                        a as int,
                        0,
                    ),
        {
            let m = self.edges[a].len();
            for j in 0..m
                invariant
                    *self == *old(self),
                    self.wf(),
                    node_total == self.node_count(),
                    a < node_total,
                    m == self.deps(a as int).len(),
                    to_nodes@.len() == node_total,
                    forall|v: int|
                        0 <= v < node_total ==> #[trigger] to_nodes@[v] == hit_before(
                            *self,
                            v,
                            a as int,
                            j as int,
                        ),
            {
                let t = self.edges[a][j].0 as usize;
                proof {
                    assert(self.deps(a as int)[j as int].0 < self.node_count());
                }
                let ghost pre = to_nodes@;
                to_nodes[t] = true;
                proof {
                    assert forall|v: int| 0 <= v < node_total implies #[trigger] to_nodes@[v]
                        == hit_before(*self, v, a as int, j + 1) by {
                        if v == t as int {
                            assert(self.deps(a as int)[j as int].0 as int == v);
                            assert(hit_before(*self, v, a as int, j + 1));
                        } else {
                            assert(to_nodes@[v] == pre[v]);
                            if hit_before(*self, v, a as int, j + 1) {
                                let (x, y): (int, int) = choose|x: int, y: int|
                                    0 <= x < self.node_count() && 0 <= y < self.deps(x).len() && (x
                                        < a as int || (x == a as int && y < j + 1)) && (
                                    #[trigger] self.deps(x)[y]).0 as int == v;
                                assert(!(x == a as int && y == j as int));
                                assert(hit_before(*self, v, a as int, j as int));
                            }
                            if hit_before(*self, v, a as int, j as int) {
                                let (x, y): (int, int) = choose|x: int, y: int|
                                    0 <= x < self.node_count() && 0 <= y < self.deps(x).len() && (x
                                        < a as int || (x == a as int && y < j as int)) && (
                                    #[trigger] self.deps(x)[y]).0 as int == v;
                                assert(hit_before(*self, v, a as int, j + 1));
                            }
                        }
                    }
                }
            }
            proof {
                assert forall|v: int| 0 <= v < node_total implies #[trigger] to_nodes@[v]
                    == hit_before(*self, v, a + 1, 0) by {
                    if hit_before(*self, v, a as int, m as int) {
                        let (x, y): (int, int) = choose|x: int, y: int|
                            0 <= x < self.node_count() && 0 <= y < self.deps(x).len() && (x
                                < a as int || (x == a as int && y < m as int)) && (
                            #[trigger] self.deps(x)[y]).0 as int == v;
                        assert(hit_before(*self, v, a + 1, 0));
                    }
                    if hit_before(*self, v, a + 1, 0) {
                        let (x, y): (int, int) = choose|x: int, y: int|
                            0 <= x < self.node_count() && 0 <= y < self.deps(x).len() && (x < a + 1
                                || (x == a + 1 && y < 0)) && (#[trigger] self.deps(x)[y]).0 as int
                                == v;
                        if x == a as int {
                            assert(y < m as int);
                        }
                        assert(hit_before(*self, v, a as int, m as int));
                    }
                }
            }
        }
        proof {
            assert forall|v: int| 0 <= v < node_total implies #[trigger] to_nodes@[v]
                == self.depended_on(v) by {
                if to_nodes@[v] {
                    let (x, y): (int, int) = choose|x: int, y: int|
                        0 <= x < self.node_count() && 0 <= y < self.deps(x).len() && (x
                            < node_total as int || (x == node_total as int && y < 0)) && (
                        #[trigger] self.deps(x)[y]).0 as int == v;
                    assert(self.edge(x, v));
                }
                if self.depended_on(v) {
                    let x = choose|x: int| 0 <= x < self.node_count() && #[trigger] self.edge(x, v);
                    let y = choose|y: int|
                        0 <= y < self.deps(x).len() && (#[trigger] self.deps(x)[y]).0 as int == v;
                    assert(hit_before(*self, v, node_total as int, 0));
                }
            }
        }
        let mut found_root = false;
        let ghost mut first_root: int = 0;
        for v in 1..node_total
            invariant
                self.wf(),
                *self == (RenderGraph { root: self.root, ..*old(self) }),
                node_total == self.node_count(),
                to_nodes@.len() == node_total,
                forall|w: int|
                    0 <= w < node_total ==> #[trigger] to_nodes@[w] == self.depended_on(w),
                found_root ==> 1 <= first_root < v && !self.depended_on(first_root)
                    && self.root.0 as int == first_root,
                !found_root ==> forall|w: int| 1 <= w < v ==> #[trigger] self.depended_on(w),
                found_root ==> forall|w: int|
                    1 <= w < v && w != first_root ==> #[trigger] self.depended_on(w),
                forall|w: int|
                    1 <= w < v ==> self.depended_on(w) || #[trigger] self.has_deps(w),
        {
            let ghost pre = *self;
            if !to_nodes[v] {
                if found_root {
                    return Err(RenderGraphVerifyError::MultipleRoots);
                }
                self.root = NodeId(v as u32);
                found_root = true;
                proof {
                    first_root = v as int;
                    lemma_shape_facts(pre, *self);
                    assert forall|a: int, j: int|
                0 <= a < self.node_count() && 0 <= j < self.deps(a).len() implies (
            #[trigger] self.deps(a)[j]).0 < self.node_count() by {
                assert(self.edges@ == pre.edges@);
                assert(self.deps(a) == pre.deps(a));
                assert(pre.deps(a)[j].0 < pre.node_count());
            }
                }
            }
            if !to_nodes[v] && self.edges[v].len() == 0 {
                return Err(
                    RenderGraphVerifyError::IsolatedNode(self.pass_names[v - 1].clone()),
                );
            }
        }
        let ghost pre = *self;
        if !to_nodes[0] {
            if found_root {
                return Err(RenderGraphVerifyError::MultipleRoots);
            }
            self.root = NodeId(0);
            found_root = true;
            proof {
                first_root = 0;
                lemma_shape_facts(pre, *self);
            assert forall|a: int, j: int|
                0 <= a < self.node_count() && 0 <= j < self.deps(a).len() implies (
            #[trigger] self.deps(a)[j]).0 < self.node_count() by {
                assert(self.edges@ == pre.edges@);
                assert(self.deps(a) == pre.deps(a));
                assert(pre.deps(a)[j].0 < pre.node_count());
            }
            }
            let src_deps = self.edges[0].len();
            if src_deps == 0 {
                return Err(RenderGraphVerifyError::IsolatedNode("main".to_owned()));
            }
        }
        proof {
            assert forall|v: int|
                0 <= v < self.node_count() && !self.depended_on(v) implies v
                == self.root.0 as int by {
                if v == 0 {
                    assert(to_nodes@[0] == self.depended_on(0));
                    assert(false);
                } else {
                    assert(found_root && v == first_root);
                }
            }
            assert forall|v: int| 0 <= v < self.node_count() implies self.depended_on(v)
                || #[trigger] self.has_deps(v) by {
                if v == 0 {
                    assert(self.depended_on(0));
                }
            }
        }
        Ok(())
    }

    /// Checks each pass's dependency contract: edge count equals slot
    /// count, each named slot names a pass present in the graph, and
    /// each edge target satisfies its slot.
    #[verifier::rlimit(100)]
    #[verifier::spinoff_prover]
    fn check_slots(&self) -> (r: Result<(), RenderGraphVerifyError>)
        requires
            self.wf(),
        ensures
            r is Ok ==> forall|k: int|
                0 <= k < self.slots@.len() ==> self.deps(k + 1).len() == (
                #[trigger] self.slots@[k])@.len(),
            r is Ok ==> forall|k: int, i: int|
                0 <= k < self.slots@.len() && 0 <= i < self.slots@[k]@.len()
                    && #[trigger] self.slot_at(k, i) != crate::render_graph::any_image_slot()
                    ==> self.names_has(self.slot_at(k, i)),
            r is Ok ==> forall|k: int, i: int|
                0 <= k < self.slots@.len() && 0 <= i < self.slots@[k]@.len()
                    && #[trigger] self.slot_at(k, i) != crate::render_graph::any_image_slot() && i
                    < self.deps(k + 1).len() ==> {
                    let t = self.deps(k + 1)[i].0 as int;
                    if t == 0 {
                        self.slot_at(k, i) == main_image_slot()
                    } else {
                        self.pass_names@[t - 1]@ == self.slot_at(k, i)
                    }
                },
            forall|e: RenderGraphVerifyError|
                r == Result::<(), RenderGraphVerifyError>::Err(e) ==> ((#[trigger] e@)
                    is BadDependencyCount || e@ is MissingDependency || e@
                    is MismatchedDependency),
            forall|e: RenderGraphVerifyError|
                r == Result::<(), RenderGraphVerifyError>::Err(e) ==> ((#[trigger] e@) matches
                    crate::render_graph::RenderGraphVerifyErrorView::BadDependencyCount(
                    ec,
                    sc,
                    nm,
                ) ==> exists|k: int|
                    0 <= k < self.slots@.len() && self.deps(k + 1).len() == ec && (
                    #[trigger] self.slots@[k])@.len() == sc && ec != sc && nm
                        == self.pass_names@[k]@),
            forall|e: RenderGraphVerifyError|
                r == Result::<(), RenderGraphVerifyError>::Err(e) ==> ((#[trigger] e@) matches
                    crate::render_graph::RenderGraphVerifyErrorView::MissingDependency(
                    dep,
                    nm,
                ) ==> exists|k: int, i: int|
                    0 <= k < self.slots@.len() && 0 <= i < self.slots@[k]@.len()
                        && #[trigger] self.slot_at(k, i) == dep && dep
                        != crate::render_graph::any_image_slot() && !self.names_has(dep) && nm
                        == self.pass_names@[k]@),
            forall|e: RenderGraphVerifyError|
                r == Result::<(), RenderGraphVerifyError>::Err(e) ==> ((#[trigger] e@) matches
                    crate::render_graph::RenderGraphVerifyErrorView::MismatchedDependency(
                    nm,
                    expected,
                    actual,
                    idx,
                ) ==> self.some_mismatch(nm, expected, actual, idx)),
    {
        let star: String = "*".to_owned();
        let main_lit: String = "main".to_owned();
        let kcount = self.slots.len();
        for k in 0..kcount
            invariant
                self.wf(),
                kcount == self.slots@.len(),
                star@ == crate::render_graph::any_image_slot(),
                main_lit@ == main_image_slot(),
                forall|k2: int|
                    0 <= k2 < k ==> self.deps(k2 + 1).len() == (#[trigger] self.slots@[k2])@.len(),
                forall|k2: int, i: int|
                    0 <= k2 < k && 0 <= i < self.slots@[k2]@.len() && #[trigger] self.slot_at(k2, i)
                        != crate::render_graph::any_image_slot() ==> self.names_has(
                        self.slot_at(k2, i),
                    ),
                forall|k2: int, i: int|
                    0 <= k2 < k && 0 <= i < self.slots@[k2]@.len() && #[trigger] self.slot_at(k2, i)
                        != crate::render_graph::any_image_slot() && i < self.deps(k2 + 1).len()
                        ==> {
                        let t = self.deps(k2 + 1)[i].0 as int;
                        if t == 0 {
                            self.slot_at(k2, i) == main_image_slot()
                        } else {
                            self.pass_names@[t - 1]@ == self.slot_at(k2, i)
                        }
                    },
        {
            let v = k + 1;
            let ec = self.edges[v].len();
            let sc = self.slots[k].len();
            if ec != sc {
                return Err(
                    RenderGraphVerifyError::BadDependencyCount(
                        ec,
                        sc,
                        self.pass_names[k].clone(),
                    ),
                );
            }
            for i in 0..sc
                invariant
                    self.wf(),
                    kcount == self.slots@.len(),
                    k < kcount,
                    v == k + 1,
                    star@ == crate::render_graph::any_image_slot(),
                    main_lit@ == main_image_slot(),
                    sc == self.slots@[k as int]@.len(),
                    ec == sc,
                    ec == self.deps(k + 1).len(),
                    forall|k2: int|
                        0 <= k2 < k ==> self.deps(k2 + 1).len() == (
                        #[trigger] self.slots@[k2])@.len(),
                    forall|k2: int, i2: int|
                        0 <= k2 < k && 0 <= i2 < self.slots@[k2]@.len() && #[trigger] self.slot_at(
                            k2,
                            i2,
                        ) != crate::render_graph::any_image_slot() ==> self.names_has(
                            self.slot_at(k2, i2),
                        ),
                    forall|k2: int, i2: int|
                        0 <= k2 < k && 0 <= i2 < self.slots@[k2]@.len() && #[trigger] self.slot_at(
                            k2,
                            i2,
                        ) != crate::render_graph::any_image_slot() && i2 < self.deps(
                            k2 + 1,
                        ).len() ==> {
                            let t = self.deps(k2 + 1)[i2].0 as int;
                            if t == 0 {
                                self.slot_at(k2, i2) == main_image_slot()
                            } else {
                                self.pass_names@[t - 1]@ == self.slot_at(k2, i2)
                            }
                        },
                    forall|i2: int|
                        0 <= i2 < i && #[trigger] self.slot_at(k as int, i2)
                            != crate::render_graph::any_image_slot() ==> self.names_has(
                            self.slot_at(k as int, i2),
                        ),
                    forall|i2: int|
                        0 <= i2 < i && #[trigger] self.slot_at(k as int, i2)
                            != crate::render_graph::any_image_slot() ==> {
                            let t = self.deps(k + 1)[i2].0 as int;
                            if t == 0 {
                                self.slot_at(k as int, i2) == main_image_slot()
                            } else {
                                self.pass_names@[t - 1]@ == self.slot_at(k as int, i2)
                            }
                        },
            {
                let slot = &self.slots[k][i];
                if !(*slot == star) {
                    let mut known = *slot == main_lit;
                    let pcount = self.pass_names.len();
                    for q in 0..pcount
                        invariant
                            self.wf(),
                            k < kcount,
                            kcount == self.slots@.len(),
                            i < self.slots@[k as int]@.len(),
                            pcount == self.pass_names@.len(),
                            slot@ == self.slot_at(k as int, i as int),
                            known == (slot@ == main_image_slot() || exists|t: int|
                                0 <= t < q && (#[trigger] self.pass_names@[t])@ == slot@),
                    {
                        if self.pass_names[q] == *slot {
                            known = true;
                        }
                    }
                    if !known {
                        proof {
                            assert(!self.names_has(slot@));
                            assert(self.slot_at(k as int, i as int) == slot@);
                        }
                        return Err(
                            RenderGraphVerifyError::MissingDependency(
                                slot.clone(),
                                self.pass_names[k].clone(),
                            ),
                        );
                    }
                    let t = self.edges[v][i];
                    proof {
                        assert(self.slot_at(k as int, i as int) == slot@);
                        assert(t == self.deps(k + 1)[i as int]);
                    }
                    if t.0 == 0 {
                        if !(*slot == main_lit) {
                            proof {
                                let kk = k as int;
                                let ii = i as int;
                                assert(self.mismatch_at(
                                    self.pass_names@[kk]@,
                                    slot@,
                                    main_image_slot(),
                                    ii,
                                    kk,
                                ));
                                assert(self.some_mismatch(
                                    self.pass_names@[kk]@,
                                    slot@,
                                    main_image_slot(),
                                    ii,
                                ));
                            }
                            return Err(
                                RenderGraphVerifyError::MismatchedDependency(
                                    self.pass_names[k].clone(),
                                    slot.clone(),
                                    main_lit.clone(),
                                    i,
                                ),
                            );
                        }
                    } else {
                        let actual = &self.pass_names[t.0 as usize - 1];
                        if !(*actual == *slot) {
                            proof {
                                let kk = k as int;
                                let ii = i as int;
                                assert(self.mismatch_at(self.pass_names@[kk]@, slot@, actual@, ii, kk));
                                assert(self.some_mismatch(self.pass_names@[kk]@, slot@, actual@, ii));
                            }
                            return Err(
                                RenderGraphVerifyError::MismatchedDependency(
                                    self.pass_names[k].clone(),
                                    slot.clone(),
                                    actual.clone(),
                                    i,
                                ),
                            );
                        }
                    }
                }
            }
        }
        Ok(())
    }
}

impl<P, I: Image> RenderGraph<P, I> {
    /// Gives every pass node that still lacks one a fresh buffer shaped
    /// like the input image.
    fn allocate_images(&mut self)
        requires
            old(self).wf(),
            (old(self).images@[0] is Some),
        ensures
            final(self).wf(),
            *final(self) == (RenderGraph { images: final(self).images, ..*old(self) }),
            final(self).images@.len() == old(self).images@.len(),
            final(self).images@[0] == old(self).images@[0],
            forall|v: int|
                0 <= v < final(self).node_count() ==> (#[trigger] final(self).images@[v]) is Some,
    {
        let n = self.edges.len();
        for v in 1..n
            invariant
                self.wf(),
                *self == (RenderGraph { images: self.images, ..*old(self) }),
                n == self.node_count(),
                self.images@.len() == n,
                self.images@[0] == old(self).images@[0],
                (self.images@[0] is Some),
                forall|w: int| 1 <= w < v ==> (#[trigger] self.images@[w]) is Some,
        {
            let ghost g_pre = *self;
            let missing = self.images[v].is_none();
            if missing {
                let blank = match &self.images[0] {
                    Some(img) => img.blank_like(),
                    None => vstd::pervasive::unreached(),
                };
                let ghost pre = self.images@;
                let _removed = self.images.remove(v);
                self.images.insert(v, Some(blank));
                proof {
                    assert(self.images@ =~= pre.update(v as int, self.images@[v as int]));
            assert forall|a: int, j: int|
                0 <= a < self.node_count() && 0 <= j < self.deps(a).len() implies (
            #[trigger] self.deps(a)[j]).0 < self.node_count() by {
                assert(self.edges@ == g_pre.edges@);
                assert(self.deps(a) == g_pre.deps(a));
                assert(g_pre.deps(a)[j].0 < g_pre.node_count());
            }
                }
            }
        }
    }

    /// Verifies the graph: cycle detection first, then the root and
    /// isolation checks, then each pass's dependency contract; finally
    /// allocates the pass buffers. Any failure is fatal and leaves the
    /// buffers untouched; success leaves a graph that `render` accepts.
    pub fn verify(&mut self) -> (r: Result<(), RenderGraphVerifyError>) where P: Pass<I>
        requires
            old(self).wf(),
            (old(self).images@[0] is Some),
        ensures
            final(self).wf(),
            final(self).same_shape(*old(self)),
            match r {
                Ok(u) => {
                    &&& final(self).checks_ok()
                    &&& final(self).rank_ok(final(self).rank@)
                    &&& forall|v: int|
                        0 <= v < final(self).node_count() ==> (
                        #[trigger] final(self).images@[v]) is Some
                    &&& final(self).images@[0] == old(self).images@[0]
                },
                Err(e) => final(self).images@ == old(self).images@ && ((e@) matches
                    crate::render_graph::RenderGraphVerifyErrorView::CyclicGraph || final(self).acyclic()) && match e@ {
                    crate::render_graph::RenderGraphVerifyErrorView::CyclicGraph => final(self).has_cycle() && !final(self).acyclic(),
                    crate::render_graph::RenderGraphVerifyErrorView::MultipleRoots => exists|
                        v1: int,
                        v2: int,
                    |
                        1 <= v1 < final(self).node_count() && 0 <= v2 < final(self).node_count()
                            && v1 != v2 && !(#[trigger] final(self).depended_on(v1)) && !(
                        #[trigger] final(self).depended_on(v2)) && final(self).has_deps(v1) && (
                        forall|w: int| 1 <= w < v1 ==> #[trigger] final(self).depended_on(w)),
                    crate::render_graph::RenderGraphVerifyErrorView::IsolatedNode(nm) => exists|
                        v: int,
                    |
                        0 <= v < final(self).node_count() && !(#[trigger] final(self).depended_on(
                            v,
                        )) && !final(self).has_deps(v) && nm == final(self).node_label(v) && (
                        forall|w: int| 1 <= w < v ==> #[trigger] final(self).depended_on(w)) && (v
                            == 0 ==> forall|w: int|
                            1 <= w < final(self).node_count()
                                ==> #[trigger] final(self).depended_on(w)),
                    crate::render_graph::RenderGraphVerifyErrorView::BadDependencyCount(
                        ec,
                        sc,
                        nm,
                    ) => final(self).roots_ok() && exists|k: int|
                        0 <= k < final(self).slots@.len() && final(self).deps(k + 1).len() == ec
                            && (#[trigger] final(self).slots@[k])@.len() == sc && ec != sc && nm
                            == final(self).pass_names@[k]@,
                    crate::render_graph::RenderGraphVerifyErrorView::MissingDependency(
                        dep,
                        nm,
                    ) => final(self).roots_ok() && exists|k: int, i: int|
                        0 <= k < final(self).slots@.len() && 0 <= i < final(self).slots@[k]@.len()
                            && #[trigger] final(self).slot_at(k, i) == dep && dep
                            != crate::render_graph::any_image_slot() && !final(self).names_has(dep)
                            && nm == final(self).pass_names@[k]@,
                    crate::render_graph::RenderGraphVerifyErrorView::MismatchedDependency(
                        nm,
                        expected,
                        actual,
                        idx,
                    ) => final(self).roots_ok() && final(self).some_mismatch(
                        nm,
                        expected,
                        actual,
                        idx,
                    ),
                },
            },
    {
        let ghost g0 = *self;
        if self.check_cycles() {
            proof {
                crate::render_graph::verify::lemma_cycle_not_acyclic(*self);
            }
            return Err(RenderGraphVerifyError::CyclicGraph);
        }
        let ghost g1 = *self;
        match self.find_root() {
            Err(e) => {
                proof {
                    lemma_shape_facts(g1, *self);
                    assert(self.rank_ok(self.rank@));
                }
                return Err(e);
            },
            Ok(u) => {},
        }
        let ghost g2 = *self;
        proof {
            lemma_shape_facts(g1, g2);
            assert(self.rank_ok(self.rank@));
        }
        match self.check_slots() {
            Err(e) => {
                return Err(e);
            },
            Ok(u) => {},
        }
        let ghost g3 = *self;
        self.allocate_images();
        proof {
            lemma_shape_facts(g3, *self);
            assert(self.rank_ok(self.rank@));
            assert(self.acyclic());
        }
        Ok(())
    }
}

} // verus!
