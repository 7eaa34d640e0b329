//! The render graph: build, verify, execute.
//!
//! A graph is a set of pass nodes plus the reserved source node `0`,
//! which stands for the externally supplied input image and owns no
//! pass. Edges point from a node to its dependencies, in declared order.
//! The graph records each pass's type name and dependency slot
//! specifiers when the pass is added; verification works on that record,
//! and rendering walks the verified graph.

mod verify;

use vstd::prelude::*;

use crate::image::Image;
use crate::pass::Pass;

verus! {

/// The string representing the main image dependency.
pub open spec fn main_image_slot() -> Seq<char> {
    "main"@
}

/// The string representing a wildcard dependency: the pass accepts any
/// image in that slot.
pub open spec fn any_image_slot() -> Seq<char> {
    "*"@
}

/// The mathematical model of a `RenderGraphVerifyError`.
pub enum RenderGraphVerifyErrorView {
    CyclicGraph,
    MultipleRoots,
    IsolatedNode(Seq<char>),
    BadDependencyCount(int, int, Seq<char>),
    MissingDependency(Seq<char>, Seq<char>),
    MismatchedDependency(Seq<char>, Seq<char>, Seq<char>, int),
}

/// A defect found while verifying a graph; any one is fatal and the
/// graph is not rendered.
#[derive(Debug, Clone, PartialEq, Eq)]
pub enum RenderGraphVerifyError {
    /// The graph has a dependency cycle.
    CyclicGraph,
    /// More than one node is depended on by nobody.
    MultipleRoots,
    /// A node is depended on by nobody and depends on nothing; carries
    /// its label.
    IsolatedNode(String),
    /// A pass's actual edge count differs from its declared slot count;
    /// carries the edge count, the slot count, and the pass's type name.
    BadDependencyCount(usize, usize, String),
    /// A slot names a pass type present nowhere in the graph; carries
    /// the slot and the depending pass's type name.
    MissingDependency(String, String),
    /// An edge target does not satisfy its slot; carries the depending
    /// pass's type name, the slot, the target's label, and the slot
    /// position.
    MismatchedDependency(String, String, String, usize),
}

impl View for RenderGraphVerifyError {
    type V = RenderGraphVerifyErrorView;

    open spec fn view(&self) -> RenderGraphVerifyErrorView {
        match self {
            RenderGraphVerifyError::CyclicGraph => RenderGraphVerifyErrorView::CyclicGraph,
            RenderGraphVerifyError::MultipleRoots => RenderGraphVerifyErrorView::MultipleRoots,
            RenderGraphVerifyError::IsolatedNode(n) => RenderGraphVerifyErrorView::IsolatedNode(n@),
            RenderGraphVerifyError::BadDependencyCount(m, d, n) => RenderGraphVerifyErrorView::BadDependencyCount(
                *m as int,
                *d as int,
                n@,
            ),
            RenderGraphVerifyError::MissingDependency(d, n) => RenderGraphVerifyErrorView::MissingDependency(
                d@,
                n@,
            ),
            RenderGraphVerifyError::MismatchedDependency(n, e, a, i) => RenderGraphVerifyErrorView::MismatchedDependency(
                n@,
                e@,
                a@,
                *i as int,
            ),
        }
    }
}

/// A dense graph vertex identifier; `0` is reserved for the source
/// image.
#[derive(Clone, Copy, PartialEq, Eq, PartialOrd, Ord, Hash, Default, Debug, Structural)]
pub struct NodeId(pub u32);

impl NodeId {
    /// The identifier of the source node, which carries the input image.
    pub fn source() -> (r: NodeId)
        ensures
            r.0 == 0,
    {
        NodeId(0)
    }
}

/// A dependency graph of passes over one input image.
///
/// Nodes are dense: the source is `0` and the pass with position `k` in
/// `passes` is node `k + 1`. `edges[v]` lists `v`'s dependencies in
/// declared order; the source declares none. `pass_names[k]` and
/// `slots[k]` record what pass `k` reported as its type name and its
/// dependency slot specifiers when it was added.
pub struct RenderGraph<P, I> {
    /// Each node's dependencies, in declared order; index is the node id.
    pub edges: Vec<Vec<NodeId>>,
    /// The pass of node `k + 1`.
    pub passes: Vec<P>,
    /// The recorded type name of the pass of node `k + 1`.
    pub pass_names: Vec<String>,
    /// The recorded dependency slot specifiers of the pass of node `k + 1`.
    pub slots: Vec<Vec<String>>,
    /// Each node's image buffer; the source holds the input, pass nodes
    /// are allocated at verification.
    pub images: Vec<Option<I>>,
    /// The root found by verification: the one node nobody depends on.
    pub root: NodeId,
    /// A witness of acyclicity, established by verification: a rank per
    /// node, strictly decreasing along every edge.
    pub rank: Ghost<Map<int, nat>>,
}

impl<P, I> RenderGraph<P, I> {
    /// The number of nodes, the source included.
    pub open spec fn node_count(self) -> int {
        self.edges@.len() as int
    }

    /// The dependencies of node `a`, in declared order.
    pub open spec fn deps(self, a: int) -> Seq<NodeId> {
        self.edges@[a]@
    }

    /// Structural well-formedness: parallel vectors agree in length, the
    /// source declares no dependencies, and every edge target is a node.
    pub open spec fn wf(self) -> bool {
        &&& self.edges@.len() >= 1
        &&& self.edges@.len() <= u32::MAX as int
        &&& self.passes@.len() + 1 == self.edges@.len()
        &&& self.pass_names@.len() == self.passes@.len()
        &&& self.slots@.len() == self.passes@.len()
        &&& self.images@.len() == self.edges@.len()
        &&& self.deps(0).len() == 0
        &&& forall|a: int, j: int|
            0 <= a < self.node_count() && 0 <= j < self.deps(a).len() ==> (#[trigger] self.deps(
                a,
            )[j]).0 < self.node_count()
        &&& (self.root.0 as int) < self.node_count()
    }

    /// Whether the graph has an edge from `a` to `b`: `b` is one of
    /// `a`'s dependencies.
    pub open spec fn edge(self, a: int, b: int) -> bool {
        0 <= a < self.node_count() && exists|j: int|
            0 <= j < self.deps(a).len() && (#[trigger] self.deps(a)[j]).0 == b
    }

    /// Whether `rank` witnesses acyclicity: defined on every node and
    /// strictly decreasing along every edge.
    pub open spec fn rank_ok(self, rank: Map<int, nat>) -> bool {
        &&& forall|v: int| 0 <= v < self.node_count() ==> rank.dom().contains(v)
        &&& forall|a: int, j: int|
            0 <= a < self.node_count() && 0 <= j < self.deps(a).len() ==> rank[(#[trigger] self.deps(
                a,
            )[j]).0 as int] < rank[a]
    }

    /// The graph is acyclic: some rank decreases along every edge.
    pub open spec fn acyclic(self) -> bool {
        exists|rank: Map<int, nat>| self.rank_ok(rank)
    }

    /// Whether `p` is a walk along edges.
    pub open spec fn is_path(self, p: Seq<int>) -> bool {
        &&& p.len() >= 1
        &&& forall|i: int| 0 <= i < p.len() ==> 0 <= #[trigger] p[i] < self.node_count()
        &&& forall|i: int| 0 <= i < p.len() - 1 ==> self.edge(#[trigger] p[i], p[i + 1])
    }

    /// The graph has a cycle: a walk of at least one edge that returns
    /// to its start.
    pub open spec fn has_cycle(self) -> bool {
        exists|p: Seq<int>| self.is_path(p) && p.len() >= 2 && p[0] == p.last()
    }

    /// Whether `b` is reachable from `a` along dependency edges; every
    /// node reaches itself.
    pub open spec fn reaches(self, a: int, b: int) -> bool {
        exists|p: Seq<int>| self.is_path(p) && p[0] == a && p.last() == b
    }

    /// Whether some node depends on `v`.
    pub open spec fn depended_on(self, v: int) -> bool {
        exists|a: int| 0 <= a < self.node_count() && #[trigger] self.edge(a, v)
    }

    /// Whether node `v` has at least one dependency.
    pub open spec fn has_deps(self, v: int) -> bool {
        self.deps(v).len() > 0
    }

    /// The label verification reports for node `v`: the recorded pass
    /// type name, or the main image's name for the source.
    pub open spec fn node_label(self, v: int) -> Seq<char> {
        if v == 0 {
            main_image_slot()
        } else {
            self.pass_names@[v - 1]@
        }
    }

    /// Whether some pass in the graph has the recorded type name `s`, or
    /// `s` names the main image: the name set dependency slots resolve
    /// against.
    pub open spec fn names_has(self, s: Seq<char>) -> bool {
        s == main_image_slot() || exists|k: int|
            0 <= k < self.pass_names@.len() && (#[trigger] self.pass_names@[k])@ == s
    }

    /// The slot specifier at position `i` of the pass at position `k`.
    pub open spec fn slot_at(self, k: int, i: int) -> Seq<char> {
        self.slots@[k]@[i]@
    }

    /// The root and isolation checks hold: at most one node is depended
    /// on by nobody — `root` points at it — and no node is disconnected.
    pub open spec fn roots_ok(self) -> bool {
        &&& forall|v: int|
            0 <= v < self.node_count() && !self.depended_on(v) ==> v == self.root.0 as int
        &&& forall|v: int|
            0 <= v < self.node_count() ==> self.depended_on(v) || #[trigger] self.has_deps(v)
    }

    /// Every check verification performs, as one predicate: the graph is
    /// acyclic; at most one node is depended on by nobody, and `root`
    /// points at it; no node is disconnected; every pass's edge count
    /// equals its slot count; every named slot is the type name of some
    /// pass in the graph; and every edge target satisfies its slot, the
    /// wildcard accepting anything and the main-image slot binding only
    /// to the source.
    pub open spec fn checks_ok(self) -> bool {
        &&& self.acyclic()
        &&& self.roots_ok()
        &&& forall|k: int|
            0 <= k < self.slots@.len() ==> self.deps(k + 1).len() == (#[trigger] self.slots@[k])@.len()
        &&& forall|k: int, i: int|
            0 <= k < self.slots@.len() && 0 <= i < self.slots@[k]@.len() && #[trigger] self.slot_at(
                k,
                i,
            ) != any_image_slot() ==> self.names_has(self.slot_at(k, i))
        &&& forall|k: int, i: int|
            0 <= k < self.slots@.len() && 0 <= i < self.slots@[k]@.len() && #[trigger] self.slot_at(
                k,
                i,
            ) != any_image_slot() && i < self.deps(k + 1).len() ==> {
                let t = self.deps(k + 1)[i].0 as int;
                if t == 0 {
                    self.slot_at(k, i) == main_image_slot()
                } else {
                    self.pass_names@[t - 1]@ == self.slot_at(k, i)
                }
            }
    }

    /// Whether pass `k` exhibits exactly the mismatch that
    /// `MismatchedDependency(nm, expected, actual, idx)` reports: its
    /// slot `idx` demands `expected`, but the edge target at that
    /// position carries the label `actual`.
    pub open spec fn mismatch_at(
        self,
        nm: Seq<char>,
        expected: Seq<char>,
        actual: Seq<char>,
        idx: int,
        k: int,
    ) -> bool {
        &&& 0 <= k < self.slots@.len()
        &&& 0 <= idx < self.slots@[k]@.len()
        &&& idx < self.deps(k + 1).len()
        &&& self.slot_at(k, idx) == expected
        &&& expected != any_image_slot()
        &&& self.names_has(expected)
        &&& nm == self.pass_names@[k]@
        &&& {
            let t = self.deps(k + 1)[idx].0 as int;
            if t == 0 {
                expected != main_image_slot() && actual == main_image_slot()
            } else {
                actual == self.pass_names@[t - 1]@ && actual != expected
            }
        }
    }

    /// Some pass exhibits the reported mismatch.
    pub open spec fn some_mismatch(
        self,
        nm: Seq<char>,
        expected: Seq<char>,
        actual: Seq<char>,
        idx: int,
    ) -> bool {
        exists|k: int| self.mismatch_at(nm, expected, actual, idx, k)
    }

    /// Reachability is reflexive: the one-node walk.
    proof fn lemma_reaches_self(self, a: int)
        requires
            0 <= a < self.node_count(),
        ensures
            self.reaches(a, a),
    {
        let p: Seq<int> = seq![a];
        assert(self.is_path(p));
        assert(p[0] == a && p.last() == a);
    }

    /// Whatever a dependency reaches, the depending node reaches too.
    proof fn lemma_reaches_step(self, a: int, b: int, v: int)
        requires
            0 <= a < self.node_count(),
            self.edge(a, b),
            self.reaches(b, v),
        ensures
            self.reaches(a, v),
    {
        let p = choose|p: Seq<int>| self.is_path(p) && p[0] == b && p.last() == v;
        let q = seq![a] + p;
        assert(q[0] == a);
        assert(q.last() == v);
        assert forall|i: int| 0 <= i < q.len() ==> 0 <= #[trigger] q[i] < self.node_count() by {
            assert(forall|i: int| 1 <= i < q.len() ==> q[i] == p[i - 1]);
        }
        assert forall|i: int| 0 <= i < q.len() - 1 implies self.edge(#[trigger] q[i], q[i + 1]) by {
            if i == 0 {
                assert(q[1] == p[0]);
            } else {
                assert(q[i] == p[i - 1] && q[i + 1] == p[i]);
                assert(self.edge(p[i - 1], p[i]));
            }
        }
        assert(self.is_path(q));
    }

    /// Everything but images, root and rank is unchanged: the graph's
    /// shape survives verification and rendering.
    pub open spec fn same_shape(self, other: Self) -> bool {
        &&& self.edges@ == other.edges@
        &&& self.passes@ == other.passes@
        &&& self.pass_names@ == other.pass_names@
        &&& self.slots@ == other.slots@
    }

    /// Builds a graph holding only the source node with its input image.
    pub fn new(input: I) -> (r: RenderGraph<P, I>)
        ensures
            r.wf(),
            r.node_count() == 1,
            r.passes@.len() == 0,
            r.images@ =~= seq![Some(input)],
            r.root.0 == 0,
    {
        let mut edges: Vec<Vec<NodeId>> = Vec::new();
        edges.push(Vec::new());
        let mut images: Vec<Option<I>> = Vec::new();
        images.push(Some(input));
        RenderGraph {
            edges,
            passes: Vec::new(),
            pass_names: Vec::new(),
            slots: Vec::new(),
            images,
            root: NodeId(0),
            rank: Ghost(Map::empty()),
        }
    }

    /// The dependencies of `node`, in declared order.
    pub fn connections(&self, node: NodeId) -> (r: &Vec<NodeId>)
        requires
            self.wf(),
            (node.0 as int) < self.node_count(),
        ensures
            r@ == self.deps(node.0 as int),
    {
        &self.edges[node.0 as usize]
    }

    /// Declares that `from` depends on `to`, appending to `from`'s
    /// dependency list. The source cannot depend on anything.
    pub fn add_edge(&mut self, from: NodeId, to: NodeId)
        requires
            old(self).wf(),
            1 <= from.0 as int && (from.0 as int) < old(self).node_count(),
            (to.0 as int) < old(self).node_count(),
        ensures
            final(self).wf(),
            final(self).deps(from.0 as int) == old(self).deps(from.0 as int).push(to),
            forall|a: int|
                0 <= a < final(self).node_count() && a != from.0 as int ==> final(self).deps(a)
                    == old(self).deps(a),
            final(self).node_count() == old(self).node_count(),
            final(self).passes@ == old(self).passes@,
            final(self).pass_names@ == old(self).pass_names@,
            final(self).slots@ == old(self).slots@,
            final(self).images@ == old(self).images@,
            final(self).root == old(self).root,
    {
        let i = from.0 as usize;
        let mut deps = self.edges.remove(i);
        deps.push(to);
        self.edges.insert(i, deps);
        proof {
            assert(self.edges@ =~= old(self).edges@.update(
                i as int,
                self.edges@[i as int],
            ));
            assert(self.edges@[i as int]@ == old(self).edges@[i as int]@.push(to));
            assert forall|a: int, j: int|
                0 <= a < self.node_count() && 0 <= j < self.deps(a).len() implies (
            #[trigger] self.deps(a)[j]).0 < self.node_count() by {
                if a == i as int {
                    if j < self.deps(a).len() - 1 {
                        assert(self.deps(a)[j] == old(self).deps(a)[j]);
                        assert(old(self).deps(a)[j].0 < old(self).node_count());
                    }
                } else {
                    assert(self.deps(a) == old(self).deps(a));
                    assert(old(self).deps(a)[j].0 < old(self).node_count());
                }
            }
        }
    }

    /// Removes and returns `node`'s image buffer, if it still holds one.
    pub fn pop_image(&mut self, node: NodeId) -> (r: Option<I>)
        requires
            old(self).wf(),
            (node.0 as int) < old(self).node_count(),
        ensures
            final(self).wf(),
            r == old(self).images@[node.0 as int],
            final(self).images@ == old(self).images@.update(node.0 as int, None::<I>),
            final(self).same_shape(*old(self)),
            final(self).root == old(self).root,
            final(self).rank == old(self).rank,
    {
        let i = node.0 as usize;
        let taken = self.images.remove(i);
        self.images.insert(i, None);
        proof {
            assert(self.images@ =~= old(self).images@.update(i as int, None::<I>));
            assert forall|a: int, j: int|
                0 <= a < self.node_count() && 0 <= j < self.deps(a).len() implies (
            #[trigger] self.deps(a)[j]).0 < self.node_count() by {
                assert(self.deps(a) == old(self).deps(a));
                assert(old(self).deps(a)[j].0 < old(self).node_count());
            }
        }
        taken
    }

    /// Consumes the graph and hands the source's input image back.
    /// Construction places the input there, and neither verification
    /// nor rendering ever writes it, so along the whole pipeline this
    /// is the caller's image, unchanged.
    pub fn main_image(self) -> (r: I)
        requires
            self.wf(),
            self.images@[0] is Some,
        ensures
            Some(r) == self.images@[0],
    {
        let mut images = self.images;
        let taken = images.remove(0);
        match taken {
            Some(img) => img,
            None => vstd::pervasive::unreached(),
        }
    }
}

impl<P: Pass<I>, I> RenderGraph<P, I> {
    /// What rendering needs and preserves: a well-formed graph whose
    /// rank witnesses acyclicity — established by verification — with a
    /// buffer present at every node.
    pub open spec fn render_ready(self) -> bool {
        &&& self.wf()
        &&& self.rank_ok(self.rank@)
        &&& forall|v: int| 0 <= v < self.node_count() ==> (#[trigger] self.images@[v]) is Some
    }

    /// A graph with a cycle can never be rendered: `render` demands a
    /// render-ready graph, whose rank witnesses acyclicity, and only
    /// verification — which refuses cycles — establishes one.
    pub proof fn lemma_cycle_never_rendered(self)
        requires
            self.has_cycle(),
        ensures
            !self.render_ready(),
    {
        verify::lemma_cycle_not_acyclic(self);
    }

    /// Renders one node: first its dependencies, recursively, in
    /// declared order — a node reached along two paths is recomputed
    /// once per path — then its own pass over their buffers. The source
    /// node computes nothing. Recursion terminates because the rank
    /// strictly decreases along every edge.
    fn render_node(&mut self, node: NodeId)
        requires
            old(self).render_ready(),
            (node.0 as int) < old(self).node_count(),
        ensures
            final(self).render_ready(),
            final(self).same_shape(*old(self)),
            final(self).root == old(self).root,
            final(self).rank == old(self).rank,
            final(self).images@.len() == old(self).images@.len(),
            final(self).images@[0] == old(self).images@[0],
            forall|w: int|
                0 <= w < old(self).node_count() && !old(self).reaches(node.0 as int, w)
                    ==> final(self).images@[w] == old(self).images@[w],
        decreases self.rank@[node.0 as int],
    {
        let v = node.0 as usize;
        let dep_count = self.edges[v].len();
        for j in 0..dep_count
            invariant
                self.render_ready(),
                v == node.0 as usize,
                (node.0 as int) < self.node_count(),
                dep_count == self.deps(node.0 as int).len(),
                self.same_shape(*old(self)),
                self.root == old(self).root,
                self.rank == old(self).rank,
                self.images@.len() == old(self).images@.len(),
                self.images@[0] == old(self).images@[0],
                forall|w: int|
                    0 <= w < old(self).node_count() && !old(self).reaches(node.0 as int, w)
                        ==> self.images@[w] == old(self).images@[w],
        {
            let d = self.edges[v][j];
            proof {
                assert(self.deps(node.0 as int)[j as int].0 == d.0);
                assert(self.rank@[d.0 as int] < self.rank@[node.0 as int]);
                assert((d.0 as int) < self.node_count());
            }
            let ghost pre_child = *self;
            self.render_node(d);
            proof {
                let g0 = *old(self);
                verify::lemma_shape_facts(g0, pre_child);
                assert forall|w: int|
                    0 <= w < g0.node_count() && !g0.reaches(node.0 as int, w) implies self.images@[w]
                    == g0.images@[w] by {
                    assert(g0.edge(node.0 as int, d.0 as int)) by {
                        assert(g0.deps(node.0 as int) == pre_child.deps(node.0 as int));
                        assert(g0.deps(node.0 as int)[j as int].0 == d.0);
                    }
                    if g0.reaches(d.0 as int, w) {
                        g0.lemma_reaches_step(node.0 as int, d.0 as int, w);
                    }
                    assert(!pre_child.reaches(d.0 as int, w));
                    assert(self.images@[w] == pre_child.images@[w]);
                    assert(pre_child.images@[w] == g0.images@[w]);
                }
            }
        }
        if v >= 1 {
            let ghost g_pre = *self;
            let ghost pre_images = self.images@;
            let taken = self.images.remove(v);
            self.images.insert(v, None);
            proof {
                assert(self.images@ =~= pre_images.update(v as int, None::<I>));
                verify::lemma_shape_facts(g_pre, *self);
                assert(self.rank_ok(self.rank@));
                assert forall|a: int, j2: int|
                    0 <= a < self.node_count() && 0 <= j2 < self.deps(a).len() implies (
                #[trigger] self.deps(a)[j2]).0 < self.node_count() by {
                    assert(self.deps(a) == g_pre.deps(a));
                    assert(g_pre.deps(a)[j2].0 < g_pre.node_count());
                }
            }
            let mut target = match taken {
                Some(t) => t,
                None => vstd::pervasive::unreached(),
            };
            let mut aux: Vec<&I> = Vec::new();
            for j in 0..dep_count
                invariant
                    self.wf(),
                    v == node.0 as usize,
                    1 <= v,
                    (node.0 as int) < self.node_count(),
                    dep_count == self.deps(node.0 as int).len(),
                    self.rank_ok(self.rank@),
                    self.images@ == pre_images.update(v as int, None::<I>),
                    self.images@.len() == pre_images.len(),
                    forall|w: int|
                        0 <= w < self.node_count() && w != v as int ==> (
                        #[trigger] self.images@[w]) is Some,
                    aux@.len() == j,
            {
                let d = self.edges[v][j];
                proof {
                    assert(self.deps(node.0 as int)[j as int].0 == d.0);
                    assert(self.rank@[d.0 as int] < self.rank@[node.0 as int]);
                    assert(d.0 as int != v as int);
                    assert((d.0 as int) < self.node_count());
                }
                let img: &I = match &self.images[d.0 as usize] {
                    Some(r) => r,
                    None => vstd::pervasive::unreached(),
                };
                aux.push(img);
            }
            let pass = &self.passes[v - 1];
            pass.apply(&mut target, aux.as_slice());
            let _taken = self.images.remove(v);
            self.images.insert(v, Some(target));
            proof {
                assert(self.images@ =~= pre_images.update(
                    v as int,
                    self.images@[v as int],
                ));
                verify::lemma_shape_facts(g_pre, *self);
                assert(self.rank_ok(self.rank@));
                assert forall|a: int, j2: int|
                    0 <= a < self.node_count() && 0 <= j2 < self.deps(a).len() implies (
                #[trigger] self.deps(a)[j2]).0 < self.node_count() by {
                    assert(self.deps(a) == g_pre.deps(a));
                    assert(g_pre.deps(a)[j2].0 < g_pre.node_count());
                }
                assert forall|w: int| 0 <= w < self.node_count() implies (
                #[trigger] self.images@[w]) is Some by {
                    if w != v as int {
                        assert(self.images@[w] == pre_images[w]);
                    }
                }
                let g0 = *old(self);
                verify::lemma_shape_facts(g0, *self);
                assert forall|w: int|
                    0 <= w < g0.node_count() && !g0.reaches(node.0 as int, w) implies self.images@[w]
                    == g0.images@[w] by {
                    if w == v as int {
                        g0.lemma_reaches_self(node.0 as int);
                        assert(false);
                    } else {
                        assert(self.images@[w] == pre_images[w]);
                    }
                }
            }
        }
    }

    /// Renders the verified graph from its root. Afterwards every
    /// node's buffer — not only the root's — remains retrievable; the
    /// source's buffer is never written, and a node unreachable from the
    /// root keeps its buffer untouched.
    pub fn render(&mut self)
        requires
            old(self).render_ready(),
        ensures
            final(self).render_ready(),
            final(self).same_shape(*old(self)),
            final(self).root == old(self).root,
            final(self).rank == old(self).rank,
            final(self).images@.len() == old(self).images@.len(),
            final(self).images@[0] == old(self).images@[0],
            forall|w: int|
                0 <= w < old(self).node_count() && !old(self).reaches(
                    old(self).root.0 as int,
                    w,
                ) ==> final(self).images@[w] == old(self).images@[w],
    {
        let r = self.root;
        self.render_node(r);
    }

    /// Adds a pass to the graph, recording what it reports as its type
    /// name and dependency slots, and returns its node identifier.
    pub fn add_node(&mut self, node: P, dependencies: &Vec<NodeId>) -> (id: NodeId)
        requires
            old(self).wf(),
            old(self).node_count() < u32::MAX as int,
            forall|i: int|
                0 <= i < dependencies@.len() ==> (#[trigger] dependencies@[i]).0 as int <= old(
                    self,
                ).node_count(),
        ensures
            final(self).wf(),
            id.0 as int == old(self).node_count(),
            final(self).node_count() == old(self).node_count() + 1,
            final(self).deps(id.0 as int) == dependencies@,
            forall|a: int|
                0 <= a < old(self).node_count() ==> final(self).deps(a) == old(self).deps(a),
            final(self).passes@.len() == old(self).passes@.len() + 1,
            final(self).passes@.drop_last() == old(self).passes@,
            final(self).passes@.last() == node,
            final(self).pass_names@.drop_last() == old(self).pass_names@,
            final(self).slots@.drop_last() == old(self).slots@,
            final(self).images@ == old(self).images@.push(None::<I>),
            final(self).root == old(self).root,
    {
        let id = NodeId(self.edges.len() as u32);
        let name = node.name();
        let slot_list = node.dependencies();
        let mut deps: Vec<NodeId> = Vec::new();
        let n = dependencies.len();
        for i in 0..n
            invariant
                n == dependencies@.len(),
                deps@ =~= dependencies@.subrange(0, i as int),
        {
            deps.push(dependencies[i]);
            proof {
                assert(deps@ =~= dependencies@.subrange(0, i + 1));
            }
        }
        proof {
            assert(deps@ =~= dependencies@);
        }
        self.edges.push(deps);
        self.passes.push(node);
        self.pass_names.push(name);
        self.slots.push(slot_list);
        self.images.push(None);
        proof {
            assert(final(self).passes@.drop_last() =~= old(self).passes@);
            assert(final(self).pass_names@.drop_last() =~= old(self).pass_names@);
            assert(final(self).slots@.drop_last() =~= old(self).slots@);
            assert forall|a: int, j: int|
                0 <= a < self.node_count() && 0 <= j < self.deps(a).len() implies (
            #[trigger] self.deps(a)[j]).0 < self.node_count() by {
                if a < self.node_count() - 1 {
                    assert(self.deps(a) == old(self).deps(a));
                    assert(old(self).deps(a)[j].0 < old(self).node_count());
                } else {
                    assert(self.deps(a) == dependencies@);
                    assert(dependencies@[j].0 as int <= old(self).node_count());
                }
            }
        }
        id
    }
}

} // verus!
