//! Dependency graph over type nodes: registration, edges, topological
//! ordering, cycle extraction and transitive dependencies.
//!
//! Nodes are kept in first-mention order with index-based edge lists. The
//! graph mirrors two maps: `dependencies` (a node has an entry once it was
//! added, or once it gained an outgoing edge) and `dependents` (a node has an
//! entry once it was added, or once it gained an incoming edge).

use vstd::prelude::*;
use vstd::string::StringExecFns;
use crate::imports::TypeReference;
use crate::text::{str_eq};

verus! {

broadcast use vstd::string::group_string_axioms;

/// The value of a node: group, version and kind.
pub type NodeView = (Seq<char>, Seq<char>, Seq<char>);

/// A node in the dependency graph.
#[derive(Debug, Clone, PartialEq, Eq, Hash)]
pub struct TypeNode {
    pub group: String,
    pub version: String,
    pub kind: String,
}

impl View for TypeNode {
    type V = NodeView;

    open spec fn view(&self) -> NodeView {
        (self.group@, self.version@, self.kind@)
    }
}

/// The views of a sequence of nodes.
pub open spec fn node_views(v: Seq<TypeNode>) -> Seq<NodeView> {
    v.map_values(|n: TypeNode| n@)
}

impl From<TypeReference> for TypeNode {
    fn from(type_ref: TypeReference) -> (r: TypeNode) {
        TypeNode { group: type_ref.group, version: type_ref.version, kind: type_ref.kind }
    }
}

impl vstd::std_specs::convert::FromSpecImpl<TypeReference> for TypeNode {
    open spec fn obeys_from_spec() -> bool {
        true
    }

    open spec fn from_spec(type_ref: TypeReference) -> TypeNode {
        TypeNode { group: type_ref.group, version: type_ref.version, kind: type_ref.kind }
    }
}

impl TypeNode {
    /// A node from its parts.
    pub fn new(group: String, version: String, kind: String) -> (r: TypeNode)
        ensures
            r.group == group,
            r.version == version,
            r.kind == kind,
    {
        TypeNode { group, version, kind }
    }

    /// `group/version/kind`.
    pub fn full_name(&self) -> (r: String)
        ensures
            r@ == self.group@ + seq!['/'] + self.version@ + seq!['/'] + self.kind@,
    {
        let mut r = self.group.clone();
        let mut slash = String::new();
        crate::text::push_char(&mut slash, '/');
        r.append(slash.as_str());
        r.append(self.version.as_str());
        r.append(slash.as_str());
        r.append(self.kind.as_str());
        r
    }

    /// A copy with the same parts.
    pub fn duplicate(&self) -> (r: TypeNode)
        ensures
            r@ == self@,
    {
        TypeNode {
            group: self.group.clone(),
            version: self.version.clone(),
            kind: self.kind.clone(),
        }
    }

    /// Whether two nodes have the same parts.
    pub fn same_as(&self, other: &TypeNode) -> (r: bool)
        ensures
            r == (self@ == other@),
    {
        str_eq(self.group.as_str(), other.group.as_str()) && str_eq(
            self.version.as_str(),
            other.version.as_str(),
        ) && str_eq(self.kind.as_str(), other.kind.as_str())
    }
}

/// Dependency graph for tracking type dependencies.
pub struct DependencyGraph {
    /// Every node mentioned so far, without repetition, in first-mention order.
    nodes: Vec<TypeNode>,
    /// Whether a node has an entry in the dependency map.
    keyed: Vec<bool>,
    /// Whether a node has an entry in the dependents map.
    targeted: Vec<bool>,
    /// `deps[i]`: the indices of the nodes node `i` depends on, without repetition.
    deps: Vec<Vec<usize>>,
}

/// The graph as seen by contracts.
pub struct GraphView {
    pub nodes: Seq<NodeView>,
    pub keyed: Seq<bool>,
    pub targeted: Seq<bool>,
    pub deps: Seq<Seq<usize>>,
}

impl View for DependencyGraph {
    type V = GraphView;

    closed spec fn view(&self) -> GraphView {
        GraphView {
            nodes: node_views(self.nodes@),
            keyed: self.keyed@,
            targeted: self.targeted@,
            deps: self.deps@.map_values(|d: Vec<usize>| d@),
        }
    }
}

// ---------------------------------------------------------------------------
// Graph specifications
// ---------------------------------------------------------------------------

impl GraphView {
    /// Number of nodes.
    pub open spec fn size(self) -> nat {
        self.nodes.len()
    }

    /// Node `i` depends on node `j`.
    pub open spec fn edge(self, i: int, j: int) -> bool {
        0 <= i < self.deps.len() && 0 <= j < self.nodes.len() && self.deps[i].contains(j as usize)
    }

    /// Nodes are distinct, the tables have one entry per node, and edge
    /// lists hold distinct valid indices.
    pub open spec fn wf(self) -> bool {
        &&& self.nodes.len() <= usize::MAX
        &&& self.keyed.len() == self.nodes.len()
        &&& self.targeted.len() == self.nodes.len()
        &&& self.deps.len() == self.nodes.len()
        &&& self.nodes.no_duplicates()
        &&& forall|i: int, k: int|
            0 <= i < self.deps.len() && 0 <= k < self.deps[i].len() ==> #[trigger] self.deps[i][k]
                < self.nodes.len()
        &&& forall|i: int| 0 <= i < self.deps.len() ==> #[trigger] self.deps[i].no_duplicates()
    }

    /// Every edge's source has an entry in the dependency map and its target
    /// one in the dependents map.
    pub open spec fn edges_marked(self) -> bool {
        forall|i: int, j: int| #[trigger] self.edge(i, j) ==> self.keyed[i] && self.targeted[j]
    }

    /// The index of node `v`, if present.
    pub open spec fn index_of(self, v: NodeView) -> Option<int> {
        if self.nodes.contains(v) {
            Some(self.nodes.index_of(v))
        } else {
            None
        }
    }

    /// `w` is a walk along dependency edges (each step to a node the
    /// previous one depends on).
    pub open spec fn is_walk(self, w: Seq<int>) -> bool {
        &&& forall|m: int| 0 <= m < w.len() ==> 0 <= #[trigger] w[m] < self.nodes.len()
        &&& forall|m: int| 0 <= m < w.len() - 1 ==> #[trigger] self.edge(w[m], w[m + 1])
    }

    /// Some walk with `len` edges ends at node `x`.
    pub open spec fn walk_into(self, x: int, len: nat) -> bool {
        exists|w: Seq<int>| #[trigger] self.is_walk(w) && w.len() == len + 1 && w.last() == x
    }

    /// No walk of `size()` edges ends at `x`: `x` is not reachable from a
    /// cycle, so Kahn's algorithm settles it.
    pub open spec fn grounded(self, x: int) -> bool {
        !self.walk_into(x, self.size())
    }

    /// The indices of the grounded nodes.
    pub open spec fn grounded_set(self) -> Set<int> {
        Set::new(|x: int| 0 <= x < self.nodes.len() && self.grounded(x))
    }

    /// The number of nodes among the first `n` that are keys of the
    /// dependency map.
    pub open spec fn keyed_count_upto(self, n: int) -> nat
        decreases n,
    {
        if n <= 0 {
            0
        } else {
            self.keyed_count_upto(n - 1) + if self.keyed[n - 1] {
                1nat
            } else {
                0nat
            }
        }
    }

    /// The number of keys of the dependency map.
    pub open spec fn keyed_count(self) -> nat {
        self.keyed_count_upto(self.nodes.len() as int)
    }

    /// `c` is a cycle: each node depends on the next, the last on the first.
    pub open spec fn is_cycle(self, c: Seq<int>) -> bool {
        &&& c.len() > 0
        &&& self.is_walk(c)
        &&& self.edge(c.last(), c[0])
    }

    /// There is a walk of at least one edge from `a` to `b`.
    pub open spec fn reaches(self, a: int, b: int) -> bool {
        exists|w: Seq<int>| #[trigger] self.is_walk(w) && w.len() >= 2 && w[0] == a && w.last() == b
    }
}

impl GraphView {
    /// The graph with `v` appended as a node without map entries, when it is
    /// not yet a node.
    pub open spec fn with_node(self, v: NodeView) -> GraphView {
        if self.nodes.contains(v) {
            self
        } else {
            GraphView {
                nodes: self.nodes.push(v),
                keyed: self.keyed.push(false),
                targeted: self.targeted.push(false),
                deps: self.deps.push(Seq::<usize>::empty()),
            }
        }
    }

    /// The graph after `add_node(v)`.
    pub open spec fn after_add_node(self, v: NodeView) -> GraphView {
        let g = self.with_node(v);
        let i = g.nodes.index_of(v);
        GraphView { keyed: g.keyed.update(i, true), targeted: g.targeted.update(i, true), ..g }
    }

    /// The graph after `add_dependency(f, t)`.
    pub open spec fn after_add_dependency(self, f: NodeView, t: NodeView) -> GraphView {
        let g = self.with_node(f).with_node(t);
        let i = g.nodes.index_of(f);
        let j = g.nodes.index_of(t);
        GraphView {
            nodes: g.nodes,
            keyed: g.keyed.update(i, true),
            targeted: g.targeted.update(j, true),
            deps: g.deps.update(
                i,
                if g.deps[i].contains(j as usize) {
                    g.deps[i]
                } else {
                    g.deps[i].push(j as usize)
                },
            ),
        }
    }

    /// The nodes node `i` depends on, in edge order.
    pub open spec fn dependency_views(self, i: int) -> Seq<NodeView> {
        self.deps[i].map_values(|j: usize| self.nodes[j as int])
    }

    /// The set of nodes that depend on node `j`.
    pub open spec fn dependent_set(self, j: int) -> Set<NodeView> {
        Set::new(|v: NodeView| exists|i: int| 0 <= i < self.nodes.len() && #[trigger] self.nodes[i] == v && self.edge(i, j))
    }
}

/// In a sequence without duplicates, `index_of` finds the one position of
/// an element.
proof fn lemma_index_of_unique<A>(s: Seq<A>, i: int)
    requires
        s.no_duplicates(),
        0 <= i < s.len(),
    ensures
        s.contains(s[i]),
        s.index_of(s[i]) == i,
{
    assert(s.contains(s[i]));
}

impl DependencyGraph {
    /// The representation invariant, which every graph keeps.
    #[verifier::type_invariant]
    pub closed spec fn well_formed(&self) -> bool {
        &&& self@.wf()
        &&& self@.edges_marked()
        &&& self.nodes.len() == self.keyed.len()
        &&& self.nodes.len() == self.targeted.len()
        &&& self.nodes.len() == self.deps.len()
    }

    /// An empty graph.
    pub fn new() -> (r: DependencyGraph)
        ensures
            r.well_formed(),
            r@.nodes.len() == 0,
    {
        let r = DependencyGraph {
            nodes: Vec::new(),
            keyed: Vec::new(),
            targeted: Vec::new(),
            deps: Vec::new(),
        };
        assert(r@.deps =~= Seq::<Seq<usize>>::empty());
        r
    }

    /// The index of a node, if present.
    fn find(&self, node: &TypeNode) -> (r: Option<usize>)
        requires
            self.well_formed(),
        ensures
            match r {
                Some(i) => i < self@.nodes.len() && self@.nodes[i as int] == node@
                    && self@.nodes.index_of(node@) == i,
                None => !self@.nodes.contains(node@),
            },
    {
        let mut i: usize = 0;
        while i < self.nodes.len()
            invariant
                self.well_formed(),
                i <= self.nodes.len(),
                forall|k: int| 0 <= k < i ==> self@.nodes[k] != node@,
            decreases self.nodes.len() - i,
        {
            if self.nodes[i].same_as(node) {
                proof {
                    lemma_index_of_unique(self@.nodes, i as int);
                }
                return Some(i);
            }
            i = i + 1;
        }
        None
    }

    /// Add a node to the graph.
    pub fn add_node(&mut self, node: TypeNode)
        ensures
            final(self).well_formed(),
            final(self)@ == old(self)@.after_add_node(node@),
    {
        let mut raw = self.take_parts();
        raw.add_node(node);
        *self = DependencyGraph::from_parts(raw);
    }

    /// Add a dependency edge: `from` depends on `to`.
    pub fn add_dependency(&mut self, from: TypeNode, to: TypeNode)
        ensures
            final(self).well_formed(),
            final(self)@ == old(self)@.after_add_dependency(from@, to@),
    {
        let mut raw = self.take_parts();
        raw.add_dependency(from, to);
        *self = DependencyGraph::from_parts(raw);
    }

    /// The parts of the graph, leaving an empty graph in its place.
    fn take_parts(&mut self) -> (r: RawGraph)
        ensures
            r.raw_ok(),
            r@ == old(self)@,
            final(self)@.nodes.len() == 0,
    {
        proof {
            use_type_invariant(&*self);
        }
        let mut g = DependencyGraph::new();
        std::mem::swap(self, &mut g);
        proof {
            use_type_invariant(&g);
        }
        let DependencyGraph { nodes, keyed, targeted, deps } = g;
        RawGraph { nodes, keyed, targeted, deps }
    }

    /// The graph made of well-formed parts.
    fn from_parts(raw: RawGraph) -> (r: DependencyGraph)
        requires
            raw.raw_ok(),
        ensures
            r@ == raw@,
    {
        let RawGraph { nodes, keyed, targeted, deps } = raw;
        DependencyGraph { nodes, keyed, targeted, deps }
    }
}

/// The parts of a dependency graph while it is being changed.
struct RawGraph {
    nodes: Vec<TypeNode>,
    keyed: Vec<bool>,
    targeted: Vec<bool>,
    deps: Vec<Vec<usize>>,
}

impl View for RawGraph {
    type V = GraphView;

    closed spec fn view(&self) -> GraphView {
        GraphView {
            nodes: node_views(self.nodes@),
            keyed: self.keyed@,
            targeted: self.targeted@,
            deps: self.deps@.map_values(|d: Vec<usize>| d@),
        }
    }
}

impl RawGraph {
    /// The parts form a well-formed graph.
    spec fn raw_ok(&self) -> bool {
        &&& self@.wf()
        &&& self@.edges_marked()
        &&& self.nodes.len() == self.keyed.len()
        &&& self.nodes.len() == self.targeted.len()
        &&& self.nodes.len() == self.deps.len()
    }

    /// The index of a node, if present.
    fn find(&self, node: &TypeNode) -> (r: Option<usize>)
        requires
            self.raw_ok(),
        ensures
            match r {
                Some(i) => i < self@.nodes.len() && self@.nodes[i as int] == node@
                    && self@.nodes.index_of(node@) == i,
                None => !self@.nodes.contains(node@),
            },
    {
        let mut i: usize = 0;
        while i < self.nodes.len()
            invariant
                self.raw_ok(),
                i <= self.nodes.len(),
                forall|k: int| 0 <= k < i ==> self@.nodes[k] != node@,
            decreases self.nodes.len() - i,
        {
            if self.nodes[i].same_as(node) {
                proof {
                    lemma_index_of_unique(self@.nodes, i as int);
                }
                return Some(i);
            }
            i = i + 1;
        }
        None
    }

    /// The index of a node, appending it (with no map entries) when new.
    fn ensure_node(&mut self, node: TypeNode) -> (i: usize)
        requires
            old(self).raw_ok(),
        ensures
            final(self).raw_ok(),
            final(self)@ == old(self)@.with_node(node@),
            i < final(self)@.nodes.len(),
            final(self)@.nodes.index_of(node@) == i,
            final(self)@.nodes[i as int] == node@,
    {
        match self.find(&node) {
            Some(i) => i,
            None => {
                let ghost g = self@;
                let i = self.nodes.len();
                self.nodes.push(node);
                self.keyed.push(false);
                self.targeted.push(false);
                self.deps.push(Vec::new());
                let len_now = self.nodes.len();
                proof {
                    assert(len_now == self@.nodes.len());
                    assert(self@.nodes =~= g.nodes.push(node@));
                    assert(self@.deps =~= g.deps.push(Seq::<usize>::empty()));
                    assert forall|a: int, b: int|
                        0 <= a < self@.nodes.len() && 0 <= b < self@.nodes.len() && a != b
                            implies self@.nodes[a] != self@.nodes[b] by {
                        if a == i as int {
                            assert(g.nodes[b] == self@.nodes[b]);
                        } else if b == i as int {
                            assert(g.nodes[a] == self@.nodes[a]);
                        }
                    }
                    lemma_index_of_unique(self@.nodes, i as int);
                    assert forall|a: int, b: int| #[trigger] self@.edge(a, b) implies self@.keyed[a]
                        && self@.targeted[b] by {
                        assert(a < g.nodes.len());
                        assert(self@.deps[a] == g.deps[a]);
                        let k = choose|k: int| 0 <= k < g.deps[a].len() && g.deps[a][k] == b as usize;
                        assert(g.edge(a, b));
                    }
                }
                i
            },
        }
    }

    /// Add a node to the graph.
    fn add_node(&mut self, node: TypeNode)
        requires
            old(self).raw_ok(),
        ensures
            final(self).raw_ok(),
            final(self)@ == old(self)@.after_add_node(node@),
    {
        let ghost v = node@;
        let i = self.ensure_node(node);
        let ghost g = self@;
        self.keyed.set(i, true);
        self.targeted.set(i, true);
        assert forall|a: int, b: int| #[trigger] self@.edge(a, b) implies self@.keyed[a] && self@.targeted[b] by {
            assert(g.edge(a, b));
        }
    }

    /// Add a dependency edge: `from` depends on `to`.
    fn add_dependency(&mut self, from: TypeNode, to: TypeNode)
        requires
            old(self).raw_ok(),
        ensures
            final(self).raw_ok(),
            final(self)@ == old(self)@.after_add_dependency(from@, to@),
    {
        let ghost fv = from@;
        let ghost tv = to@;
        let i = self.ensure_node(from);
        let j = self.ensure_node(to);
        let ghost g = self@;
        assert(g.nodes[i as int] == fv) by {
            assert(g == old(self)@.with_node(fv).with_node(tv));
        }
        assert(g.nodes.index_of(fv) == i) by {
            lemma_index_of_unique(g.nodes, i as int);
        }
        self.keyed.set(i, true);
        self.targeted.set(j, true);
        let mut present = false;
        let mut k: usize = 0;
        while k < self.deps[i].len()
            invariant
                i < self.deps.len(),
                k <= self.deps[i as int].len(),
                present == exists|m: int| 0 <= m < k && self.deps[i as int]@[m] == j,
            decreases self.deps[i as int].len() - k,
        {
            if self.deps[i][k] == j {
                present = true;
            }
            k = k + 1;
        }
        let ghost before = self.deps[i as int]@;
        assert(present == before.contains(j));
        assert(before == g.deps[i as int]);
        assert(before.no_duplicates());
        if !present {
            self.deps[i].push(j);
            proof {
                assert forall|a: int, b: int|
                    0 <= a < before.len() + 1 && 0 <= b < before.len() + 1 && a != b
                        implies before.push(j)[a] != before.push(j)[b] by {
                    if a == before.len() {
                        assert(before[b] != j);
                    } else if b == before.len() {
                        assert(before[a] != j);
                    }
                }
            }
        }
        proof {
            assert(self@.deps =~= g.deps.update(
                i as int,
                if g.deps[i as int].contains(j) {
                    g.deps[i as int]
                } else {
                    g.deps[i as int].push(j)
                },
            ));
            assert forall|a: int, b: int| #[trigger] self@.edge(a, b) implies self@.keyed[a]
                && self@.targeted[b] by {
                if !(a == i as int && b == j as int) {
                    if a == i as int {
                        let k = choose|k: int| 0 <= k < self@.deps[a].len() && self@.deps[a][k] == b as usize;
                        if !before.contains(j) && k == before.len() {
                            assert(self@.deps[a][k] == j);
                        } else {
                            assert(before[k] == b as usize);
                        }
                    }
                    assert(g.edge(a, b));
                }
            }
        }
    }
}

impl GraphView {
    /// `q` is a settling order of Kahn's algorithm run to exhaustion: its
    /// nodes are distinct, every dependent of a settled node was settled
    /// before it, and every unsettled node has an unsettled dependent.
    pub open spec fn settled(self, q: Seq<usize>) -> bool {
        &&& q.no_duplicates()
        &&& forall|p: int| 0 <= p < q.len() ==> #[trigger] q[p] < self.nodes.len()
        &&& forall|p: int, i: int|
            0 <= p < q.len() && #[trigger] self.edge(i, q[p] as int) ==> exists|r: int|
                0 <= r < p && #[trigger] q[r] == i as usize
        &&& forall|x: usize|
            x < self.nodes.len() && !(#[trigger] q.contains(x)) ==> exists|i: int|
                #[trigger] self.edge(i, x as int) && !q.contains(i as usize)
    }
}

/// The indices of a sequence of `usize`, as integers.
pub open spec fn as_ints(q: Seq<usize>) -> Seq<int> {
    q.map_values(|x: usize| x as int)
}

/// Pigeonhole: distinct integers in `[0, n)` number at most `n`.
pub proof fn lemma_distinct_bounded(s: Seq<int>, n: int)
    requires
        0 <= n,
        s.no_duplicates(),
        forall|i: int| 0 <= i < s.len() ==> 0 <= #[trigger] s[i] < n,
    ensures
        s.len() <= n,
    decreases s.len(),
{
    if s.len() > 0 {
        let m = s.last();
        let t = s.drop_last();
        let u = t.map_values(|x: int| if x == n - 1 { m } else { x });
        assert forall|i: int| 0 <= i < u.len() implies 0 <= #[trigger] u[i] < n - 1 by {
            assert(t[i] == s[i]);
            assert(s[i] != s[s.len() - 1]);
        }
        assert forall|i: int, j: int| 0 <= i < u.len() && 0 <= j < u.len() && i != j implies u[i]
            != u[j] by {
            assert(t[i] == s[i] && t[j] == s[j]);
            assert(s[i] != s[j]);
            assert(s[i] != s[s.len() - 1]);
            assert(s[j] != s[s.len() - 1]);
        }
        lemma_distinct_bounded(u, n - 1);
        assert(u.len() == t.len());
        assert(t.len() + 1 == s.len());
    }
}

/// The integer view of a duplicate-free `usize` sequence is duplicate-free,
/// and holds the same elements.
proof fn lemma_as_ints(q: Seq<usize>)
    ensures
        as_ints(q).len() == q.len(),
        forall|p: int| 0 <= p < q.len() ==> #[trigger] as_ints(q)[p] == q[p] as int,
        q.no_duplicates() ==> as_ints(q).no_duplicates(),
        forall|x: int| 0 <= x <= usize::MAX ==> (#[trigger] as_ints(q).contains(x) <==> q.contains(x as usize)),
{
    assert forall|x: int| 0 <= x <= usize::MAX implies (#[trigger] as_ints(q).contains(x) <==> q.contains(
        x as usize,
    )) by {
        if as_ints(q).contains(x) {
            let p = choose|p: int| 0 <= p < as_ints(q).len() && as_ints(q)[p] == x;
            assert(q[p] == x as usize);
        }
        if q.contains(x as usize) {
            let p = choose|p: int| 0 <= p < q.len() && q[p] == x as usize;
            assert(as_ints(q)[p] == x);
        }
    }
}

/// A settling order holds at most one entry per node.
proof fn lemma_settled_len(g: GraphView, q: Seq<usize>)
    requires
        g.wf(),
        g.settled(q),
    ensures
        q.len() <= g.nodes.len(),
{
    lemma_as_ints(q);
    lemma_distinct_bounded(as_ints(q), g.nodes.len() as int);
}

/// Walking backwards from a settled node, each step lands strictly earlier
/// in the settling order.
proof fn lemma_walk_positions(g: GraphView, q: Seq<usize>, w: Seq<int>, pos: int, k: int)
    requires
        g.wf(),
        g.settled(q),
        g.is_walk(w),
        w.len() >= 1,
        0 <= pos < q.len(),
        q[pos] as int == w.last(),
        0 <= k < w.len(),
    ensures
        exists|r: int| 0 <= r <= pos - k && q[r] as int == w[w.len() - 1 - k],
    decreases k,
{
    if k == 0 {
        assert(q[pos] as int == w[w.len() - 1]);
    } else {
        lemma_walk_positions(g, q, w, pos, k - 1);
        let r = choose|r: int| 0 <= r <= pos - (k - 1) && q[r] as int == w[w.len() - 1 - (k - 1)];
        let a = w.len() - 1 - k;
        assert(g.edge(w[a], w[a + 1]));
        assert(g.edge(w[a], q[r] as int));
        let r2 = choose|r2: int| 0 <= r2 < r && #[trigger] q[r2] == w[a] as usize;
        assert(q[r2] as int == w[a]);
    }
}

/// Every unsettled node is the end of arbitrarily long walks through
/// unsettled nodes.
proof fn lemma_unsettled_walk(g: GraphView, q: Seq<usize>, x: int, len: nat)
    requires
        g.wf(),
        g.settled(q),
        0 <= x < g.nodes.len(),
        !q.contains(x as usize),
    ensures
        g.walk_into(x, len),
    decreases len,
{
    if len == 0 {
        let w = seq![x];
        assert(g.is_walk(w));
    } else {
        assert(!q.contains(x as usize));
        let i = choose|i: int| #[trigger] g.edge(i, (x as usize) as int) && !q.contains(i as usize);
        lemma_unsettled_walk(g, q, i, (len - 1) as nat);
        let w = choose|w: Seq<int>| #[trigger] g.is_walk(w) && w.len() == len - 1 + 1 && w.last() == i;
        lemma_walk_push(g, w, x);
    }
}

/// A walk extended by an edge out of its last node is a walk.
proof fn lemma_walk_push(g: GraphView, w: Seq<int>, x: int)
    requires
        g.is_walk(w),
        w.len() > 0,
        g.edge(w.last(), x),
    ensures
        g.is_walk(w.push(x)),
        g.walk_into(x, w.len()),
{
    let w2 = w.push(x);
    assert forall|m: int| 0 <= m < w2.len() - 1 implies #[trigger] g.edge(w2[m], w2[m + 1]) by {
        if m < w.len() - 1 {
            assert(w2[m] == w[m] && w2[m + 1] == w[m + 1]);
            assert(g.edge(w[m], w[m + 1]));
        }
    }
    assert(g.is_walk(w2));
    assert(w2.last() == x);
}

/// A node is settled exactly when it is grounded.
proof fn lemma_settled_grounded(g: GraphView, q: Seq<usize>)
    requires
        g.wf(),
        g.settled(q),
    ensures
        forall|x: int| 0 <= x < g.nodes.len() ==> (q.contains(x as usize) <==> #[trigger] g.grounded(x)),
{
    assert forall|x: int| 0 <= x < g.nodes.len() implies (q.contains(x as usize) <==> #[trigger] g.grounded(x)) by {
        if q.contains(x as usize) {
            if g.walk_into(x, g.size()) {
                let w = choose|w: Seq<int>| #[trigger] g.is_walk(w) && w.len() == g.size() + 1 && w.last() == x;
                let pos = choose|p: int| 0 <= p < q.len() && q[p] == x as usize;
                lemma_walk_positions(g, q, w, pos, w.len() - 1);
                lemma_settled_len(g, q);
            }
        } else {
            lemma_unsettled_walk(g, q, x, g.size());
        }
    }
}

/// The grounded set has exactly as many elements as a settling order.
proof fn lemma_grounded_set_len(g: GraphView, q: Seq<usize>)
    requires
        g.wf(),
        g.settled(q),
    ensures
        g.grounded_set().finite(),
        g.grounded_set().len() == q.len(),
{
    lemma_settled_grounded(g, q);
    lemma_as_ints(q);
    let qi = as_ints(q);
    assert(qi.to_set() =~= g.grounded_set()) by {
        assert forall|x: int| #[trigger] qi.to_set().contains(x) <==> g.grounded_set().contains(x) by {
            if qi.contains(x) {
                let p = choose|p: int| 0 <= p < qi.len() && qi[p] == x;
                assert(q[p] < g.nodes.len());
            }
        }
    }
    qi.unique_seq_to_set();
}

impl DependencyGraph {
    /// Whether node `i` depends on node `j`.
    fn has_edge(&self, i: usize, j: usize) -> (r: bool)
        requires
            self.well_formed(),
            i < self@.nodes.len(),
            j < self@.nodes.len(),
        ensures
            r == self@.edge(i as int, j as int),
    {
        let mut k: usize = 0;
        while k < self.deps[i].len()
            invariant
                self.well_formed(),
                i < self@.nodes.len(),
                j < self@.nodes.len(),
                k <= self.deps[i as int].len(),
                forall|m: int| 0 <= m < k ==> self.deps[i as int]@[m] != j,
            decreases self.deps[i as int].len() - k,
        {
            if self.deps[i][k] == j {
                assert(self@.deps[i as int][k as int] == j);
                return true;
            }
            k = k + 1;
        }
        assert(!self@.deps[i as int].contains(j)) by {
            assert(self@.deps[i as int] == self.deps[i as int]@);
        }
        false
    }

    /// Whether every node that depends on node `t` is marked done.
    fn dependents_done(&self, t: usize, done: &Vec<bool>) -> (r: bool)
        requires
            self.well_formed(),
            t < self@.nodes.len(),
            done.len() == self@.nodes.len(),
        ensures
            r == forall|i: int| 0 <= i < self@.nodes.len() && #[trigger] self@.edge(i, t as int) ==> done@[i],
    {
        let mut i: usize = 0;
        while i < self.nodes.len()
            invariant
                self.well_formed(),
                t < self@.nodes.len(),
                done.len() == self@.nodes.len(),
                i <= self.nodes.len(),
                forall|k: int| 0 <= k < i && #[trigger] self@.edge(k, t as int) ==> done@[k],
            decreases self.nodes.len() - i,
        {
            if !done[i] && self.has_edge(i, t) {
                return false;
            }
            i = i + 1;
        }
        true
    }

    /// Run Kahn's algorithm to exhaustion: the order in which nodes settle,
    /// starting from the nodes nothing depends on.
    fn settle(&self) -> (q: Vec<usize>)
        requires
            self.well_formed(),
        ensures
            self@.settled(q@),
    {
        let n = self.nodes.len();
        let ghost g = self@;
        let mut seen: Vec<bool> = Vec::new();
        let mut done: Vec<bool> = Vec::new();
        let mut x: usize = 0;
        while x < n
            invariant
                n == g.nodes.len(),
                x <= n,
                seen.len() == x,
                done.len() == x,
                forall|y: int| 0 <= y < x ==> !(#[trigger] seen@[y]),
                forall|y: int| 0 <= y < x ==> !(#[trigger] done@[y]),
            decreases n - x,
        {
            seen.push(false);
            done.push(false);
            x = x + 1;
        }
        let mut queue: Vec<usize> = Vec::new();
        x = 0;
        while x < n
            invariant
                self.well_formed(),
                g == self@,
                n == g.nodes.len(),
                x <= n,
                seen.len() == n,
                done.len() == n,
                forall|y: int| 0 <= y < n ==> !(#[trigger] done@[y]),
                queue@.no_duplicates(),
                forall|p: int| 0 <= p < queue.len() ==> #[trigger] queue@[p] < x,
                forall|y: int| 0 <= y < n ==> (#[trigger] seen@[y] <==> queue@.contains(y as usize)),
                forall|p: int, i: int| 0 <= p < queue.len() ==> !(#[trigger] g.edge(i, queue@[p] as int)),
                forall|y: int| 0 <= y < x && !(#[trigger] seen@[y]) ==> exists|i: int| #[trigger] g.edge(i, y) && !done@[i],
            decreases n - x,
        {
            if self.dependents_done(x, &done) {
                let ghost q0 = queue@;
                queue.push(x);
                seen.set(x, true);
                proof {
                    assert forall|y: int| 0 <= y < n implies (#[trigger] seen@[y] <==> queue@.contains(y as usize)) by {
                        if queue@.contains(y as usize) {
                            let p = choose|p: int| 0 <= p < queue@.len() && queue@[p] == y as usize;
                            if p < q0.len() {
                                assert(q0[p] == y as usize);
                            }
                        }
                        if y != x as int && seen@[y] {
                            let p = choose|p: int| 0 <= p < q0.len() && q0[p] == y as usize;
                            assert(queue@[p] == y as usize);
                        }
                        if y == x as int {
                            assert(queue@[q0.len() as int] == x);
                        }
                    }
                    assert forall|a: int, b: int| 0 <= a < queue@.len() && 0 <= b < queue@.len() && a != b implies queue@[a] != queue@[b] by {
                        if a < q0.len() && b < q0.len() {
                            assert(q0[a] != q0[b]);
                        } else if a < q0.len() {
                            assert(q0[a] < x);
                        } else {
                            assert(q0[b] < x);
                        }
                    }
                    assert forall|p: int, i: int| 0 <= p < queue.len() implies !(#[trigger] g.edge(i, queue@[p] as int)) by {
                        if p < q0.len() {
                            assert(queue@[p] == q0[p]);
                        } else if g.edge(i, x as int) {
                            assert(done@[i]);
                        }
                    }
                }
            } else {
                proof {
                    let i = choose|i: int| 0 <= i < g.nodes.len() && #[trigger] g.edge(i, x as int) && !done@[i];
                }
            }
            x = x + 1;
        }
        proof {
            lemma_as_ints(queue@);
            lemma_distinct_bounded(as_ints(queue@), n as int);
        }
        let mut head: usize = 0;
        while head < queue.len()
            invariant
                self.well_formed(),
                g == self@,
                n == g.nodes.len(),
                seen.len() == n,
                done.len() == n,
                head <= queue.len(),
                queue.len() <= n,
                queue@.no_duplicates(),
                forall|p: int| 0 <= p < queue.len() ==> #[trigger] queue@[p] < n,
                forall|y: int| 0 <= y < n ==> (#[trigger] seen@[y] <==> queue@.contains(y as usize)),
                forall|y: int| 0 <= y < n ==> (#[trigger] done@[y] <==> queue@.take(head as int).contains(y as usize)),
                forall|p: int, i: int|
                    0 <= p < queue.len() && #[trigger] g.edge(i, queue@[p] as int) ==> exists|r: int|
                        0 <= r < p && #[trigger] queue@[r] == i as usize,
                forall|y: int| 0 <= y < n && !(#[trigger] seen@[y]) ==> exists|i: int| #[trigger] g.edge(i, y) && !done@[i],
            decreases n - head,
        {
            let f = queue[head];
            let ghost q_before = queue@;
            let ghost done_before = done@;
            let ghost h0: int = head as int;
            let ghost old_take = queue@.take(h0);
            done.set(f, true);
            head = head + 1;
            proof {
                let new_take = queue@.take(h0 + 1);
                assert forall|y: int| 0 <= y < n implies (#[trigger] done@[y] <==> new_take.contains(y as usize)) by {
                    if new_take.contains(y as usize) {
                        let p = choose|p: int| 0 <= p < new_take.len() && new_take[p] == y as usize;
                        if p < h0 {
                            assert(old_take[p] == y as usize);
                        }
                    }
                    if y != f as int && done@[y] {
                        assert(done_before[y]);
                        let p = choose|p: int| 0 <= p < old_take.len() && old_take[p] == y as usize;
                        assert(new_take[p] == y as usize);
                    }
                    if y == f as int {
                        assert(new_take[h0] == f);
                    }
                }
            }
            let mut k: usize = 0;
            while k < self.deps[f].len()
                invariant
                    self.well_formed(),
                    g == self@,
                    n == g.nodes.len(),
                    f < n,
                    seen.len() == n,
                    done.len() == n,
                    0 < head <= queue.len(),
                    queue.len() <= n,
                    queue@[head - 1] == f,
                    done@[f as int],
                    queue@.no_duplicates(),
                    forall|p: int| 0 <= p < queue.len() ==> #[trigger] queue@[p] < n,
                    forall|y: int| 0 <= y < n ==> (#[trigger] seen@[y] <==> queue@.contains(y as usize)),
                    forall|y: int| 0 <= y < n ==> (#[trigger] done@[y] <==> queue@.take(head as int).contains(y as usize)),
                    forall|p: int, i: int|
                        0 <= p < queue.len() && #[trigger] g.edge(i, queue@[p] as int) ==> exists|r: int|
                            0 <= r < p && #[trigger] queue@[r] == i as usize,
                    k <= self.deps[f as int].len(),
                    forall|y: int| 0 <= y < n && !(#[trigger] seen@[y]) ==> (exists|i: int| #[trigger] g.edge(i, y) && !done@[i])
                        || (exists|m: int| k <= m < self.deps[f as int].len() && self.deps[f as int]@[m] == y as usize),
                decreases self.deps[f as int].len() - k,
            {
                let t = self.deps[f][k];
                assert(g.deps[f as int][k as int] == t);
                if !seen[t] && self.dependents_done(t, &done) {
                    let ghost q0 = queue@;
                    proof {
                        lemma_settled_len_partial(q0, n as int, t);
                    }
                    queue.push(t);
                    seen.set(t, true);
                    proof {
                        assert forall|y: int| 0 <= y < n implies (#[trigger] seen@[y] <==> queue@.contains(y as usize)) by {
                            if queue@.contains(y as usize) {
                                let p = choose|p: int| 0 <= p < queue@.len() && queue@[p] == y as usize;
                                if p < q0.len() {
                                    assert(q0[p] == y as usize);
                                }
                            }
                            if y != t as int && seen@[y] {
                                let p = choose|p: int| 0 <= p < q0.len() && q0[p] == y as usize;
                                assert(queue@[p] == y as usize);
                            }
                            if y == t as int {
                                assert(queue@[q0.len() as int] == t);
                            }
                        }
                        assert forall|a: int, b: int| 0 <= a < queue@.len() && 0 <= b < queue@.len() && a != b implies queue@[a] != queue@[b] by {
                            if a < q0.len() && b < q0.len() {
                                assert(q0[a] != q0[b]);
                            } else if a < q0.len() {
                                assert(q0.contains(q0[a]));
                            } else {
                                assert(q0.contains(q0[b]));
                            }
                        }
                        assert forall|y: int| 0 <= y < n implies (#[trigger] done@[y] <==> queue@.take(head as int).contains(y as usize)) by {
                            assert(queue@.take(head as int) =~= q0.take(head as int));
                        }
                        assert forall|p: int, i: int|
                            0 <= p < queue.len() && #[trigger] g.edge(i, queue@[p] as int) implies exists|r: int|
                                0 <= r < p && #[trigger] queue@[r] == i as usize by {
                            if p < q0.len() {
                                assert(queue@[p] == q0[p]);
                                let r = choose|r: int| 0 <= r < p && #[trigger] q0[r] == i as usize;
                                assert(queue@[r] == i as usize);
                            } else {
                                assert(done@[i]);
                                assert(queue@.take(head as int).contains(i as usize));
                                let r = choose|r: int| 0 <= r < head && queue@.take(head as int)[r] == i as usize;
                                assert(queue@[r] == i as usize);
                            }
                        }
                    }
                } else {
                    proof {
                        if !seen@[t as int] {
                            let i = choose|i: int| 0 <= i < g.nodes.len() && #[trigger] g.edge(i, t as int) && !done@[i];
                        }
                    }
                }
                proof {
                    assert forall|y: int| 0 <= y < n && !(#[trigger] seen@[y]) implies (exists|i: int| #[trigger] g.edge(i, y) && !done@[i])
                        || (exists|m: int| k + 1 <= m < self.deps[f as int].len() && self.deps[f as int]@[m] == y as usize) by {
                        if !(exists|i: int| #[trigger] g.edge(i, y) && !done@[i]) {
                            let m = choose|m: int| k <= m < self.deps[f as int].len() && self.deps[f as int]@[m] == y as usize;
                            if m == k {
                                assert(y == t as int);
                            }
                        }
                    }
                }
                k = k + 1;
            }
            proof {
                assert forall|y: int| 0 <= y < n && !(#[trigger] seen@[y]) implies exists|i: int| #[trigger] g.edge(i, y) && !done@[i] by {
                    if !(exists|i: int| #[trigger] g.edge(i, y) && !done@[i]) {
                        let m = choose|m: int| k <= m < self.deps[f as int].len() && self.deps[f as int]@[m] == y as usize;
                    }
                }
            }
        }
        proof {
            assert(queue@.take(head as int) =~= queue@);
            assert forall|y: usize| y < n && !(#[trigger] queue@.contains(y)) implies exists|i: int|
                #[trigger] g.edge(i, y as int) && !queue@.contains(i as usize) by {
                assert(!seen@[y as int]);
                let i = choose|i: int| #[trigger] g.edge(i, y as int) && !done@[i];
            }
        }
        queue
    }
}

/// Pushing a new index onto a duplicate-free sequence of indices below `n`
/// keeps its length within `n`.
proof fn lemma_settled_len_partial(q: Seq<usize>, n: int, t: usize)
    requires
        q.no_duplicates(),
        forall|p: int| 0 <= p < q.len() ==> #[trigger] q[p] < n,
        !q.contains(t),
        t < n,
    ensures
        q.len() + 1 <= n,
{
    let q2 = q.push(t);
    assert forall|a: int, b: int| 0 <= a < q2.len() && 0 <= b < q2.len() && a != b implies q2[a] != q2[b] by {
        if a < q.len() && b < q.len() {
            assert(q[a] != q[b]);
        } else if a < q.len() {
            assert(q.contains(q[a]));
        } else {
            assert(q.contains(q[b]));
        }
    }
    lemma_as_ints(q2);
    lemma_distinct_bounded(as_ints(q2), n);
}

/// Error for a dependency cycle.
#[derive(Debug)]
pub struct CycleError {
    pub cycle: Vec<TypeNode>,
}

impl CycleError {
    /// An error carrying the given cycle.
    pub fn new(cycle: Vec<TypeNode>) -> (r: CycleError)
        ensures
            r.cycle == cycle,
    {
        CycleError { cycle }
    }
}

impl GraphView {
    /// Node `a` depends on node `b` (both by value).
    pub open spec fn depends(self, a: NodeView, b: NodeView) -> bool {
        self.nodes.contains(a) && self.nodes.contains(b) && self.edge(
            self.nodes.index_of(a),
            self.nodes.index_of(b),
        )
    }

    /// The node values of a sequence of indices.
    pub open spec fn views_of(self, c: Seq<int>) -> Seq<NodeView> {
        c.map_values(|k: int| self.nodes[k])
    }
}

impl DependencyGraph {
    /// Copies of the nodes at the given indices, in order.
    fn nodes_at(&self, idx: &Vec<usize>) -> (r: Vec<TypeNode>)
        requires
            self.well_formed(),
            forall|p: int| 0 <= p < idx.len() ==> #[trigger] idx@[p] < self@.nodes.len(),
        ensures
            node_views(r@) == self@.views_of(as_ints(idx@)),
    {
        let mut r: Vec<TypeNode> = Vec::new();
        let mut p: usize = 0;
        while p < idx.len()
            invariant
                self.well_formed(),
                forall|p: int| 0 <= p < idx.len() ==> #[trigger] idx@[p] < self@.nodes.len(),
                p <= idx.len(),
                node_views(r@) == self@.views_of(as_ints(idx@)).take(p as int),
            decreases idx.len() - p,
        {
            let ghost r0 = r@;
            let nd = self.nodes[idx[p]].duplicate();
            r.push(nd);
            proof {
                assert(node_views(r@) =~= node_views(r0).push(nd@));
                assert(self@.views_of(as_ints(idx@)).take(p + 1) =~= self@.views_of(as_ints(idx@)).take(
                    p as int,
                ).push(self@.nodes[idx@[p as int] as int]));
            }
            p = p + 1;
        }
        assert(self@.views_of(as_ints(idx@)).take(idx.len() as int) =~= self@.views_of(as_ints(idx@)));
        r
    }

    /// The number of keys of the dependency map.
    fn keyed_count(&self) -> (c: usize)
        requires
            self.well_formed(),
        ensures
            c == self@.keyed_count(),
    {
        let mut c: usize = 0;
        let mut i: usize = 0;
        while i < self.keyed.len()
            invariant
                self.well_formed(),
                i <= self.keyed.len(),
                c == self@.keyed_count_upto(i as int),
                c <= i,
            decreases self.keyed.len() - i,
        {
            if self.keyed[i] {
                c = c + 1;
            }
            i = i + 1;
        }
        c
    }

    /// Perform a topological sort: every node comes after the nodes it
    /// depends on. The sort succeeds when the nodes that settle under Kahn's
    /// algorithm number as many as the keys of the dependency map;
    /// otherwise the error carries a cycle (empty when the graph has none).
    pub fn topological_sort(&self) -> (r: Result<Vec<TypeNode>, CycleError>)
        ensures
            r is Ok <==> self@.grounded_set().len() == self@.keyed_count(),
            r matches Ok(v) ==> {
                &&& node_views(v@).no_duplicates()
                &&& v.len() == self@.keyed_count()
                &&& forall|x: int|
                    0 <= x < self@.nodes.len() ==> (#[trigger] self@.grounded(x) <==> node_views(
                        v@,
                    ).contains(self@.nodes[x]))
                &&& forall|a: int, b: int|
                    0 <= a < v.len() && 0 <= b < v.len() && #[trigger] self@.depends(v@[a]@, v@[b]@)
                        ==> b < a
            },
            r matches Err(e) ==> self@.is_cycle_report(node_views(e.cycle@)),
    {
        proof {
            use_type_invariant(self);
        }
        let q = self.settle();
        let ghost g = self@;
        proof {
            lemma_grounded_set_len(g, q@);
            lemma_settled_grounded(g, q@);
        }
        let kc = self.keyed_count();
        if q.len() != kc {
            return Err(CycleError::new(self.find_cycle()));
        }
        let mut rev: Vec<usize> = Vec::new();
        let mut p: usize = q.len();
        while p > 0
            invariant
                p <= q.len(),
                rev.len() == q.len() - p,
                forall|k: int| 0 <= k < rev.len() ==> #[trigger] rev@[k] == q@[q.len() - 1 - k],
            decreases p,
        {
            rev.push(q[p - 1]);
            p = p - 1;
        }
        proof {
            assert forall|k: int| 0 <= k < rev.len() implies #[trigger] rev@[k] < g.nodes.len() by {
                assert(rev@[k] == q@[q.len() - 1 - k]);
            }
        }
        let v = self.nodes_at(&rev);
        proof {
            lemma_as_ints(rev@);
            let vs = node_views(v@);
            assert(vs.len() == q.len());
            assert forall|k: int| 0 <= k < vs.len() implies #[trigger] vs[k] == g.nodes[q@[q.len() - 1 - k] as int] by {
                assert(vs[k] == g.views_of(as_ints(rev@))[k]);
            }
            assert forall|a: int, b: int| 0 <= a < vs.len() && 0 <= b < vs.len() && a != b implies vs[a] != vs[b] by {
                let qa = q.len() - 1 - a;
                let qb = q.len() - 1 - b;
                assert(q@[qa] != q@[qb]);
                assert(g.nodes[q@[qa] as int] != g.nodes[q@[qb] as int]);
            }
            assert forall|x: int| 0 <= x < g.nodes.len() implies (#[trigger] g.grounded(x) <==> vs.contains(g.nodes[x])) by {
                if g.grounded(x) {
                    let pq = choose|pq: int| 0 <= pq < q.len() && q@[pq] == x as usize;
                    assert(vs[q.len() - 1 - pq] == g.nodes[x]);
                }
                if vs.contains(g.nodes[x]) {
                    let k = choose|k: int| 0 <= k < vs.len() && vs[k] == g.nodes[x];
                    let pq = q.len() - 1 - k;
                    assert(g.nodes[q@[pq] as int] == g.nodes[x]);
                    assert(q@[pq] as int == x);
                    assert(q@.contains(x as usize));
                }
            }
            assert forall|a: int, b: int|
                0 <= a < v.len() && 0 <= b < v.len() && #[trigger] g.depends(v@[a]@, v@[b]@) implies b < a by {
                let qa = q.len() - 1 - a;
                let qb = q.len() - 1 - b;
                assert(vs[a] == v@[a]@ && vs[b] == v@[b]@);
                lemma_index_of_unique(g.nodes, q@[qa] as int);
                lemma_index_of_unique(g.nodes, q@[qb] as int);
                assert(g.edge(q@[qa] as int, q@[qb] as int));
                let r = choose|r: int| 0 <= r < qb && #[trigger] q@[r] == q@[qa];
                assert(r == qa);
            }
        }
        Ok(v)
    }
}

impl GraphView {
    /// A cycle report: empty exactly when every node is grounded (so the
    /// graph has no cycle), otherwise the nodes of a cycle in order, each
    /// depending on the next and the last on the first.
    pub open spec fn is_cycle_report(self, c: Seq<NodeView>) -> bool {
        &&& (c.len() == 0 <==> forall|x: int| 0 <= x < self.nodes.len() ==> #[trigger] self.grounded(x))
        &&& (c.len() > 0 ==> exists|ci: Seq<int>| #[trigger] self.is_cycle(ci) && c == self.views_of(ci))
    }
}

impl DependencyGraph {
    /// Find a cycle in the graph: walk from an unsettled node to one of its
    /// unsettled dependents until a node repeats.
    #[verifier::spinoff_prover]
    #[verifier::rlimit(40)]
    fn find_cycle(&self) -> (r: Vec<TypeNode>)
        requires
            self.well_formed(),
        ensures
            self@.is_cycle_report(node_views(r@)),
    {
        let ghost g = self@;
        let q = self.settle();
        proof {
            lemma_settled_grounded(g, q@);
        }
        let n = self.nodes.len();
        let in_q = self.settled_flags(&q);
        let mut x: usize = 0;
        while x < n && in_q[x]
            invariant
                n == g.nodes.len(),
                in_q.len() == n,
                x <= n,
                forall|k: int| 0 <= k < x ==> #[trigger] in_q@[k],
            decreases n - x,
        {
            x = x + 1;
        }
        if x == n {
            proof {
                assert forall|k: int| 0 <= k < g.nodes.len() implies #[trigger] g.grounded(k) by {
                    assert(in_q@[k]);
                }
            }
            return Vec::new();
        }
        proof {
            assert forall|k: int| 0 <= k < n && !(#[trigger] in_q@[k]) implies exists|d: int| #[trigger] g.edge(d, k) && !in_q@[d] by {
                assert(!q@.contains(k as usize));
                let d = choose|d: int| #[trigger] g.edge(d, (k as usize) as int) && !q@.contains(d as usize);
                assert(!in_q@[d]);
            }
        }
        let r = self.walk_to_cycle(&in_q, x);
        proof {
            let ci = choose|ci: Seq<int>| #[trigger] g.is_cycle(ci) && node_views(r@) == g.views_of(ci);
            lemma_cycle_not_grounded(g, ci);
        }
        r
    }

    /// Flags marking the nodes of a settling order.
    fn settled_flags(&self, q: &Vec<usize>) -> (in_q: Vec<bool>)
        requires
            self.well_formed(),
            forall|p: int| 0 <= p < q.len() ==> #[trigger] q@[p] < self@.nodes.len(),
        ensures
            in_q.len() == self@.nodes.len(),
            forall|k: int| 0 <= k < self@.nodes.len() ==> (#[trigger] in_q@[k] <==> q@.contains(k as usize)),
    {
        let n = self.nodes.len();
        let mut in_q: Vec<bool> = Vec::new();
        let mut y: usize = 0;
        while y < n
            invariant
                y <= n,
                in_q.len() == y,
                forall|k: int| 0 <= k < y ==> !(#[trigger] in_q@[k]),
            decreases n - y,
        {
            in_q.push(false);
            y = y + 1;
        }
        let mut p: usize = 0;
        while p < q.len()
            invariant
                n == self@.nodes.len(),
                forall|p: int| 0 <= p < q.len() ==> #[trigger] q@[p] < n,
                in_q.len() == n,
                p <= q.len(),
                forall|k: int| 0 <= k < n ==> (#[trigger] in_q@[k] <==> q@.take(p as int).contains(k as usize)),
            decreases q.len() - p,
        {
            let ghost before = in_q@;
            let ghost old_take = q@.take(p as int);
            let ghost new_take = q@.take(p + 1);
            in_q.set(q[p], true);
            proof {
                assert forall|k: int| 0 <= k < n implies (#[trigger] in_q@[k] <==> new_take.contains(k as usize)) by {
                    if new_take.contains(k as usize) {
                        let j = choose|j: int| 0 <= j < new_take.len() && new_take[j] == k as usize;
                        if j < p {
                            assert(old_take[j] == k as usize);
                        }
                    }
                    if in_q@[k] && k != q@[p as int] as int {
                        assert(before[k]);
                        let j = choose|j: int| 0 <= j < old_take.len() && old_take[j] == k as usize;
                        assert(new_take[j] == k as usize);
                    }
                    if k == q@[p as int] as int {
                        assert(new_take[p as int] == k as usize);
                    }
                }
            }
            p = p + 1;
        }
        proof {
            assert(q@.take(q.len() as int) =~= q@);
        }
        in_q
    }

    /// From an unmarked node, step to unmarked dependents until a node
    /// repeats; the repetition closes a cycle.
    fn walk_to_cycle(&self, in_q: &Vec<bool>, x: usize) -> (r: Vec<TypeNode>)
        requires
            self.well_formed(),
            in_q.len() == self@.nodes.len(),
            x < self@.nodes.len(),
            !in_q@[x as int],
            forall|k: int| 0 <= k < self@.nodes.len() && !(#[trigger] in_q@[k]) ==> exists|d: int| #[trigger] self@.edge(d, k) && !in_q@[d],
        ensures
            r.len() > 0,
            exists|ci: Seq<int>| #[trigger] self@.is_cycle(ci) && node_views(r@) == self@.views_of(ci),
    {
        let ghost g = self@;
        let n = self.nodes.len();
        let mut on_path: Vec<bool> = Vec::new();
        let mut y: usize = 0;
        while y < n
            invariant
                y <= n,
                on_path.len() == y,
                forall|k: int| 0 <= k < y ==> !(#[trigger] on_path@[k]),
            decreases n - y,
        {
            on_path.push(false);
            y = y + 1;
        }
        let mut path: Vec<usize> = Vec::new();
        path.push(x);
        on_path.set(x, true);
        let mut cur: usize = x;
        proof {
            assert forall|k: int| 0 <= k < n implies (#[trigger] on_path@[k] <==> path@.contains(k as usize)) by {
                if path@.contains(k as usize) {
                    assert(path@[0] == x);
                }
                if k == x as int {
                    assert(path@[0] == x);
                }
            }
        }
        loop
            invariant
                self.well_formed(),
                g == self@,
                n == g.nodes.len(),
                in_q.len() == n,
                on_path.len() == n,
                forall|k: int| 0 <= k < n && !(#[trigger] in_q@[k]) ==> exists|d: int| #[trigger] g.edge(d, k) && !in_q@[d],
                forall|k: int| 0 <= k < n ==> (#[trigger] on_path@[k] <==> path@.contains(k as usize)),
                path.len() >= 1,
                path.len() <= n,
                path@.no_duplicates(),
                cur == path@.last(),
                forall|k: int| 0 <= k < path.len() ==> #[trigger] path@[k] < n,
                forall|k: int| 0 <= k < path.len() ==> !in_q@[#[trigger] path@[k] as int],
                forall|k: int| 0 <= k < path.len() - 1 ==> #[trigger] g.edge(path@[k + 1] as int, path@[k] as int),
            decreases n - path.len(),
        {
            proof {
                assert(!in_q@[path@[path.len() - 1] as int]);
            }
            let i = self.next_unsettled_dependent(cur, in_q);
            if on_path[i] {
                let mut s: usize = 0;
                while s < path.len() && path[s] != i
                    invariant
                        s <= path.len(),
                        path@.contains(i),
                        forall|k: int| 0 <= k < s ==> #[trigger] path@[k] != i,
                    decreases path.len() - s,
                {
                    s = s + 1;
                }
                return self.cycle_from_path(&path, s);
            }
            let ghost p0 = path@;
            proof {
                lemma_settled_len_partial(p0, n as int, i);
            }
            path.push(i);
            on_path.set(i, true);
            proof {
                lemma_path_push(g, p0, path@, i);
                assert forall|k: int| 0 <= k < n implies (#[trigger] on_path@[k] <==> path@.contains(k as usize)) by {
                    if k != i as int {
                        assert(p0.contains(k as usize) <==> path@.contains(k as usize));
                    }
                }
                assert forall|k: int| 0 <= k < path.len() implies !in_q@[#[trigger] path@[k] as int] by {
                    if k < p0.len() {
                        assert(path@[k] == p0[k]);
                    }
                }
            }
            cur = i;
        }
    }

    /// Some node that depends on `cur` and is not marked settled.
    fn next_unsettled_dependent(&self, cur: usize, in_q: &Vec<bool>) -> (i: usize)
        requires
            self.well_formed(),
            cur < self@.nodes.len(),
            in_q.len() == self@.nodes.len(),
            exists|d: int| #[trigger] self@.edge(d, cur as int) && !in_q@[d],
        ensures
            i < self@.nodes.len(),
            !in_q@[i as int],
            self@.edge(i as int, cur as int),
    {
        let n = self.nodes.len();
        let mut i: usize = 0;
        while i < n
            invariant
                self.well_formed(),
                n == self@.nodes.len(),
                in_q.len() == n,
                cur < n,
                i <= n,
                forall|k: int| 0 <= k < i ==> !(!in_q@[k] && #[trigger] self@.edge(k, cur as int)),
            decreases n - i,
        {
            if !in_q[i] && self.has_edge(i, cur) {
                return i;
            }
            i = i + 1;
        }
        proof {
            let d = choose|d: int| #[trigger] self@.edge(d, cur as int) && !in_q@[d];
        }
        0
    }

    /// The cycle closed by the edge from `path[s]` to the last node of a
    /// path whose each node depends on the one before it, listed so that
    /// each node depends on the next.
    fn cycle_from_path(&self, path: &Vec<usize>, s: usize) -> (r: Vec<TypeNode>)
        requires
            self.well_formed(),
            s < path.len(),
            forall|k: int| 0 <= k < path.len() ==> #[trigger] path@[k] < self@.nodes.len(),
            forall|k: int| 0 <= k < path.len() - 1 ==> #[trigger] self@.edge(path@[k + 1] as int, path@[k] as int),
            self@.edge(path@[s as int] as int, path@.last() as int),
        ensures
            r.len() > 0,
            exists|ci: Seq<int>| #[trigger] self@.is_cycle(ci) && node_views(r@) == self@.views_of(ci),
    {
        let ghost g = self@;
        let mut cyc: Vec<usize> = Vec::new();
        let mut t: usize = path.len();
        while t > s + 1
            invariant
                s < t <= path.len(),
                cyc.len() == path.len() - t,
                forall|k: int| 0 <= k < cyc.len() ==> #[trigger] cyc@[k] == path@[path.len() - 1 - k],
            decreases t,
        {
            cyc.push(path[t - 1]);
            t = t - 1;
        }
        cyc.push(path[s]);
        let ghost ci = as_ints(cyc@);
        proof {
            lemma_as_ints(cyc@);
            let m = path.len() - 1;
            assert(cyc.len() == m - s + 1);
            assert forall|k: int| 0 <= k < cyc.len() implies #[trigger] cyc@[k] == path@[m - k] by {
                if k == cyc.len() - 1 {
                    assert(cyc@[k] == path@[s as int]);
                }
            }
            assert forall|k: int| 0 <= k < ci.len() implies 0 <= #[trigger] ci[k] < g.nodes.len() by {
                assert(cyc@[k] == path@[m - k]);
            }
            assert forall|k: int| 0 <= k < ci.len() - 1 implies #[trigger] g.edge(ci[k], ci[k + 1]) by {
                assert(cyc@[k] == path@[m - k]);
                assert(cyc@[k + 1] == path@[m - k - 1]);
                assert(g.edge(path@[(m - k - 1) + 1] as int, path@[m - k - 1] as int));
            }
            assert(g.is_walk(ci));
            assert(ci.last() == path@[s as int] as int);
            assert(ci[0] == path@[m] as int);
            assert(g.is_cycle(ci));
        }
        proof {
            assert forall|p: int| 0 <= p < cyc.len() implies #[trigger] cyc@[p] < g.nodes.len() by {
                assert(ci[p] == cyc@[p] as int);
            }
        }
        let r = self.nodes_at(&cyc);
        assert(node_views(r@).len() == r@.len());
        r
    }
}

/// Extending a duplicate-free path of dependents by a new dependent of its
/// last node.
proof fn lemma_path_push(g: GraphView, p0: Seq<usize>, p1: Seq<usize>, i: usize)
    requires
        p0.len() >= 1,
        p0.no_duplicates(),
        !p0.contains(i),
        p1 == p0.push(i),
        g.edge(i as int, p0.last() as int),
        forall|k: int| 0 <= k < p0.len() - 1 ==> #[trigger] g.edge(p0[k + 1] as int, p0[k] as int),
    ensures
        p1.no_duplicates(),
        p1.contains(i),
        forall|v: usize| v != i ==> (p0.contains(v) <==> #[trigger] p1.contains(v)),
        forall|k: int| 0 <= k < p1.len() - 1 ==> #[trigger] g.edge(p1[k + 1] as int, p1[k] as int),
{
    assert forall|a: int, b: int| 0 <= a < p1.len() && 0 <= b < p1.len() && a != b implies p1[a] != p1[b] by {
        if a < p0.len() && b < p0.len() {
            assert(p0[a] != p0[b]);
        } else if a < p0.len() {
            assert(p0.contains(p0[a]));
        } else {
            assert(p0.contains(p0[b]));
        }
    }
    assert(p1[p0.len() as int] == i);
    assert forall|v: usize| v != i implies (p0.contains(v) <==> #[trigger] p1.contains(v)) by {
        if p1.contains(v) {
            let j = choose|j: int| 0 <= j < p1.len() && p1[j] == v;
            assert(p0[j] == v);
        }
        if p0.contains(v) {
            let j = choose|j: int| 0 <= j < p0.len() && p0[j] == v;
            assert(p1[j] == v);
        }
    }
    assert forall|k: int| 0 <= k < p1.len() - 1 implies #[trigger] g.edge(p1[k + 1] as int, p1[k] as int) by {
        if k < p0.len() - 1 {
            assert(p1[k + 1] == p0[k + 1] && p1[k] == p0[k]);
        } else {
            assert(p1[k] == p0.last());
        }
    }
}

/// Every node of a cycle ends walks of any length.
proof fn lemma_cycle_walks(g: GraphView, c: Seq<int>, len: nat)
    requires
        g.is_cycle(c),
    ensures
        forall|k: int| 0 <= k < c.len() ==> #[trigger] g.walk_into(c[k], len),
    decreases len,
{
    if len == 0 {
        assert forall|k: int| 0 <= k < c.len() implies #[trigger] g.walk_into(c[k], len) by {
            let w = seq![c[k]];
            assert(g.is_walk(w));
        }
    } else {
        lemma_cycle_walks(g, c, (len - 1) as nat);
        assert forall|k: int| 0 <= k < c.len() implies #[trigger] g.walk_into(c[k], len) by {
            let pred = if k == 0 { c.len() - 1 } else { k - 1 };
            assert(g.walk_into(c[pred], (len - 1) as nat));
            let w = choose|w: Seq<int>| #[trigger] g.is_walk(w) && w.len() == (len - 1) as nat + 1 && w.last() == c[pred];
            if k > 0 {
                assert(g.edge(c[k - 1], c[(k - 1) + 1]));
            }
            lemma_walk_push(g, w, c[k]);
        }
    }
}

/// The nodes of a cycle are not grounded.
pub proof fn lemma_cycle_not_grounded(g: GraphView, c: Seq<int>)
    requires
        g.is_cycle(c),
    ensures
        !g.grounded(c[0]),
{
    lemma_cycle_walks(g, c, g.size());
}

impl DependencyGraph {
    /// The direct dependencies of a node: `None` when the node has no entry
    /// in the dependency map.
    pub fn dependencies_of(&self, node: &TypeNode) -> (r: Option<Vec<TypeNode>>)
        ensures
            match r {
                Some(v) => self@.nodes.contains(node@) && self@.keyed[self@.nodes.index_of(node@)]
                    && node_views(v@) == self@.dependency_views(self@.nodes.index_of(node@)),
                None => !(self@.nodes.contains(node@) && self@.keyed[self@.nodes.index_of(node@)]),
            },
            forall|y: NodeView|
                (r matches Some(v) && node_views(v@).contains(y)) <==> #[trigger] listed_dependency(
                    self@,
                    node@,
                    y,
                ),
    {
        proof {
            use_type_invariant(self);
        }
        match self.find(node) {
            Some(i) => {
                if self.keyed[i] {
                    let ghost g = self@;
                    proof {
                        assert forall|p: int| 0 <= p < self.deps[i as int].len() implies #[trigger] self.deps[i as int]@[p] < g.nodes.len() by {
                            assert(g.deps[i as int][p] == self.deps[i as int]@[p]);
                        }
                    }
                    let v = self.nodes_at(&self.deps[i]);
                    proof {
                        lemma_as_ints(self.deps[i as int]@);
                        assert(g.views_of(as_ints(self.deps[i as int]@)) =~= g.dependency_views(i as int));
                    }
                    Some(v)
                } else {
                    None
                }
            },
            None => None,
        }
    }

    /// The nodes that depend on a node: `None` when the node has no entry in
    /// the dependents map.
    pub fn dependents_of(&self, node: &TypeNode) -> (r: Option<Vec<TypeNode>>)
        ensures
            match r {
                Some(v) => self@.nodes.contains(node@) && self@.targeted[self@.nodes.index_of(node@)]
                    && node_views(v@).no_duplicates()
                    && node_views(v@).to_set() == self@.dependent_set(self@.nodes.index_of(node@)),
                None => !(self@.nodes.contains(node@) && self@.targeted[self@.nodes.index_of(node@)]),
            },
            forall|x: NodeView|
                (r matches Some(v) && node_views(v@).contains(x)) <==> #[trigger] listed_dependent(
                    self@,
                    node@,
                    x,
                ),
    {
        proof {
            use_type_invariant(self);
        }
        match self.find(node) {
            Some(j) => {
                if self.targeted[j] {
                    let ghost g = self@;
                    let n = self.nodes.len();
                    let mut idx: Vec<usize> = Vec::new();
                    let mut i: usize = 0;
                    while i < n
                        invariant
                            self.well_formed(),
                            g == self@,
                            n == g.nodes.len(),
                            j < n,
                            i <= n,
                            forall|p: int| 0 <= p < idx.len() ==> #[trigger] idx@[p] < i,
                            forall|a: int, b: int| 0 <= a < b < idx.len() ==> idx@[a] < idx@[b],
                            forall|k: int| 0 <= k < i ==> (#[trigger] g.edge(k, j as int) <==> idx@.contains(k as usize)),
                        decreases n - i,
                    {
                        if self.has_edge(i, j) {
                            let ghost i0 = idx@;
                            idx.push(i);
                            proof {
                                assert forall|k: int| 0 <= k < i + 1 implies (#[trigger] g.edge(k, j as int) <==> idx@.contains(k as usize)) by {
                                    if k < i {
                                        if i0.contains(k as usize) {
                                            let p = choose|p: int| 0 <= p < i0.len() && i0[p] == k as usize;
                                            assert(idx@[p] == k as usize);
                                        }
                                        if idx@.contains(k as usize) {
                                            let p = choose|p: int| 0 <= p < idx@.len() && idx@[p] == k as usize;
                                            if p < i0.len() {
                                                assert(i0[p] == k as usize);
                                            }
                                        }
                                    } else {
                                        assert(idx@[i0.len() as int] == i);
                                    }
                                }
                            }
                        } else {
                            proof {
                                assert forall|k: int| 0 <= k < i + 1 implies (#[trigger] g.edge(k, j as int) <==> idx@.contains(k as usize)) by {
                                    if k == i as int && idx@.contains(k as usize) {
                                        let p = choose|p: int| 0 <= p < idx@.len() && idx@[p] == k as usize;
                                    }
                                }
                            }
                        }
                        i = i + 1;
                    }
                    let v = self.nodes_at(&idx);
                    proof {
                        lemma_as_ints(idx@);
                        let vs = node_views(v@);
                        assert(vs == g.views_of(as_ints(idx@)));
                        assert forall|a: int, b: int| 0 <= a < vs.len() && 0 <= b < vs.len() && a != b implies vs[a] != vs[b] by {
                            if a < b {
                                assert(idx@[a] < idx@[b]);
                            } else {
                                assert(idx@[b] < idx@[a]);
                            }
                            assert(vs[a] == g.nodes[idx@[a] as int]);
                            assert(vs[b] == g.nodes[idx@[b] as int]);
                        }
                        assert forall|w: NodeView| #[trigger] vs.to_set().contains(w) <==> g.dependent_set(j as int).contains(w) by {
                            if vs.contains(w) {
                                let p = choose|p: int| 0 <= p < vs.len() && vs[p] == w;
                                assert(vs[p] == g.nodes[idx@[p] as int]);
                                assert(idx@.contains(idx@[p]));
                                assert(g.edge(idx@[p] as int, j as int));
                            }
                            if g.dependent_set(j as int).contains(w) {
                                let k = choose|k: int| 0 <= k < g.nodes.len() && #[trigger] g.nodes[k] == w && g.edge(k, j as int);
                                let p = choose|p: int| 0 <= p < idx@.len() && idx@[p] == k as usize;
                                assert(vs[p] == g.nodes[k]);
                            }
                        }
                        assert(vs.to_set() =~= g.dependent_set(j as int));
                    }
                    Some(v)
                } else {
                    None
                }
            },
            None => None,
        }
    }
}

/// A set of nodes holding the direct dependencies of `s` and closed under
/// dependency holds everything `s` reaches.
proof fn lemma_closed_reach(g: GraphView, s: int, res: Seq<usize>, b: int)
    requires
        g.wf(),
        forall|d: int| #[trigger] g.edge(s, d) ==> res.contains(d as usize),
        forall|p: int, d: int| 0 <= p < res.len() && #[trigger] g.edge(res[p] as int, d) ==> res.contains(d as usize),
        g.reaches(s, b),
    ensures
        res.contains(b as usize),
{
    let w = choose|w: Seq<int>| #[trigger] g.is_walk(w) && w.len() >= 2 && w[0] == s && w.last() == b;
    assert forall|k: int| 1 <= k < w.len() implies res.contains(#[trigger] w[k] as usize) by {
        lemma_walk_in_closed(g, s, res, w, k);
    }
    assert(res.contains(w[w.len() - 1] as usize));
}

proof fn lemma_walk_in_closed(g: GraphView, s: int, res: Seq<usize>, w: Seq<int>, k: int)
    requires
        g.wf(),
        forall|d: int| #[trigger] g.edge(s, d) ==> res.contains(d as usize),
        forall|p: int, d: int| 0 <= p < res.len() && #[trigger] g.edge(res[p] as int, d) ==> res.contains(d as usize),
        g.is_walk(w),
        w.len() >= 2,
        w[0] == s,
        1 <= k < w.len(),
    ensures
        res.contains(w[k] as usize),
    decreases k,
{
    assert(g.edge(w[k - 1], w[(k - 1) + 1]));
    if k == 1 {
        assert(g.edge(s, w[1]));
    } else {
        lemma_walk_in_closed(g, s, res, w, k - 1);
        let p = choose|p: int| 0 <= p < res.len() && res[p] == w[k - 1] as usize;
        assert(res[p] as int == w[k - 1]);
        assert(g.edge(res[p] as int, w[k]));
    }
}

impl DependencyGraph {
    /// Every node reachable from `node` along one or more dependency edges.
    pub fn transitive_dependencies(&self, node: &TypeNode) -> (r: Vec<TypeNode>)
        ensures
            node_views(r@).no_duplicates(),
            forall|v: NodeView|
                #[trigger] node_views(r@).contains(v) <==> (self@.nodes.contains(node@) && exists|k: int|
                    0 <= k < self@.nodes.len() && self@.nodes[k] == v && #[trigger] self@.reaches(
                        self@.nodes.index_of(node@),
                        k,
                    )),
    {
        proof {
            use_type_invariant(self);
        }
        match self.find(node) {
            None => {
                let r: Vec<TypeNode> = Vec::new();
                assert(node_views(r@) =~= Seq::<NodeView>::empty());
                r
            },
            Some(s) => {
                let ghost g = self@;
                let res = self.reachable_from(s);
                let r = self.nodes_at(&res);
                proof {
                    lemma_as_ints(res@);
                    let vs = node_views(r@);
                    assert(vs == g.views_of(as_ints(res@)));
                    assert forall|a: int, b: int| 0 <= a < vs.len() && 0 <= b < vs.len() && a != b implies vs[a] != vs[b] by {
                        assert(res@[a] != res@[b]);
                        assert(vs[a] == g.nodes[res@[a] as int]);
                        assert(vs[b] == g.nodes[res@[b] as int]);
                    }
                    assert forall|v: NodeView| #[trigger] vs.contains(v) <==> (g.nodes.contains(node@) && exists|k: int|
                        0 <= k < g.nodes.len() && g.nodes[k] == v && #[trigger] g.reaches(g.nodes.index_of(node@), k)) by {
                        if vs.contains(v) {
                            let p = choose|p: int| 0 <= p < vs.len() && vs[p] == v;
                            assert(vs[p] == g.nodes[res@[p] as int]);
                            let k = res@[p] as int;
                            assert(res@.contains(k as usize));
                            assert(g.reaches(s as int, k));
                        }
                        if g.nodes.contains(node@) && exists|k: int|
                            0 <= k < g.nodes.len() && g.nodes[k] == v && #[trigger] g.reaches(g.nodes.index_of(node@), k) {
                            let k = choose|k: int| 0 <= k < g.nodes.len() && g.nodes[k] == v && #[trigger] g.reaches(g.nodes.index_of(node@), k);
                            assert(res@.contains(k as usize));
                            let p = choose|p: int| 0 <= p < res@.len() && res@[p] == k as usize;
                            assert(vs[p] == g.nodes[k]);
                        }
                    }
                }
                r
            },
        }
    }

    /// The indices reachable from node `s` along one or more edges, in
    /// breadth-first order.
    fn reachable_from(&self, s: usize) -> (res: Vec<usize>)
        requires
            self.well_formed(),
            s < self@.nodes.len(),
        ensures
            res@.no_duplicates(),
            forall|p: int| 0 <= p < res.len() ==> #[trigger] res@[p] < self@.nodes.len(),
            forall|k: int| 0 <= k < self@.nodes.len() ==> (#[trigger] res@.contains(k as usize) <==> self@.reaches(s as int, k)),
    {
        let ghost g = self@;
        let n = self.nodes.len();
        let mut in_res: Vec<bool> = Vec::new();
        let mut y: usize = 0;
        while y < n
            invariant
                y <= n,
                in_res.len() == y,
                forall|k: int| 0 <= k < y ==> !(#[trigger] in_res@[k]),
            decreases n - y,
        {
            in_res.push(false);
            y = y + 1;
        }
        let mut res: Vec<usize> = Vec::new();
        self.push_successors(s, s, &mut res, &mut in_res);
        let mut head: usize = 0;
        while head < res.len()
            invariant
                self.well_formed(),
                g == self@,
                n == g.nodes.len(),
                s < n,
                in_res.len() == n,
                head <= res.len(),
                res.len() <= n,
                res@.no_duplicates(),
                forall|p: int| 0 <= p < res.len() ==> #[trigger] res@[p] < n,
                forall|k: int| 0 <= k < n ==> (#[trigger] in_res@[k] <==> res@.contains(k as usize)),
                forall|p: int| 0 <= p < res.len() ==> g.reaches(s as int, #[trigger] res@[p] as int),
                forall|d: int| #[trigger] g.edge(s as int, d) ==> res@.contains(d as usize),
                forall|p: int, d: int| 0 <= p < head && #[trigger] g.edge(res@[p] as int, d) ==> res@.contains(d as usize),
            decreases n - head,
        {
            let y = res[head];
            let ghost r0 = res@;
            self.push_successors(s, y, &mut res, &mut in_res);
            proof {
                assert forall|p: int, d: int| 0 <= p < head + 1 && #[trigger] g.edge(res@[p] as int, d) implies res@.contains(d as usize) by {
                    assert(res@[p] == r0[p]);
                    if p < head {
                        assert(r0.contains(d as usize));
                        let q = choose|q: int| 0 <= q < r0.len() && r0[q] == d as usize;
                        assert(res@[q] == d as usize);
                    }
                }
                assert forall|d: int| #[trigger] g.edge(s as int, d) implies res@.contains(d as usize) by {
                    assert(r0.contains(d as usize));
                    let q = choose|q: int| 0 <= q < r0.len() && r0[q] == d as usize;
                    assert(res@[q] == d as usize);
                }
            }
            head = head + 1;
        }
        proof {
            assert forall|k: int| 0 <= k < n implies (#[trigger] res@.contains(k as usize) <==> g.reaches(s as int, k)) by {
                if g.reaches(s as int, k) {
                    lemma_closed_reach(g, s as int, res@, k);
                }
                if res@.contains(k as usize) {
                    let p = choose|p: int| 0 <= p < res@.len() && res@[p] == k as usize;
                    assert(g.reaches(s as int, res@[p] as int));
                }
            }
        }
        res
    }

    /// Append to `res` every dependency of node `y` not yet in it.
    fn push_successors(&self, s: usize, y: usize, res: &mut Vec<usize>, in_res: &mut Vec<bool>)
        requires
            self.well_formed(),
            s < self@.nodes.len(),
            y < self@.nodes.len(),
            y == s || old(res)@.contains(y),
            old(in_res).len() == self@.nodes.len(),
            old(res).len() <= self@.nodes.len(),
            old(res)@.no_duplicates(),
            forall|p: int| 0 <= p < old(res).len() ==> #[trigger] old(res)@[p] < self@.nodes.len(),
            forall|k: int| 0 <= k < self@.nodes.len() ==> (#[trigger] old(in_res)@[k] <==> old(res)@.contains(k as usize)),
            forall|p: int| 0 <= p < old(res).len() ==> self@.reaches(s as int, #[trigger] old(res)@[p] as int),
        ensures
            final(in_res).len() == self@.nodes.len(),
            final(res).len() <= self@.nodes.len(),
            final(res)@.no_duplicates(),
            old(res)@.len() <= final(res)@.len(),
            final(res)@.take(old(res)@.len() as int) == old(res)@,
            forall|p: int| 0 <= p < final(res).len() ==> #[trigger] final(res)@[p] < self@.nodes.len(),
            forall|k: int| 0 <= k < self@.nodes.len() ==> (#[trigger] final(in_res)@[k] <==> final(res)@.contains(k as usize)),
            forall|p: int| 0 <= p < final(res).len() ==> self@.reaches(s as int, #[trigger] final(res)@[p] as int),
            forall|d: int| #[trigger] self@.edge(y as int, d) ==> final(res)@.contains(d as usize),
    {
        let ghost g = self@;
        let ghost r_start = res@;
        let n = self.nodes.len();
        let ghost wy: Seq<int> = if y == s {
            seq![s as int]
        } else {
            choose|w: Seq<int>| #[trigger] g.is_walk(w) && w.len() >= 2 && w[0] == s as int && w.last() == y as int
        };
        proof {
            if y != s {
                let p = choose|p: int| 0 <= p < r_start.len() && r_start[p] == y;
                assert(g.reaches(s as int, r_start[p] as int));
            } else {
                assert(g.is_walk(wy));
            }
        }
        let mut k: usize = 0;
        while k < self.deps[y].len()
            invariant
                self.well_formed(),
                g == self@,
                n == g.nodes.len(),
                s < n,
                y < n,
                g.is_walk(wy),
                wy.len() >= 1,
                wy[0] == s as int,
                wy.last() == y as int,
                in_res.len() == n,
                res.len() <= n,
                res@.no_duplicates(),
                r_start.len() <= res@.len(),
                res@.take(r_start.len() as int) == r_start,
                forall|p: int| 0 <= p < res.len() ==> #[trigger] res@[p] < n,
                forall|k: int| 0 <= k < n ==> (#[trigger] in_res@[k] <==> res@.contains(k as usize)),
                forall|p: int| 0 <= p < res.len() ==> g.reaches(s as int, #[trigger] res@[p] as int),
                k <= self.deps[y as int].len(),
                forall|m: int| 0 <= m < k ==> res@.contains(#[trigger] self.deps[y as int]@[m]),
            decreases self.deps[y as int].len() - k,
        {
            let d = self.deps[y][k];
            assert(g.deps[y as int][k as int] == d);
            if !in_res[d] {
                let ghost r0 = res@;
                proof {
                    lemma_settled_len_partial(r0, n as int, d);
                }
                res.push(d);
                in_res.set(d, true);
                proof {
                    assert forall|a: int, b: int| 0 <= a < res@.len() && 0 <= b < res@.len() && a != b implies res@[a] != res@[b] by {
                        if a < r0.len() && b < r0.len() {
                            assert(r0[a] != r0[b]);
                        } else if a < r0.len() {
                            assert(r0.contains(r0[a]));
                        } else {
                            assert(r0.contains(r0[b]));
                        }
                    }
                    assert forall|v: usize| v != d implies (r0.contains(v) <==> #[trigger] res@.contains(v)) by {
                        if res@.contains(v) {
                            let j = choose|j: int| 0 <= j < res@.len() && res@[j] == v;
                            assert(r0[j] == v);
                        }
                        if r0.contains(v) {
                            let j = choose|j: int| 0 <= j < r0.len() && r0[j] == v;
                            assert(res@[j] == v);
                        }
                    }
                    assert(res@[r0.len() as int] == d);
                    assert forall|kk: int| 0 <= kk < n implies (#[trigger] in_res@[kk] <==> res@.contains(kk as usize)) by {
                        if kk != d as int {
                            assert(r0.contains(kk as usize) <==> res@.contains(kk as usize));
                        }
                    }
                    assert(res@.take(r_start.len() as int) =~= r0.take(r_start.len() as int));
                    assert(g.edge(y as int, d as int));
                    lemma_walk_push(g, wy, d as int);
                    let w2 = wy.push(d as int);
                    assert(g.reaches(s as int, d as int)) by {
                        assert(g.is_walk(w2) && w2.len() >= 2 && w2[0] == s as int && w2.last() == d as int);
                    }
                    assert forall|p: int| 0 <= p < res.len() implies g.reaches(s as int, #[trigger] res@[p] as int) by {
                        if p < r0.len() {
                            assert(res@[p] == r0[p]);
                        }
                    }
                    assert forall|m: int| 0 <= m < k + 1 implies res@.contains(#[trigger] self.deps[y as int]@[m]) by {
                        if m < k {
                            assert(r0.contains(self.deps[y as int]@[m]));
                        }
                    }
                }
            } else {
                proof {
                    assert(res@.contains(d));
                }
            }
            k = k + 1;
        }
        proof {
            assert forall|dd: int| #[trigger] g.edge(y as int, dd) implies res@.contains(dd as usize) by {
                let m = choose|m: int| 0 <= m < g.deps[y as int].len() && g.deps[y as int][m] == dd as usize;
                assert(self.deps[y as int]@[m] == dd as usize);
            }
        }
    }

    /// Whether `to` is reachable from `from` along one or more dependency
    /// edges.
    pub fn has_path(&self, from: &TypeNode, to: &TypeNode) -> (r: bool)
        ensures
            r == path_between(self@, from@, to@),
    {
        proof {
            use_type_invariant(self);
        }
        let ghost g = self@;
        let t = self.transitive_dependencies(from);
        let mut found = false;
        let mut i: usize = 0;
        while i < t.len()
            invariant
                i <= t.len(),
                found == exists|k: int| 0 <= k < i && #[trigger] t@[k]@ == to@,
            decreases t.len() - i,
        {
            if t[i].same_as(to) {
                found = true;
            }
            i = i + 1;
        }
        proof {
            assert(found == node_views(t@).contains(to@)) by {
                if found {
                    let k = choose|k: int| 0 <= k < t.len() && #[trigger] t@[k]@ == to@;
                    assert(node_views(t@)[k] == to@);
                }
                if node_views(t@).contains(to@) {
                    let p = choose|p: int| 0 <= p < node_views(t@).len() && node_views(t@)[p] == to@;
                    assert(t@[p]@ == to@);
                }
            }
            if found {
                let k = choose|k: int| 0 <= k < g.nodes.len() && g.nodes[k] == to@ && #[trigger] g.reaches(g.nodes.index_of(from@), k);
                lemma_index_of_unique(g.nodes, k);
            }
            if g.nodes.contains(from@) && g.nodes.contains(to@) && g.reaches(g.nodes.index_of(from@), g.nodes.index_of(to@)) {
                let k = g.nodes.index_of(to@);
                assert(0 <= k < g.nodes.len() && g.nodes[k] == to@);
            }
        }
        found
    }
}

// ---------------------------------------------------------------------------
// Laws
// ---------------------------------------------------------------------------

proof fn lemma_keyed_count_all(g: GraphView, n: int)
    requires
        0 <= n <= g.keyed.len(),
        forall|k: int| 0 <= k < g.keyed.len() ==> #[trigger] g.keyed[k],
    ensures
        g.keyed_count_upto(n) == n,
    decreases n,
{
    if n > 0 {
        lemma_keyed_count_all(g, n - 1);
    }
}

/// A node that is not grounded lies downstream of a cycle, so the graph has
/// a cycle.
proof fn lemma_ungrounded_cycle(g: GraphView, x: int)
    requires
        g.wf(),
        0 <= x < g.nodes.len(),
        !g.grounded(x),
    ensures
        exists|c: Seq<int>| #[trigger] g.is_cycle(c),
{
    let w = choose|w: Seq<int>| #[trigger] g.is_walk(w) && w.len() == g.size() + 1 && w.last() == x;
    if w.no_duplicates() {
        lemma_distinct_bounded(w, g.nodes.len() as int);
    }
    let (a, b) = choose|a: int, b: int| 0 <= a < w.len() && 0 <= b < w.len() && a != b && w[a] == w[b];
    let (lo, hi) = if a < b { (a, b) } else { (b, a) };
    let c = w.subrange(lo, hi);
    assert forall|m: int| 0 <= m < c.len() - 1 implies #[trigger] g.edge(c[m], c[m + 1]) by {
        assert(g.edge(w[lo + m], w[lo + m + 1]));
    }
    assert(g.edge(w[hi - 1], w[(hi - 1) + 1]));
    assert(g.is_cycle(c));
}

/// For a graph whose nodes all have entries in the dependency map (every
/// node was added, or has dependencies of its own), the topological sort
/// succeeds exactly when the graph has no cycle.
pub proof fn law_sort_succeeds_iff_acyclic(g: GraphView)
    requires
        g.wf(),
        forall|k: int| 0 <= k < g.nodes.len() ==> #[trigger] g.keyed[k],
    ensures
        g.grounded_set().finite(),
        (g.grounded_set().len() == g.keyed_count()) <==> !exists|c: Seq<int>| #[trigger] g.is_cycle(c),
{
    let n = g.nodes.len() as int;
    lemma_keyed_count_all(g, n);
    let range = vstd::set_lib::set_int_range(0, n);
    vstd::set_lib::lemma_int_range(0, n);
    assert(g.grounded_set().subset_of(range));
    vstd::set_lib::lemma_len_subset(g.grounded_set(), range);
    if exists|c: Seq<int>| #[trigger] g.is_cycle(c) {
        let c = choose|c: Seq<int>| #[trigger] g.is_cycle(c);
        lemma_cycle_not_grounded(g, c);
        if g.grounded_set().len() == g.keyed_count() {
            vstd::set_lib::lemma_subset_equality(g.grounded_set(), range);
            assert(range.contains(c[0]));
        }
    } else {
        assert forall|x: int| #[trigger] range.contains(x) implies g.grounded_set().contains(x) by {
            if !g.grounded(x) {
                lemma_ungrounded_cycle(g, x);
            }
        }
        assert(g.grounded_set() =~= range);
    }
}

/// After `add_dependency(f, t)`, `t` is reachable from `f`.
pub proof fn law_dependency_reaches(g: GraphView, f: NodeView, t: NodeView)
    requires
        g.wf(),
    ensures
        g.after_add_dependency(f, t).reaches(
            g.after_add_dependency(f, t).nodes.index_of(f),
            g.after_add_dependency(f, t).nodes.index_of(t),
        ),
{
    let g2 = g.with_node(f).with_node(t);
    let h = g.after_add_dependency(f, t);
    assert(g2.nodes.contains(f)) by {
        if !g.nodes.contains(f) {
            assert(g.with_node(f).nodes[g.nodes.len() as int] == f);
        }
        let g1 = g.with_node(f);
        assert(g1.nodes.contains(f));
        if !g1.nodes.contains(t) {
            let k = choose|k: int| 0 <= k < g1.nodes.len() && g1.nodes[k] == f;
            assert(g2.nodes[k] == f);
        }
    }
    assert(g2.nodes.contains(t)) by {
        let g1 = g.with_node(f);
        if !g1.nodes.contains(t) {
            assert(g2.nodes[g1.nodes.len() as int] == t);
        }
    }
    let i = g2.nodes.index_of(f);
    let j = g2.nodes.index_of(t);
    assert(h.deps[i].contains(j as usize)) by {
        if !g2.deps[i].contains(j as usize) {
            assert(h.deps[i] == g2.deps[i].push(j as usize));
            assert(h.deps[i][g2.deps[i].len() as int] == j as usize);
        }
    }
    let w = seq![i, j];
    assert(h.edge(i, j));
    assert(h.is_walk(w));
}

/// Reachability along dependency edges is transitive.
pub proof fn law_reaches_transitive(g: GraphView, a: int, b: int, c: int)
    requires
        g.reaches(a, b),
        g.reaches(b, c),
    ensures
        g.reaches(a, c),
{
    let w1 = choose|w: Seq<int>| #[trigger] g.is_walk(w) && w.len() >= 2 && w[0] == a && w.last() == b;
    let w2 = choose|w: Seq<int>| #[trigger] g.is_walk(w) && w.len() >= 2 && w[0] == b && w.last() == c;
    let w = w1 + w2.skip(1);
    assert forall|m: int| 0 <= m < w.len() implies 0 <= #[trigger] w[m] < g.nodes.len() by {
        if m >= w1.len() {
            assert(w[m] == w2[m - w1.len() + 1]);
        }
    }
    assert forall|m: int| 0 <= m < w.len() - 1 implies #[trigger] g.edge(w[m], w[m + 1]) by {
        if m < w1.len() - 1 {
            assert(w[m] == w1[m] && w[m + 1] == w1[m + 1]);
        } else if m == w1.len() - 1 {
            assert(w[m] == w1.last());
            assert(w[m + 1] == w2[1]);
            assert(g.edge(w2[0], w2[1int]));
        } else {
            let k = m - w1.len() + 1;
            assert(w[m] == w2[k] && w[m + 1] == w2[k + 1]);
        }
    }
    assert(w.last() == c);
    assert(g.is_walk(w));
}

/// Both nodes are in the graph and a walk of at least one dependency edge
/// leads from `a` to `b` (what `has_path(a, b)` reports).
pub open spec fn path_between(g: GraphView, a: NodeView, b: NodeView) -> bool {
    &&& g.nodes.contains(a)
    &&& g.nodes.contains(b)
    &&& g.reaches(g.nodes.index_of(a), g.nodes.index_of(b))
}

/// `v` is among the direct dependencies of `u`, as `dependencies_of(u)`
/// reports them.
pub open spec fn listed_dependency(g: GraphView, u: NodeView, v: NodeView) -> bool {
    &&& g.nodes.contains(u)
    &&& g.keyed[g.nodes.index_of(u)]
    &&& g.dependency_views(g.nodes.index_of(u)).contains(v)
}

/// `u` is among the dependents of `v`, as `dependents_of(v)` reports them.
pub open spec fn listed_dependent(g: GraphView, v: NodeView, u: NodeView) -> bool {
    &&& g.nodes.contains(v)
    &&& g.targeted[g.nodes.index_of(v)]
    &&& g.dependent_set(g.nodes.index_of(v)).contains(u)
}

/// A listed dependency is exactly an edge between two nodes.
proof fn lemma_listed_dependency_edge(g: GraphView, u: NodeView, v: NodeView)
    requires
        g.wf(),
        g.edges_marked(),
    ensures
        listed_dependency(g, u, v) <==> (g.nodes.contains(u) && g.nodes.contains(v) && g.edge(
            g.nodes.index_of(u),
            g.nodes.index_of(v),
        )),
{
    if g.nodes.contains(u) {
        let i = g.nodes.index_of(u);
        if g.nodes.contains(v) && g.edge(i, g.nodes.index_of(v)) {
            let j = g.nodes.index_of(v);
            let k = choose|k: int| 0 <= k < g.deps[i].len() && g.deps[i][k] == j as usize;
            assert(g.dependency_views(i)[k] == v);
        }
        if g.keyed[i] && g.dependency_views(i).contains(v) {
            let k = choose|k: int| 0 <= k < g.dependency_views(i).len() && g.dependency_views(i)[k] == v;
            let j = g.deps[i][k] as int;
            assert(g.nodes[j] == v);
            lemma_index_of_unique(g.nodes, j);
            assert(g.deps[i].contains(j as usize));
        }
    }
}

/// The dependents map is the inverse of the dependency map: in every graph
/// built from `new()` by `add_node` and `add_dependency` calls (all of which
/// keep `well_formed`), `dependents_of(y)` lists `x` exactly when
/// `dependencies_of(x)` lists `y`.
pub proof fn law_dependents_inverse(g: DependencyGraph, x: NodeView, y: NodeView)
    requires
        g.well_formed(),
    ensures
        listed_dependent(g@, y, x) <==> listed_dependency(g@, x, y),
{
    let h = g@;
    lemma_listed_dependency_edge(h, x, y);
    if h.nodes.contains(y) && h.nodes.contains(x) {
        let i = h.nodes.index_of(x);
        let j = h.nodes.index_of(y);
        if h.targeted[j] && h.dependent_set(j).contains(x) {
            let k = choose|k: int| 0 <= k < h.nodes.len() && #[trigger] h.nodes[k] == x && h.edge(k, j);
            lemma_index_of_unique(h.nodes, k);
        }
        if h.edge(i, j) {
            assert(h.nodes[i] == x);
            assert(h.dependent_set(j).contains(x));
        }
    } else if h.nodes.contains(y) && h.dependent_set(h.nodes.index_of(y)).contains(x) {
        let k = choose|k: int| 0 <= k < h.nodes.len() && #[trigger] h.nodes[k] == x && h.edge(k, h.nodes.index_of(y));
        assert(h.nodes.contains(x));
    }
}

/// `c` is a chain of at least one step, each node listed among the
/// dependencies of the one before.
pub open spec fn dependency_chain(g: GraphView, c: Seq<NodeView>) -> bool {
    &&& c.len() >= 2
    &&& forall|m: int| 0 <= m < c.len() - 1 ==> #[trigger] listed_dependency(g, c[m], c[m + 1])
}

/// `has_path(from, to)` holds exactly when a chain `from = x0, .., xk = to`
/// with `k >= 1` leads along dependencies, each `x(i+1)` listed by
/// `dependencies_of(xi)`.
pub proof fn law_path_is_dependency_chain(g: DependencyGraph, from: NodeView, to: NodeView)
    requires
        g.well_formed(),
    ensures
        path_between(g@, from, to) <==> exists|c: Seq<NodeView>|
            #[trigger] dependency_chain(g@, c) && c[0] == from && c.last() == to,
{
    let h = g@;
    if h.nodes.contains(from) && h.nodes.contains(to) && h.reaches(h.nodes.index_of(from), h.nodes.index_of(to)) {
        let w = choose|w: Seq<int>| #[trigger] h.is_walk(w) && w.len() >= 2 && w[0] == h.nodes.index_of(from)
            && w.last() == h.nodes.index_of(to);
        let c = w.map_values(|k: int| h.nodes[k]);
        assert forall|m: int| 0 <= m < c.len() - 1 implies #[trigger] listed_dependency(h, c[m], c[m + 1]) by {
            assert(h.edge(w[m], w[m + 1]));
            lemma_index_of_unique(h.nodes, w[m]);
            lemma_index_of_unique(h.nodes, w[m + 1]);
            lemma_listed_dependency_edge(h, c[m], c[m + 1]);
        }
        assert(dependency_chain(h, c));
        assert(c[0] == from);
        assert(c.last() == to);
    }
    if exists|c: Seq<NodeView>| #[trigger] dependency_chain(h, c) && c[0] == from && c.last() == to {
        let c = choose|c: Seq<NodeView>| #[trigger] dependency_chain(h, c) && c[0] == from && c.last() == to;
        assert forall|m: int| 0 <= m < c.len() implies h.nodes.contains(#[trigger] c[m]) by {
            if m < c.len() - 1 {
                assert(listed_dependency(h, c[m], c[m + 1]));
            } else {
                let p = m - 1;
                assert(listed_dependency(h, c[p], c[p + 1]));
                lemma_listed_dependency_edge(h, c[p], c[p + 1]);
            }
        }
        let w = c.map_values(|v: NodeView| h.nodes.index_of(v));
        assert forall|m: int| 0 <= m < w.len() implies 0 <= #[trigger] w[m] < h.nodes.len() by {
            assert(h.nodes.contains(c[m]));
        }
        assert forall|m: int| 0 <= m < w.len() - 1 implies #[trigger] h.edge(w[m], w[m + 1]) by {
            assert(listed_dependency(h, c[m], c[m + 1]));
            lemma_listed_dependency_edge(h, c[m], c[m + 1]);
        }
        assert(h.is_walk(w));
        assert(h.reaches(h.nodes.index_of(from), h.nodes.index_of(to)));
    }
}

/// On a graph without cycles no node has a path to itself.
pub proof fn law_acyclic_no_self_path(g: GraphView, a: int)
    requires
        !exists|c: Seq<int>| #[trigger] g.is_cycle(c),
    ensures
        !g.reaches(a, a),
{
    if g.reaches(a, a) {
        let w = choose|w: Seq<int>| #[trigger] g.is_walk(w) && w.len() >= 2 && w[0] == a && w.last() == a;
        let c = w.drop_last();
        assert forall|m: int| 0 <= m < c.len() - 1 implies #[trigger] g.edge(c[m], c[m + 1]) by {
            assert(g.edge(w[m], w[m + 1]));
        }
        assert(g.edge(w[w.len() - 2], w[w.len() - 2 + 1]));
        assert(g.is_cycle(c));
    }
}

/// Paths compose: if `has_path(a, b)` and `has_path(b, c)`, then
/// `has_path(a, c)`.
pub proof fn law_has_path_transitive(g: DependencyGraph, a: NodeView, b: NodeView, c: NodeView)
    requires
        g.well_formed(),
        path_between(g@, a, b),
        path_between(g@, b, c),
    ensures
        path_between(g@, a, c),
{
    law_reaches_transitive(g@, g@.nodes.index_of(a), g@.nodes.index_of(b), g@.nodes.index_of(c));
}

/// On a graph without cycles, `has_path(a, a)` is false for every node.
pub proof fn law_has_path_irreflexive_when_acyclic(g: DependencyGraph, a: NodeView)
    requires
        g.well_formed(),
        !exists|c: Seq<int>| #[trigger] g@.is_cycle(c),
    ensures
        !path_between(g@, a, a),
{
    law_acyclic_no_self_path(g@, g@.nodes.index_of(a));
}

} // verus!
