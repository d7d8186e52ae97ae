//! Node and edge storage for parser graphs: a flat arena with stable handles,
//! insertion-ordered outgoing edges, and tombstoned removal.
use vstd::prelude::*;

verus! {

/// A stable handle to one node of a `ParserGraph`.
///
/// Handles stay valid until the node is removed. Slots of removed nodes are
/// never reused, so a stale handle can never alias a later insertion; it is
/// simply no longer a live node.
#[derive(Clone, Copy, Debug, PartialEq, Eq, Hash, Structural)]
pub struct NodeId {
    /// The arena slot this handle points at.
    pub index: usize,
}

impl NodeId {
    /// The arena slot this handle points at.
    pub open spec fn id(self) -> int {
        self.index as int
    }

    /// Forge a handle from a raw slot index.
    pub fn new(index: usize) -> (n: NodeId)
        ensures
            n.id() == index,
    {
        NodeId { index }
    }
}

/// One live node: the parser payload and its outgoing edges in insertion
/// order.
pub struct GraphNode<P> {
    /// The parser this node owns.
    pub parser: P,
    /// Targets of the outgoing edges, in the order the edges were added.
    pub edges: Vec<NodeId>,
}

/// The arena of parser nodes. Each slot is either a live node or the
/// tombstone of a removed one.
pub struct ParserGraph<P> {
    /// The slots, in insertion order; `None` marks a removed node.
    pub slots: Vec<Option<GraphNode<P>>>,
}

/// The number of live nodes among the slots.
pub open spec fn live_count<P>(slots: Seq<Option<GraphNode<P>>>) -> int
    decreases slots.len(),
{
    if slots.len() == 0 {
        0
    } else {
        live_count(slots.drop_last()) + if slots.last() is Some {
            1int
        } else {
            0int
        }
    }
}

/// The handles of the live nodes among the slots, in slot order.
pub open spec fn live_ids<P>(slots: Seq<Option<GraphNode<P>>>) -> Seq<NodeId>
    decreases slots.len(),
{
    if slots.len() == 0 {
        Seq::empty()
    } else {
        let pre = live_ids(slots.drop_last());
        if slots.last() is Some {
            pre.push(NodeId { index: (slots.len() - 1) as usize })
        } else {
            pre
        }
    }
}

/// The targets of `edges` that are not `gone`.
pub open spec fn drop_target(edges: Seq<NodeId>, gone: NodeId) -> Seq<NodeId>
    decreases edges.len(),
{
    if edges.len() == 0 {
        Seq::empty()
    } else {
        let pre = drop_target(edges.drop_last(), gone);
        if edges.last() == gone {
            pre
        } else {
            pre.push(edges.last())
        }
    }
}

impl<P> ParserGraph<P> {
    /// Does `n` point at a live node?
    pub open spec fn node_ok(self, n: NodeId) -> bool {
        &&& 0 <= n.id() < self.slots@.len()
        &&& self.slots@[n.id()] is Some
    }

    /// The parser stored at the live node `n`.
    pub open spec fn parser_at(self, n: NodeId) -> P {
        self.slots@[n.id()]->Some_0.parser
    }

    /// The outgoing edge targets of the live node `n`, in insertion order.
    pub open spec fn edges_of(self, n: NodeId) -> Seq<NodeId> {
        self.slots@[n.id()]->Some_0.edges@
    }

    /// Every edge of every live node points at a live node.
    pub open spec fn wf(self) -> bool {
        forall|n: NodeId, j: int|
            self.node_ok(n) && 0 <= j < self.edges_of(n).len() ==> self.node_ok(
                #[trigger] self.edges_of(n)[j],
            )
    }

    /// Create an empty graph.
    pub fn new() -> (g: ParserGraph<P>)
        ensures
            g.slots@.len() == 0,
            g.wf(),
            live_count(g.slots@) == 0,
    {
        ParserGraph { slots: Vec::new() }
    }

    /// Is `n` a live node? Executable twin of `node_ok`.
    pub fn contains(&self, n: NodeId) -> (r: bool)
        ensures
            r == self.node_ok(n),
    {
        n.index < self.slots.len() && self.slots[n.index].is_some()
    }

    /// Insert a node owning `parser` and return its handle.
    pub fn add_node(&mut self, parser: P) -> (n: NodeId)
        ensures
            final(self).node_ok(n),
            !old(self).node_ok(n),
            n.id() == old(self).slots@.len(),
            final(self).slots@.len() == old(self).slots@.len() + 1,
            final(self).parser_at(n) == parser,
            final(self).edges_of(n) == Seq::<NodeId>::empty(),
            forall|m: NodeId| old(self).node_ok(m) ==> #[trigger] final(self).node_ok(m),
            forall|m: NodeId| #[trigger] final(self).node_ok(m) ==> old(self).node_ok(m) || m == n,
            forall|m: NodeId|
                old(self).node_ok(m) ==> #[trigger] final(self).parser_at(m) == old(
                    self,
                ).parser_at(m),
            forall|m: NodeId|
                old(self).node_ok(m) ==> #[trigger] final(self).edges_of(m) == old(
                    self,
                ).edges_of(m),
            old(self).wf() ==> final(self).wf(),
            live_count(final(self).slots@) == live_count(old(self).slots@) + 1,
            live_ids(final(self).slots@) == live_ids(old(self).slots@).push(n),
    {
        let n = NodeId { index: self.slots.len() };
        self.slots.push(Some(GraphNode { parser, edges: Vec::new() }));
        proof {
            assert(self.slots@.drop_last() =~= old(self).slots@);
            assert forall|m: NodeId| old(self).node_ok(m) implies #[trigger] self.node_ok(
                m,
            ) && self.parser_at(m) == old(self).parser_at(m) && self.edges_of(m)
                == old(self).edges_of(m) by {}
            if old(self).wf() {
                assert forall|m: NodeId, j: int|
                    self.node_ok(m) && 0 <= j < self.edges_of(m).len() implies self.node_ok(#[trigger] self.edges_of(m)[j]) by {
                    if m != n {
                        assert(old(self).node_ok(m));
                        assert(old(self).node_ok(old(self).edges_of(m)[j]));
                    }
                }
            }
        }
        n
    }

    /// Append a directed edge `from -> to`. Self-edges and duplicate edges
    /// are allowed and meaningful.
    pub fn add_edge(&mut self, from: NodeId, to: NodeId)
        requires
            old(self).node_ok(from),
            old(self).node_ok(to),
        ensures
            final(self).slots@.len() == old(self).slots@.len(),
            forall|m: NodeId| #[trigger] final(self).node_ok(m) == old(self).node_ok(m),
            forall|m: NodeId|
                old(self).node_ok(m) ==> #[trigger] final(self).parser_at(m) == old(
                    self,
                ).parser_at(m),
            final(self).edges_of(from) == old(self).edges_of(from).push(to),
            forall|m: NodeId|
                old(self).node_ok(m) && m != from ==> #[trigger] final(self).edges_of(m) == old(
                    self,
                ).edges_of(m),
            old(self).wf() ==> final(self).wf(),
            live_count(final(self).slots@) == live_count(old(self).slots@),
            live_ids(final(self).slots@) == live_ids(old(self).slots@),
    {
        let idx = from.index;
        let slot = self.slots.remove(idx);
        match slot {
            Some(mut node) => {
                node.edges.push(to);
                self.slots.insert(idx, Some(node));
            },
            None => {
                self.slots.insert(idx, None);
            },
        }
        proof {
            assert(self.slots@ =~= old(self).slots@.update(
                from.id(),
                Some(
                    GraphNode {
                        parser: old(self).parser_at(from),
                        edges: self.slots@[from.id()]->Some_0.edges,
                    },
                ),
            ));
            lemma_live_same_shape(old(self).slots@, self.slots@);
            if old(self).wf() {
                assert forall|m: NodeId, j: int|
                    self.node_ok(m) && 0 <= j < self.edges_of(m).len() implies self.node_ok(#[trigger] self.edges_of(m)[j]) by {
                    if m == from && j == self.edges_of(m).len() - 1 {
                        assert(self.edges_of(m)[j] == to);
                    } else {
                        assert(old(self).node_ok(old(self).edges_of(m)[j]));
                    }
                }
            }
        }
    }

    /// The number of outgoing edges of the live node `n`.
    pub fn out_degree(&self, n: NodeId) -> (r: usize)
        requires
            self.node_ok(n),
        ensures
            r == self.edges_of(n).len(),
    {
        match &self.slots[n.index] {
            Some(node) => node.edges.len(),
            None => 0,
        }
    }

    /// The target of the `j`-th outgoing edge of the live node `n`.
    pub fn edge_target(&self, n: NodeId, j: usize) -> (r: NodeId)
        requires
            self.node_ok(n),
            j < self.edges_of(n).len(),
        ensures
            r == self.edges_of(n)[j as int],
    {
        match &self.slots[n.index] {
            Some(node) => node.edges[j],
            None => NodeId { index: 0 },
        }
    }

    /// Borrow the parser stored at the live node `n`.
    pub fn parser_ref(&self, n: NodeId) -> (r: &P)
        requires
            self.node_ok(n),
        ensures
            *r == self.parser_at(n),
    {
        match &self.slots[n.index] {
            Some(node) => &node.parser,
            None => unreached(),
        }
    }

    /// The number of live nodes.
    pub fn node_count(&self) -> (r: usize)
        ensures
            r == live_count(self.slots@),
    {
        let mut count: usize = 0;
        let mut i: usize = 0;
        while i < self.slots.len()
            invariant
                i <= self.slots@.len(),
                count == live_count(self.slots@.subrange(0, i as int)),
                count <= i,
            decreases self.slots@.len() - i,
        {
            proof {
                assert(self.slots@.subrange(0, i + 1).drop_last() =~= self.slots@.subrange(
                    0,
                    i as int,
                ));
            }
            if self.slots[i].is_some() {
                count += 1;
            }
            i += 1;
        }
        proof {
            assert(self.slots@.subrange(0, self.slots@.len() as int) =~= self.slots@);
        }
        count
    }

    /// The handles of all live nodes, in insertion order.
    pub fn node_ids(&self) -> (r: Vec<NodeId>)
        ensures
            r@ == live_ids(self.slots@),
    {
        let mut ids: Vec<NodeId> = Vec::new();
        let mut i: usize = 0;
        while i < self.slots.len()
            invariant
                i <= self.slots@.len(),
                ids@ == live_ids(self.slots@.subrange(0, i as int)),
            decreases self.slots@.len() - i,
        {
            proof {
                assert(self.slots@.subrange(0, i + 1).drop_last() =~= self.slots@.subrange(
                    0,
                    i as int,
                ));
            }
            if self.slots[i].is_some() {
                ids.push(NodeId { index: i });
            }
            i += 1;
        }
        proof {
            assert(self.slots@.subrange(0, self.slots@.len() as int) =~= self.slots@);
        }
        ids
    }

    /// Remove the node `n`, detach every edge that points at it, and return
    /// its parser. Returns `None`, and changes nothing, when `n` is not a
    /// live node.
    pub fn remove_node(&mut self, n: NodeId) -> (r: Option<P>)
        ensures
            !old(self).node_ok(n) ==> r is None && *final(self) == *old(self),
            old(self).node_ok(n) ==> {
                &&& r == Some(old(self).parser_at(n))
                &&& final(self).slots@.len() == old(self).slots@.len()
                &&& !final(self).node_ok(n)
                &&& forall|m: NodeId|
                    #[trigger] final(self).node_ok(m) == (old(self).node_ok(m) && m != n)
                &&& forall|m: NodeId|
                    old(self).node_ok(m) && m != n ==> #[trigger] final(self).parser_at(m) == old(
                        self,
                    ).parser_at(m)
                &&& forall|m: NodeId|
                    old(self).node_ok(m) && m != n ==> #[trigger] final(self).edges_of(m)
                        == drop_target(old(self).edges_of(m), n)
                &&& live_count(final(self).slots@) == live_count(old(self).slots@) - 1
            },
            old(self).wf() ==> final(self).wf(),
    {
        if !self.contains(n) {
            return None;
        }
        let removed = self.slots.remove(n.index);
        self.slots.insert(n.index, None);
        proof {
            assert(self.slots@ =~= old(self).slots@.update(n.id(), None));
        }
        let parser = match removed {
            Some(node) => Some(node.parser),
            None => None,
        };
        let ghost mid = self.slots@;
        // Detach every edge pointing at the removed node.
        let mut i: usize = 0;
        while i < self.slots.len()
            invariant
                self.slots@.len() == mid.len(),
                i <= mid.len(),
                forall|k: int| i <= k < mid.len() ==> self.slots@[k] == mid[k],
                forall|k: int|
                    0 <= k < i ==> ((#[trigger] self.slots@[k]) is Some) == (mid[k] is Some),
                forall|k: int|
                    0 <= k < i && mid[k] is Some ==> ((#[trigger] self.slots@[k])->Some_0.parser
                        == mid[k]->Some_0.parser && self.slots@[k]->Some_0.edges@ == drop_target(
                        mid[k]->Some_0.edges@,
                        n,
                    )),
            decreases mid.len() - i,
        {
            let ghost pre = self.slots@;
            let slot = self.slots.remove(i);
            match slot {
                Some(mut node) => {
                    let mut kept: Vec<NodeId> = Vec::new();
                    let mut j: usize = 0;
                    while j < node.edges.len()
                        invariant
                            j <= node.edges@.len(),
                            kept@ == drop_target(node.edges@.subrange(0, j as int), n),
                        decreases node.edges@.len() - j,
                    {
                        proof {
                            assert(node.edges@.subrange(0, j + 1).drop_last()
                                =~= node.edges@.subrange(0, j as int));
                        }
                        let t = node.edges[j];
                        if !(t.index == n.index) {
                            kept.push(t);
                        }
                        j += 1;
                    }
                    proof {
                        assert(node.edges@.subrange(0, node.edges@.len() as int) =~= node.edges@);
                    }
                    node.edges = kept;
                    let ghost newnode = node;
                    self.slots.insert(i, Some(node));
                    proof {
                        assert(self.slots@ =~= pre.update(i as int, Some(newnode)));
                        assert(newnode.edges@ == drop_target(pre[i as int]->Some_0.edges@, n));
                    }
                },
                None => {
                    self.slots.insert(i, None);
                    proof {
                        assert(self.slots@ =~= pre.update(i as int, None));
                    }
                },
            }
            i += 1;
        }
        proof {
            lemma_live_same_shape(mid, self.slots@);
            lemma_live_count_update_to_none(old(self).slots@, n.id());
            assert forall|m: NodeId| self.node_ok(m) implies old(self).node_ok(m) && m != n
                && self.parser_at(m) == old(self).parser_at(m) && self.edges_of(m) == drop_target(
                old(self).edges_of(m),
                n,
            ) by {
                assert(mid[m.id()] == old(self).slots@[m.id()]);
            }
            if old(self).wf() {
                assert forall|m: NodeId, j: int|
                    self.node_ok(m) && 0 <= j < self.edges_of(m).len() implies self.node_ok(
                    #[trigger] self.edges_of(m)[j],
                ) by {
                    assert(old(self).node_ok(m) && m != n);
                    lemma_drop_target_members(old(self).edges_of(m), n);
                    let t = self.edges_of(m)[j];
                    assert(drop_target(old(self).edges_of(m), n)[j] == t);
                    assert(old(self).edges_of(m).contains(t));
                    let k = choose|k: int|
                        0 <= k < old(self).edges_of(m).len() && old(self).edges_of(m)[k] == t;
                    assert(old(self).node_ok(old(self).edges_of(m)[k]));
                    assert(t != n);
                    assert(old(self).node_ok(t) && t != n);
                }
            }
        }
        parser
    }
}

/// Two slot sequences of the same length, live in the same places, have the
/// same live count and the same live handles.
proof fn lemma_live_same_shape<P>(a: Seq<Option<GraphNode<P>>>, b: Seq<Option<GraphNode<P>>>)
    requires
        a.len() == b.len(),
        forall|k: int| 0 <= k < a.len() ==> (#[trigger] a[k] is Some) == (b[k] is Some),
    ensures
        live_count(a) == live_count(b),
        live_ids(a) == live_ids(b),
    decreases a.len(),
{
    if a.len() > 0 {
        assert(a.drop_last().len() == b.drop_last().len());
        lemma_live_same_shape(a.drop_last(), b.drop_last());
    }
}

/// Tombstoning one live slot lowers the live count by one.
proof fn lemma_live_count_update_to_none<P>(a: Seq<Option<GraphNode<P>>>, i: int)
    requires
        0 <= i < a.len(),
        a[i] is Some,
    ensures
        live_count(a.update(i, None)) == live_count(a) - 1,
    decreases a.len(),
{
    let b = a.update(i, None);
    if i == a.len() - 1 {
        assert(b.drop_last() =~= a.drop_last());
    } else {
        assert(b.drop_last() =~= a.drop_last().update(i, None));
        lemma_live_count_update_to_none(a.drop_last(), i);
    }
}

/// What `drop_target` keeps: exactly the members of the original that are not
/// the dropped handle.
pub proof fn lemma_drop_target_members(edges: Seq<NodeId>, gone: NodeId)
    ensures
        forall|j: int|
            0 <= j < drop_target(edges, gone).len() ==> edges.contains(
                #[trigger] drop_target(edges, gone)[j],
            ) && drop_target(edges, gone)[j] != gone,
    decreases edges.len(),
{
    if edges.len() > 0 {
        lemma_drop_target_members(edges.drop_last(), gone);
        assert forall|j: int| 0 <= j < drop_target(edges, gone).len() implies edges.contains(
            #[trigger] drop_target(edges, gone)[j],
        ) && drop_target(edges, gone)[j] != gone by {
            let d = drop_target(edges, gone);
            let pre = drop_target(edges.drop_last(), gone);
            if j < pre.len() {
                assert(edges.drop_last().contains(pre[j]));
                let k = choose|k: int|
                    0 <= k < edges.drop_last().len() && edges.drop_last()[k] == pre[j];
                assert(edges[k] == d[j]);
            } else {
                assert(d[j] == edges.last());
            }
        }
    }
}

} // verus!
