//! Dynamic parsing within runtime-configurable parser graphs.
//!
//! A `Peel` owns a mutable directed graph of pluggable parsing units and
//! decomposes byte buffers by walking that graph: starting at the root, each
//! visited node's parser is attempted, the first succeeding child wins, and
//! the deepest path of such successes becomes the typed result stack. A
//! parser that runs out of bytes ends the walk with an `Incomplete` signal
//! that a later call can resume from, once more bytes are available.
use vstd::prelude::*;

pub mod error;
pub mod example;
pub mod graph;
pub mod packet;
pub mod parser;
pub mod traversal;

use crate::error::{ErrorType, PeelError};
use crate::graph::{live_count, live_ids, NodeId, ParserGraph};
use crate::parser::{Parsable, ParseStatus};
use crate::traversal::{run_from_spec, scan_children, walk_from, RunEnd, Scan};

verus! {

/// General return type of the `Peel` traversals.
#[derive(Debug)]
pub struct PeelResult<'a, R, I> {
    /// The accumulated parser results, one per succeeded node, in visit
    /// order.
    pub result: Vec<R>,
    /// The parser trail: the identity of each succeeded node, aligned with
    /// `result`.
    pub parsers: Vec<I>,
    /// The unconsumed rest of the input.
    pub left_input: &'a [u8],
    /// The error that ended the traversal, if it did not end in a leaf
    /// success.
    pub error: Option<PeelError>,
}

/// The error code carried by an optional error.
pub open spec fn error_code(e: Option<PeelError>) -> Option<ErrorType> {
    match e {
        Some(pe) => Some(pe.code),
        None => None,
    }
}

/// The model record that an executable outcome stands for: its stacks, its
/// leftover input, the shared state it left behind, its error code, and the
/// continuation cursor when the error is an incomplete signal.
pub open spec fn end_of<'a, R, I, D>(
    r: PeelResult<'a, R, I>,
    data: Option<D>,
    cursor: NodeId,
) -> RunEnd<R, I, D> {
    RunEnd {
        results: r.result@,
        trail: r.parsers@,
        left: r.left_input@,
        data,
        error: error_code(r.error),
        cursor: if error_code(r.error) matches Some(ErrorType::Incomplete(_)) {
            Some(cursor)
        } else {
            None
        },
    }
}

/// What an inner scan over the children of one node reported back.
enum Attempted<R> {
    /// Every child failed, or there was none.
    NoChild,
    /// This child ran out of input, asking for this much.
    Interrupted(NodeId, crate::parser::Needed),
    /// This child succeeded, consuming this many bytes and producing this
    /// value.
    Advance(NodeId, usize, R),
}

/// The main peeling structure: a parser graph, its root, the shared state
/// handed to every parser invocation, and the cursor a later call can resume
/// an incomplete traversal from.
pub struct Peel<P: Parsable> {
    /// The arena of parser nodes.
    pub graph: ParserGraph<P>,
    /// The first node added; `None` while the graph is empty.
    pub root: Option<NodeId>,
    /// Additional data shared across the parsers of one traversal.
    pub data: Option<P::Data>,
    /// The current parsing position, for continued traversal support: the
    /// last node a traversal visited.
    pub last_position: NodeId,
}

impl<P: Parsable> Peel<P> {
    /// The stored continuation cursor: the last node a traversal visited.
    pub open spec fn cursor(self) -> NodeId {
        self.last_position
    }

    /// Create a new empty `Peel` instance.
    pub fn new() -> (p: Peel<P>)
        ensures
            p.graph.slots@.len() == 0,
            p.graph.wf(),
            live_count(p.graph.slots@) == 0,
            p.root is None,
            p.data is None,
    {
        Peel {
            graph: ParserGraph::new(),
            root: None,
            data: None,
            last_position: NodeId::new(0),
        }
    }

    /// Insert a new parser node and return its handle. The first node ever
    /// inserted becomes the root.
    pub fn new_parser(&mut self, parser: P) -> (n: NodeId)
        ensures
            final(self).graph.node_ok(n),
            !old(self).graph.node_ok(n),
            n.id() == old(self).graph.slots@.len(),
            final(self).graph.slots@.len() == old(self).graph.slots@.len() + 1,
            final(self).graph.parser_at(n) == parser,
            final(self).graph.edges_of(n) == Seq::<NodeId>::empty(),
            forall|m: NodeId|
                old(self).graph.node_ok(m) ==> #[trigger] final(self).graph.node_ok(m),
            forall|m: NodeId|
                #[trigger] final(self).graph.node_ok(m) ==> old(self).graph.node_ok(m) || m == n,
            forall|m: NodeId|
                old(self).graph.node_ok(m) ==> #[trigger] final(self).graph.parser_at(m) == old(self).graph.parser_at(m),
            forall|m: NodeId|
                old(self).graph.node_ok(m) ==> #[trigger] final(self).graph.edges_of(m) == old(self).graph.edges_of(m),
            old(self).graph.wf() ==> final(self).graph.wf(),
            live_count(final(self).graph.slots@) == live_count(old(self).graph.slots@) + 1,
            live_ids(final(self).graph.slots@) == live_ids(old(self).graph.slots@).push(n),
            final(self).root == if old(self).root is None {
                Some(n)
            } else {
                old(self).root
            },
            final(self).data == old(self).data,
            final(self).cursor() == old(self).cursor(),
    {
        let new_node = self.graph.add_node(parser);
        if self.root.is_none() {
            self.root = Some(new_node);
        }
        new_node
    }

    /// Append the edge `left -> right`: after `left` succeeds, `right` is a
    /// candidate successor. Both handles must be live; self-edges and
    /// duplicates are allowed and meaningful.
    pub fn link(&mut self, left: NodeId, right: NodeId)
        requires
            old(self).graph.node_ok(left),
            old(self).graph.node_ok(right),
        ensures
            final(self).graph.slots@.len() == old(self).graph.slots@.len(),
            forall|m: NodeId|
                #[trigger] final(self).graph.node_ok(m) == old(self).graph.node_ok(m),
            forall|m: NodeId|
                old(self).graph.node_ok(m) ==> #[trigger] final(self).graph.parser_at(m) == old(self).graph.parser_at(m),
            final(self).graph.edges_of(left) == old(self).graph.edges_of(left).push(right),
            forall|m: NodeId|
                old(self).graph.node_ok(m) && m != left ==> #[trigger] final(self).graph.edges_of(
                    m,
                ) == old(self).graph.edges_of(m),
            old(self).graph.wf() ==> final(self).graph.wf(),
            live_count(final(self).graph.slots@) == live_count(old(self).graph.slots@),
            live_ids(final(self).graph.slots@) == live_ids(old(self).graph.slots@),
            final(self).root == old(self).root,
            final(self).data == old(self).data,
            final(self).cursor() == old(self).cursor(),
    {
        self.graph.add_edge(left, right);
    }

    /// Remove a parser node from the graph and return its payload, if the
    /// handle was live. All edges touching the node are removed with it;
    /// when the removed node was the root, the root becomes unset.
    pub fn remove(&mut self, node: NodeId) -> (r: Option<P>)
        ensures
            !old(self).graph.node_ok(node) ==> r is None && final(self).graph == old(self).graph
                && final(self).root == old(self).root,
            old(self).graph.node_ok(node) ==> {
                &&& r == Some(old(self).graph.parser_at(node))
                &&& !final(self).graph.node_ok(node)
                &&& forall|m: NodeId|
                    #[trigger] final(self).graph.node_ok(m) == (old(self).graph.node_ok(m) && m
                        != node)
                &&& forall|m: NodeId|
                    old(self).graph.node_ok(m) && m != node ==> #[trigger] final(self).graph.parser_at(m) == old(self).graph.parser_at(m)
                &&& forall|m: NodeId|
                    old(self).graph.node_ok(m) && m != node ==> #[trigger] final(self).graph.edges_of(m) == crate::graph::drop_target(
                        old(self).graph.edges_of(m),
                        node,
                    )
                &&& live_count(final(self).graph.slots@) == live_count(old(self).graph.slots@) - 1
                &&& final(self).root == if old(self).root == Some(node) {
                    None
                } else {
                    old(self).root
                }
            },
            old(self).graph.wf() ==> final(self).graph.wf(),
            final(self).data == old(self).data,
            final(self).cursor() == old(self).cursor(),
    {
        let removed = self.graph.remove_node(node);
        if removed.is_some() {
            let unset = match self.root {
                Some(rt) => rt.index == node.index,
                None => false,
            };
            if unset {
                self.root = None;
            }
        }
        removed
    }

    /// Link multiple node pairs together, in order.
    pub fn link_nodes(&mut self, edges: &[(NodeId, NodeId)])
        requires
            forall|k: int|
                0 <= k < edges@.len() ==> old(self).graph.node_ok(
                    (#[trigger] edges@[k]).0,
                ) && old(self).graph.node_ok(edges@[k].1),
        ensures
            final(self).graph.slots@.len() == old(self).graph.slots@.len(),
            forall|m: NodeId|
                #[trigger] final(self).graph.node_ok(m) == old(self).graph.node_ok(m),
            forall|m: NodeId|
                old(self).graph.node_ok(m) ==> #[trigger] final(self).graph.parser_at(m) == old(self).graph.parser_at(m),
            forall|m: NodeId|
                old(self).graph.node_ok(m) ==> #[trigger] final(self).graph.edges_of(m)
                    == edges_after(old(self).graph.edges_of(m), m, edges@),
            old(self).graph.wf() ==> final(self).graph.wf(),
            live_count(final(self).graph.slots@) == live_count(old(self).graph.slots@),
            final(self).root == old(self).root,
            final(self).data == old(self).data,
            final(self).cursor() == old(self).cursor(),
    {
        let ghost g0 = self.graph;
        let mut k: usize = 0;
        while k < edges.len()
            invariant
                k <= edges@.len(),
                forall|j: int|
                    0 <= j < edges@.len() ==> g0.node_ok((#[trigger] edges@[j]).0) && g0.node_ok(
                        edges@[j].1,
                    ),
                self.graph.slots@.len() == g0.slots@.len(),
                forall|m: NodeId| #[trigger] self.graph.node_ok(m) == g0.node_ok(m),
                forall|m: NodeId|
                    g0.node_ok(m) ==> #[trigger] self.graph.parser_at(m) == g0.parser_at(m),
                forall|m: NodeId|
                    g0.node_ok(m) ==> #[trigger] self.graph.edges_of(m) == edges_after(
                        g0.edges_of(m),
                        m,
                        edges@.subrange(0, k as int),
                    ),
                g0.wf() ==> self.graph.wf(),
                live_count(self.graph.slots@) == live_count(g0.slots@),
                g0 == old(self).graph,
                self.root == old(self).root,
                self.data == old(self).data,
                self.cursor() == old(self).cursor(),
            decreases edges@.len() - k,
        {
            proof {
                assert(edges@.subrange(0, k + 1).drop_last() =~= edges@.subrange(0, k as int));
            }
            let pair = *vstd::slice::slice_index_get(edges, k);
            self.link(pair.0, pair.1);
            k += 1;
        }
        proof {
            assert(edges@.subrange(0, edges@.len() as int) =~= edges@);
        }
    }

    /// Create a new parser node and link it as a successor of `left`.
    pub fn link_new_parser(&mut self, left: NodeId, parser: P) -> (n: NodeId)
        requires
            old(self).graph.node_ok(left),
        ensures
            final(self).graph.node_ok(n),
            !old(self).graph.node_ok(n),
            n.id() == old(self).graph.slots@.len(),
            final(self).graph.slots@.len() == old(self).graph.slots@.len() + 1,
            final(self).graph.parser_at(n) == parser,
            final(self).graph.edges_of(n) == Seq::<NodeId>::empty(),
            final(self).graph.edges_of(left) == old(self).graph.edges_of(left).push(n),
            forall|m: NodeId|
                old(self).graph.node_ok(m) ==> #[trigger] final(self).graph.node_ok(m),
            forall|m: NodeId|
                #[trigger] final(self).graph.node_ok(m) ==> old(self).graph.node_ok(m) || m == n,
            forall|m: NodeId|
                old(self).graph.node_ok(m) ==> #[trigger] final(self).graph.parser_at(m) == old(self).graph.parser_at(m),
            forall|m: NodeId|
                old(self).graph.node_ok(m) && m != left ==> #[trigger] final(self).graph.edges_of(
                    m,
                ) == old(self).graph.edges_of(m),
            old(self).graph.wf() ==> final(self).graph.wf(),
            live_count(final(self).graph.slots@) == live_count(old(self).graph.slots@) + 1,
            final(self).root == if old(self).root is None {
                Some(n)
            } else {
                old(self).root
            },
            final(self).data == old(self).data,
            final(self).cursor() == old(self).cursor(),
    {
        let new_parser = self.new_parser(parser);
        self.link(left, new_parser);
        new_parser
    }

    /// Recursive traversal with the root as the starting point: find the
    /// deepest greedy decomposition of `input`, seeding the outcome with
    /// `result` and `parsers`.
    ///
    /// Fails immediately with `NoTreeRoot` on a rootless graph. The caller
    /// owes, besides a well-formed graph, that the greedy walk is finite:
    /// termination rests solely on the parsers' input consumption, never on
    /// the graph's shape, and `traversal::lemma_run_exists` discharges the
    /// obligation for every graph whose parsers consume input on success
    /// (leaf parsers excepted).
    pub fn traverse<'a>(
        &mut self,
        input: &'a [u8],
        result: Vec<P::Output>,
        parsers: Vec<P::Id>,
    ) -> (r: PeelResult<'a, P::Output, P::Id>)
        requires
            old(self).graph.wf(),
            match old(self).root {
                Some(rt) => old(self).graph.node_ok(rt) && exists|
                    fin: RunEnd<P::Output, P::Id, P::Data>,
                |
                    run_from_spec(
                        old(self).graph,
                        rt,
                        input@,
                        result@,
                        parsers@,
                        old(self).data,
                        fin,
                    ),
                None => true,
            },
        ensures
            final(self).graph == old(self).graph,
            final(self).root == old(self).root,
            match old(self).root {
                None => r.result@ == result@ && r.parsers@ == parsers@ && r.left_input@ == input@
                    && error_code(r.error) == Some(ErrorType::NoTreeRoot) && final(self).data
                    == old(self).data,
                Some(rt) => run_from_spec(
                    old(self).graph,
                    rt,
                    input@,
                    result@,
                    parsers@,
                    old(self).data,
                    end_of(r, final(self).data, final(self).cursor()),
                ),
            },
    {
        match self.root {
            Some(node) => self.run_from(node, input, result, parsers),
            None => PeelResult {
                result,
                parsers,
                left_input: input,
                error: Some(PeelError::new(ErrorType::NoTreeRoot, "no tree root found")),
            },
        }
    }

    /// Continue the traversal from the last visited node instead of the
    /// root: after an `Incomplete` outcome, this resumes the decomposition
    /// with further input, without restarting from scratch. For streaming
    /// parsers, resuming with the rest of the input reaches the same
    /// outcome as a one-shot traversal of the whole input; that equivalence
    /// is `traversal::lemma_streaming_resume`.
    ///
    /// Mutating the graph between the incomplete outcome and the resumption
    /// can invalidate the stored cursor; resuming requires it to still be a
    /// live node.
    pub fn continue_traverse<'a>(
        &mut self,
        input: &'a [u8],
        result: Vec<P::Output>,
        parsers: Vec<P::Id>,
    ) -> (r: PeelResult<'a, P::Output, P::Id>)
        requires
            old(self).graph.wf(),
            old(self).graph.node_ok(old(self).cursor()),
            exists|fin: RunEnd<P::Output, P::Id, P::Data>|
                run_from_spec(
                    old(self).graph,
                    old(self).cursor(),
                    input@,
                    result@,
                    parsers@,
                    old(self).data,
                    fin,
                ),
        ensures
            final(self).graph == old(self).graph,
            final(self).root == old(self).root,
            run_from_spec(
                old(self).graph,
                old(self).cursor(),
                input@,
                result@,
                parsers@,
                old(self).data,
                end_of(r, final(self).data, final(self).cursor()),
            ),
    {
        let start_node = self.last_position;
        self.run_from(start_node, input, result, parsers)
    }

    /// Attempt the children of `cur` in insertion order on `left`: skip the
    /// failures, stop at the first success or incomplete signal.
    fn try_children(&mut self, cur: NodeId, left: &[u8], results: &Vec<P::Output>) -> (r:
        Attempted<P::Output>)
        requires
            old(self).graph.wf(),
            old(self).graph.node_ok(cur),
        ensures
            final(self).graph == old(self).graph,
            final(self).root == old(self).root,
            ({
                let s = scan_children(
                    old(self).graph,
                    old(self).graph.edges_of(cur),
                    left@,
                    results@,
                    old(self).data,
                );
                match r {
                    Attempted::NoChild => s == (Scan::<P::Output, P::Data>::NoChild {
                        data: final(self).data,
                    }),
                    Attempted::Interrupted(node, needed) => s == (Scan::<P::Output, P::Data>::Interrupted {
                        node,
                        needed,
                        data: final(self).data,
                    }) && final(self).cursor() == node,
                    Attempted::Advance(node, consumed, value) => s == (Scan::<P::Output, P::Data>::Advance {
                        node,
                        consumed,
                        value,
                        data: final(self).data,
                    }) && consumed <= left@.len() && final(self).graph.node_ok(node),
                }
            }),
    {
        let ghost g = self.graph;
        let ghost d0 = self.data;
        let deg = self.graph.out_degree(cur);
        proof {
            assert(g.edges_of(cur).skip(0) =~= g.edges_of(cur));
        }
        let mut j: usize = 0;
        while j < deg
            invariant
                self.graph == g,
                self.root == old(self).root,
                g == old(self).graph,
                d0 == old(self).data,
                g.wf(),
                g.node_ok(cur),
                deg == g.edges_of(cur).len(),
                j <= deg,
                scan_children(g, g.edges_of(cur).skip(j as int), left@, results@, self.data)
                    == scan_children(g, g.edges_of(cur), left@, results@, d0),
            decreases deg - j,
        {
            let child = self.graph.edge_target(cur, j);
            self.last_position = child;
            let ghost dpre = self.data;
            let attempt = {
                let p = self.graph.parser_ref(child);
                p.parse(left, Some(results), &mut self.data)
            };
            proof {
                assert(g.edges_of(cur).skip(j as int)[0] == g.edges_of(cur)[j as int]);
                assert(g.edges_of(cur).skip(j as int).drop_first() =~= g.edges_of(cur).skip(
                    j as int + 1,
                ));
            }
            match attempt {
                ParseStatus::Failed => {
                    j += 1;
                },
                ParseStatus::Incomplete(needed) => {
                    return Attempted::Interrupted(child, needed);
                },
                ParseStatus::Done(consumed, value) => {
                    proof {
                        g.parser_at(child).lemma_parse_consumes_prefix(
                            left@,
                            Some(results@),
                            dpre,
                        );
                    }
                    return Attempted::Advance(child, consumed, value);
                },
            }
        }
        proof {
            assert(g.edges_of(cur).skip(deg as int) =~= Seq::<NodeId>::empty());
        }
        Attempted::NoChild
    }

    /// Do parsing until all possible paths failed, starting with the parser
    /// at `start`: the deepest greedy decomposition, assembled into the given
    /// result vectors.
    fn run_from<'a>(
        &mut self,
        start: NodeId,
        input: &'a [u8],
        result: Vec<P::Output>,
        parsers: Vec<P::Id>,
    ) -> (r: PeelResult<'a, P::Output, P::Id>)
        requires
            old(self).graph.wf(),
            old(self).graph.node_ok(start),
            exists|fin: RunEnd<P::Output, P::Id, P::Data>|
                run_from_spec(
                    old(self).graph,
                    start,
                    input@,
                    result@,
                    parsers@,
                    old(self).data,
                    fin,
                ),
        ensures
            final(self).graph == old(self).graph,
            final(self).root == old(self).root,
            run_from_spec(
                old(self).graph,
                start,
                input@,
                result@,
                parsers@,
                old(self).data,
                end_of(r, final(self).data, final(self).cursor()),
            ),
    {
        let ghost g = self.graph;
        let ghost r0 = result@;
        let ghost p0 = parsers@;
        let ghost d0 = self.data;
        let ghost fin = choose|fin: RunEnd<P::Output, P::Id, P::Data>|
            run_from_spec(g, start, input@, r0, p0, d0, fin);
        self.last_position = start;
        let attempt = {
            let p = self.graph.parser_ref(start);
            p.parse(input, Some(&result), &mut self.data)
        };
        match attempt {
            ParseStatus::Failed => {
                if result.len() == 0 {
                    PeelResult {
                        result,
                        parsers,
                        left_input: input,
                        error: Some(
                            PeelError::new(
                                ErrorType::RootParserFailed,
                                "the first parser attempted failed with nothing accumulated",
                            ),
                        ),
                    }
                } else {
                    PeelResult { result, parsers, left_input: input, error: None }
                }
            },
            ParseStatus::Incomplete(needed) => {
                PeelResult {
                    result,
                    parsers,
                    left_input: input,
                    error: Some(
                        PeelError::new(ErrorType::Incomplete(needed), "a parser needs more input"),
                    ),
                }
            },
            ParseStatus::Done(consumed, value) => {
                proof {
                    g.parser_at(start).lemma_parse_consumes_prefix(input@, Some(r0), d0);
                }
                let ident = {
                    let p = self.graph.parser_ref(start);
                    p.identity()
                };
                let mut results = result;
                let mut trail = parsers;
                results.push(value);
                trail.push(ident);
                let mut left: &'a [u8] = vstd::slice::slice_subrange(
                    input,
                    consumed,
                    input.len(),
                );
                let mut cur = start;
                proof {
                    assert(left@ =~= input@.skip(consumed as int));
                    assert(walk_from(g, cur, left@, results@, trail@, self.data, fin));
                }
                loop
                    invariant
                        self.graph == g,
                        self.root == old(self).root,
                        g == old(self).graph,
                        g.wf(),
                        g.node_ok(cur),
                        walk_from(g, cur, left@, results@, trail@, self.data, fin),
                        run_from_spec(g, start, input@, r0, p0, d0, fin),
                        r0 == result@,
                        p0 == parsers@,
                        d0 == old(self).data,
                    decreases fin.results.len() - results@.len(),
                {
                    let ghost dstep = self.data;
                    let step = self.try_children(cur, left, &results);
                    match step {
                        Attempted::NoChild => {
                            proof {
                                assert(fin == (RunEnd {
                                    results: results@,
                                    trail: trail@,
                                    left: left@,
                                    data: self.data,
                                    error: None,
                                    cursor: None,
                                }));
                            }
                            return PeelResult {
                                result: results,
                                parsers: trail,
                                left_input: left,
                                error: None,
                            };
                        },
                        Attempted::Interrupted(node, needed) => {
                            proof {
                                assert(fin == (RunEnd {
                                    results: results@,
                                    trail: trail@,
                                    left: left@,
                                    data: self.data,
                                    error: Some(ErrorType::Incomplete(needed)),
                                    cursor: Some(node),
                                }));
                            }
                            return PeelResult {
                                result: results,
                                parsers: trail,
                                left_input: left,
                                error: Some(
                                    PeelError::new(
                                        ErrorType::Incomplete(needed),
                                        "a parser needs more input",
                                    ),
                                ),
                            };
                        },
                        Attempted::Advance(node, consumed_now, value_now) => {
                            let ident_now = {
                                let p = self.graph.parser_ref(node);
                                p.identity()
                            };
                            results.push(value_now);
                            trail.push(ident_now);
                            let ghost left_pre = left@;
                            left = vstd::slice::slice_subrange(left, consumed_now, left.len());
                            cur = node;
                            proof {
                                assert(left@ =~= left_pre.skip(consumed_now as int));
                            }
                        },
                    }
                }
            },
        }
    }
}

/// Append the decimal digits of `value` to `out`.
fn push_decimal(out: &mut Vec<u8>, value: usize)
    ensures
        final(out)@.len() > old(out)@.len(),
{
    let mut digits: Vec<u8> = Vec::new();
    let mut v = value;
    while v > 0
        decreases v,
    {
        // the byte 48 is the digit 0
        digits.push((v % 10) as u8 + 48);
        v = v / 10;
    }
    if digits.len() == 0 {
        out.push(48);
    } else {
        let ghost len0 = out@.len();
        let mut k = digits.len();
        while k > 0
            invariant
                k <= digits@.len(),
                out@.len() == len0 + (digits@.len() - k),
            decreases k,
        {
            k -= 1;
            out.push(digits[k]);
        }
    }
}

impl<P: Parsable> Peel<P> {
    /// A graph description in the DOT textual format, usable by external
    /// visualization tooling: one line per live node (by its slot number)
    /// and one per edge. Peripheral diagnostics; the exact text is not part
    /// of the traversal contract.
    pub fn dot_export(&self) -> (r: Vec<u8>)
        ensures
            r@.len() > 0,
    {
        let mut out: Vec<u8> = Vec::new();
        // "digraph {\n"
        out.push(100);
        out.push(105);
        out.push(103);
        out.push(114);
        out.push(97);
        out.push(112);
        out.push(104);
        out.push(32);
        out.push(123);
        out.push(10);
        let ids = self.graph.node_ids();
        let mut i: usize = 0;
        while i < ids.len()
            invariant
                out@.len() >= 10,
            decreases ids@.len() - i,
        {
            let n = *vstd::slice::slice_index_get(ids.as_slice(), i);
            if self.graph.contains(n) {
                // "    <n>;\n"
                out.push(32);
                out.push(32);
                out.push(32);
                out.push(32);
                push_decimal(&mut out, n.index);
                out.push(59);
                out.push(10);
                let deg = self.graph.out_degree(n);
                let mut k: usize = 0;
                while k < deg
                    invariant
                        self.graph.node_ok(n),
                        deg == self.graph.edges_of(n).len(),
                        out@.len() >= 10,
                    decreases deg - k,
                {
                    let t = self.graph.edge_target(n, k);
                    // "    <n> -> <t>;\n"
                    out.push(32);
                    out.push(32);
                    out.push(32);
                    out.push(32);
                    push_decimal(&mut out, n.index);
                    out.push(32);
                    out.push(45);
                    out.push(62);
                    out.push(32);
                    push_decimal(&mut out, t.index);
                    out.push(59);
                    out.push(10);
                    k += 1;
                }
            }
            i += 1;
        }
        // "}\n"
        out.push(125);
        out.push(10);
        out
    }
}

/// The number of `false` entries in a visited map.
pub open spec fn count_unvisited(visited: Seq<bool>) -> nat
    decreases visited.len(),
{
    if visited.len() == 0 {
        0
    } else {
        count_unvisited(visited.drop_last()) + if visited.last() {
            0nat
        } else {
            1nat
        }
    }
}

/// Marking one unvisited slot lowers the unvisited count by one.
proof fn lemma_count_unvisited_update(visited: Seq<bool>, i: int)
    requires
        0 <= i < visited.len(),
        !visited[i],
    ensures
        count_unvisited(visited) == count_unvisited(visited.update(i, true)) + 1,
    decreases visited.len(),
{
    let b = visited.update(i, true);
    if i == visited.len() - 1 {
        assert(b.drop_last() =~= visited.drop_last());
    } else {
        assert(b.drop_last() =~= visited.drop_last().update(i, true));
        lemma_count_unvisited_update(visited.drop_last(), i);
    }
}

impl<P: Parsable> Peel<P> {
    /// A human-readable indented listing of the graph reachable from the
    /// root: one line per visit, indented by depth, each node named by its
    /// slot number; a node reached again is listed with a `*` and not
    /// descended into, so cycles and self-edges stay finite. Peripheral
    /// diagnostics; the exact text is not part of the traversal contract.
    pub fn tree_export(&self) -> (r: Vec<u8>)
        requires
            self.graph.wf(),
        ensures
            match self.root {
                Some(rt) => self.graph.node_ok(rt) ==> r@.len() > 0,
                None => r@.len() == 0,
            },
    {
        let rt = match self.root {
            Some(rt) => rt,
            None => {
                return Vec::new();
            },
        };
        if !self.graph.contains(rt) {
            return Vec::new();
        }
        let mut out: Vec<u8> = Vec::new();
        let mut visited: Vec<bool> = Vec::new();
        let slot_count = self.graph.slots.len();
        let mut f: usize = 0;
        while f < slot_count
            invariant
                visited@.len() == f,
                f <= slot_count,
            decreases slot_count - f,
        {
            visited.push(false);
            f += 1;
        }
        let mut stack: Vec<(NodeId, usize)> = Vec::new();
        stack.push((rt, 0));
        while stack.len() > 0
            invariant
                self.graph.wf(),
                visited@.len() == self.graph.slots@.len(),
                forall|k: int|
                    0 <= k < stack@.len() ==> self.graph.node_ok((#[trigger] stack@[k]).0),
                out@.len() > 0 || stack@.len() > 0,
            decreases count_unvisited(visited@), stack@.len(),
        {
            let (node, depth) = match stack.pop() {
                Some(top) => top,
                None => {
                    return out;
                },
            };
            // indentation: two spaces per depth
            let mut s: usize = 0;
            while s < depth
                decreases depth - s,
            {
                out.push(32);
                out.push(32);
                s += 1;
            }
            let already = visited[node.index];
            push_decimal(&mut out, node.index);
            if already {
                // a node listed before: mark the repeat, do not descend
                out.push(32);
                out.push(42);
                out.push(10);
            } else {
                out.push(10);
                let ghost visited_pre = visited@;
                visited.remove(node.index);
                visited.insert(node.index, true);
                proof {
                    assert(visited@ =~= visited_pre.update(node.id(), true));
                    lemma_count_unvisited_update(visited_pre, node.id());
                }
                // push the children in reverse, so the first edge is listed
                // first
                let deg = self.graph.out_degree(node);
                let new_depth = if depth < 64 {
                    depth + 1
                } else {
                    depth
                };
                let mut j: usize = deg;
                while j > 0
                    invariant
                        self.graph.wf(),
                        self.graph.node_ok(node),
                        deg == self.graph.edges_of(node).len(),
                        j <= deg,
                        forall|k: int|
                            0 <= k < stack@.len() ==> self.graph.node_ok(
                                (#[trigger] stack@[k]).0,
                            ),
                    decreases j,
                {
                    j -= 1;
                    let t = self.graph.edge_target(node, j);
                    stack.push((t, new_depth));
                }
            }
        }
        out
    }
}

/// The outgoing edges of `node` after appending, in order, the pairs of
/// `pairs` whose source is `node`.
pub open spec fn edges_after(orig: Seq<NodeId>, node: NodeId, pairs: Seq<(NodeId, NodeId)>) -> Seq<
    NodeId,
>
    decreases pairs.len(),
{
    if pairs.len() == 0 {
        orig
    } else {
        let pre = edges_after(orig, node, pairs.drop_last());
        if pairs.last().0 == node {
            pre.push(pairs.last().1)
        } else {
            pre
        }
    }
}

} // verus!
