//! The mathematical model of the traversal engine: what one backtracking
//! walk through a parser graph produces, stated as a relation between the
//! starting state and the outcome, together with the laws that hold of it.
use vstd::prelude::*;

use crate::error::ErrorType;
use crate::graph::{NodeId, ParserGraph};
use crate::parser::{Parsable, ParseStatus};

verus! {

/// Everything one traversal call leaves behind: the result stack, the parser
/// trail aligned with it, the unconsumed input, the shared state, the error
/// (if the walk did not end in a leaf success), and the node to resume at
/// when the error is `Incomplete`.
#[verifier::ext_equal]
pub struct RunEnd<R, I, D> {
    /// The accumulated result stack.
    pub results: Seq<R>,
    /// The parser trail, one identity per result.
    pub trail: Seq<I>,
    /// The unconsumed rest of the input.
    pub left: Seq<u8>,
    /// The shared state after the walk.
    pub data: Option<D>,
    /// The error code, `None` for a leaf success.
    pub error: Option<ErrorType>,
    /// The continuation cursor, set exactly when the error is `Incomplete`.
    pub cursor: Option<NodeId>,
}

/// What scanning the candidate children of one node yields.
pub enum Scan<R, D> {
    /// Every candidate failed (or there was none); the walk ends here.
    NoChild {
        /// Shared state after all failed attempts.
        data: Option<D>,
    },
    /// A candidate ran out of input before it could decide.
    Interrupted {
        /// The interrupted node.
        node: NodeId,
        /// How many bytes it asked for.
        needed: crate::parser::Needed,
        /// Shared state after the interrupted attempt.
        data: Option<D>,
    },
    /// The first candidate that succeeded; its later siblings are never
    /// tried.
    Advance {
        /// The succeeding node.
        node: NodeId,
        /// How many bytes its parser consumed.
        consumed: usize,
        /// The value it produced.
        value: R,
        /// Shared state after the successful attempt.
        data: Option<D>,
    },
}

/// Try the candidate nodes `children` in order on `input`: failures are
/// skipped (threading the shared state), and the first success or incomplete
/// signal decides.
pub open spec fn scan_children<P: Parsable>(
    g: ParserGraph<P>,
    children: Seq<NodeId>,
    input: Seq<u8>,
    acc: Seq<P::Output>,
    data: Option<P::Data>,
) -> Scan<P::Output, P::Data>
    decreases children.len(),
{
    if children.len() == 0 {
        Scan::NoChild { data }
    } else {
        let child = children[0];
        let attempt = g.parser_at(child).parse_spec(input, Some(acc), data);
        match attempt.0 {
            ParseStatus::Done(consumed, value) => Scan::Advance {
                node: child,
                consumed,
                value,
                data: attempt.1,
            },
            ParseStatus::Incomplete(needed) => Scan::Interrupted {
                node: child,
                needed,
                data: attempt.1,
            },
            ParseStatus::Failed => scan_children(g, children.drop_first(), input, acc, attempt.1),
        }
    }
}

/// The walk relation: starting just after node `cur` succeeded, with `left`
/// unconsumed, `results`/`trail` accumulated and `data` as shared state, the
/// traversal ends in exactly `fin`. The greedy descent repeats: scan the
/// children of the current node in insertion order; the first success
/// descends, an incomplete signal ends the whole walk, and if every child
/// fails the current node's success stands as the leaf of the path.
pub open spec fn walk_from<P: Parsable>(
    g: ParserGraph<P>,
    cur: NodeId,
    left: Seq<u8>,
    results: Seq<P::Output>,
    trail: Seq<P::Id>,
    data: Option<P::Data>,
    fin: RunEnd<P::Output, P::Id, P::Data>,
) -> bool
    decreases fin.results.len() - results.len(),
{
    match scan_children(g, g.edges_of(cur), left, results, data) {
        Scan::NoChild { data: d } => fin == (RunEnd {
            results,
            trail,
            left,
            data: d,
            error: None,
            cursor: None,
        }),
        Scan::Interrupted { node, needed, data: d } => fin == (RunEnd {
            results,
            trail,
            left,
            data: d,
            error: Some(ErrorType::Incomplete(needed)),
            cursor: Some(node),
        }),
        Scan::Advance { node, consumed, value, data: d } => {
            if fin.results.len() <= results.len() {
                false
            } else {
                walk_from(
                    g,
                    node,
                    left.skip(consumed as int),
                    results.push(value),
                    trail.push(g.parser_at(node).identity_spec()),
                    d,
                    fin,
                )
            }
        },
    }
}

/// The whole run of one traversal call that starts at node `start`: attempt
/// `start` itself, then walk greedily from it. A failing start contributes
/// nothing; it is an error only when nothing was accumulated at all.
pub open spec fn run_from_spec<P: Parsable>(
    g: ParserGraph<P>,
    start: NodeId,
    input: Seq<u8>,
    results: Seq<P::Output>,
    trail: Seq<P::Id>,
    data: Option<P::Data>,
    fin: RunEnd<P::Output, P::Id, P::Data>,
) -> bool {
    let attempt = g.parser_at(start).parse_spec(input, Some(results), data);
    match attempt.0 {
        ParseStatus::Failed => if results.len() == 0 {
            fin == (RunEnd {
                results,
                trail,
                left: input,
                data: attempt.1,
                error: Some(ErrorType::RootParserFailed),
                cursor: None,
            })
        } else {
            fin == (RunEnd {
                results,
                trail,
                left: input,
                data: attempt.1,
                error: None,
                cursor: None,
            })
        },
        ParseStatus::Incomplete(needed) => fin == (RunEnd {
            results,
            trail,
            left: input,
            data: attempt.1,
            error: Some(ErrorType::Incomplete(needed)),
            cursor: Some(start),
        }),
        ParseStatus::Done(consumed, value) => walk_from(
            g,
            start,
            input.skip(consumed as int),
            results.push(value),
            trail.push(g.parser_at(start).identity_spec()),
            attempt.1,
            fin,
        ),
    }
}

/// A walk only ever appends to the result stack: the outcome extends what
/// was accumulated when the walk began, and the trail stays aligned with it.
pub proof fn lemma_walk_extends<P: Parsable>(
    g: ParserGraph<P>,
    cur: NodeId,
    left: Seq<u8>,
    results: Seq<P::Output>,
    trail: Seq<P::Id>,
    data: Option<P::Data>,
    fin: RunEnd<P::Output, P::Id, P::Data>,
)
    requires
        walk_from(g, cur, left, results, trail, data, fin),
    ensures
        fin.results.len() >= results.len(),
        fin.trail.len() - fin.results.len() == trail.len() - results.len(),
        fin.results.take(results.len() as int) == results,
        fin.trail.take(trail.len() as int) == trail,
    decreases fin.results.len() - results.len(),
{
    match scan_children(g, g.edges_of(cur), left, results, data) {
        Scan::NoChild { data: d } => {
            assert(fin.results.take(results.len() as int) =~= results);
            assert(fin.trail.take(trail.len() as int) =~= trail);
        },
        Scan::Interrupted { node, needed, data: d } => {
            assert(fin.results.take(results.len() as int) =~= results);
            assert(fin.trail.take(trail.len() as int) =~= trail);
        },
        Scan::Advance { node, consumed, value, data: d } => {
            lemma_walk_extends(
                g,
                node,
                left.skip(consumed as int),
                results.push(value),
                trail.push(g.parser_at(node).identity_spec()),
                d,
                fin,
            );
            assert(fin.results.take(results.len() as int) =~= fin.results.take(
                (results.len() + 1) as int,
            ).take(results.len() as int));
            assert(results.push(value).take(results.len() as int) =~= results);
            assert(fin.trail.take(trail.len() as int) =~= fin.trail.take(
                (trail.len() + 1) as int,
            ).take(trail.len() as int));
            assert(trail.push(g.parser_at(node).identity_spec()).take(trail.len() as int)
                =~= trail);
        },
    }
}

/// The walk relation is a partial function: one starting state has at most
/// one outcome. Together with the traversal contract this pins the result of
/// every traversal call down completely.
pub proof fn lemma_walk_deterministic<P: Parsable>(
    g: ParserGraph<P>,
    cur: NodeId,
    left: Seq<u8>,
    results: Seq<P::Output>,
    trail: Seq<P::Id>,
    data: Option<P::Data>,
    fin1: RunEnd<P::Output, P::Id, P::Data>,
    fin2: RunEnd<P::Output, P::Id, P::Data>,
)
    requires
        walk_from(g, cur, left, results, trail, data, fin1),
        walk_from(g, cur, left, results, trail, data, fin2),
    ensures
        fin1 == fin2,
    decreases fin1.results.len() - results.len(),
{
    match scan_children(g, g.edges_of(cur), left, results, data) {
        Scan::NoChild { data: d } => {},
        Scan::Interrupted { node, needed, data: d } => {},
        Scan::Advance { node, consumed, value, data: d } => {
            lemma_walk_deterministic(
                g,
                node,
                left.skip(consumed as int),
                results.push(value),
                trail.push(g.parser_at(node).identity_spec()),
                d,
                fin1,
                fin2,
            );
        },
    }
}

/// One traversal run has at most one outcome.
pub proof fn lemma_run_deterministic<P: Parsable>(
    g: ParserGraph<P>,
    start: NodeId,
    input: Seq<u8>,
    results: Seq<P::Output>,
    trail: Seq<P::Id>,
    data: Option<P::Data>,
    fin1: RunEnd<P::Output, P::Id, P::Data>,
    fin2: RunEnd<P::Output, P::Id, P::Data>,
)
    requires
        run_from_spec(g, start, input, results, trail, data, fin1),
        run_from_spec(g, start, input, results, trail, data, fin2),
    ensures
        fin1 == fin2,
{
    let attempt = g.parser_at(start).parse_spec(input, Some(results), data);
    match attempt.0 {
        ParseStatus::Done(consumed, value) => {
            lemma_walk_deterministic(
                g,
                start,
                input.skip(consumed as int),
                results.push(value),
                trail.push(g.parser_at(start).identity_spec()),
                attempt.1,
                fin1,
                fin2,
            );
        },
        _ => {},
    }
}

/// What a scan can report about its winning node: it is one of the
/// candidates, and on success it consumed no more than the input it saw.
pub proof fn lemma_scan_wf<P: Parsable>(
    g: ParserGraph<P>,
    children: Seq<NodeId>,
    input: Seq<u8>,
    acc: Seq<P::Output>,
    data: Option<P::Data>,
)
    ensures
        (match scan_children(g, children, input, acc, data) {
            Scan::NoChild { .. } => true,
            Scan::Interrupted { node, .. } => children.contains(node),
            Scan::Advance { node, consumed, value, data: d } => children.contains(node) && consumed
                <= input.len() && exists|dpre: Option<P::Data>|
                #[trigger] g.parser_at(node).parse_spec(input, Some(acc), dpre) == (
                ParseStatus::<P::Output>::Done(consumed, value),
                d,
            ),
        }),
    decreases children.len(),
{
    if children.len() > 0 {
        let child = children[0];
        let attempt = g.parser_at(child).parse_spec(input, Some(acc), data);
        match attempt.0 {
            ParseStatus::Done(consumed, value) => {
                g.parser_at(child).lemma_parse_consumes_prefix(input, Some(acc), data);
                assert(children[0] == child);
                assert(g.parser_at(child).parse_spec(input, Some(acc), data) == (
                    ParseStatus::<P::Output>::Done(consumed, value),
                    attempt.1,
                ));
            },
            ParseStatus::Incomplete(needed) => {
                assert(children[0] == child);
            },
            ParseStatus::Failed => {
                lemma_scan_wf(g, children.drop_first(), input, acc, attempt.1);
                match scan_children(g, children.drop_first(), input, acc, attempt.1) {
                    Scan::Interrupted { node, .. } => {
                        let k = choose|k: int|
                            0 <= k < children.drop_first().len() && children.drop_first()[k]
                                == node;
                        assert(children[k + 1] == node);
                    },
                    Scan::Advance { node, .. } => {
                        let k = choose|k: int|
                            0 <= k < children.drop_first().len() && children.drop_first()[k]
                                == node;
                        assert(children[k + 1] == node);
                    },
                    _ => {},
                }
            },
        }
    }
}

/// Edge-order determinism: among the candidate children, the first one whose
/// parser succeeds on the input wins, provided every candidate before it
/// fails. Insertion order alone decides branch precedence.
pub proof fn lemma_first_success_wins<P: Parsable>(
    g: ParserGraph<P>,
    children: Seq<NodeId>,
    input: Seq<u8>,
    acc: Seq<P::Output>,
    data: Option<P::Data>,
    i: int,
)
    requires
        0 <= i < children.len(),
        forall|j: int|
            0 <= j < i ==> (#[trigger] g.parser_at(children[j]).parse_spec(
                input,
                Some(acc),
                scan_data_before(g, children, input, acc, data, j),
            )).0 is Failed,
        !((g.parser_at(children[i]).parse_spec(
            input,
            Some(acc),
            scan_data_before(g, children, input, acc, data, i),
        )).0 is Failed),
    ensures
        (match scan_children(g, children, input, acc, data) {
            Scan::NoChild { .. } => false,
            Scan::Interrupted { node, .. } => node == children[i],
            Scan::Advance { node, .. } => node == children[i],
        }),
    decreases i,
{
    let attempt = g.parser_at(children[0]).parse_spec(input, Some(acc), data);
    assert(scan_data_before(g, children, input, acc, data, 0) == data);
    if i == 0 {
    } else {
        assert((g.parser_at(children[0]).parse_spec(input, Some(acc), data)).0 is Failed);
        assert forall|j: int| 0 <= j < i - 1 implies (#[trigger] g.parser_at(
            children.drop_first()[j],
        ).parse_spec(
            input,
            Some(acc),
            scan_data_before(g, children.drop_first(), input, acc, attempt.1, j),
        )).0 is Failed by {
            lemma_scan_data_before_shift(g, children, input, acc, data, j + 1);
            assert(children[j + 1] == children.drop_first()[j]);
        }
        lemma_scan_data_before_shift(g, children, input, acc, data, i);
        lemma_first_success_wins(g, children.drop_first(), input, acc, attempt.1, i - 1);
    }
}

/// The shared state as it stands when the scan reaches candidate `i`, after
/// the failed attempts of all earlier candidates.
pub open spec fn scan_data_before<P: Parsable>(
    g: ParserGraph<P>,
    children: Seq<NodeId>,
    input: Seq<u8>,
    acc: Seq<P::Output>,
    data: Option<P::Data>,
    i: int,
) -> Option<P::Data>
    decreases i,
{
    if i <= 0 {
        data
    } else {
        scan_data_before(
            g,
            children.drop_first(),
            input,
            acc,
            g.parser_at(children[0]).parse_spec(input, Some(acc), data).1,
            i - 1,
        )
    }
}

/// A run only ever appends to the result stack, and it appends to the
/// parser trail in lockstep: a trail aligned one-to-one with the result
/// stack when the run began is still aligned when it ends.
pub proof fn lemma_run_extends<P: Parsable>(
    g: ParserGraph<P>,
    start: NodeId,
    input: Seq<u8>,
    results: Seq<P::Output>,
    trail: Seq<P::Id>,
    data: Option<P::Data>,
    fin: RunEnd<P::Output, P::Id, P::Data>,
)
    requires
        run_from_spec(g, start, input, results, trail, data, fin),
    ensures
        fin.results.len() >= results.len(),
        fin.trail.len() - fin.results.len() == trail.len() - results.len(),
        fin.results.take(results.len() as int) == results,
        fin.trail.take(trail.len() as int) == trail,
{
    let attempt = g.parser_at(start).parse_spec(input, Some(results), data);
    match attempt.0 {
        ParseStatus::Done(consumed, value) => {
            lemma_walk_extends(
                g,
                start,
                input.skip(consumed as int),
                results.push(value),
                trail.push(g.parser_at(start).identity_spec()),
                attempt.1,
                fin,
            );
        },
        _ => {},
    }
}

/// A parser whose decisions are stable under extension of the input: once it
/// succeeds or fails on some bytes, handing it those bytes plus more changes
/// nothing.
pub open spec fn decision_stable<P: Parsable>(p: P) -> bool {
    forall|input: Seq<u8>, ext: Seq<u8>, acc: Seq<P::Output>, data: Option<P::Data>|
        ((p.parse_spec(input, Some(acc), data).0 is Done || p.parse_spec(
            input,
            Some(acc),
            data,
        ).0 is Failed) ==> #[trigger] p.parse_spec(input + ext, Some(acc), data) == p.parse_spec(
            input,
            Some(acc),
            data,
        ))
}

/// A parser whose incomplete attempts leave the shared state as they found
/// it, so that a later resumption sees the same state the interrupted
/// attempt saw.
pub open spec fn incomplete_keeps_data<P: Parsable>(p: P) -> bool {
    forall|input: Seq<u8>, acc: Seq<P::Output>, data: Option<P::Data>|
        (#[trigger] p.parse_spec(input, Some(acc), data)).0 is Incomplete ==> p.parse_spec(
            input,
            Some(acc),
            data,
        ).1 == data
}

/// A parser fit for streaming use: decisions stand under input extension and
/// incomplete attempts are free of side effects on the shared state.
pub open spec fn streaming_parser<P: Parsable>(p: P) -> bool {
    decision_stable(p) && incomplete_keeps_data(p)
}

/// Every parser of the graph is fit for streaming use.
pub open spec fn streaming_graph<P: Parsable>(g: ParserGraph<P>) -> bool {
    forall|n: NodeId| g.node_ok(n) ==> streaming_parser(#[trigger] g.parser_at(n))
}

/// Extending the input does not change what a scan decides, except that an
/// interrupted candidate is decided anew on the extended input.
proof fn lemma_scan_extend<P: Parsable>(
    g: ParserGraph<P>,
    children: Seq<NodeId>,
    input: Seq<u8>,
    ext: Seq<u8>,
    acc: Seq<P::Output>,
    data: Option<P::Data>,
)
    requires
        forall|k: int|
            0 <= k < children.len() ==> streaming_parser(#[trigger] g.parser_at(children[k])),
    ensures
        (match scan_children(g, children, input, acc, data) {
            Scan::NoChild { data: d } => scan_children(g, children, input + ext, acc, data) == (
            Scan::<P::Output, P::Data>::NoChild { data: d }),
            Scan::Advance { node, consumed, value, data: d } => scan_children(
                g,
                children,
                input + ext,
                acc,
                data,
            ) == (Scan::<P::Output, P::Data>::Advance { node, consumed, value, data: d }),
            Scan::Interrupted { node, needed, data: d } => {
                let re = g.parser_at(node).parse_spec(input + ext, Some(acc), d);
                match re.0 {
                    ParseStatus::Done(c2, v2) => scan_children(g, children, input + ext, acc, data)
                        == (Scan::<P::Output, P::Data>::Advance {
                        node,
                        consumed: c2,
                        value: v2,
                        data: re.1,
                    }),
                    ParseStatus::Incomplete(n2) => scan_children(
                        g,
                        children,
                        input + ext,
                        acc,
                        data,
                    ) == (Scan::<P::Output, P::Data>::Interrupted {
                        node,
                        needed: n2,
                        data: re.1,
                    }) && re.1 == d,
                    ParseStatus::Failed => true,
                }
            },
        }),
    decreases children.len(),
{
    if children.len() > 0 {
        let child = children[0];
        assert(streaming_parser(g.parser_at(children[0])));
        let attempt = g.parser_at(child).parse_spec(input, Some(acc), data);
        match attempt.0 {
            ParseStatus::Done(consumed, value) => {
                assert(g.parser_at(child).parse_spec(input + ext, Some(acc), data) == attempt);
            },
            ParseStatus::Incomplete(needed) => {
                assert(attempt.1 == data);
            },
            ParseStatus::Failed => {
                assert(g.parser_at(child).parse_spec(input + ext, Some(acc), data) == attempt);
                assert forall|k: int| 0 <= k < children.drop_first().len() implies streaming_parser(
                    #[trigger] g.parser_at(children.drop_first()[k]),
                ) by {
                    assert(children.drop_first()[k] == children[k + 1]);
                }
                lemma_scan_extend(g, children.drop_first(), input, ext, acc, attempt.1);
            },
        }
    }
}

/// Resuming an interrupted walk is the same as walking the extended input in
/// one piece: if the walk from some state was interrupted by an incomplete
/// signal, then, for streaming parsers, continuing at the recorded cursor
/// with the extended leftover reaches exactly the outcomes the one-shot walk
/// of the extended input reaches. The one carve-out: the resumed parser must
/// not fail on the extended input, since the one-shot walk would then fall
/// through to that node's later siblings, while a resumption has no siblings
/// to fall through to.
proof fn lemma_walk_resume<P: Parsable>(
    g: ParserGraph<P>,
    cur: NodeId,
    left: Seq<u8>,
    results: Seq<P::Output>,
    trail: Seq<P::Id>,
    data: Option<P::Data>,
    fin: RunEnd<P::Output, P::Id, P::Data>,
    ext: Seq<u8>,
    fin2: RunEnd<P::Output, P::Id, P::Data>,
)
    requires
        g.wf(),
        g.node_ok(cur),
        streaming_graph(g),
        walk_from(g, cur, left, results, trail, data, fin),
        fin.error matches Some(ErrorType::Incomplete(_)),
        fin.cursor is Some,
        !((g.parser_at(fin.cursor->Some_0).parse_spec(
            fin.left + ext,
            Some(fin.results),
            fin.data,
        )).0 is Failed),
    ensures
        walk_from(g, cur, left + ext, results, trail, data, fin2) <==> run_from_spec(
            g,
            fin.cursor->Some_0,
            fin.left + ext,
            fin.results,
            fin.trail,
            fin.data,
            fin2,
        ),
    decreases fin.results.len() - results.len(),
{
    let children = g.edges_of(cur);
    assert forall|k: int| 0 <= k < children.len() implies streaming_parser(
        #[trigger] g.parser_at(children[k]),
    ) by {
        assert(g.node_ok(children[k]));
    }
    lemma_scan_extend(g, children, left, ext, results, data);
    lemma_scan_wf(g, children, left, results, data);
    match scan_children(g, children, left, results, data) {
        Scan::NoChild { data: d } => {
            assert(false);
        },
        Scan::Interrupted { node, needed, data: d } => {
            assert(fin.cursor->Some_0 == node && fin.left == left && fin.results == results
                && fin.trail == trail && fin.data == d);
            let re = g.parser_at(node).parse_spec(left + ext, Some(results), d);
            match re.0 {
                ParseStatus::Done(c2, v2) => {
                    if walk_from(g, cur, left + ext, results, trail, data, fin2) {
                        lemma_walk_extends(
                            g,
                            node,
                            (left + ext).skip(c2 as int),
                            results.push(v2),
                            trail.push(g.parser_at(node).identity_spec()),
                            re.1,
                            fin2,
                        );
                    }
                    if run_from_spec(g, node, left + ext, results, trail, d, fin2) {
                        lemma_run_extends(g, node, left + ext, results, trail, d, fin2);
                        lemma_walk_extends(
                            g,
                            node,
                            (left + ext).skip(c2 as int),
                            results.push(v2),
                            trail.push(g.parser_at(node).identity_spec()),
                            re.1,
                            fin2,
                        );
                    }
                },
                ParseStatus::Incomplete(n2) => {},
                ParseStatus::Failed => {
                    assert(false);
                },
            }
        },
        Scan::Advance { node, consumed, value, data: d } => {
            assert(g.edges_of(cur).contains(node));
            let kk = choose|kk: int|
                0 <= kk < g.edges_of(cur).len() && g.edges_of(cur)[kk] == node;
            assert(g.node_ok(g.edges_of(cur)[kk]));
            assert((left + ext).skip(consumed as int) =~= left.skip(consumed as int) + ext);
            let results2 = results.push(value);
            let trail2 = trail.push(g.parser_at(node).identity_spec());
            lemma_walk_extends(g, node, left.skip(consumed as int), results2, trail2, d, fin);
            lemma_walk_resume(
                g,
                node,
                left.skip(consumed as int),
                results2,
                trail2,
                d,
                fin,
                ext,
                fin2,
            );
            if run_from_spec(
                g,
                fin.cursor->Some_0,
                fin.left + ext,
                fin.results,
                fin.trail,
                fin.data,
                fin2,
            ) {
                lemma_run_extends(
                    g,
                    fin.cursor->Some_0,
                    fin.left + ext,
                    fin.results,
                    fin.trail,
                    fin.data,
                    fin2,
                );
            }
        },
    }
}

/// Streaming equivalence: when a run over input `a` ends with an incomplete
/// signal, resuming at the recorded cursor, with the recorded stacks and the
/// leftover input extended by `b`, ends exactly as the one-shot run over the
/// whole input would have, provided every parser of the graph is fit for
/// streaming use and the resumed parser does not fail on the extended input.
/// (A resumed parser that fails ends the resumption, while the one-shot walk
/// would fall through to that node's later siblings.)
pub proof fn lemma_streaming_resume<P: Parsable>(
    g: ParserGraph<P>,
    start: NodeId,
    a: Seq<u8>,
    b: Seq<u8>,
    seed_results: Seq<P::Output>,
    seed_trail: Seq<P::Id>,
    data: Option<P::Data>,
    fin1: RunEnd<P::Output, P::Id, P::Data>,
    fin2: RunEnd<P::Output, P::Id, P::Data>,
    fin3: RunEnd<P::Output, P::Id, P::Data>,
)
    requires
        g.wf(),
        g.node_ok(start),
        streaming_graph(g),
        run_from_spec(g, start, a, seed_results, seed_trail, data, fin1),
        fin1.error matches Some(ErrorType::Incomplete(_)),
        fin1.cursor is Some,
        !((g.parser_at(fin1.cursor->Some_0).parse_spec(
            fin1.left + b,
            Some(fin1.results),
            fin1.data,
        )).0 is Failed),
        run_from_spec(
            g,
            fin1.cursor->Some_0,
            fin1.left + b,
            fin1.results,
            fin1.trail,
            fin1.data,
            fin2,
        ),
        run_from_spec(g, start, a + b, seed_results, seed_trail, data, fin3),
    ensures
        fin2 == fin3,
{
    assert(streaming_parser(g.parser_at(start)));
    let attempt = g.parser_at(start).parse_spec(a, Some(seed_results), data);
    match attempt.0 {
        ParseStatus::Failed => {
            assert(false);
        },
        ParseStatus::Incomplete(needed) => {
            assert(attempt.1 == data);
            assert(fin1.cursor->Some_0 == start && fin1.left == a && fin1.results == seed_results
                && fin1.trail == seed_trail && fin1.data == data);
            lemma_run_deterministic(
                g,
                start,
                a + b,
                seed_results,
                seed_trail,
                data,
                fin2,
                fin3,
            );
        },
        ParseStatus::Done(consumed, value) => {
            g.parser_at(start).lemma_parse_consumes_prefix(a, Some(seed_results), data);
            assert(g.parser_at(start).parse_spec(a + b, Some(seed_results), data) == attempt);
            assert((a + b).skip(consumed as int) =~= a.skip(consumed as int) + b);
            let results2 = seed_results.push(value);
            let trail2 = seed_trail.push(g.parser_at(start).identity_spec());
            lemma_walk_resume(
                g,
                start,
                a.skip(consumed as int),
                results2,
                trail2,
                attempt.1,
                fin1,
                b,
                fin3,
            );
            lemma_run_deterministic(
                g,
                fin1.cursor->Some_0,
                fin1.left + b,
                fin1.results,
                fin1.trail,
                fin1.data,
                fin2,
                fin3,
            );
        },
    }
}

/// A parser that consumes at least one byte whenever it succeeds.
pub open spec fn consuming_parser<P: Parsable>(p: P) -> bool {
    forall|input: Seq<u8>, acc: Option<Seq<P::Output>>, data: Option<P::Data>|
        match (#[trigger] p.parse_spec(input, acc, data)).0 {
            ParseStatus::Done(consumed, _) => consumed >= 1,
            _ => true,
        }
}

/// A graph whose greedy walks always end: every node's parser consumes input
/// on success, except for leaf nodes, whose success ends the walk anyway.
/// Self-edges and cycles remain perfectly legal; termination rests solely on
/// the parsers' input consumption, and a walk can visit one node many times.
pub open spec fn terminating_graph<P: Parsable>(g: ParserGraph<P>) -> bool {
    forall|n: NodeId|
        g.node_ok(n) ==> consuming_parser(#[trigger] g.parser_at(n)) || g.edges_of(n).len() == 0
}

/// On a terminating graph, the walk relation is total: from every state some
/// outcome is reached. Together with `lemma_run_deterministic` this makes it
/// a function of the starting state.
pub proof fn lemma_walk_exists<P: Parsable>(
    g: ParserGraph<P>,
    cur: NodeId,
    left: Seq<u8>,
    results: Seq<P::Output>,
    trail: Seq<P::Id>,
    data: Option<P::Data>,
)
    requires
        g.wf(),
        g.node_ok(cur),
        terminating_graph(g),
    ensures
        exists|fin: RunEnd<P::Output, P::Id, P::Data>|
            walk_from(g, cur, left, results, trail, data, fin),
    decreases left.len(),
{
    lemma_scan_wf(g, g.edges_of(cur), left, results, data);
    match scan_children(g, g.edges_of(cur), left, results, data) {
        Scan::NoChild { data: d } => {
            let fin = RunEnd { results, trail, left, data: d, error: None, cursor: None };
            assert(walk_from(g, cur, left, results, trail, data, fin));
        },
        Scan::Interrupted { node, needed, data: d } => {
            let fin = RunEnd {
                results,
                trail,
                left,
                data: d,
                error: Some(ErrorType::Incomplete(needed)),
                cursor: Some(node),
            };
            assert(walk_from(g, cur, left, results, trail, data, fin));
        },
        Scan::Advance { node, consumed, value, data: d } => {
            assert(g.edges_of(cur).contains(node));
            let kk = choose|kk: int|
                0 <= kk < g.edges_of(cur).len() && g.edges_of(cur)[kk] == node;
            assert(g.node_ok(g.edges_of(cur)[kk]));
            let results2 = results.push(value);
            let trail2 = trail.push(g.parser_at(node).identity_spec());
            if consumed >= 1 {
                lemma_walk_exists(g, node, left.skip(consumed as int), results2, trail2, d);
                let fin = choose|fin: RunEnd<P::Output, P::Id, P::Data>|
                    walk_from(g, node, left.skip(consumed as int), results2, trail2, d, fin);
                lemma_walk_extends(
                    g,
                    node,
                    left.skip(consumed as int),
                    results2,
                    trail2,
                    d,
                    fin,
                );
                assert(walk_from(g, cur, left, results, trail, data, fin));
            } else {
                let dpre = choose|dpre: Option<P::Data>|
                    #[trigger] g.parser_at(node).parse_spec(left, Some(results), dpre) == (
                    ParseStatus::<P::Output>::Done(consumed, value),
                    d,
                );
                assert(!consuming_parser(g.parser_at(node)));
                assert(g.edges_of(node).len() == 0);
                assert(left.skip(consumed as int) =~= left);
                let fin = RunEnd {
                    results: results2,
                    trail: trail2,
                    left,
                    data: d,
                    error: None,
                    cursor: None,
                };
                assert(scan_children(g, g.edges_of(node), left, results2, d)
                    == Scan::<P::Output, P::Data>::NoChild { data: d });
                assert(walk_from(g, node, left, results2, trail2, d, fin));
                assert(walk_from(g, cur, left, results, trail, data, fin));
            }
        },
    }
}

/// On a terminating graph every run reaches an outcome: the hypothesis that
/// `traverse` and `continue_traverse` ask their callers for.
pub proof fn lemma_run_exists<P: Parsable>(
    g: ParserGraph<P>,
    start: NodeId,
    input: Seq<u8>,
    results: Seq<P::Output>,
    trail: Seq<P::Id>,
    data: Option<P::Data>,
)
    requires
        g.wf(),
        g.node_ok(start),
        terminating_graph(g),
    ensures
        exists|fin: RunEnd<P::Output, P::Id, P::Data>|
            run_from_spec(g, start, input, results, trail, data, fin),
{
    let attempt = g.parser_at(start).parse_spec(input, Some(results), data);
    match attempt.0 {
        ParseStatus::Failed => {
            if results.len() == 0 {
                let fin = RunEnd {
                    results,
                    trail,
                    left: input,
                    data: attempt.1,
                    error: Some(ErrorType::RootParserFailed),
                    cursor: None,
                };
                assert(run_from_spec(g, start, input, results, trail, data, fin));
            } else {
                let fin = RunEnd {
                    results,
                    trail,
                    left: input,
                    data: attempt.1,
                    error: None,
                    cursor: None,
                };
                assert(run_from_spec(g, start, input, results, trail, data, fin));
            }
        },
        ParseStatus::Incomplete(needed) => {
            let fin = RunEnd {
                results,
                trail,
                left: input,
                data: attempt.1,
                error: Some(ErrorType::Incomplete(needed)),
                cursor: Some(start),
            };
            assert(run_from_spec(g, start, input, results, trail, data, fin));
        },
        ParseStatus::Done(consumed, value) => {
            let results2 = results.push(value);
            let trail2 = trail.push(g.parser_at(start).identity_spec());
            lemma_walk_exists(g, start, input.skip(consumed as int), results2, trail2, attempt.1);
            let fin = choose|fin: RunEnd<P::Output, P::Id, P::Data>|
                walk_from(g, start, input.skip(consumed as int), results2, trail2, attempt.1, fin);
            lemma_walk_extends(
                g,
                start,
                input.skip(consumed as int),
                results2,
                trail2,
                attempt.1,
                fin,
            );
            assert(run_from_spec(g, start, input, results, trail, data, fin));
        },
    }
}

/// Dropping the first candidate shifts the shared-state bookkeeping by one.
proof fn lemma_scan_data_before_shift<P: Parsable>(
    g: ParserGraph<P>,
    children: Seq<NodeId>,
    input: Seq<u8>,
    acc: Seq<P::Output>,
    data: Option<P::Data>,
    i: int,
)
    requires
        1 <= i,
        children.len() >= 1,
    ensures
        scan_data_before(g, children, input, acc, data, i) == scan_data_before(
            g,
            children.drop_first(),
            input,
            acc,
            g.parser_at(children[0]).parse_spec(input, Some(acc), data).1,
            i - 1,
        ),
{
}

} // verus!
