//! Example parsers: four one-byte tag parsers and a reference graph that
//! links them, used throughout the tests.
use vstd::prelude::*;

pub mod parser1;
pub mod parser2;
pub mod parser3;
pub mod parser4;

use crate::example::parser1::{parser1_spec, Parser1, Parser1Result};
use crate::example::parser2::{parser2_spec, Parser2, Parser2Result};
use crate::example::parser3::{parser3_spec, Parser3, Parser3Result};
use crate::example::parser4::{parser4_spec, Parser4, Parser4Result};
use crate::graph::{live_count, NodeId};
use crate::parser::{lemma_match_tag_extend, Parsable, ParseStatus};
use crate::traversal::{
    consuming_parser, streaming_graph, streaming_parser, terminating_graph,
};
use crate::Peel;

verus! {

/// An ID of a parser for the `peel_example` parsers.
#[derive(Clone, Debug, Eq, PartialEq, Ord, PartialOrd, Hash)]
pub enum ParserId {
    /// `parser1::Parser1`
    Parser1,
    /// `parser2::Parser2`
    Parser2,
    /// `parser3::Parser3`
    Parser3,
    /// `parser4::Parser4`
    Parser4,
    /// Something else
    Other(usize),
}

/// The closed sum of the example parsers: what the nodes of the example
/// graph hold.
#[derive(Debug, Clone, Copy)]
pub enum ExampleParser {
    /// The parser matching `1`.
    Parser1(Parser1),
    /// The parser matching `2`.
    Parser2(Parser2),
    /// The parser matching `3`.
    Parser3(Parser3),
    /// The parser matching `4`.
    Parser4(Parser4),
}

/// The closed sum of the example parsers' results.
#[derive(Debug, Clone, PartialEq, Eq, Structural)]
pub enum ExampleResult {
    /// Produced by the parser matching `1`.
    Parser1(Parser1Result),
    /// Produced by the parser matching `2`.
    Parser2(Parser2Result),
    /// Produced by the parser matching `3`.
    Parser3(Parser3Result),
    /// Produced by the parser matching `4`.
    Parser4(Parser4Result),
}

/// What parsing with an example parser yields: the wrapped parser's verdict,
/// with its result value wrapped into the sum.
pub open spec fn example_spec(p: ExampleParser, input: Seq<u8>) -> ParseStatus<ExampleResult> {
    match p {
        ExampleParser::Parser1(_) => match parser1_spec(input) {
            ParseStatus::Done(c, v) => ParseStatus::Done(c, ExampleResult::Parser1(v)),
            ParseStatus::Incomplete(n) => ParseStatus::Incomplete(n),
            ParseStatus::Failed => ParseStatus::Failed,
        },
        ExampleParser::Parser2(_) => match parser2_spec(input) {
            ParseStatus::Done(c, v) => ParseStatus::Done(c, ExampleResult::Parser2(v)),
            ParseStatus::Incomplete(n) => ParseStatus::Incomplete(n),
            ParseStatus::Failed => ParseStatus::Failed,
        },
        ExampleParser::Parser3(_) => match parser3_spec(input) {
            ParseStatus::Done(c, v) => ParseStatus::Done(c, ExampleResult::Parser3(v)),
            ParseStatus::Incomplete(n) => ParseStatus::Incomplete(n),
            ParseStatus::Failed => ParseStatus::Failed,
        },
        ExampleParser::Parser4(_) => match parser4_spec(input) {
            ParseStatus::Done(c, v) => ParseStatus::Done(c, ExampleResult::Parser4(v)),
            ParseStatus::Incomplete(n) => ParseStatus::Incomplete(n),
            ParseStatus::Failed => ParseStatus::Failed,
        },
    }
}

impl Parsable for ExampleParser {
    type Output = ExampleResult;

    type Id = ParserId;

    type Data = ();

    open spec fn parse_spec(
        &self,
        input: Seq<u8>,
        acc: Option<Seq<ExampleResult>>,
        data: Option<()>,
    ) -> (ParseStatus<ExampleResult>, Option<()>) {
        (example_spec(*self, input), data)
    }

    open spec fn identity_spec(&self) -> ParserId {
        match *self {
            ExampleParser::Parser1(_) => ParserId::Parser1,
            ExampleParser::Parser2(_) => ParserId::Parser2,
            ExampleParser::Parser3(_) => ParserId::Parser3,
            ExampleParser::Parser4(_) => ParserId::Parser4,
        }
    }

    proof fn lemma_parse_consumes_prefix(
        &self,
        input: Seq<u8>,
        acc: Option<Seq<ExampleResult>>,
        data: Option<()>,
    ) {
    }

    /// The actual parsing entry point: delegate to the wrapped parser and
    /// wrap its result.
    fn parse(
        &self,
        input: &[u8],
        acc: Option<&Vec<ExampleResult>>,
        data: &mut Option<()>,
    ) -> (r: ParseStatus<ExampleResult>) {
        match self {
            ExampleParser::Parser1(p) => match p.parse(input, None, data) {
                ParseStatus::Done(c, v) => ParseStatus::Done(c, ExampleResult::Parser1(v)),
                ParseStatus::Incomplete(n) => ParseStatus::Incomplete(n),
                ParseStatus::Failed => ParseStatus::Failed,
            },
            ExampleParser::Parser2(p) => match p.parse(input, None, data) {
                ParseStatus::Done(c, v) => ParseStatus::Done(c, ExampleResult::Parser2(v)),
                ParseStatus::Incomplete(n) => ParseStatus::Incomplete(n),
                ParseStatus::Failed => ParseStatus::Failed,
            },
            ExampleParser::Parser3(p) => match p.parse(input, None, data) {
                ParseStatus::Done(c, v) => ParseStatus::Done(c, ExampleResult::Parser3(v)),
                ParseStatus::Incomplete(n) => ParseStatus::Incomplete(n),
                ParseStatus::Failed => ParseStatus::Failed,
            },
            ExampleParser::Parser4(p) => match p.parse(input, None, data) {
                ParseStatus::Done(c, v) => ParseStatus::Done(c, ExampleResult::Parser4(v)),
                ParseStatus::Incomplete(n) => ParseStatus::Incomplete(n),
                ParseStatus::Failed => ParseStatus::Failed,
            },
        }
    }

    fn identity(&self) -> (r: ParserId) {
        match self {
            ExampleParser::Parser1(_) => ParserId::Parser1,
            ExampleParser::Parser2(_) => ParserId::Parser2,
            ExampleParser::Parser3(_) => ParserId::Parser3,
            ExampleParser::Parser4(_) => ParserId::Parser4,
        }
    }
}

/// Every example parser consumes its one byte on success.
pub proof fn lemma_example_consuming(q: ExampleParser)
    ensures
        consuming_parser(q),
{
    assert forall|input: Seq<u8>, acc: Option<Seq<ExampleResult>>, data: Option<()>|
        match (#[trigger] q.parse_spec(input, acc, data)).0 {
            ParseStatus::Done(consumed, _) => consumed >= 1,
            _ => true,
        } by {}
}

/// Every example parser is fit for streaming use: one-byte tag verdicts are
/// stable under input extension, and nothing touches the shared state.
pub proof fn lemma_example_streaming(q: ExampleParser)
    ensures
        streaming_parser(q),
{
    assert forall|input: Seq<u8>, ext: Seq<u8>, acc: Seq<ExampleResult>, data: Option<()>|
        ((q.parse_spec(input, Some(acc), data).0 is Done || q.parse_spec(
            input,
            Some(acc),
            data,
        ).0 is Failed) ==> #[trigger] q.parse_spec(input + ext, Some(acc), data) == q.parse_spec(
            input,
            Some(acc),
            data,
        )) by {
        match q {
            ExampleParser::Parser1(_) => lemma_match_tag_extend(input, ext, seq![49u8]),
            ExampleParser::Parser2(_) => lemma_match_tag_extend(input, ext, seq![50u8]),
            ExampleParser::Parser3(_) => lemma_match_tag_extend(input, ext, seq![51u8]),
            ExampleParser::Parser4(_) => lemma_match_tag_extend(input, ext, seq![52u8]),
        }
    }
}

/// Return a `Peel` instance for the example parsers: `Parser1` as the root,
/// linked to `Parser2` and `Parser3`, `Parser2` linked to `Parser3`,
/// `Parser3` linked to itself and to `Parser4`.
pub fn peel_example() -> (p: Peel<ExampleParser>)
    ensures
        p.graph.wf(),
        p.root == Some((NodeId { index: 0 })),
        terminating_graph(p.graph),
        streaming_graph(p.graph),
        live_count(p.graph.slots@) == 4,
        p.graph.node_ok((NodeId { index: 0 })),
        p.graph.node_ok((NodeId { index: 1 })),
        p.graph.node_ok((NodeId { index: 2 })),
        p.graph.node_ok((NodeId { index: 3 })),
        p.graph.parser_at((NodeId { index: 0 })) == ExampleParser::Parser1(Parser1),
        p.graph.parser_at((NodeId { index: 1 })) == ExampleParser::Parser2(Parser2),
        p.graph.parser_at((NodeId { index: 2 })) == ExampleParser::Parser3(Parser3),
        p.graph.parser_at((NodeId { index: 3 })) == ExampleParser::Parser4(Parser4),
        p.graph.edges_of((NodeId { index: 0 })) == seq![NodeId { index: 1 }, NodeId { index: 2 }],
        p.graph.edges_of((NodeId { index: 1 })) == seq![NodeId { index: 2 }],
        p.graph.edges_of((NodeId { index: 2 })) == seq![NodeId { index: 2 }, NodeId { index: 3 }],
        p.graph.edges_of((NodeId { index: 3 })) == Seq::<NodeId>::empty(),
{
    let mut p: Peel<ExampleParser> = Peel::new();
    let parser_1 = p.new_parser(ExampleParser::Parser1(Parser1));
    let parser_2 = p.new_parser(ExampleParser::Parser2(Parser2));
    let parser_3 = p.new_parser(ExampleParser::Parser3(Parser3));
    let parser_4 = p.new_parser(ExampleParser::Parser4(Parser4));
    let pairs: [(NodeId, NodeId); 5] = [
        (parser_1, parser_2),
        (parser_1, parser_3),
        (parser_2, parser_3),
        (parser_3, parser_3),
        (parser_3, parser_4),
    ];
    p.link_nodes(pairs.as_slice());
    proof {
        reveal_with_fuel(crate::edges_after, 6);
        assert(pairs@.len() == 5);
        assert(pairs@[0] == (parser_1, parser_2));
        assert(pairs@[1] == (parser_1, parser_3));
        assert(pairs@[2] == (parser_2, parser_3));
        assert(pairs@[3] == (parser_3, parser_3));
        assert(pairs@[4] == (parser_3, parser_4));
        assert forall|n: NodeId| p.graph.node_ok(n) implies consuming_parser(
            #[trigger] p.graph.parser_at(n),
        ) by {
            lemma_example_consuming(p.graph.parser_at(n));
        }
        assert forall|n: NodeId| p.graph.node_ok(n) implies streaming_parser(
            #[trigger] p.graph.parser_at(n),
        ) by {
            lemma_example_streaming(p.graph.parser_at(n));
        }
        assert(parser_1 == NodeId { index: 0 });
        assert(parser_2 == NodeId { index: 1 });
        assert(parser_3 == NodeId { index: 2 });
        assert(parser_4 == NodeId { index: 3 });
        assert(p.graph.edges_of(parser_1) =~= seq![parser_2, parser_3]);
        assert(p.graph.edges_of(parser_2) =~= seq![parser_3]);
        assert(p.graph.edges_of(parser_3) =~= seq![parser_3, parser_4]);
        assert(p.graph.edges_of(parser_4) =~= Seq::<NodeId>::empty());
    }
    p
}

} // verus!
