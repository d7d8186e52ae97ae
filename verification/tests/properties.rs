use peel::error::ErrorType;
use peel::example::parser1::Parser1;
use peel::example::parser3::{Parser3, Parser3Result};
use peel::example::parser4::Parser4;
use peel::example::{peel_example, ExampleParser, ExampleResult};
use peel::parser::Needed;
use peel::Peel;

#[test]
fn empty_graph_reports_no_tree_root() {
    let mut peel: Peel<ExampleParser> = Peel::new();
    let outcome = peel.traverse(b"anything", vec![], vec![]);
    assert_eq!(outcome.error.unwrap().code, ErrorType::NoTreeRoot);
    assert!(outcome.result.is_empty());
    assert!(outcome.parsers.is_empty());
    assert_eq!(outcome.left_input, b"anything");
}

#[test]
fn failing_root_reports_root_parser_failed() {
    let mut peel = peel_example();
    let outcome = peel.traverse(b"888", vec![], vec![]);
    assert_eq!(outcome.error.unwrap().code, ErrorType::RootParserFailed);
    assert!(outcome.result.is_empty());
    assert!(outcome.parsers.is_empty());
    assert_eq!(outcome.left_input, b"888");
}

#[test]
fn streaming_split_equals_one_shot() {
    // The one-shot decomposition of the whole input.
    let mut whole = peel_example();
    let one_shot = whole.traverse(b"1234", vec![], vec![]);
    assert!(one_shot.error.is_none());

    // The same input split in two, resumed at the recorded cursor with the
    // partial outcome threaded through.
    let mut split = peel_example();
    let partial = split.traverse(b"12", vec![], vec![]);
    assert!(matches!(
        partial.error.unwrap().code,
        ErrorType::Incomplete(_)
    ));
    let resumed = split.continue_traverse(b"34", partial.result, partial.parsers);

    assert_eq!(resumed.result, one_shot.result);
    assert_eq!(resumed.parsers, one_shot.parsers);
    assert_eq!(resumed.left_input, one_shot.left_input);
    assert!(resumed.error.is_none());
}

#[test]
fn edge_order_prefers_first_inserted() {
    // Two children that both match the next byte: the one inserted first
    // wins, so the walk ends at the childless first copy instead of
    // descending through the second copy to its own child.
    let mut peel: Peel<ExampleParser> = Peel::new();
    let root = peel.new_parser(ExampleParser::Parser1(Parser1));
    let first = peel.new_parser(ExampleParser::Parser3(Parser3));
    let second = peel.new_parser(ExampleParser::Parser3(Parser3));
    let deeper = peel.new_parser(ExampleParser::Parser4(Parser4));
    peel.link(root, first);
    peel.link(root, second);
    peel.link(second, deeper);

    let outcome = peel.traverse(b"134", vec![], vec![]);
    assert_eq!(outcome.result.len(), 2);
    assert_eq!(outcome.result[1], ExampleResult::Parser3(Parser3Result));
    assert_eq!(outcome.left_input, b"4");
    assert!(outcome.error.is_none());
}

#[test]
fn self_loop_is_constructible_and_traversable() {
    let mut peel: Peel<ExampleParser> = Peel::new();
    let node = peel.new_parser(ExampleParser::Parser3(Parser3));
    peel.link(node, node);

    let outcome = peel.traverse(b"333", vec![], vec![]);
    assert_eq!(outcome.result.len(), 3);
    // The self-loop asks for a fourth `3` that is not there.
    assert_eq!(
        outcome.error.unwrap().code,
        ErrorType::Incomplete(Needed::Size(1))
    );
    assert!(outcome.left_input.is_empty());
}

#[test]
fn removed_node_loses_its_edges() {
    let mut peel: Peel<ExampleParser> = Peel::new();
    let p1 = peel.new_parser(ExampleParser::Parser1(Parser1));
    let p3 = peel.new_parser(ExampleParser::Parser3(Parser3));
    peel.link(p1, p3);
    peel.link(p3, p1);
    assert!(peel.remove(p3).is_some());
    assert_eq!(peel.graph.node_count(), 1);

    // The root still parses; the dangling edge to the removed node is gone.
    let outcome = peel.traverse(b"13", vec![], vec![]);
    assert_eq!(outcome.result.len(), 1);
    assert_eq!(outcome.left_input, b"3");
    assert!(outcome.error.is_none());
}

#[test]
fn removing_the_root_unsets_it() {
    let mut peel: Peel<ExampleParser> = Peel::new();
    let root = peel.new_parser(ExampleParser::Parser1(Parser1));
    assert!(peel.remove(root).is_some());
    let outcome = peel.traverse(b"1", vec![], vec![]);
    assert_eq!(outcome.error.unwrap().code, ErrorType::NoTreeRoot);
}

#[test]
fn stale_handle_removal_is_a_no_op() {
    let mut peel: Peel<ExampleParser> = Peel::new();
    let node = peel.new_parser(ExampleParser::Parser1(Parser1));
    assert!(peel.remove(node).is_some());
    assert!(peel.remove(node).is_none());
    assert_eq!(peel.graph.node_count(), 0);
}

#[test]
fn seeded_outcome_is_kept() {
    // A failing non-root walk contributes nothing but keeps the seed.
    let mut peel = peel_example();
    let seed_results = vec![ExampleResult::Parser3(Parser3Result)];
    let outcome = peel.traverse(b"888", seed_results, vec![]);
    assert_eq!(outcome.result.len(), 1);
    assert!(outcome.error.is_none());
}

#[test]
fn tree_export_lists_reachable_nodes_once() {
    let peel = peel_example();
    let out = peel.tree_export();
    // The root is slot 0; revisited nodes are marked, so the self-loop of
    // the third parser shows up as a starred repeat instead of recursing.
    assert!(out.starts_with(b"0\n"));
    assert!(out.contains(&b'*'));

    let empty: Peel<ExampleParser> = Peel::new();
    assert!(empty.tree_export().is_empty());
}
