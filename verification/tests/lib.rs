use peel::error::ErrorType;
use peel::example::parser1::{Parser1, Parser1Result};
use peel::example::parser2::{Parser2, Parser2Result};
use peel::example::parser3::{Parser3, Parser3Result};
use peel::example::parser4::{Parser4, Parser4Result};
use peel::example::{peel_example, ExampleParser, ExampleResult, ParserId};
use peel::parser::{Needed, Parsable, ParseStatus};
use peel::Peel;

#[test]
fn peel_success_1234() {
    let mut peel = peel_example();
    let whole_result = peel.traverse(b"1234", vec![], vec![]);
    let result = whole_result.result;
    let parsers = whole_result.parsers;

    assert_eq!(result.len(), 4);
    assert_eq!(result[0], ExampleResult::Parser1(Parser1Result));
    assert_eq!(result[1], ExampleResult::Parser2(Parser2Result));
    assert_eq!(result[2], ExampleResult::Parser3(Parser3Result));
    assert_eq!(result[3], ExampleResult::Parser4(Parser4Result));
    assert_eq!(parsers.len(), 4);
    assert_eq!(ParserId::Parser1, parsers[0]);
    assert_eq!(ParserId::Parser2, parsers[1]);
    assert_eq!(ParserId::Parser3, parsers[2]);
    assert_eq!(ParserId::Parser4, parsers[3]);
}

#[test]
fn peel_success_1334() {
    let mut peel = peel_example();
    let whole_result = peel.traverse(b"1334", vec![], vec![]);
    let result = whole_result.result;
    let parsers = whole_result.parsers;

    assert_eq!(result.len(), 4);
    assert_eq!(result[0], ExampleResult::Parser1(Parser1Result));
    assert_eq!(result[1], ExampleResult::Parser3(Parser3Result));
    assert_eq!(result[2], ExampleResult::Parser3(Parser3Result));
    assert_eq!(result[3], ExampleResult::Parser4(Parser4Result));
    assert_eq!(parsers.len(), 4);
    assert_eq!(ParserId::Parser1, parsers[0]);
    assert_eq!(ParserId::Parser3, parsers[1]);
    assert_eq!(ParserId::Parser3, parsers[2]);
    assert_eq!(ParserId::Parser4, parsers[3]);
}

#[test]
fn peel_success_133_incomplete_continue_4() {
    let mut peel = peel_example();
    let ret = peel.traverse(b"133", vec![], vec![]);
    assert_eq!(ret.result.len(), 3);
    assert!(ret.left_input.is_empty());
    assert!(ret.error.is_some());
    let ret = peel.continue_traverse(b"34", vec![], vec![]);
    assert_eq!(ret.result.len(), 2);
    assert!(ret.left_input.is_empty());
    assert!(ret.error.is_none());
}

#[test]
fn peel_success_incomplete() {
    let mut peel = peel_example();
    let peel_result = peel.traverse(b"", vec![], vec![]);
    println!("{:?}", peel_result);

    let error = peel_result.error.unwrap();
    let res = peel_result.result;
    let parsers = peel_result.parsers;

    if let ErrorType::Incomplete(needed) = error.code {
        assert_eq!(needed, Needed::Size(1));
        assert!(res.is_empty());
        assert!(parsers.is_empty());
        let result = peel.continue_traverse(b"1234", res, parsers).result;
        assert_eq!(result.len(), 4);
    } else {
        unreachable!();
    }
}

#[test]
fn peel_success_link() {
    let mut peel = Peel::new();
    let p1 = peel.new_parser(ExampleParser::Parser1(Parser1));
    let p2 = peel.new_parser(ExampleParser::Parser2(Parser2));
    peel.link(p1, p2);
    assert_eq!(peel.graph.node_count(), 2);
}

#[test]
fn peel_success_link_new_parser() {
    let mut peel = Peel::new();
    let p1 = peel.new_parser(ExampleParser::Parser1(Parser1));
    peel.link_new_parser(p1, ExampleParser::Parser2(Parser2));
    assert_eq!(peel.graph.node_count(), 2);
}

#[test]
fn peel_success_dot() {
    let peel = peel_example();
    let dot = peel.dot_export();
    assert!(dot.starts_with(b"digraph"));
}

#[test]
fn peel_success_parser1() {
    let parser = Parser1;
    let result = match parser.parse(b"1", None, &mut None) {
        ParseStatus::Done(_, value) => value,
        _ => panic!("parsing `1` must succeed"),
    };
    assert_eq!(result, Parser1Result);
}

#[test]
fn peel_success_remove() {
    let mut peel = peel_example();
    let count = peel.graph.node_count();
    let last_node = *peel.graph.node_ids().last().unwrap();
    assert!(peel.remove(last_node).is_some());
    assert_eq!(peel.graph.node_count(), count - 1);
}

#[test]
fn peel_failure_no_tree_root() {
    let mut peel: Peel<ExampleParser> = Peel::new();
    let error = peel.traverse(b"TEST", vec![], vec![]).error.unwrap();
    assert_eq!(error.code, ErrorType::NoTreeRoot);
}

#[test]
fn peel_failure_no_parser_succeed() {
    let mut peel = peel_example();
    let error = peel.traverse(b"888", vec![], vec![]).error.unwrap();
    println!("{:?}", error);
    println!("{}", error.description);
}

#[test]
fn peel_parser4_direct() {
    let parser = Parser4;
    let result = match parser.parse(b"4", None, &mut None) {
        ParseStatus::Done(consumed, value) => {
            assert_eq!(consumed, 1);
            value
        }
        _ => panic!("parsing `4` must succeed"),
    };
    assert_eq!(result, Parser4Result);
    assert_eq!(parser.identity(), ParserId::Parser4);
}
