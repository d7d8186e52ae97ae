//! Example parser 1.
use vstd::prelude::*;

use crate::example::ParserId;
use crate::parser::{match_byte, spec_match_tag, Needed, Parsable, ParseStatus, TagMatch};

verus! {

/// The first example parser: it matches the single byte `1`.
#[derive(Debug, Clone, Copy)]
pub struct Parser1;

/// The result of the first example parser.
#[derive(Debug, Clone, PartialEq, Eq, Structural)]
pub struct Parser1Result;

/// What parsing with `Parser1` yields: its one-byte tag `1` decides.
pub open spec fn parser1_spec(input: Seq<u8>) -> ParseStatus<Parser1Result> {
    match spec_match_tag(input, seq![49u8]) {
        TagMatch::Match => ParseStatus::Done(1, Parser1Result),
        TagMatch::Partial => ParseStatus::Incomplete(Needed::Size(1)),
        TagMatch::Mismatch => ParseStatus::Failed,
    }
}

impl Parsable for Parser1 {
    type Output = Parser1Result;

    type Id = ParserId;

    type Data = ();

    open spec fn parse_spec(
        &self,
        input: Seq<u8>,
        acc: Option<Seq<Parser1Result>>,
        data: Option<()>,
    ) -> (ParseStatus<Parser1Result>, Option<()>) {
        (parser1_spec(input), data)
    }

    open spec fn identity_spec(&self) -> ParserId {
        ParserId::Parser1
    }

    proof fn lemma_parse_consumes_prefix(
        &self,
        input: Seq<u8>,
        acc: Option<Seq<Parser1Result>>,
        data: Option<()>,
    ) {
    }

    /// The actual parsing entry point.
    fn parse(
        &self,
        input: &[u8],
        acc: Option<&Vec<Parser1Result>>,
        data: &mut Option<()>,
    ) -> (r: ParseStatus<Parser1Result>) {
        match match_byte(input, 49) {
            TagMatch::Match => ParseStatus::Done(1, Parser1Result),
            TagMatch::Partial => ParseStatus::Incomplete(Needed::Size(1)),
            TagMatch::Mismatch => ParseStatus::Failed,
        }
    }

    fn identity(&self) -> (r: ParserId) {
        ParserId::Parser1
    }
}

} // verus!
