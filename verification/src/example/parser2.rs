//! Example parser 2.
use vstd::prelude::*;

use crate::example::ParserId;
use crate::parser::{match_byte, spec_match_tag, Needed, Parsable, ParseStatus, TagMatch};

verus! {

/// The second example parser: it matches the single byte `2`.
#[derive(Debug, Clone, Copy)]
pub struct Parser2;

/// The result of the second example parser.
#[derive(Debug, Clone, PartialEq, Eq, Structural)]
pub struct Parser2Result;

/// What parsing with `Parser2` yields: its one-byte tag `2` decides.
pub open spec fn parser2_spec(input: Seq<u8>) -> ParseStatus<Parser2Result> {
    match spec_match_tag(input, seq![50u8]) {
        TagMatch::Match => ParseStatus::Done(1, Parser2Result),
        TagMatch::Partial => ParseStatus::Incomplete(Needed::Size(1)),
        TagMatch::Mismatch => ParseStatus::Failed,
    }
}

impl Parsable for Parser2 {
    type Output = Parser2Result;

    type Id = ParserId;

    type Data = ();

    open spec fn parse_spec(
        &self,
        input: Seq<u8>,
        acc: Option<Seq<Parser2Result>>,
        data: Option<()>,
    ) -> (ParseStatus<Parser2Result>, Option<()>) {
        (parser2_spec(input), data)
    }

    open spec fn identity_spec(&self) -> ParserId {
        ParserId::Parser2
    }

    proof fn lemma_parse_consumes_prefix(
        &self,
        input: Seq<u8>,
        acc: Option<Seq<Parser2Result>>,
        data: Option<()>,
    ) {
    }

    /// The actual parsing entry point.
    fn parse(
        &self,
        input: &[u8],
        acc: Option<&Vec<Parser2Result>>,
        data: &mut Option<()>,
    ) -> (r: ParseStatus<Parser2Result>) {
        match match_byte(input, 50) {
            TagMatch::Match => ParseStatus::Done(1, Parser2Result),
            TagMatch::Partial => ParseStatus::Incomplete(Needed::Size(1)),
            TagMatch::Mismatch => ParseStatus::Failed,
        }
    }

    fn identity(&self) -> (r: ParserId) {
        ParserId::Parser2
    }
}

} // verus!
