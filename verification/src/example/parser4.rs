//! Example parser 4.
use vstd::prelude::*;

use crate::example::ParserId;
use crate::parser::{match_byte, spec_match_tag, Needed, Parsable, ParseStatus, TagMatch};

verus! {

/// The fourth example parser: it matches the single byte `4`.
#[derive(Debug, Clone, Copy)]
pub struct Parser4;

/// The result of the fourth example parser.
#[derive(Debug, Clone, PartialEq, Eq, Structural)]
pub struct Parser4Result;

/// What parsing with `Parser4` yields: its one-byte tag `4` decides.
pub open spec fn parser4_spec(input: Seq<u8>) -> ParseStatus<Parser4Result> {
    match spec_match_tag(input, seq![52u8]) {
        TagMatch::Match => ParseStatus::Done(1, Parser4Result),
        TagMatch::Partial => ParseStatus::Incomplete(Needed::Size(1)),
        TagMatch::Mismatch => ParseStatus::Failed,
    }
}

impl Parsable for Parser4 {
    type Output = Parser4Result;

    type Id = ParserId;

    type Data = ();

    open spec fn parse_spec(
        &self,
        input: Seq<u8>,
        acc: Option<Seq<Parser4Result>>,
        data: Option<()>,
    ) -> (ParseStatus<Parser4Result>, Option<()>) {
        (parser4_spec(input), data)
    }

    open spec fn identity_spec(&self) -> ParserId {
        ParserId::Parser4
    }

    proof fn lemma_parse_consumes_prefix(
        &self,
        input: Seq<u8>,
        acc: Option<Seq<Parser4Result>>,
        data: Option<()>,
    ) {
    }

    /// The actual parsing entry point.
    fn parse(
        &self,
        input: &[u8],
        acc: Option<&Vec<Parser4Result>>,
        data: &mut Option<()>,
    ) -> (r: ParseStatus<Parser4Result>) {
        match match_byte(input, 52) {
            TagMatch::Match => ParseStatus::Done(1, Parser4Result),
            TagMatch::Partial => ParseStatus::Incomplete(Needed::Size(1)),
            TagMatch::Mismatch => ParseStatus::Failed,
        }
    }

    fn identity(&self) -> (r: ParserId) {
        ParserId::Parser4
    }
}

} // verus!
