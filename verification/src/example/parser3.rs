//! Example parser 3.
use vstd::prelude::*;

use crate::example::ParserId;
use crate::parser::{match_byte, spec_match_tag, Needed, Parsable, ParseStatus, TagMatch};

verus! {

/// The third example parser: it matches the single byte `3`.
#[derive(Debug, Clone, Copy)]
pub struct Parser3;

/// The result of the third example parser.
#[derive(Debug, Clone, PartialEq, Eq, Structural)]
pub struct Parser3Result;

/// What parsing with `Parser3` yields: its one-byte tag `3` decides.
pub open spec fn parser3_spec(input: Seq<u8>) -> ParseStatus<Parser3Result> {
    match spec_match_tag(input, seq![51u8]) {
        TagMatch::Match => ParseStatus::Done(1, Parser3Result),
        TagMatch::Partial => ParseStatus::Incomplete(Needed::Size(1)),
        TagMatch::Mismatch => ParseStatus::Failed,
    }
}

impl Parsable for Parser3 {
    type Output = Parser3Result;

    type Id = ParserId;

    type Data = ();

    open spec fn parse_spec(
        &self,
        input: Seq<u8>,
        acc: Option<Seq<Parser3Result>>,
        data: Option<()>,
    ) -> (ParseStatus<Parser3Result>, Option<()>) {
        (parser3_spec(input), data)
    }

    open spec fn identity_spec(&self) -> ParserId {
        ParserId::Parser3
    }

    proof fn lemma_parse_consumes_prefix(
        &self,
        input: Seq<u8>,
        acc: Option<Seq<Parser3Result>>,
        data: Option<()>,
    ) {
    }

    /// The actual parsing entry point.
    fn parse(
        &self,
        input: &[u8],
        acc: Option<&Vec<Parser3Result>>,
        data: &mut Option<()>,
    ) -> (r: ParseStatus<Parser3Result>) {
        match match_byte(input, 51) {
            TagMatch::Match => ParseStatus::Done(1, Parser3Result),
            TagMatch::Partial => ParseStatus::Incomplete(Needed::Size(1)),
            TagMatch::Mismatch => ParseStatus::Failed,
        }
    }

    fn identity(&self) -> (r: ParserId) {
        ParserId::Parser3
    }
}

} // verus!
