//! The parser capability: the contract every pluggable parsing unit
//! implements, and the byte-matching helpers the bundled parsers share.
use vstd::prelude::*;

verus! {

/// How many bytes a parser needs, counted from the start of the input it was
/// handed, before it can decide between success and failure.
#[derive(Clone, Copy, Debug, PartialEq, Eq, Structural)]
pub enum Needed {
    /// More data is needed, but the amount is unknown.
    Unknown,
    /// At least this many bytes are needed.
    Size(usize),
}

/// The outcome of one parse attempt.
#[derive(Debug, PartialEq, Eq)]
pub enum ParseStatus<R> {
    /// Success: the parser consumed this many bytes of the input prefix and
    /// produced this value.
    Done(usize, R),
    /// The input ended before the parser could decide.
    Incomplete(Needed),
    /// The parser does not match this input.
    Failed,
}

/// The result stack as one parse attempt sees it: `None` for a direct call
/// outside any traversal, `Some` of the stack contents during a traversal.
pub open spec fn opt_results_view<R>(acc: Option<&Vec<R>>) -> Option<Seq<R>> {
    match acc {
        Some(v) => Some(v@),
        None => None,
    }
}

/// The capability every node payload implements.
///
/// A parser is a pure function of the input bytes, the read-only view of the
/// result stack accumulated so far, and the caller-supplied shared state; the
/// shared state is the only thing it may change. `parse_spec` is that
/// function, and `parse` is bound to it exactly, so the traversal engine's
/// contract can speak about whole walks through the graph.
pub trait Parsable: Sized {
    /// The value a successful parse pushes onto the result stack.
    type Output;

    /// The identity label recorded in the parser trail.
    type Id;

    /// Caller-supplied state shared by every parse attempt of one traversal.
    type Data;

    /// What `parse` returns, and what it leaves in the shared state, as a
    /// function of its inputs.
    spec fn parse_spec(
        &self,
        input: Seq<u8>,
        acc: Option<Seq<Self::Output>>,
        data: Option<Self::Data>,
    ) -> (ParseStatus<Self::Output>, Option<Self::Data>);

    /// The stable identity label of this parser.
    spec fn identity_spec(&self) -> Self::Id;

    /// A successful parse consumes at most the whole input, so what is left
    /// is a suffix of what was handed in.
    proof fn lemma_parse_consumes_prefix(
        &self,
        input: Seq<u8>,
        acc: Option<Seq<Self::Output>>,
        data: Option<Self::Data>,
    )
        ensures
            (match self.parse_spec(input, acc, data).0 {
                ParseStatus::Done(consumed, _) => consumed <= input.len(),
                _ => true,
            }),
    ;

    /// Attempt to parse a prefix of `input`.
    fn parse(
        &self,
        input: &[u8],
        acc: Option<&Vec<Self::Output>>,
        data: &mut Option<Self::Data>,
    ) -> (r: ParseStatus<Self::Output>)
        ensures
            (r, *final(data)) == self.parse_spec(input@, opt_results_view(acc), *old(data)),
    ;

    /// The stable identity label of this parser.
    fn identity(&self) -> (r: Self::Id)
        ensures
            r == self.identity_spec(),
    ;
}

/// How a fixed byte tag relates to an input prefix.
#[derive(Clone, Copy, Debug, PartialEq, Eq, Structural)]
pub enum TagMatch {
    /// The input starts with the whole tag.
    Match,
    /// The input ended while it still agreed with the tag.
    Partial,
    /// The input contradicts the tag somewhere in the overlap.
    Mismatch,
}

/// Compare an input prefix against a fixed tag: a disagreement anywhere in
/// the overlapping part is a mismatch; agreement on an input shorter than the
/// tag leaves the decision open; otherwise the tag matches.
pub open spec fn spec_match_tag(input: Seq<u8>, tag: Seq<u8>) -> TagMatch {
    if exists|i: int| 0 <= i < tag.len() && i < input.len() && input[i] != tag[i] {
        TagMatch::Mismatch
    } else if input.len() < tag.len() {
        TagMatch::Partial
    } else {
        TagMatch::Match
    }
}

/// Match a fixed byte tag against the start of `input`.
pub fn match_tag(input: &[u8], tag: &[u8]) -> (r: TagMatch)
    ensures
        r == spec_match_tag(input@, tag@),
{
    let bound: usize = if input.len() < tag.len() {
        input.len()
    } else {
        tag.len()
    };
    let mut i: usize = 0;
    while i < bound
        invariant
            i <= bound,
            bound <= input@.len(),
            bound <= tag@.len(),
            bound == if input@.len() < tag@.len() {
                input@.len()
            } else {
                tag@.len()
            },
            forall|j: int| 0 <= j < i ==> input@[j] == tag@[j],
        decreases bound - i,
    {
        if *vstd::slice::slice_index_get(input, i) != *vstd::slice::slice_index_get(tag, i) {
            return TagMatch::Mismatch;
        }
        i += 1;
    }
    if input.len() < tag.len() {
        TagMatch::Partial
    } else {
        TagMatch::Match
    }
}

/// Match a single-byte tag against the start of `input`.
pub fn match_byte(input: &[u8], tag: u8) -> (r: TagMatch)
    ensures
        r == spec_match_tag(input@, seq![tag]),
{
    if input.len() == 0 {
        TagMatch::Partial
    } else if *vstd::slice::slice_index_get(input, 0) == tag {
        proof {
            assert forall|i: int| !(0 <= i < 1 && i < input@.len() && input@[i] != seq![tag][i])
                by {}
        }
        TagMatch::Match
    } else {
        proof {
            assert(input@[0] != seq![tag][0]);
        }
        TagMatch::Mismatch
    }
}

/// A tag's verdict is stable under extension of the input: a match or a
/// mismatch reached on some bytes stands on those bytes plus more; only a
/// partial verdict can change.
pub proof fn lemma_match_tag_extend(input: Seq<u8>, ext: Seq<u8>, tag: Seq<u8>)
    ensures
        spec_match_tag(input, tag) is Match ==> spec_match_tag(input + ext, tag) is Match,
        spec_match_tag(input, tag) is Mismatch ==> spec_match_tag(input + ext, tag) is Mismatch,
{
    if spec_match_tag(input, tag) is Match {
        assert forall|i: int|
            !(0 <= i < tag.len() && i < (input + ext).len() && (input + ext)[i] != tag[i]) by {
            if 0 <= i < tag.len() {
                assert(i < input.len());
                assert((input + ext)[i] == input[i]);
                assert(!(0 <= i < tag.len() && i < input.len() && input[i] != tag[i]));
            }
        }
    }
    if spec_match_tag(input, tag) is Mismatch {
        let i = choose|i: int| 0 <= i < tag.len() && i < input.len() && input[i] != tag[i];
        assert((input + ext)[i] == input[i]);
        assert(0 <= i < tag.len() && i < (input + ext).len() && (input + ext)[i] != tag[i]);
    }
}

} // verus!
