//! Hypertext Transfer Protocol related packet processing.
use vstd::prelude::*;

use crate::packet::{Layer, ParserVariant};
use crate::parser::{
    lemma_match_tag_extend, match_tag, opt_results_view, spec_match_tag, Needed, Parsable,
    ParseStatus, TagMatch,
};

verus! {

/// The HTTP parser.
#[derive(Debug, Clone, Copy)]
pub struct HttpParser;

/// Representation of a Hypertext Transfer Protocol packet.
#[derive(Debug, Clone, PartialEq, Eq, Structural)]
pub struct HttpPacket {
    /// The HTTP request method
    pub request_method: HttpRequestMethod,
}

/// List of supported HTTP request methods.
#[derive(Debug, Clone, Copy, PartialEq, Eq, Structural)]
pub enum HttpRequestMethod {
    /// The GET method requests a representation of the specified resource.
    Get,
    /// The POST method requests that the server accept the entity enclosed
    /// in the request as a new subordinate of the web resource identified by
    /// the URI.
    Post,
}

/// The byte tag `"GET "`.
pub open spec fn get_tag() -> Seq<u8> {
    seq![71u8, 69u8, 84u8, 32u8]
}

/// The byte tag `"POST "`.
pub open spec fn post_tag() -> Seq<u8> {
    seq![80u8, 79u8, 83u8, 84u8, 32u8]
}

/// What parsing a plain-text HTTP request line start yields: the `GET ` tag
/// is tried first, then `POST `.
pub open spec fn http_request_spec(input: Seq<u8>) -> ParseStatus<Layer> {
    match spec_match_tag(input, get_tag()) {
        TagMatch::Match => ParseStatus::Done(
            4,
            Layer::Http(Some(HttpPacket { request_method: HttpRequestMethod::Get })),
        ),
        TagMatch::Partial => ParseStatus::Incomplete(Needed::Size(4)),
        TagMatch::Mismatch => match spec_match_tag(input, post_tag()) {
            TagMatch::Match => ParseStatus::Done(
                5,
                Layer::Http(Some(HttpPacket { request_method: HttpRequestMethod::Post })),
            ),
            TagMatch::Partial => ParseStatus::Incomplete(Needed::Size(5)),
            TagMatch::Mismatch => ParseStatus::Failed,
        },
    }
}

impl HttpPacket {
    /// What the TLS-based branch yields: when the layer below is a TLS
    /// record, the traffic is encrypted HTTP, reported as an opaque HTTP
    /// layer without consuming anything.
    pub open spec fn tls_based_spec(acc: Option<Seq<Layer>>) -> ParseStatus<Layer> {
        match acc {
            Some(v) => if v.len() > 0 && v.last() is Tls {
                ParseStatus::Done(0, Layer::Http(None))
            } else {
                ParseStatus::Failed
            },
            None => ParseStatus::Failed,
        }
    }

    /// Recognize encrypted HTTP traffic below a TLS record.
    pub fn parse_tls_based(input: &[u8], result: Option<&Vec<Layer>>) -> (r: ParseStatus<Layer>)
        ensures
            r == Self::tls_based_spec(opt_results_view(result)),
    {
        match result {
            Some(v) => {
                if v.len() == 0 {
                    ParseStatus::Failed
                } else {
                    match &v[v.len() - 1] {
                        Layer::Tls(_) => ParseStatus::Done(0, Layer::Http(None)),
                        _ => ParseStatus::Failed,
                    }
                }
            },
            None => ParseStatus::Failed,
        }
    }
}

/// What parsing with the HTTP parser yields: a direct call (no stack view)
/// parses the plain-text request line, for testability; within a traversal
/// the layer below decides, and only the TLS-based branch applies.
pub open spec fn http_spec(input: Seq<u8>, acc: Option<Seq<Layer>>) -> ParseStatus<Layer> {
    match acc {
        None => http_request_spec(input),
        Some(_) => HttpPacket::tls_based_spec(acc),
    }
}

impl HttpParser {
    /// Return the actual enum variant of the parser.
    pub fn variant(&self) -> (r: ParserVariant)
        ensures
            r == ParserVariant::Http(*self),
    {
        ParserVariant::Http(*self)
    }
}

impl Parsable for HttpParser {
    type Output = Layer;

    type Id = ParserVariant;

    type Data = ();

    open spec fn parse_spec(
        &self,
        input: Seq<u8>,
        acc: Option<Seq<Layer>>,
        data: Option<()>,
    ) -> (ParseStatus<Layer>, Option<()>) {
        (http_spec(input, acc), data)
    }

    open spec fn identity_spec(&self) -> ParserVariant {
        ParserVariant::Http(*self)
    }

    proof fn lemma_parse_consumes_prefix(
        &self,
        input: Seq<u8>,
        acc: Option<Seq<Layer>>,
        data: Option<()>,
    ) {
    }

    /// Parse an HTTP frame from a byte slice.
    fn parse(&self, input: &[u8], acc: Option<&Vec<Layer>>, data: &mut Option<()>) -> (r:
        ParseStatus<Layer>) {
        match acc {
            None => {
                let get: [u8; 4] = [71u8, 69u8, 84u8, 32u8];
                let post: [u8; 5] = [80u8, 79u8, 83u8, 84u8, 32u8];
                proof {
                    assert(get@ =~= get_tag());
                    assert(post@ =~= post_tag());
                }
                match match_tag(input, get.as_slice()) {
                    TagMatch::Match => ParseStatus::Done(
                        4,
                        Layer::Http(Some(HttpPacket { request_method: HttpRequestMethod::Get })),
                    ),
                    TagMatch::Partial => ParseStatus::Incomplete(Needed::Size(4)),
                    TagMatch::Mismatch => match match_tag(input, post.as_slice()) {
                        TagMatch::Match => ParseStatus::Done(
                            5,
                            Layer::Http(
                                Some(HttpPacket { request_method: HttpRequestMethod::Post }),
                            ),
                        ),
                        TagMatch::Partial => ParseStatus::Incomplete(Needed::Size(5)),
                        TagMatch::Mismatch => ParseStatus::Failed,
                    },
                }
            },
            Some(v) => HttpPacket::parse_tls_based(input, Some(v)),
        }
    }

    fn identity(&self) -> (r: ParserVariant) {
        ParserVariant::Http(*self)
    }
}

/// An HTTP verdict reached on some bytes stands on those bytes plus more:
/// the request-line tags decide on their overlap, and the TLS-based branch
/// does not look at the input at all.
pub proof fn lemma_http_extend(input: Seq<u8>, ext: Seq<u8>, acc: Option<Seq<Layer>>)
    ensures
        (http_spec(input, acc) is Done || http_spec(input, acc) is Failed) ==> http_spec(
            input + ext,
            acc,
        ) == http_spec(input, acc),
{
    lemma_match_tag_extend(input, ext, get_tag());
    lemma_match_tag_extend(input, ext, post_tag());
}

} // verus!
