//! Example packet parsers for the dynamic data structure: a small stack of
//! protocol dissectors (Ethernet, IPv4, TLS, HTTP) and the default graph
//! that chains them.
use vstd::prelude::*;

pub mod ethernet;
pub mod layer2;
pub mod layer3;
pub mod layer4;

use crate::graph::NodeId;
use crate::packet::ethernet::{ethernet_spec, EthernetPacket, EthernetParser};
use crate::packet::layer2::ipv4::{ipv4_spec, Ipv4Packet, Ipv4Parser};
use crate::packet::layer3::tls::{tls_spec, TlsPacket, TlsParser};
use crate::packet::layer4::http::{http_spec, HttpPacket, HttpParser};
use crate::parser::{Parsable, ParseStatus};
use crate::traversal::{consuming_parser, streaming_graph, streaming_parser, terminating_graph};
use crate::Peel;

verus! {

/// The big-endian 16-bit value at offset `i` of the byte sequence.
pub open spec fn be_u16_at(s: Seq<u8>, i: int) -> u16 {
    (((s[i] as int) * 256 + (s[i + 1] as int)) as u16)
}

/// Read the big-endian 16-bit value at offset `i`.
pub fn read_be_u16(input: &[u8], i: usize) -> (r: u16)
    requires
        i + 1 < input@.len(),
    ensures
        r == be_u16_at(input@, i as int),
{
    let n = input.len();
    let hi = *vstd::slice::slice_index_get(input, i);
    let lo = *vstd::slice::slice_index_get(input, i + 1);
    (hi as u16) * 256 + (lo as u16)
}

/// The return value for the variant retrieval of the parsers: the closed
/// sum of the bundled packet parsers, doubling as their identity label.
#[derive(Debug, Clone, Copy)]
pub enum ParserVariant {
    /// Ethernet protocol parser
    Ethernet(EthernetParser),
    /// Internet Protocol version 4 parser
    Ipv4(Ipv4Parser),
    /// Transport Layer Security parser
    Tls(TlsParser),
    /// Hypertext Transfer Protocol parser
    Http(HttpParser),
}

/// Return values of the actual parsers.
#[derive(Debug, Clone, PartialEq, Eq, Structural)]
pub enum Layer {
    /// Ethernet protocol for the link layer
    Ethernet(EthernetPacket),
    /// Internet Protocol version 4 packet variant
    Ipv4(Ipv4Packet),
    /// Transport Layer Security packet variant
    Tls(TlsPacket),
    /// Hypertext Transfer Protocol packet variant; `None` for encrypted
    /// traffic recognized below a TLS record
    Http(Option<HttpPacket>),
}

/// What parsing with a packet parser yields on `input`, given the layers
/// already decoded.
pub open spec fn variant_spec(
    p: ParserVariant,
    input: Seq<u8>,
    acc: Option<Seq<Layer>>,
) -> ParseStatus<Layer> {
    match p {
        ParserVariant::Ethernet(_) => ethernet_spec(input),
        ParserVariant::Ipv4(_) => ipv4_spec(input, acc),
        ParserVariant::Tls(_) => tls_spec(input),
        ParserVariant::Http(_) => http_spec(input, acc),
    }
}

impl Parsable for ParserVariant {
    type Output = Layer;

    type Id = ParserVariant;

    type Data = ();

    open spec fn parse_spec(
        &self,
        input: Seq<u8>,
        acc: Option<Seq<Layer>>,
        data: Option<()>,
    ) -> (ParseStatus<Layer>, Option<()>) {
        (variant_spec(*self, input, acc), data)
    }

    open spec fn identity_spec(&self) -> ParserVariant {
        *self
    }

    proof fn lemma_parse_consumes_prefix(
        &self,
        input: Seq<u8>,
        acc: Option<Seq<Layer>>,
        data: Option<()>,
    ) {
        match *self {
            ParserVariant::Ethernet(p) => p.lemma_parse_consumes_prefix(input, acc, data),
            ParserVariant::Ipv4(p) => p.lemma_parse_consumes_prefix(input, acc, data),
            ParserVariant::Tls(p) => p.lemma_parse_consumes_prefix(input, acc, data),
            ParserVariant::Http(p) => p.lemma_parse_consumes_prefix(input, acc, data),
        }
    }

    /// The actual parsing entry point: delegate to the wrapped parser.
    fn parse(
        &self,
        input: &[u8],
        acc: Option<&Vec<Layer>>,
        data: &mut Option<()>,
    ) -> (r: ParseStatus<Layer>) {
        match self {
            ParserVariant::Ethernet(p) => p.parse(input, acc, data),
            ParserVariant::Ipv4(p) => p.parse(input, acc, data),
            ParserVariant::Tls(p) => p.parse(input, acc, data),
            ParserVariant::Http(p) => p.parse(input, acc, data),
        }
    }

    fn identity(&self) -> (r: ParserVariant) {
        *self
    }
}

/// Returns the default `Peel` structure for the bundled packet parsers,
/// chained `Ethernet -> IPv4 -> TLS -> HTTP`.
pub fn get_packet_peel() -> (p: Peel<ParserVariant>)
    ensures
        p.graph.wf(),
        p.root == Some((NodeId { index: 0 })),
        terminating_graph(p.graph),
        streaming_graph(p.graph),
        crate::graph::live_count(p.graph.slots@) == 4,
        p.graph.node_ok((NodeId { index: 0 })),
        p.graph.node_ok((NodeId { index: 1 })),
        p.graph.node_ok((NodeId { index: 2 })),
        p.graph.node_ok((NodeId { index: 3 })),
        p.graph.parser_at((NodeId { index: 0 })) == ParserVariant::Ethernet(EthernetParser),
        p.graph.parser_at((NodeId { index: 1 })) == ParserVariant::Ipv4(Ipv4Parser),
        p.graph.parser_at((NodeId { index: 2 })) == ParserVariant::Tls(TlsParser),
        p.graph.parser_at((NodeId { index: 3 })) == ParserVariant::Http(HttpParser),
        p.graph.edges_of((NodeId { index: 0 })) == seq![NodeId { index: 1 }],
        p.graph.edges_of((NodeId { index: 1 })) == seq![NodeId { index: 2 }],
        p.graph.edges_of((NodeId { index: 2 })) == seq![NodeId { index: 3 }],
        p.graph.edges_of((NodeId { index: 3 })) == Seq::<NodeId>::empty(),
{
    let mut p: Peel<ParserVariant> = Peel::new();
    let eth = p.new_parser(ParserVariant::Ethernet(EthernetParser));
    let ipv4 = p.link_new_parser(eth, ParserVariant::Ipv4(Ipv4Parser));
    let tls = p.link_new_parser(ipv4, ParserVariant::Tls(TlsParser));
    let http = p.link_new_parser(tls, ParserVariant::Http(HttpParser));
    proof {
        assert forall|n: NodeId| p.graph.node_ok(n) implies consuming_parser(
            #[trigger] p.graph.parser_at(n),
        ) || p.graph.edges_of(n).len() == 0 by {
            if n != http {
                lemma_packet_consuming(p.graph.parser_at(n));
            }
        }
        assert forall|n: NodeId| p.graph.node_ok(n) implies streaming_parser(
            #[trigger] p.graph.parser_at(n),
        ) by {
            lemma_packet_streaming(p.graph.parser_at(n));
        }
        assert(eth == NodeId { index: 0 });
        assert(ipv4 == NodeId { index: 1 });
        assert(tls == NodeId { index: 2 });
        assert(http == NodeId { index: 3 });
        assert(p.graph.edges_of(eth) =~= seq![ipv4]);
        assert(p.graph.edges_of(ipv4) =~= seq![tls]);
        assert(p.graph.edges_of(tls) =~= seq![http]);
    }
    p
}

/// Every packet parser except HTTP consumes its whole fixed header on
/// success. (HTTP over TLS succeeds without consuming, which is why the
/// default graph keeps the HTTP node a leaf.)
pub proof fn lemma_packet_consuming(q: ParserVariant)
    requires
        !(q is Http),
    ensures
        consuming_parser(q),
{
    assert forall|input: Seq<u8>, acc: Option<Seq<Layer>>, data: Option<()>|
        match (#[trigger] q.parse_spec(input, acc, data)).0 {
            ParseStatus::Done(consumed, _) => consumed >= 1,
            _ => true,
        } by {}
}

/// Every packet parser is fit for streaming use: its verdicts come from
/// fixed-offset header bytes and fixed tags, so a decision reached on some
/// bytes stands on those bytes plus more.
pub proof fn lemma_packet_streaming(q: ParserVariant)
    ensures
        streaming_parser(q),
{
    assert forall|input: Seq<u8>, ext: Seq<u8>, acc: Seq<Layer>, data: Option<()>|
        ((q.parse_spec(input, Some(acc), data).0 is Done || q.parse_spec(
            input,
            Some(acc),
            data,
        ).0 is Failed) ==> #[trigger] q.parse_spec(input + ext, Some(acc), data) == q.parse_spec(
            input,
            Some(acc),
            data,
        )) by {
        match q {
            ParserVariant::Ethernet(_) => crate::packet::ethernet::lemma_ethernet_extend(
                input,
                ext,
            ),
            ParserVariant::Ipv4(_) => crate::packet::layer2::ipv4::lemma_ipv4_extend(
                input,
                ext,
                Some(acc),
            ),
            ParserVariant::Tls(_) => crate::packet::layer3::tls::lemma_tls_extend(input, ext),
            ParserVariant::Http(_) => crate::packet::layer4::http::lemma_http_extend(
                input,
                ext,
                Some(acc),
            ),
        }
    }
}

} // verus!
