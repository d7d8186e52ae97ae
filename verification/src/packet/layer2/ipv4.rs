//! Internet Protocol version 4 related packet processing.
use vstd::prelude::*;

use crate::packet::ethernet::EtherType;
use crate::packet::{be_u16_at, read_be_u16, Layer, ParserVariant};
use crate::parser::{Needed, Parsable, ParseStatus};

verus! {

/// The IPv4 parser.
#[derive(Debug, Clone, Copy)]
pub struct Ipv4Parser;

/// Representation of an Internet Protocol version 4 packet header.
#[derive(Debug, Clone, PartialEq, Eq, Structural)]
pub struct Ipv4Packet {
    /// Protocol version, should be '4'
    pub version: u8,
    /// IP header length in bytes
    pub ihl: u8,
    /// Type of Service
    pub tos: u8,
    /// Total packet length including header
    pub length: u16,
    /// Identification for the packet reassembly
    pub id: u16,
    /// IP header flags for fragmentation reassembly and the current
    /// fragmentation offset
    pub flags_and_fragment_offset: u16,
    /// Time to live of the packet
    pub ttl: u8,
    /// The transport protocol for the IP packet
    pub protocol: IpProtocol,
    /// Header checksum
    pub checksum: u16,
    /// Source address
    pub src: Ipv4Address,
    /// Destination address
    pub dst: Ipv4Address,
}

/// An IPv4 network address as its four octets.
#[derive(Debug, Clone, Copy, PartialEq, Eq, Structural)]
pub struct Ipv4Address(pub u8, pub u8, pub u8, pub u8);

/// Currently supported IPv4 transport protocols.
#[derive(Clone, Copy, Debug, Hash, Eq, PartialEq, Structural)]
pub enum IpProtocol {
    /// Transmission Control Protocol
    Tcp,
    /// User Datagram Protocol
    Udp,
}

impl IpProtocol {
    /// The `IpProtocol` a wire value stands for; `None` when the type is not
    /// supported or generally invalid.
    pub open spec fn spec_from_u8(input: u8) -> Option<IpProtocol> {
        if input == 6 {
            Some(IpProtocol::Tcp)
        } else if input == 17 {
            Some(IpProtocol::Udp)
        } else {
            None
        }
    }

    /// Convert a u8 to an `IpProtocol`. Returns `None` if the type is not
    /// supported or generally invalid.
    pub fn from_u8(input: u8) -> (r: Option<IpProtocol>)
        ensures
            r == Self::spec_from_u8(input),
    {
        match input {
            6 => Some(IpProtocol::Tcp),
            17 => Some(IpProtocol::Udp),
            _ => None,
        }
    }
}

/// Is the top of the result stack the Ethernet layer announcing IPv4?
/// A direct call outside any traversal (no stack view at all) parses
/// unconditionally, for testability.
pub open spec fn ipv4_parent_ok(acc: Option<Seq<Layer>>) -> bool {
    match acc {
        None => true,
        Some(v) => v.len() > 0 && match v.last() {
            Layer::Ethernet(e) => e.ethertype == EtherType::Ipv4,
            _ => false,
        },
    }
}

/// What parsing an IPv4 header yields: after the parent check, twenty fixed
/// header bytes; the version nibble must be 4 and the transport protocol
/// supported.
pub open spec fn ipv4_spec(input: Seq<u8>, acc: Option<Seq<Layer>>) -> ParseStatus<Layer> {
    if !ipv4_parent_ok(acc) {
        ParseStatus::Failed
    } else if input.len() < 1 {
        ParseStatus::Incomplete(Needed::Size(1))
    } else if input[0] / 16 != 4 {
        ParseStatus::Failed
    } else if input.len() < 2 {
        ParseStatus::Incomplete(Needed::Size(2))
    } else if input.len() < 4 {
        ParseStatus::Incomplete(Needed::Size(4))
    } else if input.len() < 6 {
        ParseStatus::Incomplete(Needed::Size(6))
    } else if input.len() < 8 {
        ParseStatus::Incomplete(Needed::Size(8))
    } else if input.len() < 9 {
        ParseStatus::Incomplete(Needed::Size(9))
    } else if input.len() < 10 {
        ParseStatus::Incomplete(Needed::Size(10))
    } else {
        match IpProtocol::spec_from_u8(input[9]) {
            None => ParseStatus::Failed,
            Some(proto) => if input.len() < 12 {
                ParseStatus::Incomplete(Needed::Size(12))
            } else if input.len() < 16 {
                ParseStatus::Incomplete(Needed::Size(16))
            } else if input.len() < 20 {
                ParseStatus::Incomplete(Needed::Size(20))
            } else {
                ParseStatus::Done(
                    20,
                    Layer::Ipv4(
                        Ipv4Packet {
                            version: ((input[0] / 16) as u8),
                            ihl: (((input[0] % 16) * 4) as u8),
                            tos: input[1],
                            length: be_u16_at(input, 2),
                            id: be_u16_at(input, 4),
                            flags_and_fragment_offset: be_u16_at(input, 6),
                            ttl: input[8],
                            protocol: proto,
                            checksum: be_u16_at(input, 10),
                            src: Ipv4Address(input[12], input[13], input[14], input[15]),
                            dst: Ipv4Address(input[16], input[17], input[18], input[19]),
                        },
                    ),
                )
            },
        }
    }
}

impl Ipv4Parser {
    /// Return the actual enum variant of the parser.
    pub fn variant(&self) -> (r: ParserVariant)
        ensures
            r == ParserVariant::Ipv4(*self),
    {
        ParserVariant::Ipv4(*self)
    }
}

impl Parsable for Ipv4Parser {
    type Output = Layer;

    type Id = ParserVariant;

    type Data = ();

    open spec fn parse_spec(
        &self,
        input: Seq<u8>,
        acc: Option<Seq<Layer>>,
        data: Option<()>,
    ) -> (ParseStatus<Layer>, Option<()>) {
        (ipv4_spec(input, acc), data)
    }

    open spec fn identity_spec(&self) -> ParserVariant {
        ParserVariant::Ipv4(*self)
    }

    proof fn lemma_parse_consumes_prefix(
        &self,
        input: Seq<u8>,
        acc: Option<Seq<Layer>>,
        data: Option<()>,
    ) {
    }

    /// Parse an IPv4 header from a byte slice.
    fn parse(&self, input: &[u8], acc: Option<&Vec<Layer>>, data: &mut Option<()>) -> (r:
        ParseStatus<Layer>) {
        let parent_ok = match acc {
            None => true,
            Some(v) => {
                if v.len() == 0 {
                    false
                } else {
                    match &v[v.len() - 1] {
                        Layer::Ethernet(e) => match e.ethertype {
                            EtherType::Ipv4 => true,
                            _ => false,
                        },
                        _ => false,
                    }
                }
            },
        };
        if !parent_ok {
            ParseStatus::Failed
        } else if input.len() < 1 {
            ParseStatus::Incomplete(Needed::Size(1))
        } else if *vstd::slice::slice_index_get(input, 0) / 16 != 4 {
            ParseStatus::Failed
        } else if input.len() < 2 {
            ParseStatus::Incomplete(Needed::Size(2))
        } else if input.len() < 4 {
            ParseStatus::Incomplete(Needed::Size(4))
        } else if input.len() < 6 {
            ParseStatus::Incomplete(Needed::Size(6))
        } else if input.len() < 8 {
            ParseStatus::Incomplete(Needed::Size(8))
        } else if input.len() < 9 {
            ParseStatus::Incomplete(Needed::Size(9))
        } else if input.len() < 10 {
            ParseStatus::Incomplete(Needed::Size(10))
        } else {
            match IpProtocol::from_u8(*vstd::slice::slice_index_get(input, 9)) {
                None => ParseStatus::Failed,
                Some(proto) => if input.len() < 12 {
                    ParseStatus::Incomplete(Needed::Size(12))
                } else if input.len() < 16 {
                    ParseStatus::Incomplete(Needed::Size(16))
                } else if input.len() < 20 {
                    ParseStatus::Incomplete(Needed::Size(20))
                } else {
                    let first = *vstd::slice::slice_index_get(input, 0);
                    ParseStatus::Done(
                        20,
                        Layer::Ipv4(
                            Ipv4Packet {
                                version: first / 16,
                                ihl: (first % 16) * 4,
                                tos: *vstd::slice::slice_index_get(input, 1),
                                length: read_be_u16(input, 2),
                                id: read_be_u16(input, 4),
                                flags_and_fragment_offset: read_be_u16(input, 6),
                                ttl: *vstd::slice::slice_index_get(input, 8),
                                protocol: proto,
                                checksum: read_be_u16(input, 10),
                                src: Ipv4Address(
                                    *vstd::slice::slice_index_get(input, 12),
                                    *vstd::slice::slice_index_get(input, 13),
                                    *vstd::slice::slice_index_get(input, 14),
                                    *vstd::slice::slice_index_get(input, 15),
                                ),
                                dst: Ipv4Address(
                                    *vstd::slice::slice_index_get(input, 16),
                                    *vstd::slice::slice_index_get(input, 17),
                                    *vstd::slice::slice_index_get(input, 18),
                                    *vstd::slice::slice_index_get(input, 19),
                                ),
                            },
                        ),
                    )
                },
            }
        }
    }

    fn identity(&self) -> (r: ParserVariant) {
        ParserVariant::Ipv4(*self)
    }
}

/// An IPv4 verdict reached on some bytes stands on those bytes plus more:
/// the header is decided by the parent layer and its first twenty bytes.
pub proof fn lemma_ipv4_extend(input: Seq<u8>, ext: Seq<u8>, acc: Option<Seq<Layer>>)
    ensures
        (ipv4_spec(input, acc) is Done || ipv4_spec(input, acc) is Failed) ==> ipv4_spec(
            input + ext,
            acc,
        ) == ipv4_spec(input, acc),
{
    if input.len() >= 20 {
        assert(be_u16_at(input + ext, 2) == be_u16_at(input, 2));
        assert(be_u16_at(input + ext, 4) == be_u16_at(input, 4));
        assert(be_u16_at(input + ext, 6) == be_u16_at(input, 6));
        assert(be_u16_at(input + ext, 10) == be_u16_at(input, 10));
    }
}

} // verus!
