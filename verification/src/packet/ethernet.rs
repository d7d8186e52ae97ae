//! Ethernet related packet processing.
use vstd::prelude::*;

use crate::packet::{be_u16_at, read_be_u16, Layer, ParserVariant};
use crate::parser::{Needed, Parsable, ParseStatus};

verus! {

/// The Ethernet parser.
#[derive(Debug, Clone, Copy)]
pub struct EthernetParser;

/// Representation of the Ethernet structure.
#[derive(Debug, Clone, PartialEq, Eq, Structural)]
pub struct EthernetPacket {
    /// Destination mac address
    pub dst: MacAddress,
    /// Source mac address
    pub src: MacAddress,
    /// EtherType of the packet
    pub ethertype: EtherType,
}

/// Representation of a mac network address, usually written in the format
/// "ff:ff:ff:ff:ff:ff".
#[derive(Debug, Clone, Copy, PartialEq, Eq, Structural)]
pub struct MacAddress(pub u8, pub u8, pub u8, pub u8, pub u8, pub u8);

/// Supported `EtherType`s.
#[derive(Debug, Clone, Copy, PartialEq, Eq, Structural)]
pub enum EtherType {
    /// Internet Protocol Version 4
    Ipv4,
    /// Internet Protocol Version 6
    Ipv6,
}

impl EtherType {
    /// The `EtherType` a wire value stands for; `None` when the type is not
    /// supported or generally invalid.
    pub open spec fn spec_from_u16(input: u16) -> Option<EtherType> {
        if input == 0x0800 {
            Some(EtherType::Ipv4)
        } else if input == 0x86DD {
            Some(EtherType::Ipv6)
        } else {
            None
        }
    }

    /// Convert a u16 to an `EtherType`. Returns `None` if the type is not
    /// supported or generally invalid.
    pub fn from_u16(input: u16) -> (r: Option<EtherType>)
        ensures
            r == Self::spec_from_u16(input),
    {
        match input {
            0x0800 => Some(EtherType::Ipv4),
            0x86DD => Some(EtherType::Ipv6),
            _ => None,
        }
    }
}

/// What parsing an Ethernet frame header yields: fourteen fixed header
/// bytes, the last two of which must announce a supported `EtherType`.
pub open spec fn ethernet_spec(input: Seq<u8>) -> ParseStatus<Layer> {
    if input.len() < 6 {
        ParseStatus::Incomplete(Needed::Size(6))
    } else if input.len() < 12 {
        ParseStatus::Incomplete(Needed::Size(12))
    } else if input.len() < 14 {
        ParseStatus::Incomplete(Needed::Size(14))
    } else {
        match EtherType::spec_from_u16(be_u16_at(input, 12)) {
            None => ParseStatus::Failed,
            Some(e) => ParseStatus::Done(
                14,
                Layer::Ethernet(
                    EthernetPacket {
                        dst: MacAddress(
                            input[0],
                            input[1],
                            input[2],
                            input[3],
                            input[4],
                            input[5],
                        ),
                        src: MacAddress(
                            input[6],
                            input[7],
                            input[8],
                            input[9],
                            input[10],
                            input[11],
                        ),
                        ethertype: e,
                    },
                ),
            ),
        }
    }
}

impl EthernetParser {
    /// Return the actual enum variant of the parser.
    pub fn variant(&self) -> (r: ParserVariant)
        ensures
            r == ParserVariant::Ethernet(*self),
    {
        ParserVariant::Ethernet(*self)
    }
}

impl Parsable for EthernetParser {
    type Output = Layer;

    type Id = ParserVariant;

    type Data = ();

    open spec fn parse_spec(
        &self,
        input: Seq<u8>,
        acc: Option<Seq<Layer>>,
        data: Option<()>,
    ) -> (ParseStatus<Layer>, Option<()>) {
        (ethernet_spec(input), data)
    }

    open spec fn identity_spec(&self) -> ParserVariant {
        ParserVariant::Ethernet(*self)
    }

    proof fn lemma_parse_consumes_prefix(
        &self,
        input: Seq<u8>,
        acc: Option<Seq<Layer>>,
        data: Option<()>,
    ) {
    }

    /// Parse an Ethernet frame from a byte slice.
    fn parse(&self, input: &[u8], acc: Option<&Vec<Layer>>, data: &mut Option<()>) -> (r:
        ParseStatus<Layer>) {
        if input.len() < 6 {
            ParseStatus::Incomplete(Needed::Size(6))
        } else if input.len() < 12 {
            ParseStatus::Incomplete(Needed::Size(12))
        } else if input.len() < 14 {
            ParseStatus::Incomplete(Needed::Size(14))
        } else {
            match EtherType::from_u16(read_be_u16(input, 12)) {
                None => ParseStatus::Failed,
                Some(e) => ParseStatus::Done(
                    14,
                    Layer::Ethernet(
                        EthernetPacket {
                            dst: MacAddress(
                                *vstd::slice::slice_index_get(input, 0),
                                *vstd::slice::slice_index_get(input, 1),
                                *vstd::slice::slice_index_get(input, 2),
                                *vstd::slice::slice_index_get(input, 3),
                                *vstd::slice::slice_index_get(input, 4),
                                *vstd::slice::slice_index_get(input, 5),
                            ),
                            src: MacAddress(
                                *vstd::slice::slice_index_get(input, 6),
                                *vstd::slice::slice_index_get(input, 7),
                                *vstd::slice::slice_index_get(input, 8),
                                *vstd::slice::slice_index_get(input, 9),
                                *vstd::slice::slice_index_get(input, 10),
                                *vstd::slice::slice_index_get(input, 11),
                            ),
                            ethertype: e,
                        },
                    ),
                ),
            }
        }
    }

    fn identity(&self) -> (r: ParserVariant) {
        ParserVariant::Ethernet(*self)
    }
}

/// An Ethernet verdict reached on some bytes stands on those bytes plus
/// more: the header is decided by its first fourteen bytes alone.
pub proof fn lemma_ethernet_extend(input: Seq<u8>, ext: Seq<u8>)
    ensures
        (ethernet_spec(input) is Done || ethernet_spec(input) is Failed) ==> ethernet_spec(
            input + ext,
        ) == ethernet_spec(input),
{
    if input.len() >= 14 {
        assert(be_u16_at(input + ext, 12) == be_u16_at(input, 12));
    }
}

} // verus!
