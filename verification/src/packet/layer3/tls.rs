//! Transport layer security related packet processing.
use vstd::prelude::*;

use crate::packet::{be_u16_at, read_be_u16, Layer, ParserVariant};
use crate::parser::{Needed, Parsable, ParseStatus};

verus! {

/// The TLS parser.
#[derive(Debug, Clone, Copy)]
pub struct TlsParser;

/// Representation of a Transport Layer Security record header.
#[derive(Debug, Clone, PartialEq, Eq, Structural)]
pub struct TlsPacket {
    /// Content type of the record
    pub content_type: TlsRecordContentType,
    /// TLS version of the record
    pub version: TlsRecordVersion,
    /// Record length
    pub length: u16,
}

/// TLS record protocol content type.
#[derive(Debug, Clone, Copy, PartialEq, Eq, Structural)]
pub enum TlsRecordContentType {
    /// Change Cipher Spec
    ChangeCipherSpec,
    /// Alert
    Alert,
    /// Handshake
    Handshake,
    /// Application Data
    ApplicationData,
    /// Heartbeat
    Heartbeat,
}

impl TlsRecordContentType {
    /// The content type a wire value stands for; `None` when the type is not
    /// supported or generally invalid.
    pub open spec fn spec_from_u8(input: u8) -> Option<TlsRecordContentType> {
        if input == 20 {
            Some(TlsRecordContentType::ChangeCipherSpec)
        } else if input == 21 {
            Some(TlsRecordContentType::Alert)
        } else if input == 22 {
            Some(TlsRecordContentType::Handshake)
        } else if input == 23 {
            Some(TlsRecordContentType::ApplicationData)
        } else if input == 24 {
            Some(TlsRecordContentType::Heartbeat)
        } else {
            None
        }
    }

    /// Convert a u8 to a `TlsRecordContentType`. Returns `None` if the type
    /// is not supported or generally invalid.
    pub fn from_u8(input: u8) -> (r: Option<TlsRecordContentType>)
        ensures
            r == Self::spec_from_u8(input),
    {
        match input {
            20 => Some(TlsRecordContentType::ChangeCipherSpec),
            21 => Some(TlsRecordContentType::Alert),
            22 => Some(TlsRecordContentType::Handshake),
            23 => Some(TlsRecordContentType::ApplicationData),
            24 => Some(TlsRecordContentType::Heartbeat),
            _ => None,
        }
    }
}

/// TLS record protocol version.
#[derive(Debug, Clone, Copy, PartialEq, Eq, Structural)]
pub struct TlsRecordVersion {
    /// Major part of the TLS version
    pub major: u8,
    /// Minor part of the TLS version
    pub minor: u8,
}

/// What parsing a TLS record header yields: a supported content type byte,
/// two version bytes and the record length.
pub open spec fn tls_spec(input: Seq<u8>) -> ParseStatus<Layer> {
    if input.len() < 1 {
        ParseStatus::Incomplete(Needed::Size(1))
    } else {
        match TlsRecordContentType::spec_from_u8(input[0]) {
            None => ParseStatus::Failed,
            Some(ct) => if input.len() < 3 {
                ParseStatus::Incomplete(Needed::Size(3))
            } else if input.len() < 5 {
                ParseStatus::Incomplete(Needed::Size(5))
            } else {
                ParseStatus::Done(
                    5,
                    Layer::Tls(
                        TlsPacket {
                            content_type: ct,
                            version: TlsRecordVersion { major: input[1], minor: input[2] },
                            length: be_u16_at(input, 3),
                        },
                    ),
                )
            },
        }
    }
}

impl TlsParser {
    /// Return the actual enum variant of the parser.
    pub fn variant(&self) -> (r: ParserVariant)
        ensures
            r == ParserVariant::Tls(*self),
    {
        ParserVariant::Tls(*self)
    }
}

impl Parsable for TlsParser {
    type Output = Layer;

    type Id = ParserVariant;

    type Data = ();

    open spec fn parse_spec(
        &self,
        input: Seq<u8>,
        acc: Option<Seq<Layer>>,
        data: Option<()>,
    ) -> (ParseStatus<Layer>, Option<()>) {
        (tls_spec(input), data)
    }

    open spec fn identity_spec(&self) -> ParserVariant {
        ParserVariant::Tls(*self)
    }

    proof fn lemma_parse_consumes_prefix(
        &self,
        input: Seq<u8>,
        acc: Option<Seq<Layer>>,
        data: Option<()>,
    ) {
    }

    /// Parse a TLS record header from a byte slice.
    fn parse(&self, input: &[u8], acc: Option<&Vec<Layer>>, data: &mut Option<()>) -> (r:
        ParseStatus<Layer>) {
        if input.len() < 1 {
            ParseStatus::Incomplete(Needed::Size(1))
        } else {
            match TlsRecordContentType::from_u8(*vstd::slice::slice_index_get(input, 0)) {
                None => ParseStatus::Failed,
                Some(ct) => if input.len() < 3 {
                    ParseStatus::Incomplete(Needed::Size(3))
                } else if input.len() < 5 {
                    ParseStatus::Incomplete(Needed::Size(5))
                } else {
                    ParseStatus::Done(
                        5,
                        Layer::Tls(
                            TlsPacket {
                                content_type: ct,
                                version: TlsRecordVersion {
                                    major: *vstd::slice::slice_index_get(input, 1),
                                    minor: *vstd::slice::slice_index_get(input, 2),
                                },
                                length: read_be_u16(input, 3),
                            },
                        ),
                    )
                },
            }
        }
    }

    fn identity(&self) -> (r: ParserVariant) {
        ParserVariant::Tls(*self)
    }
}

/// A TLS verdict reached on some bytes stands on those bytes plus more: the
/// record header is decided by its first five bytes alone.
pub proof fn lemma_tls_extend(input: Seq<u8>, ext: Seq<u8>)
    ensures
        (tls_spec(input) is Done || tls_spec(input) is Failed) ==> tls_spec(input + ext)
            == tls_spec(input),
{
    if input.len() >= 5 {
        assert(be_u16_at(input + ext, 3) == be_u16_at(input, 3));
    }
}

} // verus!
