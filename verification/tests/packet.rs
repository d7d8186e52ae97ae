use peel::packet::ethernet::EthernetParser;
use peel::packet::layer2::ipv4::{IpProtocol, Ipv4Address, Ipv4Packet, Ipv4Parser};
use peel::packet::layer3::tls::{TlsParser, TlsRecordContentType};
use peel::packet::layer4::http::HttpParser;
use peel::packet::{get_packet_peel, Layer, ParserVariant};
use peel::parser::{Needed, Parsable, ParseStatus};
use peel::Peel;

#[test]
fn tree_example() {
    // A single Ethernet parser as the whole graph.
    let mut tree: Peel<ParserVariant> = Peel::new();
    tree.new_parser(ParserVariant::Ethernet(EthernetParser));

    // Traverse the tree and find the "best" parsing result.
    let input = [1, 2, 3, 4, 5, 6, 1, 2, 3, 4, 5, 6, 8, 0];
    let result = tree.traverse(&input, vec![], vec![]);
    println!("Result: {:?}", result);
    assert_eq!(result.result.len(), 1);
}

#[test]
fn parse_ipv4_success() {
    let parser = Ipv4Parser;
    let input = [
        0x45, 0x00, // version 4, ihl 5 words, tos 0
        0x00, 0x28, // total length 40
        0x12, 0x34, // identification
        0x40, 0x00, // flags and fragment offset
        0x40, 0x06, // ttl 64, protocol tcp
        0xab, 0xcd, // checksum
        10, 0, 0, 1, // source
        10, 0, 0, 2, // destination
    ];
    let res = parser.parse(&input, None, &mut None);
    match res {
        ParseStatus::Done(consumed, Layer::Ipv4(packet)) => {
            assert_eq!(consumed, 20);
            assert_eq!(
                packet,
                Ipv4Packet {
                    version: 4,
                    ihl: 20,
                    tos: 0,
                    length: 40,
                    id: 0x1234,
                    flags_and_fragment_offset: 0x4000,
                    ttl: 64,
                    protocol: IpProtocol::Tcp,
                    checksum: 0xabcd,
                    src: Ipv4Address(10, 0, 0, 1),
                    dst: Ipv4Address(10, 0, 0, 2),
                }
            );
        }
        _ => panic!("a full IPv4 header must parse"),
    }
}

#[test]
fn parse_ipv4_wrong_version() {
    let parser = Ipv4Parser;
    let mut input = vec![0u8; 20];
    input[0] = 0x60; // version 6
    assert_eq!(parser.parse(&input, None, &mut None), ParseStatus::Failed);
}

#[test]
fn parse_ipv4_wrong_protocol() {
    let parser = Ipv4Parser;
    let mut input = vec![0u8; 20];
    input[0] = 0x45;
    input[9] = 99; // no supported transport protocol
    assert_eq!(parser.parse(&input, None, &mut None), ParseStatus::Failed);
}

#[test]
fn parse_ipv4_too_small() {
    let parser = Ipv4Parser;
    let mut input = vec![0u8; 12];
    input[0] = 0x45;
    input[9] = 6;
    assert_eq!(
        parser.parse(&input, None, &mut None),
        ParseStatus::Incomplete(Needed::Size(16))
    );
}

#[test]
fn parse_ipv4_checks_parent_layer() {
    let parser = Ipv4Parser;
    let mut header = vec![0u8; 20];
    header[0] = 0x45;
    header[9] = 17; // udp

    // Within a traversal an empty stack means IPv4 cannot be the root.
    let empty: Vec<Layer> = vec![];
    assert_eq!(
        parser.parse(&header, Some(&empty), &mut None),
        ParseStatus::Failed
    );
}

#[test]
fn ip_protocol_from_u8_values() {
    assert_eq!(IpProtocol::from_u8(6), Some(IpProtocol::Tcp));
    assert_eq!(IpProtocol::from_u8(17), Some(IpProtocol::Udp));
    assert_eq!(IpProtocol::from_u8(1), None);
}

#[test]
fn parse_tls_success() {
    let parser = TlsParser;
    let input = [22, 3, 3, 0x00, 0x2f];
    match parser.parse(&input, None, &mut None) {
        ParseStatus::Done(consumed, Layer::Tls(packet)) => {
            assert_eq!(consumed, 5);
            assert_eq!(packet.content_type, TlsRecordContentType::Handshake);
            assert_eq!(packet.version.major, 3);
            assert_eq!(packet.version.minor, 3);
            assert_eq!(packet.length, 47);
        }
        _ => panic!("a full TLS record header must parse"),
    }
}

#[test]
fn parse_tls_wrong_content_type() {
    let parser = TlsParser;
    let input = [99, 3, 3, 0x00, 0x2f];
    assert_eq!(parser.parse(&input, None, &mut None), ParseStatus::Failed);
}

#[test]
fn parse_tls_too_small() {
    let parser = TlsParser;
    assert_eq!(
        parser.parse(&[], None, &mut None),
        ParseStatus::Incomplete(Needed::Size(1))
    );
    assert_eq!(
        parser.parse(&[22, 3], None, &mut None),
        ParseStatus::Incomplete(Needed::Size(3))
    );
    assert_eq!(
        parser.parse(&[22, 3, 3, 0], None, &mut None),
        ParseStatus::Incomplete(Needed::Size(5))
    );
}

#[test]
fn tls_content_type_from_u8_values() {
    assert_eq!(
        TlsRecordContentType::from_u8(20),
        Some(TlsRecordContentType::ChangeCipherSpec)
    );
    assert_eq!(
        TlsRecordContentType::from_u8(24),
        Some(TlsRecordContentType::Heartbeat)
    );
    assert_eq!(TlsRecordContentType::from_u8(25), None);
}

#[test]
fn packet_peel_full_stack() {
    let mut peel = get_packet_peel();

    let mut input = Vec::new();
    // Ethernet: destination, source, EtherType IPv4.
    input.extend_from_slice(&[1, 2, 3, 4, 5, 6, 7, 8, 9, 10, 11, 12, 0x08, 0x00]);
    // IPv4: version 4, protocol TCP.
    input.extend_from_slice(&[
        0x45, 0x00, 0x00, 0x28, 0x12, 0x34, 0x40, 0x00, 0x40, 0x06, 0xab, 0xcd, 10, 0, 0, 1, 10,
        0, 0, 2,
    ]);
    // TLS record header: application data, version 3.3, length 5.
    input.extend_from_slice(&[23, 3, 3, 0x00, 0x05]);

    let outcome = peel.traverse(&input, vec![], vec![]);
    assert!(outcome.error.is_none());
    assert_eq!(outcome.result.len(), 4);
    assert!(matches!(outcome.result[0], Layer::Ethernet(_)));
    assert!(matches!(outcome.result[1], Layer::Ipv4(_)));
    assert!(matches!(outcome.result[2], Layer::Tls(_)));
    // The HTTP layer below TLS is recognized without consuming anything.
    assert_eq!(outcome.result[3], Layer::Http(None));
    assert!(outcome.left_input.is_empty());
    assert_eq!(outcome.parsers.len(), 4);
    assert!(matches!(outcome.parsers[3], ParserVariant::Http(HttpParser)));
}
