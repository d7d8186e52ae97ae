use peel::packet::ethernet::{EtherType, EthernetPacket, EthernetParser, MacAddress};
use peel::packet::Layer;
use peel::parser::{Needed, Parsable, ParseStatus};

#[test]
fn eth_parser_variant() {
    let parser = EthernetParser;
    println!("{:?}", parser.variant());
}

#[test]
fn parse_eth_success() {
    let parser = EthernetParser;
    let input = [1, 2, 3, 4, 5, 6, 7, 8, 9, 10, 11, 12, 8, 0];
    let res = parser.parse(&input, None, &mut None);
    match res {
        ParseStatus::Done(consumed, Layer::Ethernet(eth)) => {
            assert_eq!(consumed, 14);
            assert_eq!(
                EthernetPacket {
                    dst: MacAddress(1, 2, 3, 4, 5, 6),
                    src: MacAddress(7, 8, 9, 10, 11, 12),
                    ethertype: EtherType::Ipv4,
                },
                eth
            );
        }
        _ => panic!("a full Ethernet header must parse"),
    }
}

#[test]
fn parse_eth_success_ethertypes() {
    let parser = EthernetParser;
    let mut input = vec![1, 2, 3, 4, 5, 6, 7, 8, 9, 10, 11, 12, 8, 0]; // IPv4
    assert!(matches!(
        parser.parse(&input, None, &mut None),
        ParseStatus::Done(_, _)
    ));

    input[12] = 0x86; // IPv6
    input[13] = 0xdd;
    assert!(matches!(
        parser.parse(&input, None, &mut None),
        ParseStatus::Done(_, _)
    ));
}

#[test]
fn parse_eth_failure_wrong_ethertype() {
    let parser = EthernetParser;
    let mut input = vec![1, 2, 3, 4, 5, 6, 7, 8, 9, 10, 11, 12, 8, 0];
    input[13] = 0x55;
    let res = parser.parse(&input, None, &mut None);
    assert_eq!(res, ParseStatus::Failed);
}

#[test]
fn parse_eth_failure_too_small() {
    let parser = EthernetParser;
    let mut input = vec![1, 2, 3, 4, 5, 6, 7, 8, 9, 10, 11, 12, 8, 0];
    input.pop();
    let res = parser.parse(&input, None, &mut None);
    assert_eq!(res, ParseStatus::Incomplete(Needed::Size(14)));
}

#[test]
fn ethertype_from_u16_values() {
    assert_eq!(EtherType::from_u16(0x0800), Some(EtherType::Ipv4));
    assert_eq!(EtherType::from_u16(0x86DD), Some(EtherType::Ipv6));
    assert_eq!(EtherType::from_u16(0x1234), None);
}
