use peel::packet::layer3::tls::{TlsPacket, TlsRecordContentType, TlsRecordVersion};
use peel::packet::layer4::http::{HttpPacket, HttpParser, HttpRequestMethod};
use peel::packet::Layer;
use peel::parser::{Needed, Parsable, ParseStatus};

#[test]
fn parse_http_success() {
    let parser = HttpParser;
    let res = parser.parse(b"GET /\r\nHost: myhost.com\r\n\r\n", None, &mut None);
    match res {
        ParseStatus::Done(consumed, layer) => {
            assert_eq!(consumed, 4);
            assert_eq!(
                layer,
                Layer::Http(Some(HttpPacket {
                    request_method: HttpRequestMethod::Get,
                }))
            );
        }
        _ => panic!("a GET request line must parse"),
    }

    let res = parser.parse(b"POST /\r\nHost: myhost.com\r\n\r\n", None, &mut None);
    match res {
        ParseStatus::Done(consumed, layer) => {
            assert_eq!(consumed, 5);
            assert_eq!(
                layer,
                Layer::Http(Some(HttpPacket {
                    request_method: HttpRequestMethod::Post,
                }))
            );
        }
        _ => panic!("a POST request line must parse"),
    }
}

#[test]
fn parse_http_failure_wrong_method() {
    let parser = HttpParser;
    assert_eq!(
        parser.parse(b"GET", None, &mut None),
        ParseStatus::Incomplete(Needed::Size(4))
    );

    let input = b"GOT ";
    assert_eq!(parser.parse(input, None, &mut None), ParseStatus::Failed);
}

#[test]
fn parse_http_tls_based() {
    let below = vec![Layer::Tls(TlsPacket {
        content_type: TlsRecordContentType::ApplicationData,
        version: TlsRecordVersion { major: 3, minor: 3 },
        length: 42,
    })];
    let res = HttpPacket::parse_tls_based(b"opaque bytes", Some(&below));
    assert_eq!(res, ParseStatus::Done(0, Layer::Http(None)));

    let res = HttpPacket::parse_tls_based(b"opaque bytes", Some(&vec![]));
    assert_eq!(res, ParseStatus::Failed);

    let res = HttpPacket::parse_tls_based(b"opaque bytes", None);
    assert_eq!(res, ParseStatus::Failed);
}
