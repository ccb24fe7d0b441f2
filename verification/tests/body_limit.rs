use http::header::{HeaderMap, HeaderValue};
use http_body::Body;
use volo_codec::body_limit::{content_length, Admission, BodyLimitLayer, CONTENT_LENGTH};

const TOO_LARGE: Admission = Admission::Reject { status: 413 };

fn stating(value: &[u8]) -> HeaderMap {
    let mut map = HeaderMap::new();
    map.insert(CONTENT_LENGTH, HeaderValue::from_bytes(value).unwrap());
    map
}

#[test]
fn test_body_limit() {
    let handler = || "Hello, World";
    let body_limit_layer = BodyLimitLayer::new(8);
    let service = body_limit_layer.layer(handler);

    // Test case 1: reject
    let body = "111111111".to_string();
    let res = service.call(&HeaderMap::new(), body.size_hint().lower());
    assert_eq!(
        res,
        Admission::Reject {
            status: http::StatusCode::PAYLOAD_TOO_LARGE.as_u16()
        }
    );

    // Test case 2: not reject
    let body = "1".to_string();
    let res = service.call(&HeaderMap::new(), body.size_hint().lower());
    assert_eq!(res, Admission::Forward);
    assert_eq!(service.service()(), "Hello, World");
}

#[test]
fn the_limit_itself_is_let_through() {
    let service = BodyLimitLayer::new(8).clone().layer(());
    assert_eq!(service.call(&stating(b"8"), 0), Admission::Forward);
    assert_eq!(service.call(&stating(b"9"), 0), TOO_LARGE);
    assert_eq!(service.call(&HeaderMap::new(), 8), Admission::Forward);
    assert_eq!(service.call(&HeaderMap::new(), 9), TOO_LARGE);
    let none = BodyLimitLayer::new(0).layer(());
    assert_eq!(none.decide(None, 0), Admission::Forward);
    assert_eq!(none.decide(Some(1), 0), TOO_LARGE);
}

#[test]
fn the_larger_size_counts() {
    let service = BodyLimitLayer::new(8).layer(());
    assert_eq!(service.call(&stating(b"1"), 100), TOO_LARGE);
    assert_eq!(service.call(&stating(b"100"), 1), TOO_LARGE);
    assert_eq!(service.call(&stating(b"8"), 8), Admission::Forward);
    assert_eq!(service.decide(Some(8), u64::MAX), TOO_LARGE);
    let body = "111111111".to_string();
    assert_eq!(service.call(&stating(b"1"), body.size_hint().lower()), TOO_LARGE);
}

#[test]
fn an_unreadable_length_is_no_length() {
    let service = BodyLimitLayer::new(8).layer(());
    for value in [&b"many"[..], b"", b" 1", b"1 ", b"-1", b"+", b"1_0", b"\xff", b"99999999999999999999"] {
        assert_eq!(content_length(&stating(value)), None);
        assert_eq!(service.call(&stating(value), 8), Admission::Forward);
        assert_eq!(service.call(&stating(value), 9), TOO_LARGE);
    }
}

#[test]
fn readable_lengths() {
    assert_eq!(content_length(&HeaderMap::new()), None);
    assert_eq!(content_length(&stating(b"0")), Some(0));
    assert_eq!(content_length(&stating(b"+10")), Some(10));
    assert_eq!(content_length(&stating(b"0000000000000000000000012")), Some(12));
    let mut two = stating(b"3");
    two.append(CONTENT_LENGTH, HeaderValue::from_static("4"));
    assert_eq!(content_length(&two), Some(3));
}

#[test]
fn a_larger_limit_lets_more_through() {
    for size in [0u64, 7, 8, 9, 1000] {
        if BodyLimitLayer::new(8).layer(()).decide(None, size) == Admission::Forward {
            assert_eq!(BodyLimitLayer::new(9).layer(()).decide(None, size), Admission::Forward);
        }
    }
}
