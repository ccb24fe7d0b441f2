use linkedbytes::LinkedBytes;
use pilota::thrift::binary::TBinaryProtocol;
use pilota::thrift::compact::TCompactOutputProtocol;
use pilota::thrift::{TMessageIdentifier, TMessageType, TOutputProtocol};
use volo_codec::thrift::{
    detect, DecodeAction, DecodeEvent, MakeThriftCodec, MessageLength, Protocol,
    ProtocolExceptionKind, ProtocolMarks, ThriftCodec, ThriftException, HEADER_DETECT_LENGTH,
};

#[test]
fn protocols_are_told_by_the_first_byte() {
    assert_eq!(HEADER_DETECT_LENGTH, 1);
    assert_eq!(detect(&[0x80, 1, 0, 1]).unwrap(), Protocol::Binary);
    assert_eq!(detect(&[0x00]).unwrap(), Protocol::Binary);
    assert_eq!(detect(&[0x82, 0x21]).unwrap(), Protocol::ApacheCompact);
    for first in 0..=255u8 {
        match detect(&[first]) {
            Ok(protocol) => {
                assert!(matches!(first, 0x00 | 0x80 | 0x82));
                assert_ne!(protocol, Protocol::FBThriftCompact);
            }
            Err(exception) => {
                assert!(!matches!(first, 0x00 | 0x80 | 0x82));
                assert_eq!(exception.kind, ProtocolExceptionKind::BadVersion);
                assert_eq!(
                    exception.message,
                    format!("unknown protocol, first byte: {first}")
                );
            }
        }
    }
}

#[test]
fn written_messages_are_told_apart() {
    let identifier = TMessageIdentifier::new("Echo".into(), TMessageType::Call, 1);
    let mut binary = LinkedBytes::new();
    TBinaryProtocol::new(&mut binary, true).write_message_begin(&identifier).unwrap();
    assert_eq!(detect(&binary.concat()).unwrap(), Protocol::Binary);
    let mut compact = LinkedBytes::new();
    TCompactOutputProtocol::new(&mut compact, true).write_message_begin(&identifier).unwrap();
    assert_eq!(detect(&compact.concat()).unwrap(), Protocol::ApacheCompact);
}

#[test]
fn decoding_marks_the_context() {
    let codec = ThriftCodec::new(Protocol::FBThriftCompact);
    let mut marks = ProtocolMarks::new();
    let result = codec.decode::<_, (), _>(&mut marks, &[0x82], |protocol| Ok(protocol));
    assert_eq!(result.unwrap(), Some(Protocol::ApacheCompact));
    assert!(marks.binary.is_none());
    assert!(marks.apache_compact.is_some());
    let mut marks = ProtocolMarks::new();
    let result = codec.decode::<_, (), _>(&mut marks, &[0x80], |protocol| Ok(protocol));
    assert_eq!(result.unwrap(), Some(Protocol::Binary));
    assert!(marks.binary.is_some());
    assert!(marks.apache_compact.is_none());
}

#[test]
fn decoding_fails_without_marks() {
    let codec = ThriftCodec::default();
    let mut marks = ProtocolMarks::new();
    match codec.decode::<(), (), _>(&mut marks, &[], |_| panic!("called")) {
        Err(ThriftException::Protocol(exception)) => {
            assert_eq!(exception.kind, ProtocolExceptionKind::BadVersion);
            assert_eq!(
                exception.message,
                "not enough bytes to detect protocol in thrift codec"
            );
        }
        _ => panic!("no bytes"),
    }
    match codec.decode::<(), (), _>(&mut marks, &[7], |_| panic!("called")) {
        Err(ThriftException::Protocol(exception)) => {
            assert_eq!(exception.message, "unknown protocol, first byte: 7");
        }
        _ => panic!("unknown byte"),
    }
    let result = codec.decode::<(), _, _>(&mut marks, &[0x80], |_| Err("broken"));
    assert!(matches!(result, Err(ThriftException::Message("broken"))));
    assert_eq!(marks, ProtocolMarks::new());
}

#[test]
fn a_server_answers_in_the_protocol_asked() {
    for (first, asked) in [(0x80, Protocol::Binary), (0x82, Protocol::ApacheCompact)] {
        for set in [Protocol::Binary, Protocol::ApacheCompact, Protocol::FBThriftCompact] {
            let (encoder, decoder) = MakeThriftCodec::new().with_protocol(set).make_codec();
            let mut marks = ProtocolMarks::new();
            decoder.decode::<(), (), _>(&mut marks, &[first], |_| Ok(())).unwrap();
            let mut used = None;
            encoder
                .encode::<(), _>(&marks, |protocol| {
                    used = Some(protocol);
                    Ok(())
                })
                .unwrap();
            assert_eq!(used, Some(asked));
        }
    }
}

#[test]
fn the_binary_mark_goes_first() {
    let mut marks = ProtocolMarks::new();
    marks.insert(Protocol::ApacheCompact);
    marks.insert(Protocol::Binary);
    marks.insert(Protocol::FBThriftCompact);
    let mut used = None;
    ThriftCodec::new(Protocol::ApacheCompact)
        .encode::<(), _>(&marks, |protocol| {
            used = Some(protocol);
            Ok(())
        })
        .unwrap();
    assert_eq!(used, Some(Protocol::Binary));
}

#[test]
fn a_client_sends_in_its_protocol() {
    let marks = ProtocolMarks::new();
    for set in [Protocol::Binary, Protocol::ApacheCompact] {
        let result = ThriftCodec::new(set).encode(&marks, |protocol| Err(protocol));
        assert!(matches!(result, Err(ThriftException::Message(protocol)) if protocol == set));
    }
    let (default, _) = MakeThriftCodec::default().make_codec();
    assert_eq!(default, ThriftCodec::default());
    assert_eq!(default, ThriftCodec::new(Protocol::Binary));
}

#[test]
fn an_unsupported_protocol_is_refused() {
    let codec = ThriftCodec::new(Protocol::FBThriftCompact);
    let marks = ProtocolMarks::new();
    match codec.encode::<(), _>(&marks, |_| panic!("called")) {
        Err(ThriftException::Protocol(exception)) => {
            assert_eq!(exception.kind, ProtocolExceptionKind::NotImplemented);
            assert_eq!(exception.message, "protocol FBThriftCompact is not supported");
        }
        _ => panic!("written"),
    }
    let exception = codec.size(&marks, |_| panic!("called")).unwrap_err();
    assert_eq!(exception.kind, ProtocolExceptionKind::NotImplemented);
    assert_eq!(exception.message, "protocol FBThriftCompact is not supported");
}

#[test]
fn sizes_leave_out_what_is_linked() {
    let codec = ThriftCodec::new(Protocol::ApacheCompact);
    let mut used = None;
    let sizes = codec.size(&ProtocolMarks::new(), |protocol| {
        used = Some(protocol);
        MessageLength { total: 5000, zero_copy: 4096 }
    });
    assert_eq!(sizes.unwrap(), (5000, 904));
    assert_eq!(used, Some(Protocol::ApacheCompact));
}

#[test]
fn streams_are_read_in_two_steps() {
    let codec = ThriftCodec::default();
    let mut marks = ProtocolMarks::new();
    let head: DecodeEvent<u8, ()> = DecodeEvent::Head(vec![0x82, 0x21]);
    let protocol = match codec.decode_async(&mut marks, head) {
        DecodeAction::ReadMessage(protocol) => protocol,
        _ => panic!("not told"),
    };
    assert_eq!(protocol, Protocol::ApacheCompact);
    assert_eq!(marks, ProtocolMarks::new());
    let message: DecodeEvent<u8, ()> = DecodeEvent::Message { protocol, outcome: Ok(7) };
    match codec.decode_async(&mut marks, message) {
        DecodeAction::Finish { result, record_read_end } => {
            assert_eq!(result.unwrap(), Some(7));
            assert!(record_read_end);
        }
        _ => panic!("not finished"),
    }
    assert!(marks.apache_compact.is_some());
    assert!(marks.binary.is_none());
}

#[test]
fn streams_that_fail() {
    let codec = ThriftCodec::default();
    let mut marks = ProtocolMarks::new();
    let missing: DecodeEvent<(), ()> = DecodeEvent::HeadMissing;
    match codec.decode_async(&mut marks, missing) {
        DecodeAction::Finish { result: Err(ThriftException::Protocol(exception)), record_read_end } => {
            assert_eq!(
                exception.message,
                "not enough bytes to detect protocol in thrift codec"
            );
            assert!(record_read_end);
        }
        _ => panic!("no head"),
    }
    let unknown: DecodeEvent<(), ()> = DecodeEvent::Head(vec![0x7f]);
    match codec.decode_async(&mut marks, unknown) {
        DecodeAction::Finish { result: Err(ThriftException::Protocol(exception)), record_read_end } => {
            assert_eq!(exception.message, "unknown protocol, first byte: 127");
            assert!(record_read_end);
        }
        _ => panic!("unknown head"),
    }
    let broken: DecodeEvent<(), &str> =
        DecodeEvent::Message { protocol: Protocol::Binary, outcome: Err("broken") };
    match codec.decode_async(&mut marks, broken) {
        DecodeAction::Finish { result, record_read_end } => {
            assert!(matches!(result, Err(ThriftException::Message("broken"))));
            assert!(!record_read_end);
        }
        _ => panic!("broken message"),
    }
    assert_eq!(marks, ProtocolMarks::new());
}

#[test]
fn marks_stay() {
    let mut one = ProtocolMarks::new();
    one.insert(Protocol::Binary);
    one.insert(Protocol::Binary);
    one.insert(Protocol::ApacheCompact);
    let mut other = ProtocolMarks::new();
    other.insert(Protocol::ApacheCompact);
    other.insert(Protocol::Binary);
    assert_eq!(one, other);
    assert!(one.binary.is_some() && one.apache_compact.is_some());
}

#[test]
fn reading_ignores_the_protocol_set() {
    let all = [Protocol::Binary, Protocol::ApacheCompact, Protocol::FBThriftCompact];
    for head in [&[][..], &[0x00], &[0x80, 1], &[0x82, 0x21], &[0x7f]] {
        let mut seen = Vec::new();
        for set in all {
            let codec = ThriftCodec::new(set);
            let mut marks = ProtocolMarks::new();
            let result = codec.decode(&mut marks, head, |protocol| match protocol {
                Protocol::Binary => Ok(protocol),
                _ => Err("broken"),
            });
            assert_eq!(codec, ThriftCodec::new(set));
            seen.push((format!("{result:?}"), marks));
        }
        assert_eq!(seen[0], seen[1]);
        assert_eq!(seen[0], seen[2]);
    }
}
