use bytes::{BufMut, BytesMut};
use http::header::{HeaderMap, HeaderValue};
use linkedbytes::LinkedBytes;
use volo_codec::compression::{
    can_compress, can_decompress, compose_encodings, compress, decompress, pick_accepted,
    read_announced, settle_held, settle_open, zstd_level, CompressionEncoding, GzipConfig, Level, Status, ZlibConfig,
    ZstdConfig, ACCEPT_ENCODING_HEADER, BUFFER_SIZE, DEFAULT_LEVEL, ENCODING_HEADER,
};

fn gzip(level: u32) -> CompressionEncoding {
    CompressionEncoding::Gzip(Some(GzipConfig { level: Level::new(level) }))
}

fn zlib(level: u32) -> CompressionEncoding {
    CompressionEncoding::Zlib(Some(ZlibConfig { level: Level::new(level) }))
}

fn zstandard(level: u32) -> CompressionEncoding {
    CompressionEncoding::Zstd(Some(ZstdConfig { level: Level::new(level) }))
}

fn filled(data: &[u8]) -> LinkedBytes {
    let mut buf = LinkedBytes::new();
    buf.put(data);
    buf
}

fn headers(name: &'static str, value: &[u8]) -> HeaderMap {
    let mut map = HeaderMap::new();
    map.insert(name, HeaderValue::from_bytes(value).unwrap());
    map
}

#[test]
fn test_consistency_for_compression() {
    let mut src = LinkedBytes::with_capacity(BUFFER_SIZE);
    let mut compress_buf = LinkedBytes::new();
    let mut de_data = LinkedBytes::with_capacity(BUFFER_SIZE);
    let test_data = &b"test compression"[..];
    src.put(test_data);

    let encodings = [
        CompressionEncoding::Gzip(Some(GzipConfig {
            level: Level::fast(),
        })),
        CompressionEncoding::Zlib(Some(ZlibConfig {
            level: Level::fast(),
        })),
        CompressionEncoding::Zstd(Some(ZstdConfig {
            level: Level::new(3),
        })),
        CompressionEncoding::Identity,
    ];

    for encoding in encodings {
        compress_buf.reset();
        compress(encoding, &mut src, &mut compress_buf).expect("compress failed:");
        decompress(encoding, compress_buf.bytes_mut(), de_data.bytes_mut())
            .expect("decompress failed:");
        assert_eq!(test_data, de_data.bytes());
    }
}

#[test]
fn every_compressor_gives_back_its_input() {
    let mut long: Vec<u8> = Vec::new();
    for i in 0..100_000u32 {
        long.push((i * i / 7) as u8);
    }
    let inputs: [&[u8]; 3] = [b"", b"test compression", &long];
    let pairs = [
        (gzip(0), CompressionEncoding::Gzip(None)),
        (gzip(6), gzip(1)),
        (gzip(10), CompressionEncoding::Gzip(None)),
        (zlib(0), CompressionEncoding::Zlib(None)),
        (zlib(9), CompressionEncoding::Zlib(None)),
        (zstandard(0), CompressionEncoding::Zstd(None)),
        (zstandard(19), CompressionEncoding::Zstd(None)),
        (zstandard(u32::MAX), CompressionEncoding::Zstd(None)),
        (zstandard(2_147_483_648), CompressionEncoding::Zstd(None)),
    ];
    for data in inputs {
        for (sender, receiver) in pairs {
            let mut src = filled(data);
            let mut wire = filled(b"head");
            assert!(can_compress(&src, &wire));
            compress(sender, &mut src, &mut wire).unwrap();
            assert!(src.bytes().is_empty());
            assert_eq!(&wire.bytes()[..4], b"head");
            let mut packed = BytesMut::from(&wire.bytes()[4..]);
            assert_ne!(&packed[..], data);
            let mut out = BytesMut::from(&b"tail"[..]);
            assert!(can_decompress(&packed, &out));
            decompress(receiver, &mut packed, &mut out).unwrap();
            assert!(packed.is_empty());
            assert_eq!(&out[..4], b"tail");
            assert_eq!(&out[4..], data);
        }
    }
}

#[test]
fn compress_leaves_sealed_chunks_alone() {
    let mut src = filled(b"sealed");
    src.split();
    src.put(&b"open"[..]);
    let mut wire = filled(b"kept");
    wire.split();
    compress(zlib(6), &mut src, &mut wire).unwrap();
    assert_eq!(src.concat(), &b"sealed"[..]);
    assert_eq!(&wire.concat()[..4], b"kept");
    let mut out = BytesMut::new();
    decompress(CompressionEncoding::Zlib(None), wire.bytes_mut(), &mut out).unwrap();
    assert_eq!(&out[..], b"open");
}

#[test]
fn compressors_write_their_formats() {
    let mut wire = LinkedBytes::new();
    compress(gzip(6), &mut filled(b"hello grpc"), &mut wire).unwrap();
    let expected: [u8; 30] = [
        31, 139, 8, 0, 0, 0, 0, 0, 0, 255, 203, 72, 205, 201, 201, 87, 72, 47, 42, 72, 6, 0, 103,
        211, 127, 206, 10, 0, 0, 0,
    ];
    assert_eq!(&wire.bytes()[..], &expected[..]);

    let mut wire = LinkedBytes::new();
    compress(zlib(6), &mut filled(b"hello grpc"), &mut wire).unwrap();
    let expected: [u8; 18] = [
        120, 156, 203, 72, 205, 201, 201, 87, 72, 47, 42, 72, 6, 0, 21, 106, 3, 225,
    ];
    assert_eq!(&wire.bytes()[..], &expected[..]);

    let mut wire = LinkedBytes::new();
    compress(zstandard(3), &mut filled(b"hello grpc"), &mut wire).unwrap();
    assert_eq!(&wire.bytes()[..4], &[0x28, 0xb5, 0x2f, 0xfd]);
}

#[test]
fn levels_matter_to_the_compressors() {
    let data = vec![7u8; 4096];
    for (stored, packed) in [(gzip(0), gzip(9)), (zlib(0), zlib(9))] {
        let mut large = LinkedBytes::new();
        compress(stored, &mut filled(&data), &mut large).unwrap();
        assert!(large.bytes().len() > data.len());
        let mut small = LinkedBytes::new();
        compress(packed, &mut filled(&data), &mut small).unwrap();
        assert!(small.bytes().len() < 100);
    }
}

#[test]
fn encodings_without_configuration_write_nothing() {
    let encodings = [
        CompressionEncoding::Identity,
        CompressionEncoding::Gzip(None),
        CompressionEncoding::Zlib(None),
        CompressionEncoding::Zstd(None),
    ];
    for encoding in encodings {
        let mut src = filled(b"gone");
        let mut wire = filled(b"kept");
        compress(encoding, &mut src, &mut wire).unwrap();
        assert!(src.bytes().is_empty());
        assert_eq!(&wire.bytes()[..], b"kept");
    }
    let mut src = BytesMut::from(&b"gone"[..]);
    let mut out = BytesMut::from(&b"kept"[..]);
    decompress(CompressionEncoding::Identity, &mut src, &mut out).unwrap();
    assert!(src.is_empty());
    assert_eq!(&out[..], b"kept");
}

#[test]
fn malformed_data_are_refused_and_kept() {
    let encodings = [
        CompressionEncoding::Gzip(None),
        CompressionEncoding::Zlib(None),
        CompressionEncoding::Zstd(None),
    ];
    for encoding in encodings {
        for data in [&b"neither one nor the other"[..], &b""[..]] {
            let mut src = BytesMut::from(data);
            let mut out = BytesMut::from(&b"kept"[..]);
            let error = decompress(encoding, &mut src, &mut out).unwrap_err();
            assert!(!error.cause.to_string().is_empty());
            assert_eq!(&src[..], data);
            assert_eq!(&out[..4], b"kept");
        }
    }
}

#[test]
fn truncated_data_are_refused() {
    for encoding in [gzip(6), zlib(6), zstandard(6)] {
        let mut wire = LinkedBytes::new();
        compress(encoding, &mut filled(b"a message of some length"), &mut wire).unwrap();
        let cut = wire.bytes().len() - 3;
        let mut src = BytesMut::from(&wire.bytes()[..cut]);
        let mut out = BytesMut::new();
        assert!(decompress(encoding, &mut src, &mut out).is_err());
        assert_eq!(src.len(), cut);
    }
}

#[test]
fn zstd_levels() {
    assert_eq!(zstd_level(Level::new(0)), 3);
    assert_eq!(zstd_level(Level::new(1)), 1);
    assert_eq!(zstd_level(Level::new(22)), 22);
    assert_eq!(zstd_level(Level::new(2_147_483_647)), 2_147_483_647);
    assert_eq!(zstd_level(Level::new(2_147_483_648)), -2_147_483_648);
    assert_eq!(zstd_level(Level::new(u32::MAX)), -1);
}

#[test]
fn configured_and_default_levels() {
    assert_eq!(DEFAULT_LEVEL, 6);
    assert_eq!(Level::none().level(), flate2::Compression::none().level());
    assert_eq!(Level::fast().level(), flate2::Compression::fast().level());
    assert_eq!(Level::best().level(), flate2::Compression::best().level());
    assert_eq!(Level::default().level(), flate2::Compression::default().level());
    assert_eq!(Level::fast().level(), 1);
    assert_eq!(GzipConfig::default().level.level(), 6);
    assert_eq!(ZlibConfig::default().level.level(), 6);
    assert_eq!(ZstdConfig::default().level.level(), 6);
    assert_eq!(gzip(1).level().level(), 1);
    assert_eq!(zlib(2).level().level(), 2);
    assert_eq!(zstandard(3).level().level(), 3);
    assert_eq!(CompressionEncoding::Gzip(None).level().level(), 6);
    assert_eq!(CompressionEncoding::Identity.level().level(), 6);
}

#[test]
fn equality_goes_by_kind() {
    let all = [CompressionEncoding::Identity, gzip(1), zlib(1), zstandard(1)];
    for (i, left) in all.iter().enumerate() {
        for (j, right) in all.iter().enumerate() {
            assert_eq!(left == right, i == j);
        }
    }
    assert!(gzip(1) == gzip(9));
    assert!(zlib(1) == CompressionEncoding::Zlib(None));
}

#[test]
fn names_in_header_values() {
    assert_eq!(gzip(1).into_header_value(), "gzip");
    assert_eq!(zlib(1).into_header_value(), "zlib");
    assert_eq!(CompressionEncoding::Zstd(None).into_header_value(), "zstd");
    assert_eq!(CompressionEncoding::Identity.into_header_value(), "identity");
}

#[test]
fn composed_lists() {
    assert_eq!(compose_encodings(&[]), "");
    assert_eq!(compose_encodings(&[zstandard(1)]), "zstd");
    assert_eq!(
        compose_encodings(&[gzip(1), CompressionEncoding::Identity, zlib(1), zstandard(1)]),
        "gzip,identity,zlib,zstd"
    );
    let list = [gzip(1), zlib(2)];
    assert_eq!(zstandard(1).into_accept_encoding_header_value(&list).unwrap(), "gzip,zlib");
    assert!(CompressionEncoding::Identity.into_accept_encoding_header_value(&list).is_none());
}

#[test]
fn picks_by_the_order_of_the_peer() {
    let available = [zstandard(1), gzip(2), zlib(3), gzip(4)];
    let pick = |list: &[u8]| pick_accepted(list, &available).map(|e| (e.into_header_value(), e.level().level()));
    assert_eq!(pick(b"gzip,zstd"), Some((HeaderValue::from_static("gzip"), 2)));
    assert_eq!(pick(b" zlib\t, gzip"), Some((HeaderValue::from_static("zlib"), 3)));
    assert_eq!(pick(b"br,identity,,zstd"), Some((HeaderValue::from_static("zstd"), 1)));
    assert_eq!(pick(b"identity"), None);
    assert_eq!(pick(b""), None);
    assert_eq!(pick(b"GZIP"), None);
    assert_eq!(pick(b"gz ip"), None);
    assert_eq!(pick(b"gzip;q=1"), None);
    assert!(pick_accepted(b"gzip", &[zlib(1)]).is_none());
    assert!(pick_accepted(b"gzip,zlib", &[zlib(1)]).unwrap() == zlib(1));
    assert!(pick_accepted(b"gzip", &[]).is_none());
}

#[test]
fn accept_list_in_headers() {
    let config = Some(vec![gzip(5), zstandard(7)]);
    let map = headers(ACCEPT_ENCODING_HEADER, b"zlib, zstd, gzip");
    let picked = CompressionEncoding::from_accept_encoding_header(&map, &config).unwrap();
    assert!(picked == CompressionEncoding::Zstd(None));
    assert_eq!(picked.level().level(), 7);
    assert!(CompressionEncoding::from_accept_encoding_header(&map, &None).is_none());
    assert!(CompressionEncoding::from_accept_encoding_header(&map, &Some(Vec::new())).is_none());
    let empty = HeaderMap::new();
    assert!(CompressionEncoding::from_accept_encoding_header(&empty, &config).is_none());
    let opaque = headers(ACCEPT_ENCODING_HEADER, b"gzip,\xff");
    assert!(CompressionEncoding::from_accept_encoding_header(&opaque, &config).is_none());
    let other = headers(ENCODING_HEADER, b"gzip");
    assert!(CompressionEncoding::from_accept_encoding_header(&other, &config).is_none());
    let mut two = headers(ACCEPT_ENCODING_HEADER, b"br");
    two.append(ACCEPT_ENCODING_HEADER, HeaderValue::from_static("gzip"));
    assert!(CompressionEncoding::from_accept_encoding_header(&two, &config).is_none());
}

#[test]
fn composed_list_is_understood_by_the_peer() {
    let mine = [CompressionEncoding::Identity, zlib(1), gzip(2)];
    let yours = Some(vec![gzip(8), zstandard(9)]);
    let mut map = HeaderMap::new();
    map.insert(ACCEPT_ENCODING_HEADER, compose_encodings(&mine));
    let picked = CompressionEncoding::from_accept_encoding_header(&map, &yours).unwrap();
    assert!(picked == gzip(8));
    assert_eq!(picked.level().level(), 8);
    let nothing = Some(vec![zstandard(9), CompressionEncoding::Identity]);
    assert!(CompressionEncoding::from_accept_encoding_header(&map, &nothing).is_none());
}

#[test]
fn announced_encoding_in_headers() {
    let config = Some(vec![gzip(5), zlib(5), CompressionEncoding::Zstd(None)]);
    for encoding in [gzip(1), zlib(1), zstandard(1)] {
        let mut map = HeaderMap::new();
        map.insert(ENCODING_HEADER, encoding.into_header_value());
        let read = CompressionEncoding::from_encoding_header(&map, &config).unwrap().unwrap();
        assert!(read == encoding);
        assert_eq!(read.level().level(), 6);
    }
    let map = headers(ENCODING_HEADER, b"identity");
    assert!(CompressionEncoding::from_encoding_header(&map, &config).unwrap().is_none());
    let empty = HeaderMap::new();
    assert!(CompressionEncoding::from_encoding_header(&empty, &config).unwrap().is_none());
    let unknown = headers(ENCODING_HEADER, b"br");
    assert!(CompressionEncoding::from_encoding_header(&unknown, &None).unwrap().is_none());
}

#[test]
fn refused_encodings_in_headers() {
    let config = Some(vec![gzip(5)]);
    for name in ["br", "zlib", " gzip", "GZIP", ""] {
        let map = headers(ENCODING_HEADER, name.as_bytes());
        match CompressionEncoding::from_encoding_header(&map, &config) {
            Err(Status::Unimplemented { message }) => assert_eq!(
                message,
                format!("Content is compressed with `{name}` which isn't supported")
            ),
            _ => panic!("accepted {name}"),
        }
    }
    let opaque = headers(ENCODING_HEADER, b"gzip\xe9");
    assert!(matches!(
        CompressionEncoding::from_encoding_header(&opaque, &config),
        Err(Status::InvalidHeader)
    ));
}

#[test]
fn announced_names() {
    let all = [gzip(1), zlib(1), zstandard(1)];
    assert!(read_announced("zstd", &all).unwrap().unwrap() == zstandard(1));
    assert!(read_announced("identity", &[]).unwrap().is_none());
    assert!(read_announced("gzip", &[]).is_err());
    assert!(read_announced("gz\u{131}p", &all).is_err());
}

#[test]
fn level_zero_is_the_default_of_zstd() {
    let mut zero = LinkedBytes::new();
    compress(zstandard(0), &mut filled(b"test compression"), &mut zero).unwrap();
    let mut three = LinkedBytes::new();
    let default = zstd::DEFAULT_COMPRESSION_LEVEL as u32;
    compress(zstandard(default), &mut filled(b"test compression"), &mut three).unwrap();
    assert_eq!(zero.bytes(), three.bytes());
}

#[test]
fn a_success_drains_the_source() {
    let mut src = filled(b"sealed");
    src.split();
    src.put(&b"open"[..]);
    assert!(settle_open(Ok(()), &mut src).is_ok());
    assert_eq!(src.concat(), &b"sealed"[..]);
    let mut src = BytesMut::from(&b"held"[..]);
    assert!(settle_held(Ok(7), &mut src).is_ok());
    assert!(src.is_empty());
}

#[test]
fn a_failure_keeps_the_source_and_its_error() {
    let mut src = filled(b"open");
    let cause = std::io::Error::new(std::io::ErrorKind::OutOfMemory, "no tables");
    let error = settle_open(Err(cause), &mut src).unwrap_err();
    assert_eq!(error.cause.kind(), std::io::ErrorKind::OutOfMemory);
    assert_eq!(error.cause.to_string(), "no tables");
    assert_eq!(&src.bytes()[..], b"open");
    let mut src = BytesMut::from(&b"held"[..]);
    let cause = std::io::Error::new(std::io::ErrorKind::OutOfMemory, "no window");
    let error = settle_held(Err(cause), &mut src).unwrap_err();
    assert_eq!(error.cause.to_string(), "no window");
    assert_eq!(&src[..], b"held");
}

#[test]
fn the_error_is_that_of_the_decompressor() {
    let mut src = BytesMut::from(&b"not gzip"[..]);
    let mut out = BytesMut::new();
    let error = decompress(CompressionEncoding::Gzip(None), &mut src, &mut out).unwrap_err();
    let mut sink = Vec::new();
    let expected =
        std::io::copy(&mut flate2::bufread::GzDecoder::new(&b"not gzip"[..]), &mut sink).unwrap_err();
    assert_eq!(error.cause.kind(), expected.kind());
    assert_eq!(error.cause.to_string(), expected.to_string());
}

#[test]
fn known_levels() {
    for encoding in [gzip(0), gzip(10), zlib(0), zlib(10), zstandard(0), zstandard(u32::MAX)] {
        assert!(encoding.knows_level());
    }
    assert!(CompressionEncoding::Identity.knows_level());
    assert!(CompressionEncoding::Gzip(None).knows_level());
    assert!(!gzip(11).knows_level());
    assert!(!zlib(11).knows_level());
}
