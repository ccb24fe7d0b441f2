use volo_codec::text::{append_decimal, parse_usize, same, trim};

#[test]
fn trimming_agrees_with_strings() {
    for s in ["", " ", "\t \n", "a", " a", "a ", " \ta b\r\n", "\u{b}x\u{c}", "\u{1f}y\0"] {
        assert_eq!(trim(s.as_bytes()), s.trim().as_bytes());
    }
}

#[test]
fn parsing_agrees_with_strings() {
    let mut texts: Vec<String> = Vec::new();
    for s in ["", "+", "-", "0", "+0", "-0", "++1", "1+", "007", " 1", "1 ", "0x1", "1e3", "12345"] {
        texts.push(s.to_string());
    }
    for offset in 0..3u128 {
        texts.push((usize::MAX as u128 - 1 + offset).to_string());
        texts.push(format!("000{}", usize::MAX as u128 - 1 + offset));
    }
    texts.push(format!("{}0", usize::MAX));
    for s in texts {
        assert_eq!(parse_usize(s.as_bytes()), s.parse::<usize>().ok());
    }
}

#[test]
fn decimals_agree_with_strings() {
    for n in 0..=255u8 {
        let mut text = String::from("n=");
        append_decimal(&mut text, n);
        assert_eq!(text, format!("n={n}"));
        assert_eq!(parse_usize(&text.as_bytes()[2..]), Some(n as usize));
    }
}

#[test]
fn octet_strings_are_compared() {
    assert!(same(b"", b""));
    assert!(same(b"gzip", b"gzip"));
    assert!(!same(b"gzip", b"gzi"));
    assert!(!same(b"gzip", b"gzis"));
}
