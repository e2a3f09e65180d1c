use rust_proxy::endian::{copy_bytes, push_be16, push_be32, read_be16, read_be32, same_bytes};
use rust_proxy::text::{
    chars_of, config_lines, find_in, first_two, matches_at, next_word, push_chars, push_decimal,
    push_hex_byte, scan, scan_back, trim, CharClass,
};

#[test]
fn push_decimal_agrees_with_formatting() {
    for n in (0..=70000u32).chain([99_999, 100_000, 4_294_967_295]) {
        let mut out = String::from("x");
        push_decimal(&mut out, n);
        assert_eq!(out, format!("x{n}"));
    }
}

#[test]
fn push_hex_byte_agrees_with_formatting() {
    for b in 0..=255u8 {
        let mut out = String::new();
        push_hex_byte(&mut out, b);
        assert_eq!(out, format!("{b:02X}"));
    }
}

#[test]
fn chars_of_and_push_chars() {
    let chars = chars_of("aé\u{1f600}z");
    assert_eq!(chars, vec!['a', 'é', '\u{1f600}', 'z']);
    let mut out = String::from(">");
    push_chars(&mut out, &chars, 1, 3);
    assert_eq!(out, ">é\u{1f600}");
    push_chars(&mut out, &chars, 2, 2);
    assert_eq!(out, ">é\u{1f600}");
    assert_eq!(chars_of(""), Vec::<char>::new());
}

#[test]
fn whitespace_classes_agree_with_std() {
    for code in 0..=0x10ffffu32 {
        if let Some(c) = char::from_u32(code) {
            assert_eq!(CharClass::Whitespace.test(c), c.is_whitespace(), "U+{code:04X}");
            assert_eq!(CharClass::Blank.test(c), c.is_ascii_whitespace(), "U+{code:04X}");
            assert_eq!(CharClass::Word.test(c), !c.is_ascii_whitespace(), "U+{code:04X}");
        }
    }
    assert!(CharClass::Except('\n').test('a'));
    assert!(!CharClass::Except('\n').test('\n'));
}

#[test]
fn scan_finds_the_end_of_a_run() {
    let chars = chars_of("  \tab c");
    assert_eq!(scan(&chars, 0, chars.len(), &CharClass::Blank), 3);
    assert_eq!(scan(&chars, 3, chars.len(), &CharClass::Blank), 3);
    assert_eq!(scan(&chars, 3, chars.len(), &CharClass::Word), 5);
    assert_eq!(scan(&chars, 0, 2, &CharClass::Blank), 2);
    assert_eq!(scan(&chars, 6, chars.len(), &CharClass::Word), 7);
    assert_eq!(scan_back(&chars, 0, chars.len(), &CharClass::Word), 6);
    assert_eq!(scan_back(&chars, 0, 3, &CharClass::Blank), 0);
    assert_eq!(scan_back(&chars, 1, 3, &CharClass::Blank), 1);
}

#[test]
fn trim_agrees_with_std() {
    for text in ["", " ", "a", "  a b  ", "\u{a0}x\u{3000}", "\r\n\t", "x\u{2003}", "\u{85}"] {
        let chars = chars_of(text);
        let (a, b) = trim(&chars, 0, chars.len());
        let trimmed: String = chars[a..b].iter().collect();
        assert_eq!(trimmed, text.trim());
    }
}

#[test]
fn next_word_agrees_with_std() {
    for text in ["", "   ", "one", " one two  three ", "a\u{a0}b c", "\u{c}x\ry\nz\tw"] {
        let chars = chars_of(text);
        let mut words = Vec::new();
        let mut from = 0;
        while let Some((a, b)) = next_word(&chars, from, chars.len()) {
            words.push(chars[a..b].iter().collect::<String>());
            from = b;
        }
        let expected: Vec<String> = text.split_ascii_whitespace().map(String::from).collect();
        assert_eq!(words, expected);
    }
}

#[test]
fn first_two_words_of_a_line() {
    let chars = chars_of("  key value more ");
    assert_eq!(
        first_two(&chars, 0, chars.len()),
        Some((String::from("key"), String::from("value")))
    );
    assert_eq!(first_two(&chars, 0, 6), None);
    let chars = chars_of("# key value");
    assert_eq!(first_two(&chars, 0, chars.len()), None);
    assert_eq!(
        first_two(&chars, 1, chars.len()),
        Some((String::from("key"), String::from("value")))
    );
    let chars = chars_of("key #value");
    assert_eq!(
        first_two(&chars, 0, chars.len()),
        Some((String::from("key"), String::from("#value")))
    );
}

#[test]
fn config_lines_takes_the_first_two_words_of_each_line() {
    let text = "a b\n\n# c d\ne\nf g h\r\n i\tj";
    assert_eq!(
        config_lines(text),
        vec![
            (String::from("a"), String::from("b")),
            (String::from("f"), String::from("g")),
            (String::from("i"), String::from("j")),
        ]
    );
    assert_eq!(config_lines(""), vec![]);
    assert_eq!(config_lines("a b"), vec![(String::from("a"), String::from("b"))]);
    assert_eq!(config_lines("a b\n"), vec![(String::from("a"), String::from("b"))]);
}

#[test]
fn find_in_agrees_with_std() {
    let texts = ["", "a", "ab", "aab", "xxabxxab", "ababab", "a\r\nb\r\n", "\r\r\n"];
    let patterns = ["ab", "\r\n", "a", "xab", "abc"];
    for text in texts {
        for pattern in patterns {
            let chars = chars_of(text);
            let needle = chars_of(pattern);
            let expected = match text.find(pattern) {
                Some(at) => text[..at].chars().count(),
                None => chars.len(),
            };
            assert_eq!(find_in(&chars, 0, chars.len(), &needle), expected, "{text:?} {pattern:?}");
        }
    }
    let chars = chars_of("xxabxxab");
    let needle = chars_of("ab");
    assert_eq!(find_in(&chars, 3, chars.len(), &needle), 6);
    assert_eq!(find_in(&chars, 3, 7, &needle), 7);
    assert!(matches_at(&chars, 0, 2, chars.len(), &needle));
    assert!(!matches_at(&chars, 0, 3, chars.len(), &needle));
    assert!(!matches_at(&chars, 0, 6, 7, &needle));
}

#[test]
fn big_endian_numbers() {
    let data = [0x12, 0x34, 0x56, 0x78, 0x9a];
    assert_eq!(read_be16(&data, 0), 0x1234);
    assert_eq!(read_be16(&data, 3), 0x789a);
    assert_eq!(read_be32(&data, 0), 0x12345678);
    assert_eq!(read_be32(&data, 1), 0x3456789a);
    assert_eq!(read_be16(&[0xff, 0xff], 0), 0xffff);
    assert_eq!(read_be32(&[0xff, 0xff, 0xff, 0xff], 0), u32::MAX);
    let mut out = vec![7u8];
    push_be16(&mut out, 0xabcd);
    push_be32(&mut out, 0x01020304);
    push_be16(&mut out, 0);
    push_be32(&mut out, u32::MAX);
    assert_eq!(out, vec![7, 0xab, 0xcd, 1, 2, 3, 4, 0, 0, 0xff, 0xff, 0xff, 0xff]);
    for n in [0u16, 1, 255, 256, 0x1234, 0xffff] {
        let mut out = Vec::new();
        push_be16(&mut out, n);
        assert_eq!(out, n.to_be_bytes().to_vec());
        assert_eq!(read_be16(&out, 0), n);
    }
    for n in [0u32, 1, 0xff, 0x100, 0xffff, 0x10000, 0xdeadbeef, u32::MAX] {
        let mut out = Vec::new();
        push_be32(&mut out, n);
        assert_eq!(out, n.to_be_bytes().to_vec());
        assert_eq!(read_be32(&out, 0), n);
    }
}

#[test]
fn byte_strings() {
    assert_eq!(copy_bytes(&[1, 2, 3]), vec![1, 2, 3]);
    assert_eq!(copy_bytes(&[]), Vec::<u8>::new());
    assert!(same_bytes(&[], &[]));
    assert!(same_bytes(&[1, 2], &[1, 2]));
    assert!(!same_bytes(&[1, 2], &[1, 3]));
    assert!(!same_bytes(&[1, 2], &[1]));
    assert!(!same_bytes(&[1], &[1, 2]));
}
