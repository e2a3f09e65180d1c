use rust_proxy::dns::utils::{get_bit, get_value, set_bit, set_value, transform_domain};

#[test]
fn test_get_bit() {
    let cases: [(u16, usize, bool); 2] = [(0xf0f0, 4, true), (0xf0f0, 9, false)];
    for (data, pos, result) in cases {
        assert_eq!(
            get_bit(data, pos),
            result,
            "get_bit({data:02X}, {pos}) != {result}"
        )
    }
}

#[test]
fn test_get_value() {
    let cases: [(u16, usize, usize, u16); 4] = [
        (0xf2, 0, 1, 0),
        (0xf2, 1, 2, 1),
        (0xf2, 1, 3, 1),
        (0xf2, 1, 4, 9),
    ];
    for (data, pos, len, result) in cases {
        assert_eq!(
            get_value(data, pos, len),
            result,
            "get_value({data:02X}, {pos}, {len}) != {result}"
        );
    }
}

#[test]
fn test_set_bit() {
    let cases: [(u16, usize, bool, u16); 4] = [
        (0x11, 0, false, 16),
        (0x11, 4, false, 1),
        (0x01, 0, false, 0),
        (0x01, 1, true, 3),
    ];
    for (data, pos, value, result) in cases {
        assert_eq!(
            set_bit(data, pos, value),
            result,
            "set_bit({data:02X}, {pos}, {value}) != {result}"
        );
    }
}

#[test]
fn test_set_value() {
    let cases: [(u16, usize, usize, u16, u16); 3] = [
        (0b01010101, 1, 1, 0b1, 0b01010111),
        (0b01010101, 1, 2, 0b1, 0b01010011),
        (0b01010101, 2, 3, 0b10, 0b01001001),
    ];
    for (data, pos, len, value, result) in cases {
        assert_eq!(
            set_value(data, pos, len, value),
            result,
            "set_bit({data:08b}, {pos}, {len}, {value:08b}) != {result:08b}"
        );
    }
}

#[test]
fn get_bit_reads_every_position() {
    for pos in 0..16usize {
        assert!(get_bit(0xffff, pos));
        assert!(!get_bit(0x0000, pos));
        assert_eq!(get_bit(1u16 << pos, pos), true);
        assert_eq!(get_bit(!(1u16 << pos), pos), false);
    }
    assert!(get_bit(0x8000, 15));
    assert!(!get_bit(0x7fff, 15));
}

#[test]
fn get_value_at_the_borders() {
    assert_eq!(get_value(0xabcd, 0, 16), 0xabcd);
    assert_eq!(get_value(0xabcd, 12, 4), 0xa);
    assert_eq!(get_value(0xabcd, 15, 1), 1);
    assert_eq!(get_value(0xabcd, 0, 4), 0xd);
    assert_eq!(get_value(0x8180, 11, 4), 0);
    assert_eq!(get_value(0x7800, 11, 4), 15);
}

#[test]
fn set_bit_changes_one_bit_only() {
    for pos in 0..16usize {
        let set = set_bit(0x5a5a, pos, true);
        let cleared = set_bit(0x5a5a, pos, false);
        for other in 0..16usize {
            if other == pos {
                assert!(get_bit(set, other));
                assert!(!get_bit(cleared, other));
            } else {
                assert_eq!(get_bit(set, other), get_bit(0x5a5a, other));
                assert_eq!(get_bit(cleared, other), get_bit(0x5a5a, other));
            }
        }
    }
}

#[test]
fn set_value_then_get_value_gives_the_value_back() {
    for pos in 0..16usize {
        for len in 1..(16 - pos).min(15) + 1 {
            if len >= 16 {
                continue;
            }
            let value: u16 = 0x5555 & ((1u16 << len) - 1);
            let word = set_value(0xffff, pos, len, value);
            assert_eq!(get_value(word, pos, len), value);
            let word = set_value(0x0000, pos, len, value);
            assert_eq!(get_value(word, pos, len), value);
            assert_eq!(word, value << pos);
        }
    }
}

#[test]
fn set_value_of_no_bits_only_ors() {
    assert_eq!(set_value(0x00f0, 4, 0, 0), 0x00f0);
    assert_eq!(set_value(0x00f0, 0, 0, 0x000f), 0x00ff);
}

#[test]
fn set_value_lets_wide_values_spill_upwards() {
    assert_eq!(set_value(0x0000, 0, 4, 0x1f), 0x001f);
    assert_eq!(set_value(0x0100, 4, 3, 0xff), 0x0ff0 | 0x0100);
}

#[test]
fn transform_domain_of_a_plain_name() {
    assert_eq!(
        transform_domain("example.com"),
        vec![7, b'e', b'x', b'a', b'm', b'p', b'l', b'e', 3, b'c', b'o', b'm', 0]
    );
}

#[test]
fn transform_domain_tolerates_a_trailing_dot() {
    assert_eq!(
        transform_domain("example.com."),
        vec![7, b'e', b'x', b'a', b'm', b'p', b'l', b'e', 3, b'c', b'o', b'm', 0]
    );
    assert_eq!(transform_domain("example.com."), transform_domain("example.com"));
}

#[test]
fn transform_domain_edge_cases() {
    assert_eq!(transform_domain(""), vec![0]);
    assert_eq!(transform_domain("."), vec![0, 0]);
    assert_eq!(transform_domain("a"), vec![1, b'a', 0]);
    assert_eq!(transform_domain("a..b"), vec![1, b'a', 0, 1, b'b', 0]);
    assert_eq!(
        transform_domain("www.baidu.com."),
        vec![3, b'w', b'w', b'w', 5, b'b', b'a', b'i', b'd', b'u', 3, b'c', b'o', b'm', 0]
    );
    assert_eq!(transform_domain("foo.local"), b"\x03foo\x05local\x00".to_vec());
}

#[test]
fn transform_domain_counts_octets_not_characters() {
    assert_eq!(transform_domain("é"), vec![2, 0xc3, 0xa9, 0]);
}

#[test]
fn transform_domain_wraps_the_length_of_a_long_label() {
    let long = "a".repeat(300);
    let wire = transform_domain(&long);
    assert_eq!(wire.len(), 302);
    assert_eq!(wire[0], 44);
    assert_eq!(wire[301], 0);
}
