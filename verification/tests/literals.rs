use dns_over_https_proxy::addr::{parse_hex_group, parse_ipv4, parse_ipv6, parse_octet};
use dns_over_https_proxy::text::{field, fields, parse_u16, parse_u32, parse_unsigned, substr};

#[test]
fn fields_are_split_like_str_split() {
    for text in ["", "a", "a b", " a", "a ", "  ", "a  b c", "10 20 30", "x y z w v"] {
        let ranges = fields(text.as_bytes(), b' ');
        let ours: Vec<&[u8]> = ranges.iter().map(|&(a, b)| &text.as_bytes()[a..b]).collect();
        let theirs: Vec<&[u8]> = text.split(' ').map(|s| s.as_bytes()).collect();
        assert_eq!(ours, theirs);
        for k in 0..ranges.len() {
            assert_eq!(field(text.as_bytes(), b' ', &ranges, k), theirs[k]);
        }
    }
    assert_eq!(fields(b"a.b", b'.'), vec![(0, 1), (2, 3)]);
    assert_eq!(fields(b"..", b'.'), vec![(0, 0), (1, 1), (2, 2)]);
}

#[test]
fn substr_cuts_between_boundaries() {
    assert_eq!(substr("h\u{e9}llo w\u{f6}rld", 0, 6), "h\u{e9}llo");
    assert_eq!(substr("h\u{e9}llo w\u{f6}rld", 7, 13), "w\u{f6}rld");
    assert_eq!(substr("abc", 1, 1), "");
    assert_eq!(substr("abc", 0, 3), "abc");
}

#[test]
fn sixteen_bit_numbers_are_read() {
    assert_eq!(parse_u16(b"0"), Some(0));
    assert_eq!(parse_u16(b"10"), Some(10));
    assert_eq!(parse_u16(b"65535"), Some(65535));
    assert_eq!(parse_u16(b"+65535"), Some(65535));
    assert_eq!(parse_u16(b"00000000000000000000000065535"), Some(65535));
    assert_eq!(parse_u16(b"007"), Some(7));
    assert_eq!(parse_u16(b"65536"), None);
    assert_eq!(parse_u16(b"99999999999999999999999999"), None);
    assert_eq!(parse_u16(b""), None);
    assert_eq!(parse_u16(b"+"), None);
    assert_eq!(parse_u16(b"-1"), None);
    assert_eq!(parse_u16(b"-0"), None);
    assert_eq!(parse_u16(b"++1"), None);
    assert_eq!(parse_u16(b"1+"), None);
    assert_eq!(parse_u16(b" 1"), None);
    assert_eq!(parse_u16(b"1 "), None);
    assert_eq!(parse_u16(b"1_000"), None);
    assert_eq!(parse_u16(b"0x10"), None);
    assert_eq!(parse_u16(b"12a"), None);
    assert_eq!(parse_u16(b"99999999999999999999999999x"), None);
}

#[test]
fn numbers_agree_with_the_standard_parser() {
    let samples = [
        "", "0", "1", "+1", "-1", "+", "65535", "65536", "4294967295", "4294967296",
        "000", "+000", "18446744073709551616", "12 ", "1.5", "٣", "１２",
    ];
    for s in samples {
        assert_eq!(parse_u16(s.as_bytes()), s.parse::<u16>().ok(), "{:?}", s);
        assert_eq!(parse_u32(s.as_bytes()), s.parse::<u32>().ok(), "{:?}", s);
    }
    for n in (0..=70000u32).step_by(7) {
        let s = n.to_string();
        assert_eq!(parse_u16(s.as_bytes()), s.parse::<u16>().ok());
        assert_eq!(parse_u32(s.as_bytes()), Some(n));
    }
}

#[test]
fn thirty_two_bit_numbers_are_read() {
    assert_eq!(parse_u32(b"4294967295"), Some(4294967295));
    assert_eq!(parse_u32(b"2024010101"), Some(2024010101));
    assert_eq!(parse_u32(b"4294967296"), None);
    assert_eq!(parse_u32(b"42949672950"), None);
    assert_eq!(parse_unsigned(b"255", 255), Some(255));
    assert_eq!(parse_unsigned(b"256", 255), None);
    assert_eq!(parse_unsigned(b"0", 0), Some(0));
    assert_eq!(parse_unsigned(b"1", 0), None);
}

#[test]
fn octets_are_read() {
    assert_eq!(parse_octet(b"0"), Some(0));
    assert_eq!(parse_octet(b"9"), Some(9));
    assert_eq!(parse_octet(b"10"), Some(10));
    assert_eq!(parse_octet(b"255"), Some(255));
    assert_eq!(parse_octet(b"256"), None);
    assert_eq!(parse_octet(b"00"), None);
    assert_eq!(parse_octet(b"01"), None);
    assert_eq!(parse_octet(b"001"), None);
    assert_eq!(parse_octet(b"1000"), None);
    assert_eq!(parse_octet(b""), None);
    assert_eq!(parse_octet(b"+1"), None);
    assert_eq!(parse_octet(b"1a"), None);
}

#[test]
fn ipv4_literals_are_read() {
    assert_eq!(parse_ipv4(b"93.184.216.34"), Some([93, 184, 216, 34]));
    assert_eq!(parse_ipv4(b"0.0.0.0"), Some([0, 0, 0, 0]));
    assert_eq!(parse_ipv4(b"255.255.255.255"), Some([255, 255, 255, 255]));
    assert_eq!(parse_ipv4(b"1.2.3.4"), Some([1, 2, 3, 4]));
    for bad in [
        "", "1", "1.2.3", "1.2.3.4.5", "1.2.3.", ".1.2.3", "1..2.3", "256.1.1.1", "1.2.3.256",
        "01.2.3.4", "1.2.3.04", "1.2.3.4 ", " 1.2.3.4", "a.b.c.d", "1.2.3.4/8", "1,2,3,4",
        "+1.2.3.4", "1.2.3.-4", "0x1.2.3.4", "1.2.3.4444", "::1",
    ] {
        assert_eq!(parse_ipv4(bad.as_bytes()), None, "{:?}", bad);
    }
}

#[test]
fn hex_groups_are_read() {
    assert_eq!(parse_hex_group(b"0"), Some(0));
    assert_eq!(parse_hex_group(b"f"), Some(15));
    assert_eq!(parse_hex_group(b"F"), Some(15));
    assert_eq!(parse_hex_group(b"0db8"), Some(0x0db8));
    assert_eq!(parse_hex_group(b"FfFf"), Some(0xffff));
    assert_eq!(parse_hex_group(b"0000"), Some(0));
    assert_eq!(parse_hex_group(b""), None);
    assert_eq!(parse_hex_group(b"00000"), None);
    assert_eq!(parse_hex_group(b"12345"), None);
    assert_eq!(parse_hex_group(b"g"), None);
    assert_eq!(parse_hex_group(b"1.2"), None);
    assert_eq!(parse_hex_group(b"@"), None);
    assert_eq!(parse_hex_group(b"`"), None);
    assert_eq!(parse_hex_group(b"G"), None);
}

#[test]
fn ipv6_literals_are_read() {
    let cases: Vec<(&str, [u16; 8])> = vec![
        ("::", [0, 0, 0, 0, 0, 0, 0, 0]),
        ("::1", [0, 0, 0, 0, 0, 0, 0, 1]),
        ("1::", [1, 0, 0, 0, 0, 0, 0, 0]),
        ("2001:db8::1", [0x2001, 0xdb8, 0, 0, 0, 0, 0, 1]),
        ("2001:DB8:0:0:8:800:200C:417A", [0x2001, 0xdb8, 0, 0, 8, 0x800, 0x200c, 0x417a]),
        ("1:2:3:4:5:6:7:8", [1, 2, 3, 4, 5, 6, 7, 8]),
        ("1:2:3:4:5:6:7::", [1, 2, 3, 4, 5, 6, 7, 0]),
        ("::2:3:4:5:6:7:8", [0, 2, 3, 4, 5, 6, 7, 8]),
        ("1::8", [1, 0, 0, 0, 0, 0, 0, 8]),
        ("1:2:3::6:7:8", [1, 2, 3, 0, 0, 6, 7, 8]),
        ("::ffff:192.0.2.128", [0, 0, 0, 0, 0, 0xffff, 0xc000, 0x0280]),
        ("::192.0.2.128", [0, 0, 0, 0, 0, 0, 0xc000, 0x0280]),
        ("64:ff9b::192.0.2.33", [0x64, 0xff9b, 0, 0, 0, 0, 0xc000, 0x0221]),
        ("1:2:3:4:5:6:1.2.3.4", [1, 2, 3, 4, 5, 6, 0x0102, 0x0304]),
        ("1:2:3:4:5::1.2.3.4", [1, 2, 3, 4, 5, 0, 0x0102, 0x0304]),
        ("0000:0000:0000:0000:0000:0000:0000:0001", [0, 0, 0, 0, 0, 0, 0, 1]),
        (
            "2606:2800:220:1:248:1893:25c8:1946",
            [0x2606, 0x2800, 0x220, 1, 0x248, 0x1893, 0x25c8, 0x1946],
        ),
    ];
    for (text, expected) in cases {
        assert_eq!(parse_ipv6(text.as_bytes()), Some(expected), "{:?}", text);
    }
}

#[test]
fn malformed_ipv6_literals_are_rejected() {
    for bad in [
        "", ":", ":::", "1", "1:2", "1:2:3:4:5:6:7", "1:2:3:4:5:6:7:8:9", "1:2:3:4:5:6:7:8::",
        "::1:2:3:4:5:6:7:8", "1::2::3", "::1::", "1:::2", ":1", "1:", ":1:2:3:4:5:6:7",
        "1:2:3:4:5:6:7:", "12345::", "::12345", "g::", "::g", "1.2.3.4", "1.2.3.4::",
        "1.2.3.4::1", "::1.2.3.4:5", "::1.2.3", "::1.2.3.256", "::01.2.3.4",
        "1:2:3:4:5:6:7:1.2.3.4", "1:2:3:4:5:6::1.2.3.4", "1:2:3:4:5:1.2.3.4", "::1 ", " ::1",
        "::1%eth0", "[::1]", "::ffff:1.2.3.4.5", "1:2:3:4:5:6:7:8 ", "::-1", "::+1", "0x1::",
    ] {
        assert_eq!(parse_ipv6(bad.as_bytes()), None, "{:?}", bad);
    }
}
