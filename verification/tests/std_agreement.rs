use dns_over_https_proxy::addr::{parse_ipv4, parse_ipv6};
use domain::master::bufscanner::BufScanner;
use domain::rdata::{Aaaa, A};

fn samples() -> Vec<String> {
    let pieces = [
        "", "0", "1", "ff", "FFFF", "12345", "0db8", ":", "::", ".", "1.2.3.4", "255.255.255.255",
        "256.0.0.1", "01.2.3.4", "g", "1:2", "1:2:3:4:5:6:7:8", "1:2:3:4:5:6:7", "1:2:3:4:5:6",
        "a:b:c:d:e:f", "::1", "1::", "0.0.0.0", "1.2.3", "+1", "-", "%1", "1.2.3.4.5",
    ];
    let mut out = Vec::new();
    for a in pieces {
        out.push(a.to_string());
        for b in pieces {
            out.push(format!("{}{}", a, b));
            out.push(format!("{}:{}", a, b));
            out.push(format!("{}::{}", a, b));
            out.push(format!("{}.{}", a, b));
            for c in ["1.2.3.4", "1", "::", ":", "ffff"] {
                out.push(format!("{}:{}:{}", a, b, c));
                out.push(format!("{}::{}:{}", a, b, c));
                out.push(format!("{}:{}::{}", a, b, c));
            }
        }
    }
    out
}

// The zone-file scanner of the `domain` crate reads one word and hands it
// to the standard library's address parser.
fn scanned_a(text: &str) -> Option<[u8; 4]> {
    let mut scanner = BufScanner::create(text.as_bytes().to_vec());
    A::scan(&mut scanner, None).ok().map(|a| a.addr().octets())
}

fn scanned_aaaa(text: &str) -> Option<[u16; 8]> {
    let mut scanner = BufScanner::create(text.as_bytes().to_vec());
    Aaaa::scan(&mut scanner, None).ok().map(|a| a.addr().segments())
}

#[test]
fn scanner_reads_plain_addresses() {
    assert_eq!(scanned_a("192.0.2.1"), Some([192, 0, 2, 1]));
    assert_eq!(scanned_a("192.0.2"), None);
    assert_eq!(scanned_aaaa("2001:db8::1"), Some([0x2001, 0xdb8, 0, 0, 0, 0, 0, 1]));
    assert_eq!(scanned_aaaa("2001:db8:1"), None);
}

#[test]
fn ipv4_agrees_with_the_standard_parser() {
    let mut accepted = 0;
    for text in samples() {
        let theirs = scanned_a(&text);
        if theirs.is_some() {
            accepted += 1;
        }
        assert_eq!(parse_ipv4(text.as_bytes()), theirs, "{:?}", text);
    }
    assert!(accepted >= 3);
}

#[test]
fn ipv6_agrees_with_the_standard_parser() {
    let mut accepted = 0;
    for text in samples() {
        let theirs = scanned_aaaa(&text);
        if theirs.is_some() {
            accepted += 1;
        }
        assert_eq!(parse_ipv6(text.as_bytes()), theirs, "{:?}", text);
    }
    assert!(accepted > 100);
}
