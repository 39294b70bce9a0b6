use dns_over_https_proxy::name::{
    accept_name, find_name_end, is_absolute, mentions_bit_label, parse_name,
};
use dns_over_https_proxy::pdns::{DnsAnswer, DnsQuestion, DEFAULT_TTL};
use dns_over_https_proxy::record::{
    encode_txt, field_count, parse_data, parse_mx, parse_soa, parse_srv, convert,
    convert_all, Record, RecordData, RecordError, RecordKind,
};
use dns_over_https_proxy::wire::{compose, Header};

fn answer(name: &str, typ: u16, ttl: Option<u32>, data: &str) -> DnsAnswer {
    DnsAnswer { name: name.to_string(), typ, ttl, data: data.to_string() }
}

fn name(text: &str) -> Vec<u8> {
    parse_name(text).unwrap()
}

#[test]
fn kinds_follow_their_codes() {
    assert_eq!(RecordKind::from_code(1), RecordKind::A);
    assert_eq!(RecordKind::from_code(2), RecordKind::Ns);
    assert_eq!(RecordKind::from_code(5), RecordKind::Cname);
    assert_eq!(RecordKind::from_code(6), RecordKind::Soa);
    assert_eq!(RecordKind::from_code(12), RecordKind::Ptr);
    assert_eq!(RecordKind::from_code(15), RecordKind::Mx);
    assert_eq!(RecordKind::from_code(16), RecordKind::Txt);
    assert_eq!(RecordKind::from_code(28), RecordKind::Aaaa);
    assert_eq!(RecordKind::from_code(33), RecordKind::Srv);
    assert_eq!(RecordKind::from_code(0), RecordKind::Unsupported(0));
    assert_eq!(RecordKind::from_code(13), RecordKind::Unsupported(13));
    assert_eq!(RecordKind::from_code(46), RecordKind::Unsupported(46));
    assert_eq!(RecordKind::from_code(65535), RecordKind::Unsupported(65535));
}

#[test]
fn only_nine_codes_are_supported() {
    let supported = [1u16, 2, 5, 6, 12, 15, 16, 28, 33];
    for code in 0..=u16::MAX {
        let kind = RecordKind::from_code(code);
        assert_eq!(kind == RecordKind::Unsupported(code), !supported.contains(&code));
    }
}

#[test]
fn names_are_read_in_wire_format() {
    assert_eq!(name("example.com."), b"\x07example\x03com\x00".to_vec());
    assert_eq!(name("."), vec![0u8]);
    assert_eq!(name("a.b.c."), b"\x01a\x01b\x01c\x00".to_vec());
    assert_eq!(name("a\\.b.c."), b"\x03a.b\x01c\x00".to_vec());
    assert_eq!(name("\\065.c."), b"\x01A\x01c\x00".to_vec());
}

#[test]
fn relative_and_malformed_names_are_rejected() {
    assert_eq!(parse_name("example.com"), None);
    assert_eq!(parse_name(""), None);
    assert_eq!(parse_name("a..b."), None);
    assert_eq!(parse_name(".a."), None);
    assert_eq!(parse_name("exa mple.com.\u{e9}"), None);
    assert_eq!(parse_name("caf\u{e9}.example."), None);
    let long = format!("{}.com.", "a".repeat(64));
    assert_eq!(parse_name(&long), None);
    let longest = format!("{}.com.", "a".repeat(63));
    assert_eq!(parse_name(&longest).unwrap().len(), 64 + 5);
}

#[test]
fn bit_string_labels_are_rejected() {
    assert_eq!(parse_name("\\[b11010000011101]."), None);
    assert_eq!(parse_name("\\[o]."), None);
    assert_eq!(parse_name("\\[x]"), None);
    assert_eq!(parse_name("www.\\[1.2.3.4/0].example."), None);
    assert_eq!(parse_name("a\\[b.example."), None);
    assert!(mentions_bit_label(b"\\["));
    assert!(mentions_bit_label(b"ab\\[cd"));
    assert!(!mentions_bit_label(b"\\"));
    assert!(!mentions_bit_label(b"[\\"));
    assert!(!mentions_bit_label(b"\\a["));
    assert!(!mentions_bit_label(b""));
    assert_eq!(name("a[b].example."), b"\x04a[b]\x07example\x00".to_vec());
}

#[test]
fn absolute_names_are_recognised() {
    assert!(is_absolute(b"\x00"));
    assert!(is_absolute(b"\x03com\x00"));
    assert!(is_absolute(b"\x01\x00\x00"));
    assert!(!is_absolute(b""));
    assert!(!is_absolute(b"\x03com"));
    assert!(!is_absolute(b"\x03co"));
    assert!(!is_absolute(b"\x00\x00"));
    assert!(!is_absolute(b"\x03com\x00\x00"));
    assert!(!is_absolute(b"\x40\x00"));
    assert!(!is_absolute(b"\xc0\x0c"));
    assert!(!is_absolute(b"\x41\x01\x80\x00"));
}

#[test]
fn accept_name_keeps_absolute_names_only() {
    assert_eq!(accept_name(Some(b"\x03com\x00".to_vec())), Some(b"\x03com\x00".to_vec()));
    assert_eq!(accept_name(Some(b"\x03com".to_vec())), None);
    assert_eq!(accept_name(Some(Vec::new())), None);
    assert_eq!(accept_name(None), None);
}

#[test]
fn name_end_is_found_in_a_message() {
    let msg = b"............\x03www\x07example\x00\x00\x01";
    assert_eq!(find_name_end(msg, 12), Some(25));
    assert_eq!(find_name_end(msg, 16), Some(25));
    assert_eq!(find_name_end(msg, 24), Some(25));
    assert_eq!(find_name_end(msg, 27), None);
    assert_eq!(find_name_end(msg, 100), None);
    assert_eq!(find_name_end(b"\x05ab", 0), None);
    assert_eq!(find_name_end(b"\xc0\x00", 0), None);
    assert_eq!(find_name_end(b"\x01a", 0), None);
}

#[test]
fn a_record_is_converted() {
    let rec = convert(&answer("example.com.", 1, Some(300), "93.184.216.34")).unwrap().unwrap();
    assert_eq!(
        rec,
        Record {
            name: b"\x07example\x03com\x00".to_vec(),
            ttl: 300,
            data: RecordData::A([93, 184, 216, 34]),
        }
    );
}

#[test]
fn default_ttl_is_180() {
    assert_eq!(DEFAULT_TTL, 180);
    let a = answer("example.com.", 1, None, "93.184.216.34");
    assert_eq!(a.ttl_or_default(), 180);
    assert_eq!(convert(&a).unwrap().unwrap().ttl, 180);
    assert_eq!(answer("example.com.", 1, Some(0), "1.1.1.1").ttl_or_default(), 0);
}

#[test]
fn each_kind_of_data_is_converted() {
    let cases: Vec<(u16, &str, RecordData)> = vec![
        (28, "::1", RecordData::Aaaa([0, 0, 0, 0, 0, 0, 0, 1])),
        (5, "b.example.", RecordData::Cname(name("b.example."))),
        (2, "ns.example.", RecordData::Ns(name("ns.example."))),
        (12, "host.example.", RecordData::Ptr(name("host.example."))),
        (15, "10 mx.example.", RecordData::Mx { preference: 10, exchange: name("mx.example.") }),
        (
            6,
            "a. b. 1 2 3 4 5",
            RecordData::Soa {
                mname: name("a."),
                rname: name("b."),
                serial: 1,
                refresh: 2,
                retry: 3,
                expire: 4,
                minimum: 5,
            },
        ),
        (
            33,
            "1 2 3 t.example.",
            RecordData::Srv { priority: 1, weight: 2, port: 3, target: name("t.example.") },
        ),
        (16, "\"hi\"", RecordData::Txt(vec![2, b'h', b'i'])),
    ];
    for (typ, data, expected) in cases {
        let rec = convert(&answer("o.example.", typ, Some(7), data)).unwrap().unwrap();
        assert_eq!(rec.name, name("o.example."));
        assert_eq!(rec.ttl, 7);
        assert_eq!(rec.data, expected);
        assert_eq!(parse_data(RecordKind::from_code(typ), data), Ok(rec.data));
    }
}

#[test]
fn unsupported_kinds_are_left_out() {
    for typ in [0u16, 13, 46, 48, 257, 65535] {
        assert_eq!(convert(&answer("example.com.", typ, None, "whatever")), Ok(None));
        // Not even the owner name is looked at.
        assert_eq!(convert(&answer("not a name", typ, None, "")), Ok(None));
    }
}

#[test]
fn soa_and_srv_with_wrong_field_count_are_left_out() {
    assert_eq!(convert(&answer("example.com.", 33, None, "10 20 30")), Ok(None));
    assert_eq!(convert(&answer("example.com.", 33, None, "1 2 3 t. extra")), Ok(None));
    assert_eq!(convert(&answer("example.com.", 33, None, "1 2  3 t.")), Ok(None));
    assert_eq!(convert(&answer("example.com.", 33, None, "")), Ok(None));
    assert_eq!(convert(&answer("example.com.", 6, None, "a. b. 1 2 3 4")), Ok(None));
    assert_eq!(convert(&answer("example.com.", 6, None, "a. b. 1 2 3 4 5 6")), Ok(None));
    assert_eq!(convert(&answer("bad owner", 6, None, "a. b. 1 2 3 4")), Ok(None));
}

#[test]
fn soa_and_srv_with_unreadable_fields_fail() {
    assert_eq!(convert(&answer("e.", 33, None, "x 2 3 t.")), Err(RecordError::Number));
    assert_eq!(convert(&answer("e.", 33, None, "1 2 65536 t.")), Err(RecordError::Number));
    assert_eq!(convert(&answer("e.", 33, None, "1 2 3 t")), Err(RecordError::Name));
    assert_eq!(convert(&answer("e.", 33, None, "x 2 3 t")), Err(RecordError::Number));
    assert_eq!(convert(&answer("e", 33, None, "x 2 3 t")), Err(RecordError::Name));
    assert_eq!(convert(&answer("e.", 6, None, "a b. 1 2 3 4 5")), Err(RecordError::Name));
    assert_eq!(convert(&answer("e.", 6, None, "a. b. 1 2 3 4 -5")), Err(RecordError::Number));
    assert_eq!(
        convert(&answer("e.", 6, None, "a. b. 4294967296 2 3 4 5")),
        Err(RecordError::Number)
    );
    assert_eq!(convert(&answer("e.", 6, None, "a b. x 2 3 4 5")), Err(RecordError::Name));
    assert_eq!(parse_srv("1 2 3 t"), Err(RecordError::Name));
    assert_eq!(parse_soa("a. b 1 2 3 4 5"), Err(RecordError::Name));
}

#[test]
fn mx_needs_exactly_two_fields() {
    assert_eq!(convert(&answer("e.", 15, None, "10")), Err(RecordError::Fields));
    assert_eq!(convert(&answer("e.", 15, None, "10 mx. extra")), Err(RecordError::Fields));
    assert_eq!(convert(&answer("e.", 15, None, "")), Err(RecordError::Fields));
    assert_eq!(convert(&answer("e", 15, None, "10")), Err(RecordError::Fields));
    assert_eq!(convert(&answer("e.", 15, None, "ten mx.")), Err(RecordError::Number));
    assert_eq!(convert(&answer("e.", 15, None, "70000 mx.")), Err(RecordError::Number));
    assert_eq!(convert(&answer("e.", 15, None, "10 mx")), Err(RecordError::Name));
    assert_eq!(convert(&answer("e", 15, None, "ten mx")), Err(RecordError::Name));
    assert_eq!(parse_mx("1"), Err(RecordError::Fields));
    assert_eq!(parse_mx("x y."), Err(RecordError::Number));
    assert_eq!(
        parse_mx("+7 y."),
        Ok(RecordData::Mx { preference: 7, exchange: b"\x01y\x00".to_vec() })
    );
}

#[test]
fn unreadable_addresses_and_names_fail() {
    assert_eq!(convert(&answer("e.", 1, None, "1.2.3")), Err(RecordError::Address));
    assert_eq!(convert(&answer("e.", 1, None, "::1")), Err(RecordError::Address));
    assert_eq!(convert(&answer("e.", 28, None, "1.2.3.4")), Err(RecordError::Address));
    assert_eq!(convert(&answer("e.", 28, None, "")), Err(RecordError::Address));
    assert_eq!(convert(&answer("e.", 5, None, "relative")), Err(RecordError::Name));
    assert_eq!(convert(&answer("e.", 2, None, "a..b.")), Err(RecordError::Name));
    assert_eq!(convert(&answer("e.", 12, None, "")), Err(RecordError::Name));
    assert_eq!(convert(&answer("relative", 1, None, "1.2.3.4")), Err(RecordError::Name));
    assert_eq!(convert(&answer("relative", 1, None, "bad")), Err(RecordError::Name));
    assert_eq!(convert(&answer("e.", 16, None, "anything at all")).unwrap().is_some(), true);
    assert_eq!(convert(&answer("e", 16, None, "\"x\"")), Err(RecordError::Name));
}

#[test]
fn answer_list_keeps_order_and_drops_skipped_records() {
    let list = vec![
        answer("a.example.", 1, Some(1), "10.0.0.1"),
        answer("b.example.", 99, Some(2), "ignored"),
        answer("c.example.", 33, Some(3), "10 20 30"),
        answer("d.example.", 1, Some(4), "10.0.0.4"),
        answer("e.example.", 6, Some(5), "too few"),
        answer("f.example.", 16, Some(6), "\"t\""),
    ];
    let records = convert_all(&list).unwrap();
    let ttls: Vec<u32> = records.iter().map(|r| r.ttl).collect();
    assert_eq!(ttls, vec![1, 4, 6]);
    assert_eq!(records[1].data, RecordData::A([10, 0, 0, 4]));
    assert_eq!(convert_all(&Vec::new()), Ok(Vec::new()));
}

#[test]
fn first_failing_answer_decides_the_error() {
    let list = vec![
        answer("a.example.", 1, Some(1), "10.0.0.1"),
        answer("b.example.", 33, Some(2), "1 2 x t."),
        answer("c.example.", 1, Some(3), "bad"),
    ];
    assert_eq!(convert_all(&list), Err(RecordError::Number));
    let list = vec![
        answer("c.example.", 1, Some(3), "bad"),
        answer("b.example.", 33, Some(2), "1 2 x t."),
    ];
    assert_eq!(convert_all(&list), Err(RecordError::Address));
    let list = vec![
        answer("c.example.", 99, Some(3), "bad"),
        answer("b.example", 5, Some(2), "t."),
    ];
    assert_eq!(convert_all(&list), Err(RecordError::Name));
}

#[test]
fn txt_data_is_segmented_at_quotes() {
    assert_eq!(encode_txt(b"\"hello\" \"world\""), b"\x05hello\x01 \x05world".to_vec());
    assert_eq!(encode_txt(b"\"hello\"\"world\""), b"\x05hello\x05world".to_vec());
    assert_eq!(encode_txt(b"\"one\""), b"\x03one".to_vec());
    assert_eq!(encode_txt(b"bare"), b"\x04bare".to_vec());
    assert_eq!(encode_txt(b""), Vec::<u8>::new());
    assert_eq!(encode_txt(b"\"\""), Vec::<u8>::new());
    assert_eq!(encode_txt(b"\"\"\"\""), Vec::<u8>::new());
    assert_eq!(encode_txt("\"\u{e9}\"".as_bytes()), vec![2, 0xc3, 0xa9]);
}

#[test]
fn txt_length_byte_is_the_length_modulo_256() {
    let text = vec![b'a'; 255];
    let out = encode_txt(&text);
    assert_eq!(out.len(), 256);
    assert_eq!(out[0], 255);
    let text = vec![b'a'; 256];
    let out = encode_txt(&text);
    assert_eq!(out.len(), 257);
    assert_eq!(out[0], 0);
    let text = vec![b'a'; 300];
    let out = encode_txt(&text);
    assert_eq!(out.len(), 301);
    assert_eq!(out[0], 44);
    assert_eq!(&out[1..], &text[..]);
}

#[test]
fn fields_between_spaces_are_counted() {
    assert_eq!(field_count(b""), 1);
    assert_eq!(field_count(b"a"), 1);
    assert_eq!(field_count(b"a b"), 2);
    assert_eq!(field_count(b"a  b"), 3);
    assert_eq!(field_count(b" a b "), 4);
    assert_eq!(field_count(b"10 20 30"), 3);
}

#[test]
fn compose_lays_out_header_counts_and_question() {
    let h = Header { id: 0x0a0b, qr: true, rd: true, ra: true, ad: true, cd: true, rcode: 0xf3 };
    let out = compose(512, &h, None, &Vec::new());
    assert_eq!(out, vec![0x0a, 0x0b, 0x81, 0xb3, 0, 0, 0, 0, 0, 0, 0, 0]);
    let h = Header { id: 1, qr: false, rd: false, ra: false, ad: false, cd: false, rcode: 0 };
    let out = compose(12, &h, None, &Vec::new());
    assert_eq!(out, vec![0, 1, 0, 0, 0, 0, 0, 0, 0, 0, 0, 0]);
}

#[test]
fn compose_drops_what_does_not_fit() {
    let h = Header { id: 1, qr: true, rd: false, ra: false, ad: false, cd: false, rcode: 0 };
    let rec = Record { name: vec![0], ttl: 9, data: RecordData::A([1, 2, 3, 4]) };
    // Header 12, record 1 + 10 + 4.
    let fits = compose(27, &h, None, &vec![rec.clone()]);
    assert_eq!(fits.len(), 27);
    assert_eq!(&fits[2..8], &[0x80, 0, 0, 0, 0, 1]);
    assert_eq!(&fits[12..], &[0, 0, 1, 0, 1, 0, 0, 0, 9, 0, 4, 1, 2, 3, 4]);
    let cut = compose(26, &h, None, &vec![rec.clone()]);
    assert_eq!(cut, vec![0, 1, 0x82, 0, 0, 0, 0, 0, 0, 0, 0, 0]);
    // Nothing is added behind a record that was dropped.
    let big = Record { name: vec![0], ttl: 9, data: RecordData::Txt(vec![b'x'; 40]) };
    let out = compose(40, &h, None, &vec![rec.clone(), big, rec.clone()]);
    assert_eq!(out.len(), 27);
    assert_eq!(&out[2..8], &[0x82, 0, 0, 0, 0, 1]);
}

#[test]
fn compressed_names_take_less_room() {
    let h = Header { id: 1, qr: true, rd: false, ra: false, ad: false, cd: false, rcode: 0 };
    let owner = b"\x07example\x03com\x00".to_vec();
    let rec = Record { name: owner.clone(), ttl: 1, data: RecordData::Cname(owner.clone()) };
    let out = compose(512, &h, None, &vec![rec]);
    // The target is written as a pointer to the owner.
    assert_eq!(out.len(), 12 + 13 + 10 + 2);
    assert_eq!(&out[out.len() - 4..], &[0, 2, 0xc0, 12]);
}

#[test]
fn compression_decides_whether_a_record_fits() {
    let h = Header { id: 1, qr: true, rd: false, ra: false, ad: false, cd: false, rcode: 0 };
    let owner = b"\x07example\x03com\x00".to_vec();
    let rec = Record { name: owner.clone(), ttl: 1, data: RecordData::Cname(owner.clone()) };
    // Without compression the record would take 36 bytes, with it 25.
    let out = compose(37, &h, None, &vec![rec.clone()]);
    assert_eq!(out.len(), 37);
    assert_eq!(&out[2..8], &[0x80, 0, 0, 0, 0, 1]);
    let out = compose(36, &h, None, &vec![rec.clone()]);
    assert_eq!(out.len(), 12);
    assert_eq!(&out[2..8], &[0x82, 0, 0, 0, 0, 0]);
    // The owner of a second record is written in full again; only names in
    // the data of CNAME, NS and PTR records are compressed.
    let out = compose(512, &h, None, &vec![rec.clone(), rec.clone()]);
    assert_eq!(out.len(), 12 + 25 + 25);
    let mx = Record {
        name: owner.clone(),
        ttl: 1,
        data: RecordData::Mx { preference: 1, exchange: owner.clone() },
    };
    let out = compose(512, &h, None, &vec![mx]);
    assert_eq!(out.len(), 12 + 13 + 10 + 2 + 13);
}

#[test]
fn skipped_answer_leaves_the_others_as_they_are() {
    let with = vec![
        answer("a.example.", 1, Some(1), "10.0.0.1"),
        answer("c.example.", 33, Some(3), "10 20 30"),
        answer("d.example.", 5, Some(4), "a.example."),
    ];
    let without = vec![
        answer("a.example.", 1, Some(1), "10.0.0.1"),
        answer("d.example.", 5, Some(4), "a.example."),
    ];
    assert_eq!(convert_all(&with), convert_all(&without));
    let with = vec![
        answer("c.example.", 99, Some(3), ""),
        answer("a.example.", 1, Some(1), "bad"),
    ];
    let without = vec![answer("a.example.", 1, Some(1), "bad")];
    assert_eq!(convert_all(&with), convert_all(&without));
    assert_eq!(convert_all(&with), Err(RecordError::Address));
}

#[test]
fn upstream_question_echo_is_plain_data() {
    let q = DnsQuestion { name: "example.com.".to_string(), typ: 1 };
    assert_eq!(q.name, "example.com.");
    assert_eq!(q.typ, 1);
}
