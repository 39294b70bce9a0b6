use dns_over_https_proxy::pdns::{
    build_params, decimal, padding_len, request_url, Pdns, API_PATH, MAX_PADDING, USER_AGENT,
};
use url::Url;

#[test]
fn padding_length_is_the_low_four_bits() {
    assert_eq!(padding_len(0), 0);
    assert_eq!(padding_len(15), 15);
    assert_eq!(padding_len(16), 0);
    assert_eq!(padding_len(0x1234_5679), 9);
    assert_eq!(padding_len(u32::MAX), 15);
    assert_eq!(MAX_PADDING, 15);
    for sample in 0..1000u32 {
        assert_eq!(padding_len(sample), (sample & 0xf) as usize);
    }
}

#[test]
fn numbers_are_written_in_decimal() {
    assert_eq!(decimal(0), "0");
    assert_eq!(decimal(7), "7");
    assert_eq!(decimal(10), "10");
    assert_eq!(decimal(28), "28");
    assert_eq!(decimal(255), "255");
    assert_eq!(decimal(1000), "1000");
    assert_eq!(decimal(65535), "65535");
    for n in 0..=u16::MAX {
        assert_eq!(decimal(n), n.to_string());
    }
}

#[test]
fn parameters_are_name_type_and_padding() {
    let params = build_params("example.com.", 28, "abc");
    assert_eq!(
        params,
        vec![
            ("name".to_string(), "example.com.".to_string()),
            ("type".to_string(), "28".to_string()),
            ("random_padding".to_string(), "abc".to_string()),
        ]
    );
    assert_eq!(build_params("", 0, "")[1].1, "0");
    assert_eq!(build_params("", 65535, "")[1].1, "65535");
    assert_eq!(build_params("", 100, "")[1].1, "100");
}

#[test]
fn request_url_carries_the_parameters() {
    let url = request_url("example.com.", 1, "Xy9").unwrap();
    assert_eq!(url, "https://dns.google.com/resolve?name=example.com.&type=1&random_padding=Xy9");
    assert_eq!(url, format!("{}?name=example.com.&type=1&random_padding=Xy9", API_PATH));
    let url = request_url("a b&c=d.example.", 255, "").unwrap();
    let parsed = Url::parse(&url).unwrap();
    let pairs: Vec<(String, String)> =
        parsed.query_pairs().map(|(k, v)| (k.into_owned(), v.into_owned())).collect();
    assert_eq!(
        pairs,
        vec![
            ("name".to_string(), "a b&c=d.example.".to_string()),
            ("type".to_string(), "255".to_string()),
            ("random_padding".to_string(), "".to_string()),
        ]
    );
}

#[test]
fn padding_is_short_and_alphanumeric() {
    let mut pdns = Pdns::new().unwrap();
    let mut lengths = [false; 16];
    for _ in 0..2000 {
        let padding = pdns.padding();
        assert!(padding.len() <= 15);
        assert!(padding.chars().all(|c| c.is_ascii_alphanumeric()));
        lengths[padding.len()] = true;
    }
    assert!(lengths.iter().all(|&seen| seen));
}

#[test]
fn lookup_request_is_a_padded_request_url() {
    let mut pdns = Pdns::new().unwrap();
    for _ in 0..50 {
        let url = pdns.lookup_request("example.com.", 16).unwrap();
        let prefix = "https://dns.google.com/resolve?name=example.com.&type=16&random_padding=";
        assert!(url.starts_with(prefix));
        let padding = &url[prefix.len()..];
        assert!(padding.len() <= 15);
        assert!(padding.chars().all(|c| c.is_ascii_alphanumeric()));
        assert_eq!(Some(url.clone()), request_url("example.com.", 16, padding));
    }
}

#[test]
fn client_needs_a_random_source() {
    assert!(Pdns::with_source(None).is_none());
    let mut pdns = Pdns::with_source(rand::OsRng::new().ok()).unwrap();
    assert!(pdns.padding().len() <= 15);
    assert!(Pdns::new().is_some());
}

#[test]
fn user_agent_is_fixed() {
    assert_eq!(USER_AGENT, "DnsOverHttpsProxy/1");
    assert_eq!(API_PATH, "https://dns.google.com/resolve");
}
